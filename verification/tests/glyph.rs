use pain::glyph::{
    family_for, first_installed_family_in, first_present, is_emoji_presentation, monospace_families_of, names_default_monospace, premultiply,
    rasterized, GlyphContent, GlyphPixels,
};

#[test]
fn common_text_symbols_are_not_treated_as_emoji() {
    for c in ['✓', '✔', '✗', '★', '→', '➜', '■', '°', 'A', ' '] {
        assert!(!is_emoji_presentation(c), "{c:?} should be treated as text, not emoji");
    }
}

#[test]
fn astral_emoji_are_recognized() {
    for c in ['😀', '🎉', '🚀', '🧪', '🩰'] {
        assert!(is_emoji_presentation(c), "{c:?} should be recognized as an emoji");
    }
}

#[test]
fn premultiply_scales_channels_by_alpha_and_rounds_to_nearest() {
    assert_eq!(premultiply(&[10, 20, 30, 255]), vec![10, 20, 30, 255]);
    assert_eq!(premultiply(&[255, 255, 255, 0]), vec![0, 0, 0, 0]);
    assert_eq!(premultiply(&[255, 255, 255, 128]), vec![128, 128, 128, 128]);
}

#[test]
fn premultiplied_channels_never_exceed_their_alpha() {
    let mut straight = Vec::new();
    for alpha in (0..=255u32).step_by(17) {
        for channel in (0..=255u32).step_by(15) {
            straight.extend_from_slice(&[channel as u8, 255 - channel as u8, 7, alpha as u8]);
        }
    }
    for px in premultiply(&straight).chunks_exact(4) {
        assert!(px[0] <= px[3] && px[1] <= px[3] && px[2] <= px[3], "texel {px:?}");
    }
    // A trailing partial pixel is dropped.
    assert_eq!(premultiply(&[1, 2, 3, 255, 9, 9]), vec![1, 2, 3, 255]);
    assert_eq!(premultiply(&[200, 100, 50, 64]), vec![50, 25, 13, 64]);
}

#[test]
fn pixels_report_their_kind_and_bytes() {
    let mask = GlyphPixels::Mask(vec![1, 2, 3]);
    let color = GlyphPixels::Color(vec![4, 5, 6, 7]);
    assert!(!mask.is_color());
    assert!(color.is_color());
    assert_eq!(mask.bytes(), &[1, 2, 3]);
    assert_eq!(color.bytes(), &[4, 5, 6, 7]);
}

#[test]
fn a_rasterized_image_becomes_a_glyph_of_the_right_kind() {
    assert!(rasterized(0, 4, 0, 0, GlyphContent::Mask, &[]).is_none());
    assert!(rasterized(4, 0, 0, 0, GlyphContent::Mask, &[]).is_none());

    let mask = rasterized(2, 1, -1, 9, GlyphContent::Mask, &[10, 20]).expect("visible");
    assert_eq!((mask.width, mask.height, mask.left, mask.top), (2, 1, -1, 9));
    assert!(!mask.pixels.is_color());
    assert_eq!(mask.pixels.bytes(), &[10, 20]);

    let color = rasterized(1, 1, 0, 0, GlyphContent::Color, &[255, 255, 255, 128]).expect("visible");
    assert!(color.pixels.is_color());
    assert_eq!(color.pixels.bytes(), &[128, 128, 128, 128]);

    let subpixel = rasterized(2, 1, 0, 0, GlyphContent::SubpixelMask, &[1, 2, 3, 40, 5, 6, 7, 80]).expect("visible");
    assert!(!subpixel.pixels.is_color());
    assert_eq!(subpixel.pixels.bytes(), &[40, 80]);
}

#[test]
fn only_an_all_emoji_run_is_diverted_to_the_emoji_font() {
    let emoji = Some("Noto Color Emoji");
    assert_eq!(family_for("😀", "Mono", emoji), "Noto Color Emoji");
    assert_eq!(family_for("😀🎉", "Mono", emoji), "Noto Color Emoji");
    assert_eq!(family_for("ok😀", "Mono", emoji), "Mono");
    assert_eq!(family_for("plain", "Mono", emoji), "Mono");
    assert_eq!(family_for("", "Mono", emoji), "Mono");
    assert_eq!(family_for("😀", "Mono", None), "Mono");
}

#[test]
fn an_empty_or_generic_family_means_the_default_monospace() {
    assert!(names_default_monospace(""));
    assert!(names_default_monospace("monospace"));
    assert!(names_default_monospace("MonoSpace"));
    assert!(!names_default_monospace("DejaVu Sans Mono"));
}

#[test]
fn the_first_installed_wanted_family_wins_ignoring_case() {
    let installed = vec!["DejaVu Sans Mono".to_string(), "Fira Code".to_string()];
    assert_eq!(first_present(&["Nope", "fira code", "DejaVu Sans Mono"], &installed), Some("fira code"));
    assert_eq!(first_present(&["Nope", "Also Nope"], &installed), None);
    assert_eq!(first_present(&[], &installed), None);
}

#[test]
fn monospace_families_are_sorted_and_deduplicated() {
    let faces = vec![
        (true, Some("Zeta Mono".to_string())),
        (false, Some("Sans".to_string())),
        (true, Some("Alpha Mono".to_string())),
        (true, None),
        (true, Some("Zeta Mono".to_string())),
    ];
    assert_eq!(monospace_families_of(&faces), vec!["Alpha Mono".to_string(), "Zeta Mono".to_string()]);
    assert!(monospace_families_of(&Vec::new()).is_empty());
}

#[test]
fn the_first_wanted_family_with_a_monospaced_face_is_chosen() {
    let faces = vec![
        (false, Some("Proportional Serif".to_string())),
        (true, Some("Fira Code".to_string())),
        (true, None),
        (true, Some("DejaVu Sans Mono".to_string())),
    ];
    // Case is ignored, and the order of `wanted` decides, not that of the faces.
    assert_eq!(first_installed_family_in(&["Nope", "dejavu sans mono", "Fira Code"], &faces), Some("dejavu sans mono"));
    // A family installed only as a proportional face does not count.
    assert_eq!(first_installed_family_in(&["Proportional Serif"], &faces), None);
    assert_eq!(first_installed_family_in(&["Nope"], &faces), None);
    assert_eq!(first_installed_family_in(&["Fira Code"], &Vec::new()), None);
}
