use pain::config::{
    dir, dir_macos, dir_windows, format_hex_rgb, parse_hex_rgb, Cursor, CursorStyle, General, MAX_SCROLLBACK_LINES,
};

#[test]
fn background_color_parses_hex_with_or_without_hash() {
    assert_eq!(parse_hex_rgb("#ff0080"), Some([255, 0, 128]));
    assert_eq!(parse_hex_rgb("ff0080"), Some([255, 0, 128]));
    assert_eq!(parse_hex_rgb("#FF0080"), Some([255, 0, 128]));
}

#[test]
fn an_unparseable_color_is_rejected() {
    assert_eq!(parse_hex_rgb("not-a-color"), None);
    assert_eq!(parse_hex_rgb("#zzzzzz"), None);
    assert_eq!(parse_hex_rgb("garbage"), None);
    assert_eq!(parse_hex_rgb(""), None);
    assert_eq!(parse_hex_rgb("#12345"), None);
    assert_eq!(parse_hex_rgb("##123456"), None);
    assert_eq!(parse_hex_rgb("#éé1234"), None);
}

#[test]
fn a_channel_may_carry_a_plus_sign_the_way_radix_parsing_reads_it() {
    assert_eq!(parse_hex_rgb("#+f+f+f"), Some([15, 15, 15]));
    assert_eq!(parse_hex_rgb("#-f0000"), None);
}

#[test]
fn set_background_rgb_round_trips_through_hex() {
    assert_eq!(format_hex_rgb([255, 0, 128]), "#ff0080");
    assert_eq!(parse_hex_rgb(&format_hex_rgb([255, 0, 128])), Some([255, 0, 128]));
    assert_eq!(format_hex_rgb([0, 255, 128]), "#00ff80");
    assert_eq!(format_hex_rgb([127, 162, 214]), "#7fa2d6");
    for v in [0u8, 9, 10, 15, 16, 99, 200, 255] {
        let rgb = [v, 255 - v, v / 2];
        assert_eq!(parse_hex_rgb(&format_hex_rgb(rgb)), Some(rgb));
    }
}

#[test]
fn general_defaults_match_the_documented_ones() {
    let general = General::default();
    assert_eq!(general.default_shell, "");
    assert_eq!(general.scrollback_lines, 5000);
    assert!(general.confirm_multiline_paste);
    assert_eq!(Cursor::default().style, CursorStyle::Block);
    assert_eq!(CursorStyle::default(), CursorStyle::Block);
}

#[test]
fn scrollback_lines_is_capped() {
    let mut general = General { scrollback_lines: 99999999999, ..General::default() };
    let adjustment = general.sanitize();
    assert_eq!(general.scrollback_lines, MAX_SCROLLBACK_LINES);
    assert_eq!(
        adjustment.as_deref(),
        Some("scrollback_lines 99999999999 exceeds the 1000000 line maximum; using 1000000")
    );
}

#[test]
fn values_already_in_range_are_left_exactly_as_written() {
    let mut general = General { scrollback_lines: 200, default_shell: "/bin/zsh".to_string(), ..General::default() };
    assert_eq!(general.sanitize(), None);
    assert_eq!(general.scrollback_lines, 200);
    assert_eq!(general.default_shell, "/bin/zsh");
    let mut at_max = General { scrollback_lines: MAX_SCROLLBACK_LINES, ..General::default() };
    assert_eq!(at_max.sanitize(), None);
    assert_eq!(at_max.scrollback_lines, MAX_SCROLLBACK_LINES);
}

#[test]
fn the_config_directory_follows_xdg_then_home() {
    let xdg = dir(Some("/xdg"), Some("/home/will"));
    assert_eq!(xdg.base, "/xdg");
    assert_eq!(xdg.components, vec!["pain"]);

    let home = dir(None, Some("/home/will"));
    assert_eq!(home.base, "/home/will");
    assert_eq!(home.components, vec![".config", "pain"]);

    let nowhere = dir(None, None);
    assert_eq!(nowhere.base, ".");
    assert_eq!(nowhere.components, vec![".config", "pain"]);
}

#[test]
fn macos_and_windows_keep_config_in_their_own_places() {
    let mac = dir_macos(Some("/Users/will"));
    assert_eq!(mac.base, "/Users/will");
    assert_eq!(mac.components, vec!["Library", "Application Support", "pain"]);

    let windows = dir_windows(Some("C:\\Users\\will\\AppData\\Roaming"));
    assert_eq!(windows.base, "C:\\Users\\will\\AppData\\Roaming");
    assert_eq!(windows.components, vec!["pain"]);
    assert_eq!(dir_windows(None).base, ".");
}
