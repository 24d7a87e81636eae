use pain::era::{effect_percent, era_request, find, listed, MAX_EFFECT};

#[test]
fn every_era_is_findable_by_its_own_name() {
    for era in listed() {
        assert_eq!(find(era.name).map(|found| found.name), Some(era.name));
    }
}

#[test]
fn lookup_is_case_insensitive_and_ignores_surrounding_space() {
    assert_eq!(find("GREEN").map(|e| e.name), Some("green"));
    assert_eq!(find("  amber  ").map(|e| e.name), Some("amber"));
}

#[test]
fn an_empty_or_unknown_name_resolves_to_nothing() {
    assert!(find("").is_none());
    assert!(find("   ").is_none());
    assert!(find("no such era").is_none());
}

#[test]
fn era_names_are_unique_lowercase_and_free_of_spaces() {
    let mut seen: Vec<&str> = Vec::new();
    for era in listed() {
        assert_eq!(era.name, era.name.to_lowercase(), "{:?} should be lowercase", era.name);
        assert!(!era.name.contains(' '), "{:?} should have no spaces", era.name);
        assert!(!seen.contains(&era.name), "duplicate era name {:?}", era.name);
        seen.push(era.name);
    }
}

#[test]
fn every_era_differs_from_a_plain_theme() {
    for era in listed() {
        let distinct = era.scanlines > 0 || era.vignette > 0 || era.hum > 0 || !era.fonts.is_empty();
        assert!(distinct, "era {:?} changes nothing but colors, which a theme already does", era.name);
    }
}

#[test]
fn effect_strengths_are_percentages() {
    for era in listed() {
        assert!(era.scanlines <= 100, "{:?} scanlines out of range", era.name);
        assert!(era.vignette <= 100, "{:?} vignette out of range", era.name);
        assert!(era.hum <= 100, "{:?} hum out of range", era.name);
    }
}

#[test]
fn no_era_darkens_the_screen_enough_to_hurt_legibility() {
    for era in listed() {
        assert!(era.scanlines <= 65, "era {:?} scanlines are too strong to read through", era.name);
        assert!(era.vignette <= 55, "era {:?} vignette is too strong to read through", era.name);
        assert!(era.hum <= 40, "era {:?} hum bar is distracting rather than atmospheric", era.name);
    }
}

#[test]
fn era_font_preferences_are_non_empty_names() {
    for era in listed() {
        for font in &era.fonts {
            assert!(!font.trim().is_empty(), "era {:?} has a blank font name", era.name);
        }
    }
}

#[test]
fn every_era_has_a_blurb() {
    for era in listed() {
        assert!(!era.blurb.is_empty(), "era {:?} needs a blurb", era.name);
    }
}

#[test]
fn an_explicit_effect_setting_beats_a_session_era() {
    assert_eq!(effect_percent(Some(0), Some(40), 40), 0);
    assert_eq!(effect_percent(Some(100), Some(10), 10), 100);
}

#[test]
fn a_session_era_beats_the_configured_value() {
    assert_eq!(effect_percent(None, Some(50), 0), 50);
}

#[test]
fn with_no_override_the_configured_value_is_used() {
    assert_eq!(effect_percent(None, None, 25), 25);
    assert_eq!(effect_percent(None, None, 0), 0);
}

#[test]
fn an_out_of_range_strength_is_clamped() {
    assert_eq!(effect_percent(Some(9999), None, 0), MAX_EFFECT);
    assert_eq!(effect_percent(None, Some(500), 0), MAX_EFFECT);
}

#[test]
fn a_runtime_request_changes_the_override_only_when_it_differs() {
    // Asking for the era already in effect changes nothing.
    assert!(era_request(Some("amber"), "AMBER").is_none());
    // A different era replaces it.
    let changed = era_request(Some("amber"), "green").expect("a change");
    assert_eq!(changed.map(|e| e.name), Some("green"));
    // An empty or unknown name clears an override...
    assert!(matches!(era_request(Some("amber"), ""), Some(None)));
    assert!(matches!(era_request(Some("amber"), "no such era"), Some(None)));
    // ...and changes nothing when there is none.
    assert!(era_request(None, "").is_none());
    assert_eq!(era_request(None, " c64 ").expect("a change").map(|e| e.name), Some("c64"));
}
