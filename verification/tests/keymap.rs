use std::collections::BTreeMap;

use pain::keymap::{parse_action, parse_chord, Action, Chord, FontStep, Key, Keymap};
use pain::layout::{Direction, Orientation};
use pain::router::BroadcastMode;

/// Config overrides in the order a sorted table hands them over.
fn overrides(pairs: &[(&str, &str)]) -> Vec<(String, String)> {
    let table: BTreeMap<String, String> = pairs.iter().map(|(c, a)| (c.to_string(), a.to_string())).collect();
    table.into_iter().collect()
}

#[test]
fn terminator_defaults_bind_the_core_actions() {
    let keymap = Keymap::defaults_for_platform(false);

    assert_eq!(keymap.lookup(Chord::new(Key::Char('o')).ctrl().shift()), Some(Action::Split(Orientation::Horizontal)));
    assert_eq!(keymap.lookup(Chord::new(Key::Char('e')).ctrl().shift()), Some(Action::Split(Orientation::Vertical)));
    assert_eq!(keymap.lookup(Chord::new(Key::Char('w')).ctrl().shift()), Some(Action::ClosePane));
    assert_eq!(keymap.lookup(Chord::new(Key::Char('q')).ctrl().shift()), Some(Action::Quit));
    assert_eq!(keymap.lookup(Chord::new(Key::Up).alt()), Some(Action::Focus(Direction::Up)));
    assert_eq!(keymap.lookup(Chord::new(Key::Char('x')).ctrl().shift()), Some(Action::ToggleZoom));
}

#[test]
fn the_shifted_clipboard_chords_are_not_bound_on_any_platform() {
    for is_macos in [false, true] {
        let keymap = Keymap::defaults_for_platform(is_macos);
        assert_eq!(keymap.lookup(Chord::new(Key::Char('c')).ctrl().shift()), None, "ctrl+shift+c, is_macos={is_macos}");
        assert_eq!(keymap.lookup(Chord::new(Key::Char('v')).ctrl().shift()), None, "ctrl+shift+v, is_macos={is_macos}");
    }
}

#[test]
fn off_macos_plain_ctrl_c_and_v_are_the_clipboard_chords() {
    let keymap = Keymap::defaults_for_platform(false);
    assert_eq!(keymap.lookup(Chord::new(Key::Char('c')).ctrl()), Some(Action::CopyOrInterrupt));
    assert_eq!(keymap.lookup(Chord::new(Key::Char('v')).ctrl()), Some(Action::Paste));
    assert_eq!(keymap.lookup(Chord::new(Key::Char('c')).logo()), None);
    assert_eq!(keymap.lookup(Chord::new(Key::Char('v')).logo()), None);
}

#[test]
fn macos_uses_command_and_leaves_the_control_key_untouched() {
    let keymap = Keymap::defaults_for_platform(true);
    assert_eq!(keymap.lookup(Chord::new(Key::Char('c')).logo()), Some(Action::Copy));
    assert_eq!(keymap.lookup(Chord::new(Key::Char('v')).logo()), Some(Action::Paste));
    assert_eq!(keymap.lookup(Chord::new(Key::Char('q')).logo()), Some(Action::Quit));
    assert_eq!(keymap.lookup(Chord::new(Key::Char('w')).logo()), Some(Action::ClosePane));
    assert_eq!(keymap.lookup(Chord::new(Key::Char('c')).ctrl()), None);
    assert_eq!(keymap.lookup(Chord::new(Key::Char('v')).ctrl()), None);
}

#[test]
fn every_default_binding_prints_as_something_config_can_parse_back() {
    for is_macos in [false, true] {
        for (chord, action) in Keymap::defaults_for_platform(is_macos).bindings() {
            let printed = chord.to_string();
            assert_eq!(parse_chord(&printed), Some(chord), "chord {printed:?} round trip");
            assert_eq!(parse_action(action.name()), Some(action), "action {:?}", action.name());
        }
    }
}

#[test]
fn punctuation_keys_are_written_as_themselves() {
    assert_eq!(parse_chord("ctrl +"), Some(Chord::new(Key::Char('+')).ctrl()));
    assert_eq!(parse_chord("ctrl -"), Some(Chord::new(Key::Char('-')).ctrl()));
    assert_eq!(parse_chord("ctrl shift +"), Some(Chord::new(Key::Char('+')).ctrl().shift()));
    assert_eq!(Chord::new(Key::Char('+')).ctrl().to_string(), "ctrl +");
    assert_eq!(Chord::new(Key::Char('-')).ctrl().to_string(), "ctrl -");
}

#[test]
fn the_space_key_is_named_rather_than_written_literally() {
    let chord = Chord::new(Key::Char(' ')).ctrl();
    assert_eq!(chord.to_string(), "ctrl space");
    assert_eq!(parse_chord("ctrl space"), Some(chord));
}

#[test]
fn the_older_plus_separated_format_still_parses() {
    let expected = Some(Chord::new(Key::Char('e')).ctrl().shift());
    assert_eq!(parse_chord("ctrl+shift+e"), expected);
    assert_eq!(parse_chord("ctrl shift e"), expected, "and so does the current one");
    assert_eq!(parse_chord("ctrl+shift e"), expected);
    assert_eq!(parse_chord("ctrl+plus"), Some(Chord::new(Key::Char('+')).ctrl()));
}

#[test]
fn a_chord_with_no_key_or_two_keys_is_rejected() {
    assert_eq!(parse_chord("ctrl"), None, "modifiers alone are not a chord");
    assert_eq!(parse_chord("ctrl a b"), None, "two non-modifier segments");
    assert_eq!(parse_chord(""), None);
}

#[test]
fn the_new_clipboard_chords_can_be_overridden_and_unbound() {
    let mut keymap = Keymap::defaults_for_platform(false);
    keymap.apply_overrides(&overrides(&[("ctrl+v", "none"), ("ctrl+shift+c", "copy_or_interrupt")]));
    assert_eq!(keymap.lookup(Chord::new(Key::Char('v')).ctrl()), None);
    assert_eq!(keymap.lookup(Chord::new(Key::Char('c')).ctrl().shift()), Some(Action::CopyOrInterrupt));
}

#[test]
fn unbound_chord_resolves_to_none() {
    let keymap = Keymap::defaults_for_platform(false);
    assert_eq!(keymap.lookup(Chord::new(Key::Char('k')).ctrl()), None);
}

#[test]
fn rebinding_a_chord_replaces_the_previous_action() {
    let mut keymap = Keymap::empty();
    let chord = Chord::new(Key::Char('e')).ctrl().shift();
    keymap.bind(chord, Action::Split(Orientation::Vertical));
    keymap.bind(chord, Action::ClosePane);
    assert_eq!(keymap.lookup(chord), Some(Action::ClosePane));
}

#[test]
fn unbind_removes_a_binding() {
    let mut keymap = Keymap::defaults_for_platform(false);
    let chord = Chord::new(Key::Char('w')).ctrl().shift();
    keymap.unbind(chord);
    assert_eq!(keymap.lookup(chord), None);
}

#[test]
fn override_rebinds_a_chord() {
    let mut keymap = Keymap::defaults_for_platform(false);
    keymap.apply_overrides(&overrides(&[("ctrl+shift+e", "close_pane")]));
    assert_eq!(keymap.lookup(Chord::new(Key::Char('e')).ctrl().shift()), Some(Action::ClosePane));
}

#[test]
fn override_of_none_unbinds_without_a_replacement() {
    let mut keymap = Keymap::defaults_for_platform(false);
    keymap.apply_overrides(&overrides(&[("ctrl+shift+w", "none")]));
    assert_eq!(keymap.lookup(Chord::new(Key::Char('w')).ctrl().shift()), None);
}

#[test]
fn override_can_bind_a_previously_unbound_action() {
    let mut keymap = Keymap::defaults_for_platform(false);
    keymap.apply_overrides(&overrides(&[("ctrl+shift+g", "broadcast_all")]));
    assert_eq!(
        keymap.lookup(Chord::new(Key::Char('g')).ctrl().shift()),
        Some(Action::SetBroadcastMode(BroadcastMode::All))
    );
}

#[test]
fn override_with_unparseable_chord_is_skipped_not_fatal() {
    let mut keymap = Keymap::defaults_for_platform(false);
    keymap.apply_overrides(&overrides(&[("not a chord", "quit"), ("ctrl+shift+q", "close_pane")]));
    assert_eq!(keymap.lookup(Chord::new(Key::Char('q')).ctrl().shift()), Some(Action::ClosePane));
}

#[test]
fn override_with_unknown_action_is_skipped_not_fatal() {
    let mut keymap = Keymap::defaults_for_platform(false);
    keymap.apply_overrides(&overrides(&[("ctrl+shift+e", "not_a_real_action")]));
    assert_eq!(keymap.lookup(Chord::new(Key::Char('e')).ctrl().shift()), Some(Action::Split(Orientation::Vertical)));
}

#[test]
fn chord_modifiers_parse_in_any_order_case_insensitively() {
    let mut keymap = Keymap::empty();
    keymap.apply_overrides(&overrides(&[("Shift+CTRL+e", "quit")]));
    assert_eq!(keymap.lookup(Chord::new(Key::Char('e')).ctrl().shift()), Some(Action::Quit));
}

#[test]
fn the_font_size_chords_all_reach_the_same_actions() {
    let keymap = Keymap::defaults_for_platform(false);
    for chord in [Chord::new(Key::Char('=')).ctrl(), Chord::new(Key::Char('+')).ctrl().shift(), Chord::new(Key::Char('+')).ctrl()] {
        assert_eq!(keymap.lookup(chord), Some(Action::FontSize(FontStep::Increase)));
    }
    for chord in [Chord::new(Key::Char('-')).ctrl(), Chord::new(Key::Char('-')).ctrl().shift()] {
        assert_eq!(keymap.lookup(chord), Some(Action::FontSize(FontStep::Decrease)));
    }
    assert_eq!(keymap.lookup(Chord::new(Key::Char('0')).ctrl()), Some(Action::ResetFontSize));
}

#[test]
fn alternative_modifier_names_and_arrow_words_parse() {
    assert_eq!(parse_chord("control up"), Some(Chord::new(Key::Up).ctrl()));
    assert_eq!(parse_chord("super left"), Some(Chord::new(Key::Left).logo()));
    assert_eq!(parse_chord("win right"), Some(Chord::new(Key::Right).logo()));
    assert_eq!(parse_chord("cmd c"), Some(Chord::new(Key::Char('c')).logo()));
    assert_eq!(parse_chord("  ALT   down "), Some(Chord::new(Key::Down).alt()));
    assert_eq!(parse_chord("ctrl E"), Some(Chord::new(Key::Char('e')).ctrl()));
}

#[test]
fn every_action_name_parses_back_and_unknown_names_do_not() {
    for action in pain::keymap::all_actions() {
        assert_eq!(parse_action(action.name()), Some(action));
    }
    assert_eq!(parse_action("font_size_increase"), Some(Action::FontSize(FontStep::Increase)));
    assert_eq!(parse_action("Quit"), None);
    assert_eq!(parse_action("none"), None);
}

#[test]
fn bindings_are_listed_in_the_order_their_chords_print() {
    let listed = Keymap::defaults_for_platform(false).bindings();
    let printed: Vec<String> = listed.iter().map(|(chord, _)| chord.to_string()).collect();
    let mut sorted = printed.clone();
    sorted.sort();
    assert_eq!(printed, sorted);
    assert_eq!(listed.len(), 21);
}

#[test]
fn modifier_order_and_letter_case_never_change_a_chord() {
    let expected = parse_chord("ctrl shift alt e");
    assert!(expected.is_some());
    for text in ["alt ctrl shift e", "e shift alt ctrl", "SHIFT Ctrl ALT E", "alt+E+ctrl shift"] {
        assert_eq!(parse_chord(text), expected, "{text:?}");
    }
    assert_eq!(parse_chord("ctrl ctrl x"), Some(Chord::new(Key::Char('x')).ctrl()));
    assert_eq!(parse_chord("ctrl bogus x"), None);
}

#[test]
fn a_chord_no_override_names_keeps_its_default_binding() {
    let mut keymap = Keymap::defaults_for_platform(false);
    keymap.apply_overrides(&overrides(&[
        ("ctrl shift o", "quit"),
        ("not a chord", "quit"),
        ("ctrl shift w", "not_an_action"),
        ("ctrl shift x", "none"),
    ]));
    assert_eq!(keymap.lookup(Chord::new(Key::Char('e')).ctrl().shift()), Some(Action::Split(Orientation::Vertical)));
    assert_eq!(keymap.lookup(Chord::new(Key::Char('w')).ctrl().shift()), Some(Action::ClosePane));
    assert_eq!(keymap.lookup(Chord::new(Key::Char('o')).ctrl().shift()), Some(Action::Quit));
    assert_eq!(keymap.lookup(Chord::new(Key::Char('x')).ctrl().shift()), None);
    // Applied afresh to the defaults, an override that is gone leaves no trace.
    let fresh = Keymap::defaults_for_platform(false);
    assert_eq!(fresh.lookup(Chord::new(Key::Char('o')).ctrl().shift()), Some(Action::Split(Orientation::Horizontal)));
}

#[test]
fn segments_rearranged_and_rejoined_with_spaces_mean_the_same_chord() {
    let expected = Some(Chord::new(Key::Char('e')).ctrl().shift());
    assert_eq!(parse_chord("Shift+CTRL+e"), expected);
    // The segments of "Shift+CTRL+e" are "shift", "ctrl" and "e"; any order of them, space-separated.
    for text in ["shift ctrl e", "e shift ctrl", "ctrl e shift", "e ctrl shift"] {
        assert_eq!(parse_chord(text), expected, "{text:?}");
    }
    // A lone "+" is the plus key, wherever it stands.
    assert_eq!(parse_chord("ctrl +"), parse_chord("+ ctrl"));
    assert_eq!(parse_chord("ctrl +"), Some(Chord::new(Key::Char('+')).ctrl()));
    // Rejected strings stay rejected when rearranged.
    assert_eq!(parse_chord("bogus+ctrl+x"), None);
    assert_eq!(parse_chord("x ctrl bogus"), None);
}
