use pain::keymap::{Action, Chord, Key};
use pain::keys::{chord_for_key, encode, route_key, ElementState, KeyRoute, LogicalKey, Modifiers, NamedKey, Press, TermMode};
use pain::layout::Orientation;
use pain::router::Router;

fn named(key: NamedKey) -> LogicalKey {
    LogicalKey::Named(key)
}

fn character(c: &str) -> LogicalKey {
    LogicalKey::Character(c.to_string())
}

/// A press of `key`, with the text the OS would compose for it.
fn press(key: LogicalKey, text: Option<&str>) -> Press {
    Press { key, text: text.map(str::to_string), state: ElementState::Pressed, repeat: false }
}

fn encoded(press: &Press, modifiers: Modifiers, mode: TermMode) -> String {
    let bytes = encode(press, modifiers, mode).expect("key should produce input");
    String::from_utf8(bytes).expect("encoding should be valid UTF-8")
}

fn key(name: NamedKey, modifiers: Modifiers, mode: TermMode) -> String {
    encoded(&press(named(name), None), modifiers, mode)
}

fn typed(c: &str, modifiers: Modifiers, mode: TermMode) -> String {
    encoded(&press(character(c), Some(c)), modifiers, mode)
}

const NONE: Modifiers = Modifiers { shift: false, alt: false, ctrl: false, logo: false };
const SHIFT: Modifiers = Modifiers { shift: true, alt: false, ctrl: false, logo: false };
const ALT: Modifiers = Modifiers { shift: false, alt: true, ctrl: false, logo: false };
const CONTROL: Modifiers = Modifiers { shift: false, alt: false, ctrl: true, logo: false };
const SUPER: Modifiers = Modifiers { shift: false, alt: false, ctrl: false, logo: true };

const EMPTY: TermMode = TermMode {
    app_cursor: false,
    disambiguate_esc_codes: false,
    report_event_types: false,
    report_all_keys_as_esc: false,
    report_associated_text: false,
};
const APP_CURSOR: TermMode = TermMode { app_cursor: true, ..EMPTY };
const KITTY: TermMode = TermMode { disambiguate_esc_codes: true, ..EMPTY };

#[test]
fn the_editing_keypad_produces_its_standard_sequences() {
    assert_eq!(key(NamedKey::Home, NONE, EMPTY), "\x1b[H");
    assert_eq!(key(NamedKey::End, NONE, EMPTY), "\x1b[F");
    assert_eq!(key(NamedKey::PageUp, NONE, EMPTY), "\x1b[5~");
    assert_eq!(key(NamedKey::PageDown, NONE, EMPTY), "\x1b[6~");
    assert_eq!(key(NamedKey::Insert, NONE, EMPTY), "\x1b[2~");
    assert_eq!(key(NamedKey::Delete, NONE, EMPTY), "\x1b[3~");
}

#[test]
fn function_keys_split_between_ss3_and_numbered_forms() {
    assert_eq!(key(NamedKey::F1, NONE, EMPTY), "\x1bOP");
    assert_eq!(key(NamedKey::F4, NONE, EMPTY), "\x1bOS");
    assert_eq!(key(NamedKey::F5, NONE, EMPTY), "\x1b[15~");
    assert_eq!(key(NamedKey::F12, NONE, EMPTY), "\x1b[24~");
}

#[test]
fn shift_tab_is_back_tab_not_a_plain_tab() {
    assert_eq!(key(NamedKey::Tab, SHIFT, EMPTY), "\x1b[Z");
    assert_eq!(key(NamedKey::Tab, NONE, EMPTY), "\t");
}

#[test]
fn modified_cursor_keys_carry_an_xterm_modifier_parameter() {
    assert_eq!(key(NamedKey::ArrowRight, CONTROL, EMPTY), "\x1b[1;5C");
    assert_eq!(key(NamedKey::ArrowLeft, SHIFT, EMPTY), "\x1b[1;2D");
    assert_eq!(key(NamedKey::Home, ALT, EMPTY), "\x1b[1;3H");
    let ctrl_shift = Modifiers { ctrl: true, shift: true, ..NONE };
    assert_eq!(key(NamedKey::Delete, ctrl_shift, EMPTY), "\x1b[3;6~");
}

#[test]
fn application_cursor_mode_switches_the_cursor_keys_to_ss3() {
    assert_eq!(key(NamedKey::ArrowUp, NONE, APP_CURSOR), "\x1bOA");
    assert_eq!(key(NamedKey::Home, NONE, APP_CURSOR), "\x1bOH");
    assert_eq!(key(NamedKey::ArrowUp, CONTROL, APP_CURSOR), "\x1b[1;5A");
}

#[test]
fn alt_prefixes_a_key_with_escape() {
    assert_eq!(typed("b", ALT, EMPTY), "\x1bb");
    assert_eq!(key(NamedKey::Enter, ALT, EMPTY), "\x1b\r");
    assert_eq!(encode(&press(named(NamedKey::Backspace), None), ALT, EMPTY), Some(vec![0x1b, 0x7f]));
}

#[test]
fn control_combinations_produce_their_c0_bytes() {
    assert_eq!(encode(&press(character("c"), Some("c")), CONTROL, EMPTY), Some(vec![0x03]));
    assert_eq!(encode(&press(named(NamedKey::Space), Some(" ")), CONTROL, EMPTY), Some(vec![0x00]));
    assert_eq!(encode(&press(character("["), Some("[")), CONTROL, EMPTY), Some(vec![0x1b]));
    assert_eq!(encode(&press(character("/"), Some("/")), CONTROL, EMPTY), Some(vec![0x1f]));
    assert_eq!(encode(&press(named(NamedKey::Backspace), None), NONE, EMPTY), Some(vec![0x7f]));
    assert_eq!(encode(&press(named(NamedKey::Backspace), None), CONTROL, EMPTY), Some(vec![0x08]));
}

#[test]
fn shift_enter_is_indistinguishable_in_legacy_and_distinct_under_the_protocol() {
    assert_eq!(key(NamedKey::Enter, NONE, EMPTY), "\r");
    assert_eq!(key(NamedKey::Enter, SHIFT, EMPTY), "\r");

    assert_eq!(key(NamedKey::Enter, NONE, KITTY), "\r");
    assert_eq!(key(NamedKey::Enter, SHIFT, KITTY), "\x1b[13;2u");
    assert_eq!(key(NamedKey::Enter, CONTROL, KITTY), "\x1b[13;5u");
}

#[test]
fn plain_text_is_unaffected_by_the_protocols_base_level() {
    assert_eq!(typed("a", NONE, KITTY), "a");
    assert_eq!(typed("A", SHIFT, KITTY), "\x1b[97;2u");
    assert_eq!(typed("c", CONTROL, KITTY), "\x1b[99;5u");
    // The key is identified by its unshifted character, beyond ASCII too.
    assert_eq!(typed("Ä", SHIFT, KITTY), "\x1b[228;2u");
}

#[test]
fn key_releases_are_reported_only_when_the_program_asked_for_them() {
    let release = Press { key: named(NamedKey::Enter), text: None, state: ElementState::Released, repeat: false };
    assert_eq!(encode(&release, NONE, EMPTY), None);
    assert_eq!(encode(&release, NONE, KITTY), None);

    let mode = TermMode { report_event_types: true, ..KITTY };
    assert_eq!(encoded(&release, NONE, mode), "\x1b[13;1:3u");
    let repeat = Press { key: named(NamedKey::Enter), text: None, state: ElementState::Pressed, repeat: true };
    assert_eq!(encoded(&repeat, NONE, mode), "\x1b[13;1:2u");
}

#[test]
fn the_super_modifier_is_never_forwarded_as_input() {
    assert_eq!(encode(&press(character("c"), Some("c")), SUPER, EMPTY), None);
}

#[test]
fn alt_control_sends_the_control_byte_after_escape() {
    let alt_ctrl = Modifiers { alt: true, ctrl: true, ..NONE };
    assert_eq!(encode(&press(character("a"), Some("a")), alt_ctrl, EMPTY), Some(vec![0x1b, 0x01]));
}

#[test]
fn composed_text_is_sent_literally() {
    assert_eq!(typed("é", NONE, EMPTY), "é");
    assert_eq!(encoded(&press(character("ü"), Some("ü")), SHIFT, EMPTY), "ü");
    // A multi-character composition is text, never a control combination.
    assert_eq!(encode(&press(character("ab"), Some("ab")), CONTROL, EMPTY), Some(b"ab".to_vec()));
    assert_eq!(encode(&press(named(NamedKey::Other), None), NONE, EMPTY), None);
    assert_eq!(encode(&press(named(NamedKey::Other), Some("")), NONE, EMPTY), None);
}

#[test]
fn the_protocol_reports_every_key_as_an_escape_when_asked() {
    let mode = TermMode { report_all_keys_as_esc: true, ..KITTY };
    assert_eq!(typed("a", NONE, mode), "\x1b[97u");
    assert_eq!(key(NamedKey::Enter, NONE, mode), "\x1b[13u");
    // Keys that already had an unambiguous sequence keep it.
    assert_eq!(key(NamedKey::ArrowUp, NONE, mode), "\x1b[A");
    assert_eq!(key(NamedKey::F1, NONE, KITTY), "\x1b[P");
    assert_eq!(key(NamedKey::F5, CONTROL, KITTY), "\x1b[15;5~");
}

#[test]
fn function_and_lock_keys_have_private_use_numbers() {
    let mode = TermMode { report_event_types: true, ..KITTY };
    assert_eq!(key(NamedKey::F1, NONE, mode), "\x1b[57364;1:1u");
    assert_eq!(key(NamedKey::F12, NONE, mode), "\x1b[57375;1:1u");
    assert_eq!(encode(&press(named(NamedKey::CapsLock), None), NONE, KITTY), None);
    assert_eq!(key(NamedKey::CapsLock, SHIFT, KITTY), "\x1b[57358;2u");
}

#[test]
fn associated_text_is_reported_with_its_codepoints() {
    let mode = TermMode { report_all_keys_as_esc: true, report_associated_text: true, ..KITTY };
    assert_eq!(typed("a", NONE, mode), "\x1b[97;1;97u");
    assert_eq!(typed("A", SHIFT, mode), "\x1b[97;2;65u");
    // Control combinations carry no text.
    assert_eq!(typed("a", CONTROL, mode), "\x1b[97;5u");
    let events = TermMode { report_event_types: true, ..mode };
    assert_eq!(typed("a", NONE, events), "\x1b[97;1:1;97u");
}

#[test]
fn modifier_parameter_sums_the_held_modifiers_plus_one() {
    assert_eq!(pain::keys::modifier_param(NONE), 1);
    assert_eq!(pain::keys::modifier_param(Modifiers { shift: true, alt: true, ctrl: true, logo: true }), 16);
    assert_eq!(pain::keys::control_byte('z'), Some(26));
    assert_eq!(pain::keys::control_byte('8'), Some(0x7f));
    assert_eq!(pain::keys::control_byte('!'), None);
    assert!(pain::keys::is_cursor_key(b'H'));
    assert!(!pain::keys::is_cursor_key(b'P'));
}

#[test]
fn a_press_of_a_character_or_arrow_is_a_chord_candidate() {
    let ctrl_shift = Modifiers { ctrl: true, shift: true, ..NONE };
    assert_eq!(
        chord_for_key(ElementState::Pressed, &character("E"), ctrl_shift),
        Some(Chord::new(Key::Char('e')).ctrl().shift())
    );
    assert_eq!(chord_for_key(ElementState::Pressed, &named(NamedKey::ArrowUp), ALT), Some(Chord::new(Key::Up).alt()));
    assert_eq!(chord_for_key(ElementState::Released, &character("e"), CONTROL), None);
    assert_eq!(chord_for_key(ElementState::Pressed, &named(NamedKey::Enter), CONTROL), None);
    assert_eq!(chord_for_key(ElementState::Pressed, &character("ab"), CONTROL), None);
}

#[test]
fn a_bound_chord_runs_its_action_and_other_keys_reach_the_pane() {
    let router = Router::new(false);
    let ctrl_shift = Modifiers { ctrl: true, shift: true, ..NONE };
    // Ctrl+Shift+E is bound to a split; the OS reports it as "E".
    let split = route_key(&router, &press(character("E"), Some("E")), ctrl_shift, EMPTY);
    assert!(matches!(split, KeyRoute::Act(Action::Split(Orientation::Vertical))));
    // An unbound key is typed into the pane.
    match route_key(&router, &press(character("a"), Some("a")), NONE, EMPTY) {
        KeyRoute::Send(bytes) => assert_eq!(bytes, b"a".to_vec()),
        _ => panic!("a plain letter should reach the pane"),
    }
    // Ctrl+Shift+J is unbound, so it is encoded like any other key.
    match route_key(&router, &press(character("J"), Some("J")), ctrl_shift, KITTY) {
        KeyRoute::Send(bytes) => assert_eq!(bytes, b"\x1b[106;6u".to_vec()),
        _ => panic!("an unbound chord should reach the pane"),
    }
    // Releasing a bound chord runs nothing and, outside event reporting, sends nothing.
    let release = Press { key: character("E"), text: None, state: ElementState::Released, repeat: false };
    assert!(matches!(route_key(&router, &release, ctrl_shift, EMPTY), KeyRoute::Ignore));
    // A key with no terminal meaning is dropped.
    assert!(matches!(route_key(&router, &press(named(NamedKey::Other), None), NONE, EMPTY), KeyRoute::Ignore));
}
