use pain::config::{DEFAULT_FONT_SIZE, MAX_FONT_SIZE, MIN_FONT_SIZE};
use pain::keymap::{Action, Chord, Key};
use pain::layout::{Direction, Orientation};
use pain::router::{chord_command, BroadcastMode, ChordCommand, Router};

fn ctrl(c: char) -> Chord {
    Chord::new(Key::Char(c)).ctrl()
}

fn ctrl_shift(c: char) -> Chord {
    Chord::new(Key::Char(c)).ctrl().shift()
}

#[test]
fn ctrl_shift_q_quits_and_the_layout_chords_map_to_their_commands() {
    let mut router = Router::new(false);
    assert_eq!(chord_command(&mut router, ctrl_shift('q'), 13, true), Some(ChordCommand::Quit));
    assert_eq!(chord_command(&mut router, ctrl_shift('e'), 13, true), Some(ChordCommand::Split(Orientation::Vertical)));
    assert_eq!(chord_command(&mut router, ctrl_shift('w'), 13, true), Some(ChordCommand::ClosePane));
    assert_eq!(chord_command(&mut router, ctrl_shift('x'), 13, true), Some(ChordCommand::ToggleZoom));
    assert_eq!(chord_command(&mut router, Chord::new(Key::Left).alt(), 13, true), Some(ChordCommand::Focus(Direction::Left)));
    assert_eq!(
        chord_command(&mut router, Chord::new(Key::Up).ctrl().shift(), 13, true),
        Some(ChordCommand::Resize(Direction::Up))
    );
    assert_eq!(chord_command(&mut router, ctrl('v'), 13, true), Some(ChordCommand::Paste));
}

#[test]
fn an_unbound_chord_is_left_for_the_pane() {
    let mut router = Router::new(false);
    assert_eq!(chord_command(&mut router, ctrl_shift('j'), 13, false), None);
    assert_eq!(router.broadcast_mode, BroadcastMode::Off);
    assert_eq!(router.resolve(ctrl_shift('q')), Some(Action::Quit));
}

#[test]
fn ctrl_c_copies_a_selection_and_otherwise_interrupts() {
    let mut router = Router::new(false);
    assert_eq!(chord_command(&mut router, ctrl('c'), 13, false), Some(ChordCommand::Copy));
    assert_eq!(chord_command(&mut router, ctrl('c'), 13, true), Some(ChordCommand::Interrupt));
    // Command+C on macOS always copies.
    let mut mac = Router::new(true);
    assert_eq!(chord_command(&mut mac, Chord::new(Key::Char('c')).logo(), 13, true), Some(ChordCommand::Copy));
}

#[test]
fn font_size_steps_one_point_within_its_bounds_and_resets() {
    let mut router = Router::new(false);
    assert_eq!(chord_command(&mut router, ctrl('='), 13, true), Some(ChordCommand::SetFontSize(14)));
    assert_eq!(chord_command(&mut router, ctrl('+'), 13, true), Some(ChordCommand::SetFontSize(14)));
    assert_eq!(chord_command(&mut router, ctrl('-'), 13, true), Some(ChordCommand::SetFontSize(12)));
    assert_eq!(chord_command(&mut router, ctrl('0'), 30, true), Some(ChordCommand::SetFontSize(DEFAULT_FONT_SIZE)));
    assert_eq!(DEFAULT_FONT_SIZE, 13);
    // Holding the chord stops at a legible size.
    assert_eq!(chord_command(&mut router, ctrl('='), MAX_FONT_SIZE, true), Some(ChordCommand::SetFontSize(MAX_FONT_SIZE)));
    assert_eq!(chord_command(&mut router, ctrl('-'), MIN_FONT_SIZE, true), Some(ChordCommand::SetFontSize(MIN_FONT_SIZE)));
    assert_eq!((MIN_FONT_SIZE, MAX_FONT_SIZE), (6, 48));
    // A size already out of range comes back into it.
    assert_eq!(chord_command(&mut router, ctrl('='), 2, true), Some(ChordCommand::SetFontSize(MIN_FONT_SIZE)));
    assert_eq!(chord_command(&mut router, ctrl('-'), 200, true), Some(ChordCommand::SetFontSize(MAX_FONT_SIZE)));
    assert_eq!(chord_command(&mut router, ctrl('='), u32::MAX, true), Some(ChordCommand::SetFontSize(MAX_FONT_SIZE)));
    assert_eq!(chord_command(&mut router, ctrl('-'), 0, true), Some(ChordCommand::SetFontSize(MIN_FONT_SIZE)));
}

#[test]
fn a_broadcast_chord_sets_the_routers_mode() {
    let mut router = Router::new(false);
    router.keymap.bind(ctrl_shift('b'), Action::SetBroadcastMode(BroadcastMode::All));
    assert_eq!(chord_command(&mut router, ctrl_shift('b'), 13, true), Some(ChordCommand::BroadcastModeSet(BroadcastMode::All)));
    assert_eq!(router.broadcast_mode, BroadcastMode::All);
    // Other chords leave the mode alone.
    assert_eq!(chord_command(&mut router, ctrl_shift('e'), 13, true), Some(ChordCommand::Split(Orientation::Vertical)));
    assert_eq!(router.broadcast_mode, BroadcastMode::All);
}
