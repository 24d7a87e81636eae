use pain::activity::{next_activity, Activity, Signals};
use pain::session::PaneSession;

const QUIET: Signals = Signals { output: false, bell: false, input: false };
const OUTPUT: Signals = Signals { output: true, bell: false, input: false };
const BELL: Signals = Signals { output: false, bell: true, input: false };
const INPUT: Signals = Signals { output: false, bell: false, input: true };

#[test]
fn output_in_an_unfocused_pane_shows_the_blue_dot_and_focus_clears_it() {
    assert_eq!(next_activity(Activity::Idle, false, OUTPUT), Activity::Output);
    assert_eq!(next_activity(Activity::Output, false, QUIET), Activity::Output);
    assert_eq!(next_activity(Activity::Output, true, QUIET), Activity::Idle);
    // Output in the pane being looked at is not news.
    assert_eq!(next_activity(Activity::Idle, true, OUTPUT), Activity::Idle);
    assert_eq!(next_activity(Activity::Idle, false, QUIET), Activity::Idle);
}

#[test]
fn a_bell_shows_the_red_dot_until_the_user_types_into_the_pane() {
    assert_eq!(next_activity(Activity::Idle, true, BELL), Activity::Bell);
    assert_eq!(next_activity(Activity::Output, false, BELL), Activity::Bell);
    // Focus alone does not clear it, nor does more output.
    assert_eq!(next_activity(Activity::Bell, true, QUIET), Activity::Bell);
    assert_eq!(next_activity(Activity::Bell, false, OUTPUT), Activity::Bell);
    // Typing does.
    assert_eq!(next_activity(Activity::Bell, true, INPUT), Activity::Idle);
    // A bell in the same poll as the typing still shows.
    assert_eq!(next_activity(Activity::Bell, true, Signals { bell: true, input: true, output: false }), Activity::Bell);
}

#[test]
fn a_pane_starts_without_a_dot() {
    assert_eq!(Activity::default(), Activity::Idle);
    assert_eq!(Signals::default(), QUIET);
    assert_eq!(PaneSession::new(None).activity(), Activity::Idle);
}

#[test]
fn a_pane_session_follows_the_activity_rule() {
    let mut session = PaneSession::new(Some("sh"));
    session.update_activity(false, BELL);
    assert_eq!(session.activity(), Activity::Bell, "the bell should leave the pane flagged for attention");
    session.update_activity(true, QUIET);
    assert_eq!(session.activity(), Activity::Bell, "focus alone must not erase a bell that was never seen");
    session.record_input();
    let signals = Signals { input: session.take_received_input(), ..QUIET };
    session.update_activity(true, signals);
    assert_eq!(session.activity(), Activity::Idle);
    assert_eq!(session.shell(), Some("sh"));
}
