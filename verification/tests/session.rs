use pain::activity::Activity;
use pain::layout::PaneId;
use pain::session::{hyperlink_span, is_allowed_scheme, poll_step, resolve, PanePoll, PaneSession, PumpOutcome, ScreenEvent, ScreenEvents};

#[test]
fn osc7_wins_when_present_regardless_of_os_level() {
    let os_level = Some("/from/os".to_string());
    assert_eq!(resolve(Some("/from/osc7"), os_level, Some("/home/will".to_string())), "/from/osc7");
}

#[test]
fn os_level_is_used_when_osc7_is_absent() {
    let os_level = Some("/from/os".to_string());
    assert_eq!(resolve(None, os_level, Some("/home/will".to_string())), "/from/os");
}

#[test]
fn home_directory_is_the_final_fallback() {
    assert_eq!(resolve(None, None, Some("/home/will".to_string())), "/home/will");
    let resolved = resolve(None, None, None);
    assert!(!resolved.is_empty(), "should always return something usable, never an empty path");
}

#[test]
fn a_pane_session_remembers_its_shell_and_input() {
    let mut session = PaneSession::new(Some("/bin/sh"));
    assert_eq!(session.shell(), Some("/bin/sh"));
    assert!(!session.take_received_input());
    session.record_input();
    assert!(session.take_received_input(), "input is reported once");
    assert!(!session.take_received_input(), "and then cleared");
    assert_eq!(PaneSession::new(None).shell(), None);
    assert_eq!(session.cwd(None, Some("/tmp".to_string()), None), "/tmp");
}

#[test]
fn a_poll_repaints_for_output_bells_and_the_first_notice_of_an_exit() {
    let mut session = PaneSession::new(None);
    let quiet = session.pump_outcome(false, None, false, false);
    assert!(!quiet.changed && !quiet.output && !quiet.bell);

    let output = session.pump_outcome(true, Some("amber".to_string()), false, false);
    assert!(output.changed && output.output);
    assert_eq!(output.requested_era.as_deref(), Some("amber"));

    let bell = session.pump_outcome(false, None, true, false);
    assert!(bell.changed && bell.bell && !bell.output);

    let exited = session.pump_outcome(false, None, false, true);
    assert!(exited.changed, "noticing the exit repaints");
    let again = session.pump_outcome(false, None, false, true);
    assert!(!again.changed, "but only once");
}

#[test]
fn an_osc_8_hyperlink_is_found_under_its_own_cells_and_spans_them() {
    // "see " is columns 0-3, the link text occupies 4..13.
    let mut links = vec![None; 4];
    links.extend(vec![Some(1); 9]);
    links.extend(vec![None; 3]);
    assert_eq!(hyperlink_span(&links, 6), Some((4, 13)));
    assert_eq!(hyperlink_span(&links, 4), Some((4, 13)));
    assert_eq!(hyperlink_span(&links, 12), Some((4, 13)));
}

#[test]
fn cells_outside_a_hyperlink_carry_none() {
    // A 40-column row holding "see link ok", with "link" (columns 4 to 7) linked.
    let mut links: Vec<Option<u64>> = vec![None; 4];
    links.extend(vec![Some(1); 4]);
    links.extend(vec![None; 32]);
    assert_eq!(hyperlink_span(&links, 0), None, "plain text before the link");
    assert_eq!(hyperlink_span(&links, 9), None, "plain text after the link");
    assert_eq!(hyperlink_span(&vec![None; 40], 0), None, "an empty row");
}

#[test]
fn adjacent_links_sharing_a_uri_stay_separate() {
    // Two runs with different ids are two links.
    let links = vec![Some(1), Some(1), Some(1), Some(2), Some(2), Some(2)];
    assert_eq!(hyperlink_span(&links, 1), Some((0, 3)));
    assert_eq!(hyperlink_span(&links, 4), Some((3, 6)));
}

#[test]
fn a_hyperlink_query_outside_the_grid_returns_none_rather_than_panicking() {
    // A 10-column row whose first two cells ("hi") are linked.
    let mut links: Vec<Option<u64>> = vec![Some(1); 2];
    links.extend(vec![None; 8]);
    // A row past the grid has no cells at all.
    assert_eq!(hyperlink_span(&[], 0), None);
    assert_eq!(hyperlink_span(&links, 99), None);
}

#[test]
fn a_bel_raises_the_bell_flag_once_and_then_clears_it() {
    let mut events = ScreenEvents::new();
    assert!(!events.take_bell(Vec::new()));
    assert!(events.take_bell(vec![ScreenEvent::Bell]), "BEL should raise the bell flag");
    assert!(!events.take_bell(Vec::new()), "taking the bell should clear it");
}

#[test]
fn repeated_bells_between_takes_collapse_into_one() {
    let mut events = ScreenEvents::new();
    assert!(events.take_bell(vec![ScreenEvent::Bell, ScreenEvent::Bell, ScreenEvent::Bell]));
    assert!(!events.take_bell(Vec::new()));
}

#[test]
fn taking_the_bell_does_not_consume_a_pending_pty_reply() {
    let mut events = ScreenEvents::new();
    assert!(events.take_bell(vec![ScreenEvent::Bell, ScreenEvent::PtyWrite(b"\x1b[1;1R".to_vec())]));
    assert_eq!(events.take_pty_writes(Vec::new()), b"\x1b[1;1R");
}

#[test]
fn taking_pty_writes_does_not_consume_a_pending_bell() {
    let mut events = ScreenEvents::new();
    let arrived = vec![ScreenEvent::PtyWrite(b"\x1b[1;1R".to_vec()), ScreenEvent::Bell];
    assert_eq!(events.take_pty_writes(arrived), b"\x1b[1;1R");
    assert!(events.take_bell(Vec::new()));
}

#[test]
fn pty_replies_accumulate_in_order_until_taken() {
    let mut events = ScreenEvents::new();
    assert!(!events.take_bell(vec![ScreenEvent::PtyWrite(b"ab".to_vec())]));
    let taken = events.take_pty_writes(vec![ScreenEvent::PtyWrite(b"cd".to_vec()), ScreenEvent::PtyWrite(Vec::new())]);
    assert_eq!(taken, b"abcd");
    assert!(events.take_pty_writes(Vec::new()).is_empty());
}

fn polled(pane: u64, changed: bool, era: Option<&str>, exited: bool, before: Activity, after: Activity) -> PanePoll {
    PanePoll {
        pane: PaneId(pane),
        pumped: PumpOutcome { changed, output: changed, bell: false, requested_era: era.map(str::to_string) },
        exited,
        before,
        after,
    }
}

#[test]
fn a_quiet_poll_asks_for_nothing() {
    let polls = vec![polled(1, false, None, false, Activity::Idle, Activity::Idle), polled(2, false, None, false, Activity::Bell, Activity::Bell)];
    let step = poll_step(&polls, false);
    assert!(!step.needs_redraw);
    assert!(step.exited.is_empty());
    assert_eq!(step.requested_era, None);
    assert!(!poll_step(&Vec::new(), false).needs_redraw);
    // Changed settings repaint even when no pane did anything.
    assert!(poll_step(&polls, true).needs_redraw);
}

#[test]
fn each_kind_of_pane_news_repaints() {
    let changed = vec![polled(1, true, None, false, Activity::Idle, Activity::Idle)];
    assert!(poll_step(&changed, false).needs_redraw);
    // Focusing a pane clears its dot, which nothing else would repaint.
    let dot_cleared = vec![polled(1, false, None, false, Activity::Output, Activity::Idle)];
    assert!(poll_step(&dot_cleared, false).needs_redraw);
    let exited = vec![polled(1, false, None, true, Activity::Idle, Activity::Idle)];
    assert!(poll_step(&exited, false).needs_redraw);
    let era = vec![polled(1, false, Some("amber"), false, Activity::Idle, Activity::Idle)];
    assert!(poll_step(&era, false).needs_redraw);
}

#[test]
fn exited_panes_close_in_order_and_the_last_era_request_wins() {
    let polls = vec![
        polled(3, true, Some("amber"), true, Activity::Idle, Activity::Output),
        polled(1, false, None, false, Activity::Idle, Activity::Idle),
        polled(7, true, Some("green"), false, Activity::Idle, Activity::Idle),
        polled(2, false, None, true, Activity::Idle, Activity::Idle),
        polled(5, false, None, false, Activity::Idle, Activity::Idle),
    ];
    let step = poll_step(&polls, false);
    assert!(step.needs_redraw);
    assert_eq!(step.exited, vec![PaneId(3), PaneId(2)]);
    assert_eq!(step.requested_era.as_deref(), Some("green"));
}

#[test]
fn only_web_ftp_ssh_and_mail_links_are_opened() {
    for uri in ["http://example.com", "https://example.com/a?b", "ftp://host/file", "ssh://user@host", "mailto:me@example.com", "HTTPS://EXAMPLE.COM", "Http:x"] {
        assert!(is_allowed_scheme(uri), "{uri:?} should open");
    }
    for uri in ["file:///etc/passwd", "javascript:alert(1)", "/home/will/notes.txt", "http", "https", "httpx://example.com", "", ":", "xhttp://example.com", " http://example.com"] {
        assert!(!is_allowed_scheme(uri), "{uri:?} should not open");
    }
}
