use pain::retro::{parse_payload, RetroWatcher, MAX_PENDING};

fn sequence(payload: &str) -> Vec<u8> {
    format!("\x1b]7331;{payload}\x07").into_bytes()
}

#[test]
fn a_bel_terminated_request_is_picked_up() {
    let mut watcher = RetroWatcher::new();
    watcher.advance(&sequence("era=amber"));
    assert_eq!(watcher.take_requested_era().as_deref(), Some("amber"));
}

#[test]
fn an_st_terminated_request_is_picked_up() {
    let mut watcher = RetroWatcher::new();
    watcher.advance(b"\x1b]7331;era=green\x1b\\");
    assert_eq!(watcher.take_requested_era().as_deref(), Some("green"));
}

#[test]
fn taking_the_request_clears_it() {
    let mut watcher = RetroWatcher::new();
    watcher.advance(&sequence("era=cga"));
    assert_eq!(watcher.take_requested_era().as_deref(), Some("cga"));
    assert_eq!(watcher.take_requested_era(), None);
}

#[test]
fn a_hidden_era_name_is_carried_like_any_other() {
    let mut watcher = RetroWatcher::new();
    watcher.advance(&sequence("era=matrix"));
    assert_eq!(watcher.take_requested_era().as_deref(), Some("matrix"));
}

#[test]
fn a_request_split_across_arbitrary_chunks_still_arrives() {
    let full = sequence("era=amber");
    for split in 1..full.len() {
        let mut watcher = RetroWatcher::new();
        watcher.advance(&full[..split]);
        watcher.advance(&full[split..]);
        assert_eq!(watcher.take_requested_era().as_deref(), Some("amber"), "failed when split at byte {split}");
    }
}

#[test]
fn a_request_split_one_byte_at_a_time_still_arrives() {
    let mut watcher = RetroWatcher::new();
    for byte in sequence("era=c64") {
        watcher.advance(&[byte]);
    }
    assert_eq!(watcher.take_requested_era().as_deref(), Some("c64"));
}

#[test]
fn ordinary_output_around_a_request_is_ignored() {
    let mut watcher = RetroWatcher::new();
    watcher.advance(b"$ some command\r\n");
    watcher.advance(&sequence("era=green"));
    watcher.advance(b"more output\r\n");
    assert_eq!(watcher.take_requested_era().as_deref(), Some("green"));
}

#[test]
fn plain_output_never_produces_a_request() {
    let mut watcher = RetroWatcher::new();
    watcher.advance(b"nothing to see here\r\n");
    watcher.advance(b"\x1b]7;file://host/home/will\x07");
    watcher.advance(b"\x1b[1;32mcolored\x1b[0m");
    assert_eq!(watcher.take_requested_era(), None);
}

#[test]
fn only_the_latest_of_several_requests_survives() {
    let mut watcher = RetroWatcher::new();
    watcher.advance(&sequence("era=green"));
    watcher.advance(&sequence("era=amber"));
    assert_eq!(watcher.take_requested_era().as_deref(), Some("amber"));
}

#[test]
fn a_request_directly_after_a_broken_partial_match_is_found() {
    let mut watcher = RetroWatcher::new();
    watcher.advance(b"\x1b]73");
    watcher.advance(&sequence("era=cga"));
    assert_eq!(watcher.take_requested_era().as_deref(), Some("cga"));
}

#[test]
fn an_unknown_key_is_ignored() {
    let mut watcher = RetroWatcher::new();
    watcher.advance(&sequence("theme=Dracula"));
    assert_eq!(watcher.take_requested_era(), None);
}

#[test]
fn a_malformed_payload_is_ignored_rather_than_panicking() {
    let mut watcher = RetroWatcher::new();
    for payload in ["", "era", "=amber", "era="] {
        watcher.advance(&sequence(payload));
    }
    assert_eq!(watcher.take_requested_era().as_deref(), Some(""));
}

#[test]
fn surrounding_whitespace_in_the_name_is_trimmed() {
    let mut watcher = RetroWatcher::new();
    watcher.advance(&sequence("era =  amber  "));
    assert_eq!(watcher.take_requested_era().as_deref(), Some("amber"));
}

#[test]
fn an_unterminated_sequence_does_not_grow_without_bound() {
    let mut watcher = RetroWatcher::new();
    watcher.advance(b"\x1b]7331;");
    watcher.advance(&vec![b'x'; MAX_PENDING * 4]);

    assert!(watcher.pending_len() <= MAX_PENDING + 1);
    assert_eq!(watcher.take_requested_era(), None);
}

#[test]
fn invalid_utf8_in_a_payload_is_ignored() {
    let mut watcher = RetroWatcher::new();
    watcher.advance(b"\x1b]7331;era=\xff\xfe\x07");
    assert_eq!(watcher.take_requested_era(), None);
}

#[test]
fn a_payload_reads_only_the_era_key() {
    assert_eq!(parse_payload(b"era=amber").as_deref(), Some("amber"));
    assert_eq!(parse_payload(b" ERA = c64 ").as_deref(), Some("c64"));
    assert_eq!(parse_payload(b"theme=x"), None);
    assert_eq!(parse_payload(b"no equals sign"), None);
}

#[test]
fn a_scanner_left_mid_sequence_still_sees_an_st_request_split_at_the_terminator() {
    let mut watcher = RetroWatcher::new();
    watcher.advance(b"\x1b]7331;era=bbs\x1b");
    assert_eq!(watcher.take_requested_era(), None);
    watcher.advance(b"\\");
    assert_eq!(watcher.take_requested_era().as_deref(), Some("bbs"));
    assert_eq!(watcher.pending_len(), 0);
}

#[test]
fn a_default_watcher_starts_empty_and_watches_like_a_new_one() {
    let mut watcher = RetroWatcher::default();
    assert_eq!(watcher.pending_len(), 0);
    assert_eq!(watcher.take_requested_era(), None);
    watcher.advance(&sequence("era=amber"));
    assert_eq!(watcher.take_requested_era().as_deref(), Some("amber"));
}
