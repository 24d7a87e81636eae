use pain::process::{foreground_name, is_console_host_implementation_detail, well_formed_snapshot, ProcessEntry};

fn process(pid: u32, parent: Option<u32>, start_time: u64, name: &str) -> ProcessEntry {
    ProcessEntry { pid, parent, start_time, name: name.to_string() }
}

#[test]
fn conhost_and_wslhost_are_recognized_as_implementation_details_to_skip() {
    assert!(is_console_host_implementation_detail("conhost.exe"));
    assert!(is_console_host_implementation_detail("CONHOST.EXE"));
    assert!(is_console_host_implementation_detail("wslhost.exe"));
    assert!(is_console_host_implementation_detail("WSLHOST.EXE"));
    assert!(!is_console_host_implementation_detail("wsl.exe"));
    assert!(!is_console_host_implementation_detail("htop"));
}

#[test]
fn console_host_names_match_in_mixed_case_and_only_in_full() {
    assert!(is_console_host_implementation_detail("ConHost.EXE"));
    assert!(is_console_host_implementation_detail("WslHost.exe"));
    assert!(!is_console_host_implementation_detail("bash"));
    assert!(!is_console_host_implementation_detail("conhost"));
    assert!(!is_console_host_implementation_detail("conhost.exe "));
    assert!(!is_console_host_implementation_detail(""));
}

#[test]
fn name_for_returns_none_without_a_shell_pid_or_foreground_pgid() {
    let snapshot = vec![process(1, None, 0, "init")];
    assert_eq!(foreground_name(&snapshot, None, None), None);
    // A group the snapshot doesn't have, and no shell to walk from.
    assert_eq!(foreground_name(&snapshot, None, Some(99)), None);
}

#[test]
fn the_foreground_process_group_wins_when_it_is_known() {
    let snapshot = vec![process(10, None, 1, "bash"), process(11, Some(10), 2, "vim"), process(12, Some(10), 3, "make")];
    assert_eq!(foreground_name(&snapshot, Some(10), Some(11)).as_deref(), Some("vim"));
    // An unknown group falls back to the walk.
    assert_eq!(foreground_name(&snapshot, Some(10), Some(77)).as_deref(), Some("make"));
}

#[test]
fn an_idle_shell_names_itself() {
    let snapshot = vec![process(10, None, 1, "zsh"), process(20, None, 5, "other")];
    assert_eq!(foreground_name(&snapshot, Some(10), None).as_deref(), Some("zsh"));
    // A shell that has already gone is nothing.
    assert_eq!(foreground_name(&snapshot, Some(99), None), None);
}

#[test]
fn the_walk_follows_the_youngest_child_down_the_tree() {
    let snapshot = vec![
        process(10, None, 1, "bash"),
        process(11, Some(10), 2, "older"),
        process(12, Some(10), 8, "npm"),
        process(13, Some(12), 9, "node"),
        process(14, Some(11), 20, "unrelated"),
    ];
    assert_eq!(foreground_name(&snapshot, Some(10), None).as_deref(), Some("node"));
}

#[test]
fn console_host_helpers_are_never_the_foreground() {
    let snapshot = vec![
        process(10, None, 1, "wsl.exe"),
        process(11, Some(10), 5, "conhost.exe"),
        process(12, Some(10), 6, "WSLHOST.EXE"),
    ];
    assert_eq!(foreground_name(&snapshot, Some(10), None).as_deref(), Some("wsl.exe"));
}

#[test]
fn a_process_tree_is_a_well_formed_snapshot() {
    assert!(well_formed_snapshot(&Vec::new()));
    // Children listed before their parents, and a parent missing from the snapshot.
    let snapshot = vec![
        process(12, Some(11), 3, "vim"),
        process(11, Some(10), 2, "zsh"),
        process(10, Some(1), 1, "login"),
        process(20, None, 1, "init"),
    ];
    assert!(well_formed_snapshot(&snapshot));
}

#[test]
fn repeated_pids_or_a_parent_cycle_make_a_snapshot_ill_formed() {
    let repeated = vec![process(10, None, 1, "bash"), process(10, None, 2, "bash")];
    assert!(!well_formed_snapshot(&repeated));
    let cycle = vec![process(10, Some(11), 1, "a"), process(11, Some(10), 2, "b"), process(1, None, 0, "init")];
    assert!(!well_formed_snapshot(&cycle));
    let own_parent = vec![process(7, Some(7), 1, "loop")];
    assert!(!well_formed_snapshot(&own_parent));
}
