use std::collections::BTreeMap;

use pain::bindings::{effective_binding_rows, BindingRow};

fn overrides(pairs: &[(&str, &str)]) -> Vec<(String, String)> {
    let table: BTreeMap<String, String> = pairs.iter().map(|(c, a)| (c.to_string(), a.to_string())).collect();
    table.into_iter().collect()
}

fn rows_for(pairs: &[(&str, &str)]) -> Vec<BindingRow> {
    effective_binding_rows(false, &overrides(pairs))
}

/// The row listing `chord`, if any.
fn row<'a>(rows: &'a [BindingRow], chord: &str) -> Option<&'a BindingRow> {
    rows.iter().find(|row| row.chords.iter().any(|c| c == chord))
}

#[test]
fn an_empty_config_still_lists_every_built_in_binding() {
    let rows = rows_for(&[]);
    assert!(!rows.is_empty());
    assert!(rows.iter().all(|row| !row.custom), "nothing is custom without any overrides");
    assert_eq!(row(&rows, "ctrl shift e").map(|r| r.action.as_str()), Some("split_vertical"));
}

#[test]
fn an_override_is_shown_in_effect_and_marked_custom() {
    let rows = rows_for(&[("ctrl+shift+e", "close_pane")]);

    let changed = row(&rows, "ctrl shift e").expect("still listed");
    assert_eq!(changed.action, "close_pane");
    assert!(changed.custom);

    assert_eq!(row(&rows, "ctrl shift o").map(|r| r.custom), Some(false));
}

#[test]
fn a_chord_the_config_unbound_is_listed_rather_than_dropped() {
    let rows = rows_for(&[("ctrl shift x", "none")]);

    let removed = row(&rows, "ctrl shift x").expect("listed even though it's unbound");
    assert_eq!(removed.action, "(unbound)");
    assert!(removed.custom);
}

#[test]
fn chords_that_run_the_same_action_share_one_row() {
    let rows = rows_for(&[]);

    let increase = row(&rows, "ctrl =").expect("the unshifted form is bound");
    assert_eq!(increase.action, "font_size_increase");
    assert!(increase.chords.contains(&"ctrl shift +".to_string()), "the shifted form shares the row");
    assert!(increase.chords.contains(&"ctrl +".to_string()), "and so does the keypad's");

    let listed = rows.iter().filter(|r| r.action == "font_size_increase").count();
    assert_eq!(listed, 1, "one action, one row");
}

#[test]
fn a_rebound_chord_stays_separate_from_the_defaults_it_joins() {
    let rows = rows_for(&[("ctrl shift t", "split_vertical")]);

    let rebound = row(&rows, "ctrl shift t").expect("the new chord is listed");
    assert!(rebound.custom);
    let untouched = row(&rows, "ctrl shift e").expect("the default is still listed");
    assert!(!untouched.custom, "an untouched default must not inherit the override's mark");
}

#[test]
fn rows_read_in_chord_order_and_list_every_chord_once() {
    let rows = rows_for(&[("ctrl+v", "none"), ("ctrl shift t", "split_vertical")]);
    let firsts: Vec<&String> = rows.iter().map(|r| &r.chords[0]).collect();
    let mut sorted = firsts.clone();
    sorted.sort();
    assert_eq!(firsts, sorted);
    for r in &rows {
        let mut chords = r.chords.clone();
        chords.sort();
        assert_eq!(chords, r.chords);
    }
    let total: usize = rows.iter().map(|r| r.chords.len()).sum();
    // Twenty-one defaults, one of them unbound, plus one new chord.
    assert_eq!(total, 22);
    assert_eq!(row(&rows, "ctrl v").map(|r| r.action.as_str()), Some("(unbound)"));
}

#[test]
fn macos_rows_use_command() {
    let rows = effective_binding_rows(true, &Vec::new());
    assert_eq!(row(&rows, "cmd c").map(|r| r.action.as_str()), Some("copy"));
    assert!(row(&rows, "ctrl c").is_none());
}

#[test]
fn no_chord_is_listed_twice_and_each_row_reads_in_print_order() {
    // Two spellings of one chord collapse to a single binding and a single listing.
    let rows = rows_for(&[("Ctrl+Shift+E", "quit"), ("ctrl shift e", "quit")]);
    let mut all: Vec<&String> = rows.iter().flat_map(|r| r.chords.iter()).collect();
    for row in &rows {
        assert!(row.chords.windows(2).all(|w| w[0] < w[1]), "{:?}", row.chords);
    }
    assert!(rows.windows(2).all(|w| w[0].chords[0] < w[1].chords[0]));
    let total = all.len();
    all.sort();
    all.dedup();
    assert_eq!(all.len(), total);
    let font_up = rows.iter().find(|r| r.action == "font_size_increase").expect("listed");
    assert_eq!(font_up.chords, vec!["ctrl +".to_string(), "ctrl =".to_string(), "ctrl shift +".to_string()]);
}
