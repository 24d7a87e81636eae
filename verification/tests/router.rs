use std::collections::HashSet;

use pain::keymap::{Action, Chord, Key};
use pain::layout::PaneId;
use pain::router::{BroadcastMode, GroupId, Router};

fn pane(id: u64) -> PaneId {
    PaneId(id)
}

fn targets(router: &Router, focused: PaneId, all: &[PaneId]) -> HashSet<PaneId> {
    router.broadcast_targets(focused, all).into_iter().collect()
}

#[test]
fn broadcast_off_targets_only_focused() {
    let router = Router::new(false);
    let all = vec![pane(0), pane(1)];
    assert_eq!(targets(&router, pane(0), &all), HashSet::from([pane(0)]));
}

#[test]
fn broadcast_all_targets_every_pane() {
    let mut router = Router::new(false);
    router.broadcast_mode = BroadcastMode::All;
    let all = vec![pane(0), pane(1), pane(2)];
    assert_eq!(targets(&router, pane(0), &all), HashSet::from([pane(0), pane(1), pane(2)]));
}

#[test]
fn broadcast_group_targets_group_members_only() {
    let mut router = Router::new(false);
    router.broadcast_mode = BroadcastMode::Group;
    let (a, b, c) = (pane(0), pane(1), pane(2));
    router.assign_to_group(a, "backend".to_string());
    router.assign_to_group(b, "backend".to_string());

    assert_eq!(targets(&router, a, &[a, b, c]), HashSet::from([a, b]));
    assert_eq!(targets(&router, c, &[a, b, c]), HashSet::from([c]));
}

#[test]
fn remove_from_group_is_reversible() {
    let mut router = Router::new(false);
    let a = pane(0);
    router.assign_to_group(a, "backend".to_string());
    assert_eq!(router.group_of(a), Some(GroupId("backend".to_string())));
    router.remove_from_group(a);
    assert_eq!(router.group_of(a), None);
}

#[test]
fn forget_pane_clears_group_membership() {
    let mut router = Router::new(false);
    let a = pane(0);
    router.assign_to_group(a, "backend".to_string());
    router.forget_pane(a);
    assert_eq!(router.group_of(a), None);
}

#[test]
fn reassigning_a_pane_moves_it_between_groups() {
    let mut router = Router::new(false);
    let a = pane(0);
    router.assign_to_group(a, "backend".to_string());
    router.assign_to_group(a, "frontend".to_string());

    assert_eq!(router.group_of(a), Some(GroupId("frontend".to_string())));
    assert_eq!(router.group_names(), vec!["frontend"]);
}

#[test]
fn a_group_disappears_once_its_last_member_leaves() {
    let mut router = Router::new(false);
    let (a, b) = (pane(0), pane(1));
    router.assign_to_group(a, "backend".to_string());
    router.assign_to_group(b, "backend".to_string());

    router.remove_from_group(a);
    assert_eq!(router.group_names(), vec!["backend"]);

    router.remove_from_group(b);
    assert!(router.group_names().is_empty());
}

#[test]
fn group_names_lists_every_group_with_a_member_sorted() {
    let mut router = Router::new(false);
    router.assign_to_group(pane(0), "zebra".to_string());
    router.assign_to_group(pane(1), "alpha".to_string());

    assert_eq!(router.group_names(), vec!["alpha", "zebra"]);
}

#[test]
fn group_broadcast_reaches_every_member_and_all_counts_each_pane_once() {
    let mut router = Router::new(false);
    router.broadcast_mode = BroadcastMode::Group;
    let (a, b) = (pane(0), pane(1));
    router.assign_to_group(a, "ops".to_string());
    router.assign_to_group(b, "ops".to_string());
    // Group membership decides, not the list of panes handed in.
    assert_eq!(targets(&router, a, &[a]), HashSet::from([a, b]));
    router.broadcast_mode = BroadcastMode::All;
    // A pane listed twice is still one target.
    assert_eq!(router.broadcast_targets(a, &[a, b, a]).len(), 2);
}

#[test]
fn resolve_uses_the_routers_keymap() {
    let router = Router::new(false);
    assert_eq!(router.resolve(Chord::new(Key::Char('q')).ctrl().shift()), Some(Action::Quit));
    assert_eq!(router.resolve(Chord::new(Key::Char('k')).ctrl()), None);
    let mac = Router::new(true);
    assert_eq!(mac.resolve(Chord::new(Key::Char('c')).logo()), Some(Action::Copy));
}
