//! Group-aware input routing: keyboard chords to app-level actions, and
//! broadcast target resolution.

use vstd::prelude::*;

use crate::config::{DEFAULT_FONT_SIZE, MAX_FONT_SIZE, MIN_FONT_SIZE};
use crate::keymap::{default_bindings, Action, Chord, FontStep, Keymap};
use crate::layout::{Direction, Orientation, PaneId};
use crate::text::{
    chars_eq, chars_of, lemma_seq_lt_total, seq_le, seq_lt, sorted_order, string_from_chars,
};

verus! {

/// How broadcast input fans out from the focused pane.
#[derive(Debug, Clone, Copy, PartialEq, Eq, Structural)]
pub enum BroadcastMode {
    Off,
    Group,
    All,
}

impl Default for BroadcastMode {
    fn default() -> (r: Self)
        ensures
            r == BroadcastMode::Off,
    {
        BroadcastMode::Off
    }
}

/// Identifies a broadcast group by its user-given name: two panes assigned
/// the same name are in the same group.
#[derive(Debug, Clone, PartialEq, Eq, Hash, PartialOrd, Ord)]
pub struct GroupId(pub String);

/// No pane appears twice.
pub open spec fn unique_panes(s: Seq<(PaneId, String)>) -> bool {
    forall|i: int, j: int| 0 <= i < j < s.len() ==> (#[trigger] s[i]).0 != (#[trigger] s[j]).0
}

/// The pane-to-group-name map a membership list describes.
pub open spec fn membership_map(s: Seq<(PaneId, String)>) -> Map<PaneId, Seq<char>> {
    Map::new(
        |p: PaneId| exists|i: int| 0 <= i < s.len() && (#[trigger] s[i]).0 == p,
        |p: PaneId| s[choose|i: int| 0 <= i < s.len() && (#[trigger] s[i]).0 == p].1@,
    )
}

pub proof fn lemma_membership_at(s: Seq<(PaneId, String)>, i: int)
    requires
        unique_panes(s),
        0 <= i < s.len(),
    ensures
        membership_map(s).contains_key(s[i].0),
        membership_map(s)[s[i].0] == s[i].1@,
{
    let p = s[i].0;
    assert(exists|j: int| 0 <= j < s.len() && (#[trigger] s[j]).0 == p);
    let j = choose|j: int| 0 <= j < s.len() && (#[trigger] s[j]).0 == p;
    if j != i {
        if j < i {
            assert(s[j].0 != s[i].0);
        } else {
            assert(s[i].0 != s[j].0);
        }
    }
}

/// Whether some entry of `list` holds exactly the characters of `x`.
fn contains_chars(list: &Vec<Vec<char>>, x: &[char]) -> (r: bool)
    ensures
        r == exists|m: int| 0 <= m < list@.len() && (#[trigger] list@[m])@ == x@,
{
    let mut k: usize = 0;
    while k < list.len()
        invariant
            k <= list@.len(),
            forall|m: int| 0 <= m < k ==> (#[trigger] list@[m])@ != x@,
        decreases list@.len() - k,
    {
        if chars_eq(list[k].as_slice(), x) {
            return true;
        }
        k = k + 1;
    }
    false
}

/// Some pane is in the group called `n`.
pub open spec fn is_group_name(m: Map<PaneId, Seq<char>>, n: Seq<char>) -> bool {
    exists|p: PaneId| m.contains_key(p) && #[trigger] m[p] == n
}

/// One of the strings in `r` is `n`.
pub open spec fn lists_name(r: Seq<String>, n: Seq<char>) -> bool {
    exists|i: int| 0 <= i < r.len() && (#[trigger] r[i])@ == n
}

/// Some entry of `s` names the group `n`.
pub open spec fn names_group(s: Seq<(PaneId, String)>, n: Seq<char>) -> bool {
    exists|j: int| 0 <= j < s.len() && (#[trigger] s[j]).1@ == n
}

/// `n` is one of the names in `d`.
pub open spec fn listed_name(d: Seq<Vec<char>>, n: Seq<char>) -> bool {
    exists|m: int| 0 <= m < d.len() && (#[trigger] d[m])@ == n
}

/// The group names in `s`, each once, in order of first appearance.
fn distinct_names(s: &Vec<(PaneId, String)>) -> (names: Vec<Vec<char>>)
    ensures
        forall|a: int, c: int| 0 <= a < c < names@.len() ==> names@[a]@ != names@[c]@,
        forall|m: int| 0 <= m < names@.len() ==> names_group(s@, (#[trigger] names@[m])@),
        forall|j: int| 0 <= j < s@.len() ==> listed_name(names@, (#[trigger] s@[j]).1@),
{
    let mut distinct: Vec<Vec<char>> = Vec::new();
    let mut i: usize = 0;
    while i < s.len()
        invariant
            i <= s@.len(),
            forall|a: int, c: int| 0 <= a < c < distinct@.len() ==> distinct@[a]@ != distinct@[c]@,
            forall|m: int|
                0 <= m < distinct@.len() ==> names_group(s@.subrange(0, i as int), (#[trigger] distinct@[m])@),
            forall|j: int| 0 <= j < i ==> listed_name(distinct@, (#[trigger] s@[j]).1@),
        decreases s@.len() - i,
    {
        let nm = chars_of(s[i].1.as_str());
        let seen = contains_chars(&distinct, nm.as_slice());
        let ghost before = distinct@;
        if !seen {
            distinct.push(nm);
        }
        proof {
            let pre = s@.subrange(0, i as int);
            let post = s@.subrange(0, i + 1);
            assert forall|j: int| 0 <= j < i + 1 implies listed_name(distinct@, (#[trigger] s@[j]).1@) by {
                if j < i {
                    assert(listed_name(before, s@[j].1@));
                    let m = choose|m: int| 0 <= m < before.len() && (#[trigger] before[m])@ == s@[j].1@;
                    assert(distinct@[m] == before[m]);
                } else if !seen {
                    assert(distinct@[before.len() as int]@ == s@[j].1@);
                } else {
                    let m = choose|m: int| 0 <= m < before.len() && (#[trigger] before[m])@ == nm@;
                    assert(distinct@[m] == before[m]);
                }
            }
            assert forall|m: int| 0 <= m < distinct@.len() implies names_group(post, (#[trigger] distinct@[m])@) by {
                if m < before.len() {
                    assert(distinct@[m] == before[m]);
                    assert(names_group(pre, before[m]@));
                    let j = choose|j: int| 0 <= j < pre.len() && (#[trigger] pre[j]).1@ == before[m]@;
                    assert(post[j] == pre[j]);
                } else {
                    assert(post[i as int].1@ == distinct@[m]@);
                }
            }
        }
        i = i + 1;
    }
    assert(s@.subrange(0, s@.len() as int) =~= s@);
    distinct
}

/// Which group each grouped pane belongs to. A pane belongs to at most one
/// group, and a group exists exactly while it has a member.
pub struct PaneGroups {
    entries: Vec<(PaneId, String)>,
}

impl View for PaneGroups {
    type V = Map<PaneId, Seq<char>>;

    closed spec fn view(&self) -> Map<PaneId, Seq<char>> {
        membership_map(self.entries@)
    }
}

impl PaneGroups {
    #[verifier::type_invariant]
    spec fn inv(&self) -> bool {
        unique_panes(self.entries@)
    }

    pub fn new() -> (r: Self)
        ensures
            r@ == Map::<PaneId, Seq<char>>::empty(),
    {
        let r = PaneGroups { entries: Vec::new() };
        assert(r@ =~= Map::<PaneId, Seq<char>>::empty());
        r
    }

    fn position(&self, pane: PaneId) -> (r: Option<usize>)
        ensures
            r matches Some(i) ==> i < self.entries@.len() && self.entries@[i as int].0 == pane,
            r is None ==> forall|i: int|
                0 <= i < self.entries@.len() ==> (#[trigger] self.entries@[i]).0 != pane,
    {
        let mut i: usize = 0;
        while i < self.entries.len()
            invariant
                i <= self.entries@.len(),
                forall|j: int| 0 <= j < i ==> (#[trigger] self.entries@[j]).0 != pane,
            decreases self.entries@.len() - i,
        {
            if self.entries[i].0 == pane {
                return Some(i);
            }
            i = i + 1;
        }
        None
    }

    /// The name of the group `pane` belongs to, if any.
    pub fn get(&self, pane: PaneId) -> (r: Option<&String>)
        ensures
            r is Some <==> self@.contains_key(pane),
            r matches Some(name) ==> name@ == self@[pane],
    {
        proof {
            use_type_invariant(self);
        }
        match self.position(pane) {
            Some(i) => {
                proof {
                    lemma_membership_at(self.entries@, i as int);
                }
                Some(&self.entries[i].1)
            },
            None => None,
        }
    }

    /// Puts `pane` in the group called `name`, out of any group it was in.
    pub fn assign(&mut self, pane: PaneId, name: String)
        ensures
            final(self)@ == old(self)@.insert(pane, name@),
    {
        self.remove(pane);
        proof {
            use_type_invariant(&*self);
        }
        let ghost s = self.entries@;
        let ghost nv = name@;
        let mut b: Vec<(PaneId, String)> = Vec::new();
        std::mem::swap(&mut b, &mut self.entries);
        b.push((pane, name));
        proof {
            let t = b@;
            assert(t == s.push((pane, t.last().1)));
            assert(t.last().1@ == nv);
            assert(!membership_map(s).contains_key(pane));
            assert forall|a: int, c: int| 0 <= a < c < t.len() implies (#[trigger] t[a]).0 != (
            #[trigger] t[c]).0 by {
                if c < s.len() {
                    assert(s[a].0 != s[c].0);
                } else {
                    assert(s[a].0 != pane);
                }
            }
            assert(membership_map(t) =~= membership_map(s).insert(pane, nv)) by {
                lemma_membership_at(t, s.len() as int);
                assert forall|k: PaneId| #[trigger]
                    membership_map(t).contains_key(k) <==> membership_map(s).insert(
                        pane,
                        nv,
                    ).contains_key(k) by {
                    if membership_map(s).contains_key(k) && k != pane {
                        let j = choose|j: int| 0 <= j < s.len() && (#[trigger] s[j]).0 == k;
                        assert(t[j].0 == k);
                    }
                    if membership_map(t).contains_key(k) && k != pane {
                        let j = choose|j: int| 0 <= j < t.len() && (#[trigger] t[j]).0 == k;
                        assert(s[j].0 == k);
                    }
                }
                assert forall|k: PaneId| #[trigger]
                    membership_map(t).contains_key(k) && k != pane implies membership_map(t)[k]
                    == membership_map(s)[k] by {
                    let j = choose|j: int| 0 <= j < t.len() && (#[trigger] t[j]).0 == k;
                    lemma_membership_at(t, j);
                    lemma_membership_at(s, j);
                }
            }
        }
        self.entries = b;
    }

    /// Takes `pane` out of whatever group it is in.
    pub fn remove(&mut self, pane: PaneId)
        ensures
            final(self)@ == old(self)@.remove(pane),
    {
        proof {
            use_type_invariant(&*self);
        }
        let ghost s = self.entries@;
        match self.position(pane) {
            Some(i) => {
                let mut b: Vec<(PaneId, String)> = Vec::new();
                std::mem::swap(&mut b, &mut self.entries);
                b.remove(i);
                proof {
                    let t = b@;
                    assert(t == s.remove(i as int));
                    assert forall|a: int, c: int| 0 <= a < c < t.len() implies (#[trigger] t[a]).0
                        != (#[trigger] t[c]).0 by {
                        let a0 = if a < i { a } else { a + 1 };
                        let c0 = if c < i { c } else { c + 1 };
                        assert(s[a0].0 != s[c0].0);
                    }
                    assert(membership_map(t) =~= membership_map(s).remove(pane)) by {
                        assert forall|k: PaneId| #[trigger]
                            membership_map(t).contains_key(k) <==> membership_map(s).remove(
                                pane,
                            ).contains_key(k) by {
                            if membership_map(s).contains_key(k) && k != pane {
                                let j = choose|j: int| 0 <= j < s.len() && (#[trigger] s[j]).0 == k;
                                if j < i {
                                    assert(t[j].0 == k);
                                } else {
                                    assert(t[j - 1].0 == k);
                                }
                            }
                            if membership_map(t).contains_key(k) {
                                let j = choose|j: int| 0 <= j < t.len() && (#[trigger] t[j]).0 == k;
                                let j0 = if j < i { j } else { j + 1 };
                                assert(s[j0].0 == k);
                                if k == pane {
                                    if j0 < i {
                                        assert(s[j0].0 != s[i as int].0);
                                    } else {
                                        assert(s[i as int].0 != s[j0].0);
                                    }
                                }
                            }
                        }
                        assert forall|k: PaneId| #[trigger]
                            membership_map(t).contains_key(k) implies membership_map(t)[k]
                            == membership_map(s)[k] by {
                            let j = choose|j: int| 0 <= j < t.len() && (#[trigger] t[j]).0 == k;
                            let j0 = if j < i { j } else { j + 1 };
                            lemma_membership_at(t, j);
                            lemma_membership_at(s, j0);
                        }
                    }
                }
                self.entries = b;
            },
            None => {
                proof {
                    assert(membership_map(s) =~= membership_map(s).remove(pane));
                }
            },
        }
    }

    /// The members of the group called `name`, each once.
    pub fn members(&self, name: &[char]) -> (r: Vec<PaneId>)
        ensures
            forall|i: int, j: int| 0 <= i < j < r@.len() ==> r@[i] != r@[j],
            forall|p: PaneId|
                #![trigger r@.contains(p)]
                r@.contains(p) <==> (self@.contains_key(p) && self@[p] == name@),
    {
        proof {
            use_type_invariant(self);
        }
        let s = &self.entries;
        let mut r: Vec<PaneId> = Vec::new();
        let mut i: usize = 0;
        while i < s.len()
            invariant
                i <= s@.len(),
                unique_panes(s@),
                forall|a: int, c: int| 0 <= a < c < r@.len() ==> r@[a] != r@[c],
                forall|m: int| #![trigger r@[m]] 0 <= m < r@.len() ==> exists|j: int|
                    0 <= j < i && (#[trigger] s@[j]).0 == r@[m] && s@[j].1@ == name@,
                forall|j: int| 0 <= j < i && (#[trigger] s@[j]).1@ == name@ ==> r@.contains(s@[j].0),
            decreases s@.len() - i,
        {
            let nm = chars_of(s[i].1.as_str());
            if chars_eq(nm.as_slice(), name) {
                proof {
                    assert forall|m: int| 0 <= m < r@.len() implies r@[m] != s@[i as int].0 by {
                        let j = choose|j: int|
                            0 <= j < i && (#[trigger] s@[j]).0 == r@[m] && s@[j].1@ == name@;
                        assert(s@[j].0 != s@[i as int].0);
                    }
                }
                let ghost before = r@;
                r.push(s[i].0);
                proof {
                    assert forall|j: int| 0 <= j < i + 1 && (#[trigger] s@[j]).1@ == name@ implies r@.contains(
                        s@[j].0,
                    ) by {
                        if j < i {
                            let m = choose|m: int| 0 <= m < before.len() && before[m] == s@[j].0;
                            assert(r@[m] == s@[j].0);
                        } else {
                            assert(r@[before.len() as int] == s@[j].0);
                        }
                    }
                }
            }
            i = i + 1;
        }
        proof {
            assert forall|p: PaneId| #![trigger r@.contains(p)] r@.contains(p) <==> (
            self@.contains_key(p) && self@[p] == name@) by {
                if r@.contains(p) {
                    let m = choose|m: int| 0 <= m < r@.len() && r@[m] == p;
                    let j = choose|j: int|
                        0 <= j < s@.len() && (#[trigger] s@[j]).0 == r@[m] && s@[j].1@ == name@;
                    lemma_membership_at(s@, j);
                }
                if self@.contains_key(p) && self@[p] == name@ {
                    let j = choose|j: int| 0 <= j < s@.len() && (#[trigger] s@[j]).0 == p;
                    lemma_membership_at(s@, j);
                }
            }
        }
        r
    }

    /// The name of every group that has a member, each once, in ascending
    /// order.
    pub fn names(&self) -> (r: Vec<String>)
        ensures
            forall|i: int, j: int| 0 <= i < j < r@.len() ==> seq_lt(r@[i]@, r@[j]@),
            forall|i: int| 0 <= i < r@.len() ==> is_group_name(self@, (#[trigger] r@[i])@),
            forall|p: PaneId| #[trigger] self@.contains_key(p) ==> lists_name(r@, self@[p]),
    {
        proof {
            use_type_invariant(self);
        }
        let s = &self.entries;
        let distinct = distinct_names(s);
        let idx = sorted_order(&distinct);
        assert(forall|a: int, c: int|
            0 <= a < c < idx@.len() ==> seq_le(distinct@[idx@[a] as int]@, distinct@[idx@[c] as int]@));
        let mut r: Vec<String> = Vec::new();
        let mut k: usize = 0;
        while k < idx.len()
            invariant
                k <= idx@.len(),
                idx@.len() == distinct@.len(),
                forall|m: int| 0 <= m < distinct@.len() ==> names_group(s@, (#[trigger] distinct@[m])@),
                forall|a: int| 0 <= a < idx@.len() ==> idx@[a] < distinct@.len(),
                r@.len() == k,
                forall|m: int| 0 <= m < k ==> (#[trigger] r@[m])@ == distinct@[idx@[m] as int]@,
            decreases idx@.len() - k,
        {
            r.push(string_from_chars(distinct[idx[k]].as_slice()));
            k = k + 1;
        }
        proof {
            assert forall|a: int, c: int| 0 <= a < c < r@.len() implies seq_lt(r@[a]@, r@[c]@) by {
                let ia = idx@[a] as int;
                let ic = idx@[c] as int;
                assert(ia != ic);
                if ia < ic {
                    assert(distinct@[ia]@ != distinct@[ic]@);
                } else {
                    assert(distinct@[ic]@ != distinct@[ia]@);
                }
                assert(seq_le(distinct@[ia]@, distinct@[ic]@));
                assert(r@[a]@ == distinct@[ia]@);
                assert(r@[c]@ == distinct@[ic]@);
                lemma_seq_lt_total(r@[a]@, r@[c]@);
            }
            assert forall|a: int| 0 <= a < r@.len() implies is_group_name(self@, (#[trigger] r@[a])@) by {
                let m = idx@[a] as int;
                assert(names_group(s@, distinct@[m]@));
                let j = choose|j: int| 0 <= j < s@.len() && (#[trigger] s@[j]).1@ == distinct@[m]@;
                lemma_membership_at(s@, j);
                assert(r@[a]@ == distinct@[m]@);
                assert(self@.contains_key(s@[j].0));
                assert(self@[s@[j].0] == r@[a]@);
            }
            assert forall|p: PaneId| #[trigger] self@.contains_key(p) implies lists_name(r@, self@[p]) by {
                let j = choose|j: int| 0 <= j < s@.len() && (#[trigger] s@[j]).0 == p;
                lemma_membership_at(s@, j);
                assert(listed_name(distinct@, s@[j].1@));
                let m = choose|m: int| 0 <= m < distinct@.len() && (#[trigger] distinct@[m])@ == s@[j].1@;
                assert(idx@.contains(m as usize));
                let a = choose|a: int| 0 <= a < idx@.len() && idx@[a] == m as usize;
                assert(r@[a]@ == self@[p]);
            }
        }
        r
    }
}

} // verus!

verus! {

/// Which panes receive input typed into `focused`: only `focused` with
/// broadcast off; every pane in the layout with broadcast to all; and with
/// group broadcast, every member of `focused`'s group, or just `focused`
/// when it is in none.
pub open spec fn broadcast_target_set(
    mode: BroadcastMode,
    membership: Map<PaneId, Seq<char>>,
    focused: PaneId,
    all_panes: Seq<PaneId>,
) -> Set<PaneId> {
    match mode {
        BroadcastMode::Off => set![focused],
        BroadcastMode::All => all_panes.to_set(),
        BroadcastMode::Group => if membership.contains_key(focused) {
            Set::new(
                |p: PaneId| membership.contains_key(p) && membership[p] == membership[focused],
            )
        } else {
            set![focused]
        },
    }
}

/// Resolves keyboard chords to actions and broadcast input to its targets.
pub struct Router {
    pub keymap: Keymap,
    pub broadcast_mode: BroadcastMode,
    /// Which group each grouped pane is in; changed only through the
    /// methods below.
    pub groups: PaneGroups,
}

impl Router {
    /// Which group (by name) each grouped pane is in.
    pub open spec fn membership(&self) -> Map<PaneId, Seq<char>> {
        self.groups@
    }

    /// A router using the default keybindings for the platform, broadcast
    /// off, and no groups.
    pub fn new(is_macos: bool) -> (r: Self)
        ensures
            r.keymap@ == default_bindings(is_macos),
            r.broadcast_mode == BroadcastMode::Off,
            r.membership() == Map::<PaneId, Seq<char>>::empty(),
    {
        Router {
            keymap: Keymap::defaults_for_platform(is_macos),
            broadcast_mode: BroadcastMode::Off,
            groups: PaneGroups::new(),
        }
    }

    /// Looks up the action bound to `chord`, if any.
    pub fn resolve(&self, chord: Chord) -> (r: Option<Action>)
        ensures
            r == (if self.keymap@.contains_key(chord) {
                Some(self.keymap@[chord])
            } else {
                None
            }),
    {
        self.keymap.lookup(chord)
    }

    /// Assigns `pane` to the named group, creating it if it doesn't exist
    /// yet, and taking it out of whatever group it was in before: a pane
    /// belongs to at most one group at a time.
    pub fn assign_to_group(&mut self, pane: PaneId, name: String)
        ensures
            final(self).membership() == old(self).membership().insert(pane, name@),
            final(self).keymap == old(self).keymap,
            final(self).broadcast_mode == old(self).broadcast_mode,
    {
        self.groups.assign(pane, name);
    }

    /// Removes `pane` from its current group, if any; a group with no
    /// members left no longer exists.
    pub fn remove_from_group(&mut self, pane: PaneId)
        ensures
            final(self).membership() == old(self).membership().remove(pane),
            final(self).keymap == old(self).keymap,
            final(self).broadcast_mode == old(self).broadcast_mode,
    {
        self.groups.remove(pane);
    }

    /// The group `pane` belongs to, if any.
    pub fn group_of(&self, pane: PaneId) -> (r: Option<GroupId>)
        ensures
            r is Some <==> self.membership().contains_key(pane),
            r matches Some(g) ==> g.0@ == self.membership()[pane],
    {
        match self.groups.get(pane) {
            Some(name) => Some(GroupId(name.clone())),
            None => None,
        }
    }

    /// Every group that currently has at least one member, each once, in
    /// ascending order.
    pub fn group_names(&self) -> (r: Vec<String>)
        ensures
            forall|i: int, j: int| 0 <= i < j < r@.len() ==> seq_lt(r@[i]@, r@[j]@),
            forall|i: int| 0 <= i < r@.len() ==> is_group_name(self.membership(), (#[trigger] r@[i])@),
            forall|p: PaneId| #[trigger]
                self.membership().contains_key(p) ==> lists_name(r@, self.membership()[p]),
    {
        self.groups.names()
    }

    /// Forgets `pane` entirely, for when it closes.
    pub fn forget_pane(&mut self, pane: PaneId)
        ensures
            final(self).membership() == old(self).membership().remove(pane),
            final(self).keymap == old(self).keymap,
            final(self).broadcast_mode == old(self).broadcast_mode,
    {
        self.remove_from_group(pane);
    }

    /// Resolves which panes should receive input typed into `focused`,
    /// given the current broadcast mode; `all_panes` is every pane
    /// currently in the layout. Each target is listed once.
    pub fn broadcast_targets(&self, focused: PaneId, all_panes: &[PaneId]) -> (r: Vec<PaneId>)
        ensures
            forall|i: int, j: int| 0 <= i < j < r@.len() ==> r@[i] != r@[j],
            forall|p: PaneId|
                #![trigger r@.contains(p)]
                r@.contains(p) <==> broadcast_target_set(
                    self.broadcast_mode,
                    self.membership(),
                    focused,
                    all_panes@,
                ).contains(p),
    {
        match self.broadcast_mode {
            BroadcastMode::Off => {
                let mut r: Vec<PaneId> = Vec::new();
                r.push(focused);
                proof {
                    assert forall|p: PaneId| #![trigger r@.contains(p)] r@.contains(p) <==> set![
                        focused,
                    ].contains(p) by {
                        if p == focused {
                            assert(r@[0] == p);
                        }
                    }
                }
                r
            },
            BroadcastMode::All => {
                let mut r: Vec<PaneId> = Vec::new();
                let mut i: usize = 0;
                while i < all_panes.len()
                    invariant
                        i <= all_panes@.len(),
                        forall|a: int, c: int| 0 <= a < c < r@.len() ==> r@[a] != r@[c],
                        forall|p: PaneId|
                            #![trigger r@.contains(p)]
                            r@.contains(p) <==> all_panes@.subrange(0, i as int).contains(p),
                    decreases all_panes@.len() - i,
                {
                    let p = all_panes[i];
                    let mut seen = false;
                    let mut k: usize = 0;
                    while k < r.len()
                        invariant
                            k <= r@.len(),
                            seen ==> r@.contains(p),
                            !seen ==> forall|m: int| 0 <= m < k ==> r@[m] != p,
                        decreases r@.len() - k,
                    {
                        if r[k] == p {
                            seen = true;
                        }
                        k = k + 1;
                    }
                    let ghost before = r@;
                    if !seen {
                        r.push(p);
                    }
                    proof {
                        let pre = all_panes@.subrange(0, i as int);
                        let post = all_panes@.subrange(0, i + 1);
                        assert(post =~= pre.push(p));
                        assert forall|q: PaneId| #![trigger r@.contains(q)] r@.contains(q) <==> post.contains(
                            q,
                        ) by {
                            if r@.contains(q) {
                                let m = choose|m: int| 0 <= m < r@.len() && r@[m] == q;
                                if m < before.len() {
                                    assert(before[m] == q);
                                    assert(before.contains(q));
                                    let j = choose|j: int| 0 <= j < pre.len() && pre[j] == q;
                                    assert(post[j] == q);
                                } else {
                                    assert(post[i as int] == q);
                                }
                            }
                            if post.contains(q) {
                                let j = choose|j: int| 0 <= j < post.len() && post[j] == q;
                                if j < i {
                                    assert(pre[j] == q);
                                    assert(before.contains(q));
                                    let m = choose|m: int| 0 <= m < before.len() && before[m] == q;
                                    assert(r@[m] == q);
                                } else if !seen {
                                    assert(r@[before.len() as int] == q);
                                }
                            }
                        }
                    }
                    i = i + 1;
                }
                proof {
                    assert(all_panes@.subrange(0, all_panes@.len() as int) =~= all_panes@);
                }
                r
            },
            BroadcastMode::Group => {
                match self.groups.get(focused) {
                    Some(name) => {
                        let chars = chars_of(name.as_str());
                        self.groups.members(chars.as_slice())
                    },
                    None => {
                        let mut r: Vec<PaneId> = Vec::new();
                        r.push(focused);
                        proof {
                            assert forall|p: PaneId| #![trigger r@.contains(p)] r@.contains(p) <==> set![
                                focused,
                            ].contains(p) by {
                                if p == focused {
                                    assert(r@[0] == p);
                                }
                            }
                        }
                        r
                    },
                }
            },
        }
    }
}

/// A group exists exactly while it has a member: once `pane` leaves, the
/// name it was under is still a group only if another pane is in it.
pub proof fn lemma_group_outlives_only_with_members(
    membership: Map<PaneId, Seq<char>>,
    pane: PaneId,
    name: Seq<char>,
)
    ensures
        is_group_name(membership.remove(pane), name) <==> exists|q: PaneId|
            q != pane && membership.contains_key(q) && #[trigger] membership[q] == name,
{
    if is_group_name(membership.remove(pane), name) {
        let q = choose|q: PaneId|
            membership.remove(pane).contains_key(q) && #[trigger] membership.remove(pane)[q]
                == name;
        assert(q != pane && membership.contains_key(q) && membership[q] == name);
    }
    if exists|q: PaneId| q != pane && membership.contains_key(q) && #[trigger] membership[q] == name {
        let q = choose|q: PaneId|
            q != pane && membership.contains_key(q) && #[trigger] membership[q] == name;
        assert(membership.remove(pane).contains_key(q) && membership.remove(pane)[q] == name);
    }
}

/// Under group broadcast, every member of a group reaches exactly the same
/// set of panes, and that set always includes the pane typed into.
pub proof fn lemma_group_broadcast_is_shared(
    membership: Map<PaneId, Seq<char>>,
    a: PaneId,
    b: PaneId,
    all_panes: Seq<PaneId>,
)
    requires
        membership.contains_key(a),
        membership.contains_key(b),
        membership[a] == membership[b],
    ensures
        broadcast_target_set(BroadcastMode::Group, membership, a, all_panes) == broadcast_target_set(
            BroadcastMode::Group,
            membership,
            b,
            all_panes,
        ),
        broadcast_target_set(BroadcastMode::Group, membership, a, all_panes).contains(a),
{
    assert(broadcast_target_set(BroadcastMode::Group, membership, a, all_panes)
        =~= broadcast_target_set(BroadcastMode::Group, membership, b, all_panes));
}


/// Input typed into a pane reaches: with broadcast off, that pane alone;
/// with broadcast to all, exactly the panes of the layout; with group
/// broadcast, exactly the panes in the same group as the focused one, which
/// is among them, or the focused pane alone when it is in no group.
pub proof fn lemma_broadcast_modes(
    membership: Map<PaneId, Seq<char>>,
    focused: PaneId,
    all_panes: Seq<PaneId>,
    p: PaneId,
)
    ensures
        broadcast_target_set(BroadcastMode::Off, membership, focused, all_panes).contains(p) <==> p == focused,
        broadcast_target_set(BroadcastMode::All, membership, focused, all_panes).contains(p) <==> all_panes.contains(p),
        !membership.contains_key(focused) ==> (broadcast_target_set(BroadcastMode::Group, membership, focused, all_panes).contains(p)
            <==> p == focused),
        membership.contains_key(focused) ==> (broadcast_target_set(BroadcastMode::Group, membership, focused, all_panes).contains(p)
            <==> membership.contains_key(p) && membership[p] == membership[focused]),
        membership.contains_key(focused) ==> broadcast_target_set(BroadcastMode::Group, membership, focused, all_panes).contains(
            focused,
        ),
{
}

/// What the window does for a bound chord, once the router has resolved
/// it.
#[derive(Debug, Clone, Copy, PartialEq, Eq, Structural)]
pub enum ChordCommand {
    Split(Orientation),
    ClosePane,
    Quit,
    Focus(Direction),
    Resize(Direction),
    ToggleZoom,
    /// The broadcast mode is now this (already set on the router); the
    /// title bars repaint to show it.
    BroadcastModeSet(BroadcastMode),
    /// Copy the focused pane's selection to the clipboard.
    Copy,
    /// Send the focused pane an interrupt (Ctrl+C's own byte).
    Interrupt,
    /// Paste the clipboard into the focused pane.
    Paste,
    /// Change the font size to this many points.
    SetFontSize(u32),
}

/// `x` held within `lo..=hi`.
pub open spec fn clamp_spec(x: int, lo: int, hi: int) -> int {
    if x < lo {
        lo
    } else if x > hi {
        hi
    } else {
        x
    }
}

/// The command for `action`: one step of the font size, clamped to the
/// sizes text can be laid out at; the built-in size on a reset; a copy when
/// the focused pane has a selection and an interrupt when it has none; and
/// every other action as its own command.
pub open spec fn command_for(action: Action, font_size: u32, selection_empty: bool) -> ChordCommand {
    match action {
        Action::Split(o) => ChordCommand::Split(o),
        Action::ClosePane => ChordCommand::ClosePane,
        Action::Quit => ChordCommand::Quit,
        Action::Focus(d) => ChordCommand::Focus(d),
        Action::Resize(d) => ChordCommand::Resize(d),
        Action::ToggleZoom => ChordCommand::ToggleZoom,
        Action::SetBroadcastMode(m) => ChordCommand::BroadcastModeSet(m),
        Action::Copy => ChordCommand::Copy,
        Action::CopyOrInterrupt => if selection_empty {
            ChordCommand::Interrupt
        } else {
            ChordCommand::Copy
        },
        Action::Paste => ChordCommand::Paste,
        Action::FontSize(FontStep::Increase) => ChordCommand::SetFontSize(
            clamp_spec(font_size + 1, MIN_FONT_SIZE as int, MAX_FONT_SIZE as int) as u32,
        ),
        Action::FontSize(FontStep::Decrease) => ChordCommand::SetFontSize(
            clamp_spec(font_size - 1, MIN_FONT_SIZE as int, MAX_FONT_SIZE as int) as u32,
        ),
        Action::ResetFontSize => ChordCommand::SetFontSize(DEFAULT_FONT_SIZE),
    }
}

/// `font_size + delta` held within the font-size bounds.
fn step_font_size(font_size: u32, increase: bool) -> (r: u32)
    ensures
        r == clamp_spec(
            if increase {
                font_size + 1
            } else {
                font_size - 1
            },
            MIN_FONT_SIZE as int,
            MAX_FONT_SIZE as int,
        ),
{
    if increase {
        if font_size < MIN_FONT_SIZE {
            MIN_FONT_SIZE
        } else if font_size >= MAX_FONT_SIZE {
            MAX_FONT_SIZE
        } else {
            font_size + 1
        }
    } else {
        if font_size <= MIN_FONT_SIZE {
            MIN_FONT_SIZE
        } else if font_size > MAX_FONT_SIZE {
            MAX_FONT_SIZE
        } else {
            font_size - 1
        }
    }
}

/// Resolves `chord` and decides what the window does for it, given the
/// current font size and whether the focused pane has a selection. An
/// unbound chord gives `None` and changes nothing: the key then passes
/// through to the pane, since a chord is never partially consumed. A
/// broadcast action takes effect on the router itself.
pub fn chord_command(router: &mut Router, chord: Chord, font_size: u32, selection_empty: bool) -> (r: Option<
    ChordCommand,
>)
    ensures
        !old(router).keymap@.contains_key(chord) ==> r is None && *final(router) == *old(router),
        old(router).keymap@.contains_key(chord) ==> r == Some(
            command_for(old(router).keymap@[chord], font_size, selection_empty),
        ),
        final(router).keymap == old(router).keymap,
        final(router).groups == old(router).groups,
        final(router).broadcast_mode == (if old(router).keymap@.contains_key(chord) && old(
            router,
        ).keymap@[chord] is SetBroadcastMode {
            old(router).keymap@[chord]->SetBroadcastMode_0
        } else {
            old(router).broadcast_mode
        }),
{
    let action = match router.resolve(chord) {
        Some(a) => a,
        None => return None,
    };
    let command = match action {
        Action::Split(o) => ChordCommand::Split(o),
        Action::ClosePane => ChordCommand::ClosePane,
        Action::Quit => ChordCommand::Quit,
        Action::Focus(d) => ChordCommand::Focus(d),
        Action::Resize(d) => ChordCommand::Resize(d),
        Action::ToggleZoom => ChordCommand::ToggleZoom,
        Action::SetBroadcastMode(m) => {
            router.broadcast_mode = m;
            ChordCommand::BroadcastModeSet(m)
        },
        Action::Copy => ChordCommand::Copy,
        Action::CopyOrInterrupt => if selection_empty {
            ChordCommand::Interrupt
        } else {
            ChordCommand::Copy
        },
        Action::Paste => ChordCommand::Paste,
        Action::FontSize(FontStep::Increase) => ChordCommand::SetFontSize(step_font_size(font_size, true)),
        Action::FontSize(FontStep::Decrease) => ChordCommand::SetFontSize(step_font_size(font_size, false)),
        Action::ResetFontSize => ChordCommand::SetFontSize(DEFAULT_FONT_SIZE),
    };
    Some(command)
}

/// Each bound action becomes the command that carries out that same
/// action with the same orientation, direction or mode; Ctrl+C's action
/// copies exactly when there is a selection and interrupts otherwise; the
/// font steps change the size by one point and stay within 6 to 48 points;
/// and resetting returns to 13 points.
pub proof fn lemma_chord_commands(font_size: u32, selection_empty: bool)
    ensures
        forall|o: Orientation| #[trigger] command_for(Action::Split(o), font_size, selection_empty) == ChordCommand::Split(o),
        forall|d: Direction| #[trigger] command_for(Action::Focus(d), font_size, selection_empty) == ChordCommand::Focus(d),
        forall|d: Direction| #[trigger] command_for(Action::Resize(d), font_size, selection_empty) == ChordCommand::Resize(d),
        forall|m: BroadcastMode|
            #[trigger] command_for(Action::SetBroadcastMode(m), font_size, selection_empty) == ChordCommand::BroadcastModeSet(m),
        command_for(Action::ClosePane, font_size, selection_empty) == ChordCommand::ClosePane,
        command_for(Action::Quit, font_size, selection_empty) == ChordCommand::Quit,
        command_for(Action::ToggleZoom, font_size, selection_empty) == ChordCommand::ToggleZoom,
        command_for(Action::Copy, font_size, selection_empty) == ChordCommand::Copy,
        command_for(Action::Paste, font_size, selection_empty) == ChordCommand::Paste,
        selection_empty ==> command_for(Action::CopyOrInterrupt, font_size, selection_empty) == ChordCommand::Interrupt,
        !selection_empty ==> command_for(Action::CopyOrInterrupt, font_size, selection_empty) == ChordCommand::Copy,
        command_for(Action::ResetFontSize, font_size, selection_empty) == ChordCommand::SetFontSize(13),
        6 <= font_size < 48 ==> command_for(Action::FontSize(FontStep::Increase), font_size, selection_empty)
            == ChordCommand::SetFontSize((font_size + 1) as u32),
        font_size >= 48 ==> command_for(Action::FontSize(FontStep::Increase), font_size, selection_empty)
            == ChordCommand::SetFontSize(48),
        font_size < 6 ==> command_for(Action::FontSize(FontStep::Increase), font_size, selection_empty)
            == ChordCommand::SetFontSize(6),
        6 < font_size <= 48 ==> command_for(Action::FontSize(FontStep::Decrease), font_size, selection_empty)
            == ChordCommand::SetFontSize((font_size - 1) as u32),
        font_size <= 6 ==> command_for(Action::FontSize(FontStep::Decrease), font_size, selection_empty)
            == ChordCommand::SetFontSize(6),
        font_size > 48 ==> command_for(Action::FontSize(FontStep::Decrease), font_size, selection_empty)
            == ChordCommand::SetFontSize(48),
{
}

/// Whatever size the font had, a font command leaves it legible: within 6
/// to 48 points, and at most one point from where it was when that was in
/// range.
pub proof fn lemma_font_steps_stay_in_bounds(action: Action, font_size: u32, selection_empty: bool)
    requires
        action is FontSize || action is ResetFontSize,
    ensures
        command_for(action, font_size, selection_empty) matches ChordCommand::SetFontSize(n) && 6 <= n <= 48,
        action is FontSize && 6 <= font_size <= 48 ==> (command_for(action, font_size, selection_empty) matches ChordCommand::SetFontSize(n)
            && -1 <= n - font_size <= 1),
{
}

} // verus!
