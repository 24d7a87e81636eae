//! The list of keybindings in effect that the settings panel shows: the
//! built-in defaults with the config's overrides layered on, grouped by the
//! action they run and marked with whether config changed them.

use vstd::prelude::*;

use crate::keymap::{
    action_name, chord_text, default_bindings, entries_map, join_with_spaces, lemma_chord_text_injective,
    lemma_default_chords_printable, lemma_entries_map_at, lemma_overrides_keep_chords_printable,
    overrides_applied, pairs_view, printable_key, unique_chords, Action, Chord, Keymap,
};
use crate::text::{chars_eq, chars_of, is_permutation, lemma_seq_lt_total, seq_le, seq_lt, sorted_order, string_from_chars};

verus! {

/// One row of the list: every chord that runs one action, together.
pub struct BindingRow {
    /// The chords, in the order they print.
    pub chords: Vec<String>,
    /// The action's config name, or `(unbound)`.
    pub action: String,
    /// Whether config changed this from the built-in default.
    pub custom: bool,
}

/// A listed fact about one chord: the action it runs (by name), whether
/// config made it so, and the chord as it prints.
pub type BindingEntry = (Seq<char>, bool, Seq<char>);

/// What a chord bound in `effective` is listed as: its action, marked
/// custom unless the defaults bind it to that same action.
pub open spec fn bound_entry(
    defaults: Map<Chord, Action>,
    effective: Map<Chord, Action>,
    c: Chord,
) -> BindingEntry {
    (
        action_name(effective[c]),
        !(defaults.contains_key(c) && defaults[c] == effective[c]),
        chord_text(c),
    )
}

/// What a default chord that config unbound is listed as.
pub open spec fn unbound_entry(c: Chord) -> BindingEntry {
    ("(unbound)"@, true, chord_text(c))
}

/// Whether `e` describes a chord bound in `effective`.
pub open spec fn is_bound_entry(
    defaults: Map<Chord, Action>,
    effective: Map<Chord, Action>,
    e: BindingEntry,
) -> bool {
    exists|c: Chord| effective.contains_key(c) && #[trigger] bound_entry(defaults, effective, c) == e
}

/// Whether `e` describes a default chord that `effective` no longer binds.
pub open spec fn is_unbound_entry(
    defaults: Map<Chord, Action>,
    effective: Map<Chord, Action>,
    e: BindingEntry,
) -> bool {
    exists|c: Chord| defaults.contains_key(c) && !effective.contains_key(c) && #[trigger] unbound_entry(c) == e
}

/// Whether `e` belongs in the list.
pub open spec fn is_binding_entry(
    defaults: Map<Chord, Action>,
    effective: Map<Chord, Action>,
    e: BindingEntry,
) -> bool {
    is_bound_entry(defaults, effective, e) || is_unbound_entry(defaults, effective, e)
}

/// The `j`th chord of `row`, as a listed fact.
pub open spec fn row_entry(row: BindingRow, j: int) -> BindingEntry {
    (row.action@, row.custom, row.chords@[j]@)
}

/// Whether some row lists `e`.
pub open spec fn rows_list(rows: Seq<BindingRow>, e: BindingEntry) -> bool {
    exists|i: int, j: int|
        0 <= i < rows.len() && 0 <= j < rows[i].chords@.len() && #[trigger] row_entry(rows[i], j) == e
}

/// The bindings in effect for a platform once `overrides` are applied.
pub open spec fn effective_bindings(is_macos: bool, overrides: Seq<(String, String)>) -> Map<
    Chord,
    Action,
> {
    overrides_applied(default_bindings(is_macos), pairs_view(overrides))
}

/// An entry under construction.
pub open spec fn entry_view(e: (Vec<char>, bool, Vec<char>)) -> BindingEntry {
    (e.0@, e.1, e.2@)
}

/// Whether some entry of `es` is `e`.
pub open spec fn entries_have(es: Seq<(Vec<char>, bool, Vec<char>)>, e: BindingEntry) -> bool {
    exists|k: int| 0 <= k < es.len() && #[trigger] entry_view(es[k]) == e
}

/// Two entries run the same action with the same mark.
pub open spec fn same_group(a: BindingEntry, b: BindingEntry) -> bool {
    a.0 == b.0 && a.1 == b.1
}

fn collect_entries(defaults: &Keymap, effective: &Keymap) -> (es: Vec<(Vec<char>, bool, Vec<char>)>)
    requires
        forall|c: Chord| #[trigger] defaults@.contains_key(c) ==> printable_key(c.key),
        forall|c: Chord| #[trigger] effective@.contains_key(c) ==> printable_key(c.key),
    ensures
        forall|x: int, y: int| 0 <= x < y < es@.len() ==> (#[trigger] es@[x]).2@ != (#[trigger] es@[y]).2@,
        forall|k: int|
            0 <= k < es@.len() ==> is_binding_entry(defaults@, effective@, #[trigger] entry_view(es@[k])),
        forall|e: BindingEntry|
            is_binding_entry(defaults@, effective@, e) ==> #[trigger] entries_have(es@, e),
{
    let bound = effective.bindings();
    let listed = defaults.bindings();
    let mut es: Vec<(Vec<char>, bool, Vec<char>)> = Vec::new();
    let ghost mut cs: Seq<Chord> = Seq::empty();
    let mut m: usize = 0;
    while m < bound.len()
        invariant
            unique_chords(bound@),
            entries_map(bound@) == effective@,
            m <= bound@.len(),
            es@.len() == m,
            cs.len() == m,
            forall|k: int| 0 <= k < m ==> #[trigger] cs[k] == bound@[k].0 && es@[k].2@ == chord_text(cs[k]),
            forall|k: int|
                0 <= k < es@.len() ==> is_binding_entry(defaults@, effective@, #[trigger] entry_view(es@[k])),
            forall|p: int|
                0 <= p < m ==> entries_have(es@, #[trigger] bound_entry(defaults@, effective@, bound@[p].0)),
        decreases bound@.len() - m,
    {
        let (chord, action) = bound[m];
        let custom = match defaults.lookup(chord) {
            Some(default_action) => !(default_action == action),
            None => true,
        };
        let ghost before = es@;
        es.push((chars_of(action.name()), custom, join_with_spaces(&chord.words())));
        proof {
            lemma_entries_map_at(bound@, m as int);
            let e = bound_entry(defaults@, effective@, chord);
            assert(entry_view(es@[before.len() as int]) == e);
            assert(is_bound_entry(defaults@, effective@, e));
            assert forall|k: int|
                0 <= k < es@.len() implies is_binding_entry(
                defaults@,
                effective@,
                #[trigger] entry_view(es@[k]),
            ) by {
                if k < before.len() {
                    assert(es@[k] == before[k]);
                }
            }
            assert forall|p: int|
                0 <= p < m + 1 implies entries_have(
                es@,
                #[trigger] bound_entry(defaults@, effective@, bound@[p].0),
            ) by {
                if p < m {
                    let k = choose|k: int|
                        0 <= k < before.len() && #[trigger] entry_view(before[k]) == bound_entry(
                            defaults@,
                            effective@,
                            bound@[p].0,
                        );
                    assert(es@[k] == before[k]);
                } else {
                    assert(entry_view(es@[before.len() as int]) == e);
                }
            }
        }
        proof {
            cs = cs.push(chord);
        }
        m = m + 1;
    }
    proof {
        assert forall|x: int, y: int| 0 <= x < y < cs.len() implies #[trigger] cs[x] != #[trigger] cs[y] by {
            assert(bound@[x].0 != bound@[y].0);
        }
        assert forall|k: int| 0 <= k < cs.len() implies effective@.contains_key(#[trigger] cs[k]) by {
            lemma_entries_map_at(bound@, k);
        }
    }
    let mut q: usize = 0;
    while q < listed.len()
        invariant
            unique_chords(bound@),
            entries_map(bound@) == effective@,
            entries_map(listed@) == defaults@,
            unique_chords(listed@),
            q <= listed@.len(),
            bound@.len() <= es@.len(),
            cs.len() == es@.len(),
            forall|k: int| 0 <= k < es@.len() ==> es@[k].2@ == chord_text(#[trigger] cs[k]),
            forall|k: int| 0 <= k < bound@.len() ==> effective@.contains_key(#[trigger] cs[k]),
            forall|k: int|
                bound@.len() <= k < es@.len() ==> !effective@.contains_key(#[trigger] cs[k]) && exists|p: int|
                    0 <= p < q && (#[trigger] listed@[p]).0 == cs[k],
            forall|x: int, y: int| 0 <= x < y < cs.len() ==> #[trigger] cs[x] != #[trigger] cs[y],
            forall|k: int|
                0 <= k < es@.len() ==> is_binding_entry(defaults@, effective@, #[trigger] entry_view(es@[k])),
            forall|p: int|
                0 <= p < bound@.len() ==> entries_have(
                    es@,
                    #[trigger] bound_entry(defaults@, effective@, bound@[p].0),
                ),
            forall|p: int|
                0 <= p < q && !effective@.contains_key(listed@[p].0) ==> entries_have(
                    es@,
                    #[trigger] unbound_entry(listed@[p].0),
                ),
        decreases listed@.len() - q,
    {
        let chord = listed[q].0;
        let ghost before = es@;
        if effective.lookup(chord).is_none() {
            es.push((chars_of("(unbound)"), true, join_with_spaces(&chord.words())));
            proof {
                let old_cs = cs;
                cs = cs.push(chord);
                assert(!effective@.contains_key(chord));
                assert forall|x: int, y: int| 0 <= x < y < cs.len() implies #[trigger] cs[x] != #[trigger] cs[y] by {
                    if y == old_cs.len() && x >= bound@.len() {
                        let p = choose|p: int| 0 <= p < q && (#[trigger] listed@[p]).0 == old_cs[x];
                        assert(listed@[p].0 != listed@[q as int].0);
                    } else if y < old_cs.len() {
                        assert(cs[x] == old_cs[x] && cs[y] == old_cs[y]);
                    }
                }
                assert forall|k: int|
                    bound@.len() <= k < es@.len() implies !effective@.contains_key(#[trigger] cs[k]) && exists|p: int|
                        0 <= p < q + 1 && (#[trigger] listed@[p]).0 == cs[k] by {
                    if k < old_cs.len() {
                        assert(cs[k] == old_cs[k]);
                        let p = choose|p: int| 0 <= p < q && (#[trigger] listed@[p]).0 == old_cs[k];
                        assert(listed@[p].0 == cs[k]);
                    } else {
                        assert(listed@[q as int].0 == cs[k]);
                    }
                }
                assert forall|k: int| 0 <= k < es@.len() implies es@[k].2@ == chord_text(#[trigger] cs[k]) by {
                    if k < old_cs.len() {
                        assert(es@[k] == before[k]);
                    }
                }
            }
            proof {
                let e = unbound_entry(chord);
                assert(entry_view(es@[before.len() as int]) == e);
                assert(defaults@.contains_key(chord)) by {
                    assert(listed@[q as int].0 == chord);
                }
                assert(is_unbound_entry(defaults@, effective@, e));
                assert forall|k: int|
                    0 <= k < es@.len() implies is_binding_entry(
                    defaults@,
                    effective@,
                    #[trigger] entry_view(es@[k]),
                ) by {
                    if k < before.len() {
                        assert(es@[k] == before[k]);
                    }
                }
                assert forall|p: int|
                    0 <= p < bound@.len() implies entries_have(
                    es@,
                    #[trigger] bound_entry(defaults@, effective@, bound@[p].0),
                ) by {
                    let k = choose|k: int|
                        0 <= k < before.len() && #[trigger] entry_view(before[k]) == bound_entry(
                            defaults@,
                            effective@,
                            bound@[p].0,
                        );
                    assert(es@[k] == before[k]);
                }
                assert forall|p: int|
                    0 <= p < q + 1 && !effective@.contains_key(listed@[p].0) implies entries_have(
                    es@,
                    #[trigger] unbound_entry(listed@[p].0),
                ) by {
                    if p < q {
                        let k = choose|k: int|
                            0 <= k < before.len() && #[trigger] entry_view(before[k]) == unbound_entry(
                                listed@[p].0,
                            );
                        assert(es@[k] == before[k]);
                    } else {
                        assert(entry_view(es@[before.len() as int]) == e);
                    }
                }
            }
        }
        q = q + 1;
    }
    proof {
        assert forall|e: BindingEntry|
            is_binding_entry(defaults@, effective@, e) implies #[trigger] entries_have(es@, e) by {
            if is_bound_entry(defaults@, effective@, e) {
                let c = choose|c: Chord|
                    effective@.contains_key(c) && #[trigger] bound_entry(defaults@, effective@, c) == e;
                let p = choose|p: int| 0 <= p < bound@.len() && (#[trigger] bound@[p]).0 == c;
                assert(entries_have(es@, bound_entry(defaults@, effective@, bound@[p].0)));
            } else {
                let c = choose|c: Chord|
                    defaults@.contains_key(c) && !effective@.contains_key(c) && #[trigger] unbound_entry(c)
                        == e;
                let p = choose|p: int| 0 <= p < listed@.len() && (#[trigger] listed@[p]).0 == c;
                assert(entries_have(es@, unbound_entry(listed@[p].0)));
            }
        }
        assert forall|x: int, y: int| 0 <= x < y < es@.len() implies (#[trigger] es@[x]).2@ != (
        #[trigger] es@[y]).2@ by {
            assert(cs[x] != cs[y]);
            if x >= bound@.len() {
                let p = choose|p: int| 0 <= p < listed@.len() && (#[trigger] listed@[p]).0 == cs[x];
                lemma_entries_map_at(listed@, p);
            }
            if y >= bound@.len() {
                let p = choose|p: int| 0 <= p < listed@.len() && (#[trigger] listed@[p]).0 == cs[y];
                lemma_entries_map_at(listed@, p);
            }
            if chord_text(cs[x]) == chord_text(cs[y]) {
                lemma_chord_text_injective(cs[x], cs[y]);
            }
        }
    }
    es
}

fn same_group_exec(a: &(Vec<char>, bool, Vec<char>), b: &(Vec<char>, bool, Vec<char>)) -> (r: bool)
    ensures
        r == same_group(entry_view(*a), entry_view(*b)),
{
    a.1 == b.1 && chars_eq(a.0.as_slice(), b.0.as_slice())
}

/// Whether `row` lists `chord`.
pub open spec fn row_has_chord(row: BindingRow, chord: Seq<char>) -> bool {
    exists|j: int| 0 <= j < row.chords@.len() && (#[trigger] row.chords@[j])@ == chord
}

/// Whether entry `x` of `es` belongs to the group of some row's first
/// entry at or before it.
pub open spec fn has_group_row(es: Seq<(Vec<char>, bool, Vec<char>)>, fst: Seq<int>, x: int) -> bool {
    exists|r: int|
        0 <= r < fst.len() && fst[r] <= x && same_group(entry_view(es[x]), entry_view(es[#[trigger] fst[r]]))
}

/// The rows of `es` (ascending by chord) grouped by action and mark.
fn group_rows(es: &Vec<(Vec<char>, bool, Vec<char>)>) -> (rows: Vec<BindingRow>)
    requires
        forall|x: int, y: int| 0 <= x < y < es@.len() ==> seq_lt(es@[x].2@, es@[y].2@),
    ensures
        forall|i: int, j: int|
            0 <= i < rows@.len() && 0 <= j < rows@[i].chords@.len() ==> entries_have(
                es@,
                #[trigger] row_entry(rows@[i], j),
            ),
        forall|x: int| 0 <= x < es@.len() ==> rows_list(rows@, #[trigger] entry_view(es@[x])),
        forall|i: int| 0 <= i < rows@.len() ==> (#[trigger] rows@[i]).chords@.len() > 0,
        forall|i: int, a: int, b: int|
            #![trigger rows@[i].chords@[a], rows@[i].chords@[b]]
            0 <= i < rows@.len() && 0 <= a < b < rows@[i].chords@.len() ==> seq_lt(
                rows@[i].chords@[a]@,
                rows@[i].chords@[b]@,
            ),
        forall|i: int, k: int|
            0 <= i < k < rows@.len() ==> !((#[trigger] rows@[i]).action@ == (#[trigger] rows@[k]).action@
                && rows@[i].custom == rows@[k].custom),
        forall|i: int, k: int|
            0 <= i < k < rows@.len() ==> seq_lt(
                (#[trigger] rows@[i]).chords@[0]@,
                (#[trigger] rows@[k]).chords@[0]@,
            ),
{
    let n = es.len();
    let mut rows: Vec<BindingRow> = Vec::new();
    let ghost mut fst: Seq<int> = Seq::empty();
    let mut t: usize = 0;
    while t < n
        invariant
            n == es@.len(),
            t <= n,
            forall|x: int, y: int| 0 <= x < y < es@.len() ==> seq_lt(es@[x].2@, es@[y].2@),
            fst.len() == rows@.len(),
            forall|r: int| 0 <= r < fst.len() ==> 0 <= #[trigger] fst[r] < t,
            forall|a: int, b: int| 0 <= a < b < fst.len() ==> #[trigger] fst[a] < #[trigger] fst[b],
            forall|r: int, s: int|
                #![trigger es@[s], fst[r]]
                0 <= r < fst.len() && 0 <= s < fst[r] ==> !same_group(
                    entry_view(es@[s]),
                    entry_view(es@[fst[r]]),
                ),
            forall|r: int|
                0 <= r < fst.len() ==> (#[trigger] rows@[r]).action@ == es@[fst[r]].0@ && rows@[r].custom
                    == es@[fst[r]].1 && rows@[r].chords@.len() > 0 && rows@[r].chords@[0]@
                    == es@[fst[r]].2@,
            forall|r: int, j: int|
                0 <= r < rows@.len() && 0 <= j < rows@[r].chords@.len() ==> entries_have(
                    es@,
                    #[trigger] row_entry(rows@[r], j),
                ),
            forall|r: int, a: int, b: int|
                #![trigger rows@[r].chords@[a], rows@[r].chords@[b]]
                0 <= r < rows@.len() && 0 <= a < b < rows@[r].chords@.len() ==> seq_lt(
                    rows@[r].chords@[a]@,
                    rows@[r].chords@[b]@,
                ),
            forall|r: int, x: int|
                0 <= r < fst.len() && fst[r] <= x < n && same_group(
                    entry_view(es@[x]),
                    entry_view(es@[fst[r]]),
                ) ==> row_has_chord(#[trigger] rows@[r], #[trigger] es@[x].2@),
            forall|x: int| 0 <= x < t ==> #[trigger] has_group_row(es@, fst, x),
        decreases n - t,
    {
        let mut first = true;
        let mut s: usize = 0;
        while s < t
            invariant
                n == es@.len(),
                t < n,
                s <= t,
                first == forall|k: int|
                    0 <= k < s ==> !same_group(entry_view(#[trigger] es@[k]), entry_view(es@[t as int])),
            decreases t - s,
        {
            if same_group_exec(&es[s], &es[t]) {
                first = false;
            }
            s = s + 1;
        }
        if first {
            let mut chords: Vec<String> = Vec::new();
            let ghost mut src: Seq<int> = Seq::empty();
            let mut u: usize = t;
            while u < n
                invariant
                    n == es@.len(),
                    t < n,
                    t <= u <= n,
                    forall|x: int, y: int| 0 <= x < y < es@.len() ==> seq_lt(es@[x].2@, es@[y].2@),
                    chords@.len() == src.len(),
                    forall|j: int|
                        0 <= j < src.len() ==> t <= #[trigger] src[j] < u && same_group(
                            entry_view(es@[src[j]]),
                            entry_view(es@[t as int]),
                        ) && chords@[j]@ == es@[src[j]].2@,
                    forall|a: int, b: int| 0 <= a < b < src.len() ==> #[trigger] src[a] < #[trigger] src[b],
                    forall|x: int|
                        t <= x < u && same_group(entry_view(es@[x]), entry_view(es@[t as int]))
                            ==> #[trigger] src.contains(x),
                    u > t ==> src.len() > 0 && src[0] == t,
                decreases n - u,
            {
                if same_group_exec(&es[u], &es[t]) {
                    let ghost before = src;
                    chords.push(string_from_chars(es[u].2.as_slice()));
                    proof {
                        src = src.push(u as int);
                        assert forall|x: int|
                            t <= x < u + 1 && same_group(entry_view(es@[x]), entry_view(es@[t as int]))
                                implies #[trigger] src.contains(x) by {
                            if x < u {
                                assert(before.contains(x));
                                let j = choose|j: int| 0 <= j < before.len() && before[j] == x;
                                assert(src[j] == x);
                            } else {
                                assert(src[src.len() - 1] == x);
                            }
                        }
                    }
                }
                u = u + 1;
            }
            let row = BindingRow {
                chords,
                action: string_from_chars(es[t].0.as_slice()),
                custom: es[t].1,
            };
            let ghost old_rows = rows@;
            let ghost old_fst = fst;
            rows.push(row);
            proof {
                fst = fst.push(t as int);
                let nr = rows@.len() - 1;
                assert(rows@[nr] == row);
                assert forall|j: int| 0 <= j < row.chords@.len() implies entries_have(
                    es@,
                    #[trigger] row_entry(row, j),
                ) by {
                    assert(entry_view(es@[src[j]]) == row_entry(row, j));
                }
                assert forall|a: int, b: int| 0 <= a < b < row.chords@.len() implies seq_lt(
                    row.chords@[a]@,
                    row.chords@[b]@,
                ) by {
                    assert(src[a] < src[b]);
                }
                assert forall|x: int|
                    t <= x < n && same_group(entry_view(es@[x]), entry_view(es@[t as int])) implies row_has_chord(
                    row,
                    es@[x].2@,
                ) by {
                    assert(src.contains(x));
                    let j = choose|j: int| 0 <= j < src.len() && src[j] == x;
                    assert(row.chords@[j]@ == es@[x].2@);
                }
                assert forall|r: int, j: int|
                    0 <= r < rows@.len() && 0 <= j < rows@[r].chords@.len() implies entries_have(
                    es@,
                    #[trigger] row_entry(rows@[r], j),
                ) by {
                    if r < nr {
                        assert(rows@[r] == old_rows[r]);
                    }
                }
                assert forall|r: int, a: int, b: int|
                    #![trigger rows@[r].chords@[a], rows@[r].chords@[b]]
                    0 <= r < rows@.len() && 0 <= a < b < rows@[r].chords@.len() implies seq_lt(
                    rows@[r].chords@[a]@,
                    rows@[r].chords@[b]@,
                ) by {
                    if r < nr {
                        assert(rows@[r] == old_rows[r]);
                    }
                }
                assert forall|r: int, x: int|
                    0 <= r < fst.len() && fst[r] <= x < n && same_group(
                        entry_view(es@[x]),
                        entry_view(es@[fst[r]]),
                    ) implies row_has_chord(#[trigger] rows@[r], #[trigger] es@[x].2@) by {
                    if r < nr {
                        assert(rows@[r] == old_rows[r]);
                        assert(fst[r] == old_fst[r]);
                    }
                }
                assert forall|x: int| 0 <= x < t + 1 implies #[trigger] has_group_row(es@, fst, x) by {
                    if x < t {
                        assert(has_group_row(es@, old_fst, x));
                        let r = choose|r: int|
                            0 <= r < old_fst.len() && old_fst[r] <= x && same_group(
                                entry_view(es@[x]),
                                entry_view(es@[#[trigger] old_fst[r]]),
                            );
                        assert(fst[r] == old_fst[r]);
                    } else {
                        assert(fst[nr] == t);
                    }
                }
            }
        } else {
            proof {
                let k = choose|k: int|
                    0 <= k < t && same_group(entry_view(#[trigger] es@[k]), entry_view(es@[t as int]));
                assert(has_group_row(es@, fst, k));
                let r = choose|r: int|
                    0 <= r < fst.len() && fst[r] <= k && same_group(
                        entry_view(es@[k]),
                        entry_view(es@[#[trigger] fst[r]]),
                    );
                assert(same_group(entry_view(es@[t as int]), entry_view(es@[fst[r]])));
                assert forall|x: int| 0 <= x < t + 1 implies #[trigger] has_group_row(es@, fst, x) by {
                    if x == t {
                        assert(fst[r] <= x);
                    }
                }
            }
        }
        t = t + 1;
    }
    proof {
        assert forall|x: int| 0 <= x < es@.len() implies rows_list(rows@, #[trigger] entry_view(es@[x])) by {
            assert(has_group_row(es@, fst, x));
            let r = choose|r: int|
                0 <= r < fst.len() && fst[r] <= x && same_group(
                    entry_view(es@[x]),
                    entry_view(es@[#[trigger] fst[r]]),
                );
            assert(row_has_chord(rows@[r], es@[x].2@));
            let j = choose|j: int| 0 <= j < rows@[r].chords@.len() && (#[trigger] rows@[r].chords@[j])@ == es@[x].2@;
            assert(row_entry(rows@[r], j) == entry_view(es@[x]));
        }
        assert forall|i: int, k: int| 0 <= i < k < rows@.len() implies !((#[trigger] rows@[i]).action@
            == (#[trigger] rows@[k]).action@ && rows@[i].custom == rows@[k].custom) by {
            assert(fst[i] < fst[k]);
            assert(!same_group(entry_view(es@[fst[i]]), entry_view(es@[fst[k]])));
        }
        assert forall|i: int, k: int| 0 <= i < k < rows@.len() implies seq_lt(
            (#[trigger] rows@[i]).chords@[0]@,
            (#[trigger] rows@[k]).chords@[0]@,
        ) by {
            assert(fst[i] < fst[k]);
        }
    }
    rows
}

fn clone_chars(v: &Vec<char>) -> (r: Vec<char>)
    ensures
        r@ == v@,
{
    let r = v.clone();
    assert(r@ =~= v@);
    r
}

/// The keybindings actually in effect on a platform that does
/// (`is_macos`) or doesn't use Command for the clipboard: the built-in
/// defaults with `overrides` layered on, grouped by the action they run and
/// marked with whether config changed them.
///
/// Chords the config unbound are listed too, as `(unbound)` and custom,
/// rather than simply being absent. A rebound chord and one that came that
/// way by default are different facts about the same action, so they sit in
/// separate rows. Chords within a row, and rows by their first chord, read
/// in the order the chords print.
///
/// `overrides` are layered on in the order given, as
/// [`Keymap::apply_overrides`] does; the config file's table hands them
/// over sorted by chord string, each string once.
pub fn effective_binding_rows(is_macos: bool, overrides: &Vec<(String, String)>) -> (rows: Vec<
    BindingRow,
>)
    ensures
        forall|i: int, j: int|
            0 <= i < rows@.len() && 0 <= j < rows@[i].chords@.len() ==> is_binding_entry(
                default_bindings(is_macos),
                effective_bindings(is_macos, overrides@),
                #[trigger] row_entry(rows@[i], j),
            ),
        forall|e: BindingEntry|
            is_binding_entry(default_bindings(is_macos), effective_bindings(is_macos, overrides@), e)
                ==> #[trigger] rows_list(rows@, e),
        forall|i: int| 0 <= i < rows@.len() ==> (#[trigger] rows@[i]).chords@.len() > 0,
        forall|i: int, a: int, b: int|
            #![trigger rows@[i].chords@[a], rows@[i].chords@[b]]
            0 <= i < rows@.len() && 0 <= a < b < rows@[i].chords@.len() ==> seq_lt(
                rows@[i].chords@[a]@,
                rows@[i].chords@[b]@,
            ),
        forall|i: int, k: int|
            0 <= i < k < rows@.len() ==> !((#[trigger] rows@[i]).action@ == (#[trigger] rows@[k]).action@
                && rows@[i].custom == rows@[k].custom),
        forall|i: int, k: int|
            0 <= i < k < rows@.len() ==> seq_lt(
                (#[trigger] rows@[i]).chords@[0]@,
                (#[trigger] rows@[k]).chords@[0]@,
            ),
{
    let defaults = Keymap::defaults_for_platform(is_macos);
    let mut effective = Keymap::defaults_for_platform(is_macos);
    effective.apply_overrides(overrides);
    proof {
        lemma_default_chords_printable(is_macos);
        lemma_overrides_keep_chords_printable(default_bindings(is_macos), pairs_view(overrides@));
    }
    let es = collect_entries(&defaults, &effective);
    let mut keys: Vec<Vec<char>> = Vec::new();
    let mut k: usize = 0;
    while k < es.len()
        invariant
            k <= es@.len(),
            keys@.len() == k,
            forall|m: int| 0 <= m < k ==> (#[trigger] keys@[m])@ == es@[m].2@,
        decreases es@.len() - k,
    {
        keys.push(clone_chars(&es[k].2));
        k = k + 1;
    }
    let order = sorted_order(&keys);
    let mut sorted: Vec<(Vec<char>, bool, Vec<char>)> = Vec::new();
    let mut t: usize = 0;
    while t < order.len()
        invariant
            keys@.len() == es@.len(),
            forall|m: int| 0 <= m < keys@.len() ==> (#[trigger] keys@[m])@ == es@[m].2@,
            is_permutation(order@, keys@.len()),
            t <= order@.len(),
            sorted@.len() == t,
            forall|m: int| 0 <= m < t ==> entry_view(#[trigger] sorted@[m]) == entry_view(es@[order@[m] as int]),
        decreases order@.len() - t,
    {
        let e = &es[order[t]];
        sorted.push((clone_chars(&e.0), e.1, clone_chars(&e.2)));
        t = t + 1;
    }
    proof {
        assert forall|x: int, y: int| 0 <= x < y < sorted@.len() implies seq_lt(
            sorted@[x].2@,
            sorted@[y].2@,
        ) by {
            assert(entry_view(sorted@[x]) == entry_view(es@[order@[x] as int]));
            assert(entry_view(sorted@[y]) == entry_view(es@[order@[y] as int]));
            assert(keys@[order@[x] as int]@ == es@[order@[x] as int].2@);
            assert(keys@[order@[y] as int]@ == es@[order@[y] as int].2@);
            assert(seq_le(sorted@[x].2@, sorted@[y].2@));
            let (ox, oy) = (order@[x] as int, order@[y] as int);
            assert(ox != oy);
            if ox < oy {
                assert(es@[ox].2@ != es@[oy].2@);
            } else {
                assert(es@[oy].2@ != es@[ox].2@);
            }
            lemma_seq_lt_total(sorted@[x].2@, sorted@[y].2@);
        }
    }
    let rows = group_rows(&sorted);
    proof {
        let d = default_bindings(is_macos);
        let eff = effective_bindings(is_macos, overrides@);
        assert(defaults@ == d);
        assert(effective@ == eff);
        assert forall|i: int, j: int|
            0 <= i < rows@.len() && 0 <= j < rows@[i].chords@.len() implies is_binding_entry(
            d,
            eff,
            #[trigger] row_entry(rows@[i], j),
        ) by {
            assert(entries_have(sorted@, row_entry(rows@[i], j)));
            let m = choose|m: int|
                0 <= m < sorted@.len() && #[trigger] entry_view(sorted@[m]) == row_entry(rows@[i], j);
            assert(entry_view(es@[order@[m] as int]) == row_entry(rows@[i], j));
        }
        assert forall|e: BindingEntry| is_binding_entry(d, eff, e) implies #[trigger] rows_list(
            rows@,
            e,
        ) by {
            assert(entries_have(es@, e));
            let k = choose|k: int| 0 <= k < es@.len() && #[trigger] entry_view(es@[k]) == e;
            assert(order@.contains(k as usize));
            let m = choose|m: int| 0 <= m < order@.len() && order@[m] == k as usize;
            assert(entry_view(sorted@[m]) == e);
        }
    }
    rows
}

/// A default chord the config unbound is listed as `(unbound)`, marked
/// custom, under the text the chord prints as.
pub proof fn lemma_unbound_label(c: Chord)
    ensures
        unbound_entry(c) == (seq!['(', 'u', 'n', 'b', 'o', 'u', 'n', 'd', ')'], true, chord_text(c)),
{
    reveal_strlit("(unbound)");
}

} // verus!
