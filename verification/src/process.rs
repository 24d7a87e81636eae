//! Which program is in the foreground of a pane, for its title bar: the
//! pty's foreground process group where the platform reports one, else a
//! walk down the process tree from the pane's shell, taking the most
//! recently started live child at each level.

use vstd::prelude::*;

use vstd::set_lib::{lemma_int_range, lemma_len_subset, set_int_range};

use crate::text::{chars_of, eq_ignore_ascii_case, eq_ignore_ascii_case_spec};

verus! {

/// Whether `name` is one of the Windows console-host helpers a shell
/// spawns that are never "what's running" from a user's point of view:
/// `conhost.exe` and `wslhost.exe`, in any ASCII case.
pub open spec fn is_console_host_name(name: Seq<char>) -> bool {
    eq_ignore_ascii_case_spec(name, "conhost.exe"@) || eq_ignore_ascii_case_spec(name, "wslhost.exe"@)
}

/// Whether `name` is a console-host helper process, ignoring ASCII case.
pub fn is_console_host_implementation_detail(name: &str) -> (r: bool)
    ensures
        r == is_console_host_name(name@),
{
    let chars = chars_of(name);
    let conhost = chars_of("conhost.exe");
    let wslhost = chars_of("wslhost.exe");
    eq_ignore_ascii_case(chars.as_slice(), conhost.as_slice()) || eq_ignore_ascii_case(
        chars.as_slice(),
        wslhost.as_slice(),
    )
}

/// One process in a snapshot of the process table.
pub struct ProcessEntry {
    pub pid: u32,
    pub parent: Option<u32>,
    /// When the process started, in the platform's own units.
    pub start_time: u64,
    pub name: String,
}

/// No pid appears twice.
pub open spec fn unique_pids(ps: Seq<ProcessEntry>) -> bool {
    forall|i: int, j: int| 0 <= i < j < ps.len() ==> (#[trigger] ps[i]).pid != (#[trigger] ps[j]).pid
}

/// Every process ranks strictly below its parent, so walking from parent
/// to child ends.
pub open spec fn ranked(ps: Seq<ProcessEntry>, rank: spec_fn(u32) -> nat) -> bool {
    forall|i: int|
        0 <= i < ps.len() && (#[trigger] ps[i]).parent is Some ==> rank(ps[i].pid) < rank(ps[i].parent->0)
}

/// The parent links form no cycle.
pub open spec fn acyclic(ps: Seq<ProcessEntry>) -> bool {
    exists|rank: spec_fn(u32) -> nat| ranked(ps, rank)
}

/// Process `i` is a child of `current` that the walk may step to.
pub open spec fn walk_child(ps: Seq<ProcessEntry>, current: u32, i: int) -> bool {
    &&& 0 <= i < ps.len()
    &&& ps[i].parent == Some(current)
    &&& !is_console_host_name(ps[i].name@)
}

/// Process `i` is a most recently started walk child of `current`.
pub open spec fn youngest_child(ps: Seq<ProcessEntry>, current: u32, i: int) -> bool {
    &&& walk_child(ps, current, i)
    &&& forall|j: int| #[trigger] walk_child(ps, current, j) ==> ps[j].start_time <= ps[i].start_time
}

/// `next` is the pid of a most recently started walk child of `current`.
pub open spec fn steps_to(ps: Seq<ProcessEntry>, current: u32, next: u32) -> bool {
    exists|i: int| #[trigger] youngest_child(ps, current, i) && ps[i].pid == next
}

/// `path` is a walk down the tree: each pid a youngest child of the last.
pub open spec fn is_walk(ps: Seq<ProcessEntry>, path: Seq<u32>) -> bool {
    &&& path.len() > 0
    &&& forall|k: int| 0 <= k < path.len() - 1 ==> steps_to(ps, #[trigger] path[k], path[k + 1])
}

/// Walking down from `from` can stop at `to`: there is a walk between them
/// and `to` has no child to step to.
pub open spec fn walk_ends_at(ps: Seq<ProcessEntry>, from: u32, to: u32) -> bool {
    &&& exists|path: Seq<u32>| #[trigger] is_walk(ps, path) && path[0] == from && path.last() == to
    &&& forall|i: int| !(#[trigger] walk_child(ps, to, i))
}

/// The name of the process with `pid`, if the snapshot has it.
pub open spec fn name_of(ps: Seq<ProcessEntry>, pid: u32) -> Option<Seq<char>> {
    if exists|i: int| 0 <= i < ps.len() && (#[trigger] ps[i]).pid == pid {
        Some(ps[choose|i: int| 0 <= i < ps.len() && (#[trigger] ps[i]).pid == pid].name@)
    } else {
        None
    }
}

/// The position of the process with `pid` in the snapshot, if it has one.
pub open spec fn pid_index(ps: Seq<ProcessEntry>, pid: u32) -> Option<int> {
    if exists|i: int| 0 <= i < ps.len() && (#[trigger] ps[i]).pid == pid {
        Some(choose|i: int| 0 <= i < ps.len() && (#[trigger] ps[i]).pid == pid)
    } else {
        None
    }
}

/// In a snapshot without repeated pids, a process is found at its own
/// position.
proof fn lemma_pid_index_of_entry(ps: Seq<ProcessEntry>, i: int)
    requires
        unique_pids(ps),
        0 <= i < ps.len(),
    ensures
        pid_index(ps, ps[i].pid) == Some(i),
{
    let pid = ps[i].pid;
    assert(ps[i].pid == pid);
    let c = choose|c: int| 0 <= c < ps.len() && (#[trigger] ps[c]).pid == pid;
    if c < i {
        assert(ps[c].pid != ps[i].pid);
    } else if i < c {
        assert(ps[i].pid != ps[c].pid);
    }
}

/// An optional name by its characters.
pub open spec fn name_view(name: Option<String>) -> Option<Seq<char>> {
    match name {
        Some(n) => Some(n@),
        None => None,
    }
}

/// Some walk down from `shell` stops at a process whose name (or absence
/// from the snapshot) is `name`.
pub open spec fn walk_names(ps: Seq<ProcessEntry>, shell: u32, name: Option<Seq<char>>) -> bool {
    exists|last: u32| #[trigger] walk_ends_at(ps, shell, last) && name_of(ps, last) == name
}

/// The name of the foreground process group's leader, when there is a
/// group and the snapshot has it.
pub open spec fn group_name(ps: Seq<ProcessEntry>, pgid: Option<u32>) -> Option<Seq<char>> {
    match pgid {
        Some(g) => name_of(ps, g),
        None => None,
    }
}

fn find_pid(ps: &Vec<ProcessEntry>, pid: u32) -> (r: Option<usize>)
    requires
        unique_pids(ps@),
    ensures
        match r {
            Some(i) => i < ps@.len() && ps@[i as int].pid == pid && pid_index(ps@, pid) == Some(i as int)
                && name_of(ps@, pid) == Some(ps@[i as int].name@),
            None => pid_index(ps@, pid) is None && name_of(ps@, pid) is None,
        },
{
    let mut i: usize = 0;
    while i < ps.len()
        invariant
            unique_pids(ps@),
            i <= ps@.len(),
            forall|k: int| 0 <= k < i ==> (#[trigger] ps@[k]).pid != pid,
        decreases ps@.len() - i,
    {
        if ps[i].pid == pid {
            proof {
                let c = choose|c: int| 0 <= c < ps@.len() && (#[trigger] ps@[c]).pid == pid;
                if c != i {
                    if c < i {
                        assert(ps@[c].pid != ps@[i as int].pid);
                    } else {
                        assert(ps@[i as int].pid != ps@[c].pid);
                    }
                }
            }
            return Some(i);
        }
        i = i + 1;
    }
    None
}

/// `slot` records where process `k`'s parent stands in the snapshot: `None`
/// for a process without a parent or whose parent the snapshot lacks.
pub open spec fn parent_slot(ps: Seq<ProcessEntry>, k: int, slot: Option<usize>) -> bool {
    match ps[k].parent {
        None => slot is None,
        Some(p) => match slot {
            Some(j) => pid_index(ps, p) == Some(j as int),
            None => pid_index(ps, p) is None,
        },
    }
}

/// Process `k`'s parent is accounted for: it has none, the snapshot lacks
/// it, or it is already marked (has a non-zero stamp).
pub open spec fn parent_settled(slots: Seq<Option<usize>>, stamp: Seq<usize>, k: int) -> bool {
    match slots[k] {
        Some(j) => stamp[j as int] > 0,
        None => true,
    }
}

/// A marked process was marked after its parent, when the snapshot holds
/// its parent.
pub open spec fn marked_after_parent(slots: Seq<Option<usize>>, stamp: Seq<usize>, k: int) -> bool {
    stamp[k] > 0 ==> match slots[k] {
        Some(j) => 0 < stamp[j as int] < stamp[k],
        None => true,
    }
}

/// Among the unmarked processes of the first `n`, one whose pid ranks
/// highest.
proof fn lemma_top_unmarked(
    ps: Seq<ProcessEntry>,
    rank: spec_fn(u32) -> nat,
    stamp: Seq<usize>,
    n: int,
    k0: int,
) -> (m: int)
    requires
        0 <= k0 < n,
        n <= stamp.len(),
        n <= ps.len(),
        stamp[k0] == 0,
    ensures
        0 <= m < n,
        stamp[m] == 0,
        forall|j: int| 0 <= j < n && #[trigger] stamp[j] == 0 ==> rank(ps[j].pid) <= rank(ps[m].pid),
    decreases n,
{
    let last = n - 1;
    if n == 1 {
        0
    } else if k0 == last {
        if exists|j: int| 0 <= j < last && stamp[j] == 0 {
            let j = choose|j: int| 0 <= j < last && stamp[j] == 0;
            let m2 = lemma_top_unmarked(ps, rank, stamp, last, j);
            if rank(ps[last].pid) > rank(ps[m2].pid) {
                last
            } else {
                m2
            }
        } else {
            last
        }
    } else {
        let m2 = lemma_top_unmarked(ps, rank, stamp, last, k0);
        if stamp[last] == 0 && rank(ps[last].pid) > rank(ps[m2].pid) {
            last
        } else {
            m2
        }
    }
}

/// When no unmarked process has its parent accounted for, and some process
/// is unmarked, the parent links hold a cycle.
proof fn lemma_stuck_marking_means_a_cycle(
    ps: Seq<ProcessEntry>,
    slots: Seq<Option<usize>>,
    stamp: Seq<usize>,
    k0: int,
)
    requires
        slots.len() == ps.len(),
        stamp.len() == ps.len(),
        0 <= k0 < ps.len(),
        stamp[k0] == 0,
        forall|m: int| 0 <= m < ps.len() ==> parent_slot(ps, m, #[trigger] slots[m]),
        forall|m: int| 0 <= m < ps.len() ==> (#[trigger] slots[m] matches Some(j) ==> j < ps.len()),
        forall|m: int| 0 <= m < ps.len() && #[trigger] stamp[m] == 0 ==> !parent_settled(slots, stamp, m),
    ensures
        !acyclic(ps),
{
    if acyclic(ps) {
        let rank = choose|rank: spec_fn(u32) -> nat| ranked(ps, rank);
        let m = lemma_top_unmarked(ps, rank, stamp, ps.len() as int, k0);
        assert(!parent_settled(slots, stamp, m));
        assert(parent_slot(ps, m, slots[m]));
        let j = slots[m]->0 as int;
        let p = ps[m].parent->0;
        assert(pid_index(ps, p) == Some(j));
        assert(ps[j].pid == p);
        assert(stamp[j] == 0);
        assert(rank(ps[j].pid) <= rank(ps[m].pid));
        assert(rank(ps[m].pid) < rank(p));
    }
}

/// Whether the snapshot can be walked: no pid appears twice, and following
/// parent links never comes back to where it started. When it says so,
/// `foreground_name` may be asked about the snapshot.
pub fn well_formed_snapshot(processes: &Vec<ProcessEntry>) -> (r: bool)
    ensures
        r == (unique_pids(processes@) && acyclic(processes@)),
{
    let ghost ps = processes@;
    let n = processes.len();
    let mut i: usize = 0;
    while i < n
        invariant
            ps == processes@,
            n == ps.len(),
            i <= n,
            forall|a: int, b: int| 0 <= a < b < n && a < i ==> (#[trigger] ps[a]).pid != (#[trigger] ps[b]).pid,
        decreases n - i,
    {
        let mut j: usize = i + 1;
        while j < n
            invariant
                ps == processes@,
                n == ps.len(),
                i < j <= n,
                forall|b: int| i < b < j ==> ps[i as int].pid != (#[trigger] ps[b]).pid,
            decreases n - j,
        {
            if processes[i].pid == processes[j].pid {
                return false;
            }
            j = j + 1;
        }
        i = i + 1;
    }
    assert(unique_pids(ps));
    let mut slots: Vec<Option<usize>> = Vec::new();
    let mut k: usize = 0;
    while k < n
        invariant
            ps == processes@,
            n == ps.len(),
            unique_pids(ps),
            k <= n,
            slots@.len() == k,
            forall|m: int| 0 <= m < k ==> parent_slot(ps, m, #[trigger] slots@[m]),
            forall|m: int| 0 <= m < k ==> (#[trigger] slots@[m] matches Some(j) ==> j < n),
        decreases n - k,
    {
        let slot = match processes[k].parent {
            Some(p) => find_pid(processes, p),
            None => None,
        };
        slots.push(slot);
        assert(parent_slot(ps, k as int, slots@[k as int]));
        k = k + 1;
    }
    // Mark processes in rounds, each once its parent is accounted for,
    // stamping them in the order they are marked; a round that marks
    // nothing leaves only processes whose parent links run in a cycle.
    let mut stamp: Vec<usize> = Vec::new();
    let mut k: usize = 0;
    while k < n
        invariant
            k <= n,
            stamp@.len() == k,
            forall|m: int| 0 <= m < k ==> #[trigger] stamp@[m] == 0,
        decreases n - k,
    {
        stamp.push(0);
        k = k + 1;
    }
    let mut count: usize = 0;
    let ghost mut marked: Set<int> = Set::empty();
    proof {
        assert(marked =~= Set::new(|x: int| 0 <= x < n && stamp@[x] > 0));
    }
    loop
        invariant
            ps == processes@,
            n == ps.len(),
            slots@.len() == n,
            stamp@.len() == n,
            forall|m: int| 0 <= m < n ==> parent_slot(ps, m, #[trigger] slots@[m]),
            forall|m: int| 0 <= m < n ==> (#[trigger] slots@[m] matches Some(j) ==> j < n),
            forall|m: int| 0 <= m < n ==> #[trigger] stamp@[m] <= count,
            forall|m: int| 0 <= m < n ==> #[trigger] marked_after_parent(slots@, stamp@, m),
            marked.finite(),
            marked.len() == count,
            forall|x: int| #[trigger] marked.contains(x) <==> 0 <= x < n && stamp@[x] > 0,
        ensures
            forall|m: int| 0 <= m < n && #[trigger] stamp@[m] == 0 ==> !parent_settled(slots@, stamp@, m),
            forall|m: int| 0 <= m < n ==> #[trigger] stamp@[m] <= count,
            count <= n,
        decreases n - count,
    {
        proof {
            lemma_int_range(0, n as int);
            lemma_len_subset(marked, set_int_range(0, n as int));
        }
        let before = count;
        let ghost start = stamp@;
        let mut k: usize = 0;
        while k < n
            invariant
                ps == processes@,
                n == ps.len(),
                slots@.len() == n,
                stamp@.len() == n,
                k <= n,
                before <= count <= n,
                forall|m: int| 0 <= m < n ==> parent_slot(ps, m, #[trigger] slots@[m]),
                forall|m: int| 0 <= m < n ==> (#[trigger] slots@[m] matches Some(j) ==> j < n),
                forall|m: int| 0 <= m < n ==> #[trigger] stamp@[m] <= count,
                forall|m: int| 0 <= m < n ==> #[trigger] marked_after_parent(slots@, stamp@, m),
                marked.finite(),
                marked.len() == count,
                forall|x: int| #[trigger] marked.contains(x) <==> 0 <= x < n && stamp@[x] > 0,
                count == before ==> stamp@ == start,
                count == before ==> forall|m: int|
                    0 <= m < k && #[trigger] stamp@[m] == 0 ==> !parent_settled(slots@, stamp@, m),
            decreases n - k,
        {
            if stamp[k] == 0 {
                let settled = match slots[k] {
                    Some(j) => stamp[j] > 0,
                    None => true,
                };
                if settled {
                    let ghost old_stamp = stamp@;
                    proof {
                        assert(!marked.contains(k as int));
                        marked = marked.insert(k as int);
                        lemma_int_range(0, n as int);
                        lemma_len_subset(marked, set_int_range(0, n as int));
                    }
                    stamp.set(k, count + 1);
                    count = count + 1;
                    proof {
                        assert forall|m: int| 0 <= m < n implies #[trigger] marked_after_parent(
                            slots@,
                            stamp@,
                            m,
                        ) by {
                            assert(marked_after_parent(slots@, old_stamp, m));
                            if m != k {
                                if let Some(j) = slots@[m] {
                                    if old_stamp[m] > 0 {
                                        assert(old_stamp[j as int] > 0);
                                    }
                                }
                            }
                        }
                    }
                }
            }
            k = k + 1;
        }
        if count == before {
            break;
        }
    }
    let mut k: usize = 0;
    while k < n
        invariant
            ps == processes@,
            n == ps.len(),
            slots@.len() == n,
            stamp@.len() == n,
            k <= n,
            count <= n,
            forall|m: int| 0 <= m < k ==> #[trigger] stamp@[m] > 0,
            forall|m: int| 0 <= m < n ==> parent_slot(ps, m, #[trigger] slots@[m]),
            forall|m: int| 0 <= m < n ==> (#[trigger] slots@[m] matches Some(j) ==> j < n),
            forall|m: int| 0 <= m < n ==> #[trigger] stamp@[m] <= count,
            forall|m: int| 0 <= m < n ==> #[trigger] marked_after_parent(slots@, stamp@, m),
            forall|m: int| 0 <= m < n && #[trigger] stamp@[m] == 0 ==> !parent_settled(slots@, stamp@, m),
        decreases n - k,
    {
        if stamp[k] == 0 {
            proof {
                lemma_stuck_marking_means_a_cycle(ps, slots@, stamp@, k as int);
            }
            return false;
        }
        k = k + 1;
    }
    proof {
        let st = stamp@;
        let sl = slots@;
        let top: int = n as int + 1;
        let rank = |pid: u32|
            match pid_index(ps, pid) {
                Some(m) => (top - st[m]) as nat,
                None => top as nat,
            };
        assert forall|m: int|
            0 <= m < ps.len() && (#[trigger] ps[m]).parent is Some implies rank(ps[m].pid) < rank(
            ps[m].parent->0,
        ) by {
            lemma_pid_index_of_entry(ps, m);
            assert(marked_after_parent(sl, st, m));
            assert(parent_slot(ps, m, sl[m]));
            assert(st[m] > 0);
        }
        assert(ranked(ps, rank));
    }
    true
}

fn youngest_walk_child(ps: &Vec<ProcessEntry>, current: u32) -> (r: Option<usize>)
    ensures
        match r {
            Some(i) => youngest_child(ps@, current, i as int),
            None => forall|i: int| !(#[trigger] walk_child(ps@, current, i)),
        },
{
    let mut best: Option<usize> = None;
    let mut i: usize = 0;
    while i < ps.len()
        invariant
            i <= ps@.len(),
            match best {
                Some(b) => walk_child(ps@, current, b as int) && b < i && forall|j: int|
                    0 <= j < i && #[trigger] walk_child(ps@, current, j) ==> ps@[j].start_time
                        <= ps@[b as int].start_time,
                None => forall|j: int| 0 <= j < i ==> !(#[trigger] walk_child(ps@, current, j)),
            },
        decreases ps@.len() - i,
    {
        let p = &ps[i];
        let is_child = match p.parent {
            Some(parent) => parent == current,
            None => false,
        };
        if is_child && !is_console_host_implementation_detail(p.name.as_str()) {
            let replace = match best {
                Some(b) => ps[b].start_time <= p.start_time,
                None => true,
            };
            if replace {
                best = Some(i);
            }
        }
        i = i + 1;
    }
    best
}

/// The foreground program's name for a pane, given its shell's pid and,
/// where the platform reports one, the pty's foreground process group.
///
/// The process group wins when the snapshot has it. Otherwise the walk
/// starts at the shell and steps to a most recently started child (never
/// a console-host helper) until there is none, and names where it stopped
/// — the shell itself when it is idle. `None` when nothing is known.
/// A snapshot is fit to ask about exactly when `well_formed_snapshot`
/// accepts it.
pub fn foreground_name(
    processes: &Vec<ProcessEntry>,
    shell_pid: Option<u32>,
    foreground_pgid: Option<u32>,
) -> (r: Option<String>)
    requires
        unique_pids(processes@),
        acyclic(processes@),
    ensures
        group_name(processes@, foreground_pgid) is Some ==> (r matches Some(n) && Some(n@)
            == group_name(processes@, foreground_pgid)),
        group_name(processes@, foreground_pgid) is None ==> match shell_pid {
            None => r is None,
            Some(s) => walk_names(processes@, s, name_view(r)),
        },
{
    if let Some(pgid) = foreground_pgid {
        if let Some(i) = find_pid(processes, pgid) {
            return Some(processes[i].name.clone());
        }
    }
    let shell = match shell_pid {
        Some(pid) => pid,
        None => return None,
    };
    let ghost rank = choose|rank: spec_fn(u32) -> nat| ranked(processes@, rank);
    let mut current = shell;
    let ghost mut path: Seq<u32> = seq![shell];
    loop
        invariant
            unique_pids(processes@),
            ranked(processes@, rank),
            shell_pid == Some(shell),
            group_name(processes@, foreground_pgid) is None,
            is_walk(processes@, path),
            path[0] == shell,
            path.last() == current,
        decreases rank(current),
    {
        match youngest_walk_child(processes, current) {
            Some(i) => {
                let next = processes[i].pid;
                proof {
                    assert(steps_to(processes@, current, next));
                    let old_path = path;
                    path = path.push(next);
                    assert forall|k: int| 0 <= k < path.len() - 1 implies steps_to(
                        processes@,
                        #[trigger] path[k],
                        path[k + 1],
                    ) by {
                        if k < old_path.len() - 1 {
                            assert(path[k] == old_path[k] && path[k + 1] == old_path[k + 1]);
                        }
                    }
                    assert(processes@[i as int].parent == Some(current));
                    assert(rank(processes@[i as int].pid) < rank(current));
                }
                current = next;
            },
            None => {
                let r = match find_pid(processes, current) {
                    Some(i) => Some(processes[i].name.clone()),
                    None => None,
                };
                assert(walk_ends_at(processes@, shell, current));
                assert(name_of(processes@, current) == name_view(r));
                return r;
            },
        }
    }
}

/// The helpers skipped are exactly `conhost.exe` and `wslhost.exe`, in any
/// ASCII case.
pub proof fn lemma_console_host_names(name: Seq<char>)
    ensures
        is_console_host_name(name) <==> (crate::text::lower_seq(name) == seq!['c', 'o', 'n', 'h', 'o', 's', 't', '.', 'e', 'x', 'e']
            || crate::text::lower_seq(name) == seq!['w', 's', 'l', 'h', 'o', 's', 't', '.', 'e', 'x', 'e']),
{
    reveal_strlit("conhost.exe");
    reveal_strlit("wslhost.exe");
    assert(crate::text::lower_seq("conhost.exe"@) =~= seq!['c', 'o', 'n', 'h', 'o', 's', 't', '.', 'e', 'x', 'e']);
    assert(crate::text::lower_seq("wslhost.exe"@) =~= seq!['w', 's', 'l', 'h', 'o', 's', 't', '.', 'e', 'x', 'e']);
}

} // verus!
