//! A pane's session bookkeeping — which shell it runs, whether the user has
//! typed since the last poll, what a poll found — plus the rules for where
//! a pane's working directory is taken from and which OSC 8 hyperlink
//! covers a cell.

use vstd::prelude::*;

use crate::activity::{next_activity, next_activity_spec, Activity, Signals};
use crate::layout::PaneId;
use crate::text::{ascii_lower, chars_of, lower_seq, to_ascii_lower};

verus! {

/// What one poll of a pane found.
///
/// `changed` drives repainting; `output` and `bell` feed the pane's
/// activity marker. A pane whose shell merely exited has `changed` set but
/// did nothing worth flagging for attention.
pub struct PumpOutcome {
    /// Whether anything changed such that a redraw is warranted.
    pub changed: bool,
    /// Whether new output actually arrived from the shell.
    pub output: bool,
    /// Whether the program rang the terminal bell.
    pub bell: bool,
    /// A retro era the program asked for with the terminal's own escape
    /// sequence. Session-only; never saved.
    pub requested_era: Option<String>,
}

/// What one poll of the whole window found: whether the screen needs
/// repainting, and whether any panes are still open.
#[derive(Debug, Clone, Copy, PartialEq, Eq, Structural)]
pub struct PollOutcome {
    pub needs_redraw: bool,
    pub panes_remain: bool,
}

/// What the overlay wants done about a window event: whether it consumed
/// it, and whether it needs a frame to catch up with it.
#[derive(Debug, Clone, Copy, PartialEq, Eq, Structural)]
pub struct UiEventResponse {
    pub consumed: bool,
    pub repaint: bool,
}

/// How much text one selection gesture covers.
#[derive(Debug, Clone, Copy, PartialEq, Eq, Structural)]
pub enum SelectionKind {
    Character,
    Word,
    Line,
}

/// A pane's session state, as values.
pub struct PaneSessionView {
    pub shell: Option<Seq<char>>,
    pub received_input: bool,
    pub exit_logged: bool,
    pub activity: Activity,
}

/// The bookkeeping of one running pane.
pub struct PaneSession {
    /// The shell this pane was spawned with: `None` means "whatever the
    /// configured default was", so a restored pane keeps following the
    /// current default; `Some` an explicit override.
    shell: Option<String>,
    /// Set when input is written to the pane, cleared by the next
    /// `take_received_input`. Input arrives on the keyboard path rather
    /// than during a poll, so it has to be recorded until the poll gets
    /// to it.
    received_input: bool,
    /// Whether the shell's exit has been noticed already.
    exit_logged: bool,
    /// The title-bar activity dot.
    activity: Activity,
}

impl View for PaneSession {
    type V = PaneSessionView;

    closed spec fn view(&self) -> PaneSessionView {
        PaneSessionView {
            shell: match self.shell {
                Some(s) => Some(s@),
                None => None,
            },
            received_input: self.received_input,
            exit_logged: self.exit_logged,
            activity: self.activity,
        }
    }
}

impl PaneSession {
    /// The state of a freshly spawned pane running `shell` (or the default
    /// when `None`).
    pub fn new(shell: Option<&str>) -> (r: Self)
        ensures
            r@.shell == match shell {
                Some(s) => Some(s@),
                None => None,
            },
            !r@.received_input,
            !r@.exit_logged,
            r@.activity == Activity::Idle,
    {
        let shell = match shell {
            Some(s) => Some(s.to_owned()),
            None => None,
        };
        PaneSession { shell, received_input: false, exit_logged: false, activity: Activity::Idle }
    }

    /// The shell this pane was spawned with, for session save.
    pub fn shell(&self) -> (r: Option<&str>)
        ensures
            match r {
                Some(s) => self@.shell == Some(s@),
                None => self@.shell is None,
            },
    {
        match &self.shell {
            Some(s) => Some(s.as_str()),
            None => None,
        }
    }

    /// Notes that input was written to the pane.
    pub fn record_input(&mut self)
        ensures
            final(self)@ == (PaneSessionView { received_input: true, ..old(self)@ }),
    {
        self.received_input = true;
    }

    /// Whether the user sent input to this pane since the last call,
    /// clearing the flag.
    pub fn take_received_input(&mut self) -> (r: bool)
        ensures
            r == old(self)@.received_input,
            final(self)@ == (PaneSessionView { received_input: false, ..old(self)@ }),
    {
        let r = self.received_input;
        self.received_input = false;
        r
    }

    /// The pane's activity dot.
    pub fn activity(&self) -> (r: Activity)
        ensures
            r == self@.activity,
    {
        self.activity
    }

    /// Advances the pane's activity dot by one poll: see
    /// [`next_activity_spec`].
    pub fn update_activity(&mut self, focused: bool, signals: Signals)
        ensures
            final(self)@ == (PaneSessionView {
                activity: next_activity_spec(old(self)@.activity, focused, signals),
                ..old(self)@
            }),
    {
        self.activity = next_activity(self.activity, focused, signals);
    }

    /// What a poll reports, given what it saw: whether output arrived, the
    /// era a program asked for, whether the bell rang, and whether the
    /// shell has exited. A bell repaints (the title-bar marker is the only
    /// thing that shows it), and so does noticing an exit — once.
    pub fn pump_outcome(
        &mut self,
        output: bool,
        requested_era: Option<String>,
        bell: bool,
        exited: bool,
    ) -> (r: PumpOutcome)
        ensures
            r.output == output,
            r.bell == bell,
            r.requested_era == requested_era,
            r.changed == (output || bell || (exited && !old(self)@.exit_logged)),
            final(self)@ == (PaneSessionView {
                exit_logged: old(self)@.exit_logged || exited,
                ..old(self)@
            }),
    {
        let mut changed = output || bell;
        if !self.exit_logged && exited {
            self.exit_logged = true;
            changed = true;
        }
        PumpOutcome { changed, output, bell, requested_era }
    }

    /// This pane's working directory for session save: see [`resolve`].
    pub fn cwd(&self, osc7: Option<&str>, os_level: Option<String>, home: Option<String>) -> (r: String)
        ensures
            r@ == resolve_spec(opt_str_view(osc7), opt_string_view(os_level), opt_string_view(home)),
    {
        resolve(osc7, os_level, home)
    }
}

/// What one poll saw of one pane: its id, what pumping it reported,
/// whether its shell has exited, and its activity dot before and after the
/// poll advanced it.
pub struct PanePoll {
    pub pane: PaneId,
    pub pumped: PumpOutcome,
    pub exited: bool,
    pub before: Activity,
    pub after: Activity,
}

/// What a poll of the whole window decides from its panes: whether to
/// repaint, which panes to close (in order), and which era to switch to.
pub struct PollStep {
    pub needs_redraw: bool,
    pub exited: Vec<PaneId>,
    pub requested_era: Option<String>,
}

/// The panes whose shells exited, in the order the poll saw them.
pub open spec fn exited_panes(polls: Seq<PanePoll>) -> Seq<PaneId>
    decreases polls.len(),
{
    if polls.len() == 0 {
        seq![]
    } else if polls.last().exited {
        exited_panes(polls.drop_last()).push(polls.last().pane)
    } else {
        exited_panes(polls.drop_last())
    }
}

/// The era asked for last in the poll, whichever pane asked.
pub open spec fn last_requested_era(polls: Seq<PanePoll>) -> Option<Seq<char>>
    decreases polls.len(),
{
    if polls.len() == 0 {
        None
    } else {
        match polls.last().pumped.requested_era {
            Some(e) => Some(e@),
            None => last_requested_era(polls.drop_last()),
        }
    }
}

/// Pane `i` of the poll gives a reason to repaint: it changed, its dot
/// changed, its shell exited (the pane closes), or it asked for an era
/// (which is then applied).
pub open spec fn pane_wants_redraw(p: PanePoll) -> bool {
    p.pumped.changed || p.before != p.after || p.exited || p.pumped.requested_era is Some
}

/// Decides a window poll from what it saw of each pane and whether the
/// settings changed: repaint when the settings changed or any pane gives a
/// reason to; close the panes whose shells exited, in order; and apply the
/// era asked for last. Other reasons to repaint (an animation frame, a
/// changed title) are the caller's.
pub fn poll_step(polls: &Vec<PanePoll>, settings_changed: bool) -> (r: PollStep)
    ensures
        r.needs_redraw == (settings_changed || exists|i: int|
            0 <= i < polls@.len() && pane_wants_redraw(#[trigger] polls@[i])),
        r.exited@ == exited_panes(polls@),
        opt_string_view(r.requested_era) == last_requested_era(polls@),
{
    let mut needs_redraw = settings_changed;
    let mut exited: Vec<PaneId> = Vec::new();
    let mut requested_era: Option<String> = None;
    let mut i: usize = 0;
    while i < polls.len()
        invariant
            i <= polls@.len(),
            needs_redraw == (settings_changed || exists|j: int|
                0 <= j < i && pane_wants_redraw(#[trigger] polls@[j])),
            exited@ == exited_panes(polls@.subrange(0, i as int)),
            opt_string_view(requested_era) == last_requested_era(polls@.subrange(0, i as int)),
        decreases polls@.len() - i,
    {
        let p = &polls[i];
        let ghost prefix = polls@.subrange(0, i + 1);
        proof {
            assert(prefix.drop_last() =~= polls@.subrange(0, i as int));
            assert(prefix.last() == polls@[i as int]);
        }
        if p.pumped.changed || p.before != p.after || p.exited || p.pumped.requested_era.is_some() {
            needs_redraw = true;
        } else {
            assert forall|j: int| 0 <= j < i + 1 && pane_wants_redraw(#[trigger] polls@[j]) implies j < i by {}
        }
        if p.exited {
            exited.push(p.pane);
        }
        match &p.pumped.requested_era {
            Some(era) => {
                requested_era = Some(era.clone());
            },
            None => {},
        }
        i = i + 1;
    }
    assert(polls@.subrange(0, polls@.len() as int) =~= polls@);
    PollStep { needs_redraw, exited, requested_era }
}

/// An optional `&str` by its characters.
pub open spec fn opt_str_view(s: Option<&str>) -> Option<Seq<char>> {
    match s {
        Some(s) => Some(s@),
        None => None,
    }
}

/// An optional `String` by its characters.
pub open spec fn opt_string_view(s: Option<String>) -> Option<Seq<char>> {
    match s {
        Some(s) => Some(s@),
        None => None,
    }
}

/// The best available working directory: the shell's own OSC 7 report
/// wins outright; otherwise the OS-level lookup; otherwise the home
/// directory; and `.` if even that is unknown.
pub open spec fn resolve_spec(
    osc7: Option<Seq<char>>,
    os_level: Option<Seq<char>>,
    home: Option<Seq<char>>,
) -> Seq<char> {
    match (osc7, os_level, home) {
        (Some(p), _, _) => p,
        (None, Some(p), _) => p,
        (None, None, Some(p)) => p,
        (None, None, None) => "."@,
    }
}

/// Picks the best available cwd from what's known — see [`resolve_spec`].
pub fn resolve(osc7: Option<&str>, os_level: Option<String>, home: Option<String>) -> (r: String)
    ensures
        r@ == resolve_spec(opt_str_view(osc7), opt_string_view(os_level), opt_string_view(home)),
{
    match osc7 {
        Some(p) => p.to_owned(),
        None => match os_level {
            Some(p) => p,
            None => match home {
                Some(p) => p,
                None => ".".to_owned(),
            },
        },
    }
}

/// An OSC 8 hyperlink found under a grid cell: its target, and the
/// half-open range of columns on that row which are part of the same link.
pub struct HyperlinkMatch {
    pub uri: String,
    pub start: usize,
    pub end: usize,
}

/// Whether `[start, end)` is the maximal run of cells around `col` that
/// carry the same link as `col` does.
pub open spec fn is_link_span(links: Seq<Option<u64>>, col: int, start: int, end: int) -> bool {
    &&& 0 <= start <= col < end <= links.len()
    &&& links[col] is Some
    &&& forall|k: int| start <= k < end ==> #[trigger] links[k] == links[col]
    &&& start == 0 || links[start - 1] != links[col]
    &&& end == links.len() || links[end] != links[col]
}

/// The span of the hyperlink on the cell at `col` of a row whose cells
/// carry the links in `links` (equal numbers for equal links, `None` where
/// a cell has none): `None` if `col` is off the row or its cell has no
/// link. The span stops at the row's edges.
pub fn hyperlink_span(links: &[Option<u64>], col: usize) -> (r: Option<(usize, usize)>)
    ensures
        match r {
            None => col >= links@.len() || links@[col as int] is None,
            Some((start, end)) => is_link_span(links@, col as int, start as int, end as int),
        },
{
    if col >= links.len() {
        return None;
    }
    let target = match links[col] {
        Some(id) => id,
        None => return None,
    };
    let mut start = col;
    while start > 0 && links[start - 1] == Some(target)
        invariant
            start <= col < links@.len(),
            links@[col as int] == Some(target),
            forall|k: int| start <= k <= col ==> #[trigger] links@[k] == Some(target),
        decreases start,
    {
        start = start - 1;
    }
    let mut end = col + 1;
    while end < links.len() && links[end] == Some(target)
        invariant
            col < end <= links@.len(),
            links@[col as int] == Some(target),
            forall|k: int| col <= k < end ==> #[trigger] links@[k] == Some(target),
        decreases links@.len() - end,
    {
        end = end + 1;
    }
    Some((start, end))
}

/// One of the terminal emulator's events that a pane's screen acts on,
/// carried over a single channel so their relative order can't be lost.
pub enum ScreenEvent {
    /// Bytes the emulator needs written back to the pty's input, such as a
    /// cursor-position report.
    PtyWrite(Vec<u8>),
    /// The program rang the terminal bell.
    Bell,
}

/// Every byte the write events in `events` carry, in order.
pub open spec fn written_bytes(events: Seq<ScreenEvent>) -> Seq<u8>
    decreases events.len(),
{
    if events.len() == 0 {
        seq![]
    } else {
        written_bytes(events.drop_last()) + match events.last() {
            ScreenEvent::PtyWrite(bytes) => bytes@,
            ScreenEvent::Bell => seq![],
        }
    }
}

/// Whether any event in `events` is a bell.
pub open spec fn bell_in(events: Seq<ScreenEvent>) -> bool {
    exists|i: int| 0 <= i < events.len() && #[trigger] events[i] is Bell
}

/// The events drained out of the emulator's channel, held per kind until
/// the accessor for that kind takes them. Both accessors drain first, so
/// neither can consume an event meant for the other.
pub struct ScreenEvents {
    pending_writes: Vec<u8>,
    bell_rang: bool,
}

impl View for ScreenEvents {
    type V = (Seq<u8>, bool);

    closed spec fn view(&self) -> (Seq<u8>, bool) {
        (self.pending_writes@, self.bell_rang)
    }
}

impl ScreenEvents {
    /// Nothing pending.
    pub fn new() -> (r: Self)
        ensures
            r@ == (Seq::<u8>::empty(), false),
    {
        ScreenEvents { pending_writes: Vec::new(), bell_rang: false }
    }

    /// Moves what the channel delivered into the per-kind state.
    fn drain(&mut self, events: Vec<ScreenEvent>)
        ensures
            final(self)@ == (old(self)@.0 + written_bytes(events@), old(self)@.1 || bell_in(events@)),
    {
        let ghost start = self@;
        let mut i: usize = 0;
        while i < events.len()
            invariant
                i <= events@.len(),
                self@ == (start.0 + written_bytes(events@.subrange(0, i as int)), start.1 || bell_in(
                    events@.subrange(0, i as int),
                )),
            decreases events@.len() - i,
        {
            let ghost before = self@;
            let ghost prefix = events@.subrange(0, i as int);
            let ghost next = events@.subrange(0, i + 1);
            assert(next.drop_last() =~= prefix);
            match &events[i] {
                ScreenEvent::PtyWrite(bytes) => {
                    let mut k: usize = 0;
                    while k < bytes.len()
                        invariant
                            k <= bytes@.len(),
                            self@.1 == before.1,
                            self@.0 == before.0 + bytes@.subrange(0, k as int),
                        decreases bytes@.len() - k,
                    {
                        self.pending_writes.push(bytes[k]);
                        assert(bytes@.subrange(0, k + 1) =~= bytes@.subrange(0, k as int).push(bytes@[k as int]));
                        k = k + 1;
                    }
                    assert(bytes@.subrange(0, bytes@.len() as int) =~= bytes@);
                    assert(bell_in(next) == bell_in(prefix)) by {
                        if bell_in(next) {
                            let w = choose|w: int| 0 <= w < next.len() && #[trigger] next[w] is Bell;
                            assert(w < i);
                            assert(prefix[w] is Bell);
                        }
                        if bell_in(prefix) {
                            let w = choose|w: int| 0 <= w < prefix.len() && #[trigger] prefix[w] is Bell;
                            assert(next[w] is Bell);
                        }
                    }
                },
                ScreenEvent::Bell => {
                    self.bell_rang = true;
                    assert(next[i as int] is Bell);
                },
            }
            assert(self@.0 =~= start.0 + written_bytes(next));
            i = i + 1;
        }
        assert(events@.subrange(0, events@.len() as int) =~= events@);
    }

    /// The bytes the emulator needs written back to the pty since the last
    /// call, including those in the events that have just `arrived`;
    /// a pending bell is left for [`ScreenEvents::take_bell`].
    pub fn take_pty_writes(&mut self, arrived: Vec<ScreenEvent>) -> (r: Vec<u8>)
        ensures
            r@ == old(self)@.0 + written_bytes(arrived@),
            final(self)@ == (Seq::<u8>::empty(), old(self)@.1 || bell_in(arrived@)),
    {
        self.drain(arrived);
        let mut taken: Vec<u8> = Vec::new();
        std::mem::swap(&mut taken, &mut self.pending_writes);
        taken
    }

    /// Whether the bell rang since the last call, counting the events that
    /// have just `arrived`, clearing the flag. Several bells between calls
    /// are one. Pending pty writes are left for
    /// [`ScreenEvents::take_pty_writes`].
    pub fn take_bell(&mut self, arrived: Vec<ScreenEvent>) -> (r: bool)
        ensures
            r == (old(self)@.1 || bell_in(arrived@)),
            final(self)@ == (old(self)@.0 + written_bytes(arrived@), false),
    {
        self.drain(arrived);
        let rang = self.bell_rang;
        self.bell_rang = false;
        rang
    }
}

/// `uri` begins with `scheme`, in any ASCII case, followed by `:`.
pub open spec fn has_scheme(uri: Seq<char>, scheme: Seq<char>) -> bool {
    &&& uri.len() > scheme.len()
    &&& lower_seq(uri.take(scheme.len() as int)) == lower_seq(scheme)
    &&& uri[scheme.len() as int] == ':'
}

/// A link may be opened only with one of these schemes: a terminal prints
/// paths and arbitrary output all the time, and handing any of it to the
/// system's default handler on a click is a wider door than this opens.
pub open spec fn allowed_link(uri: Seq<char>) -> bool {
    has_scheme(uri, "http"@) || has_scheme(uri, "https"@) || has_scheme(uri, "ftp"@) || has_scheme(
        uri,
        "ssh"@,
    ) || has_scheme(uri, "mailto"@)
}

fn starts_with_scheme(uri: &[char], scheme: &str) -> (r: bool)
    ensures
        r == has_scheme(uri@, scheme@),
{
    let s = chars_of(scheme);
    if uri.len() <= s.len() {
        return false;
    }
    let mut i: usize = 0;
    while i < s.len()
        invariant
            s@ == scheme@,
            s@.len() < uri@.len(),
            i <= s@.len(),
            forall|k: int| 0 <= k < i ==> ascii_lower(#[trigger] uri@[k]) == ascii_lower(s@[k]),
        decreases s@.len() - i,
    {
        if to_ascii_lower(uri[i]) != to_ascii_lower(s[i]) {
            assert(lower_seq(uri@.take(s@.len() as int))[i as int] != lower_seq(s@)[i as int]);
            return false;
        }
        i = i + 1;
    }
    assert(lower_seq(uri@.take(s@.len() as int)) =~= lower_seq(s@));
    uri[s.len()] == ':'
}

/// Whether a link may be opened: its scheme, in any ASCII case, is `http`,
/// `https`, `ftp`, `ssh` or `mailto`, whether a program declared the link or
/// it was found in the text.
pub fn is_allowed_scheme(uri: &str) -> (r: bool)
    ensures
        r == allowed_link(uri@),
{
    let u = chars_of(uri);
    let u = u.as_slice();
    starts_with_scheme(u, "http") || starts_with_scheme(u, "https") || starts_with_scheme(u, "ftp")
        || starts_with_scheme(u, "ssh") || starts_with_scheme(u, "mailto")
}

/// A poll repaints for each kind of pane news: a change, a dot that
/// changed, a shell that exited, or an era asked for; a pane with none of
/// these asks for nothing.
pub proof fn lemma_reasons_to_repaint(p: PanePoll)
    ensures
        p.pumped.changed ==> pane_wants_redraw(p),
        p.before != p.after ==> pane_wants_redraw(p),
        p.exited ==> pane_wants_redraw(p),
        p.pumped.requested_era is Some ==> pane_wants_redraw(p),
        !p.pumped.changed && p.before == p.after && !p.exited && p.pumped.requested_era is None ==> !pane_wants_redraw(p),
{
}

/// The panes a poll closes are the exited ones, each once, in the order
/// the poll saw them.
pub proof fn lemma_exited_panes_in_order(polls: Seq<PanePoll>)
    ensures
        exited_panes(polls).len() <= polls.len(),
        forall|k: int| 0 <= k < polls.len() && (#[trigger] polls[k]).exited ==> exited_panes(polls).contains(polls[k].pane),
        forall|j: int|
            #![trigger exited_panes(polls)[j]]
            0 <= j < exited_panes(polls).len() ==> exists|k: int|
                0 <= k < polls.len() && (#[trigger] polls[k]).exited && polls[k].pane == exited_panes(polls)[j],
        (forall|k: int| 0 <= k < polls.len() ==> !(#[trigger] polls[k]).exited) ==> exited_panes(polls).len() == 0,
        (forall|k: int| 0 <= k < polls.len() ==> (#[trigger] polls[k]).exited) ==> exited_panes(polls) == polls.map_values(
            |p: PanePoll| p.pane,
        ),
    decreases polls.len(),
{
    if polls.len() > 0 {
        let prev = polls.drop_last();
        lemma_exited_panes_in_order(prev);
        let e = exited_panes(polls);
        let ep = exited_panes(prev);
        assert forall|k: int| 0 <= k < polls.len() && (#[trigger] polls[k]).exited implies e.contains(polls[k].pane) by {
            if k < prev.len() {
                assert(prev[k] == polls[k]);
                assert(ep.contains(prev[k].pane));
                let j = choose|j: int| 0 <= j < ep.len() && ep[j] == prev[k].pane;
                assert(e[j] == ep[j]);
            } else {
                assert(e[e.len() - 1] == polls[k].pane);
            }
        }
        assert forall|j: int|
            #![trigger e[j]]
            0 <= j < e.len() implies exists|k: int|
                0 <= k < polls.len() && (#[trigger] polls[k]).exited && polls[k].pane == e[j] by {
            if j < ep.len() {
                assert(e[j] == ep[j]);
                let k = choose|k: int| 0 <= k < prev.len() && (#[trigger] prev[k]).exited && prev[k].pane == ep[j];
                assert(polls[k] == prev[k]);
            } else {
                assert(polls[polls.len() - 1].exited);
            }
        }
        if forall|k: int| 0 <= k < polls.len() ==> !(#[trigger] polls[k]).exited {
            assert forall|k: int| 0 <= k < prev.len() implies !(#[trigger] prev[k]).exited by {
                assert(prev[k] == polls[k]);
            }
            assert(!polls[polls.len() - 1].exited);
        }
        if forall|k: int| 0 <= k < polls.len() ==> (#[trigger] polls[k]).exited {
            assert forall|k: int| 0 <= k < prev.len() implies (#[trigger] prev[k]).exited by {
                assert(prev[k] == polls[k]);
            }
            assert(polls[polls.len() - 1].exited);
            assert(polls.map_values(|p: PanePoll| p.pane) =~= prev.map_values(|p: PanePoll| p.pane).push(
                polls.last().pane,
            ));
        }
    } else {
        assert(polls.map_values(|p: PanePoll| p.pane) =~= Seq::<PaneId>::empty());
    }
}

/// The era a poll applies is the one asked for last: the request of the
/// last pane that made one, or none when no pane did.
pub proof fn lemma_last_era_request_wins(polls: Seq<PanePoll>, i: int)
    requires
        0 <= i < polls.len(),
        polls[i].pumped.requested_era is Some,
        forall|k: int| i < k < polls.len() ==> (#[trigger] polls[k]).pumped.requested_era is None,
    ensures
        last_requested_era(polls) == Some(polls[i].pumped.requested_era->0@),
    decreases polls.len(),
{
    if i < polls.len() - 1 {
        let prev = polls.drop_last();
        assert forall|k: int| i < k < prev.len() implies (#[trigger] prev[k]).pumped.requested_era is None by {
            assert(prev[k] == polls[k]);
        }
        lemma_last_era_request_wins(prev, i);
        assert(polls.last().pumped.requested_era is None);
    }
}

/// A poll in which no pane asked for an era applies none.
pub proof fn lemma_no_era_request(polls: Seq<PanePoll>)
    requires
        forall|k: int| 0 <= k < polls.len() ==> (#[trigger] polls[k]).pumped.requested_era is None,
    ensures
        last_requested_era(polls) is None,
    decreases polls.len(),
{
    if polls.len() > 0 {
        let prev = polls.drop_last();
        assert forall|k: int| 0 <= k < prev.len() implies (#[trigger] prev[k]).pumped.requested_era is None by {
            assert(prev[k] == polls[k]);
        }
        lemma_no_era_request(prev);
        assert(polls.last().pumped.requested_era is None);
    }
}

/// Where no better source is known, the working directory is `.`.
pub proof fn lemma_cwd_falls_back_to_current_directory()
    ensures
        resolve_spec(None, None, None) == seq!['.'],
{
    reveal_strlit(".");
}

/// The working directory comes from the shell's own report when there is
/// one, else from the operating system, else the home directory, else `.`.
pub proof fn lemma_cwd_sources(osc7: Option<Seq<char>>, os_level: Option<Seq<char>>, home: Option<Seq<char>>)
    ensures
        osc7 matches Some(p) ==> resolve_spec(osc7, os_level, home) == p,
        osc7 is None && os_level is Some ==> resolve_spec(osc7, os_level, home) == os_level->0,
        osc7 is None && os_level is None && home is Some ==> resolve_spec(osc7, os_level, home) == home->0,
        osc7 is None && os_level is None && home is None ==> resolve_spec(osc7, os_level, home) == seq!['.'],
{
    reveal_strlit(".");
}

/// The bytes owed back to the pty are those of the write events, in the
/// order they arrived: a write contributes its own bytes, a bell none, and
/// events arriving in two batches owe what each batch owes, one after the
/// other.
pub proof fn lemma_written_bytes_in_order(a: Seq<ScreenEvent>, b: Seq<ScreenEvent>, bytes: Vec<u8>)
    ensures
        written_bytes(seq![ScreenEvent::PtyWrite(bytes)]) == bytes@,
        written_bytes(seq![ScreenEvent::Bell]) == Seq::<u8>::empty(),
        written_bytes(a + b) == written_bytes(a) + written_bytes(b),
    decreases b.len(),
{
    let w = seq![ScreenEvent::PtyWrite(bytes)];
    let r = seq![ScreenEvent::Bell];
    assert(w.drop_last() =~= Seq::<ScreenEvent>::empty());
    assert(r.drop_last() =~= Seq::<ScreenEvent>::empty());
    assert(w.last() == ScreenEvent::PtyWrite(bytes));
    assert(r.last() == ScreenEvent::Bell);
    assert(written_bytes(Seq::<ScreenEvent>::empty()) == Seq::<u8>::empty());
    assert(written_bytes(w) == written_bytes(w.drop_last()) + bytes@);
    assert(written_bytes(r) == written_bytes(r.drop_last()) + Seq::<u8>::empty());
    assert(Seq::<u8>::empty() + bytes@ =~= bytes@);
    assert(Seq::<u8>::empty() + Seq::<u8>::empty() =~= Seq::<u8>::empty());
    if b.len() == 0 {
        assert(a + b =~= a);
        assert(written_bytes(a) + written_bytes(b) =~= written_bytes(a));
    } else {
        lemma_written_bytes_in_order(a, b.drop_last(), bytes);
        assert((a + b).drop_last() =~= a + b.drop_last());
        assert((a + b).last() == b.last());
        assert(written_bytes(a + b) =~= written_bytes(a) + written_bytes(b));
    }
}

/// A bell rang in a batch of events exactly when one of them is a bell.
pub proof fn lemma_bell_in_batch(a: Seq<ScreenEvent>, b: Seq<ScreenEvent>)
    ensures
        bell_in(seq![ScreenEvent::Bell]),
        bell_in(a + b) == (bell_in(a) || bell_in(b)),
        !bell_in(Seq::<ScreenEvent>::empty()),
{
    assert(seq![ScreenEvent::Bell][0] is Bell);
    if bell_in(a + b) {
        let w = choose|w: int| 0 <= w < (a + b).len() && #[trigger] (a + b)[w] is Bell;
        if w < a.len() {
            assert(a[w] is Bell);
        } else {
            assert(b[w - a.len()] is Bell);
        }
    }
    if bell_in(a) {
        let w = choose|w: int| 0 <= w < a.len() && #[trigger] a[w] is Bell;
        assert((a + b)[w] is Bell);
    }
    if bell_in(b) {
        let w = choose|w: int| 0 <= w < b.len() && #[trigger] b[w] is Bell;
        assert((a + b)[a.len() + w] is Bell);
    }
}

} // verus!
