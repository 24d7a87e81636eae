//! Watches PTY output for this terminal's own private escape sequence, so a
//! shell, a script, or a bare `printf` can change the retro era live:
//! `ESC ] 7331 ; era=NAME` terminated by BEL or ST (`ESC \`).
//!
//! The payload is a name, not a value: it selects from a fixed set of eras,
//! and the era it sets lives in the running session only.

use vstd::prelude::*;
use vstd::utf8::{decode_utf8, valid_utf8};

use crate::text::{
    chars_eq_str, eq_ignore_ascii_case, eq_ignore_ascii_case_spec, lower_chars, string_from_chars,
    trim_chars, trim_seq,
};

verus! {

/// Above this, a started-but-never-terminated sequence is abandoned rather
/// than buffered forever.
pub const MAX_PENDING: usize = 256;

/// `ESC ] 7331 ;`, the sequence's introducer.
pub open spec fn marker() -> Seq<u8> {
    seq![0x1bu8, 0x5du8, 0x37u8, 0x33u8, 0x33u8, 0x31u8, 0x3bu8]
}

/// `std::str::from_utf8`: the text `bytes` encode, or `None` if they are
/// not valid UTF-8.
#[verifier::external_body]
fn decode_text(bytes: &[u8]) -> (r: Option<String>)
    ensures
        r is Some <==> valid_utf8(bytes@),
        r matches Some(s) ==> s@ == decode_utf8(bytes@),
{
    match std::str::from_utf8(bytes) {
        Ok(text) => Some(text.to_string()),
        Err(_) => None,
    }
}

/// The index of the first `=` in `t`, if any.
pub open spec fn first_equals(t: Seq<char>) -> Option<int> {
    if exists|i: int| 0 <= i < t.len() && t[i] == '=' {
        Some(choose|i: int| 0 <= i < t.len() && t[i] == '=' && forall|j: int| 0 <= j < i ==> t[j] != '=')
    } else {
        None
    }
}

/// Reads `era=NAME` out of a sequence's payload: the payload must be UTF-8,
/// the part before the first `=` must be `era` (ignoring case and
/// surrounding whitespace), and the name is the rest, trimmed. Unknown keys
/// are ignored.
pub open spec fn parse_payload_spec(payload: Seq<u8>) -> Option<Seq<char>> {
    if !valid_utf8(payload) {
        None
    } else {
        let t = decode_utf8(payload);
        match first_equals(t) {
            None => None,
            Some(i) => if eq_ignore_ascii_case_spec(trim_seq(t.subrange(0, i)), "era"@) {
                Some(trim_seq(t.subrange(i + 1, t.len() as int)))
            } else {
                None
            },
        }
    }
}

/// Reads `era=NAME` out of a sequence's payload.
pub fn parse_payload(payload: &[u8]) -> (r: Option<String>)
    ensures
        r matches Some(s) ==> parse_payload_spec(payload@) == Some(s@),
        r is None ==> parse_payload_spec(payload@) is None,
{
    let text = match decode_text(payload) {
        Some(text) => text,
        None => return None,
    };
    let chars = crate::text::chars_of(text.as_str());
    let ghost t = chars@;
    let mut i: usize = 0;
    while i < chars.len() && chars[i] != '='
        invariant
            i <= chars@.len(),
            forall|j: int| 0 <= j < i ==> chars@[j] != '=',
        decreases chars@.len() - i,
    {
        i = i + 1;
    }
    if i == chars.len() {
        return None;
    }
    assert(first_equals(t) == Some(i as int)) by {
        let k = choose|k: int| 0 <= k < t.len() && t[k] == '=' && forall|j: int| 0 <= j < k ==> t[j] != '=';
        if k < i {
        } else if k > i {
            assert(t[i as int] == '=');
        }
    }
    let key_part = crate::text::sub_chars(chars.as_slice(), 0, i);
    let key = trim_chars(key_part.as_slice());
    let era = crate::text::chars_of("era");
    if !eq_ignore_ascii_case(key.as_slice(), era.as_slice()) {
        return None;
    }
    let value_part = crate::text::sub_chars(chars.as_slice(), i + 1, chars.len());
    let value = trim_chars(value_part.as_slice());
    Some(string_from_chars(value.as_slice()))
}

} // verus!

verus! {

/// What a byte run ends with when the marker is abandoned: any trailing
/// `ESC` is kept, since it may begin the next sequence.
pub open spec fn restarted(p: Seq<u8>) -> Seq<u8> {
    if p.len() > 0 && p.last() == 0x1bu8 {
        seq![0x1bu8]
    } else {
        seq![]
    }
}

/// `p` is where `q` starts.
pub open spec fn is_prefix_of(p: Seq<u8>, q: Seq<u8>) -> bool {
    p.len() <= q.len() && p == q.subrange(0, p.len() as int)
}

/// Where the first BEL in `payload` is, if any.
pub open spec fn first_bel(payload: Seq<u8>) -> Option<int> {
    if exists|i: int| 0 <= i < payload.len() && payload[i] == 0x07u8 {
        Some(
            choose|i: int|
                0 <= i < payload.len() && payload[i] == 0x07u8 && forall|j: int|
                    0 <= j < i ==> payload[j] != 0x07u8,
        )
    } else {
        None
    }
}

/// Whether an ST (`ESC \`) starts at `i` in `payload`.
pub open spec fn st_at(payload: Seq<u8>, i: int) -> bool {
    0 <= i && i + 1 < payload.len() && payload[i] == 0x1bu8 && payload[i + 1] == 0x5cu8
}

/// Where the first ST in `payload` starts, if any.
pub open spec fn first_st(payload: Seq<u8>) -> Option<int> {
    if exists|i: int| st_at(payload, i) {
        Some(choose|i: int| st_at(payload, i) && forall|j: int| 0 <= j < i ==> !st_at(payload, j))
    } else {
        None
    }
}

/// Where a sequence's payload ends: at its first BEL, or failing that its
/// first ST.
pub open spec fn payload_end(payload: Seq<u8>) -> Option<int> {
    match first_bel(payload) {
        Some(i) => Some(i),
        None => first_st(payload),
    }
}

/// The scanner after looking at its buffered bytes `pending`, given the era
/// last requested: a run still matching the marker is kept; a run that
/// stopped matching is dropped; a complete sequence updates the request
/// (when its payload reads `era=NAME`) and is dropped; an over-long one is
/// abandoned.
pub open spec fn consumed(requested: Option<Seq<char>>, pending: Seq<u8>) -> (
    Option<Seq<char>>,
    Seq<u8>,
) {
    if pending.len() <= marker().len() {
        if is_prefix_of(pending, marker()) {
            (requested, pending)
        } else {
            (requested, restarted(pending))
        }
    } else {
        let payload = pending.subrange(marker().len() as int, pending.len() as int);
        match payload_end(payload) {
            Some(end) => (
                match parse_payload_spec(payload.subrange(0, end)) {
                    Some(era) => Some(era),
                    None => requested,
                },
                seq![],
            ),
            None => if pending.len() > MAX_PENDING {
                (requested, restarted(pending))
            } else {
                (requested, pending)
            },
        }
    }
}

/// The scanner after one more byte of output.
pub open spec fn scan_byte(state: (Option<Seq<char>>, Seq<u8>), byte: u8) -> (
    Option<Seq<char>>,
    Seq<u8>,
) {
    consumed(state.0, state.1.push(byte))
}

/// The scanner after a run of output, one byte at a time.
pub open spec fn scan(state: (Option<Seq<char>>, Seq<u8>), bytes: Seq<u8>) -> (
    Option<Seq<char>>,
    Seq<u8>,
)
    decreases bytes.len(),
{
    if bytes.len() == 0 {
        state
    } else {
        scan_byte(scan(state, bytes.drop_last()), bytes.last())
    }
}

/// Watches raw PTY output for era requests, remembering the most recent one
/// until a caller takes it. A partial match is carried across calls, since
/// output arrives in arbitrary chunks.
pub struct RetroWatcher {
    /// The era name most recently requested and not yet taken.
    requested: Option<String>,
    pending: Vec<u8>,
}

impl View for RetroWatcher {
    type V = (Option<Seq<char>>, Seq<u8>);

    closed spec fn view(&self) -> (Option<Seq<char>>, Seq<u8>) {
        (
            match self.requested {
                Some(s) => Some(s@),
                None => None,
            },
            self.pending@,
        )
    }
}

fn is_marker_prefix(p: &Vec<u8>) -> (r: bool)
    requires
        p@.len() <= marker().len(),
    ensures
        r == is_prefix_of(p@, marker()),
{
    let m: [u8; 7] = [0x1b, 0x5d, 0x37, 0x33, 0x33, 0x31, 0x3b];
    assert(m@ == marker());
    let mut k: usize = 0;
    while k < p.len()
        invariant
            p@.len() <= 7,
            m@ == marker(),
            k <= p@.len(),
            forall|j: int| 0 <= j < k ==> p@[j] == m@[j],
        decreases p@.len() - k,
    {
        if p[k] != m[k] {
            return false;
        }
        k = k + 1;
    }
    assert(p@ =~= marker().subrange(0, p@.len() as int));
    true
}

impl Default for RetroWatcher {
    /// The same watcher as `new`: nothing requested, nothing buffered.
    fn default() -> (r: Self)
        ensures
            r@ == (None::<Seq<char>>, Seq::<u8>::empty()),
    {
        RetroWatcher::new()
    }
}

impl RetroWatcher {
    #[verifier::type_invariant]
    spec fn inv(&self) -> bool {
        self.pending@.len() <= MAX_PENDING
    }

    /// The era requested and not yet taken.
    pub closed spec fn requested_era(&self) -> Option<Seq<char>> {
        self@.0
    }

    pub fn new() -> (r: Self)
        ensures
            r@ == (None::<Seq<char>>, Seq::<u8>::empty()),
    {
        RetroWatcher { requested: None, pending: Vec::new() }
    }

    /// How many bytes of a possible sequence are buffered.
    pub fn pending_len(&self) -> (r: usize)
        ensures
            r == self@.1.len(),
            r <= MAX_PENDING,
    {
        proof {
            use_type_invariant(self);
        }
        self.pending.len()
    }

    /// The era name requested since the last call, clearing it. Only the
    /// latest survives.
    pub fn take_requested_era(&mut self) -> (r: Option<String>)
        ensures
            match r {
                Some(s) => old(self)@.0 == Some(s@),
                None => old(self)@.0 is None,
            },
            final(self)@ == (None::<Seq<char>>, old(self)@.1),
    {
        proof {
            use_type_invariant(&*self);
        }
        let mut taken: Option<String> = None;
        std::mem::swap(&mut taken, &mut self.requested);
        taken
    }

    /// Where the payload buffered in `pending` ends, if it is complete.
    fn find_payload_end(pending: &Vec<u8>) -> (r: Option<usize>)
        requires
            pending@.len() > marker().len(),
        ensures
            match r {
                Some(e) => payload_end(pending@.subrange(7, pending@.len() as int)) == Some(e as int)
                    && e + 7 <= pending@.len(),
                None => payload_end(pending@.subrange(7, pending@.len() as int)) is None,
            },
    {
        let ghost payload = pending@.subrange(7, pending@.len() as int);
        let n = pending.len();
        let mut i: usize = 7;
        while i < n
            invariant
                7 <= i <= n,
                n == pending@.len(),
                payload == pending@.subrange(7, n as int),
                forall|j: int| 0 <= j < i - 7 ==> payload[j] != 0x07u8,
            decreases n - i,
        {
            if pending[i] == 0x07 {
                proof {
                    let at = (i - 7) as int;
                    assert(payload[at] == 0x07u8);
                    let c = choose|c: int|
                        0 <= c < payload.len() && payload[c] == 0x07u8 && forall|j: int|
                            0 <= j < c ==> payload[j] != 0x07u8;
                    if c < at {
                    } else if c > at {
                    }
                }
                return Some(i - 7);
            }
            i = i + 1;
        }
        assert(first_bel(payload) is None);
        let mut i: usize = 7;
        while i < n - 1
            invariant
                7 <= i,
                n > 7,
                n == pending@.len(),
                payload == pending@.subrange(7, n as int),
                first_bel(payload) is None,
                forall|j: int| 0 <= j < i - 7 ==> !st_at(payload, j),
            decreases n - i,
        {
            if pending[i] == 0x1b && pending[i + 1] == 0x5c {
                proof {
                    let at = (i - 7) as int;
                    assert(st_at(payload, at));
                    let c = choose|c: int| st_at(payload, c) && forall|j: int| 0 <= j < c ==> !st_at(payload, j);
                    if c < at {
                    } else if c > at {
                    }
                }
                return Some(i - 7);
            }
            i = i + 1;
        }
        assert(forall|j: int| !st_at(payload, j)) by {
            assert forall|j: int| !st_at(payload, j) by {
                if st_at(payload, j) {
                    assert(j < i - 7);
                }
            }
        }
        None
    }

    /// Trims the buffered bytes `pending` down to whatever could still
    /// become a match, pulling out a complete sequence as it goes and
    /// recording its request in `requested`.
    fn consume_pending(requested: &mut Option<String>, pending: Vec<u8>) -> (rest: Vec<u8>)
        requires
            pending@.len() <= MAX_PENDING + 1,
        ensures
            (
                match *final(requested) {
                    Some(s) => Some(s@),
                    None => None,
                },
                rest@,
            ) == consumed(
                match *old(requested) {
                    Some(s) => Some(s@),
                    None => None,
                },
                pending@,
            ),
            rest@.len() <= MAX_PENDING,
    {
        if pending.len() <= 7 {
            if !is_marker_prefix(&pending) {
                return Self::restart_scan(&pending);
            }
            return pending;
        }
        match Self::find_payload_end(&pending) {
            Some(end) => {
                let payload = slice_bytes(&pending, 7, 7 + end);
                assert(payload@ =~= pending@.subrange(7, pending@.len() as int).subrange(
                    0,
                    end as int,
                ));
                match parse_payload(payload.as_slice()) {
                    Some(era) => {
                        *requested = Some(era);
                    },
                    None => {},
                }
                Vec::new()
            },
            None => {
                if pending.len() > MAX_PENDING {
                    Self::restart_scan(&pending)
                } else {
                    pending
                }
            },
        }
    }

    /// Drops the buffered bytes, but keeps a trailing `ESC`: the byte that
    /// failed to extend this match may start the next one.
    fn restart_scan(pending: &Vec<u8>) -> (rest: Vec<u8>)
        ensures
            rest@ == restarted(pending@),
    {
        let restarts = pending.len() > 0 && pending[pending.len() - 1] == 0x1b;
        let mut fresh: Vec<u8> = Vec::new();
        if restarts {
            fresh.push(0x1b);
        }
        assert(fresh@ =~= restarted(pending@));
        fresh
    }

    /// Scans `bytes` for era requests. Anything that isn't one is ignored.
    pub fn advance(&mut self, bytes: &[u8])
        ensures
            final(self)@ == scan(old(self)@, bytes@),
    {
        let mut i: usize = 0;
        while i < bytes.len()
            invariant
                i <= bytes@.len(),
                self@ == scan(old(self)@, bytes@.subrange(0, i as int)),
            decreases bytes@.len() - i,
        {
            proof {
                use_type_invariant(&*self);
            }
            let mut buffered: Vec<u8> = Vec::new();
            std::mem::swap(&mut buffered, &mut self.pending);
            buffered.push(bytes[i]);
            let mut requested: Option<String> = None;
            std::mem::swap(&mut requested, &mut self.requested);
            let rest = Self::consume_pending(&mut requested, buffered);
            self.requested = requested;
            self.pending = rest;
            proof {
                assert(bytes@.subrange(0, i + 1).drop_last() =~= bytes@.subrange(0, i as int));
            }
            i = i + 1;
        }
        assert(bytes@.subrange(0, bytes@.len() as int) =~= bytes@);
    }
}

/// The bytes of `v` from `from` up to (not including) `to`.
fn slice_bytes(v: &Vec<u8>, from: usize, to: usize) -> (r: Vec<u8>)
    requires
        from <= to <= v@.len(),
    ensures
        r@ == v@.subrange(from as int, to as int),
{
    let mut out: Vec<u8> = Vec::new();
    let mut k: usize = from;
    while k < to
        invariant
            from <= k <= to <= v@.len(),
            out@ == v@.subrange(from as int, k as int),
        decreases to - k,
    {
        out.push(v[k]);
        k = k + 1;
    }
    out
}

} // verus!

verus! {

/// Scanning two chunks one after the other is the same as scanning them
/// joined: however the output is split into reads, the scanner ends up in
/// the same state.
pub proof fn lemma_scan_chunks(state: (Option<Seq<char>>, Seq<u8>), a: Seq<u8>, b: Seq<u8>)
    ensures
        scan(scan(state, a), b) == scan(state, a + b),
    decreases b.len(),
{
    if b.len() == 0 {
        assert(a + b =~= a);
    } else {
        lemma_scan_chunks(state, a, b.drop_last());
        assert((a + b).drop_last() =~= a + b.drop_last());
        assert((a + b).last() == b.last());
    }
}

/// Output that holds no `ESC` byte, reaching a scanner that is not in the
/// middle of a sequence, never produces a request and leaves nothing
/// buffered.
pub proof fn lemma_plain_output_is_ignored(requested: Option<Seq<char>>, bytes: Seq<u8>)
    requires
        forall|i: int| 0 <= i < bytes.len() ==> bytes[i] != 0x1bu8,
    ensures
        scan((requested, seq![]), bytes) == (requested, Seq::<u8>::empty()),
    decreases bytes.len(),
{
    if bytes.len() > 0 {
        lemma_plain_output_is_ignored(requested, bytes.drop_last());
        let b = bytes.last();
        assert(Seq::<u8>::empty().push(b) =~= seq![b]);
        assert(!is_prefix_of(seq![b], marker())) by {
            assert(marker().subrange(0, 1)[0] == 0x1bu8);
        }
    }
}

proof fn lemma_scan_marker(requested: Option<Seq<char>>, k: int)
    requires
        0 <= k <= 7,
    ensures
        scan((requested, seq![]), marker().subrange(0, k)) == (requested, marker().subrange(0, k)),
    decreases k,
{
    if k == 0 {
        assert(marker().subrange(0, 0) =~= Seq::<u8>::empty());
    } else {
        lemma_scan_marker(requested, k - 1);
        assert(marker().subrange(0, k).drop_last() =~= marker().subrange(0, k - 1));
        assert(marker().subrange(0, k - 1).push(marker()[k - 1]) =~= marker().subrange(0, k));
        assert(is_prefix_of(marker().subrange(0, k), marker())) by {
            assert(marker().subrange(0, k) =~= marker().subrange(0, marker().subrange(0, k).len() as int));
        }
    }
}

proof fn lemma_scan_payload(requested: Option<Seq<char>>, payload: Seq<u8>)
    requires
        payload.len() + 7 <= MAX_PENDING,
        forall|i: int| 0 <= i < payload.len() ==> payload[i] != 0x07u8 && payload[i] != 0x1bu8,
    ensures
        scan((requested, marker()), payload) == (requested, marker() + payload),
    decreases payload.len(),
{
    if payload.len() == 0 {
        assert(marker() + payload =~= marker());
    } else {
        let prev = payload.drop_last();
        lemma_scan_payload(requested, prev);
        let p = (marker() + prev).push(payload.last());
        assert(p =~= marker() + payload);
        let body = p.subrange(7, p.len() as int);
        assert(body =~= payload);
        assert(first_bel(body) is None);
        assert(first_st(body) is None) by {
            assert forall|j: int| !st_at(body, j) by {
                if 0 <= j < body.len() {
                    assert(body[j] != 0x1bu8);
                }
            }
        }
    }
}

/// A complete request — the marker, a payload free of BEL and `ESC`, and a
/// BEL — reaching a scanner that is not in the middle of a sequence records
/// the era the payload names (when it reads `era=NAME`) and leaves nothing
/// buffered.
pub proof fn lemma_request_is_picked_up(requested: Option<Seq<char>>, payload: Seq<u8>)
    requires
        payload.len() + 7 <= MAX_PENDING,
        forall|i: int| 0 <= i < payload.len() ==> payload[i] != 0x07u8 && payload[i] != 0x1bu8,
    ensures
        scan((requested, seq![]), marker() + payload + seq![0x07u8]) == (
            match parse_payload_spec(payload) {
                Some(era) => Some(era),
                None => requested,
            },
            Seq::<u8>::empty(),
        ),
{
    lemma_scan_marker(requested, 7);
    assert(marker().subrange(0, 7) =~= marker());
    lemma_scan_payload(requested, payload);
    lemma_scan_chunks((requested, seq![]), marker(), payload);
    lemma_scan_chunks((requested, seq![]), marker() + payload, seq![0x07u8]);
    let p = (marker() + payload).push(0x07u8);
    assert(seq![0x07u8].drop_last() =~= Seq::<u8>::empty());
    let body = p.subrange(7, p.len() as int);
    assert(body =~= payload.push(0x07u8));
    let n = payload.len() as int;
    assert(body[n] == 0x07u8);
    let c = choose|c: int| 0 <= c < body.len() && body[c] == 0x07u8 && forall|j: int| 0 <= j < c ==> body[j] != 0x07u8;
    assert(c == n);
    assert(body.subrange(0, n) =~= payload);
    let st = scan((requested, seq![]), marker() + payload);
    assert(st == (requested, marker() + payload));
    assert(scan(st, seq![0x07u8]) == scan_byte(scan(st, Seq::<u8>::empty()), 0x07u8));
    assert(scan(st, Seq::<u8>::empty()) == st);
    assert(scan_byte(st, 0x07u8) == consumed(requested, p));
    assert(payload_end(body) == Some(n));
}

/// The same request terminated by ST (`ESC \\`) instead of BEL is picked up
/// the same way.
#[verifier::rlimit(40)]
pub proof fn lemma_st_request_is_picked_up(requested: Option<Seq<char>>, payload: Seq<u8>)
    requires
        payload.len() + 9 <= MAX_PENDING,
        forall|i: int| 0 <= i < payload.len() ==> payload[i] != 0x07u8 && payload[i] != 0x1bu8,
    ensures
        scan((requested, seq![]), marker() + payload + seq![0x1bu8, 0x5cu8]) == (
            match parse_payload_spec(payload) {
                Some(era) => Some(era),
                None => requested,
            },
            Seq::<u8>::empty(),
        ),
{
    lemma_scan_marker(requested, 7);
    assert(marker().subrange(0, 7) =~= marker());
    lemma_scan_payload(requested, payload);
    lemma_scan_chunks((requested, seq![]), marker(), payload);
    lemma_scan_chunks((requested, seq![]), marker() + payload, seq![0x1bu8, 0x5cu8]);
    let n = payload.len() as int;
    let st = scan((requested, seq![]), marker() + payload);
    assert(st == (requested, marker() + payload));
    // The ESC alone completes nothing: no BEL, and no ST yet.
    let p1 = (marker() + payload).push(0x1bu8);
    let body1 = p1.subrange(7, p1.len() as int);
    assert(body1 =~= payload.push(0x1bu8));
    assert(first_bel(body1) is None) by {
        assert forall|i: int| 0 <= i < body1.len() implies body1[i] != 0x07u8 by {
            if i < n {
                assert(body1[i] == payload[i]);
            }
        }
    }
    assert(first_st(body1) is None) by {
        assert forall|j: int| !st_at(body1, j) by {
            if 0 <= j && j + 1 < body1.len() {
                assert(body1[j] == payload[j]);
            }
        }
    }
    assert(consumed(requested, p1) == (requested, p1));
    let two = seq![0x1bu8, 0x5cu8];
    assert(two.drop_last() =~= seq![0x1bu8]);
    assert(seq![0x1bu8].drop_last() =~= Seq::<u8>::empty());
    assert(scan(st, seq![0x1bu8]) == scan_byte(scan(st, Seq::<u8>::empty()), 0x1bu8));
    assert(scan(st, Seq::<u8>::empty()) == st);
    assert(scan(st, seq![0x1bu8]) == (requested, p1));
    assert(scan(st, two) == scan_byte(scan(st, seq![0x1bu8]), 0x5cu8));
    // The backslash completes the ST right after the payload.
    let p2 = p1.push(0x5cu8);
    let body2 = p2.subrange(7, p2.len() as int);
    assert(body2 =~= payload + two);
    assert(first_bel(body2) is None) by {
        assert forall|i: int| 0 <= i < body2.len() implies body2[i] != 0x07u8 by {
            if i < n {
                assert(body2[i] == payload[i]);
            }
        }
    }
    assert(st_at(body2, n));
    let c = choose|c: int| st_at(body2, c) && forall|j: int| 0 <= j < c ==> !st_at(body2, j);
    assert(forall|j: int| 0 <= j < n ==> !st_at(body2, j)) by {
        assert forall|j: int| 0 <= j < n implies !st_at(body2, j) by {
            assert(body2[j] == payload[j]);
        }
    }
    if c < n {
        assert(!st_at(body2, c));
    } else if c > n {
        assert(!st_at(body2, n));
    }
    assert(payload_end(body2) == Some(n));
    assert(body2.subrange(0, n) =~= payload);
    assert(marker() + payload + two =~= p2);
}

/// The sequence's introducer is `ESC ] 7331 ;`.
pub proof fn lemma_marker_bytes()
    ensures
        marker() == seq![27u8, 93u8, 55u8, 51u8, 51u8, 49u8, 59u8],
{
}

/// A payload reading `era=NAME` (the key `era` in any case, with
/// whitespace around it allowed) names the era NAME, with surrounding
/// whitespace trimmed; whatever comes before the first `=` that is not
/// `era` names nothing.
pub proof fn lemma_payload_names_an_era(payload: Seq<u8>, key: Seq<char>, name: Seq<char>)
    requires
        valid_utf8(payload),
        decode_utf8(payload) == key + seq!['='] + name,
        forall|k: int| 0 <= k < key.len() ==> key[k] != '=',
    ensures
        eq_ignore_ascii_case_spec(trim_seq(key), seq!['e', 'r', 'a']) ==> parse_payload_spec(payload) == Some(trim_seq(name)),
        !eq_ignore_ascii_case_spec(trim_seq(key), seq!['e', 'r', 'a']) ==> parse_payload_spec(payload) is None,
{
    reveal_strlit("era");
    assert("era"@ =~= seq!['e', 'r', 'a']);
    let t = decode_utf8(payload);
    let n = key.len() as int;
    assert(t[n] == '=');
    let i = first_equals(t)->0;
    assert(exists|j: int| 0 <= j < t.len() && t[j] == '=');
    let c = choose|c: int| 0 <= c < t.len() && t[c] == '=' && forall|j: int| 0 <= j < c ==> t[j] != '=';
    assert(exists|c: int| 0 <= c < t.len() && t[c] == '=' && forall|j: int| 0 <= j < c ==> t[j] != '=') by {
        assert forall|j: int| 0 <= j < n implies t[j] != '=' by {
            assert(t[j] == key[j]);
        }
    }
    if c < n {
        assert(t[c] == key[c]);
    } else if c > n {
        assert(t[n] != '=');
    }
    assert(t.subrange(0, n) =~= key);
    assert(t.subrange(n + 1, t.len() as int) =~= name);
}

/// A started sequence is given up on once 256 bytes are buffered.
pub proof fn lemma_pending_limit()
    ensures
        MAX_PENDING == 256,
{
}

} // verus!
