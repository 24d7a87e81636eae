//! Keyboard chords, the app-level actions they map to, the chord syntax of
//! the `[keybindings]` config table, and the remappable binding table.

use vstd::prelude::*;

use crate::layout::{Direction, Orientation};
use crate::router::BroadcastMode;
use crate::text::{is_permutation, seq_le, sorted_order, is_ascii_upper, chars_eq, chars_eq_str, chars_of, extend_chars, is_white_space, is_whitespace, lower_chars, lower_seq, str_eq, string_from_chars};

verus! {

/// A named key, independent of platform-specific virtual key codes.
#[derive(Debug, Clone, Copy, PartialEq, Eq, Hash, Structural)]
pub enum Key {
    /// A single character key.
    Char(char),
    Up,
    Down,
    Left,
    Right,
}

/// A keyboard chord: a key plus the modifiers held with it.
#[derive(Debug, Clone, Copy, PartialEq, Eq, Hash, Structural)]
pub struct Chord {
    pub key: Key,
    pub ctrl: bool,
    pub shift: bool,
    pub alt: bool,
    /// The "Super"/Cmd/Windows key.
    pub logo: bool,
}

impl Chord {
    pub fn new(key: Key) -> (r: Self)
        ensures
            r == (Chord { key, ctrl: false, shift: false, alt: false, logo: false }),
    {
        Chord { key, ctrl: false, shift: false, alt: false, logo: false }
    }

    pub fn ctrl(self) -> (r: Self)
        ensures
            r == (Chord { ctrl: true, ..self }),
    {
        Chord { ctrl: true, ..self }
    }

    pub fn shift(self) -> (r: Self)
        ensures
            r == (Chord { shift: true, ..self }),
    {
        Chord { shift: true, ..self }
    }

    pub fn alt(self) -> (r: Self)
        ensures
            r == (Chord { alt: true, ..self }),
    {
        Chord { alt: true, ..self }
    }

    pub fn logo(self) -> (r: Self)
        ensures
            r == (Chord { logo: true, ..self }),
    {
        Chord { logo: true, ..self }
    }
}

/// Which way a font-size action moves.
#[derive(Debug, Clone, Copy, PartialEq, Eq, Hash, Structural)]
pub enum FontStep {
    Increase,
    Decrease,
}

/// App-level actions a chord can be bound to. A key mapped to one of these
/// never passes through to the pane.
#[derive(Debug, Clone, Copy, PartialEq, Eq, Structural)]
pub enum Action {
    Split(Orientation),
    ClosePane,
    Quit,
    Focus(Direction),
    Resize(Direction),
    ToggleZoom,
    SetBroadcastMode(BroadcastMode),
    /// Copy the focused pane's selection to the clipboard.
    Copy,
    /// Copy the focused pane's selection if it has one, otherwise send an
    /// interrupt to the shell.
    CopyOrInterrupt,
    /// Paste the clipboard into the focused pane.
    Paste,
    /// Change the font size by one point.
    FontSize(FontStep),
    /// Return the font size to the built-in default.
    ResetFontSize,
}

/// The name an action goes by in `[keybindings]`.
pub open spec fn action_name(a: Action) -> Seq<char> {
    match a {
        Action::Split(Orientation::Horizontal) => "split_horizontal"@,
        Action::Split(Orientation::Vertical) => "split_vertical"@,
        Action::ClosePane => "close_pane"@,
        Action::Quit => "quit"@,
        Action::Focus(Direction::Up) => "focus_up"@,
        Action::Focus(Direction::Down) => "focus_down"@,
        Action::Focus(Direction::Left) => "focus_left"@,
        Action::Focus(Direction::Right) => "focus_right"@,
        Action::Resize(Direction::Up) => "resize_up"@,
        Action::Resize(Direction::Down) => "resize_down"@,
        Action::Resize(Direction::Left) => "resize_left"@,
        Action::Resize(Direction::Right) => "resize_right"@,
        Action::ToggleZoom => "toggle_zoom"@,
        Action::SetBroadcastMode(BroadcastMode::Off) => "broadcast_off"@,
        Action::SetBroadcastMode(BroadcastMode::Group) => "broadcast_group"@,
        Action::SetBroadcastMode(BroadcastMode::All) => "broadcast_all"@,
        Action::Copy => "copy"@,
        Action::CopyOrInterrupt => "copy_or_interrupt"@,
        Action::Paste => "paste"@,
        Action::FontSize(FontStep::Increase) => "font_size_increase"@,
        Action::FontSize(FontStep::Decrease) => "font_size_decrease"@,
        Action::ResetFontSize => "font_size_reset"@,
    }
}

/// The action whose name is `t`, if any.
pub open spec fn parse_action_spec(t: Seq<char>) -> Option<Action> {
    if exists|a: Action| action_name(a) == t {
        Some(choose|a: Action| action_name(a) == t)
    } else {
        None
    }
}

/// A few characters that together tell every action name apart.
spec fn name_fingerprint(t: Seq<char>) -> (int, char, char) {
    (t.len() as int, t[t.len() - 2], if t.len() == 18 { t[10] } else { ' ' })
}

proof fn lemma_action_fingerprint(a: Action)
    ensures
        name_fingerprint(action_name(a)) == match a {
            Action::Split(Orientation::Horizontal) => (16int, 'a', ' '),
            Action::Split(Orientation::Vertical) => (14int, 'a', ' '),
            Action::ClosePane => (10int, 'n', ' '),
            Action::Quit => (4int, 'i', ' '),
            Action::Focus(Direction::Up) => (8int, 'u', ' '),
            Action::Focus(Direction::Down) => (10int, 'w', ' '),
            Action::Focus(Direction::Left) => (10int, 'f', ' '),
            Action::Focus(Direction::Right) => (11int, 'h', ' '),
            Action::Resize(Direction::Up) => (9int, 'u', ' '),
            Action::Resize(Direction::Down) => (11int, 'w', ' '),
            Action::Resize(Direction::Left) => (11int, 'f', ' '),
            Action::Resize(Direction::Right) => (12int, 'h', ' '),
            Action::ToggleZoom => (11int, 'o', ' '),
            Action::SetBroadcastMode(BroadcastMode::Off) => (13int, 'f', ' '),
            Action::SetBroadcastMode(BroadcastMode::Group) => (15int, 'u', ' '),
            Action::SetBroadcastMode(BroadcastMode::All) => (13int, 'l', ' '),
            Action::Copy => (4int, 'p', ' '),
            Action::CopyOrInterrupt => (17int, 'p', ' '),
            Action::Paste => (5int, 't', ' '),
            Action::FontSize(FontStep::Increase) => (18int, 's', 'i'),
            Action::FontSize(FontStep::Decrease) => (18int, 's', 'd'),
            Action::ResetFontSize => (15int, 'e', ' '),
        },
{
    match a {
        Action::Split(Orientation::Horizontal) => {
            reveal_strlit("split_horizontal");
            assert(name_fingerprint(action_name(a)) == (16int, 'a', ' '));
        }
        Action::Split(Orientation::Vertical) => {
            reveal_strlit("split_vertical");
            assert(name_fingerprint(action_name(a)) == (14int, 'a', ' '));
        }
        Action::ClosePane => {
            reveal_strlit("close_pane");
            assert(name_fingerprint(action_name(a)) == (10int, 'n', ' '));
        }
        Action::Quit => {
            reveal_strlit("quit");
            assert(name_fingerprint(action_name(a)) == (4int, 'i', ' '));
        }
        Action::Focus(Direction::Up) => {
            reveal_strlit("focus_up");
            assert(name_fingerprint(action_name(a)) == (8int, 'u', ' '));
        }
        Action::Focus(Direction::Down) => {
            reveal_strlit("focus_down");
            assert(name_fingerprint(action_name(a)) == (10int, 'w', ' '));
        }
        Action::Focus(Direction::Left) => {
            reveal_strlit("focus_left");
            assert(name_fingerprint(action_name(a)) == (10int, 'f', ' '));
        }
        Action::Focus(Direction::Right) => {
            reveal_strlit("focus_right");
            assert(name_fingerprint(action_name(a)) == (11int, 'h', ' '));
        }
        Action::Resize(Direction::Up) => {
            reveal_strlit("resize_up");
            assert(name_fingerprint(action_name(a)) == (9int, 'u', ' '));
        }
        Action::Resize(Direction::Down) => {
            reveal_strlit("resize_down");
            assert(name_fingerprint(action_name(a)) == (11int, 'w', ' '));
        }
        Action::Resize(Direction::Left) => {
            reveal_strlit("resize_left");
            assert(name_fingerprint(action_name(a)) == (11int, 'f', ' '));
        }
        Action::Resize(Direction::Right) => {
            reveal_strlit("resize_right");
            assert(name_fingerprint(action_name(a)) == (12int, 'h', ' '));
        }
        Action::ToggleZoom => {
            reveal_strlit("toggle_zoom");
            assert(name_fingerprint(action_name(a)) == (11int, 'o', ' '));
        }
        Action::SetBroadcastMode(BroadcastMode::Off) => {
            reveal_strlit("broadcast_off");
            assert(name_fingerprint(action_name(a)) == (13int, 'f', ' '));
        }
        Action::SetBroadcastMode(BroadcastMode::Group) => {
            reveal_strlit("broadcast_group");
            assert(name_fingerprint(action_name(a)) == (15int, 'u', ' '));
        }
        Action::SetBroadcastMode(BroadcastMode::All) => {
            reveal_strlit("broadcast_all");
            assert(name_fingerprint(action_name(a)) == (13int, 'l', ' '));
        }
        Action::Copy => {
            reveal_strlit("copy");
            assert(name_fingerprint(action_name(a)) == (4int, 'p', ' '));
        }
        Action::CopyOrInterrupt => {
            reveal_strlit("copy_or_interrupt");
            assert(name_fingerprint(action_name(a)) == (17int, 'p', ' '));
        }
        Action::Paste => {
            reveal_strlit("paste");
            assert(name_fingerprint(action_name(a)) == (5int, 't', ' '));
        }
        Action::FontSize(FontStep::Increase) => {
            reveal_strlit("font_size_increase");
            assert(name_fingerprint(action_name(a)) == (18int, 's', 'i'));
        }
        Action::FontSize(FontStep::Decrease) => {
            reveal_strlit("font_size_decrease");
            assert(name_fingerprint(action_name(a)) == (18int, 's', 'd'));
        }
        Action::ResetFontSize => {
            reveal_strlit("font_size_reset");
            assert(name_fingerprint(action_name(a)) == (15int, 'e', ' '));
        }
    }
}

/// No two actions share a name.
pub proof fn lemma_action_name_injective(a: Action, b: Action)
    requires
        action_name(a) == action_name(b),
    ensures
        a == b,
{
    lemma_action_fingerprint(a);
    lemma_action_fingerprint(b);
}

impl Action {
    /// The name this action goes by in `[keybindings]` — the exact inverse
    /// of `parse_action`.
    pub fn name(self) -> (r: &'static str)
        ensures
            r@ == action_name(self),
    {
        match self {
            Action::Split(Orientation::Horizontal) => "split_horizontal",
            Action::Split(Orientation::Vertical) => "split_vertical",
            Action::ClosePane => "close_pane",
            Action::Quit => "quit",
            Action::Focus(Direction::Up) => "focus_up",
            Action::Focus(Direction::Down) => "focus_down",
            Action::Focus(Direction::Left) => "focus_left",
            Action::Focus(Direction::Right) => "focus_right",
            Action::Resize(Direction::Up) => "resize_up",
            Action::Resize(Direction::Down) => "resize_down",
            Action::Resize(Direction::Left) => "resize_left",
            Action::Resize(Direction::Right) => "resize_right",
            Action::ToggleZoom => "toggle_zoom",
            Action::SetBroadcastMode(BroadcastMode::Off) => "broadcast_off",
            Action::SetBroadcastMode(BroadcastMode::Group) => "broadcast_group",
            Action::SetBroadcastMode(BroadcastMode::All) => "broadcast_all",
            Action::Copy => "copy",
            Action::CopyOrInterrupt => "copy_or_interrupt",
            Action::Paste => "paste",
            Action::FontSize(FontStep::Increase) => "font_size_increase",
            Action::FontSize(FontStep::Decrease) => "font_size_decrease",
            Action::ResetFontSize => "font_size_reset",
        }
    }
}

} // verus!

verus! {

/// Every action there is.
pub fn all_actions() -> (r: Vec<Action>)
    ensures
        forall|a: Action| #[trigger] r@.contains(a),
{
    let r = vec![
        Action::Split(Orientation::Horizontal),
        Action::Split(Orientation::Vertical),
        Action::ClosePane,
        Action::Quit,
        Action::Focus(Direction::Up),
        Action::Focus(Direction::Down),
        Action::Focus(Direction::Left),
        Action::Focus(Direction::Right),
        Action::Resize(Direction::Up),
        Action::Resize(Direction::Down),
        Action::Resize(Direction::Left),
        Action::Resize(Direction::Right),
        Action::ToggleZoom,
        Action::SetBroadcastMode(BroadcastMode::Off),
        Action::SetBroadcastMode(BroadcastMode::Group),
        Action::SetBroadcastMode(BroadcastMode::All),
        Action::Copy,
        Action::CopyOrInterrupt,
        Action::Paste,
        Action::FontSize(FontStep::Increase),
        Action::FontSize(FontStep::Decrease),
        Action::ResetFontSize,
    ];
    assert forall|a: Action| #[trigger] r@.contains(a) by {
        match a {
            Action::Split(Orientation::Horizontal) => assert(r@[0] == a),
            Action::Split(Orientation::Vertical) => assert(r@[1] == a),
            Action::ClosePane => assert(r@[2] == a),
            Action::Quit => assert(r@[3] == a),
            Action::Focus(Direction::Up) => assert(r@[4] == a),
            Action::Focus(Direction::Down) => assert(r@[5] == a),
            Action::Focus(Direction::Left) => assert(r@[6] == a),
            Action::Focus(Direction::Right) => assert(r@[7] == a),
            Action::Resize(Direction::Up) => assert(r@[8] == a),
            Action::Resize(Direction::Down) => assert(r@[9] == a),
            Action::Resize(Direction::Left) => assert(r@[10] == a),
            Action::Resize(Direction::Right) => assert(r@[11] == a),
            Action::ToggleZoom => assert(r@[12] == a),
            Action::SetBroadcastMode(BroadcastMode::Off) => assert(r@[13] == a),
            Action::SetBroadcastMode(BroadcastMode::Group) => assert(r@[14] == a),
            Action::SetBroadcastMode(BroadcastMode::All) => assert(r@[15] == a),
            Action::Copy => assert(r@[16] == a),
            Action::CopyOrInterrupt => assert(r@[17] == a),
            Action::Paste => assert(r@[18] == a),
            Action::FontSize(FontStep::Increase) => assert(r@[19] == a),
            Action::FontSize(FontStep::Decrease) => assert(r@[20] == a),
            Action::ResetFontSize => assert(r@[21] == a),
        }
    }
    r
}

/// Parses an action name as it appears in `[keybindings]`.
pub fn parse_action(s: &str) -> (r: Option<Action>)
    ensures
        r == parse_action_spec(s@),
{
    let all = all_actions();
    let mut i: usize = 0;
    while i < all.len()
        invariant
            i <= all@.len(),
            forall|a: Action| #[trigger] all@.contains(a),
            forall|j: int| 0 <= j < i ==> action_name(#[trigger] all@[j]) != s@,
        decreases all@.len() - i,
    {
        let a = all[i];
        if str_eq(a.name(), s) {
            proof {
                let c = choose|x: Action| action_name(x) == s@;
                lemma_action_name_injective(a, c);
            }
            return Some(a);
        }
        i = i + 1;
    }
    assert forall|a: Action| action_name(a) != s@ by {
        assert(all@.contains(a));
        let j = choose|j: int| 0 <= j < all@.len() && all@[j] == a;
        assert(action_name(all@[j]) != s@);
    }
    None
}

/// Every action's name parses back to that action.
pub proof fn lemma_action_name_round_trip(a: Action)
    ensures
        parse_action_spec(action_name(a)) == Some(a),
{
    let c = choose|x: Action| action_name(x) == action_name(a);
    lemma_action_name_injective(a, c);
}

/// How a key is written in a chord string.
pub open spec fn key_text(k: Key) -> Seq<char> {
    match k {
        Key::Char(c) => if c == ' ' {
            "space"@
        } else {
            seq![c]
        },
        Key::Up => "up"@,
        Key::Down => "down"@,
        Key::Left => "left"@,
        Key::Right => "right"@,
    }
}

/// The space-separated segments a chord prints as: modifiers in a fixed
/// order, then the key.
pub open spec fn chord_words(c: Chord) -> Seq<Seq<char>> {
    (if c.ctrl { seq!["ctrl"@] } else { seq![] }) + (if c.shift { seq!["shift"@] } else { seq![] }) + (
    if c.alt { seq!["alt"@] } else { seq![] }) + (if c.logo { seq!["cmd"@] } else { seq![] }) + seq![
        key_text(c.key),
    ]
}

/// `ws` joined by single spaces.
pub open spec fn join_words(ws: Seq<Seq<char>>) -> Seq<char>
    decreases ws.len(),
{
    if ws.len() == 0 {
        seq![]
    } else if ws.len() == 1 {
        ws[0]
    } else {
        join_words(ws.drop_last()) + seq![' '] + ws.last()
    }
}

/// How a chord prints: what a user writes in `[keybindings]` for it.
pub open spec fn chord_text(c: Chord) -> Seq<char> {
    join_words(chord_words(c))
}

/// The character views of a vector of words.
pub open spec fn words_view(ws: Seq<Vec<char>>) -> Seq<Seq<char>> {
    ws.map_values(|w: Vec<char>| w@)
}

/// `ws` joined by single spaces.
pub fn join_with_spaces(ws: &Vec<Vec<char>>) -> (r: Vec<char>)
    ensures
        r@ == join_words(words_view(ws@)),
{
    let mut out: Vec<char> = Vec::new();
    let mut i: usize = 0;
    while i < ws.len()
        invariant
            i <= ws@.len(),
            out@ == join_words(words_view(ws@).subrange(0, i as int)),
        decreases ws@.len() - i,
    {
        let ghost prev = words_view(ws@).subrange(0, i as int);
        if i > 0 {
            out.push(' ');
        }
        extend_chars(&mut out, ws[i].as_slice());
        assert(words_view(ws@).subrange(0, i + 1).drop_last() =~= prev);
        i = i + 1;
    }
    assert(words_view(ws@).subrange(0, ws@.len() as int) =~= words_view(ws@));
    out
}

impl Chord {
    /// The chord's segments, in printing order.
    pub fn words(&self) -> (r: Vec<Vec<char>>)
        ensures
            words_view(r@) == chord_words(*self),
    {
        let mut ws: Vec<Vec<char>> = Vec::new();
        if self.ctrl {
            ws.push(chars_of("ctrl"));
        }
        if self.shift {
            ws.push(chars_of("shift"));
        }
        if self.alt {
            ws.push(chars_of("alt"));
        }
        if self.logo {
            ws.push(chars_of("cmd"));
        }
        let key = match self.key {
            Key::Char(c) => if c == ' ' {
                chars_of("space")
            } else {
                let mut v: Vec<char> = Vec::new();
                v.push(c);
                v
            },
            Key::Up => chars_of("up"),
            Key::Down => chars_of("down"),
            Key::Left => chars_of("left"),
            Key::Right => chars_of("right"),
        };
        ws.push(key);
        assert(words_view(ws@) =~= chord_words(*self));
        ws
    }

    /// Renders the chord the way `parse_chord` reads one, so a binding shown
    /// to a user can be pasted back into `[keybindings]` verbatim.
    pub fn to_string(&self) -> (r: String)
        ensures
            r@ == chord_text(*self),
    {
        let ws = self.words();
        let text = join_with_spaces(&ws);
        string_from_chars(text.as_slice())
    }
}

} // verus!

verus! {

/// Whether `c` separates segments: a `+` in the older chord format, or
/// whitespace in the current one.
pub open spec fn is_sep(c: char, plus: bool) -> bool {
    if plus {
        c == '+'
    } else {
        is_white_space(c)
    }
}

/// Splitting state after reading `s`: the finished pieces, and the piece
/// still being read.
pub open spec fn split_state(s: Seq<char>, plus: bool) -> (Seq<Seq<char>>, Seq<char>)
    decreases s.len(),
{
    if s.len() == 0 {
        (seq![], seq![])
    } else {
        let (done, cur) = split_state(s.drop_last(), plus);
        if is_sep(s.last(), plus) {
            if cur.len() > 0 {
                (done.push(cur), seq![])
            } else {
                (done, seq![])
            }
        } else {
            (done, cur.push(s.last()))
        }
    }
}

/// The maximal non-empty runs of non-separator characters of `s`, in
/// order: `str::split_whitespace`, or `str::split('+')` with the empty
/// pieces dropped.
pub open spec fn split_pieces(s: Seq<char>, plus: bool) -> Seq<Seq<char>> {
    let (done, cur) = split_state(s, plus);
    if cur.len() > 0 {
        done.push(cur)
    } else {
        done
    }
}

/// A whitespace-separated word's segments: a lone `+` is the plus key,
/// anything else is split again on `+`.
pub open spec fn expand_word(w: Seq<char>) -> Seq<Seq<char>> {
    if w == seq!['+'] {
        seq![w]
    } else {
        split_pieces(w, true)
    }
}

pub open spec fn flatten_words(ws: Seq<Seq<char>>) -> Seq<Seq<char>>
    decreases ws.len(),
{
    if ws.len() == 0 {
        seq![]
    } else {
        flatten_words(ws.drop_last()) + expand_word(ws.last())
    }
}

/// The segments of a chord string, accepting both separators.
pub open spec fn chord_segments(s: Seq<char>) -> Seq<Seq<char>> {
    flatten_words(split_pieces(s, false))
}

/// Splits `s` into its non-empty runs of non-separator characters.
pub fn split_on(s: &[char], plus: bool) -> (r: Vec<Vec<char>>)
    ensures
        words_view(r@) == split_pieces(s@, plus),
{
    let mut done: Vec<Vec<char>> = Vec::new();
    let mut cur: Vec<char> = Vec::new();
    let mut i: usize = 0;
    while i < s.len()
        invariant
            i <= s@.len(),
            (words_view(done@), cur@) == split_state(s@.subrange(0, i as int), plus),
        decreases s@.len() - i,
    {
        let c = s[i];
        assert(s@.subrange(0, i + 1).drop_last() =~= s@.subrange(0, i as int));
        let sep = if plus {
            c == '+'
        } else {
            is_whitespace(c)
        };
        if sep {
            if cur.len() > 0 {
                done.push(cur);
            }
            cur = Vec::new();
        } else {
            cur.push(c);
        }
        i = i + 1;
    }
    assert(s@.subrange(0, s@.len() as int) =~= s@);
    if cur.len() > 0 {
        done.push(cur);
    }
    assert(words_view(done@) =~= split_pieces(s@, plus));
    done
}

/// Splits a chord string into its segments: whitespace separates, and a
/// segment that still contains `+` is split again on it unless it is the
/// plus key itself.
pub fn segments(s: &str) -> (r: Vec<Vec<char>>)
    ensures
        words_view(r@) == chord_segments(s@),
{
    let chars = chars_of(s);
    let words = split_on(chars.as_slice(), false);
    let mut out: Vec<Vec<char>> = Vec::new();
    let mut i: usize = 0;
    while i < words.len()
        invariant
            i <= words@.len(),
            words_view(words@) == split_pieces(s@, false),
            words_view(out@) == flatten_words(words_view(words@).subrange(0, i as int)),
        decreases words@.len() - i,
    {
        let w = &words[i];
        let ghost before = words_view(out@);
        assert(words_view(words@).subrange(0, i + 1).drop_last() =~= words_view(words@).subrange(
            0,
            i as int,
        ));
        assert(words_view(words@).subrange(0, i + 1).last() == w@);
        if w.len() == 1 && w[0] == '+' {
            assert(w@ =~= seq!['+']);
            let word = w.clone();
            assert(word@ =~= w@);
            out.push(word);
            assert(words_view(out@) =~= before + expand_word(w@));
        } else {
            assert(w@ != seq!['+']);
            let pieces = split_on(w.as_slice(), true);
            let mut k: usize = 0;
            while k < pieces.len()
                invariant
                    k <= pieces@.len(),
                    words_view(out@) == before + words_view(pieces@).subrange(0, k as int),
                decreases pieces@.len() - k,
            {
                let piece = pieces[k].clone();
                assert(piece@ =~= pieces@[k as int]@);
                let ghost mid = out@;
                out.push(piece);
                assert(out@ == mid.push(piece));
                assert(words_view(out@) =~= words_view(mid).push(piece@));
                assert(words_view(pieces@)[k as int] == piece@);
                assert(words_view(out@) =~= before + words_view(pieces@).subrange(0, k + 1));
                k = k + 1;
            }
            assert(words_view(pieces@).subrange(0, pieces@.len() as int) =~= words_view(pieces@));
        }
        i = i + 1;
    }
    assert(words_view(words@).subrange(0, words@.len() as int) =~= words_view(words@));
    out
}

} // verus!

verus! {

/// What one chord segment means.
#[derive(Debug, Clone, Copy, PartialEq, Eq, Structural)]
pub enum Segment {
    Ctrl,
    Shift,
    Alt,
    Logo,
    KeyName(Key),
    Invalid,
}

/// The meaning of one chord segment, case-insensitively: a modifier name,
/// a named key, or a single character.
pub open spec fn classify(seg: Seq<char>) -> Segment {
    let l = lower_seq(seg);
    if l == "ctrl"@ || l == "control"@ {
        Segment::Ctrl
    } else if l == "shift"@ {
        Segment::Shift
    } else if l == "alt"@ {
        Segment::Alt
    } else if l == "logo"@ || l == "super"@ || l == "cmd"@ || l == "win"@ || l == "windows"@ {
        Segment::Logo
    } else if l == "up"@ {
        Segment::KeyName(Key::Up)
    } else if l == "down"@ {
        Segment::KeyName(Key::Down)
    } else if l == "left"@ {
        Segment::KeyName(Key::Left)
    } else if l == "right"@ {
        Segment::KeyName(Key::Right)
    } else if l == "space"@ {
        Segment::KeyName(Key::Char(' '))
    } else if l == "plus"@ {
        Segment::KeyName(Key::Char('+'))
    } else if l == "minus"@ {
        Segment::KeyName(Key::Char('-'))
    } else if l == "equals"@ || l == "equal"@ {
        Segment::KeyName(Key::Char('='))
    } else if l.len() == 1 {
        Segment::KeyName(Key::Char(l[0]))
    } else {
        Segment::Invalid
    }
}

/// Classifies one chord segment.
pub fn classify_segment(seg: &[char]) -> (r: Segment)
    ensures
        r == classify(seg@),
{
    let l = lower_chars(seg);
    let l = l.as_slice();
    if chars_eq_str(l, "ctrl") || chars_eq_str(l, "control") {
        Segment::Ctrl
    } else if chars_eq_str(l, "shift") {
        Segment::Shift
    } else if chars_eq_str(l, "alt") {
        Segment::Alt
    } else if chars_eq_str(l, "logo") || chars_eq_str(l, "super") || chars_eq_str(l, "cmd")
        || chars_eq_str(l, "win") || chars_eq_str(l, "windows") {
        Segment::Logo
    } else if chars_eq_str(l, "up") {
        Segment::KeyName(Key::Up)
    } else if chars_eq_str(l, "down") {
        Segment::KeyName(Key::Down)
    } else if chars_eq_str(l, "left") {
        Segment::KeyName(Key::Left)
    } else if chars_eq_str(l, "right") {
        Segment::KeyName(Key::Right)
    } else if chars_eq_str(l, "space") {
        Segment::KeyName(Key::Char(' '))
    } else if chars_eq_str(l, "plus") {
        Segment::KeyName(Key::Char('+'))
    } else if chars_eq_str(l, "minus") {
        Segment::KeyName(Key::Char('-'))
    } else if chars_eq_str(l, "equals") || chars_eq_str(l, "equal") {
        Segment::KeyName(Key::Char('='))
    } else if l.len() == 1 {
        Segment::KeyName(Key::Char(l[0]))
    } else {
        Segment::Invalid
    }
}

/// The meanings of a chord string's segments.
pub open spec fn segment_kinds(s: Seq<char>) -> Seq<Segment> {
    chord_segments(s).map_values(|w: Seq<char>| classify(w))
}

pub open spec fn is_key_segment(k: Segment) -> bool {
    k is KeyName
}

pub open spec fn segment_key(k: Segment) -> Key {
    match k {
        Segment::KeyName(key) => key,
        _ => Key::Up,
    }
}

/// Exactly one of the segments names a key.
pub open spec fn has_one_key(kinds: Seq<Segment>) -> bool {
    exists|i: int|
        0 <= i < kinds.len() && is_key_segment(#[trigger] kinds[i]) && forall|j: int|
            0 <= j < kinds.len() && j != i ==> !is_key_segment(#[trigger] kinds[j])
}

pub open spec fn has_segment(kinds: Seq<Segment>, k: Segment) -> bool {
    exists|i: int| 0 <= i < kinds.len() && kinds[i] == k
}

/// What a chord string means: every segment is a modifier or a key, and
/// exactly one is a key; a modifier is held when any segment names it.
pub open spec fn parse_chord_spec(s: Seq<char>) -> Option<Chord> {
    let kinds = segment_kinds(s);
    if (forall|i: int| 0 <= i < kinds.len() ==> kinds[i] != Segment::Invalid) && has_one_key(
        kinds,
    ) {
        let at = choose|i: int| 0 <= i < kinds.len() && is_key_segment(#[trigger] kinds[i]);
        Some(
            Chord {
                key: segment_key(kinds[at]),
                ctrl: has_segment(kinds, Segment::Ctrl),
                shift: has_segment(kinds, Segment::Shift),
                alt: has_segment(kinds, Segment::Alt),
                logo: has_segment(kinds, Segment::Logo),
            },
        )
    } else {
        None
    }
}

/// Parses a chord string like `"ctrl shift e"`: case-insensitive,
/// space-separated (or `+`-separated, the older format), modifiers in any
/// order, exactly one non-modifier segment.
pub fn parse_chord(s: &str) -> (r: Option<Chord>)
    ensures
        r == parse_chord_spec(s@),
{
    let segs = segments(s);
    let ghost kinds = segment_kinds(s@);
    assert(kinds.len() == segs@.len());
    let mut ctrl = false;
    let mut shift = false;
    let mut alt = false;
    let mut logo = false;
    let mut key: Option<Key> = None;
    let ghost mut kidx: int = 0;
    let mut i: usize = 0;
    while i < segs.len()
        invariant
            i <= segs@.len(),
            kinds == segment_kinds(s@),
            kinds.len() == segs@.len(),
            words_view(segs@) == chord_segments(s@),
            forall|j: int| 0 <= j < i ==> kinds[j] != Segment::Invalid,
            ctrl == (exists|j: int| 0 <= j < i && kinds[j] == Segment::Ctrl),
            shift == (exists|j: int| 0 <= j < i && kinds[j] == Segment::Shift),
            alt == (exists|j: int| 0 <= j < i && kinds[j] == Segment::Alt),
            logo == (exists|j: int| 0 <= j < i && kinds[j] == Segment::Logo),
            key is None ==> forall|j: int| 0 <= j < i ==> !is_key_segment(#[trigger] kinds[j]),
            key is Some ==> 0 <= kidx < i && kinds[kidx] == Segment::KeyName(key->0) && forall|j: int|
                0 <= j < i && j != kidx ==> !is_key_segment(#[trigger] kinds[j]),
        decreases segs@.len() - i,
    {
        let k = classify_segment(segs[i].as_slice());
        assert(k == kinds[i as int]);
        match k {
            Segment::Ctrl => {
                ctrl = true;
            },
            Segment::Shift => {
                shift = true;
            },
            Segment::Alt => {
                alt = true;
            },
            Segment::Logo => {
                logo = true;
            },
            Segment::KeyName(parsed) => {
                if key.is_some() {
                    assert(is_key_segment(kinds[kidx]));
                    assert(is_key_segment(kinds[i as int]));
                    return None;
                }
                key = Some(parsed);
                proof {
                    kidx = i as int;
                }
            },
            Segment::Invalid => {
                return None;
            },
        }
        i = i + 1;
    }
    match key {
        None => None,
        Some(k) => {
            assert(has_one_key(kinds)) by {
                assert(is_key_segment(kinds[kidx]));
            }
            let ghost at = choose|j: int| 0 <= j < kinds.len() && is_key_segment(#[trigger] kinds[j]);
            assert(at == kidx);
            Some(Chord { key: k, ctrl, shift, alt, logo })
        },
    }
}

} // verus!

verus! {

proof fn lemma_split_append_plain(x: Seq<char>, t: Seq<char>, plus: bool)
    requires
        forall|k: int| 0 <= k < t.len() ==> !is_sep(#[trigger] t[k], plus),
    ensures
        split_state(x + t, plus) == (split_state(x, plus).0, split_state(x, plus).1 + t),
    decreases t.len(),
{
    if t.len() == 0 {
        assert(x + t =~= x);
        assert(split_state(x, plus).1 + t =~= split_state(x, plus).1);
    } else {
        lemma_split_append_plain(x, t.drop_last(), plus);
        assert((x + t).drop_last() =~= x + t.drop_last());
        assert((x + t).last() == t.last());
        assert(split_state(x, plus).1 + t.drop_last() + seq![t.last()] =~= split_state(x, plus).1
            + t);
    }
}

/// A chord word is non-empty and holds no whitespace.
pub open spec fn plain_word(w: Seq<char>) -> bool {
    w.len() > 0 && forall|k: int| 0 <= k < w.len() ==> !is_white_space(#[trigger] w[k])
}

proof fn lemma_split_join(ws: Seq<Seq<char>>)
    requires
        ws.len() > 0,
        forall|i: int| 0 <= i < ws.len() ==> plain_word(#[trigger] ws[i]),
    ensures
        split_state(join_words(ws), false) == (ws.drop_last(), ws.last()),
        split_pieces(join_words(ws), false) == ws,
    decreases ws.len(),
{
    if ws.len() == 1 {
        assert(plain_word(ws[0]));
        lemma_split_append_plain(seq![], ws[0], false);
        assert(Seq::<char>::empty() + ws[0] =~= ws[0]);
        assert(ws.drop_last() =~= seq![]);
        assert(seq![] + ws[0] =~= ws[0]);
    } else {
        let prev = ws.drop_last();
        assert forall|i: int| 0 <= i < prev.len() implies plain_word(#[trigger] prev[i]) by {
            assert(prev[i] == ws[i]);
        }
        lemma_split_join(prev);
        let x = join_words(prev) + seq![' '];
        assert(x.drop_last() =~= join_words(prev));
        assert(plain_word(prev.last()));
        assert(split_state(x, false) == (prev.drop_last().push(prev.last()), Seq::<char>::empty()));
        assert(prev.drop_last().push(prev.last()) =~= prev);
        assert(plain_word(ws.last()));
        lemma_split_append_plain(x, ws.last(), false);
        assert(Seq::<char>::empty() + ws.last() =~= ws.last());
    }
    let (done, cur) = split_state(join_words(ws), false);
    assert(plain_word(ws.last()));
    assert(ws.drop_last().push(ws.last()) =~= ws);
}

proof fn lemma_expand_plain_word(w: Seq<char>)
    requires
        plain_word(w),
        w == seq!['+'] || forall|k: int| 0 <= k < w.len() ==> #[trigger] w[k] != '+',
    ensures
        expand_word(w) == seq![w],
{
    if w != seq!['+'] {
        lemma_split_append_plain(seq![], w, true);
        assert(Seq::<char>::empty() + w =~= w);
        assert(Seq::<Seq<char>>::empty().push(w) =~= seq![w]);
    }
}

proof fn lemma_flatten_plain(ws: Seq<Seq<char>>)
    requires
        forall|i: int| 0 <= i < ws.len() ==> expand_word(#[trigger] ws[i]) == seq![ws[i]],
    ensures
        flatten_words(ws) == ws,
    decreases ws.len(),
{
    if ws.len() > 0 {
        let prev = ws.drop_last();
        assert forall|i: int| 0 <= i < prev.len() implies expand_word(#[trigger] prev[i]) == seq![
            prev[i],
        ] by {
            assert(prev[i] == ws[i]);
        }
        lemma_flatten_plain(prev);
        assert(expand_word(ws.last()) == seq![ws.last()]);
        assert(prev + seq![ws.last()] =~= ws);
    }
}

/// A key that prints as something `parse_chord` reads back unchanged: not
/// an ASCII capital (segments are lowercased), and not whitespace other
/// than the space key (whitespace separates segments).
pub open spec fn printable_key(k: Key) -> bool {
    match k {
        Key::Char(c) => !is_ascii_upper(c) && (c == ' ' || !is_white_space(c)),
        _ => true,
    }
}

proof fn lemma_classify_names()
    ensures
        classify("ctrl"@) == Segment::Ctrl,
        classify("shift"@) == Segment::Shift,
        classify("alt"@) == Segment::Alt,
        classify("cmd"@) == Segment::Logo,
        classify("space"@) == Segment::KeyName(Key::Char(' ')),
        classify("up"@) == Segment::KeyName(Key::Up),
        classify("down"@) == Segment::KeyName(Key::Down),
        classify("left"@) == Segment::KeyName(Key::Left),
        classify("right"@) == Segment::KeyName(Key::Right),
        plain_word("ctrl"@),
        plain_word("shift"@),
        plain_word("alt"@),
        plain_word("cmd"@),
        plain_word("space"@),
        plain_word("up"@),
        plain_word("down"@),
        plain_word("left"@),
        plain_word("right"@),
        forall|k: int| 0 <= k < "ctrl"@.len() ==> #[trigger] "ctrl"@[k] != '+',
        forall|k: int| 0 <= k < "shift"@.len() ==> #[trigger] "shift"@[k] != '+',
        forall|k: int| 0 <= k < "alt"@.len() ==> #[trigger] "alt"@[k] != '+',
        forall|k: int| 0 <= k < "cmd"@.len() ==> #[trigger] "cmd"@[k] != '+',
        forall|k: int| 0 <= k < "space"@.len() ==> #[trigger] "space"@[k] != '+',
        forall|k: int| 0 <= k < "up"@.len() ==> #[trigger] "up"@[k] != '+',
        forall|k: int| 0 <= k < "down"@.len() ==> #[trigger] "down"@[k] != '+',
        forall|k: int| 0 <= k < "left"@.len() ==> #[trigger] "left"@[k] != '+',
        forall|k: int| 0 <= k < "right"@.len() ==> #[trigger] "right"@[k] != '+',
{
    reveal_strlit("ctrl");
    reveal_strlit("control");
    reveal_strlit("shift");
    reveal_strlit("alt");
    reveal_strlit("logo");
    reveal_strlit("super");
    reveal_strlit("cmd");
    reveal_strlit("win");
    reveal_strlit("windows");
    reveal_strlit("up");
    reveal_strlit("down");
    reveal_strlit("left");
    reveal_strlit("right");
    reveal_strlit("space");
    reveal_strlit("plus");
    reveal_strlit("minus");
    reveal_strlit("equals");
    reveal_strlit("equal");
    assert(lower_seq("ctrl"@) =~= "ctrl"@);
    assert(lower_seq("shift"@) =~= "shift"@);
    assert(lower_seq("alt"@) =~= "alt"@);
    assert(lower_seq("cmd"@) =~= "cmd"@);
    assert(lower_seq("space"@) =~= "space"@);
    assert(lower_seq("up"@) =~= "up"@);
    assert(lower_seq("down"@) =~= "down"@);
    assert(lower_seq("left"@) =~= "left"@);
    assert(lower_seq("right"@) =~= "right"@);
    assert("cmd"@[0] != "alt"@[0]);
    assert("shift"@[1] != "super"@[1]);
    assert("space"@[1] != "shift"@[1] && "space"@[1] != "super"@[1]);
    assert("down"@[0] != "ctrl"@[0] && "down"@[0] != "logo"@[0]);
    assert("left"@[1] != "ctrl"@[1] && "left"@[1] != "logo"@[1] && "left"@[1] != "down"@[1] && "left"@[1] != "plus"@[1]);
    assert("right"@[0] != "shift"@[0] && "right"@[0] != "super"@[0] && "right"@[0] != "space"@[0]);
}

proof fn lemma_classify_single(c: char)
    requires
        !is_ascii_upper(c),
    ensures
        classify(seq![c]) == Segment::KeyName(Key::Char(c)),
{
    assert(lower_seq(seq![c]) =~= seq![c]);
    reveal_strlit("ctrl");
    reveal_strlit("control");
    reveal_strlit("shift");
    reveal_strlit("alt");
    reveal_strlit("logo");
    reveal_strlit("super");
    reveal_strlit("cmd");
    reveal_strlit("win");
    reveal_strlit("windows");
    reveal_strlit("up");
    reveal_strlit("down");
    reveal_strlit("left");
    reveal_strlit("right");
    reveal_strlit("space");
    reveal_strlit("plus");
    reveal_strlit("minus");
    reveal_strlit("equals");
    reveal_strlit("equal");
}

/// Printing a chord and parsing the result gives the chord back, for every
/// chord whose key survives the round trip — the guarantee that a binding
/// shown to a user can be pasted back into `[keybindings]` verbatim.
pub proof fn lemma_chord_round_trip(c: Chord)
    requires
        printable_key(c.key),
    ensures
        parse_chord_spec(chord_text(c)) == Some(c),
{
    let ws = chord_words(c);
    lemma_classify_names();
    let kt = key_text(c.key);
    match c.key {
        Key::Char(ch) => {
            if ch != ' ' {
                lemma_classify_single(ch);
                assert(kt == seq![ch]);
                assert(plain_word(kt));
            }
        },
        _ => {},
    }
    assert(classify(kt) == Segment::KeyName(c.key));
    assert(plain_word(kt));
    assert(kt == seq!['+'] || forall|k: int| 0 <= k < kt.len() ==> #[trigger] kt[k] != '+') by {
        match c.key {
            Key::Char(ch) => {
                if ch != ' ' && ch != '+' {
                    assert(forall|k: int| 0 <= k < kt.len() ==> #[trigger] kt[k] == ch);
                }
            },
            _ => {},
        }
    }
    let n = ws.len();
    assert(ws.last() == kt);
    assert forall|i: int| 0 <= i < n implies plain_word(#[trigger] ws[i]) && expand_word(ws[i])
        == seq![ws[i]] && (i < n - 1 ==> classify(ws[i]) != Segment::Invalid && !is_key_segment(
        classify(ws[i]),
    )) by {
        if i == n - 1 {
            lemma_expand_plain_word(kt);
        } else {
            assert(ws[i] == "ctrl"@ || ws[i] == "shift"@ || ws[i] == "alt"@ || ws[i] == "cmd"@);
            if ws[i] == "ctrl"@ {
                lemma_expand_plain_word("ctrl"@);
            } else if ws[i] == "shift"@ {
                lemma_expand_plain_word("shift"@);
            } else if ws[i] == "alt"@ {
                lemma_expand_plain_word("alt"@);
            } else {
                lemma_expand_plain_word("cmd"@);
            }
        }
    }
    lemma_split_join(ws);
    lemma_flatten_plain(ws);
    assert(chord_segments(chord_text(c)) == ws);
    let kinds = segment_kinds(chord_text(c));
    assert(kinds == ws.map_values(|w: Seq<char>| classify(w)));
    assert(kinds.len() == n);
    assert(kinds[n - 1] == Segment::KeyName(c.key));
    assert(forall|i: int| 0 <= i < n ==> kinds[i] == classify(ws[i]));
    assert(has_one_key(kinds)) by {
        assert(is_key_segment(kinds[n - 1]));
    }
    let at = choose|i: int| 0 <= i < kinds.len() && is_key_segment(#[trigger] kinds[i]);
    assert(at == n - 1);
    assert(has_segment(kinds, Segment::Ctrl) == c.ctrl) by {
        if c.ctrl {
            assert(kinds[0] == Segment::Ctrl);
        }
    }
    assert(has_segment(kinds, Segment::Shift) == c.shift) by {
        if c.shift {
            let j = if c.ctrl { 1int } else { 0int };
            assert(kinds[j] == Segment::Shift);
        }
    }
    assert(has_segment(kinds, Segment::Alt) == c.alt) by {
        if c.alt {
            let j = (if c.ctrl { 1int } else { 0int }) + (if c.shift { 1int } else { 0int });
            assert(kinds[j] == Segment::Alt);
        }
    }
    assert(has_segment(kinds, Segment::Logo) == c.logo) by {
        if c.logo {
            let j = (if c.ctrl { 1int } else { 0int }) + (if c.shift { 1int } else { 0int }) + (
            if c.alt { 1int } else { 0int });
            assert(kinds[j] == Segment::Logo);
        }
    }
}

} // verus!

verus! {

/// No chord is bound twice.
pub open spec fn unique_chords(s: Seq<(Chord, Action)>) -> bool {
    forall|i: int, j: int| 0 <= i < j < s.len() ==> (#[trigger] s[i]).0 != (#[trigger] s[j]).0
}

/// The chord-to-action map a list of bindings describes.
pub open spec fn entries_map(s: Seq<(Chord, Action)>) -> Map<Chord, Action> {
    Map::new(
        |c: Chord| exists|i: int| 0 <= i < s.len() && (#[trigger] s[i]).0 == c,
        |c: Chord| s[choose|i: int| 0 <= i < s.len() && (#[trigger] s[i]).0 == c].1,
    )
}

pub proof fn lemma_entries_map_at(s: Seq<(Chord, Action)>, i: int)
    requires
        unique_chords(s),
        0 <= i < s.len(),
    ensures
        entries_map(s).contains_key(s[i].0),
        entries_map(s)[s[i].0] == s[i].1,
{
    let c = s[i].0;
    assert(exists|j: int| 0 <= j < s.len() && (#[trigger] s[j]).0 == c);
    let j = choose|j: int| 0 <= j < s.len() && (#[trigger] s[j]).0 == c;
    if j != i {
        if j < i {
            assert(s[j].0 != s[i].0);
        } else {
            assert(s[i].0 != s[j].0);
        }
    }
}

/// A remappable table of chord -> action bindings.
pub struct Keymap {
    bindings: Vec<(Chord, Action)>,
}

impl View for Keymap {
    type V = Map<Chord, Action>;

    closed spec fn view(&self) -> Map<Chord, Action> {
        entries_map(self.bindings@)
    }
}

impl Keymap {
    #[verifier::type_invariant]
    spec fn inv(&self) -> bool {
        unique_chords(self.bindings@)
    }

    /// A keymap with nothing bound.
    pub fn empty() -> (r: Self)
        ensures
            r@ == Map::<Chord, Action>::empty(),
    {
        let r = Keymap { bindings: Vec::new() };
        assert(r@ =~= Map::<Chord, Action>::empty());
        r
    }

    /// Where `chord` sits in the table, if it is bound.
    fn position(&self, chord: Chord) -> (r: Option<usize>)
        ensures
            r matches Some(i) ==> i < self.bindings@.len() && self.bindings@[i as int].0 == chord,
            r is None ==> forall|i: int|
                0 <= i < self.bindings@.len() ==> (#[trigger] self.bindings@[i]).0 != chord,
    {
        let mut i: usize = 0;
        while i < self.bindings.len()
            invariant
                i <= self.bindings@.len(),
                forall|j: int| 0 <= j < i ==> (#[trigger] self.bindings@[j]).0 != chord,
            decreases self.bindings@.len() - i,
        {
            if self.bindings[i].0 == chord {
                return Some(i);
            }
            i = i + 1;
        }
        None
    }

    /// Binds `chord` to `action`, replacing whatever it was bound to.
    pub fn bind(&mut self, chord: Chord, action: Action)
        ensures
            final(self)@ == old(self)@.insert(chord, action),
    {
        proof {
            use_type_invariant(&*self);
        }
        let ghost s = self.bindings@;
        match self.position(chord) {
            Some(i) => {
                let mut b: Vec<(Chord, Action)> = Vec::new();
                std::mem::swap(&mut b, &mut self.bindings);
                b.set(i, (chord, action));
                proof {
                    let t = b@;
                    assert(t == s.update(i as int, (chord, action)));
                    assert forall|a: int, b: int| 0 <= a < b < t.len() implies (#[trigger] t[a]).0
                        != (#[trigger] t[b]).0 by {
                        assert(s[a].0 != s[b].0);
                    }
                    assert(entries_map(t) =~= entries_map(s).insert(chord, action)) by {
                        lemma_entries_map_at(t, i as int);
                        assert forall|k: Chord| #[trigger]
                            entries_map(t).contains_key(k) <==> entries_map(s).insert(
                                chord,
                                action,
                            ).contains_key(k) by {
                            if entries_map(s).contains_key(k) && k != chord {
                                let j = choose|j: int| 0 <= j < s.len() && (#[trigger] s[j]).0 == k;
                                assert(t[j].0 == k);
                            }
                            if entries_map(t).contains_key(k) && k != chord {
                                let j = choose|j: int| 0 <= j < t.len() && (#[trigger] t[j]).0 == k;
                                assert(s[j].0 == k);
                            }
                        }
                        assert forall|k: Chord| #[trigger]
                            entries_map(t).contains_key(k) && k != chord implies entries_map(t)[k]
                            == entries_map(s)[k] by {
                            let j = choose|j: int| 0 <= j < t.len() && (#[trigger] t[j]).0 == k;
                            lemma_entries_map_at(t, j);
                            lemma_entries_map_at(s, j);
                        }
                    }
                }
                self.bindings = b;
            },
            None => {
                let mut b: Vec<(Chord, Action)> = Vec::new();
                std::mem::swap(&mut b, &mut self.bindings);
                b.push((chord, action));
                proof {
                    let t = b@;
                    assert(t == s.push((chord, action)));
                    assert forall|a: int, b: int| 0 <= a < b < t.len() implies (#[trigger] t[a]).0
                        != (#[trigger] t[b]).0 by {
                        if b < s.len() {
                            assert(s[a].0 != s[b].0);
                        } else {
                            assert(s[a].0 != chord);
                        }
                    }
                    assert(entries_map(t) =~= entries_map(s).insert(chord, action)) by {
                        lemma_entries_map_at(t, s.len() as int);
                        assert forall|k: Chord| #[trigger]
                            entries_map(t).contains_key(k) <==> entries_map(s).insert(
                                chord,
                                action,
                            ).contains_key(k) by {
                            if entries_map(s).contains_key(k) && k != chord {
                                let j = choose|j: int| 0 <= j < s.len() && (#[trigger] s[j]).0 == k;
                                assert(t[j].0 == k);
                            }
                            if entries_map(t).contains_key(k) && k != chord {
                                let j = choose|j: int| 0 <= j < t.len() && (#[trigger] t[j]).0 == k;
                                assert(s[j].0 == k);
                            }
                        }
                        assert forall|k: Chord| #[trigger]
                            entries_map(t).contains_key(k) && k != chord implies entries_map(t)[k]
                            == entries_map(s)[k] by {
                            let j = choose|j: int| 0 <= j < t.len() && (#[trigger] t[j]).0 == k;
                            lemma_entries_map_at(t, j);
                            lemma_entries_map_at(s, j);
                        }
                    }
                }
                self.bindings = b;
            },
        }
    }

    /// Removes whatever `chord` is bound to.
    pub fn unbind(&mut self, chord: Chord)
        ensures
            final(self)@ == old(self)@.remove(chord),
    {
        proof {
            use_type_invariant(&*self);
        }
        let ghost s = self.bindings@;
        match self.position(chord) {
            Some(i) => {
                let mut b: Vec<(Chord, Action)> = Vec::new();
                std::mem::swap(&mut b, &mut self.bindings);
                b.remove(i);
                proof {
                    let t = b@;
                    assert(t == s.remove(i as int));
                    assert forall|a: int, b: int| 0 <= a < b < t.len() implies (#[trigger] t[a]).0
                        != (#[trigger] t[b]).0 by {
                        let a0 = if a < i { a } else { a + 1 };
                        let b0 = if b < i { b } else { b + 1 };
                        assert(s[a0].0 != s[b0].0);
                    }
                    assert(entries_map(t) =~= entries_map(s).remove(chord)) by {
                        assert forall|k: Chord| #[trigger]
                            entries_map(t).contains_key(k) <==> entries_map(s).remove(
                                chord,
                            ).contains_key(k) by {
                            if entries_map(s).contains_key(k) && k != chord {
                                let j = choose|j: int| 0 <= j < s.len() && (#[trigger] s[j]).0 == k;
                                if j < i {
                                    assert(t[j].0 == k);
                                } else {
                                    assert(t[j - 1].0 == k);
                                }
                            }
                            if entries_map(t).contains_key(k) {
                                let j = choose|j: int| 0 <= j < t.len() && (#[trigger] t[j]).0 == k;
                                let j0 = if j < i { j } else { j + 1 };
                                assert(s[j0].0 == k);
                                if k == chord {
                                    if j0 < i {
                                        assert(s[j0].0 != s[i as int].0);
                                    } else {
                                        assert(s[i as int].0 != s[j0].0);
                                    }
                                }
                            }
                        }
                        assert forall|k: Chord| #[trigger]
                            entries_map(t).contains_key(k) implies entries_map(t)[k] == entries_map(
                            s,
                        )[k] by {
                            let j = choose|j: int| 0 <= j < t.len() && (#[trigger] t[j]).0 == k;
                            let j0 = if j < i { j } else { j + 1 };
                            lemma_entries_map_at(t, j);
                            lemma_entries_map_at(s, j0);
                        }
                    }
                }
                self.bindings = b;
            },
            None => {
                proof {
                    assert(entries_map(s) =~= entries_map(s).remove(chord));
                }
            },
        }
    }

    /// The action bound to `chord`, if any.
    pub fn lookup(&self, chord: Chord) -> (r: Option<Action>)
        ensures
            r == (if self@.contains_key(chord) {
                Some(self@[chord])
            } else {
                None
            }),
    {
        proof {
            use_type_invariant(self);
        }
        match self.position(chord) {
            Some(i) => {
                proof {
                    lemma_entries_map_at(self.bindings@, i as int);
                }
                Some(self.bindings[i].1)
            },
            None => None,
        }
    }
}

} // verus!

verus! {

/// A chord with the given key and modifiers.
pub open spec fn chord_of(key: Key, ctrl: bool, shift: bool, alt: bool, logo: bool) -> Chord {
    Chord { key, ctrl, shift, alt, logo }
}

/// The default bindings for a platform that does (`is_macos`) or doesn't
/// use Command as its clipboard modifier.
pub open spec fn default_bindings(is_macos: bool) -> Map<Chord, Action> {
    let common = Map::<Chord, Action>::empty()
        .insert(chord_of(Key::Char('o'), true, true, false, false), Action::Split(Orientation::Horizontal))
        .insert(chord_of(Key::Char('e'), true, true, false, false), Action::Split(Orientation::Vertical))
        .insert(chord_of(Key::Char('w'), true, true, false, false), Action::ClosePane)
        .insert(chord_of(Key::Char('q'), true, true, false, false), Action::Quit)
        .insert(chord_of(Key::Up, false, false, true, false), Action::Focus(Direction::Up))
        .insert(chord_of(Key::Down, false, false, true, false), Action::Focus(Direction::Down))
        .insert(chord_of(Key::Left, false, false, true, false), Action::Focus(Direction::Left))
        .insert(chord_of(Key::Right, false, false, true, false), Action::Focus(Direction::Right))
        .insert(chord_of(Key::Up, true, true, false, false), Action::Resize(Direction::Up))
        .insert(chord_of(Key::Down, true, true, false, false), Action::Resize(Direction::Down))
        .insert(chord_of(Key::Left, true, true, false, false), Action::Resize(Direction::Left))
        .insert(chord_of(Key::Right, true, true, false, false), Action::Resize(Direction::Right))
        .insert(chord_of(Key::Char('x'), true, true, false, false), Action::ToggleZoom)
        .insert(chord_of(Key::Char('='), true, false, false, false), Action::FontSize(FontStep::Increase))
        .insert(chord_of(Key::Char('+'), true, true, false, false), Action::FontSize(FontStep::Increase))
        .insert(chord_of(Key::Char('+'), true, false, false, false), Action::FontSize(FontStep::Increase))
        .insert(chord_of(Key::Char('-'), true, false, false, false), Action::FontSize(FontStep::Decrease))
        .insert(chord_of(Key::Char('-'), true, true, false, false), Action::FontSize(FontStep::Decrease))
        .insert(chord_of(Key::Char('0'), true, false, false, false), Action::ResetFontSize);
    if is_macos {
        common
            .insert(chord_of(Key::Char('c'), false, false, false, true), Action::Copy)
            .insert(chord_of(Key::Char('v'), false, false, false, true), Action::Paste)
            .insert(chord_of(Key::Char('q'), false, false, false, true), Action::Quit)
            .insert(chord_of(Key::Char('w'), false, false, false, true), Action::ClosePane)
    } else {
        common
            .insert(chord_of(Key::Char('c'), true, false, false, false), Action::CopyOrInterrupt)
            .insert(chord_of(Key::Char('v'), true, false, false, false), Action::Paste)
    }
}

impl Keymap {
    /// The default bindings, for a platform that either does or doesn't use
    /// Command as its clipboard modifier.
    ///
    /// Ctrl+Shift+C/V are deliberately not bound on either platform. On
    /// macOS the clipboard lives on Command and Ctrl is left alone; elsewhere
    /// plain Ctrl+C copies a selection or interrupts, and Ctrl+V pastes.
    pub fn defaults_for_platform(is_macos: bool) -> (r: Self)
        ensures
            r@ == default_bindings(is_macos),
    {
        let mut keymap = Self::empty();
        keymap.bind(Chord::new(Key::Char('o')).ctrl().shift(), Action::Split(Orientation::Horizontal));
        keymap.bind(Chord::new(Key::Char('e')).ctrl().shift(), Action::Split(Orientation::Vertical));
        keymap.bind(Chord::new(Key::Char('w')).ctrl().shift(), Action::ClosePane);
        keymap.bind(Chord::new(Key::Char('q')).ctrl().shift(), Action::Quit);
        keymap.bind(Chord::new(Key::Up).alt(), Action::Focus(Direction::Up));
        keymap.bind(Chord::new(Key::Down).alt(), Action::Focus(Direction::Down));
        keymap.bind(Chord::new(Key::Left).alt(), Action::Focus(Direction::Left));
        keymap.bind(Chord::new(Key::Right).alt(), Action::Focus(Direction::Right));
        keymap.bind(Chord::new(Key::Up).ctrl().shift(), Action::Resize(Direction::Up));
        keymap.bind(Chord::new(Key::Down).ctrl().shift(), Action::Resize(Direction::Down));
        keymap.bind(Chord::new(Key::Left).ctrl().shift(), Action::Resize(Direction::Left));
        keymap.bind(Chord::new(Key::Right).ctrl().shift(), Action::Resize(Direction::Right));
        keymap.bind(Chord::new(Key::Char('x')).ctrl().shift(), Action::ToggleZoom);
        keymap.bind(Chord::new(Key::Char('=')).ctrl(), Action::FontSize(FontStep::Increase));
        keymap.bind(Chord::new(Key::Char('+')).ctrl().shift(), Action::FontSize(FontStep::Increase));
        keymap.bind(Chord::new(Key::Char('+')).ctrl(), Action::FontSize(FontStep::Increase));
        keymap.bind(Chord::new(Key::Char('-')).ctrl(), Action::FontSize(FontStep::Decrease));
        keymap.bind(Chord::new(Key::Char('-')).ctrl().shift(), Action::FontSize(FontStep::Decrease));
        keymap.bind(Chord::new(Key::Char('0')).ctrl(), Action::ResetFontSize);
        if is_macos {
            keymap.bind(Chord::new(Key::Char('c')).logo(), Action::Copy);
            keymap.bind(Chord::new(Key::Char('v')).logo(), Action::Paste);
            keymap.bind(Chord::new(Key::Char('q')).logo(), Action::Quit);
            keymap.bind(Chord::new(Key::Char('w')).logo(), Action::ClosePane);
        } else {
            keymap.bind(Chord::new(Key::Char('c')).ctrl(), Action::CopyOrInterrupt);
            keymap.bind(Chord::new(Key::Char('v')).ctrl(), Action::Paste);
        }
        keymap
    }
}

} // verus!

verus! {

impl Keymap {
    /// Every binding in the table, ordered by how its chord prints.
    pub fn bindings(&self) -> (r: Vec<(Chord, Action)>)
        ensures
            unique_chords(r@),
            entries_map(r@) == self@,
            forall|i: int, j: int|
                0 <= i < j < r@.len() ==> seq_le(chord_text(r@[i].0), chord_text(r@[j].0)),
    {
        proof {
            use_type_invariant(self);
        }
        let s = &self.bindings;
        let n = s.len();
        let mut keys: Vec<Vec<char>> = Vec::new();
        let mut i: usize = 0;
        while i < n
            invariant
                n == s@.len(),
                i <= n,
                keys@.len() == i,
                forall|k: int| 0 <= k < i ==> (#[trigger] keys@[k])@ == chord_text(s@[k].0),
            decreases n - i,
        {
            let ws = s[i].0.words();
            keys.push(join_with_spaces(&ws));
            i = i + 1;
        }
        let idx = sorted_order(&keys);
        let mut r: Vec<(Chord, Action)> = Vec::new();
        let mut k: usize = 0;
        while k < n
            invariant
                n == s@.len(),
                k <= n,
                is_permutation(idx@, n as nat),
                r@.len() == k,
                forall|m: int| 0 <= m < k ==> #[trigger] r@[m] == s@[idx@[m] as int],
            decreases n - k,
        {
            r.push(s[idx[k]]);
            k = k + 1;
        }
        proof {
            let t = r@;
            assert forall|a: int, b: int| 0 <= a < b < t.len() implies (#[trigger] t[a]).0 != (
            #[trigger] t[b]).0 by {
                let ia = idx@[a] as int;
                let ib = idx@[b] as int;
                assert(ia != ib);
                if ia < ib {
                    assert(s@[ia].0 != s@[ib].0);
                } else {
                    assert(s@[ib].0 != s@[ia].0);
                }
            }
            assert forall|a: int, b: int| 0 <= a < b < t.len() implies seq_le(
                chord_text(t[a].0),
                chord_text(t[b].0),
            ) by {
                assert(keys@[idx@[a] as int]@ == chord_text(t[a].0));
                assert(keys@[idx@[b] as int]@ == chord_text(t[b].0));
            }
            assert(entries_map(t) =~= entries_map(s@)) by {
                assert forall|c: Chord| #[trigger]
                    entries_map(t).contains_key(c) <==> entries_map(s@).contains_key(c) by {
                    if entries_map(s@).contains_key(c) {
                        let j = choose|j: int| 0 <= j < s@.len() && (#[trigger] s@[j]).0 == c;
                        assert(idx@.contains(j as usize));
                        let m = choose|m: int| 0 <= m < idx@.len() && idx@[m] == j as usize;
                        assert(t[m].0 == c);
                    }
                    if entries_map(t).contains_key(c) {
                        let m = choose|m: int| 0 <= m < t.len() && (#[trigger] t[m]).0 == c;
                        assert(s@[idx@[m] as int].0 == c);
                    }
                }
                assert forall|c: Chord| #[trigger] entries_map(t).contains_key(c) implies entries_map(
                    t,
                )[c] == entries_map(s@)[c] by {
                    let m = choose|m: int| 0 <= m < t.len() && (#[trigger] t[m]).0 == c;
                    lemma_entries_map_at(t, m);
                    lemma_entries_map_at(s@, idx@[m] as int);
                }
            }
        }
        r
    }
}

} // verus!

verus! {

/// One `[keybindings]` line applied to a binding map: an unparseable chord
/// or an unknown action leaves the map alone, `"none"` unbinds the chord,
/// and anything else binds it.
pub open spec fn override_step(m: Map<Chord, Action>, chord: Seq<char>, action: Seq<char>) -> Map<
    Chord,
    Action,
> {
    match parse_chord_spec(chord) {
        None => m,
        Some(c) => if action == "none"@ {
            m.remove(c)
        } else {
            match parse_action_spec(action) {
                None => m,
                Some(a) => m.insert(c, a),
            }
        },
    }
}

/// Every line of `ov` applied in order.
pub open spec fn overrides_applied(m: Map<Chord, Action>, ov: Seq<(Seq<char>, Seq<char>)>) -> Map<
    Chord,
    Action,
>
    decreases ov.len(),
{
    if ov.len() == 0 {
        m
    } else {
        override_step(overrides_applied(m, ov.drop_last()), ov.last().0, ov.last().1)
    }
}

/// The character views of (chord, action) string pairs.
pub open spec fn pairs_view(ov: Seq<(String, String)>) -> Seq<(Seq<char>, Seq<char>)> {
    ov.map_values(|p: (String, String)| (p.0@, p.1@))
}

impl Keymap {
    /// Layers config-file overrides (chord string, action name), in order,
    /// onto this keymap. `"none"` unbinds the chord without a replacement;
    /// an unparseable chord or unknown action is skipped, never fatal.
    ///
    /// The pairs are applied in the order given, so where two spellings
    /// name the same chord the later one wins. The config file's
    /// `[keybindings]` table hands them over as a sorted map does: by chord
    /// string, each string once; callers holding such a map pass its pairs
    /// in that order.
    pub fn apply_overrides(&mut self, overrides: &Vec<(String, String)>)
        ensures
            final(self)@ == overrides_applied(old(self)@, pairs_view(overrides@)),
    {
        let mut i: usize = 0;
        while i < overrides.len()
            invariant
                i <= overrides@.len(),
                self@ == overrides_applied(old(self)@, pairs_view(overrides@).subrange(0, i as int)),
            decreases overrides@.len() - i,
        {
            let ghost before = self@;
            let chord_str = overrides[i].0.as_str();
            let action_str = overrides[i].1.as_str();
            assert(pairs_view(overrides@).subrange(0, i + 1).drop_last() =~= pairs_view(
                overrides@,
            ).subrange(0, i as int));
            assert(pairs_view(overrides@).subrange(0, i + 1).last() == (chord_str@, action_str@));
            match parse_chord(chord_str) {
                None => {},
                Some(chord) => {
                    if str_eq(action_str, "none") {
                        self.unbind(chord);
                    } else {
                        match parse_action(action_str) {
                            None => {},
                            Some(action) => {
                                self.bind(chord, action);
                            },
                        }
                    }
                },
            }
            i = i + 1;
        }
        assert(pairs_view(overrides@).subrange(0, overrides@.len() as int) =~= pairs_view(
            overrides@,
        ));
    }
}

/// Every default binding prints as a chord and an action name that parse
/// back to exactly that binding, on both platforms.
pub proof fn lemma_defaults_round_trip(is_macos: bool, c: Chord)
    requires
        default_bindings(is_macos).contains_key(c),
    ensures
        parse_chord_spec(chord_text(c)) == Some(c),
        parse_action_spec(action_name(default_bindings(is_macos)[c])) == Some(
            default_bindings(is_macos)[c],
        ),
{
    assert(printable_key(c.key));
    lemma_chord_round_trip(c);
    lemma_action_name_round_trip(default_bindings(is_macos)[c]);
}

/// Overrides are layered onto the defaults each time they are applied, so
/// a chord that no override line names keeps exactly the binding it had:
/// deleting a line restores that chord's built-in binding, and a bad line
/// disturbs nothing.
pub proof fn lemma_unmentioned_chord_keeps_binding(
    m: Map<Chord, Action>,
    ov: Seq<(Seq<char>, Seq<char>)>,
    c: Chord,
)
    requires
        forall|i: int| 0 <= i < ov.len() ==> parse_chord_spec(#[trigger] ov[i].0) != Some(c),
    ensures
        overrides_applied(m, ov).contains_key(c) == m.contains_key(c),
        m.contains_key(c) ==> overrides_applied(m, ov)[c] == m[c],
    decreases ov.len(),
{
    if ov.len() > 0 {
        lemma_unmentioned_chord_keeps_binding(m, ov.drop_last(), c);
        assert(parse_chord_spec(ov[ov.len() - 1].0) != Some(c));
    }
}

/// The last line that names a chord decides it: after a line binding `c`
/// to an action, `c` runs that action; after a `none` line, `c` is unbound.
pub proof fn lemma_last_override_wins(
    m: Map<Chord, Action>,
    ov: Seq<(Seq<char>, Seq<char>)>,
    chord: Seq<char>,
    action: Seq<char>,
    c: Chord,
)
    requires
        parse_chord_spec(chord) == Some(c),
    ensures
        action == "none"@ ==> !overrides_applied(m, ov.push((chord, action))).contains_key(c),
        action != "none"@ && parse_action_spec(action) is Some ==> overrides_applied(
            m,
            ov.push((chord, action)),
        ).contains_key(c) && overrides_applied(m, ov.push((chord, action)))[c] == parse_action_spec(
            action,
        )->0,
        action != "none"@ && parse_action_spec(action) is None ==> overrides_applied(
            m,
            ov.push((chord, action)),
        ) == overrides_applied(m, ov),
{
    assert(ov.push((chord, action)).drop_last() =~= ov);
}

/// Each segment of `ws` lowercased.
pub open spec fn lower_all(ws: Seq<Seq<char>>) -> Seq<Seq<char>> {
    ws.map_values(|w: Seq<char>| lower_seq(w))
}

proof fn lemma_lower_push(s: Seq<char>, c: char)
    ensures
        lower_seq(s.push(c)) == lower_seq(s).push(crate::text::ascii_lower(c)),
{
    assert(lower_seq(s.push(c)) =~= lower_seq(s).push(crate::text::ascii_lower(c)));
}

proof fn lemma_lower_all_push(ws: Seq<Seq<char>>, w: Seq<char>)
    ensures
        lower_all(ws.push(w)) == lower_all(ws).push(lower_seq(w)),
{
    assert(lower_all(ws.push(w)) =~= lower_all(ws).push(lower_seq(w)));
}

proof fn lemma_split_state_lower(s: Seq<char>, plus: bool)
    ensures
        split_state(lower_seq(s), plus) == (lower_all(split_state(s, plus).0), lower_seq(
            split_state(s, plus).1,
        )),
    decreases s.len(),
{
    if s.len() == 0 {
        assert(lower_seq(s) =~= seq![]);
        assert(lower_all(seq![]) =~= seq![]);
        assert(lower_seq(seq![]) =~= seq![]);
    } else {
        let l = lower_seq(s);
        assert(l.drop_last() =~= lower_seq(s.drop_last()));
        lemma_split_state_lower(s.drop_last(), plus);
        let c = s.last();
        assert(l.last() == crate::text::ascii_lower(c));
        assert(is_sep(crate::text::ascii_lower(c), plus) == is_sep(c, plus));
        let (done, cur) = split_state(s.drop_last(), plus);
        lemma_lower_push(cur, c);
        lemma_lower_all_push(done, cur);
        assert(lower_seq(seq![]) =~= seq![]);
    }
}

proof fn lemma_split_pieces_lower(s: Seq<char>, plus: bool)
    ensures
        split_pieces(lower_seq(s), plus) == lower_all(split_pieces(s, plus)),
{
    lemma_split_state_lower(s, plus);
    let (done, cur) = split_state(s, plus);
    lemma_lower_all_push(done, cur);
}

proof fn lemma_flatten_lower(ws: Seq<Seq<char>>)
    ensures
        flatten_words(lower_all(ws)) == lower_all(flatten_words(ws)),
    decreases ws.len(),
{
    if ws.len() == 0 {
        assert(lower_all(ws) =~= seq![]);
        assert(lower_all(seq![]) =~= seq![]);
    } else {
        assert(lower_all(ws).drop_last() =~= lower_all(ws.drop_last()));
        lemma_flatten_lower(ws.drop_last());
        let w = ws.last();
        assert(lower_all(ws).last() == lower_seq(w));
        assert(expand_word(lower_seq(w)) == lower_all(expand_word(w))) by {
            if w == seq!['+'] {
                assert(lower_seq(w) =~= seq!['+']);
                assert(lower_all(seq![w]) =~= seq![lower_seq(w)]);
            } else {
                assert(lower_seq(w) != seq!['+']) by {
                    if lower_seq(w) == seq!['+'] {
                        assert(w.len() == 1);
                        assert(w =~= seq!['+']);
                    }
                }
                lemma_split_pieces_lower(w, true);
            }
        }
        assert(lower_all(flatten_words(ws.drop_last()) + expand_word(w)) =~= lower_all(
            flatten_words(ws.drop_last()),
        ) + lower_all(expand_word(w)));
    }
}

/// Chord strings are case-insensitive: lowercasing the ASCII letters of a
/// chord string never changes what it means.
pub proof fn lemma_chords_ignore_case(s: Seq<char>)
    ensures
        parse_chord_spec(lower_seq(s)) == parse_chord_spec(s),
{
    lemma_split_pieces_lower(s, false);
    lemma_flatten_lower(split_pieces(s, false));
    let segs = chord_segments(s);
    assert(chord_segments(lower_seq(s)) == lower_all(segs));
    assert(segment_kinds(lower_seq(s)) =~= segment_kinds(s)) by {
        assert forall|i: int| 0 <= i < segs.len() implies classify(lower_all(segs)[i]) == classify(
            #[trigger] segs[i],
        ) by {
            let w = segs[i];
            assert(lower_seq(lower_seq(w)) =~= lower_seq(w));
        }
    }
}

/// `b` holds the segments of `a` rearranged: `b[i]` is `a[perm[i]]`, and
/// `perm` is a one-to-one correspondence.
pub open spec fn rearranges(a: Seq<Seq<char>>, b: Seq<Seq<char>>, perm: Seq<int>) -> bool {
    &&& a.len() == b.len()
    &&& perm.len() == b.len()
    &&& forall|i: int| 0 <= i < b.len() ==> 0 <= #[trigger] perm[i] < a.len() && b[i] == a[perm[i]]
    &&& forall|i: int, j: int| 0 <= i < j < b.len() ==> #[trigger] perm[i] != #[trigger] perm[j]
    &&& forall|k: int| 0 <= k < a.len() ==> #[trigger] in_image(perm, k)
}

/// Some entry of `perm` is `k`.
pub open spec fn in_image(perm: Seq<int>, k: int) -> bool {
    exists|i: int| 0 <= i < perm.len() && #[trigger] perm[i] == k
}

/// Modifiers may come in any order: two chord strings whose segments are
/// the same up to rearrangement mean the same chord (or are both rejected).
pub proof fn lemma_segment_order_is_irrelevant(s1: Seq<char>, s2: Seq<char>, perm: Seq<int>)
    requires
        rearranges(chord_segments(s1), chord_segments(s2), perm),
    ensures
        parse_chord_spec(s1) == parse_chord_spec(s2),
{
    let a = segment_kinds(s1);
    let b = segment_kinds(s2);
    let sa = chord_segments(s1);
    let sb = chord_segments(s2);
    assert forall|i: int| 0 <= i < b.len() implies b[i] == a[#[trigger] perm[i]] by {
        assert(sb[i] == sa[perm[i]]);
    }
    let valid_a = forall|i: int| 0 <= i < a.len() ==> a[i] != Segment::Invalid;
    let valid_b = forall|i: int| 0 <= i < b.len() ==> b[i] != Segment::Invalid;
    assert(valid_a == valid_b) by {
        if valid_a {
            assert forall|i: int| 0 <= i < b.len() implies b[i] != Segment::Invalid by {
                assert(b[i] == a[perm[i]]);
            }
        }
        if valid_b {
            assert forall|k: int| 0 <= k < a.len() implies a[k] != Segment::Invalid by {
                assert(in_image(perm, k));
                let i = choose|i: int| 0 <= i < perm.len() && #[trigger] perm[i] == k;
                assert(b[i] == a[perm[i]]);
            }
        }
    }
    assert forall|k: Segment| has_segment(a, k) == has_segment(b, k) by {
        if has_segment(a, k) {
            let x = choose|x: int| 0 <= x < a.len() && a[x] == k;
            assert(in_image(perm, x));
            let i = choose|i: int| 0 <= i < perm.len() && #[trigger] perm[i] == x;
            assert(b[i] == a[perm[i]]);
        }
        if has_segment(b, k) {
            let i = choose|i: int| 0 <= i < b.len() && b[i] == k;
            assert(b[i] == a[perm[i]]);
        }
    }
    if has_one_key(a) {
        let x = choose|x: int|
            0 <= x < a.len() && is_key_segment(#[trigger] a[x]) && forall|j: int|
                0 <= j < a.len() && j != x ==> !is_key_segment(#[trigger] a[j]);
        assert(in_image(perm, x));
        let y = choose|i: int| 0 <= i < perm.len() && #[trigger] perm[i] == x;
        assert(b[y] == a[perm[y]]);
        assert forall|j: int| 0 <= j < b.len() && j != y implies !is_key_segment(#[trigger] b[j]) by {
            assert(b[j] == a[perm[j]]);
            if j < y {
                assert(perm[j] != perm[y]);
            } else {
                assert(perm[y] != perm[j]);
            }
        }
        assert(has_one_key(b));
        let ca = choose|i: int| 0 <= i < a.len() && is_key_segment(#[trigger] a[i]);
        let cb = choose|i: int| 0 <= i < b.len() && is_key_segment(#[trigger] b[i]);
        assert(ca == x);
        assert(cb == y);
    } else {
        assert(!has_one_key(b)) by {
            if has_one_key(b) {
                let y = choose|y: int|
                    0 <= y < b.len() && is_key_segment(#[trigger] b[y]) && forall|j: int|
                        0 <= j < b.len() && j != y ==> !is_key_segment(#[trigger] b[j]);
                let x = perm[y];
                assert(b[y] == a[x]);
                assert forall|j: int| 0 <= j < a.len() && j != x implies !is_key_segment(#[trigger] a[j]) by {
                    assert(in_image(perm, j));
                    let i = choose|i: int| 0 <= i < perm.len() && #[trigger] perm[i] == j;
                    assert(b[i] == a[perm[i]]);
                    assert(i != y);
                }
                assert(has_one_key(a));
            }
        }
    }
}


/// No character of `w` separates segments.
spec fn sep_free(w: Seq<char>, plus: bool) -> bool {
    forall|k: int| 0 <= k < w.len() ==> !is_sep(#[trigger] w[k], plus)
}

/// No character of `w` is whitespace.
spec fn white_free(w: Seq<char>) -> bool {
    forall|k: int| 0 <= k < w.len() ==> !is_white_space(#[trigger] w[k])
}

/// A segment as splitting leaves it: a non-empty word without whitespace
/// that is either the plus key or holds no `+`.
spec fn chord_piece(w: Seq<char>) -> bool {
    &&& plain_word(w)
    &&& (w == seq!['+'] || forall|k: int| 0 <= k < w.len() ==> #[trigger] w[k] != '+')
}

proof fn lemma_split_state_words(s: Seq<char>, plus: bool)
    ensures
        forall|i: int|
            0 <= i < split_state(s, plus).0.len() ==> (#[trigger] split_state(s, plus).0[i]).len() > 0
                && sep_free(split_state(s, plus).0[i], plus) && (white_free(s) ==> white_free(
                split_state(s, plus).0[i],
            )),
        sep_free(split_state(s, plus).1, plus),
        white_free(s) ==> white_free(split_state(s, plus).1),
    decreases s.len(),
{
    if s.len() > 0 {
        let prev = s.drop_last();
        lemma_split_state_words(prev, plus);
        let (done, cur) = split_state(prev, plus);
        if white_free(s) {
            assert forall|k: int| 0 <= k < prev.len() implies !is_white_space(#[trigger] prev[k]) by {
                assert(prev[k] == s[k]);
            }
            assert(!is_white_space(s[s.len() - 1]));
        }
        if is_sep(s.last(), plus) {
            if cur.len() > 0 {
                let d = done.push(cur);
                assert forall|i: int| 0 <= i < d.len() implies (#[trigger] d[i]).len() > 0 && sep_free(d[i], plus) && (
                white_free(s) ==> white_free(d[i])) by {
                    if i < done.len() {
                        assert(d[i] == done[i]);
                    }
                }
            }
        } else {
            let c = cur.push(s.last());
            assert forall|k: int| 0 <= k < c.len() implies !is_sep(#[trigger] c[k], plus) by {
                if k < cur.len() {
                    assert(c[k] == cur[k]);
                }
            }
            if white_free(s) {
                assert forall|k: int| 0 <= k < c.len() implies !is_white_space(#[trigger] c[k]) by {
                    if k < cur.len() {
                        assert(c[k] == cur[k]);
                    } else {
                        assert(c[k] == s[s.len() - 1]);
                    }
                }
            }
        }
    }
}

proof fn lemma_split_pieces_words(s: Seq<char>, plus: bool)
    ensures
        forall|i: int|
            0 <= i < split_pieces(s, plus).len() ==> (#[trigger] split_pieces(s, plus)[i]).len() > 0 && sep_free(
                split_pieces(s, plus)[i],
                plus,
            ) && (white_free(s) ==> white_free(split_pieces(s, plus)[i])),
{
    lemma_split_state_words(s, plus);
    let (done, cur) = split_state(s, plus);
    let p = split_pieces(s, plus);
    assert forall|i: int| 0 <= i < p.len() implies (#[trigger] p[i]).len() > 0 && sep_free(p[i], plus) && (
    white_free(s) ==> white_free(p[i])) by {
        if i < done.len() {
            assert(p[i] == done[i]);
        }
    }
}

proof fn lemma_expand_pieces(w: Seq<char>)
    requires
        plain_word(w),
    ensures
        forall|i: int| 0 <= i < expand_word(w).len() ==> chord_piece(#[trigger] expand_word(w)[i]),
{
    if w != seq!['+'] {
        lemma_split_pieces_words(w, true);
        assert(white_free(w));
        let p = split_pieces(w, true);
        assert forall|i: int| 0 <= i < p.len() implies chord_piece(#[trigger] p[i]) by {
            assert(p[i].len() > 0 && sep_free(p[i], true) && white_free(p[i]));
            assert forall|k: int| 0 <= k < p[i].len() implies #[trigger] p[i][k] != '+' by {
                assert(!is_sep(p[i][k], true));
            }
        }
    }
}

proof fn lemma_flatten_pieces(ws: Seq<Seq<char>>)
    requires
        forall|j: int| 0 <= j < ws.len() ==> plain_word(#[trigger] ws[j]),
    ensures
        forall|i: int| 0 <= i < flatten_words(ws).len() ==> chord_piece(#[trigger] flatten_words(ws)[i]),
    decreases ws.len(),
{
    if ws.len() > 0 {
        let prev = ws.drop_last();
        assert forall|j: int| 0 <= j < prev.len() implies plain_word(#[trigger] prev[j]) by {
            assert(prev[j] == ws[j]);
        }
        lemma_flatten_pieces(prev);
        lemma_expand_pieces(ws.last());
        let f = flatten_words(prev);
        let e = expand_word(ws.last());
        assert forall|i: int| 0 <= i < (f + e).len() implies chord_piece(#[trigger] (f + e)[i]) by {
            if i < f.len() {
                assert((f + e)[i] == f[i]);
            } else {
                assert((f + e)[i] == e[i - f.len()]);
            }
        }
    }
}

/// Every segment of a chord string is a non-empty word without whitespace,
/// and either the plus key or free of `+`.
proof fn lemma_chord_segments_are_pieces(s: Seq<char>)
    ensures
        forall|i: int| 0 <= i < chord_segments(s).len() ==> chord_piece(#[trigger] chord_segments(s)[i]),
{
    let ws = split_pieces(s, false);
    lemma_split_pieces_words(s, false);
    assert forall|j: int| 0 <= j < ws.len() implies plain_word(#[trigger] ws[j]) by {
        assert(ws[j].len() > 0 && sep_free(ws[j], false));
        assert forall|k: int| 0 <= k < ws[j].len() implies !is_white_space(#[trigger] ws[j][k]) by {
            assert(!is_sep(ws[j][k], false));
        }
    }
    lemma_flatten_pieces(ws);
}

/// Segments as splitting leaves them, written out with single spaces, split
/// back into the same segments.
proof fn lemma_joined_pieces_split_back(b: Seq<Seq<char>>)
    requires
        forall|i: int| 0 <= i < b.len() ==> chord_piece(#[trigger] b[i]),
    ensures
        chord_segments(join_words(b)) == b,
{
    if b.len() == 0 {
        assert(join_words(b) =~= Seq::<char>::empty());
        assert(split_pieces(Seq::<char>::empty(), false) =~= Seq::<Seq<char>>::empty());
        assert(flatten_words(Seq::<Seq<char>>::empty()) =~= b);
    } else {
        assert forall|i: int| 0 <= i < b.len() implies plain_word(#[trigger] b[i]) by {
            assert(chord_piece(b[i]));
        }
        lemma_split_join(b);
        assert forall|i: int| 0 <= i < b.len() implies expand_word(#[trigger] b[i]) == seq![b[i]] by {
            assert(chord_piece(b[i]));
            lemma_expand_plain_word(b[i]);
        }
        lemma_flatten_plain(b);
    }
}

/// Modifiers may come in any order, separated by spaces: the segments of a
/// chord string, rearranged and written out separated by single spaces,
/// make a string that means the same chord as the original (or is rejected
/// as the original is).
pub proof fn lemma_rearranged_chord_text_means_the_same(s: Seq<char>, b: Seq<Seq<char>>, perm: Seq<int>)
    requires
        rearranges(chord_segments(s), b, perm),
    ensures
        chord_segments(join_words(b)) == b,
        parse_chord_spec(join_words(b)) == parse_chord_spec(s),
{
    let a = chord_segments(s);
    lemma_chord_segments_are_pieces(s);
    assert forall|i: int| 0 <= i < b.len() implies chord_piece(#[trigger] b[i]) by {
        assert(b[i] == a[perm[i]]);
    }
    lemma_joined_pieces_split_back(b);
    lemma_segment_order_is_irrelevant(s, join_words(b), perm);
}

/// A chord that parses has a key that prints back as itself: segments are
/// lowercased and hold no whitespace.
pub proof fn lemma_parsed_chord_is_printable(s: Seq<char>)
    requires
        parse_chord_spec(s) is Some,
    ensures
        printable_key(parse_chord_spec(s)->0.key),
{
    let kinds = segment_kinds(s);
    let segs = chord_segments(s);
    let at = choose|i: int| 0 <= i < kinds.len() && is_key_segment(#[trigger] kinds[i]);
    lemma_chord_segments_are_pieces(s);
    let w = segs[at];
    assert(kinds[at] == classify(w));
    assert(chord_piece(w));
    let l = lower_seq(w);
    if l.len() == 1 {
        let x = w[0];
        assert(l[0] == crate::text::ascii_lower(x));
        assert(!is_white_space(x));
        if is_ascii_upper(x) {
            let y = crate::text::ascii_lower(x);
            assert(y as u32 == (x as u32) + 32);
            assert(!is_ascii_upper(y));
            assert(!is_white_space(y));
        }
    }
}

/// Layering overrides onto a map of printable chords leaves only printable
/// chords: every chord an override adds was parsed.
pub proof fn lemma_overrides_keep_chords_printable(m: Map<Chord, Action>, ov: Seq<(Seq<char>, Seq<char>)>)
    requires
        forall|c: Chord| #[trigger] m.contains_key(c) ==> printable_key(c.key),
    ensures
        forall|c: Chord| #[trigger] overrides_applied(m, ov).contains_key(c) ==> printable_key(c.key),
    decreases ov.len(),
{
    if ov.len() > 0 {
        lemma_overrides_keep_chords_printable(m, ov.drop_last());
        let prev = overrides_applied(m, ov.drop_last());
        if parse_chord_spec(ov.last().0) is Some {
            lemma_parsed_chord_is_printable(ov.last().0);
        }
        assert forall|c: Chord| #[trigger] override_step(prev, ov.last().0, ov.last().1).contains_key(c) implies printable_key(
            c.key,
        ) by {
            if !prev.contains_key(c) {
                assert(parse_chord_spec(ov.last().0) == Some(c));
            }
        }
    }
}

/// Every chord of the default bindings, on either platform, is printable.
pub proof fn lemma_default_chords_printable(is_macos: bool)
    ensures
        forall|c: Chord| #[trigger] default_bindings(is_macos).contains_key(c) ==> printable_key(c.key),
{
    assert forall|c: Chord| #[trigger] default_bindings(is_macos).contains_key(c) implies printable_key(c.key) by {
        lemma_defaults_round_trip(is_macos, c);
    }
}

/// Two printable chords that print alike are the same chord.
pub proof fn lemma_chord_text_injective(a: Chord, b: Chord)
    requires
        printable_key(a.key),
        printable_key(b.key),
        chord_text(a) == chord_text(b),
    ensures
        a == b,
{
    lemma_chord_round_trip(a);
    lemma_chord_round_trip(b);
}

/// The default bindings on every platform: Ctrl+Shift with O and E
/// splits (side by side, one above the other), W closes the pane, Q quits
/// and X zooms; Alt with an arrow focuses the pane in that arrow's
/// direction and Ctrl+Shift with an arrow resizes toward it; Ctrl with `=`
/// or `+` (and Ctrl+Shift with `+`) enlarges the font, Ctrl with `-` (and
/// Ctrl+Shift with `-`) shrinks it, and Ctrl+0 resets it. On macOS Command
/// with C, V, Q and W copies, pastes, quits and closes; elsewhere Ctrl+C
/// copies a selection or interrupts and Ctrl+V pastes. Nothing else is
/// bound.
pub proof fn lemma_default_bindings_listed(is_macos: bool)
    ensures
        default_bindings(is_macos).contains_key(Chord { key: Key::Char('o'), ctrl: true, shift: true, alt: false, logo: false }) && default_bindings(is_macos)[Chord { key: Key::Char('o'), ctrl: true, shift: true, alt: false, logo: false }] == Action::Split(Orientation::Horizontal),
        default_bindings(is_macos).contains_key(Chord { key: Key::Char('e'), ctrl: true, shift: true, alt: false, logo: false }) && default_bindings(is_macos)[Chord { key: Key::Char('e'), ctrl: true, shift: true, alt: false, logo: false }] == Action::Split(Orientation::Vertical),
        default_bindings(is_macos).contains_key(Chord { key: Key::Char('w'), ctrl: true, shift: true, alt: false, logo: false }) && default_bindings(is_macos)[Chord { key: Key::Char('w'), ctrl: true, shift: true, alt: false, logo: false }] == Action::ClosePane,
        default_bindings(is_macos).contains_key(Chord { key: Key::Char('q'), ctrl: true, shift: true, alt: false, logo: false }) && default_bindings(is_macos)[Chord { key: Key::Char('q'), ctrl: true, shift: true, alt: false, logo: false }] == Action::Quit,
        default_bindings(is_macos).contains_key(Chord { key: Key::Char('x'), ctrl: true, shift: true, alt: false, logo: false }) && default_bindings(is_macos)[Chord { key: Key::Char('x'), ctrl: true, shift: true, alt: false, logo: false }] == Action::ToggleZoom,
        default_bindings(is_macos).contains_key(Chord { key: Key::Char('='), ctrl: true, shift: false, alt: false, logo: false }) && default_bindings(is_macos)[Chord { key: Key::Char('='), ctrl: true, shift: false, alt: false, logo: false }] == Action::FontSize(FontStep::Increase),
        default_bindings(is_macos).contains_key(Chord { key: Key::Char('+'), ctrl: true, shift: false, alt: false, logo: false }) && default_bindings(is_macos)[Chord { key: Key::Char('+'), ctrl: true, shift: false, alt: false, logo: false }] == Action::FontSize(FontStep::Increase),
        default_bindings(is_macos).contains_key(Chord { key: Key::Char('+'), ctrl: true, shift: true, alt: false, logo: false }) && default_bindings(is_macos)[Chord { key: Key::Char('+'), ctrl: true, shift: true, alt: false, logo: false }] == Action::FontSize(FontStep::Increase),
        default_bindings(is_macos).contains_key(Chord { key: Key::Char('-'), ctrl: true, shift: false, alt: false, logo: false }) && default_bindings(is_macos)[Chord { key: Key::Char('-'), ctrl: true, shift: false, alt: false, logo: false }] == Action::FontSize(FontStep::Decrease),
        default_bindings(is_macos).contains_key(Chord { key: Key::Char('-'), ctrl: true, shift: true, alt: false, logo: false }) && default_bindings(is_macos)[Chord { key: Key::Char('-'), ctrl: true, shift: true, alt: false, logo: false }] == Action::FontSize(FontStep::Decrease),
        default_bindings(is_macos).contains_key(Chord { key: Key::Char('0'), ctrl: true, shift: false, alt: false, logo: false }) && default_bindings(is_macos)[Chord { key: Key::Char('0'), ctrl: true, shift: false, alt: false, logo: false }] == Action::ResetFontSize,
        default_bindings(is_macos).contains_key(Chord { key: Key::Up, ctrl: false, shift: false, alt: true, logo: false }) && default_bindings(is_macos)[Chord { key: Key::Up, ctrl: false, shift: false, alt: true, logo: false }] == Action::Focus(Direction::Up),
        default_bindings(is_macos).contains_key(Chord { key: Key::Up, ctrl: true, shift: true, alt: false, logo: false }) && default_bindings(is_macos)[Chord { key: Key::Up, ctrl: true, shift: true, alt: false, logo: false }] == Action::Resize(Direction::Up),
        default_bindings(is_macos).contains_key(Chord { key: Key::Down, ctrl: false, shift: false, alt: true, logo: false }) && default_bindings(is_macos)[Chord { key: Key::Down, ctrl: false, shift: false, alt: true, logo: false }] == Action::Focus(Direction::Down),
        default_bindings(is_macos).contains_key(Chord { key: Key::Down, ctrl: true, shift: true, alt: false, logo: false }) && default_bindings(is_macos)[Chord { key: Key::Down, ctrl: true, shift: true, alt: false, logo: false }] == Action::Resize(Direction::Down),
        default_bindings(is_macos).contains_key(Chord { key: Key::Left, ctrl: false, shift: false, alt: true, logo: false }) && default_bindings(is_macos)[Chord { key: Key::Left, ctrl: false, shift: false, alt: true, logo: false }] == Action::Focus(Direction::Left),
        default_bindings(is_macos).contains_key(Chord { key: Key::Left, ctrl: true, shift: true, alt: false, logo: false }) && default_bindings(is_macos)[Chord { key: Key::Left, ctrl: true, shift: true, alt: false, logo: false }] == Action::Resize(Direction::Left),
        default_bindings(is_macos).contains_key(Chord { key: Key::Right, ctrl: false, shift: false, alt: true, logo: false }) && default_bindings(is_macos)[Chord { key: Key::Right, ctrl: false, shift: false, alt: true, logo: false }] == Action::Focus(Direction::Right),
        default_bindings(is_macos).contains_key(Chord { key: Key::Right, ctrl: true, shift: true, alt: false, logo: false }) && default_bindings(is_macos)[Chord { key: Key::Right, ctrl: true, shift: true, alt: false, logo: false }] == Action::Resize(Direction::Right),
        is_macos ==> default_bindings(is_macos).contains_key(Chord { key: Key::Char('c'), ctrl: false, shift: false, alt: false, logo: true }) && default_bindings(is_macos)[Chord { key: Key::Char('c'), ctrl: false, shift: false, alt: false, logo: true }] == Action::Copy,
        is_macos ==> default_bindings(is_macos).contains_key(Chord { key: Key::Char('v'), ctrl: false, shift: false, alt: false, logo: true }) && default_bindings(is_macos)[Chord { key: Key::Char('v'), ctrl: false, shift: false, alt: false, logo: true }] == Action::Paste,
        is_macos ==> default_bindings(is_macos).contains_key(Chord { key: Key::Char('q'), ctrl: false, shift: false, alt: false, logo: true }) && default_bindings(is_macos)[Chord { key: Key::Char('q'), ctrl: false, shift: false, alt: false, logo: true }] == Action::Quit,
        is_macos ==> default_bindings(is_macos).contains_key(Chord { key: Key::Char('w'), ctrl: false, shift: false, alt: false, logo: true }) && default_bindings(is_macos)[Chord { key: Key::Char('w'), ctrl: false, shift: false, alt: false, logo: true }] == Action::ClosePane,
        !is_macos ==> default_bindings(is_macos).contains_key(Chord { key: Key::Char('c'), ctrl: true, shift: false, alt: false, logo: false }) && default_bindings(is_macos)[Chord { key: Key::Char('c'), ctrl: true, shift: false, alt: false, logo: false }] == Action::CopyOrInterrupt,
        !is_macos ==> default_bindings(is_macos).contains_key(Chord { key: Key::Char('v'), ctrl: true, shift: false, alt: false, logo: false }) && default_bindings(is_macos)[Chord { key: Key::Char('v'), ctrl: true, shift: false, alt: false, logo: false }] == Action::Paste,
        is_macos ==> default_bindings(is_macos).dom() == set![
            Chord { key: Key::Char('o'), ctrl: true, shift: true, alt: false, logo: false },
            Chord { key: Key::Char('e'), ctrl: true, shift: true, alt: false, logo: false },
            Chord { key: Key::Char('w'), ctrl: true, shift: true, alt: false, logo: false },
            Chord { key: Key::Char('q'), ctrl: true, shift: true, alt: false, logo: false },
            Chord { key: Key::Char('x'), ctrl: true, shift: true, alt: false, logo: false },
            Chord { key: Key::Char('='), ctrl: true, shift: false, alt: false, logo: false },
            Chord { key: Key::Char('+'), ctrl: true, shift: false, alt: false, logo: false },
            Chord { key: Key::Char('+'), ctrl: true, shift: true, alt: false, logo: false },
            Chord { key: Key::Char('-'), ctrl: true, shift: false, alt: false, logo: false },
            Chord { key: Key::Char('-'), ctrl: true, shift: true, alt: false, logo: false },
            Chord { key: Key::Char('0'), ctrl: true, shift: false, alt: false, logo: false },
            Chord { key: Key::Up, ctrl: false, shift: false, alt: true, logo: false },
            Chord { key: Key::Up, ctrl: true, shift: true, alt: false, logo: false },
            Chord { key: Key::Down, ctrl: false, shift: false, alt: true, logo: false },
            Chord { key: Key::Down, ctrl: true, shift: true, alt: false, logo: false },
            Chord { key: Key::Left, ctrl: false, shift: false, alt: true, logo: false },
            Chord { key: Key::Left, ctrl: true, shift: true, alt: false, logo: false },
            Chord { key: Key::Right, ctrl: false, shift: false, alt: true, logo: false },
            Chord { key: Key::Right, ctrl: true, shift: true, alt: false, logo: false },
            Chord { key: Key::Char('c'), ctrl: false, shift: false, alt: false, logo: true },
            Chord { key: Key::Char('v'), ctrl: false, shift: false, alt: false, logo: true },
            Chord { key: Key::Char('q'), ctrl: false, shift: false, alt: false, logo: true },
            Chord { key: Key::Char('w'), ctrl: false, shift: false, alt: false, logo: true },
        ],
        !is_macos ==> default_bindings(is_macos).dom() == set![
            Chord { key: Key::Char('o'), ctrl: true, shift: true, alt: false, logo: false },
            Chord { key: Key::Char('e'), ctrl: true, shift: true, alt: false, logo: false },
            Chord { key: Key::Char('w'), ctrl: true, shift: true, alt: false, logo: false },
            Chord { key: Key::Char('q'), ctrl: true, shift: true, alt: false, logo: false },
            Chord { key: Key::Char('x'), ctrl: true, shift: true, alt: false, logo: false },
            Chord { key: Key::Char('='), ctrl: true, shift: false, alt: false, logo: false },
            Chord { key: Key::Char('+'), ctrl: true, shift: false, alt: false, logo: false },
            Chord { key: Key::Char('+'), ctrl: true, shift: true, alt: false, logo: false },
            Chord { key: Key::Char('-'), ctrl: true, shift: false, alt: false, logo: false },
            Chord { key: Key::Char('-'), ctrl: true, shift: true, alt: false, logo: false },
            Chord { key: Key::Char('0'), ctrl: true, shift: false, alt: false, logo: false },
            Chord { key: Key::Up, ctrl: false, shift: false, alt: true, logo: false },
            Chord { key: Key::Up, ctrl: true, shift: true, alt: false, logo: false },
            Chord { key: Key::Down, ctrl: false, shift: false, alt: true, logo: false },
            Chord { key: Key::Down, ctrl: true, shift: true, alt: false, logo: false },
            Chord { key: Key::Left, ctrl: false, shift: false, alt: true, logo: false },
            Chord { key: Key::Left, ctrl: true, shift: true, alt: false, logo: false },
            Chord { key: Key::Right, ctrl: false, shift: false, alt: true, logo: false },
            Chord { key: Key::Right, ctrl: true, shift: true, alt: false, logo: false },
            Chord { key: Key::Char('c'), ctrl: true, shift: false, alt: false, logo: false },
            Chord { key: Key::Char('v'), ctrl: true, shift: false, alt: false, logo: false },
        ],
{
    let d = default_bindings(is_macos);
    if is_macos {
        assert(d.dom() =~= set![
            Chord { key: Key::Char('o'), ctrl: true, shift: true, alt: false, logo: false },
            Chord { key: Key::Char('e'), ctrl: true, shift: true, alt: false, logo: false },
            Chord { key: Key::Char('w'), ctrl: true, shift: true, alt: false, logo: false },
            Chord { key: Key::Char('q'), ctrl: true, shift: true, alt: false, logo: false },
            Chord { key: Key::Char('x'), ctrl: true, shift: true, alt: false, logo: false },
            Chord { key: Key::Char('='), ctrl: true, shift: false, alt: false, logo: false },
            Chord { key: Key::Char('+'), ctrl: true, shift: false, alt: false, logo: false },
            Chord { key: Key::Char('+'), ctrl: true, shift: true, alt: false, logo: false },
            Chord { key: Key::Char('-'), ctrl: true, shift: false, alt: false, logo: false },
            Chord { key: Key::Char('-'), ctrl: true, shift: true, alt: false, logo: false },
            Chord { key: Key::Char('0'), ctrl: true, shift: false, alt: false, logo: false },
            Chord { key: Key::Up, ctrl: false, shift: false, alt: true, logo: false },
            Chord { key: Key::Up, ctrl: true, shift: true, alt: false, logo: false },
            Chord { key: Key::Down, ctrl: false, shift: false, alt: true, logo: false },
            Chord { key: Key::Down, ctrl: true, shift: true, alt: false, logo: false },
            Chord { key: Key::Left, ctrl: false, shift: false, alt: true, logo: false },
            Chord { key: Key::Left, ctrl: true, shift: true, alt: false, logo: false },
            Chord { key: Key::Right, ctrl: false, shift: false, alt: true, logo: false },
            Chord { key: Key::Right, ctrl: true, shift: true, alt: false, logo: false },
            Chord { key: Key::Char('c'), ctrl: false, shift: false, alt: false, logo: true },
            Chord { key: Key::Char('v'), ctrl: false, shift: false, alt: false, logo: true },
            Chord { key: Key::Char('q'), ctrl: false, shift: false, alt: false, logo: true },
            Chord { key: Key::Char('w'), ctrl: false, shift: false, alt: false, logo: true },
        ]);
    } else {
        assert(d.dom() =~= set![
            Chord { key: Key::Char('o'), ctrl: true, shift: true, alt: false, logo: false },
            Chord { key: Key::Char('e'), ctrl: true, shift: true, alt: false, logo: false },
            Chord { key: Key::Char('w'), ctrl: true, shift: true, alt: false, logo: false },
            Chord { key: Key::Char('q'), ctrl: true, shift: true, alt: false, logo: false },
            Chord { key: Key::Char('x'), ctrl: true, shift: true, alt: false, logo: false },
            Chord { key: Key::Char('='), ctrl: true, shift: false, alt: false, logo: false },
            Chord { key: Key::Char('+'), ctrl: true, shift: false, alt: false, logo: false },
            Chord { key: Key::Char('+'), ctrl: true, shift: true, alt: false, logo: false },
            Chord { key: Key::Char('-'), ctrl: true, shift: false, alt: false, logo: false },
            Chord { key: Key::Char('-'), ctrl: true, shift: true, alt: false, logo: false },
            Chord { key: Key::Char('0'), ctrl: true, shift: false, alt: false, logo: false },
            Chord { key: Key::Up, ctrl: false, shift: false, alt: true, logo: false },
            Chord { key: Key::Up, ctrl: true, shift: true, alt: false, logo: false },
            Chord { key: Key::Down, ctrl: false, shift: false, alt: true, logo: false },
            Chord { key: Key::Down, ctrl: true, shift: true, alt: false, logo: false },
            Chord { key: Key::Left, ctrl: false, shift: false, alt: true, logo: false },
            Chord { key: Key::Left, ctrl: true, shift: true, alt: false, logo: false },
            Chord { key: Key::Right, ctrl: false, shift: false, alt: true, logo: false },
            Chord { key: Key::Right, ctrl: true, shift: true, alt: false, logo: false },
            Chord { key: Key::Char('c'), ctrl: true, shift: false, alt: false, logo: false },
            Chord { key: Key::Char('v'), ctrl: true, shift: false, alt: false, logo: false },
        ]);
    }
}

/// The actions go by these names in `[keybindings]`, and by no others:
/// every name an action has parses back to that action.
pub proof fn lemma_action_names()
    ensures
        parse_action_spec("split_horizontal"@) == Some(Action::Split(Orientation::Horizontal)),
        parse_action_spec("split_vertical"@) == Some(Action::Split(Orientation::Vertical)),
        parse_action_spec("close_pane"@) == Some(Action::ClosePane),
        parse_action_spec("quit"@) == Some(Action::Quit),
        parse_action_spec("focus_up"@) == Some(Action::Focus(Direction::Up)),
        parse_action_spec("focus_down"@) == Some(Action::Focus(Direction::Down)),
        parse_action_spec("focus_left"@) == Some(Action::Focus(Direction::Left)),
        parse_action_spec("focus_right"@) == Some(Action::Focus(Direction::Right)),
        parse_action_spec("resize_up"@) == Some(Action::Resize(Direction::Up)),
        parse_action_spec("resize_down"@) == Some(Action::Resize(Direction::Down)),
        parse_action_spec("resize_left"@) == Some(Action::Resize(Direction::Left)),
        parse_action_spec("resize_right"@) == Some(Action::Resize(Direction::Right)),
        parse_action_spec("toggle_zoom"@) == Some(Action::ToggleZoom),
        parse_action_spec("broadcast_off"@) == Some(Action::SetBroadcastMode(BroadcastMode::Off)),
        parse_action_spec("broadcast_group"@) == Some(Action::SetBroadcastMode(BroadcastMode::Group)),
        parse_action_spec("broadcast_all"@) == Some(Action::SetBroadcastMode(BroadcastMode::All)),
        parse_action_spec("copy"@) == Some(Action::Copy),
        parse_action_spec("copy_or_interrupt"@) == Some(Action::CopyOrInterrupt),
        parse_action_spec("paste"@) == Some(Action::Paste),
        parse_action_spec("font_size_increase"@) == Some(Action::FontSize(FontStep::Increase)),
        parse_action_spec("font_size_decrease"@) == Some(Action::FontSize(FontStep::Decrease)),
        parse_action_spec("font_size_reset"@) == Some(Action::ResetFontSize),
        forall|a: Action| #[trigger] parse_action_spec(action_name(a)) == Some(a),
{
    lemma_action_name_round_trip(Action::Split(Orientation::Horizontal));
    lemma_action_name_round_trip(Action::Split(Orientation::Vertical));
    lemma_action_name_round_trip(Action::ClosePane);
    lemma_action_name_round_trip(Action::Quit);
    lemma_action_name_round_trip(Action::Focus(Direction::Up));
    lemma_action_name_round_trip(Action::Focus(Direction::Down));
    lemma_action_name_round_trip(Action::Focus(Direction::Left));
    lemma_action_name_round_trip(Action::Focus(Direction::Right));
    lemma_action_name_round_trip(Action::Resize(Direction::Up));
    lemma_action_name_round_trip(Action::Resize(Direction::Down));
    lemma_action_name_round_trip(Action::Resize(Direction::Left));
    lemma_action_name_round_trip(Action::Resize(Direction::Right));
    lemma_action_name_round_trip(Action::ToggleZoom);
    lemma_action_name_round_trip(Action::SetBroadcastMode(BroadcastMode::Off));
    lemma_action_name_round_trip(Action::SetBroadcastMode(BroadcastMode::Group));
    lemma_action_name_round_trip(Action::SetBroadcastMode(BroadcastMode::All));
    lemma_action_name_round_trip(Action::Copy);
    lemma_action_name_round_trip(Action::CopyOrInterrupt);
    lemma_action_name_round_trip(Action::Paste);
    lemma_action_name_round_trip(Action::FontSize(FontStep::Increase));
    lemma_action_name_round_trip(Action::FontSize(FontStep::Decrease));
    lemma_action_name_round_trip(Action::ResetFontSize);
    assert forall|a: Action| #[trigger] parse_action_spec(action_name(a)) == Some(a) by {
        lemma_action_name_round_trip(a);
    }
}

/// What a chord segment means, in any ASCII case: `ctrl` or `control` is
/// Ctrl; `shift` is Shift; `alt` is Alt; `logo`, `super`, `cmd`, `win` and
/// `windows` are the logo key; `up`, `down`, `left` and `right` are the
/// arrows; `space`, `plus`, `minus` and `equals` (or `equal`) are those
/// characters; any other single character is that character, lowercased;
/// anything else is no segment at all.
pub proof fn lemma_segment_words(w: Seq<char>)
    ensures
        lower_seq(w) == "ctrl"@ ==> classify(w) == Segment::Ctrl,
        lower_seq(w) == "control"@ ==> classify(w) == Segment::Ctrl,
        lower_seq(w) == "shift"@ ==> classify(w) == Segment::Shift,
        lower_seq(w) == "alt"@ ==> classify(w) == Segment::Alt,
        lower_seq(w) == "logo"@ ==> classify(w) == Segment::Logo,
        lower_seq(w) == "super"@ ==> classify(w) == Segment::Logo,
        lower_seq(w) == "cmd"@ ==> classify(w) == Segment::Logo,
        lower_seq(w) == "win"@ ==> classify(w) == Segment::Logo,
        lower_seq(w) == "windows"@ ==> classify(w) == Segment::Logo,
        lower_seq(w) == "up"@ ==> classify(w) == Segment::KeyName(Key::Up),
        lower_seq(w) == "down"@ ==> classify(w) == Segment::KeyName(Key::Down),
        lower_seq(w) == "left"@ ==> classify(w) == Segment::KeyName(Key::Left),
        lower_seq(w) == "right"@ ==> classify(w) == Segment::KeyName(Key::Right),
        lower_seq(w) == "space"@ ==> classify(w) == Segment::KeyName(Key::Char(' ')),
        lower_seq(w) == "plus"@ ==> classify(w) == Segment::KeyName(Key::Char('+')),
        lower_seq(w) == "minus"@ ==> classify(w) == Segment::KeyName(Key::Char('-')),
        lower_seq(w) == "equals"@ ==> classify(w) == Segment::KeyName(Key::Char('=')),
        lower_seq(w) == "equal"@ ==> classify(w) == Segment::KeyName(Key::Char('=')),
        lower_seq(w).len() == 1 ==> classify(w) == Segment::KeyName(Key::Char(crate::text::ascii_lower(w[0]))),
        lower_seq(w).len() > 1 && !(exists|n: int| 0 <= n < segment_words().len() && #[trigger] segment_words()[n] == lower_seq(w))
            ==> classify(w) == Segment::Invalid,
{
    reveal_strlit("ctrl");
    reveal_strlit("control");
    reveal_strlit("shift");
    reveal_strlit("alt");
    reveal_strlit("logo");
    reveal_strlit("super");
    reveal_strlit("cmd");
    reveal_strlit("win");
    reveal_strlit("windows");
    reveal_strlit("up");
    reveal_strlit("down");
    reveal_strlit("left");
    reveal_strlit("right");
    reveal_strlit("space");
    reveal_strlit("plus");
    reveal_strlit("minus");
    reveal_strlit("equals");
    reveal_strlit("equal");
    let l = lower_seq(w);
    if l == "ctrl"@ {

    }
    if l == "control"@ {
        assert("control"@.len() != "ctrl"@.len());
    }
    if l == "shift"@ {
        assert("shift"@.len() != "ctrl"@.len());
        assert("shift"@.len() != "control"@.len());
    }
    if l == "alt"@ {
        assert("alt"@.len() != "ctrl"@.len());
        assert("alt"@.len() != "control"@.len());
        assert("alt"@.len() != "shift"@.len());
    }
    if l == "logo"@ {
        assert("logo"@[0] != "ctrl"@[0]);
        assert("logo"@.len() != "control"@.len());
        assert("logo"@.len() != "shift"@.len());
        assert("logo"@.len() != "alt"@.len());
    }
    if l == "super"@ {
        assert("super"@.len() != "ctrl"@.len());
        assert("super"@.len() != "control"@.len());
        assert("super"@[1] != "shift"@[1]);
        assert("super"@.len() != "alt"@.len());
        assert("super"@.len() != "logo"@.len());
    }
    if l == "cmd"@ {
        assert("cmd"@.len() != "ctrl"@.len());
        assert("cmd"@.len() != "control"@.len());
        assert("cmd"@.len() != "shift"@.len());
        assert("cmd"@[0] != "alt"@[0]);
        assert("cmd"@.len() != "logo"@.len());
        assert("cmd"@.len() != "super"@.len());
    }
    if l == "win"@ {
        assert("win"@.len() != "ctrl"@.len());
        assert("win"@.len() != "control"@.len());
        assert("win"@.len() != "shift"@.len());
        assert("win"@[0] != "alt"@[0]);
        assert("win"@.len() != "logo"@.len());
        assert("win"@.len() != "super"@.len());
        assert("win"@[0] != "cmd"@[0]);
    }
    if l == "windows"@ {
        assert("windows"@.len() != "ctrl"@.len());
        assert("windows"@[0] != "control"@[0]);
        assert("windows"@.len() != "shift"@.len());
        assert("windows"@.len() != "alt"@.len());
        assert("windows"@.len() != "logo"@.len());
        assert("windows"@.len() != "super"@.len());
        assert("windows"@.len() != "cmd"@.len());
        assert("windows"@.len() != "win"@.len());
    }
    if l == "up"@ {
        assert("up"@.len() != "ctrl"@.len());
        assert("up"@.len() != "control"@.len());
        assert("up"@.len() != "shift"@.len());
        assert("up"@.len() != "alt"@.len());
        assert("up"@.len() != "logo"@.len());
        assert("up"@.len() != "super"@.len());
        assert("up"@.len() != "cmd"@.len());
        assert("up"@.len() != "win"@.len());
        assert("up"@.len() != "windows"@.len());
    }
    if l == "down"@ {
        assert("down"@[0] != "ctrl"@[0]);
        assert("down"@.len() != "control"@.len());
        assert("down"@.len() != "shift"@.len());
        assert("down"@.len() != "alt"@.len());
        assert("down"@[0] != "logo"@[0]);
        assert("down"@.len() != "super"@.len());
        assert("down"@.len() != "cmd"@.len());
        assert("down"@.len() != "win"@.len());
        assert("down"@.len() != "windows"@.len());
        assert("down"@.len() != "up"@.len());
    }
    if l == "left"@ {
        assert("left"@[0] != "ctrl"@[0]);
        assert("left"@.len() != "control"@.len());
        assert("left"@.len() != "shift"@.len());
        assert("left"@.len() != "alt"@.len());
        assert("left"@[1] != "logo"@[1]);
        assert("left"@.len() != "super"@.len());
        assert("left"@.len() != "cmd"@.len());
        assert("left"@.len() != "win"@.len());
        assert("left"@.len() != "windows"@.len());
        assert("left"@.len() != "up"@.len());
        assert("left"@[0] != "down"@[0]);
    }
    if l == "right"@ {
        assert("right"@.len() != "ctrl"@.len());
        assert("right"@.len() != "control"@.len());
        assert("right"@[0] != "shift"@[0]);
        assert("right"@.len() != "alt"@.len());
        assert("right"@.len() != "logo"@.len());
        assert("right"@[0] != "super"@[0]);
        assert("right"@.len() != "cmd"@.len());
        assert("right"@.len() != "win"@.len());
        assert("right"@.len() != "windows"@.len());
        assert("right"@.len() != "up"@.len());
        assert("right"@.len() != "down"@.len());
        assert("right"@.len() != "left"@.len());
    }
    if l == "space"@ {
        assert("space"@.len() != "ctrl"@.len());
        assert("space"@.len() != "control"@.len());
        assert("space"@[1] != "shift"@[1]);
        assert("space"@.len() != "alt"@.len());
        assert("space"@.len() != "logo"@.len());
        assert("space"@[1] != "super"@[1]);
        assert("space"@.len() != "cmd"@.len());
        assert("space"@.len() != "win"@.len());
        assert("space"@.len() != "windows"@.len());
        assert("space"@.len() != "up"@.len());
        assert("space"@.len() != "down"@.len());
        assert("space"@.len() != "left"@.len());
        assert("space"@[0] != "right"@[0]);
    }
    if l == "plus"@ {
        assert("plus"@[0] != "ctrl"@[0]);
        assert("plus"@.len() != "control"@.len());
        assert("plus"@.len() != "shift"@.len());
        assert("plus"@.len() != "alt"@.len());
        assert("plus"@[0] != "logo"@[0]);
        assert("plus"@.len() != "super"@.len());
        assert("plus"@.len() != "cmd"@.len());
        assert("plus"@.len() != "win"@.len());
        assert("plus"@.len() != "windows"@.len());
        assert("plus"@.len() != "up"@.len());
        assert("plus"@[0] != "down"@[0]);
        assert("plus"@[0] != "left"@[0]);
        assert("plus"@.len() != "right"@.len());
        assert("plus"@.len() != "space"@.len());
    }
    if l == "minus"@ {
        assert("minus"@.len() != "ctrl"@.len());
        assert("minus"@.len() != "control"@.len());
        assert("minus"@[0] != "shift"@[0]);
        assert("minus"@.len() != "alt"@.len());
        assert("minus"@.len() != "logo"@.len());
        assert("minus"@[0] != "super"@[0]);
        assert("minus"@.len() != "cmd"@.len());
        assert("minus"@.len() != "win"@.len());
        assert("minus"@.len() != "windows"@.len());
        assert("minus"@.len() != "up"@.len());
        assert("minus"@.len() != "down"@.len());
        assert("minus"@.len() != "left"@.len());
        assert("minus"@[0] != "right"@[0]);
        assert("minus"@[0] != "space"@[0]);
        assert("minus"@.len() != "plus"@.len());
    }
    if l == "equals"@ {
        assert("equals"@.len() != "ctrl"@.len());
        assert("equals"@.len() != "control"@.len());
        assert("equals"@.len() != "shift"@.len());
        assert("equals"@.len() != "alt"@.len());
        assert("equals"@.len() != "logo"@.len());
        assert("equals"@.len() != "super"@.len());
        assert("equals"@.len() != "cmd"@.len());
        assert("equals"@.len() != "win"@.len());
        assert("equals"@.len() != "windows"@.len());
        assert("equals"@.len() != "up"@.len());
        assert("equals"@.len() != "down"@.len());
        assert("equals"@.len() != "left"@.len());
        assert("equals"@.len() != "right"@.len());
        assert("equals"@.len() != "space"@.len());
        assert("equals"@.len() != "plus"@.len());
        assert("equals"@.len() != "minus"@.len());
    }
    if l == "equal"@ {
        assert("equal"@.len() != "ctrl"@.len());
        assert("equal"@.len() != "control"@.len());
        assert("equal"@[0] != "shift"@[0]);
        assert("equal"@.len() != "alt"@.len());
        assert("equal"@.len() != "logo"@.len());
        assert("equal"@[0] != "super"@[0]);
        assert("equal"@.len() != "cmd"@.len());
        assert("equal"@.len() != "win"@.len());
        assert("equal"@.len() != "windows"@.len());
        assert("equal"@.len() != "up"@.len());
        assert("equal"@.len() != "down"@.len());
        assert("equal"@.len() != "left"@.len());
        assert("equal"@[0] != "right"@[0]);
        assert("equal"@[0] != "space"@[0]);
        assert("equal"@.len() != "plus"@.len());
        assert("equal"@[0] != "minus"@[0]);
        assert("equal"@.len() != "equals"@.len());
    }
    if l.len() > 1 && !(exists|n: int| 0 <= n < segment_words().len() && #[trigger] segment_words()[n] == l) {
        assert(segment_words()[0] == "ctrl"@);
        assert(segment_words()[1] == "control"@);
        assert(segment_words()[2] == "shift"@);
        assert(segment_words()[3] == "alt"@);
        assert(segment_words()[4] == "logo"@);
        assert(segment_words()[5] == "super"@);
        assert(segment_words()[6] == "cmd"@);
        assert(segment_words()[7] == "win"@);
        assert(segment_words()[8] == "windows"@);
        assert(segment_words()[9] == "up"@);
        assert(segment_words()[10] == "down"@);
        assert(segment_words()[11] == "left"@);
        assert(segment_words()[12] == "right"@);
        assert(segment_words()[13] == "space"@);
        assert(segment_words()[14] == "plus"@);
        assert(segment_words()[15] == "minus"@);
        assert(segment_words()[16] == "equals"@);
        assert(segment_words()[17] == "equal"@);
    }
}

/// Every word a chord segment can be, besides a single character.
pub open spec fn segment_words() -> Seq<Seq<char>> {
    seq!["ctrl"@, "control"@, "shift"@, "alt"@, "logo"@, "super"@, "cmd"@, "win"@, "windows"@, "up"@, "down"@, "left"@, "right"@, "space"@, "plus"@, "minus"@, "equals"@, "equal"@]
}

/// A chord prints as its modifiers in a fixed order (`ctrl`, `shift`,
/// `alt`, `cmd`), each followed by a space, then its key: an arrow by name,
/// the space bar as `space`, and any other key as its character.
pub proof fn lemma_chord_text_shape(c: Chord)
    ensures
        chord_text(c) == (if c.ctrl { "ctrl "@ } else { seq![] }) + (if c.shift { "shift "@ } else { seq![] }) + (
        if c.alt { "alt "@ } else { seq![] }) + (if c.logo { "cmd "@ } else { seq![] }) + key_text(c.key),
        key_text(Key::Up) == "up"@,
        key_text(Key::Down) == "down"@,
        key_text(Key::Left) == "left"@,
        key_text(Key::Right) == "right"@,
        key_text(Key::Char(' ')) == "space"@,
        forall|ch: char| ch != ' ' ==> #[trigger] key_text(Key::Char(ch)) == seq![ch],
{
    reveal_strlit("ctrl");
    reveal_strlit("shift");
    reveal_strlit("alt");
    reveal_strlit("cmd");
    reveal_strlit("ctrl ");
    reveal_strlit("shift ");
    reveal_strlit("alt ");
    reveal_strlit("cmd ");
    let m1: Seq<Seq<char>> = if c.ctrl { seq!["ctrl"@] } else { seq![] };
    let m2: Seq<Seq<char>> = if c.shift { seq!["shift"@] } else { seq![] };
    let m3: Seq<Seq<char>> = if c.alt { seq!["alt"@] } else { seq![] };
    let m4: Seq<Seq<char>> = if c.logo { seq!["cmd"@] } else { seq![] };
    let mods = m1 + m2 + m3 + m4;
    assert(chord_words(c) =~= mods.push(key_text(c.key)));
    lemma_join_after_spaced(mods, key_text(c.key));
    lemma_spaced_append(m1 + m2 + m3, m4);
    lemma_spaced_append(m1 + m2, m3);
    lemma_spaced_append(m1, m2);
    assert(spaced(seq!["ctrl"@]) =~= "ctrl "@) by {
        assert(seq!["ctrl"@].drop_last() =~= Seq::<Seq<char>>::empty());
        assert(seq!["ctrl"@].last() == "ctrl"@);
        assert(spaced(seq!["ctrl"@]) == spaced(Seq::<Seq<char>>::empty()) + "ctrl"@ + seq![' ']);
    }
    assert(spaced(seq!["shift"@]) =~= "shift "@) by {
        assert(seq!["shift"@].drop_last() =~= Seq::<Seq<char>>::empty());
        assert(seq!["shift"@].last() == "shift"@);
        assert(spaced(seq!["shift"@]) == spaced(Seq::<Seq<char>>::empty()) + "shift"@ + seq![' ']);
    }
    assert(spaced(seq!["alt"@]) =~= "alt "@) by {
        assert(seq!["alt"@].drop_last() =~= Seq::<Seq<char>>::empty());
        assert(seq!["alt"@].last() == "alt"@);
        assert(spaced(seq!["alt"@]) == spaced(Seq::<Seq<char>>::empty()) + "alt"@ + seq![' ']);
    }
    assert(spaced(seq!["cmd"@]) =~= "cmd "@) by {
        assert(seq!["cmd"@].drop_last() =~= Seq::<Seq<char>>::empty());
        assert(seq!["cmd"@].last() == "cmd"@);
        assert(spaced(seq!["cmd"@]) == spaced(Seq::<Seq<char>>::empty()) + "cmd"@ + seq![' ']);
    }
    assert(spaced(Seq::<Seq<char>>::empty()) =~= Seq::<char>::empty());
}

/// Each of `ws` followed by a space, one after another.
pub open spec fn spaced(ws: Seq<Seq<char>>) -> Seq<char>
    decreases ws.len(),
{
    if ws.len() == 0 {
        seq![]
    } else {
        spaced(ws.drop_last()) + ws.last() + seq![' ']
    }
}

proof fn lemma_join_after_spaced(ws: Seq<Seq<char>>, x: Seq<char>)
    ensures
        join_words(ws.push(x)) == spaced(ws) + x,
    decreases ws.len(),
{
    if ws.len() == 0 {
        assert(ws.push(x) =~= seq![x]);
        assert(spaced(ws) + x =~= x);
    } else {
        assert(ws.push(x).drop_last() =~= ws);
        let dl = ws.drop_last();
        lemma_join_after_spaced(dl, ws.last());
        assert(dl.push(ws.last()) =~= ws);
        assert(join_words(ws.push(x)) =~= spaced(ws) + x);
    }
}

proof fn lemma_spaced_append(a: Seq<Seq<char>>, b: Seq<Seq<char>>)
    ensures
        spaced(a + b) == spaced(a) + spaced(b),
    decreases b.len(),
{
    if b.len() == 0 {
        assert(a + b =~= a);
        assert(spaced(a) + spaced(b) =~= spaced(a));
    } else {
        assert((a + b).drop_last() =~= a + b.drop_last());
        assert((a + b).last() == b.last());
        lemma_spaced_append(a, b.drop_last());
        assert(spaced(a + b) =~= spaced(a) + spaced(b));
    }
}

/// One override line: a chord string that does not parse changes nothing;
/// otherwise the action `none` unbinds the chord, an action name binds the
/// chord to that action (replacing what it had), and an unknown action name
/// changes nothing.
pub proof fn lemma_override_line(m: Map<Chord, Action>, chord: Seq<char>, action: Seq<char>)
    ensures
        parse_chord_spec(chord) is None ==> override_step(m, chord, action) == m,
        parse_chord_spec(chord) is Some && action == seq!['n', 'o', 'n', 'e'] ==> override_step(m, chord, action)
            == m.remove(parse_chord_spec(chord)->0),
        parse_chord_spec(chord) is Some && action != seq!['n', 'o', 'n', 'e'] && parse_action_spec(action) is Some
            ==> override_step(m, chord, action) == m.insert(parse_chord_spec(chord)->0, parse_action_spec(action)->0),
        parse_chord_spec(chord) is Some && action != seq!['n', 'o', 'n', 'e'] && parse_action_spec(action) is None
            ==> override_step(m, chord, action) == m,
        parse_action_spec(seq!['n', 'o', 'n', 'e']) is None,
{
    reveal_strlit("none");
    assert("none"@ =~= seq!['n', 'o', 'n', 'e']);
    lemma_action_names();
    if parse_action_spec(seq!['n', 'o', 'n', 'e']) is Some {
        let a = parse_action_spec(seq!['n', 'o', 'n', 'e'])->0;
        assert(action_name(a) == seq!['n', 'o', 'n', 'e']);
        reveal_strlit("split_horizontal");
        reveal_strlit("split_vertical");
        reveal_strlit("close_pane");
        reveal_strlit("quit");
        reveal_strlit("focus_up");
        reveal_strlit("focus_down");
        reveal_strlit("focus_left");
        reveal_strlit("focus_right");
        reveal_strlit("resize_up");
        reveal_strlit("resize_down");
        reveal_strlit("resize_left");
        reveal_strlit("resize_right");
        reveal_strlit("toggle_zoom");
        reveal_strlit("broadcast_off");
        reveal_strlit("broadcast_group");
        reveal_strlit("broadcast_all");
        reveal_strlit("copy");
        reveal_strlit("copy_or_interrupt");
        reveal_strlit("paste");
        reveal_strlit("font_size_increase");
        reveal_strlit("font_size_decrease");
        reveal_strlit("font_size_reset");
        assert(action_name(a)[0] == 'n');
    }
}

} // verus!
