//! Encodes a key press into the bytes a terminal sends to the program
//! running in the pane.
//!
//! This is the xterm-compatible encoding every terminal emulator
//! implements. Two encodings coexist, chosen per keypress by the pane's
//! current mode:
//!
//! - **Legacy** — the default, and what every program understands. Cursor
//!   and editing keys are CSI sequences, control characters are the C0
//!   bytes, Alt is an ESC prefix. It cannot represent many combinations at
//!   all: `Shift+Enter`, `Ctrl+Enter` and plain `Enter` all collapse to a
//!   single carriage return.
//! - **Kitty keyboard protocol** — the modern fix for exactly that
//!   ambiguity, which a program turns on explicitly (`CSI > flags u`).
//!
//! Which one applies is never a preference: it is whatever the foreground
//! program asked for.

use vstd::prelude::*;
use vstd::string::*;
use vstd::utf8::*;

use crate::text::{ascii_lower, chars_of, is_ascii_upper};

verus! {

/// The keys with a name rather than a character that the encoding treats
/// specially. Every other named key (bare modifiers, media keys, ...) is
/// `Other`.
#[derive(Debug, Clone, Copy, PartialEq, Eq, Structural)]
pub enum NamedKey {
    ArrowUp,
    ArrowDown,
    ArrowLeft,
    ArrowRight,
    Home,
    End,
    Insert,
    Delete,
    PageUp,
    PageDown,
    F1,
    F2,
    F3,
    F4,
    F5,
    F6,
    F7,
    F8,
    F9,
    F10,
    F11,
    F12,
    Tab,
    Enter,
    Backspace,
    Escape,
    Space,
    CapsLock,
    ScrollLock,
    NumLock,
    PrintScreen,
    Pause,
    ContextMenu,
    Other,
}

/// The logical key of a press: a named key, the text a character key
/// produces, or something with neither.
pub enum LogicalKey {
    Named(NamedKey),
    Character(String),
    Unidentified,
}

/// The modifier keys held during a press.
#[derive(Debug, Clone, Copy, PartialEq, Eq, Structural)]
pub struct Modifiers {
    pub shift: bool,
    pub alt: bool,
    pub ctrl: bool,
    /// Super/Command/Windows.
    pub logo: bool,
}

/// Whether a key went down or came up.
#[derive(Debug, Clone, Copy, PartialEq, Eq, Structural)]
pub enum ElementState {
    Pressed,
    Released,
}

/// The parts of a key event the encoding depends on.
pub struct Press {
    pub key: LogicalKey,
    /// What the OS composed for this key, if anything — the source of truth
    /// for ordinary typing, including dead keys and IME commits.
    pub text: Option<String>,
    pub state: ElementState,
    /// Whether this is the OS repeating a held key.
    pub repeat: bool,
}

/// The terminal modes the encoding reads.
#[derive(Debug, Clone, Copy, PartialEq, Eq, Structural)]
pub struct TermMode {
    /// Application cursor keys (DECCKM).
    pub app_cursor: bool,
    /// Kitty protocol: disambiguate escape codes.
    pub disambiguate_esc_codes: bool,
    /// Kitty protocol: report press, repeat and release.
    pub report_event_types: bool,
    /// Kitty protocol: report every key as an escape code.
    pub report_all_keys_as_esc: bool,
    /// Kitty protocol: report the text a key produces.
    pub report_associated_text: bool,
}

/// xterm's modifier parameter: Shift 1, Alt 2, Ctrl 4, Super 8, plus one,
/// so that "no modifiers" is 1. `CSI 1;5C` is Ctrl+Right.
pub open spec fn modifier_param_spec(m: Modifiers) -> int {
    1 + (if m.shift { 1int } else { 0 }) + (if m.alt { 2int } else { 0 }) + (if m.ctrl { 4int } else { 0 })
        + (if m.logo { 8int } else { 0 })
}

/// The modifier parameter of `m`.
pub fn modifier_param(m: Modifiers) -> (r: u8)
    ensures
        r as int == modifier_param_spec(m),
{
    let mut bits: u8 = 0;
    if m.shift {
        bits = bits + 1;
    }
    if m.alt {
        bits = bits + 2;
    }
    if m.ctrl {
        bits = bits + 4;
    }
    if m.logo {
        bits = bits + 8;
    }
    bits + 1
}

/// The shape of a functional key's escape sequence.
#[derive(Debug, Clone, Copy, PartialEq, Eq, Structural)]
pub enum Sequence {
    /// `CSI <letter>`, or `SS3 <letter>` in application cursor mode.
    Letter(u8),
    /// `CSI <number> ~`.
    Numbered(u8),
}

/// The escape-sequence form of a named key, or `None` for keys that have
/// a single-byte encoding of their own or no terminal meaning at all. The
/// function keypad's numbering skips 16, 22, 27, 30 and 35, as every
/// terminal since the VT220 does.
pub open spec fn sequence_spec(k: NamedKey) -> Option<Sequence> {
    match k {
        NamedKey::ArrowUp => Some(Sequence::Letter(65)),
        NamedKey::ArrowDown => Some(Sequence::Letter(66)),
        NamedKey::ArrowRight => Some(Sequence::Letter(67)),
        NamedKey::ArrowLeft => Some(Sequence::Letter(68)),
        NamedKey::Home => Some(Sequence::Letter(72)),
        NamedKey::End => Some(Sequence::Letter(70)),
        NamedKey::F1 => Some(Sequence::Letter(80)),
        NamedKey::F2 => Some(Sequence::Letter(81)),
        NamedKey::F3 => Some(Sequence::Letter(82)),
        NamedKey::F4 => Some(Sequence::Letter(83)),
        NamedKey::Insert => Some(Sequence::Numbered(2)),
        NamedKey::Delete => Some(Sequence::Numbered(3)),
        NamedKey::PageUp => Some(Sequence::Numbered(5)),
        NamedKey::PageDown => Some(Sequence::Numbered(6)),
        NamedKey::F5 => Some(Sequence::Numbered(15)),
        NamedKey::F6 => Some(Sequence::Numbered(17)),
        NamedKey::F7 => Some(Sequence::Numbered(18)),
        NamedKey::F8 => Some(Sequence::Numbered(19)),
        NamedKey::F9 => Some(Sequence::Numbered(20)),
        NamedKey::F10 => Some(Sequence::Numbered(21)),
        NamedKey::F11 => Some(Sequence::Numbered(23)),
        NamedKey::F12 => Some(Sequence::Numbered(24)),
        _ => None,
    }
}

/// The escape-sequence form of `k`.
pub fn sequence(k: NamedKey) -> (r: Option<Sequence>)
    ensures
        r == sequence_spec(k),
{
    match k {
        NamedKey::ArrowUp => Some(Sequence::Letter(65)),
        NamedKey::ArrowDown => Some(Sequence::Letter(66)),
        NamedKey::ArrowRight => Some(Sequence::Letter(67)),
        NamedKey::ArrowLeft => Some(Sequence::Letter(68)),
        NamedKey::Home => Some(Sequence::Letter(72)),
        NamedKey::End => Some(Sequence::Letter(70)),
        NamedKey::F1 => Some(Sequence::Letter(80)),
        NamedKey::F2 => Some(Sequence::Letter(81)),
        NamedKey::F3 => Some(Sequence::Letter(82)),
        NamedKey::F4 => Some(Sequence::Letter(83)),
        NamedKey::Insert => Some(Sequence::Numbered(2)),
        NamedKey::Delete => Some(Sequence::Numbered(3)),
        NamedKey::PageUp => Some(Sequence::Numbered(5)),
        NamedKey::PageDown => Some(Sequence::Numbered(6)),
        NamedKey::F5 => Some(Sequence::Numbered(15)),
        NamedKey::F6 => Some(Sequence::Numbered(17)),
        NamedKey::F7 => Some(Sequence::Numbered(18)),
        NamedKey::F8 => Some(Sequence::Numbered(19)),
        NamedKey::F9 => Some(Sequence::Numbered(20)),
        NamedKey::F10 => Some(Sequence::Numbered(21)),
        NamedKey::F11 => Some(Sequence::Numbered(23)),
        NamedKey::F12 => Some(Sequence::Numbered(24)),
        _ => None,
    }
}

/// The letters application cursor mode applies to: the arrows, `Home`
/// and `End`.
pub open spec fn is_cursor_letter(letter: u8) -> bool {
    letter == 65 || letter == 66 || letter == 67 || letter == 68 || letter == 72 || letter == 70
}

/// Whether a `Letter` sequence is one of the keys application cursor mode
/// applies to.
pub fn is_cursor_key(letter: u8) -> (r: bool)
    ensures
        r == is_cursor_letter(letter),
{
    letter == 65 || letter == 66 || letter == 67 || letter == 68 || letter == 72 || letter == 70
}

/// The C0 control byte `Ctrl` produces with `c`: the letters are 1..26,
/// the rest is the character with bit 6 cleared, and the digits 2-8 stand
/// in for the shifted characters they share a key with.
pub open spec fn control_byte_spec(c: char) -> Option<u8> {
    if 'a' <= c && c <= 'z' {
        Some((c as u32 - 96) as u8)
    } else if 'A' <= c && c <= 'Z' {
        Some((c as u32 - 64) as u8)
    } else if c == ' ' || c == '@' || c == '2' {
        Some(0x00)
    } else if c == '[' || c == '3' {
        Some(0x1b)
    } else if c == '\\' || c == '4' {
        Some(0x1c)
    } else if c == ']' || c == '5' {
        Some(0x1d)
    } else if c == '^' || c == '6' {
        Some(0x1e)
    } else if c == '_' || c == '7' || c == '/' {
        Some(0x1f)
    } else if c == '8' {
        Some(0x7f)
    } else {
        None
    }
}

/// The C0 control byte `Ctrl` produces with `c`, if any.
pub fn control_byte(c: char) -> (r: Option<u8>)
    ensures
        r == control_byte_spec(c),
{
    if 'a' <= c && c <= 'z' {
        Some((c as u32 - 96) as u8)
    } else if 'A' <= c && c <= 'Z' {
        Some((c as u32 - 64) as u8)
    } else if c == ' ' || c == '@' || c == '2' {
        Some(0x00)
    } else if c == '[' || c == '3' {
        Some(0x1b)
    } else if c == '\\' || c == '4' {
        Some(0x1c)
    } else if c == ']' || c == '5' {
        Some(0x1d)
    } else if c == '^' || c == '6' {
        Some(0x1e)
    } else if c == '_' || c == '7' || c == '/' {
        Some(0x1f)
    } else if c == '8' {
        Some(0x7f)
    } else {
        None
    }
}

/// The single character a character key carries, or `None` for a
/// multi-character string (a dead-key composition or an IME commit) or a
/// key that isn't a character at all.
pub open spec fn single_char_spec(key: LogicalKey) -> Option<char> {
    match key {
        LogicalKey::Character(s) => if s@.len() == 1 {
            Some(s@[0])
        } else {
            None
        },
        _ => None,
    }
}

/// The single character `key` carries, if it carries exactly one.
pub fn single_char(key: &LogicalKey) -> (r: Option<char>)
    ensures
        r == single_char_spec(*key),
{
    match key {
        LogicalKey::Character(s) => {
            let chars = chars_of(s.as_str());
            if chars.len() == 1 {
                Some(chars[0])
            } else {
                None
            }
        },
        _ => None,
    }
}

/// The decimal digits of `n` as ASCII bytes, without leading zeros.
pub open spec fn decimal_bytes(n: nat) -> Seq<u8>
    decreases n,
{
    if n < 10 {
        seq![(48 + n) as u8]
    } else {
        decimal_bytes(n / 10).push((48 + n % 10) as u8)
    }
}

/// Appends the decimal digits of `n`.
fn push_decimal(out: &mut Vec<u8>, n: u64)
    ensures
        final(out)@ == old(out)@ + decimal_bytes(n as nat),
    decreases n,
{
    if n >= 10 {
        push_decimal(out, n / 10);
    }
    let d: u8 = (n % 10) as u8;
    out.push(48 + d);
    assert(out@ =~= old(out)@ + decimal_bytes(n as nat)) by {
        if n >= 10 {
            assert(decimal_bytes(n as nat) == decimal_bytes((n / 10) as nat).push((48 + n % 10) as u8));
        }
    }
}

/// Appends the UTF-8 encoding of `s`.
fn push_text(out: &mut Vec<u8>, s: &str)
    ensures
        final(out)@ == old(out)@ + encode_utf8(s@),
{
    let bytes = s.as_bytes();
    let ghost base = out@;
    let mut i: usize = 0;
    while i < bytes.len()
        invariant
            bytes@ == encode_utf8(s@),
            i <= bytes@.len(),
            out@ =~= base + bytes@.subrange(0, i as int),
        decreases bytes@.len() - i,
    {
        out.push(bytes[i]);
        i = i + 1;
    }
    assert(bytes@.subrange(0, bytes@.len() as int) =~= bytes@);
}

/// The text of an optional string, by its characters.
pub open spec fn text_view(text: Option<String>) -> Option<Seq<char>> {
    match text {
        Some(t) => Some(t@),
        None => None,
    }
}

/// `bytes`, after ESC when Alt is held — "Meta sends Escape".
pub open spec fn with_alt_spec(bytes: Seq<u8>, m: Modifiers) -> Seq<u8> {
    if m.alt {
        seq![27u8] + bytes
    } else {
        bytes
    }
}

/// `CSI 1 ; <param> <letter>`: a modified letter key.
pub open spec fn modified_letter(letter: u8, param: int) -> Seq<u8> {
    seq![27u8, 91u8, 49u8, 59u8] + decimal_bytes(param as nat) + seq![letter]
}

/// `CSI <number> ~`, with `; <param>` before the `~` when modified.
pub open spec fn numbered_sequence(number: u8, param: int) -> Seq<u8> {
    if param > 1 {
        seq![27u8, 91u8] + decimal_bytes(number as nat) + seq![59u8] + decimal_bytes(param as nat) + seq![
            126u8,
        ]
    } else {
        seq![27u8, 91u8] + decimal_bytes(number as nat) + seq![126u8]
    }
}

/// A letter key under the legacy encoding: the parameterized CSI form when
/// modified (SS3 has no parameter field), SS3 for a cursor key in
/// application cursor mode, CSI for other cursor keys, and SS3 for F1-F4.
pub open spec fn legacy_letter(letter: u8, param: int, app_cursor: bool) -> Seq<u8> {
    if param > 1 {
        modified_letter(letter, param)
    } else if is_cursor_letter(letter) && app_cursor {
        seq![27u8, 79u8, letter]
    } else if is_cursor_letter(letter) {
        seq![27u8, 91u8, letter]
    } else {
        seq![27u8, 79u8, letter]
    }
}

/// The bytes for a named key under the legacy encoding, or `None` when it
/// has no terminal meaning of its own.
///
/// Shift+Tab is back-tab; Enter cannot carry a modifier; Backspace is DEL
/// and Ctrl+Backspace is BS, which line editors read as "kill word".
pub open spec fn legacy_named(k: NamedKey, m: Modifiers, mode: TermMode) -> Option<Seq<u8>> {
    let param = modifier_param_spec(m);
    if k == NamedKey::Tab && m.shift {
        Some(seq![27u8, 91u8, 90u8])
    } else if k == NamedKey::Tab {
        Some(with_alt_spec(seq![9u8], m))
    } else if k == NamedKey::Enter {
        Some(with_alt_spec(seq![13u8], m))
    } else if k == NamedKey::Backspace && m.ctrl {
        Some(with_alt_spec(seq![8u8], m))
    } else if k == NamedKey::Backspace {
        Some(with_alt_spec(seq![127u8], m))
    } else if k == NamedKey::Escape {
        Some(with_alt_spec(seq![27u8], m))
    } else if k == NamedKey::Space && m.ctrl {
        Some(with_alt_spec(seq![0u8], m))
    } else {
        match sequence_spec(k) {
            Some(Sequence::Letter(letter)) => Some(legacy_letter(letter, param, mode.app_cursor)),
            Some(Sequence::Numbered(number)) => Some(numbered_sequence(number, param)),
            None => None,
        }
    }
}

/// The named key `key` is, if it is one.
pub open spec fn named_of(key: LogicalKey) -> Option<NamedKey> {
    match key {
        LogicalKey::Named(k) => Some(k),
        _ => None,
    }
}

/// The composed text, as bytes, when there is any.
pub open spec fn literal_text(text: Option<Seq<char>>) -> Option<Seq<u8>> {
    match text {
        Some(t) => if t.len() > 0 {
            Some(encode_utf8(t))
        } else {
            None
        },
        None => None,
    }
}

/// The xterm-compatible encoding of a press. Super is never an input
/// modifier here; a named key with a meaning of its own is encoded as
/// such; Ctrl with a character that has a control byte sends it, and Alt
/// sends ESC before the key's own text (or its character); everything else
/// is the OS's composed text, literally.
pub open spec fn legacy_spec(press: Press, m: Modifiers, mode: TermMode) -> Option<Seq<u8>> {
    if m.logo {
        None
    } else if named_of(press.key) matches Some(k) && legacy_named(k, m, mode) is Some {
        legacy_named(named_of(press.key)->0, m, mode)
    } else {
        match single_char_spec(press.key) {
            Some(c) => if m.ctrl && control_byte_spec(c) is Some {
                Some(with_alt_spec(seq![control_byte_spec(c)->0], m))
            } else if m.alt {
                Some(
                    with_alt_spec(
                        match press.text {
                            Some(t) => encode_utf8(t@),
                            None => encode_utf8(seq![c]),
                        },
                        m,
                    ),
                )
            } else {
                literal_text(text_view(press.text))
            },
            None => literal_text(text_view(press.text)),
        }
    }
}

fn with_alt(bytes: Vec<u8>, m: Modifiers) -> (r: Vec<u8>)
    ensures
        r@ == with_alt_spec(bytes@, m),
{
    if !m.alt {
        return bytes;
    }
    let mut prefixed: Vec<u8> = Vec::new();
    prefixed.push(27);
    let mut i: usize = 0;
    while i < bytes.len()
        invariant
            i <= bytes@.len(),
            prefixed@ =~= seq![27u8] + bytes@.subrange(0, i as int),
        decreases bytes@.len() - i,
    {
        prefixed.push(bytes[i]);
        i = i + 1;
    }
    assert(bytes@.subrange(0, bytes@.len() as int) =~= bytes@);
    prefixed
}

fn one_byte(b: u8) -> (r: Vec<u8>)
    ensures
        r@ == seq![b],
{
    let mut v: Vec<u8> = Vec::new();
    v.push(b);
    assert(v@ =~= seq![b]);
    v
}

fn modified_letter_bytes(letter: u8, param: u8) -> (r: Vec<u8>)
    ensures
        r@ == modified_letter(letter, param as int),
{
    let mut v: Vec<u8> = Vec::new();
    v.push(27);
    v.push(91);
    v.push(49);
    v.push(59);
    push_decimal(&mut v, param as u64);
    v.push(letter);
    assert(v@ =~= modified_letter(letter, param as int));
    v
}

fn numbered_bytes(number: u8, param: u8) -> (r: Vec<u8>)
    ensures
        r@ == numbered_sequence(number, param as int),
{
    let mut v: Vec<u8> = Vec::new();
    v.push(27);
    v.push(91);
    push_decimal(&mut v, number as u64);
    if param > 1 {
        v.push(59);
        push_decimal(&mut v, param as u64);
    }
    v.push(126);
    assert(v@ =~= numbered_sequence(number, param as int));
    v
}

fn three_bytes(a: u8, b: u8, c: u8) -> (r: Vec<u8>)
    ensures
        r@ == seq![a, b, c],
{
    let mut v: Vec<u8> = Vec::new();
    v.push(a);
    v.push(b);
    v.push(c);
    assert(v@ =~= seq![a, b, c]);
    v
}

/// The bytes for a named key under the legacy encoding.
pub fn legacy_named_key(k: NamedKey, m: Modifiers, mode: TermMode) -> (r: Option<Vec<u8>>)
    ensures
        match legacy_named(k, m, mode) {
            Some(b) => r matches Some(v) && v@ == b,
            None => r is None,
        },
{
    let param = modifier_param(m);
    match k {
        NamedKey::Tab => {
            if m.shift {
                return Some(three_bytes(27, 91, 90));
            }
            return Some(with_alt(one_byte(9), m));
        },
        NamedKey::Enter => return Some(with_alt(one_byte(13), m)),
        NamedKey::Backspace => {
            if m.ctrl {
                return Some(with_alt(one_byte(8), m));
            }
            return Some(with_alt(one_byte(127), m));
        },
        NamedKey::Escape => return Some(with_alt(one_byte(27), m)),
        NamedKey::Space => {
            if m.ctrl {
                return Some(with_alt(one_byte(0), m));
            }
        },
        _ => {},
    }
    match sequence(k) {
        Some(Sequence::Letter(letter)) => {
            if param > 1 {
                Some(modified_letter_bytes(letter, param))
            } else if is_cursor_key(letter) && mode.app_cursor {
                Some(three_bytes(27, 79, letter))
            } else if is_cursor_key(letter) {
                Some(three_bytes(27, 91, letter))
            } else {
                Some(three_bytes(27, 79, letter))
            }
        },
        Some(Sequence::Numbered(number)) => Some(numbered_bytes(number, param)),
        None => None,
    }
}

fn text_bytes(s: &str) -> (r: Vec<u8>)
    ensures
        r@ == encode_utf8(s@),
{
    let mut v: Vec<u8> = Vec::new();
    push_text(&mut v, s);
    assert(v@ =~= encode_utf8(s@));
    v
}

fn literal(text: &Option<String>) -> (r: Option<Vec<u8>>)
    ensures
        match literal_text(text_view(*text)) {
            Some(b) => r matches Some(v) && v@ == b,
            None => r is None,
        },
{
    match text {
        Some(t) => {
            if !t.as_str().is_empty() {
                Some(text_bytes(t.as_str()))
            } else {
                None
            }
        },
        None => None,
    }
}

/// The legacy, xterm-compatible encoding of a press.
pub fn legacy_encode(press: &Press, m: Modifiers, mode: TermMode) -> (r: Option<Vec<u8>>)
    ensures
        match legacy_spec(*press, m, mode) {
            Some(b) => r matches Some(v) && v@ == b,
            None => r is None,
        },
{
    if m.logo {
        return None;
    }
    if let LogicalKey::Named(k) = &press.key {
        if let Some(bytes) = legacy_named_key(*k, m, mode) {
            return Some(bytes);
        }
    }
    if let Some(c) = single_char(&press.key) {
        if m.ctrl {
            if let Some(byte) = control_byte(c) {
                return Some(with_alt(one_byte(byte), m));
            }
        }
        if m.alt {
            let bytes = match &press.text {
                Some(t) => text_bytes(t.as_str()),
                None => {
                    let mut one = String::new();
                    crate::text::push_char(&mut one, c);
                    text_bytes(one.as_str())
                },
            };
            return Some(with_alt(bytes, m));
        }
    }
    literal(&press.text)
}

/// The kitty protocol's event type: 1 press, 2 repeat, 3 release.
pub open spec fn event_type_spec(press: Press) -> int {
    match press.state {
        ElementState::Released => 3,
        ElementState::Pressed => if press.repeat {
            2
        } else {
            1
        },
    }
}

/// A letter key under the kitty protocol, which keeps the legacy sequence
/// for keys that were never ambiguous: modified CSI, SS3 for a cursor key
/// in application cursor mode, CSI otherwise.
pub open spec fn kitty_letter(letter: u8, param: int, app_cursor: bool) -> Seq<u8> {
    if param > 1 {
        modified_letter(letter, param)
    } else if is_cursor_letter(letter) && app_cursor {
        seq![27u8, 79u8, letter]
    } else {
        seq![27u8, 91u8, letter]
    }
}

/// The protocol's key number for a named key: the legacy control byte for
/// the four special keys, the space character, and the private-use block
/// for the rest.
pub open spec fn named_code(k: NamedKey) -> Option<nat> {
    match k {
        NamedKey::Enter => Some(13),
        NamedKey::Tab => Some(9),
        NamedKey::Escape => Some(27),
        NamedKey::Backspace => Some(127),
        NamedKey::Space => Some(32),
        NamedKey::Insert => Some(57348),
        NamedKey::Delete => Some(57349),
        NamedKey::PageUp => Some(57354),
        NamedKey::PageDown => Some(57355),
        NamedKey::ArrowUp => Some(57352),
        NamedKey::ArrowDown => Some(57353),
        NamedKey::ArrowLeft => Some(57350),
        NamedKey::ArrowRight => Some(57351),
        NamedKey::Home => Some(57356),
        NamedKey::End => Some(57357),
        NamedKey::CapsLock => Some(57358),
        NamedKey::ScrollLock => Some(57359),
        NamedKey::NumLock => Some(57360),
        NamedKey::PrintScreen => Some(57361),
        NamedKey::Pause => Some(57362),
        NamedKey::ContextMenu => Some(57363),
        NamedKey::F1 => Some(57364),
        NamedKey::F2 => Some(57365),
        NamedKey::F3 => Some(57366),
        NamedKey::F4 => Some(57367),
        NamedKey::F5 => Some(57368),
        NamedKey::F6 => Some(57369),
        NamedKey::F7 => Some(57370),
        NamedKey::F8 => Some(57371),
        NamedKey::F9 => Some(57372),
        NamedKey::F10 => Some(57373),
        NamedKey::F11 => Some(57374),
        NamedKey::F12 => Some(57375),
        NamedKey::Other => None,
    }
}

/// The first character of `c`'s lowercase mapping.
pub uninterp spec fn lowercase_first(c: char) -> char;

/// `char::to_lowercase`, first character: std yields the lowercase mapping
/// of `c` as one or more characters, or `c` itself when it has none. Of an
/// ASCII character that mapping is stated here (`A`-`Z` to `a`-`z`, every
/// other ASCII character unchanged); of the rest only that it is the named
/// mapping of `c`.
#[verifier::external_body]
fn to_lowercase_first(c: char) -> (r: char)
    ensures
        r == lowercase_first(c),
        (c as u32) < 128 ==> r == ascii_lower(c),
{
    c.to_lowercase().next().unwrap_or(c)
}

/// The protocol's key number: the codepoint of a character key's
/// unshifted (lowercase) character, or the number the protocol assigns a
/// named key. An ASCII letter is lowered to its small form and any other
/// ASCII character is its own key; beyond ASCII the key is the first
/// character of the character's lowercase mapping.
pub open spec fn key_code_spec(press: Press) -> Option<nat> {
    match single_char_spec(press.key) {
        Some(c) => Some(
            if (c as u32) < 128 {
                ascii_lower(c) as u32 as nat
            } else {
                lowercase_first(c) as u32 as nat
            },
        ),
        None => match press.key {
            LogicalKey::Named(k) => named_code(k),
            _ => None,
        },
    }
}

/// The Unicode control characters (general category Cc), which is what
/// `char::is_control` tests.
pub open spec fn is_control_char(c: char) -> bool {
    (c as u32) <= 0x1f || (0x7f <= (c as u32) && (c as u32) <= 0x9f)
}

/// The text a press produces, for reporting alongside the key: none for a
/// Ctrl, Alt or Super combination, nor for empty text or text holding a
/// control character.
pub open spec fn associated_text_spec(press: Press, m: Modifiers) -> Option<Seq<char>> {
    if m.ctrl || m.alt || m.logo {
        None
    } else {
        match press.text {
            Some(t) => if t@.len() > 0 && forall|i: int| 0 <= i < t@.len() ==> !is_control_char(#[trigger] t@[i]) {
                Some(t@)
            } else {
                None
            },
            None => None,
        }
    }
}

/// The codepoints of `t` in decimal, separated by `:`.
pub open spec fn codepoints(t: Seq<char>) -> Seq<u8>
    decreases t.len(),
{
    if t.len() == 0 {
        seq![]
    } else if t.len() == 1 {
        decimal_bytes(t[0] as u32 as nat)
    } else {
        codepoints(t.drop_last()) + seq![58u8] + decimal_bytes(t.last() as u32 as nat)
    }
}

/// The parameters of a kitty `CSI ... u` sequence: the key number; the
/// modifier field when modified or reporting event types (with the event
/// type as its sub-parameter when reporting them); and the associated text
/// as a third field, with an explicit `1` holding the modifier field's
/// place when it would otherwise be absent.
pub open spec fn kitty_params(
    code: nat,
    param: int,
    report_events: bool,
    event_type: int,
    assoc: Option<Seq<char>>,
) -> Seq<u8> {
    decimal_bytes(code) + modifier_field(param, report_events, event_type) + text_field(
        param,
        report_events,
        assoc,
    )
}

/// The modifier field of a kitty sequence, when there is one.
pub open spec fn modifier_field(param: int, report_events: bool, event_type: int) -> Seq<u8> {
    if param > 1 || report_events {
        seq![59u8] + decimal_bytes(param as nat) + (if report_events {
            seq![58u8] + decimal_bytes(event_type as nat)
        } else {
            seq![]
        })
    } else {
        seq![]
    }
}

/// The associated-text field of a kitty sequence, when there is one.
pub open spec fn text_field(param: int, report_events: bool, assoc: Option<Seq<char>>) -> Seq<u8> {
    match assoc {
        Some(t) => (if param == 1 && !report_events {
            seq![59u8, 49u8]
        } else {
            seq![]
        }) + seq![59u8] + codepoints(t),
        None => seq![],
    }
}

/// The unmodified form of a key whose escape encoding isn't required: the
/// legacy control byte for Enter, Tab, Escape and Backspace, literal text
/// for everything else.
pub open spec fn plain_spec(press: Press, code: nat) -> Option<Seq<u8>> {
    if code == 13 || code == 9 || code == 27 || code == 127 {
        Some(seq![code as u8])
    } else {
        literal_text(text_view(press.text))
    }
}

/// The kitty keyboard protocol encoding, in force while a program has
/// enabled it. Releases exist only for programs that asked for event
/// types; keys that already had an unambiguous sequence keep it;
/// unmodified text stays plain unless every key is to be an escape;
/// everything else is `CSI <params> u`.
pub open spec fn kitty_spec(press: Press, m: Modifiers, mode: TermMode) -> Option<Seq<u8>> {
    let report = mode.report_event_types;
    let event_type = event_type_spec(press);
    let param = modifier_param_spec(m);
    if event_type == 3 && !report {
        None
    } else if !report && (named_of(press.key) matches Some(k) && sequence_spec(k) is Some) {
        match sequence_spec(named_of(press.key)->0) {
            Some(Sequence::Letter(letter)) => Some(kitty_letter(letter, param, mode.app_cursor)),
            Some(Sequence::Numbered(number)) => Some(numbered_sequence(number, param)),
            None => None,
        }
    } else {
        match key_code_spec(press) {
            None => None,
            Some(code) => if !(param > 1 || report || mode.report_all_keys_as_esc) {
                plain_spec(press, code)
            } else {
                Some(
                    seq![27u8, 91u8] + kitty_params(
                        code,
                        param,
                        report,
                        event_type,
                        if mode.report_associated_text {
                            associated_text_spec(press, m)
                        } else {
                            None
                        },
                    ) + seq![117u8],
                )
            },
        }
    }
}

fn named_key_code(k: NamedKey) -> (r: Option<u32>)
    ensures
        match named_code(k) {
            Some(c) => r == Some(c as u32),
            None => r is None,
        },
{
    match k {
        NamedKey::Enter => Some(13),
        NamedKey::Tab => Some(9),
        NamedKey::Escape => Some(27),
        NamedKey::Backspace => Some(127),
        NamedKey::Space => Some(32),
        NamedKey::Insert => Some(57348),
        NamedKey::Delete => Some(57349),
        NamedKey::PageUp => Some(57354),
        NamedKey::PageDown => Some(57355),
        NamedKey::ArrowUp => Some(57352),
        NamedKey::ArrowDown => Some(57353),
        NamedKey::ArrowLeft => Some(57350),
        NamedKey::ArrowRight => Some(57351),
        NamedKey::Home => Some(57356),
        NamedKey::End => Some(57357),
        NamedKey::CapsLock => Some(57358),
        NamedKey::ScrollLock => Some(57359),
        NamedKey::NumLock => Some(57360),
        NamedKey::PrintScreen => Some(57361),
        NamedKey::Pause => Some(57362),
        NamedKey::ContextMenu => Some(57363),
        _ => function_key_code(k),
    }
}

/// F1-F12's numbers in the protocol's private-use block.
fn function_key_code(k: NamedKey) -> (r: Option<u32>)
    ensures
        match k {
            NamedKey::F1 => r == Some(57364u32),
            NamedKey::F2 => r == Some(57365u32),
            NamedKey::F3 => r == Some(57366u32),
            NamedKey::F4 => r == Some(57367u32),
            NamedKey::F5 => r == Some(57368u32),
            NamedKey::F6 => r == Some(57369u32),
            NamedKey::F7 => r == Some(57370u32),
            NamedKey::F8 => r == Some(57371u32),
            NamedKey::F9 => r == Some(57372u32),
            NamedKey::F10 => r == Some(57373u32),
            NamedKey::F11 => r == Some(57374u32),
            NamedKey::F12 => r == Some(57375u32),
            _ => r is None,
        },
{
    let index: u32 = match k {
        NamedKey::F1 => 0,
        NamedKey::F2 => 1,
        NamedKey::F3 => 2,
        NamedKey::F4 => 3,
        NamedKey::F5 => 4,
        NamedKey::F6 => 5,
        NamedKey::F7 => 6,
        NamedKey::F8 => 7,
        NamedKey::F9 => 8,
        NamedKey::F10 => 9,
        NamedKey::F11 => 10,
        NamedKey::F12 => 11,
        _ => return None,
    };
    Some(57364 + index)
}

fn key_code(press: &Press) -> (r: Option<u32>)
    ensures
        match key_code_spec(*press) {
            Some(c) => r == Some(c as u32),
            None => r is None,
        },
{
    if let Some(c) = single_char(&press.key) {
        let lower = to_lowercase_first(c);
        return Some(lower as u32);
    }
    match &press.key {
        LogicalKey::Named(k) => named_key_code(*k),
        _ => None,
    }
}

fn associated_text(press: &Press, m: Modifiers) -> (r: Option<Vec<char>>)
    ensures
        match associated_text_spec(*press, m) {
            Some(t) => r matches Some(v) && v@ == t,
            None => r is None,
        },
{
    if m.ctrl || m.alt || m.logo {
        return None;
    }
    match &press.text {
        Some(t) => {
            let chars = chars_of(t.as_str());
            if chars.len() == 0 {
                return None;
            }
            let mut i: usize = 0;
            while i < chars.len()
                invariant
                    chars@ == t@,
                    press.text == Some(*t),
                    !(m.ctrl || m.alt || m.logo),
                    i <= chars@.len(),
                    forall|k: int| 0 <= k < i ==> !is_control_char(#[trigger] chars@[k]),
                decreases chars@.len() - i,
            {
                let v: u32 = chars[i] as u32;
                if v <= 0x1f || (0x7f <= v && v <= 0x9f) {
                    assert(is_control_char(t@[i as int]));
                    return None;
                }
                i = i + 1;
            }
            Some(chars)
        },
        None => None,
    }
}

fn push_codepoints(out: &mut Vec<u8>, chars: &Vec<char>)
    requires
        chars@.len() > 0,
    ensures
        final(out)@ == old(out)@ + codepoints(chars@),
{
    push_decimal(out, chars[0] as u32 as u64);
    assert(chars@.subrange(0, 1).len() == 1);
    assert(codepoints(chars@.subrange(0, 1)) == decimal_bytes(chars@[0] as u32 as nat));
    let mut i: usize = 1;
    while i < chars.len()
        invariant
            1 <= i <= chars@.len(),
            out@ == old(out)@ + codepoints(chars@.subrange(0, i as int)),
        decreases chars@.len() - i,
    {
        out.push(58);
        push_decimal(out, chars[i] as u32 as u64);
        assert(chars@.subrange(0, i + 1).drop_last() =~= chars@.subrange(0, i as int));
        assert(out@ =~= old(out)@ + codepoints(chars@.subrange(0, i + 1)));
        i = i + 1;
    }
    assert(chars@.subrange(0, chars@.len() as int) =~= chars@);
}

fn push_modifier_field(out: &mut Vec<u8>, param: u8, report: bool, event_type: u8)
    ensures
        final(out)@ == old(out)@ + modifier_field(param as int, report, event_type as int),
{
    if param > 1 || report {
        out.push(59);
        push_decimal(out, param as u64);
        if report {
            out.push(58);
            push_decimal(out, event_type as u64);
        }
    }
    assert(out@ =~= old(out)@ + modifier_field(param as int, report, event_type as int));
}

fn push_text_field(out: &mut Vec<u8>, param: u8, report: bool, assoc: &Option<Vec<char>>)
    ensures
        final(out)@ == old(out)@ + text_field(
            param as int,
            report,
            match assoc {
                Some(t) => Some(t@),
                None => None,
            },
        ),
{
    match assoc {
        Some(text) => {
            if param == 1 && !report {
                out.push(59);
                out.push(49);
            }
            out.push(59);
            if text.len() > 0 {
                push_codepoints(out, text);
            }
        },
        None => {},
    }
    assert(out@ =~= old(out)@ + text_field(
        param as int,
        report,
        match assoc {
            Some(t) => Some(t@),
            None => None,
        },
    ));
}

fn kitty_csi_u(code: u32, param: u8, report: bool, event_type: u8, assoc: &Option<Vec<char>>) -> (r: Vec<
    u8,
>)
    ensures
        r@ == seq![27u8, 91u8] + kitty_params(
            code as nat,
            param as int,
            report,
            event_type as int,
            match assoc {
                Some(t) => Some(t@),
                None => None,
            },
        ) + seq![117u8],
{
    let mut out: Vec<u8> = Vec::new();
    out.push(27);
    out.push(91);
    push_decimal(&mut out, code as u64);
    push_modifier_field(&mut out, param, report, event_type);
    push_text_field(&mut out, param, report, assoc);
    out.push(117);
    assert(out@ =~= seq![27u8, 91u8] + kitty_params(
        code as nat,
        param as int,
        report,
        event_type as int,
        match assoc {
            Some(t) => Some(t@),
            None => None,
        },
    ) + seq![117u8]);
    out
}

fn kitty_named(k: NamedKey, param: u8, mode: TermMode) -> (r: Option<Vec<u8>>)
    ensures
        match sequence_spec(k) {
            Some(Sequence::Letter(letter)) => r matches Some(v) && v@ == kitty_letter(
                letter,
                param as int,
                mode.app_cursor,
            ),
            Some(Sequence::Numbered(number)) => r matches Some(v) && v@ == numbered_sequence(
                number,
                param as int,
            ),
            None => r is None,
        },
{
    match sequence(k) {
        Some(Sequence::Letter(letter)) => {
            if param > 1 {
                Some(modified_letter_bytes(letter, param))
            } else if is_cursor_key(letter) && mode.app_cursor {
                Some(three_bytes(27, 79, letter))
            } else {
                Some(three_bytes(27, 91, letter))
            }
        },
        Some(Sequence::Numbered(number)) => Some(numbered_bytes(number, param)),
        None => None,
    }
}

/// The kitty keyboard protocol encoding of a press.
pub fn kitty_encode(press: &Press, m: Modifiers, mode: TermMode) -> (r: Option<Vec<u8>>)
    ensures
        match kitty_spec(*press, m, mode) {
            Some(b) => r matches Some(v) && v@ == b,
            None => r is None,
        },
{
    let report = mode.report_event_types;
    let event_type: u8 = match press.state {
        ElementState::Released => 3,
        ElementState::Pressed => if press.repeat {
            2
        } else {
            1
        },
    };
    if event_type == 3 && !report {
        return None;
    }
    let param = modifier_param(m);
    if !report {
        if let LogicalKey::Named(k) = &press.key {
            if let Some(bytes) = kitty_named(*k, param, mode) {
                return Some(bytes);
            }
        }
    }
    let code = match key_code(press) {
        Some(code) => code,
        None => return None,
    };
    if !(param > 1 || report || mode.report_all_keys_as_esc) {
        if code == 13 || code == 9 || code == 27 || code == 127 {
            return Some(one_byte(code as u8));
        }
        return literal(&press.text);
    }
    let assoc = if mode.report_associated_text {
        associated_text(press, m)
    } else {
        None
    };
    Some(kitty_csi_u(code, param, report, event_type, &assoc))
}

/// The bytes a press sends to a pane in `mode`, or `None` when it sends
/// nothing: a bare modifier, a key with no terminal meaning, or (outside
/// the kitty protocol's event reporting) a release.
pub open spec fn encode_spec(press: Press, m: Modifiers, mode: TermMode) -> Option<Seq<u8>> {
    if mode.disambiguate_esc_codes {
        kitty_spec(press, m, mode)
    } else if press.state == ElementState::Pressed {
        legacy_spec(press, m, mode)
    } else {
        None
    }
}

/// Encodes `press` for a pane currently in `mode`.
pub fn encode(press: &Press, m: Modifiers, mode: TermMode) -> (r: Option<Vec<u8>>)
    ensures
        match encode_spec(*press, m, mode) {
            Some(b) => r matches Some(v) && v@ == b,
            None => r is None,
        },
{
    if mode.disambiguate_esc_codes {
        kitty_encode(press, m, mode)
    } else if press.state == ElementState::Pressed {
        legacy_encode(press, m, mode)
    } else {
        None
    }
}

/// The chord key a key press stands for: a single character, lowercased,
/// or an arrow. Nothing else is ever bound.
pub open spec fn chord_key_spec(key: LogicalKey) -> Option<crate::keymap::Key> {
    match single_char_spec(key) {
        Some(c) => Some(crate::keymap::Key::Char(ascii_lower(c))),
        None => match key {
            LogicalKey::Named(NamedKey::ArrowUp) => Some(crate::keymap::Key::Up),
            LogicalKey::Named(NamedKey::ArrowDown) => Some(crate::keymap::Key::Down),
            LogicalKey::Named(NamedKey::ArrowLeft) => Some(crate::keymap::Key::Left),
            LogicalKey::Named(NamedKey::ArrowRight) => Some(crate::keymap::Key::Right),
            _ => None,
        },
    }
}

/// The chord candidate a key event is: `None` unless it is a press of a
/// single character or an arrow. Whether the chord is bound to anything is
/// for the router to decide.
pub fn chord_for_key(state: ElementState, key: &LogicalKey, m: Modifiers) -> (r: Option<
    crate::keymap::Chord,
>)
    ensures
        state != ElementState::Pressed ==> r is None,
        state == ElementState::Pressed ==> match chord_key_spec(*key) {
            Some(k) => r == Some(
                crate::keymap::Chord { key: k, ctrl: m.ctrl, shift: m.shift, alt: m.alt, logo: m.logo },
            ),
            None => r is None,
        },
{
    if state != ElementState::Pressed {
        return None;
    }
    let key = match single_char(key) {
        Some(c) => crate::keymap::Key::Char(crate::text::to_ascii_lower(c)),
        None => match key {
            LogicalKey::Named(NamedKey::ArrowUp) => crate::keymap::Key::Up,
            LogicalKey::Named(NamedKey::ArrowDown) => crate::keymap::Key::Down,
            LogicalKey::Named(NamedKey::ArrowLeft) => crate::keymap::Key::Left,
            LogicalKey::Named(NamedKey::ArrowRight) => crate::keymap::Key::Right,
            _ => return None,
        },
    };
    Some(crate::keymap::Chord { key, ctrl: m.ctrl, shift: m.shift, alt: m.alt, logo: m.logo })
}

/// What a key press comes to: the action bound to its chord, bytes for the
/// focused pane, or nothing at all.
pub enum KeyRoute {
    Act(crate::keymap::Action),
    Send(Vec<u8>),
    Ignore,
}

/// The chord a key event makes, if it makes one.
pub open spec fn press_chord_spec(state: ElementState, key: LogicalKey, m: Modifiers) -> Option<
    crate::keymap::Chord,
> {
    if state == ElementState::Pressed {
        match chord_key_spec(key) {
            Some(k) => Some(crate::keymap::Chord { key: k, ctrl: m.ctrl, shift: m.shift, alt: m.alt, logo: m.logo }),
            None => None,
        }
    } else {
        None
    }
}

/// Where a key press goes: a chord bound in `router`'s keymap runs its
/// action and is never partially consumed, so nothing of it reaches the
/// pane; any other press is encoded for a pane in `mode` and sent, when the
/// encoding has bytes for it.
pub fn route_key(router: &crate::router::Router, press: &Press, m: Modifiers, mode: TermMode) -> (r: KeyRoute)
    ensures
        (press_chord_spec(press.state, press.key, m) matches Some(c) && router.keymap@.contains_key(c)) ==> r
            == KeyRoute::Act(router.keymap@[press_chord_spec(press.state, press.key, m)->0]),
        !(press_chord_spec(press.state, press.key, m) matches Some(c) && router.keymap@.contains_key(c)) ==> match encode_spec(
            *press,
            m,
            mode,
        ) {
            Some(b) => r matches KeyRoute::Send(v) && v@ == b,
            None => r is Ignore,
        },
{
    if let Some(chord) = chord_for_key(press.state, &press.key, m) {
        if let Some(action) = router.resolve(chord) {
            return KeyRoute::Act(action);
        }
    }
    match encode(press, m, mode) {
        Some(bytes) => KeyRoute::Send(bytes),
        None => KeyRoute::Ignore,
    }
}

/// No modifier held.
pub open spec fn no_modifiers() -> Modifiers {
    Modifiers { shift: false, alt: false, ctrl: false, logo: false }
}

/// Under the legacy encoding an unmodified key with a sequence of its own
/// sends the xterm (VT220) bytes: F1-F4 are `SS3 P`..`SS3 S`; F5-F12 are
/// `CSI 15~`, `CSI 17~` to `CSI 21~`, `CSI 23~` and `CSI 24~` (the
/// numbering skips 16 and 22); Insert, Delete, Page Up and Page Down are
/// `CSI 2~`, `CSI 3~`, `CSI 5~` and `CSI 6~`; the arrows, Home and End are
/// `CSI A`/`B`/`C`/`D`/`H`/`F`, or `SS3` with the same letter in
/// application cursor mode; Enter, Tab, Backspace and Escape are CR, HT,
/// DEL and ESC.
#[verifier::spinoff_prover]
#[verifier::rlimit(50)]
pub proof fn lemma_legacy_named_key_bytes(press: Press, mode: TermMode)
    requires
        press.state == ElementState::Pressed,
        !mode.disambiguate_esc_codes,
    ensures
        press.key == LogicalKey::Named(NamedKey::F1) ==> encode_spec(press, no_modifiers(), mode) == Some(seq![27u8, 79u8, 80u8]),
        press.key == LogicalKey::Named(NamedKey::F2) ==> encode_spec(press, no_modifiers(), mode) == Some(seq![27u8, 79u8, 81u8]),
        press.key == LogicalKey::Named(NamedKey::F3) ==> encode_spec(press, no_modifiers(), mode) == Some(seq![27u8, 79u8, 82u8]),
        press.key == LogicalKey::Named(NamedKey::F4) ==> encode_spec(press, no_modifiers(), mode) == Some(seq![27u8, 79u8, 83u8]),
        press.key == LogicalKey::Named(NamedKey::F5) ==> encode_spec(press, no_modifiers(), mode) == Some(seq![27u8, 91u8, 49u8, 53u8, 126u8]),
        press.key == LogicalKey::Named(NamedKey::F6) ==> encode_spec(press, no_modifiers(), mode) == Some(seq![27u8, 91u8, 49u8, 55u8, 126u8]),
        press.key == LogicalKey::Named(NamedKey::F7) ==> encode_spec(press, no_modifiers(), mode) == Some(seq![27u8, 91u8, 49u8, 56u8, 126u8]),
        press.key == LogicalKey::Named(NamedKey::F8) ==> encode_spec(press, no_modifiers(), mode) == Some(seq![27u8, 91u8, 49u8, 57u8, 126u8]),
        press.key == LogicalKey::Named(NamedKey::F9) ==> encode_spec(press, no_modifiers(), mode) == Some(seq![27u8, 91u8, 50u8, 48u8, 126u8]),
        press.key == LogicalKey::Named(NamedKey::F10) ==> encode_spec(press, no_modifiers(), mode) == Some(seq![27u8, 91u8, 50u8, 49u8, 126u8]),
        press.key == LogicalKey::Named(NamedKey::F11) ==> encode_spec(press, no_modifiers(), mode) == Some(seq![27u8, 91u8, 50u8, 51u8, 126u8]),
        press.key == LogicalKey::Named(NamedKey::F12) ==> encode_spec(press, no_modifiers(), mode) == Some(seq![27u8, 91u8, 50u8, 52u8, 126u8]),
        press.key == LogicalKey::Named(NamedKey::Insert) ==> encode_spec(press, no_modifiers(), mode) == Some(seq![27u8, 91u8, 50u8, 126u8]),
        press.key == LogicalKey::Named(NamedKey::Delete) ==> encode_spec(press, no_modifiers(), mode) == Some(seq![27u8, 91u8, 51u8, 126u8]),
        press.key == LogicalKey::Named(NamedKey::PageUp) ==> encode_spec(press, no_modifiers(), mode) == Some(seq![27u8, 91u8, 53u8, 126u8]),
        press.key == LogicalKey::Named(NamedKey::PageDown) ==> encode_spec(press, no_modifiers(), mode) == Some(seq![27u8, 91u8, 54u8, 126u8]),
        press.key == LogicalKey::Named(NamedKey::Enter) ==> encode_spec(press, no_modifiers(), mode) == Some(seq![13u8]),
        press.key == LogicalKey::Named(NamedKey::Tab) ==> encode_spec(press, no_modifiers(), mode) == Some(seq![9u8]),
        press.key == LogicalKey::Named(NamedKey::Backspace) ==> encode_spec(press, no_modifiers(), mode) == Some(seq![127u8]),
        press.key == LogicalKey::Named(NamedKey::Escape) ==> encode_spec(press, no_modifiers(), mode) == Some(seq![27u8]),
        press.key == LogicalKey::Named(NamedKey::ArrowUp) && !mode.app_cursor ==> encode_spec(press, no_modifiers(), mode) == Some(seq![27u8, 91u8, 65u8]),
        press.key == LogicalKey::Named(NamedKey::ArrowUp) && mode.app_cursor ==> encode_spec(press, no_modifiers(), mode) == Some(seq![27u8, 79u8, 65u8]),
        press.key == LogicalKey::Named(NamedKey::ArrowDown) && !mode.app_cursor ==> encode_spec(press, no_modifiers(), mode) == Some(seq![27u8, 91u8, 66u8]),
        press.key == LogicalKey::Named(NamedKey::ArrowDown) && mode.app_cursor ==> encode_spec(press, no_modifiers(), mode) == Some(seq![27u8, 79u8, 66u8]),
        press.key == LogicalKey::Named(NamedKey::ArrowRight) && !mode.app_cursor ==> encode_spec(press, no_modifiers(), mode) == Some(seq![27u8, 91u8, 67u8]),
        press.key == LogicalKey::Named(NamedKey::ArrowRight) && mode.app_cursor ==> encode_spec(press, no_modifiers(), mode) == Some(seq![27u8, 79u8, 67u8]),
        press.key == LogicalKey::Named(NamedKey::ArrowLeft) && !mode.app_cursor ==> encode_spec(press, no_modifiers(), mode) == Some(seq![27u8, 91u8, 68u8]),
        press.key == LogicalKey::Named(NamedKey::ArrowLeft) && mode.app_cursor ==> encode_spec(press, no_modifiers(), mode) == Some(seq![27u8, 79u8, 68u8]),
        press.key == LogicalKey::Named(NamedKey::Home) && !mode.app_cursor ==> encode_spec(press, no_modifiers(), mode) == Some(seq![27u8, 91u8, 72u8]),
        press.key == LogicalKey::Named(NamedKey::Home) && mode.app_cursor ==> encode_spec(press, no_modifiers(), mode) == Some(seq![27u8, 79u8, 72u8]),
        press.key == LogicalKey::Named(NamedKey::End) && !mode.app_cursor ==> encode_spec(press, no_modifiers(), mode) == Some(seq![27u8, 91u8, 70u8]),
        press.key == LogicalKey::Named(NamedKey::End) && mode.app_cursor ==> encode_spec(press, no_modifiers(), mode) == Some(seq![27u8, 79u8, 70u8]),
{
    reveal_with_fuel(decimal_bytes, 3);
}

/// Under the legacy encoding a modified key with a sequence of its own
/// carries the modifier parameter: `CSI <n> ; <param> ~` with the same
/// number as unmodified (15, 17-21, 23, 24 for F5-F12; 2, 3, 5, 6 for
/// Insert, Delete, Page Up, Page Down), and `CSI 1 ; <param> <letter>` for
/// F1-F4 and the cursor keys, whatever the cursor mode.
#[verifier::spinoff_prover]
#[verifier::rlimit(50)]
pub proof fn lemma_legacy_modified_named_key_bytes(press: Press, m: Modifiers, mode: TermMode)
    requires
        press.state == ElementState::Pressed,
        !mode.disambiguate_esc_codes,
        !m.logo,
        m.shift || m.alt || m.ctrl,
    ensures
        press.key == LogicalKey::Named(NamedKey::F5) ==> encode_spec(press, m, mode) == Some(seq![27u8, 91u8, 49u8, 53u8, 59u8] + decimal_bytes(modifier_param_spec(m) as nat) + seq![126u8]),
        press.key == LogicalKey::Named(NamedKey::F6) ==> encode_spec(press, m, mode) == Some(seq![27u8, 91u8, 49u8, 55u8, 59u8] + decimal_bytes(modifier_param_spec(m) as nat) + seq![126u8]),
        press.key == LogicalKey::Named(NamedKey::F7) ==> encode_spec(press, m, mode) == Some(seq![27u8, 91u8, 49u8, 56u8, 59u8] + decimal_bytes(modifier_param_spec(m) as nat) + seq![126u8]),
        press.key == LogicalKey::Named(NamedKey::F8) ==> encode_spec(press, m, mode) == Some(seq![27u8, 91u8, 49u8, 57u8, 59u8] + decimal_bytes(modifier_param_spec(m) as nat) + seq![126u8]),
        press.key == LogicalKey::Named(NamedKey::F9) ==> encode_spec(press, m, mode) == Some(seq![27u8, 91u8, 50u8, 48u8, 59u8] + decimal_bytes(modifier_param_spec(m) as nat) + seq![126u8]),
        press.key == LogicalKey::Named(NamedKey::F10) ==> encode_spec(press, m, mode) == Some(seq![27u8, 91u8, 50u8, 49u8, 59u8] + decimal_bytes(modifier_param_spec(m) as nat) + seq![126u8]),
        press.key == LogicalKey::Named(NamedKey::F11) ==> encode_spec(press, m, mode) == Some(seq![27u8, 91u8, 50u8, 51u8, 59u8] + decimal_bytes(modifier_param_spec(m) as nat) + seq![126u8]),
        press.key == LogicalKey::Named(NamedKey::F12) ==> encode_spec(press, m, mode) == Some(seq![27u8, 91u8, 50u8, 52u8, 59u8] + decimal_bytes(modifier_param_spec(m) as nat) + seq![126u8]),
        press.key == LogicalKey::Named(NamedKey::Insert) ==> encode_spec(press, m, mode) == Some(seq![27u8, 91u8, 50u8, 59u8] + decimal_bytes(modifier_param_spec(m) as nat) + seq![126u8]),
        press.key == LogicalKey::Named(NamedKey::Delete) ==> encode_spec(press, m, mode) == Some(seq![27u8, 91u8, 51u8, 59u8] + decimal_bytes(modifier_param_spec(m) as nat) + seq![126u8]),
        press.key == LogicalKey::Named(NamedKey::PageUp) ==> encode_spec(press, m, mode) == Some(seq![27u8, 91u8, 53u8, 59u8] + decimal_bytes(modifier_param_spec(m) as nat) + seq![126u8]),
        press.key == LogicalKey::Named(NamedKey::PageDown) ==> encode_spec(press, m, mode) == Some(seq![27u8, 91u8, 54u8, 59u8] + decimal_bytes(modifier_param_spec(m) as nat) + seq![126u8]),
        press.key == LogicalKey::Named(NamedKey::F1) ==> encode_spec(press, m, mode) == Some(seq![27u8, 91u8, 49u8, 59u8] + decimal_bytes(modifier_param_spec(m) as nat) + seq![80u8]),
        press.key == LogicalKey::Named(NamedKey::F2) ==> encode_spec(press, m, mode) == Some(seq![27u8, 91u8, 49u8, 59u8] + decimal_bytes(modifier_param_spec(m) as nat) + seq![81u8]),
        press.key == LogicalKey::Named(NamedKey::F3) ==> encode_spec(press, m, mode) == Some(seq![27u8, 91u8, 49u8, 59u8] + decimal_bytes(modifier_param_spec(m) as nat) + seq![82u8]),
        press.key == LogicalKey::Named(NamedKey::F4) ==> encode_spec(press, m, mode) == Some(seq![27u8, 91u8, 49u8, 59u8] + decimal_bytes(modifier_param_spec(m) as nat) + seq![83u8]),
        press.key == LogicalKey::Named(NamedKey::ArrowUp) ==> encode_spec(press, m, mode) == Some(seq![27u8, 91u8, 49u8, 59u8] + decimal_bytes(modifier_param_spec(m) as nat) + seq![65u8]),
        press.key == LogicalKey::Named(NamedKey::ArrowDown) ==> encode_spec(press, m, mode) == Some(seq![27u8, 91u8, 49u8, 59u8] + decimal_bytes(modifier_param_spec(m) as nat) + seq![66u8]),
        press.key == LogicalKey::Named(NamedKey::ArrowRight) ==> encode_spec(press, m, mode) == Some(seq![27u8, 91u8, 49u8, 59u8] + decimal_bytes(modifier_param_spec(m) as nat) + seq![67u8]),
        press.key == LogicalKey::Named(NamedKey::ArrowLeft) ==> encode_spec(press, m, mode) == Some(seq![27u8, 91u8, 49u8, 59u8] + decimal_bytes(modifier_param_spec(m) as nat) + seq![68u8]),
        press.key == LogicalKey::Named(NamedKey::Home) ==> encode_spec(press, m, mode) == Some(seq![27u8, 91u8, 49u8, 59u8] + decimal_bytes(modifier_param_spec(m) as nat) + seq![72u8]),
        press.key == LogicalKey::Named(NamedKey::End) ==> encode_spec(press, m, mode) == Some(seq![27u8, 91u8, 49u8, 59u8] + decimal_bytes(modifier_param_spec(m) as nat) + seq![70u8]),
{
    assert(modifier_param_spec(m) > 1);
    reveal_with_fuel(decimal_bytes, 3);
}

/// The kitty protocol, without event reporting, keeps the sequences of the
/// keys that were never ambiguous: F1-F4 become `CSI P`..`CSI S`, and
/// F5-F12, the editing keys, the arrows, Home and End send the same bytes
/// as under the legacy encoding.
#[verifier::spinoff_prover]
#[verifier::rlimit(50)]
pub proof fn lemma_kitty_named_key_bytes(press: Press, mode: TermMode)
    requires
        press.state == ElementState::Pressed,
        mode.disambiguate_esc_codes,
        !mode.report_event_types,
    ensures
        press.key == LogicalKey::Named(NamedKey::F1) ==> encode_spec(press, no_modifiers(), mode) == Some(seq![27u8, 91u8, 80u8]),
        press.key == LogicalKey::Named(NamedKey::F2) ==> encode_spec(press, no_modifiers(), mode) == Some(seq![27u8, 91u8, 81u8]),
        press.key == LogicalKey::Named(NamedKey::F3) ==> encode_spec(press, no_modifiers(), mode) == Some(seq![27u8, 91u8, 82u8]),
        press.key == LogicalKey::Named(NamedKey::F4) ==> encode_spec(press, no_modifiers(), mode) == Some(seq![27u8, 91u8, 83u8]),
        press.key == LogicalKey::Named(NamedKey::F5) ==> encode_spec(press, no_modifiers(), mode) == Some(seq![27u8, 91u8, 49u8, 53u8, 126u8]),
        press.key == LogicalKey::Named(NamedKey::F6) ==> encode_spec(press, no_modifiers(), mode) == Some(seq![27u8, 91u8, 49u8, 55u8, 126u8]),
        press.key == LogicalKey::Named(NamedKey::F7) ==> encode_spec(press, no_modifiers(), mode) == Some(seq![27u8, 91u8, 49u8, 56u8, 126u8]),
        press.key == LogicalKey::Named(NamedKey::F8) ==> encode_spec(press, no_modifiers(), mode) == Some(seq![27u8, 91u8, 49u8, 57u8, 126u8]),
        press.key == LogicalKey::Named(NamedKey::F9) ==> encode_spec(press, no_modifiers(), mode) == Some(seq![27u8, 91u8, 50u8, 48u8, 126u8]),
        press.key == LogicalKey::Named(NamedKey::F10) ==> encode_spec(press, no_modifiers(), mode) == Some(seq![27u8, 91u8, 50u8, 49u8, 126u8]),
        press.key == LogicalKey::Named(NamedKey::F11) ==> encode_spec(press, no_modifiers(), mode) == Some(seq![27u8, 91u8, 50u8, 51u8, 126u8]),
        press.key == LogicalKey::Named(NamedKey::F12) ==> encode_spec(press, no_modifiers(), mode) == Some(seq![27u8, 91u8, 50u8, 52u8, 126u8]),
        press.key == LogicalKey::Named(NamedKey::Insert) ==> encode_spec(press, no_modifiers(), mode) == Some(seq![27u8, 91u8, 50u8, 126u8]),
        press.key == LogicalKey::Named(NamedKey::Delete) ==> encode_spec(press, no_modifiers(), mode) == Some(seq![27u8, 91u8, 51u8, 126u8]),
        press.key == LogicalKey::Named(NamedKey::PageUp) ==> encode_spec(press, no_modifiers(), mode) == Some(seq![27u8, 91u8, 53u8, 126u8]),
        press.key == LogicalKey::Named(NamedKey::PageDown) ==> encode_spec(press, no_modifiers(), mode) == Some(seq![27u8, 91u8, 54u8, 126u8]),
        press.key == LogicalKey::Named(NamedKey::ArrowUp) && !mode.app_cursor ==> encode_spec(press, no_modifiers(), mode) == Some(seq![27u8, 91u8, 65u8]),
        press.key == LogicalKey::Named(NamedKey::ArrowUp) && mode.app_cursor ==> encode_spec(press, no_modifiers(), mode) == Some(seq![27u8, 79u8, 65u8]),
        press.key == LogicalKey::Named(NamedKey::ArrowDown) && !mode.app_cursor ==> encode_spec(press, no_modifiers(), mode) == Some(seq![27u8, 91u8, 66u8]),
        press.key == LogicalKey::Named(NamedKey::ArrowDown) && mode.app_cursor ==> encode_spec(press, no_modifiers(), mode) == Some(seq![27u8, 79u8, 66u8]),
        press.key == LogicalKey::Named(NamedKey::ArrowRight) && !mode.app_cursor ==> encode_spec(press, no_modifiers(), mode) == Some(seq![27u8, 91u8, 67u8]),
        press.key == LogicalKey::Named(NamedKey::ArrowRight) && mode.app_cursor ==> encode_spec(press, no_modifiers(), mode) == Some(seq![27u8, 79u8, 67u8]),
        press.key == LogicalKey::Named(NamedKey::ArrowLeft) && !mode.app_cursor ==> encode_spec(press, no_modifiers(), mode) == Some(seq![27u8, 91u8, 68u8]),
        press.key == LogicalKey::Named(NamedKey::ArrowLeft) && mode.app_cursor ==> encode_spec(press, no_modifiers(), mode) == Some(seq![27u8, 79u8, 68u8]),
        press.key == LogicalKey::Named(NamedKey::Home) && !mode.app_cursor ==> encode_spec(press, no_modifiers(), mode) == Some(seq![27u8, 91u8, 72u8]),
        press.key == LogicalKey::Named(NamedKey::Home) && mode.app_cursor ==> encode_spec(press, no_modifiers(), mode) == Some(seq![27u8, 79u8, 72u8]),
        press.key == LogicalKey::Named(NamedKey::End) && !mode.app_cursor ==> encode_spec(press, no_modifiers(), mode) == Some(seq![27u8, 91u8, 70u8]),
        press.key == LogicalKey::Named(NamedKey::End) && mode.app_cursor ==> encode_spec(press, no_modifiers(), mode) == Some(seq![27u8, 79u8, 70u8]),
{
    reveal_with_fuel(decimal_bytes, 3);
}

/// A Ctrl chord with a character that has a C0 control byte sends that
/// byte, after ESC when Alt is also held: a letter in either case gives its
/// position in the alphabet (Ctrl+A is 1, Ctrl+Z is 26, the low five bits of
/// the character); `@ [ \\ ] ^ _` give the character with bit 6 cleared
/// (0, 27, 28, 29, 30, 31); Ctrl+Space and Ctrl+2 give NUL, Ctrl+3 to
/// Ctrl+7 give 27 to 31, Ctrl+/ gives 31 and Ctrl+8 gives DEL.
pub proof fn lemma_legacy_control_bytes(press: Press, c: char, m: Modifiers, mode: TermMode)
    requires
        press.state == ElementState::Pressed,
        !mode.disambiguate_esc_codes,
        single_char_spec(press.key) == Some(c),
        m.ctrl,
        !m.logo,
    ensures
        ('a' <= c <= 'z' || 'A' <= c <= 'Z') ==> encode_spec(press, m, mode) == Some(
            with_alt_spec(seq![((c as u32) % 32) as u8], m),
        ),
        (c == '@' || c == '[' || c == '\\' || c == ']' || c == '^' || c == '_') ==> encode_spec(press, m, mode)
            == Some(with_alt_spec(seq![((c as u32) - 64) as u8], m)),
        (c == ' ' || c == '2') ==> encode_spec(press, m, mode) == Some(with_alt_spec(seq![0u8], m)),
        c == '3' ==> encode_spec(press, m, mode) == Some(with_alt_spec(seq![27u8], m)),
        c == '4' ==> encode_spec(press, m, mode) == Some(with_alt_spec(seq![28u8], m)),
        c == '5' ==> encode_spec(press, m, mode) == Some(with_alt_spec(seq![29u8], m)),
        c == '6' ==> encode_spec(press, m, mode) == Some(with_alt_spec(seq![30u8], m)),
        (c == '7' || c == '/') ==> encode_spec(press, m, mode) == Some(with_alt_spec(seq![31u8], m)),
        c == '8' ==> encode_spec(press, m, mode) == Some(with_alt_spec(seq![127u8], m)),
        !m.alt ==> with_alt_spec(seq![0u8], m) == seq![0u8],
        m.alt ==> with_alt_spec(seq![0u8], m) == seq![27u8, 0u8],
{
    if 'a' <= c <= 'z' || 'A' <= c <= 'Z' {
        assert((c as u32) - 96 == (c as u32) % 32 || (c as u32) - 64 == (c as u32) % 32);
        if 'a' <= c <= 'z' {
            assert(((c as u32) - 96) as u8 == ((c as u32) % 32) as u8);
        } else {
            assert(((c as u32) - 64) as u8 == ((c as u32) % 32) as u8);
        }
    }
}

/// Under the kitty protocol a modified character key is `CSI <key> ;
/// <param> u`, where the key is the character's codepoint, lowered for an
/// ASCII capital (Shift+A is `CSI 97;2u`), unless the program asked for
/// event types or associated text.
pub proof fn lemma_kitty_modified_character(press: Press, c: char, m: Modifiers, mode: TermMode)
    requires
        press.state == ElementState::Pressed,
        !press.repeat,
        mode.disambiguate_esc_codes,
        !mode.report_event_types,
        !mode.report_associated_text,
        single_char_spec(press.key) == Some(c),
        m.shift || m.alt || m.ctrl || m.logo,
    ensures
        (c as u32) < 128 && !('A' <= c <= 'Z') ==> encode_spec(press, m, mode) == Some(
            seq![27u8, 91u8] + decimal_bytes(c as u32 as nat) + seq![59u8] + decimal_bytes(
                modifier_param_spec(m) as nat,
            ) + seq![117u8],
        ),
        'A' <= c <= 'Z' ==> encode_spec(press, m, mode) == Some(
            seq![27u8, 91u8] + decimal_bytes((c as u32 + 32) as nat) + seq![59u8] + decimal_bytes(
                modifier_param_spec(m) as nat,
            ) + seq![117u8],
        ),
{
    assert(named_of(press.key) is None);
}

/// With event types reported, a named key's press is `CSI <key> ; <param>
/// :1 u`, where the key is the protocol's number for it: 13, 9, 27, 127 and
/// 32 for Enter, Tab, Escape, Backspace and Space, and the private-use
/// numbers from 57348 (Insert) to 57375 (F12) for the rest.
#[verifier::spinoff_prover]
#[verifier::rlimit(50)]
pub proof fn lemma_kitty_named_key_numbers(press: Press, m: Modifiers, mode: TermMode)
    requires
        press.state == ElementState::Pressed,
        !press.repeat,
        mode.disambiguate_esc_codes,
        mode.report_event_types,
        !mode.report_associated_text,
    ensures
        press.key == LogicalKey::Named(NamedKey::Enter) ==> encode_spec(press, m, mode) == Some(seq![27u8, 91u8] + decimal_bytes(13nat) + seq![59u8] + decimal_bytes(modifier_param_spec(m) as nat) + seq![58u8, 49u8, 117u8]),
        press.key == LogicalKey::Named(NamedKey::Tab) ==> encode_spec(press, m, mode) == Some(seq![27u8, 91u8] + decimal_bytes(9nat) + seq![59u8] + decimal_bytes(modifier_param_spec(m) as nat) + seq![58u8, 49u8, 117u8]),
        press.key == LogicalKey::Named(NamedKey::Escape) ==> encode_spec(press, m, mode) == Some(seq![27u8, 91u8] + decimal_bytes(27nat) + seq![59u8] + decimal_bytes(modifier_param_spec(m) as nat) + seq![58u8, 49u8, 117u8]),
        press.key == LogicalKey::Named(NamedKey::Backspace) ==> encode_spec(press, m, mode) == Some(seq![27u8, 91u8] + decimal_bytes(127nat) + seq![59u8] + decimal_bytes(modifier_param_spec(m) as nat) + seq![58u8, 49u8, 117u8]),
        press.key == LogicalKey::Named(NamedKey::Space) ==> encode_spec(press, m, mode) == Some(seq![27u8, 91u8] + decimal_bytes(32nat) + seq![59u8] + decimal_bytes(modifier_param_spec(m) as nat) + seq![58u8, 49u8, 117u8]),
        press.key == LogicalKey::Named(NamedKey::Insert) ==> encode_spec(press, m, mode) == Some(seq![27u8, 91u8] + decimal_bytes(57348nat) + seq![59u8] + decimal_bytes(modifier_param_spec(m) as nat) + seq![58u8, 49u8, 117u8]),
        press.key == LogicalKey::Named(NamedKey::Delete) ==> encode_spec(press, m, mode) == Some(seq![27u8, 91u8] + decimal_bytes(57349nat) + seq![59u8] + decimal_bytes(modifier_param_spec(m) as nat) + seq![58u8, 49u8, 117u8]),
        press.key == LogicalKey::Named(NamedKey::PageUp) ==> encode_spec(press, m, mode) == Some(seq![27u8, 91u8] + decimal_bytes(57354nat) + seq![59u8] + decimal_bytes(modifier_param_spec(m) as nat) + seq![58u8, 49u8, 117u8]),
        press.key == LogicalKey::Named(NamedKey::PageDown) ==> encode_spec(press, m, mode) == Some(seq![27u8, 91u8] + decimal_bytes(57355nat) + seq![59u8] + decimal_bytes(modifier_param_spec(m) as nat) + seq![58u8, 49u8, 117u8]),
        press.key == LogicalKey::Named(NamedKey::ArrowUp) ==> encode_spec(press, m, mode) == Some(seq![27u8, 91u8] + decimal_bytes(57352nat) + seq![59u8] + decimal_bytes(modifier_param_spec(m) as nat) + seq![58u8, 49u8, 117u8]),
        press.key == LogicalKey::Named(NamedKey::ArrowDown) ==> encode_spec(press, m, mode) == Some(seq![27u8, 91u8] + decimal_bytes(57353nat) + seq![59u8] + decimal_bytes(modifier_param_spec(m) as nat) + seq![58u8, 49u8, 117u8]),
        press.key == LogicalKey::Named(NamedKey::ArrowLeft) ==> encode_spec(press, m, mode) == Some(seq![27u8, 91u8] + decimal_bytes(57350nat) + seq![59u8] + decimal_bytes(modifier_param_spec(m) as nat) + seq![58u8, 49u8, 117u8]),
        press.key == LogicalKey::Named(NamedKey::ArrowRight) ==> encode_spec(press, m, mode) == Some(seq![27u8, 91u8] + decimal_bytes(57351nat) + seq![59u8] + decimal_bytes(modifier_param_spec(m) as nat) + seq![58u8, 49u8, 117u8]),
        press.key == LogicalKey::Named(NamedKey::Home) ==> encode_spec(press, m, mode) == Some(seq![27u8, 91u8] + decimal_bytes(57356nat) + seq![59u8] + decimal_bytes(modifier_param_spec(m) as nat) + seq![58u8, 49u8, 117u8]),
        press.key == LogicalKey::Named(NamedKey::End) ==> encode_spec(press, m, mode) == Some(seq![27u8, 91u8] + decimal_bytes(57357nat) + seq![59u8] + decimal_bytes(modifier_param_spec(m) as nat) + seq![58u8, 49u8, 117u8]),
        press.key == LogicalKey::Named(NamedKey::CapsLock) ==> encode_spec(press, m, mode) == Some(seq![27u8, 91u8] + decimal_bytes(57358nat) + seq![59u8] + decimal_bytes(modifier_param_spec(m) as nat) + seq![58u8, 49u8, 117u8]),
        press.key == LogicalKey::Named(NamedKey::ScrollLock) ==> encode_spec(press, m, mode) == Some(seq![27u8, 91u8] + decimal_bytes(57359nat) + seq![59u8] + decimal_bytes(modifier_param_spec(m) as nat) + seq![58u8, 49u8, 117u8]),
        press.key == LogicalKey::Named(NamedKey::NumLock) ==> encode_spec(press, m, mode) == Some(seq![27u8, 91u8] + decimal_bytes(57360nat) + seq![59u8] + decimal_bytes(modifier_param_spec(m) as nat) + seq![58u8, 49u8, 117u8]),
        press.key == LogicalKey::Named(NamedKey::PrintScreen) ==> encode_spec(press, m, mode) == Some(seq![27u8, 91u8] + decimal_bytes(57361nat) + seq![59u8] + decimal_bytes(modifier_param_spec(m) as nat) + seq![58u8, 49u8, 117u8]),
        press.key == LogicalKey::Named(NamedKey::Pause) ==> encode_spec(press, m, mode) == Some(seq![27u8, 91u8] + decimal_bytes(57362nat) + seq![59u8] + decimal_bytes(modifier_param_spec(m) as nat) + seq![58u8, 49u8, 117u8]),
        press.key == LogicalKey::Named(NamedKey::ContextMenu) ==> encode_spec(press, m, mode) == Some(seq![27u8, 91u8] + decimal_bytes(57363nat) + seq![59u8] + decimal_bytes(modifier_param_spec(m) as nat) + seq![58u8, 49u8, 117u8]),
        press.key == LogicalKey::Named(NamedKey::F1) ==> encode_spec(press, m, mode) == Some(seq![27u8, 91u8] + decimal_bytes(57364nat) + seq![59u8] + decimal_bytes(modifier_param_spec(m) as nat) + seq![58u8, 49u8, 117u8]),
        press.key == LogicalKey::Named(NamedKey::F2) ==> encode_spec(press, m, mode) == Some(seq![27u8, 91u8] + decimal_bytes(57365nat) + seq![59u8] + decimal_bytes(modifier_param_spec(m) as nat) + seq![58u8, 49u8, 117u8]),
        press.key == LogicalKey::Named(NamedKey::F3) ==> encode_spec(press, m, mode) == Some(seq![27u8, 91u8] + decimal_bytes(57366nat) + seq![59u8] + decimal_bytes(modifier_param_spec(m) as nat) + seq![58u8, 49u8, 117u8]),
        press.key == LogicalKey::Named(NamedKey::F4) ==> encode_spec(press, m, mode) == Some(seq![27u8, 91u8] + decimal_bytes(57367nat) + seq![59u8] + decimal_bytes(modifier_param_spec(m) as nat) + seq![58u8, 49u8, 117u8]),
        press.key == LogicalKey::Named(NamedKey::F5) ==> encode_spec(press, m, mode) == Some(seq![27u8, 91u8] + decimal_bytes(57368nat) + seq![59u8] + decimal_bytes(modifier_param_spec(m) as nat) + seq![58u8, 49u8, 117u8]),
        press.key == LogicalKey::Named(NamedKey::F6) ==> encode_spec(press, m, mode) == Some(seq![27u8, 91u8] + decimal_bytes(57369nat) + seq![59u8] + decimal_bytes(modifier_param_spec(m) as nat) + seq![58u8, 49u8, 117u8]),
        press.key == LogicalKey::Named(NamedKey::F7) ==> encode_spec(press, m, mode) == Some(seq![27u8, 91u8] + decimal_bytes(57370nat) + seq![59u8] + decimal_bytes(modifier_param_spec(m) as nat) + seq![58u8, 49u8, 117u8]),
        press.key == LogicalKey::Named(NamedKey::F8) ==> encode_spec(press, m, mode) == Some(seq![27u8, 91u8] + decimal_bytes(57371nat) + seq![59u8] + decimal_bytes(modifier_param_spec(m) as nat) + seq![58u8, 49u8, 117u8]),
        press.key == LogicalKey::Named(NamedKey::F9) ==> encode_spec(press, m, mode) == Some(seq![27u8, 91u8] + decimal_bytes(57372nat) + seq![59u8] + decimal_bytes(modifier_param_spec(m) as nat) + seq![58u8, 49u8, 117u8]),
        press.key == LogicalKey::Named(NamedKey::F10) ==> encode_spec(press, m, mode) == Some(seq![27u8, 91u8] + decimal_bytes(57373nat) + seq![59u8] + decimal_bytes(modifier_param_spec(m) as nat) + seq![58u8, 49u8, 117u8]),
        press.key == LogicalKey::Named(NamedKey::F11) ==> encode_spec(press, m, mode) == Some(seq![27u8, 91u8] + decimal_bytes(57374nat) + seq![59u8] + decimal_bytes(modifier_param_spec(m) as nat) + seq![58u8, 49u8, 117u8]),
        press.key == LogicalKey::Named(NamedKey::F12) ==> encode_spec(press, m, mode) == Some(seq![27u8, 91u8] + decimal_bytes(57375nat) + seq![59u8] + decimal_bytes(modifier_param_spec(m) as nat) + seq![58u8, 49u8, 117u8]),
        press.key == LogicalKey::Named(NamedKey::Other) ==> encode_spec(press, m, mode) is None,
{
    if let LogicalKey::Named(k) = press.key {
        if named_code(k) is Some {
            lemma_kitty_reported_named(press, m, mode, k);
        }
    }
}

proof fn lemma_kitty_reported_named(press: Press, m: Modifiers, mode: TermMode, k: NamedKey)
    requires
        press.state == ElementState::Pressed,
        !press.repeat,
        mode.disambiguate_esc_codes,
        mode.report_event_types,
        !mode.report_associated_text,
        press.key == LogicalKey::Named(k),
        named_code(k) is Some,
    ensures
        encode_spec(press, m, mode) == Some(
            seq![27u8, 91u8] + decimal_bytes(named_code(k)->0) + seq![59u8] + decimal_bytes(
                modifier_param_spec(m) as nat,
            ) + seq![58u8, 49u8, 117u8],
        ),
{
    let param = modifier_param_spec(m);
    assert(decimal_bytes(1) == seq![49u8]);
    assert(key_code_spec(press) == named_code(k));
    let mf = modifier_field(param, true, 1);
    assert(mf == seq![59u8] + decimal_bytes(param as nat) + (seq![58u8] + decimal_bytes(1)));
    assert(text_field(param, true, None) =~= Seq::<u8>::empty());
    assert(seq![27u8, 91u8] + kitty_params(named_code(k)->0, param, true, 1, None) + seq![117u8] =~= seq![
        27u8,
        91u8,
    ] + decimal_bytes(named_code(k)->0) + seq![59u8] + decimal_bytes(param as nat) + seq![58u8, 49u8, 117u8]);
}

/// xterm's modifier parameter is one more than the sum of Shift 1, Alt 2,
/// Ctrl 4 and Super 8, so it lies between 1 (nothing held) and 16, and
/// different sets of modifiers get different parameters.
pub proof fn lemma_modifier_params(m: Modifiers, n: Modifiers)
    ensures
        1 <= modifier_param_spec(m) <= 16,
        modifier_param_spec(m) == 1 + (if m.shift { 1int } else { 0 }) + (if m.alt { 2int } else { 0 }) + (if m.ctrl {
            4int
        } else {
            0
        }) + (if m.logo { 8int } else { 0 }),
        modifier_param_spec(m) == modifier_param_spec(n) ==> m == n,
{
}

/// The legacy keys with a byte of their own: Shift+Tab is back-tab
/// (`CSI Z`); otherwise Tab is HT, Enter CR, Escape ESC, Backspace DEL
/// (BS with Ctrl, which line editors read as "kill word") and Ctrl+Space
/// NUL, each after ESC when Alt is held.
pub proof fn lemma_legacy_single_byte_keys(press: Press, m: Modifiers, mode: TermMode)
    requires
        press.state == ElementState::Pressed,
        !mode.disambiguate_esc_codes,
        !m.logo,
    ensures
        press.key == LogicalKey::Named(NamedKey::Tab) && m.shift ==> encode_spec(press, m, mode) == Some(
            seq![27u8, 91u8, 90u8],
        ),
        press.key == LogicalKey::Named(NamedKey::Tab) && !m.shift ==> encode_spec(press, m, mode) == Some(
            if m.alt { seq![27u8, 9u8] } else { seq![9u8] },
        ),
        press.key == LogicalKey::Named(NamedKey::Enter) ==> encode_spec(press, m, mode) == Some(
            if m.alt { seq![27u8, 13u8] } else { seq![13u8] },
        ),
        press.key == LogicalKey::Named(NamedKey::Escape) ==> encode_spec(press, m, mode) == Some(
            if m.alt { seq![27u8, 27u8] } else { seq![27u8] },
        ),
        press.key == LogicalKey::Named(NamedKey::Backspace) && m.ctrl ==> encode_spec(press, m, mode) == Some(
            if m.alt { seq![27u8, 8u8] } else { seq![8u8] },
        ),
        press.key == LogicalKey::Named(NamedKey::Backspace) && !m.ctrl ==> encode_spec(press, m, mode) == Some(
            if m.alt { seq![27u8, 127u8] } else { seq![127u8] },
        ),
        press.key == LogicalKey::Named(NamedKey::Space) && m.ctrl ==> encode_spec(press, m, mode) == Some(
            if m.alt { seq![27u8, 0u8] } else { seq![0u8] },
        ),
{
}

/// The chord a press makes names its key by the arrow it is, or by its
/// single character with an ASCII capital lowered (Shift+E is the chord
/// key `e`); no other key makes a chord.
pub proof fn lemma_chord_keys(key: LogicalKey, c: char)
    ensures
        key == LogicalKey::Named(NamedKey::ArrowUp) ==> chord_key_spec(key) == Some(crate::keymap::Key::Up),
        key == LogicalKey::Named(NamedKey::ArrowDown) ==> chord_key_spec(key) == Some(crate::keymap::Key::Down),
        key == LogicalKey::Named(NamedKey::ArrowLeft) ==> chord_key_spec(key) == Some(crate::keymap::Key::Left),
        key == LogicalKey::Named(NamedKey::ArrowRight) ==> chord_key_spec(key) == Some(crate::keymap::Key::Right),
        single_char_spec(key) == Some(c) && !('A' <= c <= 'Z') ==> chord_key_spec(key) == Some(
            crate::keymap::Key::Char(c),
        ),
        single_char_spec(key) == Some(c) && 'A' <= c <= 'Z' ==> chord_key_spec(key) == Some(
            crate::keymap::Key::Char(((c as u32) + 32) as char),
        ),
        single_char_spec(key) is None && !(key == LogicalKey::Named(NamedKey::ArrowUp) || key == LogicalKey::Named(
            NamedKey::ArrowDown,
        ) || key == LogicalKey::Named(NamedKey::ArrowLeft) || key == LogicalKey::Named(NamedKey::ArrowRight))
            ==> chord_key_spec(key) is None,
{
}

/// With event types reported, a character key's sequence carries the event
/// as the modifier field's sub-parameter: `:1` for a press, `:2` for a
/// repeat and `:3` for a release, as in `CSI 97;1:3u` for letting go of A.
pub proof fn lemma_kitty_event_types(press: Press, c: char, m: Modifiers, mode: TermMode)
    requires
        mode.disambiguate_esc_codes,
        mode.report_event_types,
        !mode.report_associated_text,
        single_char_spec(press.key) == Some(c),
        'a' <= c <= 'z',
    ensures
        encode_spec(press, m, mode) == Some(
            seq![27u8, 91u8] + decimal_bytes(c as u32 as nat) + seq![59u8] + decimal_bytes(modifier_param_spec(m) as nat)
                + seq![58u8] + seq![
                if press.state == ElementState::Released {
                    51u8
                } else if press.repeat {
                    50u8
                } else {
                    49u8
                },
            ] + seq![117u8],
        ),
{
    assert(named_of(press.key) is None);
    assert(decimal_bytes(1) == seq![49u8]);
    assert(decimal_bytes(2) == seq![50u8]);
    assert(decimal_bytes(3) == seq![51u8]);
    let param = modifier_param_spec(m);
    let et = event_type_spec(press);
    assert(text_field(param, true, None) =~= Seq::<u8>::empty());
    assert(seq![27u8, 91u8] + kitty_params(c as u32 as nat, param, true, et, None) + seq![117u8] =~= seq![27u8, 91u8]
        + decimal_bytes(c as u32 as nat) + seq![59u8] + decimal_bytes(param as nat) + seq![58u8] + decimal_bytes(
        et as nat,
    ) + seq![117u8]);
}

/// With associated text reported and every key an escape, typing a
/// lowercase letter unmodified sends `CSI <key> ; 1 ; <text> u`: the `1`
/// holds the empty modifier field's place, and the text is the codepoint
/// typed (`CSI 97;1;97u` for `a`).
pub proof fn lemma_kitty_associated_text(press: Press, c: char, mode: TermMode)
    requires
        press.state == ElementState::Pressed,
        !press.repeat,
        mode.disambiguate_esc_codes,
        !mode.report_event_types,
        mode.report_all_keys_as_esc,
        mode.report_associated_text,
        single_char_spec(press.key) == Some(c),
        'a' <= c <= 'z',
        press.text matches Some(t) && t@ == seq![c],
    ensures
        encode_spec(press, no_modifiers(), mode) == Some(
            seq![27u8, 91u8] + decimal_bytes(c as u32 as nat) + seq![59u8, 49u8, 59u8] + decimal_bytes(c as u32 as nat)
                + seq![117u8],
        ),
{
    assert(named_of(press.key) is None);
    let t = press.text->0@;
    assert(!is_control_char(c));
    assert(associated_text_spec(press, no_modifiers()) == Some(t));
    assert(codepoints(t) == decimal_bytes(c as u32 as nat));
    assert(modifier_field(1, false, 1) =~= Seq::<u8>::empty());
    assert(seq![27u8, 91u8] + kitty_params(c as u32 as nat, 1, false, 1, Some(t)) + seq![117u8] =~= seq![27u8, 91u8]
        + decimal_bytes(c as u32 as nat) + seq![59u8, 49u8, 59u8] + decimal_bytes(c as u32 as nat) + seq![117u8]);
}

/// Under the legacy encoding, ordinary typing sends the composed text as
/// UTF-8, and Alt sends ESC before it ("Meta sends Escape"); a press that
/// composed no text and is no key of its own sends nothing.
pub proof fn lemma_legacy_typed_text(press: Press, m: Modifiers, mode: TermMode)
    requires
        press.state == ElementState::Pressed,
        !mode.disambiguate_esc_codes,
        press.key is Character,
        !m.ctrl,
        !m.logo,
    ensures
        press.text matches Some(t) && t@.len() > 0 && !m.alt ==> encode_spec(press, m, mode) == Some(encode_utf8(press.text->0@)),
        press.text matches Some(t) && m.alt && single_char_spec(press.key) is Some ==> encode_spec(press, m, mode) == Some(
            seq![27u8] + encode_utf8(press.text->0@),
        ),
        press.text is None && !m.alt ==> encode_spec(press, m, mode) is None,
{
}

/// The legacy encoding has one byte for Enter and nowhere to put a
/// modifier: Shift+Enter, Ctrl+Enter and Enter all send a carriage return
/// (after ESC when Alt is held).
pub proof fn lemma_legacy_enter_ignores_shift_and_ctrl(m: Modifiers, mode: TermMode)
    ensures
        legacy_named(NamedKey::Enter, m, mode) == Some(with_alt_spec(seq![13u8], m)),
        legacy_named(NamedKey::Enter, m, mode) == legacy_named(
            NamedKey::Enter,
            Modifiers { shift: false, ctrl: false, ..m },
            mode,
        ),
{
}

/// Super is never an input modifier under the legacy encoding: no press
/// holding it sends anything.
pub proof fn lemma_legacy_never_forwards_super(press: Press, m: Modifiers, mode: TermMode)
    requires
        m.logo,
        !mode.disambiguate_esc_codes,
    ensures
        encode_spec(press, m, mode) is None,
{
}

/// A key release sends nothing unless the program asked the kitty protocol
/// to report event types.
pub proof fn lemma_releases_are_silent_unless_reported(press: Press, m: Modifiers, mode: TermMode)
    requires
        press.state == ElementState::Released,
        !(mode.disambiguate_esc_codes && mode.report_event_types),
    ensures
        encode_spec(press, m, mode) is None,
{
}

} // verus!
