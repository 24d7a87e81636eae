//! Configuration values and rules: general settings and their bounds, the
//! cursor style, `#rrggbb` colors, and where the config directory lives.

use vstd::prelude::*;

use crate::text::{ascii_lower, chars_of, decimal, decimal_chars, lower_seq, push_char, push_str_chars, string_from_chars};

verus! {

/// A ceiling on retained history per pane. Scrollback is allocated as it
/// fills, so this bounds how much memory a pane can eventually reach.
pub const MAX_SCROLLBACK_LINES: usize = 1000000;

/// The smallest font size, in whole points, the keyboard zoom steps down
/// to: text layout cannot work with a zero-height line.
pub const MIN_FONT_SIZE: u32 = 6;

/// The largest font size, in whole points, the keyboard zoom steps up to.
pub const MAX_FONT_SIZE: u32 = 48;

/// The built-in font size, in points, that resetting the zoom returns to.
pub const DEFAULT_FONT_SIZE: u32 = 13;

/// General settings.
pub struct General {
    /// Empty means "platform default".
    pub default_shell: String,
    pub scrollback_lines: usize,
    /// Ask before pasting text that would run more than one command in a
    /// program that hasn't enabled bracketed paste.
    pub confirm_multiline_paste: bool,
}

impl Default for General {
    fn default() -> (r: Self)
        ensures
            r.default_shell@ == Seq::<char>::empty(),
            r.scrollback_lines == 5000,
            r.confirm_multiline_paste,
    {
        General { default_shell: String::new(), scrollback_lines: 5000, confirm_multiline_paste: true }
    }
}

/// What capping `lines` of scrollback reports.
pub open spec fn scrollback_adjustment(lines: nat) -> Seq<char> {
    "scrollback_lines "@ + decimal(lines) + " exceeds the 1000000 line maximum; using 1000000"@
}

impl General {
    /// Caps `scrollback_lines` at [`MAX_SCROLLBACK_LINES`], saying what it
    /// changed, if anything, in words for the user.
    pub fn sanitize(&mut self) -> (adjustment: Option<String>)
        ensures
            final(self).default_shell == old(self).default_shell,
            final(self).confirm_multiline_paste == old(self).confirm_multiline_paste,
            old(self).scrollback_lines <= MAX_SCROLLBACK_LINES ==> final(self).scrollback_lines == old(
                self,
            ).scrollback_lines && adjustment is None,
            old(self).scrollback_lines > MAX_SCROLLBACK_LINES ==> final(self).scrollback_lines
                == MAX_SCROLLBACK_LINES,
            old(self).scrollback_lines > MAX_SCROLLBACK_LINES ==> (adjustment matches Some(text)
                && text@ == scrollback_adjustment(old(self).scrollback_lines as nat)),
    {
        if self.scrollback_lines > MAX_SCROLLBACK_LINES {
            let mut text: Vec<char> = Vec::new();
            push_str_chars(&mut text, "scrollback_lines ");
            let digits = decimal_chars(self.scrollback_lines as u64);
            crate::text::extend_chars(&mut text, digits.as_slice());
            push_str_chars(&mut text, " exceeds the 1000000 line maximum; using 1000000");
            self.scrollback_lines = MAX_SCROLLBACK_LINES;
            proof {
                reveal_strlit("scrollback_lines ");
                reveal_strlit(" exceeds the 1000000 line maximum; using 1000000");
            }
            Some(string_from_chars(text.as_slice()))
        } else {
            None
        }
    }
}

/// Cursor settings.
#[derive(Debug, Clone, Copy, PartialEq, Eq, Structural)]
pub struct Cursor {
    pub style: CursorStyle,
}

/// How the cursor is drawn.
#[derive(Debug, Clone, Copy, PartialEq, Eq, Structural)]
pub enum CursorStyle {
    Block,
    Underline,
    Beam,
}

impl Default for CursorStyle {
    fn default() -> (r: Self)
        ensures
            r == CursorStyle::Block,
    {
        CursorStyle::Block
    }
}

impl Default for Cursor {
    fn default() -> (r: Self)
        ensures
            r.style == CursorStyle::Block,
    {
        Cursor { style: CursorStyle::Block }
    }
}

/// The value of a hexadecimal digit, in either case.
pub open spec fn hex_digit(c: char) -> Option<int> {
    if '0' <= c && c <= '9' {
        Some(c as int - 48)
    } else if 'a' <= c && c <= 'f' {
        Some(c as int - 87)
    } else if 'A' <= c && c <= 'F' {
        Some(c as int - 55)
    } else {
        None
    }
}

/// A two-character string read as a base-16 byte, the way
/// `u8::from_str_radix` reads it: hex digits, optionally after a `+`.
pub open spec fn hex_pair(a: char, b: char) -> Option<u8> {
    if a == '+' {
        match hex_digit(b) {
            Some(v) => Some(v as u8),
            None => None,
        }
    } else {
        match (hex_digit(a), hex_digit(b)) {
            (Some(x), Some(y)) => Some((16 * x + y) as u8),
            _ => None,
        }
    }
}

/// `s` without one leading `#`, if it has one.
pub open spec fn hex_body(s: Seq<char>) -> Seq<char> {
    if s.len() > 0 && s[0] == '#' {
        s.drop_first()
    } else {
        s
    }
}

/// `#rrggbb` (or `rrggbb`) read as three bytes.
pub open spec fn parse_hex_rgb_spec(s: Seq<char>) -> Option<Seq<u8>> {
    let h = hex_body(s);
    if h.len() != 6 {
        None
    } else {
        match (hex_pair(h[0], h[1]), hex_pair(h[2], h[3]), hex_pair(h[4], h[5])) {
            (Some(r), Some(g), Some(b)) => Some(seq![r, g, b]),
            _ => None,
        }
    }
}

fn hex_digit_value(c: char) -> (r: Option<u8>)
    ensures
        match hex_digit(c) {
            Some(v) => r == Some(v as u8) && v < 16,
            None => r is None,
        },
{
    if '0' <= c && c <= '9' {
        Some((c as u32 - 48) as u8)
    } else if 'a' <= c && c <= 'f' {
        Some((c as u32 - 87) as u8)
    } else if 'A' <= c && c <= 'F' {
        Some((c as u32 - 55) as u8)
    } else {
        None
    }
}

fn parse_hex_pair(a: char, b: char) -> (r: Option<u8>)
    ensures
        r == hex_pair(a, b),
{
    if a == '+' {
        hex_digit_value(b)
    } else {
        match (hex_digit_value(a), hex_digit_value(b)) {
            (Some(x), Some(y)) => Some(16 * x + y),
            _ => None,
        }
    }
}

/// Parses `#rrggbb` (or `rrggbb`) hex into its three channel bytes.
pub fn parse_hex_rgb(s: &str) -> (r: Option<[u8; 3]>)
    ensures
        match parse_hex_rgb_spec(s@) {
            Some(rgb) => r matches Some(a) && a@ == rgb,
            None => r is None,
        },
{
    let chars = chars_of(s);
    let start: usize = if chars.len() > 0 && chars[0] == '#' {
        1
    } else {
        0
    };
    proof {
        if start == 1 {
            assert(hex_body(s@) =~= chars@.subrange(1, chars@.len() as int));
        } else {
            assert(hex_body(s@) =~= chars@);
        }
    }
    if chars.len() - start != 6 {
        return None;
    }
    let r = parse_hex_pair(chars[start], chars[start + 1]);
    let g = parse_hex_pair(chars[start + 2], chars[start + 3]);
    let b = parse_hex_pair(chars[start + 4], chars[start + 5]);
    match (r, g, b) {
        (Some(r), Some(g), Some(b)) => {
            let rgb = [r, g, b];
            assert(rgb@ =~= seq![r, g, b]);
            Some(rgb)
        },
        _ => None,
    }
}

/// The lowercase hexadecimal digit for `d < 16`.
pub open spec fn hex_char(d: int) -> char {
    if d < 10 {
        (48 + d) as char
    } else {
        (87 + d) as char
    }
}

/// `#rrggbb` for three channel bytes, in lowercase.
pub open spec fn hex_rgb_text(rgb: Seq<u8>) -> Seq<char> {
    seq![
        '#',
        hex_char(rgb[0] as int / 16),
        hex_char(rgb[0] as int % 16),
        hex_char(rgb[1] as int / 16),
        hex_char(rgb[1] as int % 16),
        hex_char(rgb[2] as int / 16),
        hex_char(rgb[2] as int % 16),
    ]
}

fn hex_digit_char(d: u8) -> (c: char)
    requires
        d < 16,
    ensures
        c == hex_char(d as int),
{
    if d < 10 {
        (48 + d) as char
    } else {
        (87 + d) as char
    }
}

/// Formats three channel bytes as `#rrggbb`, in lowercase.
pub fn format_hex_rgb(rgb: [u8; 3]) -> (r: String)
    ensures
        r@ == hex_rgb_text(rgb@),
{
    let mut out = String::new();
    push_char(&mut out, '#');
    let mut i: usize = 0;
    while i < 3
        invariant
            i <= 3,
            out@.len() == 1 + 2 * i,
            out@ =~= hex_rgb_text(rgb@).subrange(0, 1 + 2 * i),
        decreases 3 - i,
    {
        let v = rgb[i];
        push_char(&mut out, hex_digit_char(v / 16));
        push_char(&mut out, hex_digit_char(v % 16));
        i = i + 1;
    }
    assert(hex_rgb_text(rgb@).subrange(0, 7) =~= hex_rgb_text(rgb@));
    out
}

/// Formatting a color and reading it back gives the same three bytes.
pub proof fn lemma_hex_rgb_round_trip(rgb: Seq<u8>)
    requires
        rgb.len() == 3,
    ensures
        parse_hex_rgb_spec(hex_rgb_text(rgb)) == Some(rgb),
{
    let t = hex_rgb_text(rgb);
    assert(hex_body(t) =~= t.drop_first());
    assert forall|k: int| 0 <= k < 3 implies hex_pair(t[1 + 2 * k], t[2 + 2 * k]) == Some(
        #[trigger] rgb[k],
    ) by {
        let v = rgb[k] as int;
        assert(t[1 + 2 * k] == hex_char(v / 16));
        assert(t[2 + 2 * k] == hex_char(v % 16));
        assert(v / 16 < 16);
        assert(hex_digit(hex_char(v / 16)) == Some(v / 16));
        assert(hex_digit(hex_char(v % 16)) == Some(v % 16));
        assert(16 * (v / 16) + v % 16 == v);
    }
    assert(hex_pair(t[1], t[2]) == Some(rgb[0]));
    assert(hex_pair(t[3], t[4]) == Some(rgb[1]));
    assert(hex_pair(t[5], t[6]) == Some(rgb[2]));
    assert(seq![rgb[0], rgb[1], rgb[2]] =~= rgb);
}

/// A directory: a base path and the components joined onto it in turn.
pub struct ConfigDir {
    pub base: String,
    pub components: Vec<&'static str>,
}

/// The base and components as character sequences.
pub open spec fn config_dir_view(d: ConfigDir) -> (Seq<char>, Seq<Seq<char>>) {
    (d.base@, d.components@.map_values(|c: &'static str| c@))
}

/// `home`, or `.` (the process's own current directory) when unset.
pub open spec fn home_or_current(home: Option<Seq<char>>) -> Seq<char> {
    match home {
        Some(h) => h,
        None => "."@,
    }
}

fn home_dir(home: Option<&str>) -> (r: String)
    ensures
        r@ == home_or_current(match home {
            Some(h) => Some(h@),
            None => None,
        }),
{
    match home {
        Some(h) => h.to_owned(),
        None => ".".to_owned(),
    }
}

/// The config directory on Linux and the other Unixes:
/// `$XDG_CONFIG_HOME/pain` when that is set, else `~/.config/pain`.
pub fn dir(xdg_config_home: Option<&str>, home: Option<&str>) -> (r: ConfigDir)
    ensures
        config_dir_view(r) == match xdg_config_home {
            Some(x) => (x@, seq!["pain"@]),
            None => (
                home_or_current(match home {
                    Some(h) => Some(h@),
                    None => None,
                }),
                seq![".config"@, "pain"@],
            ),
        },
{
    match xdg_config_home {
        Some(x) => {
            let components = vec!["pain"];
            let r = ConfigDir { base: x.to_owned(), components };
            assert(config_dir_view(r).1 =~= seq!["pain"@]);
            r
        },
        None => {
            let components = vec![".config", "pain"];
            let r = ConfigDir { base: home_dir(home), components };
            assert(config_dir_view(r).1 =~= seq![".config"@, "pain"@]);
            r
        },
    }
}

/// The config directory on macOS: `~/Library/Application Support/pain`.
pub fn dir_macos(home: Option<&str>) -> (r: ConfigDir)
    ensures
        config_dir_view(r) == (
            home_or_current(match home {
                Some(h) => Some(h@),
                None => None,
            }),
            seq!["Library"@, "Application Support"@, "pain"@],
        ),
{
    let components = vec!["Library", "Application Support", "pain"];
    let r = ConfigDir { base: home_dir(home), components };
    assert(config_dir_view(r).1 =~= seq!["Library"@, "Application Support"@, "pain"@]);
    r
}

/// The config directory on Windows: `%APPDATA%\pain`, or `pain` under the
/// current directory when `%APPDATA%` is unset.
pub fn dir_windows(appdata: Option<&str>) -> (r: ConfigDir)
    ensures
        config_dir_view(r) == (
            home_or_current(match appdata {
                Some(a) => Some(a@),
                None => None,
            }),
            seq!["pain"@],
        ),
{
    let components = vec!["pain"];
    let r = ConfigDir { base: home_dir(appdata), components };
    assert(config_dir_view(r).1 =~= seq!["pain"@]);
    r
}

/// The hexadecimal digits, by value, as written in lowercase.
pub open spec fn hex_digits_lower() -> Seq<char> {
    "0123456789abcdef"@
}

/// Every character a hexadecimal digit may be written as.
pub open spec fn hex_digits_any_case() -> Seq<char> {
    "0123456789abcdefABCDEF"@
}

/// A hexadecimal digit is a character of `0-9`, `a-f` or `A-F`, and its
/// value is the position of its lowercase form in `0123456789abcdef`.
pub proof fn lemma_hex_digit_values(c: char)
    ensures
        hex_digit(c) is Some <==> hex_digits_any_case().contains(c),
        hex_digit(c) matches Some(v) ==> 0 <= v < 16 && hex_digits_lower()[v] == ascii_lower(c),
{
    reveal_strlit("0123456789abcdef");
    reveal_strlit("0123456789abcdefABCDEF");
    let any = hex_digits_any_case();
    let low = hex_digits_lower();
    assert(low =~= seq!['0', '1', '2', '3', '4', '5', '6', '7', '8', '9', 'a', 'b', 'c', 'd', 'e', 'f']);
    assert(any =~= seq![
        '0', '1', '2', '3', '4', '5', '6', '7', '8', '9', 'a', 'b', 'c', 'd', 'e', 'f', 'A', 'B', 'C', 'D', 'E', 'F'
    ]);
    if any.contains(c) {
        let k = choose|k: int| 0 <= k < any.len() && any[k] == c;
        assert(0 <= k < 22);
        assert(hex_digit(c) is Some);
    }
    if hex_digit(c) is Some {
        let v = hex_digit(c)->0;
        if '0' <= c && c <= '9' {
            assert(any[v] == c);
        } else if 'a' <= c && c <= 'f' {
            assert(any[v] == c);
        } else {
            assert(any[v + 6] == c);
        }
        assert(ascii_lower(c) == low[v]);
    }
}

/// Reading a color ignores the case of its hexadecimal digits.
pub proof fn lemma_hex_rgb_ignores_case(s: Seq<char>)
    ensures
        parse_hex_rgb_spec(lower_seq(s)) == parse_hex_rgb_spec(s),
{
    let l = lower_seq(s);
    assert forall|c: char| #[trigger] hex_digit(ascii_lower(c)) == hex_digit(c) by {}
    assert(hex_body(l) =~= lower_seq(hex_body(s)));
}

/// A color is read exactly from six hexadecimal digits, after an optional
/// `#`: each channel is the two digits' values, high then low, and written
/// back it is the same text, lowercased, after a `#`.
pub proof fn lemma_hex_rgb_reads_its_digits(s: Seq<char>)
    requires
        forall|k: int| 0 <= k < hex_body(s).len() ==> #[trigger] hex_body(s)[k] != '+',
    ensures
        parse_hex_rgb_spec(s) is Some <==> hex_body(s).len() == 6 && forall|k: int|
            0 <= k < 6 ==> hex_digits_any_case().contains(#[trigger] hex_body(s)[k]),
        parse_hex_rgb_spec(s) matches Some(rgb) ==> forall|j: int|
            0 <= j < 3 ==> hex_digits_lower()[#[trigger] rgb[j] as int / 16] == ascii_lower(hex_body(s)[2 * j])
                && hex_digits_lower()[rgb[j] as int % 16] == ascii_lower(hex_body(s)[2 * j + 1]),
        parse_hex_rgb_spec(s) matches Some(rgb) ==> hex_rgb_text(rgb) == seq!['#'] + lower_seq(hex_body(s)),
{
    let h = hex_body(s);
    if h.len() == 6 {
        assert forall|k: int| 0 <= k < 6 implies hex_digits_any_case().contains(#[trigger] h[k]) == (hex_digit(h[k]) is Some) by {
            lemma_hex_digit_values(h[k]);
        }
        if parse_hex_rgb_spec(s) is Some {
            let rgb = parse_hex_rgb_spec(s)->0;
            assert forall|j: int| 0 <= j < 3 implies hex_digits_lower()[#[trigger] rgb[j] as int / 16] == ascii_lower(h[2 * j])
                && hex_digits_lower()[rgb[j] as int % 16] == ascii_lower(h[2 * j + 1])
                && hex_char(rgb[j] as int / 16) == ascii_lower(h[2 * j])
                && hex_char(rgb[j] as int % 16) == ascii_lower(h[2 * j + 1]) by {
                lemma_hex_digit_values(h[2 * j]);
                lemma_hex_digit_values(h[2 * j + 1]);
                let x = hex_digit(h[2 * j])->0;
                let y = hex_digit(h[2 * j + 1])->0;
                assert(rgb[j] as int == 16 * x + y);
                assert((16 * x + y) / 16 == x && (16 * x + y) % 16 == y) by (nonlinear_arith)
                    requires
                        0 <= x < 16,
                        0 <= y < 16,
                ;
                reveal_strlit("0123456789abcdef");
                assert(hex_digits_lower() =~= seq![
                    '0', '1', '2', '3', '4', '5', '6', '7', '8', '9', 'a', 'b', 'c', 'd', 'e', 'f'
                ]);
            }
            assert(hex_rgb_text(rgb) =~= seq!['#'] + lower_seq(h));
        }
    }
}

/// Scrollback is capped at a million lines, and a capped value is reported
/// as `scrollback_lines N exceeds the 1000000 line maximum; using 1000000`;
/// keyboard zoom keeps the font between 6 and 48 points and resets to 13.
pub proof fn lemma_config_bounds(lines: nat)
    ensures
        MAX_SCROLLBACK_LINES == 1000000,
        MIN_FONT_SIZE == 6,
        MAX_FONT_SIZE == 48,
        DEFAULT_FONT_SIZE == 13,
        scrollback_adjustment(lines) == "scrollback_lines "@ + decimal(lines) + " exceeds the 1000000 line maximum; using 1000000"@,
{
}

} // verus!
