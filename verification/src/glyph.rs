//! Glyph pixels as the rasterizer hands them over, color-emoji detection,
//! and the choice of font family a run of text is drawn with.

use vstd::prelude::*;

use crate::text::{
    chars_eq, chars_of, eq_ignore_ascii_case, eq_ignore_ascii_case_spec, lemma_seq_lt_total,
    lemma_seq_lt_transitive, seq_le, seq_lt, sorted_order, string_from_chars,
};

verus! {

/// The astral emoji blocks: Miscellaneous Symbols and Pictographs,
/// Emoticons, Transport and Map Symbols, Supplemental Symbols and
/// Pictographs, and Symbols and Pictographs Extended-A.
///
/// The U+2600–U+27BF symbols (`✓`, `★`, `➜`) are deliberately left out:
/// terminal programs print them as ordinary text all the time.
pub open spec fn is_emoji_codepoint(v: u32) -> bool {
    ||| 0x1F300 <= v <= 0x1F5FF
    ||| 0x1F600 <= v <= 0x1F64F
    ||| 0x1F680 <= v <= 0x1F6FF
    ||| 0x1F900 <= v <= 0x1F9FF
    ||| 0x1FA70 <= v <= 0x1FAFF
}

/// The dingbat and miscellaneous-symbol blocks (U+2600–U+27BF), which
/// terminal programs print as ordinary text, are never treated as emoji.
pub proof fn lemma_text_symbols_are_not_emoji(v: u32)
    requires
        0x2600 <= v <= 0x27BF,
    ensures
        !is_emoji_codepoint(v),
{
}

/// The emoji are U+1F300 to U+1F64F, U+1F680 to U+1F6FF, U+1F900 to
/// U+1F9FF and U+1FA70 to U+1FAFF: nothing in the Basic Multilingual Plane,
/// and none of the gaps between those ranges.
pub proof fn lemma_emoji_ranges(v: u32)
    ensures
        is_emoji_codepoint(v) <==> (0x1F300 <= v <= 0x1F64F || 0x1F680 <= v <= 0x1F6FF || 0x1F900 <= v <= 0x1F9FF
            || 0x1FA70 <= v <= 0x1FAFF),
        v < 0x10000 ==> !is_emoji_codepoint(v),
{
}

/// Premultiplying rounds to the nearest level: the result times 255 is
/// within 127 of the channel times its alpha.
pub proof fn lemma_premultiplied_channel_rounds(channel: u8, alpha: u8)
    ensures
        -127 <= 255 * premultiplied_channel(channel, alpha) - channel * alpha <= 127,
{
    let x = channel * alpha + 127;
    assert(255 * (x / 255) <= x < 255 * (x / 255) + 255) by (nonlinear_arith)
        requires
            x >= 0,
    ;
}

/// Whether `c` is a character fonts normally draw as a color emoji.
pub fn is_emoji_presentation(c: char) -> (r: bool)
    ensures
        r == is_emoji_codepoint(c as u32),
{
    let v: u32 = c as u32;
    (0x1F300 <= v && v <= 0x1F5FF) || (0x1F600 <= v && v <= 0x1F64F) || (0x1F680 <= v && v
        <= 0x1F6FF) || (0x1F900 <= v && v <= 0x1F9FF) || (0x1FA70 <= v && v <= 0x1FAFF)
}

/// One straight-alpha channel scaled by its pixel's alpha, rounded to the
/// nearest level rather than truncated.
pub open spec fn premultiplied_channel(channel: u8, alpha: u8) -> int {
    (channel * alpha + 127) / 255
}

/// Straight RGBA converted to premultiplied: each whole pixel keeps its
/// alpha and has its three color channels scaled by it. A trailing partial
/// pixel is dropped.
pub open spec fn premultiplied(straight: Seq<u8>) -> Seq<u8> {
    Seq::new(
        ((straight.len() / 4) * 4) as nat,
        |i: int|
            if i % 4 == 3 {
                straight[i]
            } else {
                premultiplied_channel(straight[i], straight[i - i % 4 + 3]) as u8
            },
    )
}

fn scale_channel(channel: u8, alpha: u8) -> (r: u8)
    ensures
        r as int == premultiplied_channel(channel, alpha),
{
    assert(channel as u32 * alpha as u32 <= 65025) by (nonlinear_arith)
        requires
            channel <= 255,
            alpha <= 255,
    ;
    let product: u32 = channel as u32 * alpha as u32;
    let scaled: u32 = (product + 127) / 255;
    assert(scaled <= 255);
    scaled as u8
}

/// Converts straight RGBA to premultiplied, scaling each color channel by
/// the pixel's own alpha.
pub fn premultiply(straight: &[u8]) -> (out: Vec<u8>)
    ensures
        out@ == premultiplied(straight@),
{
    let len = straight.len();
    let pixels = len / 4;
    let mut out: Vec<u8> = Vec::new();
    let mut p: usize = 0;
    while p < pixels
        invariant
            len == straight@.len(),
            pixels == straight@.len() / 4,
            p <= pixels,
            out@.len() == 4 * p,
            forall|i: int| 0 <= i < out@.len() ==> out@[i] == premultiplied(straight@)[i],
        decreases pixels - p,
    {
        assert(4 * p + 3 < straight@.len()) by (nonlinear_arith)
            requires
                p < pixels,
                pixels == straight@.len() / 4,
        ;
        let base = 4 * p;
        let alpha = straight[base + 3];
        let r = scale_channel(straight[base], alpha);
        let g = scale_channel(straight[base + 1], alpha);
        let b = scale_channel(straight[base + 2], alpha);
        out.push(r);
        out.push(g);
        out.push(b);
        out.push(alpha);
        proof {
            let want = premultiplied(straight@);
            assert(want.len() == pixels * 4);
            assert forall|i: int| 0 <= i < out@.len() implies out@[i] == want[i] by {
                if i >= base {
                    assert(i - i % 4 == base);
                }
            }
        }
        p = p + 1;
    }
    assert(out@ =~= premultiplied(straight@));
    out
}

/// A premultiplied channel never exceeds its own alpha; a fully opaque
/// pixel passes through untouched and a fully transparent one collapses to
/// zero.
pub proof fn lemma_premultiplied_channel_bounds(channel: u8, alpha: u8)
    ensures
        premultiplied_channel(channel, alpha) <= alpha,
        alpha == 255 ==> premultiplied_channel(channel, alpha) == channel,
        alpha == 0 ==> premultiplied_channel(channel, alpha) == 0,
{
    assert(channel * alpha <= 255 * alpha) by (nonlinear_arith)
        requires
            channel <= 255,
            alpha >= 0,
    ;
    assert((channel * alpha + 127) / 255 <= alpha) by (nonlinear_arith)
        requires
            channel * alpha <= 255 * alpha,
            alpha >= 0,
    ;
    if alpha == 255 {
        assert((channel * 255 + 127) / 255 == channel) by (nonlinear_arith)
            requires
                channel >= 0,
        ;
    }
}

/// A rasterized glyph's pixels, in whichever form the font provided.
pub enum GlyphPixels {
    /// 8-bit coverage; whatever draws it supplies the color.
    Mask(Vec<u8>),
    /// Premultiplied RGBA from a font that draws in its own colors.
    Color(Vec<u8>),
}

impl GlyphPixels {
    /// Whether these pixels carry their own color.
    pub fn is_color(&self) -> (r: bool)
        ensures
            r == (self is Color),
    {
        match self {
            GlyphPixels::Mask(_) => false,
            GlyphPixels::Color(_) => true,
        }
    }

    /// The raw bytes, whichever form they are in.
    pub fn bytes(&self) -> (r: &[u8])
        ensures
            r@ == match self {
                GlyphPixels::Mask(data) => data@,
                GlyphPixels::Color(data) => data@,
            },
    {
        match self {
            GlyphPixels::Mask(data) => data.as_slice(),
            GlyphPixels::Color(data) => data.as_slice(),
        }
    }
}

/// A rasterized glyph: its pixels plus its placement relative to the
/// cell's pen origin (baseline-left).
pub struct RasterizedGlyph {
    pub width: u32,
    pub height: u32,
    pub left: i32,
    pub top: i32,
    pub pixels: GlyphPixels,
}

/// What kind of image the rasterizer produced for a glyph.
#[derive(Debug, Clone, Copy, PartialEq, Eq, Structural)]
pub enum GlyphContent {
    /// One coverage byte per texel.
    Mask,
    /// Straight RGBA drawn by the font in its own colors.
    Color,
    /// Four bytes per texel of subpixel coverage.
    SubpixelMask,
}

/// The fourth byte of every whole four-byte texel.
pub open spec fn alpha_channel(data: Seq<u8>) -> Seq<u8> {
    Seq::new(data.len() / 4, |i: int| data[4 * i + 3])
}

/// The pixels a glyph image of kind `content` becomes.
pub open spec fn glyph_pixels_of(content: GlyphContent, data: Seq<u8>) -> Seq<u8> {
    match content {
        GlyphContent::Mask => data,
        GlyphContent::Color => premultiplied(data),
        GlyphContent::SubpixelMask => alpha_channel(data),
    }
}

fn alpha_bytes(data: &[u8]) -> (out: Vec<u8>)
    ensures
        out@ == alpha_channel(data@),
{
    let len = data.len();
    let n = len / 4;
    let mut out: Vec<u8> = Vec::new();
    let mut i: usize = 0;
    while i < n
        invariant
            len == data@.len(),
            n == data@.len() / 4,
            i <= n,
            out@ =~= alpha_channel(data@).subrange(0, i as int),
        decreases n - i,
    {
        assert(4 * i + 3 < data@.len()) by (nonlinear_arith)
            requires
                i < n,
                n == data@.len() / 4,
        ;
        out.push(data[4 * i + 3]);
        i = i + 1;
    }
    out
}

/// Turns a rasterizer image into a glyph, or `None` if it has no visible
/// extent. Color images are premultiplied; subpixel coverage is reduced to
/// its alpha channel, one coverage value per texel.
pub fn rasterized(
    width: u32,
    height: u32,
    left: i32,
    top: i32,
    content: GlyphContent,
    data: &[u8],
) -> (r: Option<RasterizedGlyph>)
    ensures
        (width == 0 || height == 0) ==> r is None,
        (width != 0 && height != 0) ==> (r matches Some(g) && g.width == width && g.height
            == height && g.left == left && g.top == top && g.pixels.is_color_spec() == (content
            == GlyphContent::Color) && g.pixels.bytes_spec() == glyph_pixels_of(content, data@)),
{
    if width == 0 || height == 0 {
        return None;
    }
    let pixels = match content {
        GlyphContent::Mask => GlyphPixels::Mask(vstd::slice::slice_to_vec(data)),
        GlyphContent::Color => GlyphPixels::Color(premultiply(data)),
        GlyphContent::SubpixelMask => GlyphPixels::Mask(alpha_bytes(data)),
    };
    Some(RasterizedGlyph { width, height, left, top, pixels })
}

impl GlyphPixels {
    /// Whether these pixels carry their own color.
    pub open spec fn is_color_spec(&self) -> bool {
        self is Color
    }

    /// The raw bytes.
    pub open spec fn bytes_spec(&self) -> Seq<u8> {
        match self {
            GlyphPixels::Mask(data) => data@,
            GlyphPixels::Color(data) => data@,
        }
    }
}

/// Whether every character of `s` is an emoji.
pub open spec fn all_emoji(s: Seq<char>) -> bool {
    forall|i: int| 0 <= i < s.len() ==> is_emoji_codepoint(#[trigger] s[i] as u32)
}

/// The family `text` is drawn with: the color emoji family when the run is
/// non-empty, made of emoji only, and such a family is installed;
/// otherwise the configured one.
pub open spec fn family_for_spec(
    text: Seq<char>,
    configured: Seq<char>,
    emoji_family: Option<Seq<char>>,
) -> Seq<char> {
    if text.len() > 0 && all_emoji(text) && emoji_family is Some {
        emoji_family->0
    } else {
        configured
    }
}

/// The family `text` should be rendered with. A run reaching the shaper
/// with the text family would resolve a monochrome outline, so an all-emoji
/// run names the color family explicitly.
pub fn family_for(text: &str, configured: &str, emoji_family: Option<&str>) -> (r: String)
    ensures
        r@ == family_for_spec(text@, configured@, match emoji_family {
            Some(f) => Some(f@),
            None => None,
        }),
{
    let chars = chars_of(text);
    let mut all = chars.len() > 0;
    let mut i: usize = 0;
    while i < chars.len()
        invariant
            i <= chars@.len(),
            all == (chars@.len() > 0 && forall|k: int|
                0 <= k < i ==> is_emoji_codepoint(#[trigger] chars@[k] as u32)),
        decreases chars@.len() - i,
    {
        if !is_emoji_presentation(chars[i]) {
            all = false;
        }
        i = i + 1;
    }
    match emoji_family {
        Some(family) if all => family.to_owned(),
        _ => configured.to_owned(),
    }
}

/// Whether a configured family name means "the system's default
/// monospace": empty, or `monospace` in any ASCII case.
pub open spec fn names_default_monospace_spec(name: Seq<char>) -> bool {
    name.len() == 0 || eq_ignore_ascii_case_spec(name, "monospace"@)
}

/// Whether `name` asks for the system default monospace face rather than a
/// family of that name.
pub fn names_default_monospace(name: &str) -> (r: bool)
    ensures
        r == names_default_monospace_spec(name@),
{
    let chars = chars_of(name);
    let generic = chars_of("monospace");
    chars.len() == 0 || eq_ignore_ascii_case(chars.as_slice(), generic.as_slice())
}

/// Whether some entry of `installed` matches `name`, ignoring ASCII case.
pub open spec fn installed_has(installed: Seq<Seq<char>>, name: Seq<char>) -> bool {
    exists|j: int| 0 <= j < installed.len() && eq_ignore_ascii_case_spec(#[trigger] installed[j], name)
}

/// The index of the first of `wanted` that `installed` has: the one that
/// `installed` has while it has none before it.
pub open spec fn first_present_index(wanted: Seq<Seq<char>>, installed: Seq<Seq<char>>) -> Option<int> {
    if exists|i: int|
        0 <= i < wanted.len() && #[trigger] installed_has(installed, wanted[i]) && forall|k: int|
            0 <= k < i ==> !installed_has(installed, #[trigger] wanted[k]) {
        Some(
            choose|i: int|
                0 <= i < wanted.len() && #[trigger] installed_has(installed, wanted[i]) && forall|k: int|
                    0 <= k < i ==> !installed_has(installed, #[trigger] wanted[k]),
        )
    } else {
        None
    }
}

/// `wanted` as character sequences.
pub open spec fn names_view(wanted: Seq<&'static str>) -> Seq<Seq<char>> {
    wanted.map_values(|w: &'static str| w@)
}

/// `installed` as character sequences.
pub open spec fn strings_view(installed: Seq<String>) -> Seq<Seq<char>> {
    installed.map_values(|s: String| s@)
}

fn has_installed(installed: &[String], name: &Vec<char>) -> (r: bool)
    ensures
        r == installed_has(strings_view(installed@), name@),
{
    let ghost view = strings_view(installed@);
    let mut j: usize = 0;
    while j < installed.len()
        invariant
            view == strings_view(installed@),
            j <= installed@.len(),
            forall|k: int| 0 <= k < j ==> !eq_ignore_ascii_case_spec(#[trigger] view[k], name@),
        decreases installed@.len() - j,
    {
        let have = chars_of(installed[j].as_str());
        if eq_ignore_ascii_case(have.as_slice(), name.as_slice()) {
            assert(eq_ignore_ascii_case_spec(view[j as int], name@));
            return true;
        }
        j = j + 1;
    }
    false
}

/// The first of `wanted` that `installed` lists, compared ignoring ASCII
/// case, or `None`.
pub fn first_present(wanted: &[&'static str], installed: &[String]) -> (r: Option<&'static str>)
    ensures
        match first_present_index(names_view(wanted@), strings_view(installed@)) {
            Some(i) => r == Some(wanted@[i]),
            None => r is None,
        },
        r is None ==> forall|i: int|
            0 <= i < wanted@.len() ==> !installed_has(
                strings_view(installed@),
                #[trigger] names_view(wanted@)[i],
            ),
{
    let ghost names = names_view(wanted@);
    let ghost have = strings_view(installed@);
    let mut i: usize = 0;
    while i < wanted.len()
        invariant
            names == names_view(wanted@),
            have == strings_view(installed@),
            i <= wanted@.len(),
            forall|k: int| 0 <= k < i ==> !installed_has(have, #[trigger] names[k]),
        decreases wanted@.len() - i,
    {
        let name = chars_of(wanted[i]);
        if has_installed(installed, &name) {
            proof {
                assert(installed_has(have, names[i as int]));
                let c = choose|c: int|
                    0 <= c < names.len() && #[trigger] installed_has(have, names[c]) && forall|k: int|
                        0 <= k < c ==> !installed_has(have, #[trigger] names[k]);
                if c < i {
                    assert(!installed_has(have, names[c]));
                } else if c > i {
                    assert(!installed_has(have, names[i as int]));
                }
            }
            return Some(wanted[i]);
        }
        i = i + 1;
    }
    None
}

/// The monospace flag and first family name of every face in the system
/// font database.
///
/// Builds a `cosmic_text::FontSystem`, which scans the fonts installed on
/// this machine, and reads `monospaced` and the first of `families` from
/// each `fontdb::FaceInfo` its database holds. What comes back depends on
/// what is installed, so nothing is stated of it.
#[verifier::external_body]
fn installed_faces() -> (faces: Vec<(bool, Option<String>)>) {
    let system = cosmic_text::FontSystem::new();
    system.db().faces().map(|face| (face.monospaced, face.families.first().map(|(name, _)| name.clone()))).collect()
}

/// Face `i` is monospaced and its first family is `name`.
pub open spec fn monospace_name_at(faces: Seq<(bool, Option<String>)>, i: int, name: Seq<char>) -> bool {
    &&& faces[i].0
    &&& faces[i].1 is Some
    &&& faces[i].1->0@ == name
}

/// Some monospaced face among the first `n` has `name` as its first family.
pub open spec fn monospace_family_within(
    faces: Seq<(bool, Option<String>)>,
    n: int,
    name: Seq<char>,
) -> bool {
    exists|i: int| 0 <= i < n && #[trigger] monospace_name_at(faces, i, name)
}

/// Some monospaced face has `name` as its first family.
pub open spec fn is_monospace_family(faces: Seq<(bool, Option<String>)>, name: Seq<char>) -> bool {
    monospace_family_within(faces, faces.len() as int, name)
}

/// Whether the sequences of `keys` at `order[0..n]` include `name`.
pub open spec fn listed_within(keys: Seq<Vec<char>>, order: Seq<usize>, n: int, name: Seq<char>) -> bool {
    exists|s: int| 0 <= s < n && (#[trigger] keys[order[s] as int])@ == name
}

/// The first family names of the monospaced faces among `faces`, sorted
/// ascending with duplicates removed.
pub fn monospace_families_of(faces: &Vec<(bool, Option<String>)>) -> (r: Vec<String>)
    ensures
        forall|i: int, j: int| 0 <= i < j < r@.len() ==> seq_lt(r@[i]@, r@[j]@),
        forall|name: Seq<char>|
            #[trigger] strings_view(r@).contains(name) <==> is_monospace_family(faces@, name),
{
    let mut keys: Vec<Vec<char>> = Vec::new();
    let mut i: usize = 0;
    while i < faces.len()
        invariant
            i <= faces@.len(),
            forall|k: int|
                0 <= k < keys@.len() ==> monospace_family_within(faces@, i as int, #[trigger] keys@[k]@),
            forall|f: int|
                0 <= f < i && faces@[f].0 && faces@[f].1 is Some ==> exists|k: int|
                    0 <= k < keys@.len() && #[trigger] keys@[k]@ == faces@[f].1->0@,
        decreases faces@.len() - i,
    {
        let (mono, family) = (faces[i].0, &faces[i].1);
        if mono {
            match family {
                Some(name) => {
                    let ghost before = keys@;
                    keys.push(chars_of(name.as_str()));
                    proof {
                        assert(monospace_name_at(faces@, i as int, keys@[before.len() as int]@));
                        assert forall|k: int|
                            0 <= k < keys@.len() implies monospace_family_within(
                            faces@,
                            i + 1,
                            #[trigger] keys@[k]@,
                        ) by {
                            if k < before.len() {
                                assert(keys@[k] == before[k]);
                                let w = choose|w: int|
                                    0 <= w < i && #[trigger] monospace_name_at(faces@, w, before[k]@);
                                assert(monospace_name_at(faces@, w, keys@[k]@));
                            } else {
                                assert(monospace_name_at(faces@, i as int, keys@[k]@));
                            }
                        }
                        assert forall|f: int|
                            0 <= f < i + 1 && faces@[f].0 && faces@[f].1 is Some implies exists|k: int|
                            0 <= k < keys@.len() && #[trigger] keys@[k]@ == faces@[f].1->0@ by {
                            if f < i {
                                let k = choose|k: int|
                                    0 <= k < before.len() && #[trigger] before[k]@ == faces@[f].1->0@;
                                assert(keys@[k] == before[k]);
                            } else {
                                assert(keys@[before.len() as int]@ == faces@[f].1->0@);
                            }
                        }
                    }
                },
                None => {
                    proof {
                        assert forall|k: int|
                            0 <= k < keys@.len() implies monospace_family_within(
                            faces@,
                            i + 1,
                            #[trigger] keys@[k]@,
                        ) by {
                            let w = choose|w: int|
                                0 <= w < i && #[trigger] monospace_name_at(faces@, w, keys@[k]@);
                        }
                    }
                },
            }
        } else {
            proof {
                assert forall|k: int|
                    0 <= k < keys@.len() implies monospace_family_within(
                    faces@,
                    i + 1,
                    #[trigger] keys@[k]@,
                ) by {
                    let w = choose|w: int| 0 <= w < i && #[trigger] monospace_name_at(faces@, w, keys@[k]@);
                }
            }
        }
        i = i + 1;
    }

    let order = sorted_order(&keys);
    let n = order.len();
    let mut out: Vec<String> = Vec::new();
    let mut last: Vec<char> = Vec::new();
    let mut t: usize = 0;
    while t < n
        invariant
            n == order@.len(),
            n == keys@.len(),
            t <= n,
            forall|a: int| 0 <= a < n ==> order@[a] < n,
            forall|a: int, b: int|
                0 <= a < b < n ==> seq_le(keys@[order@[a] as int]@, keys@[order@[b] as int]@),
            forall|a: int, b: int| 0 <= a < b < out@.len() ==> seq_lt(out@[a]@, out@[b]@),
            t > 0 ==> out@.len() > 0 && last@ == keys@[order@[t - 1] as int]@ && out@.last()@ == last@,
            t == 0 ==> out@.len() == 0,
            forall|name: Seq<char>|
                #[trigger] strings_view(out@).contains(name) <==> listed_within(keys@, order@, t as int, name),
        decreases n - t,
    {
        let key = &keys[order[t]];
        let ghost before = out@;
        if t == 0 || !chars_eq(last.as_slice(), key.as_slice()) {
            proof {
                if t > 0 {
                    assert(seq_le(last@, key@));
                    lemma_seq_lt_total(last@, key@);
                    assert forall|a: int| 0 <= a < before.len() implies seq_lt(before[a]@, key@) by {
                        if a < before.len() - 1 {
                            lemma_seq_lt_transitive(before[a]@, last@, key@);
                        }
                    }
                }
            }
            out.push(string_from_chars(key.as_slice()));
            last = key.clone();
            proof {
                assert(last@ =~= key@);
                assert forall|name: Seq<char>|
                    #[trigger] strings_view(out@).contains(name) <==> listed_within(
                        keys@,
                        order@,
                        t + 1,
                        name,
                    ) by {
                    if strings_view(out@).contains(name) {
                        let w = choose|w: int| 0 <= w < out@.len() && strings_view(out@)[w] == name;
                        if w < before.len() {
                            assert(strings_view(before)[w] == name);
                            assert(strings_view(before).contains(name));
                            let s = choose|s: int|
                                0 <= s < t && (#[trigger] keys@[order@[s] as int])@ == name;
                        } else {
                            assert(keys@[order@[t as int] as int]@ == name);
                        }
                    }
                    if listed_within(keys@, order@, t + 1, name) {
                        let s = choose|s: int| 0 <= s < t + 1 && (#[trigger] keys@[order@[s] as int])@ == name;
                        if s < t {
                            assert(listed_within(keys@, order@, t as int, name));
                            assert(strings_view(before).contains(name));
                            let w = choose|w: int| 0 <= w < before.len() && strings_view(before)[w] == name;
                            assert(strings_view(out@)[w] == name);
                        } else {
                            assert(strings_view(out@)[before.len() as int] == name);
                        }
                    }
                }
            }
        } else {
            last = key.clone();
            proof {
                assert(last@ =~= key@);
                assert forall|name: Seq<char>|
                    #[trigger] strings_view(out@).contains(name) <==> listed_within(
                        keys@,
                        order@,
                        t + 1,
                        name,
                    ) by {
                    if listed_within(keys@, order@, t + 1, name) {
                        let s = choose|s: int| 0 <= s < t + 1 && (#[trigger] keys@[order@[s] as int])@ == name;
                        if s == t {
                            assert(strings_view(out@)[out@.len() - 1] == name);
                        } else {
                            assert(listed_within(keys@, order@, t as int, name));
                        }
                    }
                    if strings_view(out@).contains(name) {
                        assert(listed_within(keys@, order@, t as int, name));
                        let s = choose|s: int| 0 <= s < t && (#[trigger] keys@[order@[s] as int])@ == name;
                    }
                }
            }
        }
        t = t + 1;
    }
    proof {
        assert forall|name: Seq<char>|
            #[trigger] strings_view(out@).contains(name) <==> is_monospace_family(faces@, name) by {
            if listed_within(keys@, order@, n as int, name) {
                let s = choose|s: int| 0 <= s < n && (#[trigger] keys@[order@[s] as int])@ == name;
                assert(monospace_family_within(faces@, faces@.len() as int, keys@[order@[s] as int]@));
            }
            if is_monospace_family(faces@, name) {
                let f = choose|f: int| 0 <= f < faces@.len() && #[trigger] monospace_name_at(faces@, f, name);
                let k = choose|k: int| 0 <= k < keys@.len() && #[trigger] keys@[k]@ == faces@[f].1->0@;
                assert(order@.contains(k as usize));
                let s = choose|s: int| 0 <= s < order@.len() && order@[s] == k as usize;
                assert(keys@[order@[s] as int]@ == name);
            }
        }
    }
    out
}

/// Every monospaced font family installed on the system, deduplicated and
/// sorted — for the font picker.
pub fn monospace_font_families() -> (r: Vec<String>)
    ensures
        forall|i: int, j: int| 0 <= i < j < r@.len() ==> seq_lt(r@[i]@, r@[j]@),
{
    let faces = installed_faces();
    monospace_families_of(&faces)
}

/// Some monospaced face has a first family equal to `name`, ignoring ASCII
/// case.
pub open spec fn monospace_has(faces: Seq<(bool, Option<String>)>, name: Seq<char>) -> bool {
    exists|f: int|
        0 <= f < faces.len() && (#[trigger] faces[f]).0 && faces[f].1 is Some && eq_ignore_ascii_case_spec(
            faces[f].1->0@,
            name,
        )
}

/// The index of the first of `wanted` that some monospaced face of `faces`
/// has as its family: the one that has such a face while none before it
/// has.
pub open spec fn first_monospace_index(wanted: Seq<Seq<char>>, faces: Seq<(bool, Option<String>)>) -> Option<
    int,
> {
    if exists|i: int|
        0 <= i < wanted.len() && #[trigger] monospace_has(faces, wanted[i]) && forall|k: int|
            0 <= k < i ==> !monospace_has(faces, #[trigger] wanted[k]) {
        Some(
            choose|i: int|
                0 <= i < wanted.len() && #[trigger] monospace_has(faces, wanted[i]) && forall|k: int|
                    0 <= k < i ==> !monospace_has(faces, #[trigger] wanted[k]),
        )
    } else {
        None
    }
}

/// The monospaced family list of `faces` has a name, ignoring ASCII case,
/// exactly when some monospaced face of `faces` has it.
proof fn lemma_family_list_matches_faces(faces: Seq<(bool, Option<String>)>, families: Seq<String>)
    requires
        forall|name: Seq<char>|
            #[trigger] strings_view(families).contains(name) <==> is_monospace_family(faces, name),
    ensures
        forall|name: Seq<char>|
            #[trigger] installed_has(strings_view(families), name) <==> monospace_has(faces, name),
{
    let have = strings_view(families);
    assert forall|name: Seq<char>| #[trigger] installed_has(have, name) <==> monospace_has(faces, name) by {
        if installed_has(have, name) {
            let j = choose|j: int| 0 <= j < have.len() && eq_ignore_ascii_case_spec(#[trigger] have[j], name);
            assert(have.contains(have[j]));
            let f = choose|f: int| 0 <= f < faces.len() && #[trigger] monospace_name_at(faces, f, have[j]);
            assert(faces[f].0);
        }
        if monospace_has(faces, name) {
            let f = choose|f: int|
                0 <= f < faces.len() && (#[trigger] faces[f]).0 && faces[f].1 is Some
                    && eq_ignore_ascii_case_spec(faces[f].1->0@, name);
            let family = faces[f].1->0@;
            assert(monospace_name_at(faces, f, family));
            assert(is_monospace_family(faces, family));
            assert(have.contains(family));
            let j = choose|j: int| 0 <= j < have.len() && have[j] == family;
            assert(eq_ignore_ascii_case_spec(have[j], name));
        }
    }
}

/// The first of `wanted` whose name, ignoring ASCII case, is the first
/// family of a monospaced face in `faces` (each face given by its monospace
/// flag and its first family name), or `None` when no such name is wanted.
pub fn first_installed_family_in(wanted: &[&'static str], faces: &Vec<(bool, Option<String>)>) -> (r: Option<
    &'static str,
>)
    ensures
        match first_monospace_index(names_view(wanted@), faces@) {
            Some(i) => r == Some(wanted@[i]),
            None => r is None,
        },
        r is None ==> forall|i: int|
            0 <= i < wanted@.len() ==> !monospace_has(faces@, #[trigger] names_view(wanted@)[i]),
{
    let installed = monospace_families_of(faces);
    let r = first_present(wanted, installed.as_slice());
    proof {
        let names = names_view(wanted@);
        let have = strings_view(installed@);
        lemma_family_list_matches_faces(faces@, installed@);
        match first_monospace_index(names, faces@) {
            Some(j) => {
                assert(monospace_has(faces@, names[j]));
                assert(installed_has(have, names[j]));
                assert forall|k: int| 0 <= k < j implies !installed_has(have, #[trigger] names[k]) by {
                    assert(!monospace_has(faces@, names[k]));
                }
                let i = first_present_index(names, have)->0;
                assert(first_present_index(names, have) is Some);
                if i < j {
                    assert(!monospace_has(faces@, names[i]));
                } else if j < i {
                    assert(!installed_has(have, names[j]));
                }
            },
            None => {
                assert forall|i: int| 0 <= i < names.len() implies !monospace_has(faces@, #[trigger] names[i]) by {
                    if monospace_has(faces@, names[i]) {
                        assert(installed_has(have, names[i]));
                        if first_present_index(names, have) is Some {
                            let p = first_present_index(names, have)->0;
                            assert(installed_has(have, names[p]));
                            assert(monospace_has(faces@, names[p]));
                            assert forall|k: int| 0 <= k < p implies !monospace_has(faces@, #[trigger] names[k]) by {
                                assert(!installed_has(have, names[k]));
                            }
                        }
                    }
                }
            },
        }
    }
    r
}

/// The first of `wanted` that is installed as a monospaced family, compared
/// ignoring ASCII case, or `None`. Used for era fonts, which are named
/// rather than bundled. Which one that is depends on the fonts installed:
/// it is `first_installed_family_in` over the system's faces.
pub fn first_installed_family(wanted: &[&'static str]) -> (r: Option<&'static str>)
    ensures
        r matches Some(name) ==> wanted@.contains(name),
{
    let faces = installed_faces();
    let r = first_installed_family_in(wanted, &faces);
    proof {
        if let Some(i) = first_monospace_index(names_view(wanted@), faces@) {
            assert(wanted@[i] == r->0);
        }
    }
    r
}

/// A configured family means the system's default monospace face exactly
/// when it is empty or `monospace` in any ASCII case.
pub proof fn lemma_default_monospace_names(name: Seq<char>)
    ensures
        names_default_monospace_spec(name) <==> (name.len() == 0 || crate::text::lower_seq(name) == seq![
            'm', 'o', 'n', 'o', 's', 'p', 'a', 'c', 'e'
        ]),
{
    reveal_strlit("monospace");
    assert(crate::text::lower_seq("monospace"@) =~= seq!['m', 'o', 'n', 'o', 's', 'p', 'a', 'c', 'e']);
}

/// Premultiplying keeps every whole pixel's alpha, drops a trailing
/// partial pixel, and scales each color channel by its own pixel's alpha.
pub proof fn lemma_premultiplied_pixels(straight: Seq<u8>, k: int, j: int)
    requires
        0 <= k < straight.len() / 4,
        0 <= j < 3,
    ensures
        premultiplied(straight).len() == straight.len() - straight.len() % 4,
        premultiplied(straight)[4 * k + 3] == straight[4 * k + 3],
        premultiplied(straight)[4 * k + j] as int == premultiplied_channel(straight[4 * k + j], straight[4 * k + 3]),
{
    assert((straight.len() / 4) * 4 == straight.len() - straight.len() % 4) by (nonlinear_arith);
    assert(4 * k + 3 < (straight.len() / 4) * 4) by (nonlinear_arith)
        requires
            0 <= k < straight.len() / 4,
    ;
    assert((4 * k + 3) % 4 == 3 && (4 * k + j) % 4 == j) by (nonlinear_arith)
        requires
            0 <= j < 3,
            k >= 0,
    ;
    lemma_premultiplied_channel_bounds(straight[4 * k + j], straight[4 * k + 3]);
}

/// A run is drawn with the color emoji family exactly when it is
/// non-empty, made only of emoji, and such a family is installed; any other
/// run uses the configured family.
pub proof fn lemma_emoji_runs(text: Seq<char>, configured: Seq<char>, emoji_family: Option<Seq<char>>, i: int)
    ensures
        text.len() > 0 && (forall|k: int| 0 <= k < text.len() ==> is_emoji_codepoint(#[trigger] text[k] as u32))
            && emoji_family is Some ==> family_for_spec(text, configured, emoji_family) == emoji_family->0,
        0 <= i < text.len() && !is_emoji_codepoint(text[i] as u32) ==> family_for_spec(text, configured, emoji_family)
            == configured,
        text.len() == 0 || emoji_family is None ==> family_for_spec(text, configured, emoji_family) == configured,
{
}

} // verus!
