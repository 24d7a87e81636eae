//! Retro "eras": period looks, each a bundle of settings rather than code —
//! the palette, the screen effects, and the typeface a specific machine
//! actually had. Everything an era does is data in the table below.

use vstd::prelude::*;

use crate::text::{
    chars_of, eq_ignore_ascii_case, eq_ignore_ascii_case_spec, extend_chars, push_str_chars,
    string_from_chars, trim_chars, trim_seq,
};

verus! {

/// One era: what to call it, and what it changes.
#[derive(Debug, Clone)]
pub struct Era {
    /// Lowercase, no spaces — what a user types into a config file, a
    /// `--era` flag, or an escape sequence.
    pub name: &'static str,
    /// Name of the built-in theme supplying this era's palette.
    pub theme: &'static str,
    /// Scanline strength, 0-100.
    pub scanlines: u32,
    /// Corner darkening, 0-100.
    pub vignette: u32,
    /// The drifting mains-hum bar, 0-100.
    pub hum: u32,
    /// Font families to prefer, most period-appropriate first.
    pub fonts: Vec<&'static str>,
    /// One line for the picker and the `--era` listing.
    pub blurb: &'static str,
}

/// An era as values.
pub struct EraView {
    pub name: Seq<char>,
    pub theme: Seq<char>,
    pub scanlines: u32,
    pub vignette: u32,
    pub hum: u32,
    pub fonts: Seq<Seq<char>>,
    pub blurb: Seq<char>,
}

impl View for Era {
    type V = EraView;

    open spec fn view(&self) -> EraView {
        EraView {
            name: self.name@,
            theme: self.theme@,
            scanlines: self.scanlines,
            vignette: self.vignette,
            hum: self.hum,
            fonts: self.fonts@.map_values(|f: &'static str| f@),
            blurb: self.blurb@,
        }
    }
}

/// The IBM PC text-mode faces, in order of preference.
pub open spec fn dos_fonts() -> Seq<Seq<char>> {
    seq![
        "Px437 IBM VGA 8x16"@,
        "Px437 IBM VGA 9x16"@,
        "PxPlus IBM VGA8"@,
        "Perfect DOS VGA 437"@,
        "Consolas"@,
    ]
}

/// The C64's own face.
pub open spec fn c64_fonts() -> Seq<Seq<char>> {
    seq!["C64 Pro Mono"@, "Commodore 64 Pixelized"@, "PetMe64"@]
}

/// The DEC terminal face, for the phosphor eras.
pub open spec fn terminal_fonts() -> Seq<Seq<char>> {
    seq!["VT323"@, "Glass TTY VT220"@]
}

/// Every era, in the order the picker shows them.
pub open spec fn eras() -> Seq<EraView> {
    seq![
        EraView {
            name: "green"@,
            theme: "Green Phosphor CRT"@,
            scanlines: 55,
            vignette: 45,
            hum: 30,
            fonts: terminal_fonts(),
            blurb: "IBM 5151, 1981 — P1 green phosphor"@,
        },
        EraView {
            name: "amber"@,
            theme: "Amber CRT Retro"@,
            scanlines: 50,
            vignette: 40,
            hum: 25,
            fonts: terminal_fonts(),
            blurb: "Amber CRT, mid-1980s — P3 phosphor, easier on the eyes"@,
        },
        EraView {
            name: "cga"@,
            theme: "IBM 5153 CGA"@,
            scanlines: 40,
            vignette: 35,
            hum: 15,
            fonts: dos_fonts(),
            blurb: "IBM 5153, 1981 — the CGA 16"@,
        },
        EraView {
            name: "bbs"@,
            theme: "IBM 5153 CGA"@,
            scanlines: 45,
            vignette: 40,
            hum: 20,
            fonts: dos_fonts(),
            blurb: "Dial-up BBS, ~1993 — the CGA palette ANSI art was drawn for"@,
        },
        EraView {
            name: "c64"@,
            theme: "C64"@,
            scanlines: 35,
            vignette: 35,
            hum: 15,
            fonts: c64_fonts(),
            blurb: "Commodore 64, 1982 — VIC-II blues"@,
        },
        EraView {
            name: "matrix"@,
            theme: "Matrix"@,
            scanlines: 60,
            vignette: 50,
            hum: 35,
            fonts: terminal_fonts(),
            blurb: "The Matrix, 1999 — the only era on this list that never existed"@,
        },
    ]
}

fn dos_font_list() -> (r: Vec<&'static str>)
    ensures
        r@.map_values(|f: &'static str| f@) == dos_fonts(),
{
    let r = vec![
        "Px437 IBM VGA 8x16",
        "Px437 IBM VGA 9x16",
        "PxPlus IBM VGA8",
        "Perfect DOS VGA 437",
        "Consolas",
    ];
    assert(r@.map_values(|f: &'static str| f@) =~= dos_fonts());
    r
}

fn c64_font_list() -> (r: Vec<&'static str>)
    ensures
        r@.map_values(|f: &'static str| f@) == c64_fonts(),
{
    let r = vec!["C64 Pro Mono", "Commodore 64 Pixelized", "PetMe64"];
    assert(r@.map_values(|f: &'static str| f@) =~= c64_fonts());
    r
}

fn terminal_font_list() -> (r: Vec<&'static str>)
    ensures
        r@.map_values(|f: &'static str| f@) == terminal_fonts(),
{
    let r = vec!["VT323", "Glass TTY VT220"];
    assert(r@.map_values(|f: &'static str| f@) =~= terminal_fonts());
    r
}

/// Every era, for the settings picker and the `--era=list` output.
pub fn listed() -> (r: Vec<Era>)
    ensures
        r@.map_values(|e: Era| e@) == eras(),
{
    let r = vec![
        Era {
            name: "green",
            theme: "Green Phosphor CRT",
            scanlines: 55,
            vignette: 45,
            hum: 30,
            fonts: terminal_font_list(),
            blurb: "IBM 5151, 1981 — P1 green phosphor",
        },
        Era {
            name: "amber",
            theme: "Amber CRT Retro",
            scanlines: 50,
            vignette: 40,
            hum: 25,
            fonts: terminal_font_list(),
            blurb: "Amber CRT, mid-1980s — P3 phosphor, easier on the eyes",
        },
        Era {
            name: "cga",
            theme: "IBM 5153 CGA",
            scanlines: 40,
            vignette: 35,
            hum: 15,
            fonts: dos_font_list(),
            blurb: "IBM 5153, 1981 — the CGA 16",
        },
        Era {
            name: "bbs",
            theme: "IBM 5153 CGA",
            scanlines: 45,
            vignette: 40,
            hum: 20,
            fonts: dos_font_list(),
            blurb: "Dial-up BBS, ~1993 — the CGA palette ANSI art was drawn for",
        },
        Era {
            name: "c64",
            theme: "C64",
            scanlines: 35,
            vignette: 35,
            hum: 15,
            fonts: c64_font_list(),
            blurb: "Commodore 64, 1982 — VIC-II blues",
        },
        Era {
            name: "matrix",
            theme: "Matrix",
            scanlines: 60,
            vignette: 50,
            hum: 35,
            fonts: terminal_font_list(),
            blurb: "The Matrix, 1999 — the only era on this list that never existed",
        },
    ];
    assert(r@.map_values(|e: Era| e@) =~= eras());
    r
}

/// Whether era `i`'s name matches `name` case-insensitively.
pub open spec fn era_matches(i: int, name: Seq<char>) -> bool {
    eq_ignore_ascii_case_spec(eras()[i].name, name)
}

/// The era `name` refers to: the first whose name equals `name` with
/// surrounding whitespace trimmed, ignoring ASCII case; none for an empty
/// name.
pub open spec fn find_spec(name: Seq<char>) -> Option<EraView> {
    let t = trim_seq(name);
    if t.len() == 0 {
        None
    } else if exists|i: int| 0 <= i < eras().len() && era_matches(i, t) {
        Some(
            eras()[choose|i: int|
                0 <= i < eras().len() && era_matches(i, t) && forall|j: int|
                    0 <= j < i ==> !era_matches(j, t)],
        )
    } else {
        None
    }
}

/// The era `name` refers to, or `None` if no era has that name.
/// Case-insensitive, and surrounding whitespace is ignored: this value is
/// typed by hand into config files, flags, and `printf` invocations.
pub fn find(name: &str) -> (r: Option<Era>)
    ensures
        match r {
            Some(e) => find_spec(name@) == Some(e@),
            None => find_spec(name@) is None,
        },
{
    let chars = chars_of(name);
    let t = trim_chars(chars.as_slice());
    if t.len() == 0 {
        return None;
    }
    let all = listed();
    let mut i: usize = 0;
    while i < all.len()
        invariant
            i <= all@.len(),
            all@.map_values(|e: Era| e@) == eras(),
            t@ == trim_seq(name@),
            t@.len() > 0,
            forall|j: int| 0 <= j < i ==> !era_matches(j, t@),
        decreases all@.len() - i,
    {
        let era_name = chars_of(all[i].name);
        assert(all@[i as int]@ == eras()[i as int]);
        if eq_ignore_ascii_case(era_name.as_slice(), t.as_slice()) {
            let ghost c = choose|c: int|
                0 <= c < eras().len() && era_matches(c, t@) && forall|j: int|
                    0 <= j < c ==> !era_matches(j, t@);
            assert(era_matches(i as int, t@));
            assert(c == i);
            return Some(all[i].clone_era());
        }
        i = i + 1;
    }
    None
}

impl Era {
    /// A copy of this era.
    pub fn clone_era(&self) -> (r: Era)
        ensures
            r@ == self@,
    {
        let mut fonts: Vec<&'static str> = Vec::new();
        let mut k: usize = 0;
        while k < self.fonts.len()
            invariant
                k <= self.fonts@.len(),
                fonts@ == self.fonts@.subrange(0, k as int),
            decreases self.fonts@.len() - k,
        {
            fonts.push(self.fonts[k]);
            k = k + 1;
        }
        assert(fonts@ =~= self.fonts@);
        Era {
            name: self.name,
            theme: self.theme,
            scanlines: self.scanlines,
            vignette: self.vignette,
            hum: self.hum,
            fonts,
            blurb: self.blurb,
        }
    }
}

} // verus!

verus! {

/// Era names are lowercase, hold no whitespace, and differ from each other
/// even ignoring case; every effect strength is a percentage, and none is
/// strong enough to hurt legibility.
pub proof fn lemma_era_table()
    ensures
        forall|i: int| 0 <= i < eras().len() ==> crate::text::lower_seq(#[trigger] eras()[i].name) == eras()[i].name,
        forall|i: int, k: int|
            0 <= i < eras().len() && 0 <= k < eras()[i].name.len() ==> !crate::text::is_white_space(
                #[trigger] eras()[i].name[k],
            ),
        forall|i: int, j: int|
            0 <= i < j < eras().len() ==> !eq_ignore_ascii_case_spec(
                #[trigger] eras()[i].name,
                #[trigger] eras()[j].name,
            ),
        forall|i: int|
            0 <= i < eras().len() ==> (#[trigger] eras()[i]).scanlines <= 65 && eras()[i].vignette <= 55
                && eras()[i].hum <= 40,
{
    reveal_strlit("green");
    reveal_strlit("amber");
    reveal_strlit("cga");
    reveal_strlit("bbs");
    reveal_strlit("c64");
    reveal_strlit("matrix");
    let e = eras();
    assert(crate::text::lower_seq("green"@) =~= "green"@);
    assert(crate::text::lower_seq("amber"@) =~= "amber"@);
    assert(crate::text::lower_seq("cga"@) =~= "cga"@);
    assert(crate::text::lower_seq("bbs"@) =~= "bbs"@);
    assert(crate::text::lower_seq("c64"@) =~= "c64"@);
    assert(crate::text::lower_seq("matrix"@) =~= "matrix"@);
    assert forall|i: int, j: int| 0 <= i < j < eras().len() implies !eq_ignore_ascii_case_spec(
        #[trigger] eras()[i].name,
        #[trigger] eras()[j].name,
    ) by {
        let a = crate::text::lower_seq(eras()[i].name);
        let b = crate::text::lower_seq(eras()[j].name);
        if a == b {
            assert(a[0] == b[0]);
            assert(a.len() == b.len());
            assert(a[1] == b[1]);
        }
    }
}

/// Every era is found by its own name.
pub proof fn lemma_every_era_is_findable(i: int)
    requires
        0 <= i < eras().len(),
    ensures
        find_spec(eras()[i].name) == Some(eras()[i]),
{
    lemma_era_table();
    reveal_strlit("green");
    reveal_strlit("amber");
    reveal_strlit("cga");
    reveal_strlit("bbs");
    reveal_strlit("c64");
    reveal_strlit("matrix");
    let n = eras()[i].name;
    assert(n.len() > 0);
    assert(trim_seq(n) == n) by {
        assert(!crate::text::is_white_space(n[0]));
        assert(!crate::text::is_white_space(n[n.len() - 1]));
        assert(crate::text::trim_start_seq(n) == n);
        assert(n.len() > 0 && n.last() == n[n.len() - 1]);
    }
    assert(era_matches(i, n));
    let c = choose|c: int|
        0 <= c < eras().len() && era_matches(c, n) && forall|j: int| 0 <= j < c ==> !era_matches(j, n);
    if c < i {
        assert(!eq_ignore_ascii_case_spec(eras()[c].name, eras()[i].name));
    } else if c > i {
        assert(!era_matches(i, n));
    }
}

/// The ceiling on an effect strength, in percent.
pub const MAX_EFFECT: u32 = 100;

/// The strength of one screen effect, in percent: an explicit setting wins,
/// then a session era override, then the configured value; capped at
/// [`MAX_EFFECT`], so a hand-edited value can't darken past black.
pub open spec fn effect_percent_spec(explicit: Option<u32>, era_override: Option<u32>, configured: u32) -> u32 {
    let percent = match (explicit, era_override) {
        (Some(p), _) => p,
        (None, Some(p)) => p,
        (None, None) => configured,
    };
    if percent > MAX_EFFECT {
        MAX_EFFECT
    } else {
        percent
    }
}

/// The strength of one screen effect, in percent — see
/// [`effect_percent_spec`].
pub fn effect_percent(explicit: Option<u32>, era_override: Option<u32>, configured: u32) -> (r: u32)
    ensures
        r == effect_percent_spec(explicit, era_override, configured),
        r <= MAX_EFFECT,
{
    let percent = match explicit {
        Some(p) => p,
        None => match era_override {
            Some(p) => p,
            None => configured,
        },
    };
    if percent > MAX_EFFECT {
        MAX_EFFECT
    } else {
        percent
    }
}

/// What a runtime era request does to the session override: nothing
/// (`None`) when it names the era already in effect (or, for a name no era
/// has, when none is), otherwise `Some` of the era it names, or of `None`
/// to clear the override — which is how `era=` spells "back to my config".
pub open spec fn era_request_spec(current: Option<Seq<char>>, name: Seq<char>) -> Option<Option<EraView>> {
    let next = find_spec(name);
    let next_name = match next {
        Some(e) => Some(e.name),
        None => None,
    };
    if next_name == current {
        None
    } else {
        Some(next)
    }
}

/// How a runtime era request changes the session override whose era is
/// named `current` — see [`era_request_spec`]. Session-only by design: the
/// caller applies the result to running state and never to the config.
pub fn era_request(current: Option<&str>, name: &str) -> (r: Option<Option<Era>>)
    ensures
        match era_request_spec(
            match current {
                Some(c) => Some(c@),
                None => None,
            },
            name@,
        ) {
            None => r is None,
            Some(None) => r matches Some(n) && n is None,
            Some(Some(e)) => r matches Some(n) && n matches Some(x) && x@ == e,
        },
{
    let next = find(name);
    let same = match (&next, current) {
        (Some(e), Some(c)) => crate::text::str_eq(e.name, c),
        (None, None) => true,
        _ => false,
    };
    if same {
        None
    } else {
        Some(next)
    }
}

/// The eras on offer, in the picker's order, with the theme, the scanline,
/// vignette and hum strengths (in percent) and the preferred typefaces of
/// each.
pub proof fn lemma_era_values()
    ensures
        eras().len() == 6,
        eras()[0].name == "green"@ && eras()[0].theme == "Green Phosphor CRT"@ && eras()[0].scanlines == 55 && eras()[0].vignette == 45 && eras()[0].hum == 30,
        eras()[1].name == "amber"@ && eras()[1].theme == "Amber CRT Retro"@ && eras()[1].scanlines == 50 && eras()[1].vignette == 40 && eras()[1].hum == 25,
        eras()[2].name == "cga"@ && eras()[2].theme == "IBM 5153 CGA"@ && eras()[2].scanlines == 40 && eras()[2].vignette == 35 && eras()[2].hum == 15,
        eras()[3].name == "bbs"@ && eras()[3].theme == "IBM 5153 CGA"@ && eras()[3].scanlines == 45 && eras()[3].vignette == 40 && eras()[3].hum == 20,
        eras()[4].name == "c64"@ && eras()[4].theme == "C64"@ && eras()[4].scanlines == 35 && eras()[4].vignette == 35 && eras()[4].hum == 15,
        eras()[5].name == "matrix"@ && eras()[5].theme == "Matrix"@ && eras()[5].scanlines == 60 && eras()[5].vignette == 50 && eras()[5].hum == 35,
        eras()[0].fonts == seq!["VT323"@, "Glass TTY VT220"@],
        eras()[1].fonts == seq!["VT323"@, "Glass TTY VT220"@],
        eras()[2].fonts == seq!["Px437 IBM VGA 8x16"@, "Px437 IBM VGA 9x16"@, "PxPlus IBM VGA8"@, "Perfect DOS VGA 437"@, "Consolas"@],
        eras()[3].fonts == seq!["Px437 IBM VGA 8x16"@, "Px437 IBM VGA 9x16"@, "PxPlus IBM VGA8"@, "Perfect DOS VGA 437"@, "Consolas"@],
        eras()[4].fonts == seq!["C64 Pro Mono"@, "Commodore 64 Pixelized"@, "PetMe64"@],
        eras()[5].fonts == seq!["VT323"@, "Glass TTY VT220"@],
{
    assert(terminal_fonts() =~= seq!["VT323"@, "Glass TTY VT220"@]);
    assert(dos_fonts() =~= seq!["Px437 IBM VGA 8x16"@, "Px437 IBM VGA 9x16"@, "PxPlus IBM VGA8"@, "Perfect DOS VGA 437"@, "Consolas"@]);
    assert(c64_fonts() =~= seq!["C64 Pro Mono"@, "Commodore 64 Pixelized"@, "PetMe64"@]);
}

/// An effect's strength is the explicit setting if there is one, else the
/// session era's, else the configured one, never above 100 percent.
pub proof fn lemma_effect_percent_order(explicit: Option<u32>, era_override: Option<u32>, configured: u32)
    ensures
        effect_percent_spec(explicit, era_override, configured) <= 100,
        explicit matches Some(p) ==> effect_percent_spec(explicit, era_override, configured) == if p <= 100 { p } else { 100 },
        (explicit is None && era_override is Some) ==> effect_percent_spec(explicit, era_override, configured)
            == if era_override->0 <= 100 { era_override->0 } else { 100 },
        explicit is None && era_override is None ==> effect_percent_spec(explicit, era_override, configured)
            == if configured <= 100 { configured } else { 100 },
{
}

/// A runtime request changes nothing when it names the era already in
/// effect, or names no era while none is in effect; otherwise it switches
/// to the era it names, or back to the configured look when it names none.
pub proof fn lemma_era_requests(current: Option<Seq<char>>, name: Seq<char>)
    ensures
        find_spec(name) matches Some(e) && current == Some(e.name) ==> era_request_spec(current, name) is None,
        find_spec(name) is None && current is None ==> era_request_spec(current, name) is None,
        find_spec(name) is Some && current != Some(find_spec(name)->0.name) ==> era_request_spec(current, name) == Some(
            find_spec(name),
        ),
        find_spec(name) is None && current is Some ==> era_request_spec(current, name) == Some(None::<EraView>),
{
}

} // verus!
