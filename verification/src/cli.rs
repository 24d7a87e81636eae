//! The command line's text: `--help` and `--era=list`.

use vstd::prelude::*;

use crate::era::{eras, find, find_spec, listed, Era, EraView};
use crate::text::{
    chars_eq_str, chars_of, eq_ignore_ascii_case, eq_ignore_ascii_case_spec, extend_chars, push_str_chars,
    string_from_chars, sub_chars, trim_chars, trim_seq,
};

verus! {

/// `s` padded on the right with spaces to at least `width` characters:
/// `format!("{:<width$}", s)`.
pub open spec fn pad_right(s: Seq<char>, width: nat) -> Seq<char> {
    if s.len() >= width {
        s
    } else {
        s + Seq::new((width - s.len()) as nat, |i: int| ' ')
    }
}

/// One era's line in the listing: its name in an eight-wide column, then
/// its blurb.
pub open spec fn era_line(name: Seq<char>, blurb: Seq<char>) -> Seq<char> {
    "  "@ + pad_right(name, 8) + " "@ + blurb + "\n"@
}

/// The era lines of `es`, in order.
pub open spec fn era_lines(es: Seq<crate::era::EraView>) -> Seq<char>
    decreases es.len(),
{
    if es.len() == 0 {
        seq![]
    } else {
        era_lines(es.drop_last()) + era_line(es.last().name, es.last().blurb)
    }
}

/// The `--era=list` output.
pub open spec fn era_listing_text() -> Seq<char> {
    "Retro eras (appearance.era, or --era=NAME):\n\n"@ + era_lines(eras())
        + "\n  off      no era (the default)\n"@
}

fn push_padded(out: &mut Vec<char>, s: &str, width: usize)
    ensures
        final(out)@ == old(out)@ + pad_right(s@, width as nat),
{
    let chars = crate::text::chars_of(s);
    extend_chars(out, chars.as_slice());
    let mut n = chars.len();
    let ghost base = out@;
    while n < width
        invariant
            chars@ == s@,
            chars@.len() <= n <= width || (n == chars@.len() && n >= width),
            base == old(out)@ + s@,
            out@ == base + Seq::new((n - chars@.len()) as nat, |i: int| ' '),
        decreases width - n,
    {
        out.push(' ');
        n = n + 1;
        assert(out@ =~= base + Seq::new((n - chars@.len()) as nat, |i: int| ' '));
    }
    if chars.len() >= width {
        assert(out@ =~= base);
    } else {
        assert(n == width);
        assert(out@ =~= old(out)@ + pad_right(s@, width as nat));
    }
}

/// The `--era=list` output.
pub fn era_listing() -> (r: String)
    ensures
        r@ == era_listing_text(),
{
    let mut out: Vec<char> = Vec::new();
    push_str_chars(&mut out, "Retro eras (appearance.era, or --era=NAME):\n\n");
    let all = listed();
    let ghost head = out@;
    let mut i: usize = 0;
    while i < all.len()
        invariant
            i <= all@.len(),
            all@.map_values(|e: Era| e@) == eras(),
            out@ == head + era_lines(eras().subrange(0, i as int)),
        decreases all@.len() - i,
    {
        assert(all@[i as int]@ == eras()[i as int]);
        push_str_chars(&mut out, "  ");
        push_padded(&mut out, all[i].name, 8);
        push_str_chars(&mut out, " ");
        push_str_chars(&mut out, all[i].blurb);
        push_str_chars(&mut out, "\n");
        assert(eras().subrange(0, i + 1).drop_last() =~= eras().subrange(0, i as int));
        assert(out@ =~= head + era_lines(eras().subrange(0, i + 1)));
        i = i + 1;
    }
    assert(eras().subrange(0, all@.len() as int) =~= eras());
    push_str_chars(&mut out, "\n  off      no era (the default)\n");
    assert(out@ =~= era_listing_text());
    string_from_chars(out.as_slice())
}

/// The `--help` text, given the program's version and the path of its
/// config file (both known only at run time).
pub open spec fn usage_text(version: Seq<char>, config_path: Seq<char>) -> Seq<char> {
    "pain "@ + version + " — a cross-platform, multi-pane terminal emulator

Usage: pain [OPTIONS]

Options:
  -h, --help              Print this help and exit
  -V, --version           Print the version and exit
  -v, --verbose[=LIST]    Enable diagnostic logging on stderr
      --era=NAME          Use a retro era for this session (--era=list to see them)
      --settings          Open the settings window at startup

Verbose categories, comma-separated. The bare flag enables `general`
alone; the rest are high-frequency and would drown it out:
  general       Startup, config load/reload, shell spawn and exit
  mouse         Every motion, click, drag, and wheel event
  pty           Every chunk read from, or keystroke written to, a shell
  foreground    The per-pane process scan that keeps titles current
  all           All of the above

Config file (TOML, created on first save; all keys optional):
  "@ + config_path + "

Keyboard shortcuts and the full config schema are in `man pain`, or in
the README at https://github.com/w-p/pain
"@
}

/// The `--help` output: `version` is the program's own, `config_path` where
/// its config file lives on this machine.
pub fn usage(version: &str, config_path: &str) -> (r: String)
    ensures
        r@ == usage_text(version@, config_path@),
{
    let mut out: Vec<char> = Vec::new();
    push_str_chars(&mut out, "pain ");
    push_str_chars(&mut out, version);
    push_str_chars(&mut out, " — a cross-platform, multi-pane terminal emulator

Usage: pain [OPTIONS]

Options:
  -h, --help              Print this help and exit
  -V, --version           Print the version and exit
  -v, --verbose[=LIST]    Enable diagnostic logging on stderr
      --era=NAME          Use a retro era for this session (--era=list to see them)
      --settings          Open the settings window at startup

Verbose categories, comma-separated. The bare flag enables `general`
alone; the rest are high-frequency and would drown it out:
  general       Startup, config load/reload, shell spawn and exit
  mouse         Every motion, click, drag, and wheel event
  pty           Every chunk read from, or keystroke written to, a shell
  foreground    The per-pane process scan that keeps titles current
  all           All of the above

Config file (TOML, created on first save; all keys optional):
  ");
    push_str_chars(&mut out, config_path);
    push_str_chars(&mut out, "

Keyboard shortcuts and the full config schema are in `man pain`, or in
the README at https://github.com/w-p/pain
");
    assert(out@ =~= usage_text(version@, config_path@));
    string_from_chars(out.as_slice())
}

/// What the command line asks for.
pub enum Launch {
    /// `--help`/`-h`: print the usage text and exit.
    Help,
    /// `--version`/`-V`: print the version and exit.
    Version,
    /// `--era=list`: print the eras on offer and exit.
    ListEras,
    /// `--era=NAME` named no era: report it, print the listing, and exit
    /// with status 2.
    UnknownEra(String),
    /// Open the window.
    Run(RunOptions),
}

/// How to run, from the command line.
pub struct RunOptions {
    /// An era for this session only, from `--era=NAME`.
    pub era: Option<Era>,
    /// `--settings`: open the settings window at startup.
    pub open_settings: bool,
    /// The first `--verbose`/`-v`/`--verbose=LIST` flag, if any, with the
    /// list it gave.
    pub verbose: Option<Option<String>>,
}

/// Whether `a` starts with `p`.
pub open spec fn starts_with(a: Seq<char>, p: Seq<char>) -> bool {
    p.len() <= a.len() && a.subrange(0, p.len() as int) == p
}

/// Whether some argument is exactly `flag`.
pub open spec fn has_arg(args: Seq<String>, flag: Seq<char>) -> bool {
    exists|i: int| 0 <= i < args.len() && (#[trigger] args[i])@ == flag
}

/// Whether `a` asks for verbose logging.
pub open spec fn is_verbose_flag(a: Seq<char>) -> bool {
    a == "--verbose"@ || a == "-v"@ || starts_with(a, "--verbose="@)
}

/// Whether `a` chooses an era.
pub open spec fn is_era_flag(a: Seq<char>) -> bool {
    starts_with(a, "--era="@) || a == "--era"@
}

/// The index of the first verbose flag.
pub open spec fn first_verbose(args: Seq<String>) -> Option<int> {
    if exists|i: int|
        0 <= i < args.len() && is_verbose_flag(#[trigger] args[i]@) && forall|k: int|
            0 <= k < i ==> !is_verbose_flag(#[trigger] args[k]@) {
        Some(
            choose|i: int|
                0 <= i < args.len() && is_verbose_flag(#[trigger] args[i]@) && forall|k: int|
                    0 <= k < i ==> !is_verbose_flag(#[trigger] args[k]@),
        )
    } else {
        None
    }
}

/// The index of the first era flag.
pub open spec fn first_era(args: Seq<String>) -> Option<int> {
    if exists|i: int|
        0 <= i < args.len() && is_era_flag(#[trigger] args[i]@) && forall|k: int|
            0 <= k < i ==> !is_era_flag(#[trigger] args[k]@) {
        Some(
            choose|i: int|
                0 <= i < args.len() && is_era_flag(#[trigger] args[i]@) && forall|k: int|
                    0 <= k < i ==> !is_era_flag(#[trigger] args[k]@),
        )
    } else {
        None
    }
}

/// The list a verbose flag gives: what follows `--verbose=`.
pub open spec fn verbose_list(a: Seq<char>) -> Option<Seq<char>> {
    if starts_with(a, "--verbose="@) {
        Some(a.subrange(10, a.len() as int))
    } else {
        None
    }
}

/// The era an era flag names: what follows `--era=`, trimmed, and empty
/// for a bare `--era`.
pub open spec fn era_value(a: Seq<char>) -> Seq<char> {
    if starts_with(a, "--era="@) {
        trim_seq(a.subrange(6, a.len() as int))
    } else {
        seq![]
    }
}

/// The options a run gets: the era chosen, `--settings`, and the first
/// verbose flag's list.
pub open spec fn run_options_match(o: RunOptions, args: Seq<String>, era: Option<EraView>) -> bool {
    &&& match o.era {
        Some(e) => era == Some(e@),
        None => era is None,
    }
    &&& o.open_settings == has_arg(args, "--settings"@)
    &&& match first_verbose(args) {
        Some(i) => o.verbose matches Some(list) && match verbose_list(args[i]@) {
            Some(l) => list matches Some(s) && s@ == l,
            None => list is None,
        },
        None => o.verbose is None,
    }
}

fn starts_with_lit(a: &Vec<char>, p: &str) -> (r: bool)
    ensures
        r == starts_with(a@, p@),
{
    let pc = chars_of(p);
    if pc.len() > a.len() {
        return false;
    }
    let mut i: usize = 0;
    while i < pc.len()
        invariant
            pc@ == p@,
            pc@.len() <= a@.len(),
            i <= pc@.len(),
            forall|k: int| 0 <= k < i ==> a@[k] == pc@[k],
        decreases pc@.len() - i,
    {
        if a[i] != pc[i] {
            assert(a@.subrange(0, pc@.len() as int)[i as int] != p@[i as int]);
            return false;
        }
        i = i + 1;
    }
    assert(a@.subrange(0, pc@.len() as int) =~= p@);
    true
}

fn has_flag(args: &Vec<String>, flag: &str) -> (r: bool)
    ensures
        r == has_arg(args@, flag@),
{
    let mut i: usize = 0;
    while i < args.len()
        invariant
            i <= args@.len(),
            forall|k: int| 0 <= k < i ==> (#[trigger] args@[k])@ != flag@,
        decreases args@.len() - i,
    {
        if crate::text::str_eq(args[i].as_str(), flag) {
            return true;
        }
        i = i + 1;
    }
    false
}

fn verbose_flag_at(args: &Vec<String>) -> (r: Option<Option<String>>)
    ensures
        match first_verbose(args@) {
            Some(i) => r matches Some(list) && match verbose_list(args@[i]@) {
                Some(l) => list matches Some(s) && s@ == l,
                None => list is None,
            },
            None => r is None,
        },
{
    let mut i: usize = 0;
    while i < args.len()
        invariant
            i <= args@.len(),
            forall|k: int| 0 <= k < i ==> !is_verbose_flag(#[trigger] args@[k]@),
        decreases args@.len() - i,
    {
        let a = chars_of(args[i].as_str());
        let prefixed = starts_with_lit(&a, "--verbose=");
        if chars_eq_str(a.as_slice(), "--verbose") || chars_eq_str(a.as_slice(), "-v") || prefixed {
            proof {
                assert(is_verbose_flag(args@[i as int]@));
                let c = choose|c: int|
                    0 <= c < args@.len() && is_verbose_flag(#[trigger] args@[c]@) && forall|k: int|
                        0 <= k < c ==> !is_verbose_flag(#[trigger] args@[k]@);
                if c < i {
                    assert(!is_verbose_flag(args@[c]@));
                } else if c > i {
                    assert(!is_verbose_flag(args@[i as int]@));
                }
            }
            if prefixed {
                proof {
                    reveal_strlit("--verbose=");
                }
                let rest = sub_chars(a.as_slice(), 10, a.len());
                return Some(Some(string_from_chars(rest.as_slice())));
            }
            return Some(None);
        }
        i = i + 1;
    }
    None
}

fn era_flag_at(args: &Vec<String>) -> (r: Option<Vec<char>>)
    ensures
        match first_era(args@) {
            Some(i) => r matches Some(v) && v@ == era_value(args@[i]@),
            None => r is None,
        },
{
    let mut i: usize = 0;
    while i < args.len()
        invariant
            i <= args@.len(),
            forall|k: int| 0 <= k < i ==> !is_era_flag(#[trigger] args@[k]@),
        decreases args@.len() - i,
    {
        let a = chars_of(args[i].as_str());
        let prefixed = starts_with_lit(&a, "--era=");
        if prefixed || chars_eq_str(a.as_slice(), "--era") {
            proof {
                assert(is_era_flag(args@[i as int]@));
                let c = choose|c: int|
                    0 <= c < args@.len() && is_era_flag(#[trigger] args@[c]@) && forall|k: int|
                        0 <= k < c ==> !is_era_flag(#[trigger] args@[k]@);
                if c < i {
                    assert(!is_era_flag(args@[c]@));
                } else if c > i {
                    assert(!is_era_flag(args@[i as int]@));
                }
            }
            if prefixed {
                proof {
                    reveal_strlit("--era=");
                }
                let rest = sub_chars(a.as_slice(), 6, a.len());
                return Some(trim_chars(rest.as_slice()));
            }
            return Some(Vec::new());
        }
        i = i + 1;
    }
    None
}

/// What the command line `args` (the program's own name first) asks for.
/// `--help` wins over everything, then `--version`; then the first era
/// flag decides: `list` (in any case) lists the eras, a name no era has is
/// an error, and an empty name means "no era". Otherwise the window opens
/// with the chosen era, `--settings`, and the first verbose flag.
pub fn parse_args(args: &Vec<String>) -> (r: Launch)
    ensures
        (has_arg(args@, "--help"@) || has_arg(args@, "-h"@)) ==> r is Help,
        !(has_arg(args@, "--help"@) || has_arg(args@, "-h"@)) && (has_arg(args@, "--version"@)
            || has_arg(args@, "-V"@)) ==> r is Version,
        !(has_arg(args@, "--help"@) || has_arg(args@, "-h"@) || has_arg(args@, "--version"@)
            || has_arg(args@, "-V"@)) ==> match first_era(args@) {
            Some(i) => {
                let v = era_value(args@[i]@);
                if eq_ignore_ascii_case_spec(v, "list"@) {
                    r is ListEras
                } else if find_spec(v) is None && v.len() > 0 {
                    r matches Launch::UnknownEra(name) && name@ == v
                } else {
                    r matches Launch::Run(o) && run_options_match(o, args@, find_spec(v))
                }
            },
            None => r matches Launch::Run(o) && run_options_match(o, args@, None),
        },
{
    if has_flag(args, "--help") || has_flag(args, "-h") {
        return Launch::Help;
    }
    if has_flag(args, "--version") || has_flag(args, "-V") {
        return Launch::Version;
    }
    let verbose = verbose_flag_at(args);
    let open_settings = has_flag(args, "--settings");
    match era_flag_at(args) {
        Some(value) => {
            let list = chars_of("list");
            if eq_ignore_ascii_case(value.as_slice(), list.as_slice()) {
                return Launch::ListEras;
            }
            let name = string_from_chars(value.as_slice());
            let era = find(name.as_str());
            match era {
                Some(e) => Launch::Run(RunOptions { era: Some(e), open_settings, verbose }),
                None => {
                    if value.len() > 0 {
                        Launch::UnknownEra(name)
                    } else {
                        Launch::Run(RunOptions { era: None, open_settings, verbose })
                    }
                },
            }
        },
        None => Launch::Run(RunOptions { era: None, open_settings, verbose }),
    }
}

/// `a` names verbose logging, written out: `--verbose`, `-v`, or
/// `--verbose=` followed by a list.
pub open spec fn asks_for_logging(a: Seq<char>) -> bool {
    a == "--verbose"@ || a == "-v"@ || (a.len() >= 10 && a.take(10) == "--verbose="@)
}

proof fn lemma_some_verbose_flag_is_first(args: Seq<String>, j: int)
    requires
        0 <= j < args.len(),
        is_verbose_flag(args[j]@),
    ensures
        first_verbose(args) is Some,
    decreases j,
{
    if exists|k: int| 0 <= k < j && is_verbose_flag(#[trigger] args[k]@) {
        let k = choose|k: int| 0 <= k < j && is_verbose_flag(#[trigger] args[k]@);
        lemma_some_verbose_flag_is_first(args, k);
    } else {
        assert(forall|k: int| 0 <= k < j ==> !is_verbose_flag(#[trigger] args[k]@));
    }
}

/// `is_verbose_flag` is the written-out description.
proof fn lemma_verbose_flag_written_out()
    ensures
        forall|a: Seq<char>| #[trigger] is_verbose_flag(a) == asks_for_logging(a),
{
    reveal_strlit("--verbose=");
    reveal_strlit("--verbose");
    reveal_strlit("-v");
    assert forall|a: Seq<char>| #[trigger] is_verbose_flag(a) == asks_for_logging(a) by {
        if starts_with(a, "--verbose="@) {
            assert(a.subrange(0, 10) =~= a.take(10));
        }
        if a.len() >= 10 && a.take(10) == "--verbose="@ {
            assert(a.subrange(0, 10) =~= a.take(10));
        }
    }
}

/// The run a command line opens logs when it holds `--verbose` or `-v`;
/// with no logging flag it doesn't log; and it opens the settings window
/// exactly when `--settings` is given.
pub proof fn lemma_run_options_logging(o: RunOptions, args: Seq<String>, era: Option<EraView>)
    requires
        run_options_match(o, args, era),
    ensures
        has_arg(args, "--verbose"@) || has_arg(args, "-v"@) ==> o.verbose is Some,
        (forall|k: int| 0 <= k < args.len() ==> !asks_for_logging(#[trigger] args[k]@)) ==> o.verbose is None,
        o.open_settings == has_arg(args, "--settings"@),
{
    lemma_verbose_flag_written_out();
    if has_arg(args, "--verbose"@) || has_arg(args, "-v"@) {
        let j = if has_arg(args, "--verbose"@) {
            choose|j: int| 0 <= j < args.len() && (#[trigger] args[j])@ == "--verbose"@
        } else {
            choose|j: int| 0 <= j < args.len() && (#[trigger] args[j])@ == "-v"@
        };
        assert(asks_for_logging(args[j]@));
        lemma_some_verbose_flag_is_first(args, j);
    }
}

/// A run whose only logging flag is `--verbose=LIST` logs exactly that
/// list.
pub proof fn lemma_run_options_log_list(o: RunOptions, args: Seq<String>, era: Option<EraView>, i: int, list: Seq<char>)
    requires
        run_options_match(o, args, era),
        0 <= i < args.len(),
        args[i]@ == "--verbose="@ + list,
        forall|k: int| 0 <= k < args.len() && k != i ==> !asks_for_logging(#[trigger] args[k]@),
    ensures
        o.verbose matches Some(given) && given matches Some(s) && s@ == list,
{
    lemma_verbose_flag_written_out();
    reveal_strlit("--verbose=");
    let a = args[i]@;
    assert(a.take(10) =~= "--verbose="@);
    assert(asks_for_logging(a));
    lemma_some_verbose_flag_is_first(args, i);
    let f = first_verbose(args)->0;
    if f != i {
        assert(is_verbose_flag(args[f]@));
    }
    assert(a.subrange(0, 10) =~= "--verbose="@);
    assert(a.subrange(10, a.len() as int) =~= list);
}

/// `a` chooses an era, written out: `--era`, or `--era=` followed by a
/// name.
pub open spec fn asks_for_era(a: Seq<char>) -> bool {
    a == "--era"@ || (a.len() >= 6 && a.take(6) == "--era="@)
}

/// A command line whose only era flag is `--era=NAME` chooses NAME, with
/// surrounding whitespace trimmed.
pub proof fn lemma_era_flag_names_the_era(args: Seq<String>, i: int, name: Seq<char>)
    requires
        0 <= i < args.len(),
        args[i]@ == "--era="@ + name,
        forall|k: int| 0 <= k < args.len() && k != i ==> !asks_for_era(#[trigger] args[k]@),
    ensures
        first_era(args) == Some(i),
        era_value(args[i]@) == trim_seq(name),
{
    reveal_strlit("--era=");
    reveal_strlit("--era");
    let a = args[i]@;
    assert(a.subrange(0, 6) =~= "--era="@);
    assert(is_era_flag(a));
    assert forall|k: int| 0 <= k < i implies !is_era_flag(#[trigger] args[k]@) by {
        let b = args[k]@;
        if starts_with(b, "--era="@) {
            assert(b.subrange(0, 6) =~= b.take(6));
            assert(asks_for_era(b));
        }
    }
    let f = first_era(args)->0;
    if f != i {
        let b = args[f]@;
        if starts_with(b, "--era="@) {
            assert(b.subrange(0, 6) =~= b.take(6));
        }
        assert(asks_for_era(b));
    }
    assert(a.subrange(6, a.len() as int) =~= name);
}

} // verus!
