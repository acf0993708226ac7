//! Rendering one emitted line: the optional highlighted form of the line,
//! prefixed by the file path and the 1-based line number as the options ask.

use vstd::prelude::*;
use vstd::string::StrSliceExecFns;
use vstd::string::StringExecFns;
use crate::highlight::highlight_line;
use crate::highlight::spec_highlighted;
use crate::matcher::is_match;
use crate::matcher::should_emit;
use crate::matcher::spec_is_match;
use crate::options::Config;
use crate::options::SpecConfig;

verus! {

/// The decimal digit character for `d`.
pub open spec fn digit_char(d: int) -> char
    recommends
        0 <= d < 10,
{
    if d == 0 {
        '0'
    } else if d == 1 {
        '1'
    } else if d == 2 {
        '2'
    } else if d == 3 {
        '3'
    } else if d == 4 {
        '4'
    } else if d == 5 {
        '5'
    } else if d == 6 {
        '6'
    } else if d == 7 {
        '7'
    } else if d == 8 {
        '8'
    } else {
        '9'
    }
}

/// The usual decimal rendering of `n`, most significant digit first, with
/// no leading zeros (a single zero for 0).
pub open spec fn spec_decimal(n: nat) -> Seq<char>
    decreases n,
{
    if n < 10 {
        seq![digit_char(n as int)]
    } else {
        spec_decimal(n / 10) + seq![digit_char((n % 10) as int)]
    }
}

/// The one-character string for decimal digit `d`.
fn digit_str(d: usize) -> (s: &'static str)
    requires
        d < 10,
    ensures
        s@ == seq![digit_char(d as int)],
{
    proof {
        reveal_strlit("0");
        reveal_strlit("1");
        reveal_strlit("2");
        reveal_strlit("3");
        reveal_strlit("4");
        reveal_strlit("5");
        reveal_strlit("6");
        reveal_strlit("7");
        reveal_strlit("8");
        reveal_strlit("9");
    }
    let s = if d == 0 {
        "0"
    } else if d == 1 {
        "1"
    } else if d == 2 {
        "2"
    } else if d == 3 {
        "3"
    } else if d == 4 {
        "4"
    } else if d == 5 {
        "5"
    } else if d == 6 {
        "6"
    } else if d == 7 {
        "7"
    } else if d == 8 {
        "8"
    } else {
        "9"
    };
    proof {
        assert(s@ =~= seq![digit_char(d as int)]);
    }
    s
}

/// The decimal rendering of `n`.
pub fn usize_to_string(n: usize) -> (s: String)
    ensures
        s@ == spec_decimal(n as nat),
    decreases n,
{
    if n < 10 {
        String::from_str(digit_str(n))
    } else {
        let mut s = usize_to_string(n / 10);
        s.append(digit_str(n % 10));
        s
    }
}

/// The path text with every backslash turned into a forward slash.
pub open spec fn spec_normalized(s: Seq<char>) -> Seq<char> {
    s.map_values(
        |c: char|
            if c == '\\' {
                '/'
            } else {
                c
            },
    )
}

/// The path rendered with forward-slash separators, whatever the platform
/// wrote it with.
pub fn normalize_path(s: &str) -> (r: String)
    ensures
        r@ == spec_normalized(s@),
{
    let n = s.unicode_len();
    let mut out = String::new();
    let mut i: usize = 0;
    while i < n
        invariant
            i <= n,
            n == s@.len(),
            out@ == spec_normalized(s@.subrange(0, i as int)),
        decreases n - i,
    {
        let c = s.get_char(i);
        if c == '\\' {
            out.append("/");
        } else {
            out.append(s.substring_char(i, i + 1));
        }
        proof {
            reveal_strlit("/");
            assert(spec_normalized(s@.subrange(0, i + 1int)) =~= spec_normalized(
                s@.subrange(0, i as int),
            ) + seq![
                if s@[i as int] == '\\' {
                    '/'
                } else {
                    s@[i as int]
                },
            ]);
            assert(s@.subrange(i as int, i + 1int) =~= seq![s@[i as int]]);
        }
        i = i + 1;
    }
    proof {
        assert(s@.subrange(0, n as int) =~= s@);
    }
    out
}

/// The emitted text for a display line: the normalized path and the 1-based
/// line number are prepended exactly as the two flags ask, in that order.
pub open spec fn spec_prefixed(
    path: Seq<char>,
    idx: nat,
    show_filenames: bool,
    show_line_numbers: bool,
    display: Seq<char>,
) -> Seq<char> {
    let p = spec_normalized(path);
    let num = spec_decimal(idx + 1);
    if show_filenames && show_line_numbers {
        p + ": "@ + num + ": "@ + display
    } else if show_filenames {
        p + ": "@ + display
    } else if show_line_numbers {
        num + ": "@ + display
    } else {
        display
    }
}

/// The display line with its prefixes composed.
fn compose_prefixed(
    path: &str,
    idx: usize,
    show_filenames: bool,
    show_line_numbers: bool,
    display: &str,
) -> (out: String)
    requires
        idx < usize::MAX,
    ensures
        out@ == spec_prefixed(path@, idx as nat, show_filenames, show_line_numbers, display@),
{
    if show_filenames && show_line_numbers {
        let mut out = normalize_path(path);
        out.append(": ");
        let num = usize_to_string(idx + 1);
        out.append(num.as_str());
        out.append(": ");
        out.append(display);
        out
    } else if show_filenames {
        let mut out = normalize_path(path);
        out.append(": ");
        out.append(display);
        out
    } else if show_line_numbers {
        let mut out = usize_to_string(idx + 1);
        out.append(": ");
        out.append(display);
        out
    } else {
        String::from_str(display)
    }
}

/// Highlighting applies only to a line that is emitted because it matched:
/// the highlight option is on, the line matched, and invert is off.
pub open spec fn spec_highlight_active(cfg: SpecConfig, is_match: bool) -> bool {
    cfg.color && !cfg.invert && is_match
}

/// The exact output line for one emitted line of input. When highlighting
/// is not active the output is pinned exactly; when it is active the
/// display part is the line rendered against its highlight spans, each
/// span's text treated as the emphasis marker may treat it.
pub fn format_line(line: &str, idx: usize, path: &str, cfg: &Config, is_match: bool) -> (out:
    String)
    requires
        idx < usize::MAX,
    ensures
        !spec_highlight_active(cfg@, is_match) ==> out@ == spec_prefixed(
            path@,
            idx as nat,
            cfg@.print_filenames,
            cfg@.line_numbers,
            line@,
        ),
        spec_highlight_active(cfg@, is_match) ==> exists|display: Seq<char>|
            {
                &&& spec_highlighted(line@, cfg@.pattern, cfg.case_insensitive, display)
                &&& out@ == spec_prefixed(
                    path@,
                    idx as nat,
                    cfg@.print_filenames,
                    cfg@.line_numbers,
                    display,
                )
            },
{
    let display: String = if cfg.color && !cfg.invert && is_match {
        highlight_line(line, cfg.pattern.as_str(), cfg.case_insensitive)
    } else {
        String::from_str(line)
    };
    let out = compose_prefixed(path, idx, cfg.print_filenames, cfg.line_numbers, display.as_str());
    proof {
        if spec_highlight_active(cfg@, is_match) {
            assert(spec_highlighted(line@, cfg@.pattern, cfg.case_insensitive, display@));
            assert(out@ == spec_prefixed(
                path@,
                idx as nat,
                cfg@.print_filenames,
                cfg@.line_numbers,
                display@,
            ));
        }
    }
    out
}

/// One line through the whole engine: the line is emitted exactly when its
/// match decision differs from the invert flag, and an emitted line is
/// rendered as `format_line` renders it.
pub fn process_line(line: &str, idx: usize, path: &str, cfg: &Config) -> (r: Option<String>)
    requires
        idx < usize::MAX,
    ensures
        r is Some <==> (spec_is_match(line@, cfg@.pattern, cfg@.case_insensitive) != cfg@.invert),
        r matches Some(out) ==> {
            let m = spec_is_match(line@, cfg@.pattern, cfg@.case_insensitive);
            &&& !spec_highlight_active(cfg@, m) ==> out@ == spec_prefixed(
                path@,
                idx as nat,
                cfg@.print_filenames,
                cfg@.line_numbers,
                line@,
            )
            &&& spec_highlight_active(cfg@, m) ==> exists|display: Seq<char>|
                {
                    &&& spec_highlighted(line@, cfg@.pattern, cfg@.case_insensitive, display)
                    &&& out@ == spec_prefixed(
                        path@,
                        idx as nat,
                        cfg@.print_filenames,
                        cfg@.line_numbers,
                        display,
                    )
                }
        },
{
    let m = is_match(line, cfg.pattern.as_str(), cfg.case_insensitive);
    if should_emit(m, cfg.invert) {
        Some(format_line(line, idx, path, cfg, m))
    } else {
        None
    }
}

/// Law: the formatter holds no hidden state: its output is a function of
/// the line, the index, the path, the options and the match decision. It is
/// stated here for the renderings without active emphasis; with emphasis
/// active the marker decision rests with the terminal's colour support.
pub proof fn lemma_format_deterministic(
    out1: Seq<char>,
    out2: Seq<char>,
    line: Seq<char>,
    idx: nat,
    path: Seq<char>,
    cfg: SpecConfig,
    is_match: bool,
)
    requires
        !spec_highlight_active(cfg, is_match),
        out1 == spec_prefixed(path, idx, cfg.print_filenames, cfg.line_numbers, line),
        out2 == spec_prefixed(path, idx, cfg.print_filenames, cfg.line_numbers, line),
    ensures
        out1 == out2,
{
}

} // verus!
