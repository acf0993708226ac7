//! Highlight spans: locating the non-overlapping, left-to-right occurrences
//! of the pattern in a line, and rendering the line with each occurrence
//! wrapped in an emphasis marker.

use vstd::prelude::*;
use vstd::string::StrSliceExecFns;
use vstd::string::StringExecFns;
use crate::matcher::contains_pattern;
use crate::matcher::find_match_from;
use crate::matcher::lower_of;
use crate::matcher::lowercase;
use crate::matcher::match_at;

verus! {

/// The highlight spans of `pat` in `text`: scanning left to right from
/// `from`, each occurrence found becomes a half-open span and scanning
/// resumes immediately past its end, so spans never overlap.
pub open spec fn spec_spans(text: Seq<char>, pat: Seq<char>, from: int) -> Seq<(int, int)>
    decreases text.len() - from,
{
    if pat.len() == 0 || from < 0 || from + pat.len() > text.len() {
        Seq::empty()
    } else if match_at(text, pat, from) {
        seq![(from, from + pat.len())] + spec_spans(text, pat, from + pat.len())
    } else {
        spec_spans(text, pat, from + 1)
    }
}

/// Spans are well formed for a text of length `hi`: each span is non-empty,
/// starts at or after `lo`, ends by `hi`, and each next span starts at or
/// after the previous span's end.
pub open spec fn spans_wf(spans: Seq<(int, int)>, lo: int, hi: int) -> bool
    decreases spans.len(),
{
    spans.len() == 0 || {
        &&& lo <= spans[0].0
        &&& spans[0].0 < spans[0].1
        &&& spans[0].1 <= hi
        &&& spans_wf(spans.drop_first(), spans[0].1, hi)
    }
}

/// Well-formedness is kept when the lower bound is relaxed.
proof fn lemma_wf_widen(spans: Seq<(int, int)>, lo: int, mid: int, hi: int)
    requires
        lo <= mid,
        spans_wf(spans, mid, hi),
    ensures
        spans_wf(spans, lo, hi),
{
}

/// The spans that the left-to-right scan produces are well formed.
pub proof fn lemma_spans_wf(text: Seq<char>, pat: Seq<char>, from: int)
    requires
        0 <= from,
    ensures
        spans_wf(spec_spans(text, pat, from), from, text.len() as int),
    decreases text.len() - from,
{
    if pat.len() == 0 || from + pat.len() > text.len() {
    } else if match_at(text, pat, from) {
        lemma_spans_wf(text, pat, from + pat.len());
        let rest = spec_spans(text, pat, from + pat.len());
        assert((seq![(from, from + pat.len() as int)] + rest).drop_first() =~= rest);
    } else {
        lemma_spans_wf(text, pat, from + 1);
        lemma_wf_widen(spec_spans(text, pat, from + 1), from, from + 1, text.len() as int);
    }
}

/// A stretch with no occurrence contributes no span: scanning may start
/// after it.
proof fn lemma_spans_skip(text: Seq<char>, pat: Seq<char>, from: int, to: int)
    requires
        0 <= from <= to <= text.len(),
        forall|k: int| from <= k < to ==> !match_at(text, pat, k),
    ensures
        spec_spans(text, pat, from) == spec_spans(text, pat, to),
    decreases to - from,
{
    if from == to {
    } else if pat.len() == 0 {
    } else if from + pat.len() > text.len() {
        assert(to + pat.len() > text.len());
    } else {
        assert(!match_at(text, pat, from));
        lemma_spans_skip(text, pat, from + 1, to);
    }
}

/// The span list as integer pairs, from the executable representation.
pub open spec fn spans_view(spans: Seq<(usize, usize)>) -> Seq<(int, int)> {
    spans.map_values(|p: (usize, usize)| (p.0 as int, p.1 as int))
}

/// The ordered, non-overlapping highlight spans of `pattern` in `line`.
pub fn find_spans(line: &str, pattern: &str) -> (spans: Vec<(usize, usize)>)
    ensures
        spans_view(spans@) == spec_spans(line@, pattern@, 0),
{
    let mut spans: Vec<(usize, usize)> = Vec::new();
    let n = line.unicode_len();
    let m = pattern.unicode_len();
    if m == 0 {
        assert(spans_view(spans@) =~= spec_spans(line@, pattern@, 0));
        return spans;
    }
    let mut cursor: usize = 0;
    let mut done = false;
    while !done
        invariant
            1 <= m == pattern@.len(),
            n == line@.len(),
            cursor <= n,
            spans_view(spans@) + spec_spans(line@, pattern@, cursor as int) == spec_spans(
                line@,
                pattern@,
                0,
            ),
            done ==> spec_spans(line@, pattern@, cursor as int) == Seq::<(int, int)>::empty(),
        decreases n - cursor + (if done { 0int } else { 1int }),
    {
        match find_match_from(line, pattern, cursor) {
            None => {
                proof {
                    lemma_spans_skip(line@, pattern@, cursor as int, n as int);
                }
                done = true;
            },
            Some(pos) => {
                proof {
                    lemma_spans_skip(line@, pattern@, cursor as int, pos as int);
                }
                let ghost old_spans = spans@;
                spans.push((pos, pos + m));
                proof {
                    assert(spans_view(spans@) =~= spans_view(old_spans).push(
                        (pos as int, pos + m as int),
                    ));
                    assert(spans_view(old_spans).push((pos as int, pos + m as int)) + spec_spans(
                        line@,
                        pattern@,
                        pos + m as int,
                    ) =~= spans_view(old_spans) + spec_spans(line@, pattern@, pos as int));
                }
                cursor = pos + m;
            },
        }
    }
    assert(spans_view(spans@) =~= spans_view(spans@) + spec_spans(
        line@,
        pattern@,
        cursor as int,
    ));
    spans
}

/// The line rendered against its spans, with `decor[k]` standing in for the
/// text of span `k`: the stretches outside the spans are copied verbatim.
pub open spec fn render_decor(
    text: Seq<char>,
    spans: Seq<(int, int)>,
    decor: Seq<Seq<char>>,
    from: int,
) -> Seq<char>
    decreases spans.len(),
{
    if spans.len() == 0 {
        text.subrange(from, text.len() as int)
    } else {
        text.subrange(from, spans[0].0) + decor[0] + render_decor(
            text,
            spans.drop_first(),
            decor.drop_first(),
            spans[0].1,
        )
    }
}

/// The texts of the spans themselves.
pub open spec fn segments_of(text: Seq<char>, spans: Seq<(int, int)>) -> Seq<Seq<char>> {
    spans.map_values(|s: (int, int)| text.subrange(s.0, s.1))
}

/// Rendering with each span's own text in place of its decoration gives the
/// text back.
proof fn lemma_render_identity(text: Seq<char>, spans: Seq<(int, int)>, from: int)
    requires
        0 <= from <= text.len(),
        spans_wf(spans, from, text.len() as int),
    ensures
        render_decor(text, spans, segments_of(text, spans), from) == text.subrange(
            from,
            text.len() as int,
        ),
    decreases spans.len(),
{
    if spans.len() == 0 {
    } else {
        let s0 = spans[0];
        lemma_render_identity(text, spans.drop_first(), s0.1);
        assert(segments_of(text, spans).drop_first() =~= segments_of(text, spans.drop_first()));
        assert(text.subrange(from, s0.0) + text.subrange(s0.0, s0.1) + text.subrange(
            s0.1,
            text.len() as int,
        ) =~= text.subrange(from, text.len() as int));
    }
}

/// Well-formed spans, read flat: every span is a non-empty range within the
/// text, each next span starts at or after the previous one's end, and the
/// starts are strictly increasing.
proof fn lemma_wf_ordered(spans: Seq<(int, int)>, lo: int, hi: int)
    requires
        spans_wf(spans, lo, hi),
    ensures
        forall|k: int| 0 <= k < spans.len() ==> lo <= (#[trigger] spans[k]).0 < spans[k].1 <= hi,
        forall|k: int| 0 <= k < spans.len() - 1 ==> (#[trigger] spans[k]).1 <= spans[k + 1].0,
    decreases spans.len(),
{
    if spans.len() > 0 {
        lemma_wf_ordered(spans.drop_first(), spans[0].1, hi);
        assert forall|k: int| 0 <= k < spans.len() implies lo <= (#[trigger] spans[k]).0
            < spans[k].1 <= hi by {
            if k > 0 {
                assert(spans.drop_first()[k - 1] == spans[k]);
            }
        }
        assert forall|k: int| 0 <= k < spans.len() - 1 implies (#[trigger] spans[k]).1 <= spans[k
            + 1].0 by {
            if k == 0 {
                assert(spans.drop_first()[0] == spans[1]);
            } else {
                assert(spans.drop_first()[k - 1] == spans[k]);
                assert(spans.drop_first()[k] == spans[k + 1]);
            }
        }
    }
}

/// Law: the highlight spans of a line are non-empty ranges within the line,
/// in strictly increasing start order and non-overlapping (each starts at
/// or after the previous one's end), and splitting the line at the spans
/// and concatenating the pieces yields the line back.
pub proof fn lemma_spans_reconstruct(text: Seq<char>, pat: Seq<char>)
    ensures
        spans_wf(spec_spans(text, pat, 0), 0, text.len() as int),
        forall|k: int|
            0 <= k < spec_spans(text, pat, 0).len() ==> 0 <= (#[trigger] spec_spans(
                text,
                pat,
                0,
            )[k]).0 < spec_spans(text, pat, 0)[k].1 <= text.len(),
        forall|k: int|
            0 <= k < spec_spans(text, pat, 0).len() - 1 ==> (#[trigger] spec_spans(
                text,
                pat,
                0,
            )[k]).1 <= spec_spans(text, pat, 0)[k + 1].0,
        render_decor(
            text,
            spec_spans(text, pat, 0),
            segments_of(text, spec_spans(text, pat, 0)),
            0,
        ) == text,
{
    lemma_spans_wf(text, pat, 0);
    lemma_wf_ordered(spec_spans(text, pat, 0), 0, text.len() as int);
    lemma_render_identity(text, spec_spans(text, pat, 0), 0);
    assert(text.subrange(0, text.len() as int) =~= text);
}

/// The escape sequence that opens red emphasis.
pub open spec fn emphasis_prefix() -> Seq<char> {
    seq!['\u{1b}', '[', '3', '1', 'm']
}

/// The escape sequence that closes emphasis.
pub open spec fn emphasis_suffix() -> Seq<char> {
    seq!['\u{1b}', '[', '0', 'm']
}

/// What emphasis may do to one span's text: leave it unchanged (emphasis
/// disabled), or wrap it in the red prefix and the reset suffix; a text
/// that itself holds a reset sequence is additionally re-styled after it,
/// which the last disjunct leaves open.
pub open spec fn wrapped_ok(orig: Seq<char>, decorated: Seq<char>) -> bool {
    ||| decorated == orig
    ||| decorated == emphasis_prefix() + orig + emphasis_suffix()
    ||| contains_pattern(orig, emphasis_suffix())
}

/// Relies on colored::Colorize::red and colored's Display rendering: the
/// result is the input unchanged when emphasis is off, and otherwise the
/// input wrapped in the red escape prefix and the reset suffix (with the
/// style re-opened after any reset sequence the input itself holds).
#[verifier::external_body]
fn paint_red(s: &str) -> (r: String)
    ensures
        wrapped_ok(s@, r@),
{
    format!("{}", colored::Colorize::red(s))
}

/// A rendering of `text` against `spans` in which every span's text was
/// treated as emphasis may treat it.
pub open spec fn decorated_render(text: Seq<char>, spans: Seq<(int, int)>, out: Seq<char>) -> bool {
    exists|decor: Seq<Seq<char>>|
        {
            &&& decor.len() == spans.len()
            &&& (forall|k: int|
                0 <= k < spans.len() ==> wrapped_ok(
                    text.subrange(spans[k].0, spans[k].1),
                    #[trigger] decor[k],
                ))
            &&& out == render_decor(text, spans, decor, 0)
        }
}

/// Renders the tail of the line from `cursor`, spans `k` onward.
fn render_from(line: &str, spans: &Vec<(usize, usize)>, k: usize, cursor: usize) -> (out: String)
    requires
        k <= spans@.len(),
        cursor <= line@.len() <= usize::MAX,
        spans_wf(spans_view(spans@).skip(k as int), cursor as int, line@.len() as int),
    ensures
        exists|decor: Seq<Seq<char>>|
            {
                &&& decor.len() == spans@.len() - k
                &&& (forall|t: int|
                    0 <= t < decor.len() ==> wrapped_ok(
                        line@.subrange(
                            spans_view(spans@).skip(k as int)[t].0,
                            spans_view(spans@).skip(k as int)[t].1,
                        ),
                        #[trigger] decor[t],
                    ))
                &&& out@ == render_decor(
                    line@,
                    spans_view(spans@).skip(k as int),
                    decor,
                    cursor as int,
                )
            },
    decreases spans@.len() - k,
{
    let ghost tail = spans_view(spans@).skip(k as int);
    let n = line.unicode_len();
    if k == spans.len() {
        let out = String::from_str(line.substring_char(cursor, n));
        proof {
            let decor = Seq::<Seq<char>>::empty();
            assert(tail.len() == 0);
            assert(out@ == render_decor(line@, tail, decor, cursor as int));
        }
        out
    } else {
        let p = spans[k];
        proof {
            assert(tail[0] == (p.0 as int, p.1 as int));
        }
        let gap = line.substring_char(cursor, p.0);
        let seg = line.substring_char(p.0, p.1);
        let painted = paint_red(seg);
        proof {
            assert(tail.drop_first() =~= spans_view(spans@).skip(k + 1int));
        }
        let rest = render_from(line, spans, k + 1, p.1);
        let mut out = String::from_str(gap);
        out.append(painted.as_str());
        out.append(rest.as_str());
        proof {
            let rest_tail = spans_view(spans@).skip(k + 1int);
            assert(tail.drop_first() =~= rest_tail);
            let d_rest = choose|d: Seq<Seq<char>>|
                {
                    &&& d.len() == spans@.len() - (k + 1)
                    &&& (forall|t: int|
                        0 <= t < d.len() ==> wrapped_ok(
                            line@.subrange(rest_tail[t].0, rest_tail[t].1),
                            #[trigger] d[t],
                        ))
                    &&& rest@ == render_decor(line@, rest_tail, d, p.1 as int)
                };
            let decor = seq![painted@] + d_rest;
            assert(decor.drop_first() =~= d_rest);
            assert(forall|t: int|
                0 <= t < decor.len() ==> wrapped_ok(
                    line@.subrange(tail[t].0, tail[t].1),
                    #[trigger] decor[t],
                ));
            assert(out@ == render_decor(line@, tail, decor, cursor as int));
        }
        out
    }
}

/// Renders the whole line against its spans, each span's text passed
/// through the emphasis marker.
pub fn render_highlighted(line: &str, spans: &Vec<(usize, usize)>) -> (out: String)
    requires
        line@.len() <= usize::MAX,
        spans_wf(spans_view(spans@), 0, line@.len() as int),
    ensures
        decorated_render(line@, spans_view(spans@), out@),
{
    proof {
        assert(spans_view(spans@).skip(0) =~= spans_view(spans@));
    }
    render_from(line, spans, 0, 0)
}

/// What highlighting promises for one line: an empty pattern leaves the
/// line unchanged; otherwise the spans are located in the line itself, or —
/// case-insensitively — in its lowercase folding, provided the folding kept
/// the line's length (else the line is left unchanged, the graceful
/// fallback).
pub open spec fn spec_highlighted(
    line: Seq<char>,
    pat: Seq<char>,
    case_insensitive: bool,
    out: Seq<char>,
) -> bool {
    if pat.len() == 0 {
        out == line
    } else if !case_insensitive {
        decorated_render(line, spec_spans(line, pat, 0), out)
    } else if lower_of(line).len() == line.len() {
        decorated_render(line, spec_spans(lower_of(line), lower_of(pat), 0), out)
    } else {
        out == line
    }
}

/// The line with every located occurrence of the pattern wrapped in red
/// emphasis; occurrences are located case-insensitively when asked, and an
/// empty pattern leaves the line unchanged.
pub fn highlight_line(line: &str, pattern: &str, case_insensitive: bool) -> (out: String)
    ensures
        spec_highlighted(line@, pattern@, case_insensitive, out@),
{
    let line_len = line.unicode_len();
    if pattern.unicode_len() == 0 {
        return String::from_str(line);
    }
    if !case_insensitive {
        let spans = find_spans(line, pattern);
        proof {
            lemma_spans_wf(line@, pattern@, 0);
        }
        render_highlighted(line, &spans)
    } else {
        let folded = lowercase(line);
        let folded_pat = lowercase(pattern);
        if folded.unicode_len() != line_len {
            return String::from_str(line);
        }
        let spans = find_spans(folded.as_str(), folded_pat.as_str());
        proof {
            lemma_spans_wf(folded@, folded_pat@, 0);
        }
        render_highlighted(line, &spans)
    }
}

} // verus!
