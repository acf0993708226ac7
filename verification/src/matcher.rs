//! The match decision: does a line contain the pattern, with or without
//! case folding, and should the line be emitted given the invert flag.

use vstd::prelude::*;

verus! {

/// `pat` occurs in `text` as a contiguous run starting at position `i`.
pub open spec fn match_at(text: Seq<char>, pat: Seq<char>, i: int) -> bool {
    &&& 0 <= i
    &&& i + pat.len() <= text.len()
    &&& forall|j: int| 0 <= j < pat.len() ==> text[i + j] == pat[j]
}

/// `pat` occurs somewhere in `text` as a contiguous substring.
pub open spec fn contains_pattern(text: Seq<char>, pat: Seq<char>) -> bool {
    exists|i: int| match_at(text, pat, i)
}

/// The lowercase folding that the platform's standard lowering produces.
pub uninterp spec fn lower_of(s: Seq<char>) -> Seq<char>;

/// Relies on str::to_lowercase: the result is a function of the input
/// characters alone.
#[verifier::external_body]
pub(crate) fn lowercase(s: &str) -> (r: String)
    ensures
        r@ == lower_of(s@),
{
    s.to_lowercase()
}

/// The match decision for one line: plain containment, or containment of
/// the folded pattern in the folded line.
pub open spec fn spec_is_match(line: Seq<char>, pat: Seq<char>, case_insensitive: bool) -> bool {
    if case_insensitive {
        contains_pattern(lower_of(line), lower_of(pat))
    } else {
        contains_pattern(line, pat)
    }
}

/// Whether `pat` occurs at exactly position `i` of `text`.
fn match_here(text: &str, pat: &str, i: usize) -> (b: bool)
    requires
        i + pat@.len() <= text@.len(),
        text@.len() <= usize::MAX,
    ensures
        b == match_at(text@, pat@, i as int),
{
    let m = pat.unicode_len();
    let mut j: usize = 0;
    while j < m
        invariant
            j <= m,
            m == pat@.len(),
            i + m <= text@.len(),
            text@.len() <= usize::MAX,
            forall|t: int| 0 <= t < j ==> text@[i + t] == pat@[t],
        decreases m - j,
    {
        if text.get_char(i + j) != pat.get_char(j) {
            assert(!match_at(text@, pat@, i as int));
            return false;
        }
        j = j + 1;
    }
    true
}

/// The leftmost occurrence of `pat` in `text` at or after position `from`,
/// if any.
pub fn find_match_from(text: &str, pat: &str, from: usize) -> (r: Option<usize>)
    requires
        from <= text@.len(),
    ensures
        match r {
            Some(i) => {
                &&& from <= i
                &&& match_at(text@, pat@, i as int)
                &&& forall|k: int| from <= k < i ==> !match_at(text@, pat@, k)
            },
            None => forall|k: int| from <= k ==> !match_at(text@, pat@, k),
        },
{
    let n = text.unicode_len();
    let m = pat.unicode_len();
    if m > n || from > n - m {
        assert(forall|k: int| from <= k ==> !match_at(text@, pat@, k));
        return None;
    }
    let mut i: usize = from;
    while i <= n - m
        invariant
            m <= n,
            n == text@.len(),
            m == pat@.len(),
            from <= i <= n - m + 1,
            forall|k: int| from <= k < i ==> !match_at(text@, pat@, k),
        decreases n - m + 1 - i,
    {
        if match_here(text, pat, i) {
            return Some(i);
        }
        i = i + 1;
    }
    assert(forall|k: int| from <= k ==> !match_at(text@, pat@, k));
    None
}

/// Whether `text` contains `pat` as a contiguous substring.
pub fn contains_str(text: &str, pat: &str) -> (b: bool)
    ensures
        b == contains_pattern(text@, pat@),
{
    match find_match_from(text, pat, 0) {
        Some(_) => true,
        None => false,
    }
}

/// Whether two pieces of text hold the same characters.
pub fn str_eq(a: &str, b: &str) -> (r: bool)
    ensures
        r == (a@ == b@),
{
    let n = a.unicode_len();
    if n != b.unicode_len() {
        return false;
    }
    let mut i: usize = 0;
    while i < n
        invariant
            i <= n,
            n == a@.len(),
            n == b@.len(),
            forall|j: int| 0 <= j < i ==> a@[j] == b@[j],
        decreases n - i,
    {
        if a.get_char(i) != b.get_char(i) {
            return false;
        }
        i = i + 1;
    }
    assert(a@ =~= b@);
    true
}

/// The match decision for one line against the pattern.
pub fn is_match(line: &str, pattern: &str, case_insensitive: bool) -> (b: bool)
    ensures
        b == spec_is_match(line@, pattern@, case_insensitive),
{
    if case_insensitive {
        let folded_line = lowercase(line);
        let folded_pat = lowercase(pattern);
        contains_str(folded_line.as_str(), folded_pat.as_str())
    } else {
        contains_str(line, pattern)
    }
}

/// Whether a line with match decision `is_match` is emitted: matches when
/// `invert` is off, non-matches when it is on.
pub fn should_emit(is_match: bool, invert: bool) -> (r: bool)
    ensures
        r == (is_match != invert),
{
    if invert {
        !is_match
    } else {
        is_match
    }
}

/// Law: the case-sensitive match decision is exactly substring containment.
pub proof fn lemma_match_is_containment(line: Seq<char>, pat: Seq<char>)
    ensures
        spec_is_match(line, pat, false) == contains_pattern(line, pat),
{
}

/// Law: the case-insensitive match decision is containment over the
/// lowercase foldings of the line and the pattern.
pub proof fn lemma_match_folds_case(line: Seq<char>, pat: Seq<char>)
    ensures
        spec_is_match(line, pat, true) == contains_pattern(lower_of(line), lower_of(pat)),
{
}

} // verus!
