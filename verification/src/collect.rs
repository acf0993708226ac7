//! File collection: what one path argument contributes to the search, and
//! the deterministic lexicographic order in which the collected files are
//! searched.

use vstd::multiset::Multiset;
use vstd::prelude::*;
use vstd::string::StrSliceExecFns;

verus! {

/// What a path argument contributes: a regular file is searched, a
/// directory is walked only when recursion is enabled, and is skipped
/// silently — no output, no error — when it is not.
#[derive(Clone, Copy, PartialEq, Eq, Structural, Debug)]
pub enum PathAction {
    SearchFile,
    WalkRecursively,
    Skip,
}

/// Decides what a path argument contributes to the search.
pub fn path_action(is_file: bool, recursive: bool) -> (a: PathAction)
    ensures
        a == (if is_file {
            PathAction::SearchFile
        } else if recursive {
            PathAction::WalkRecursively
        } else {
            PathAction::Skip
        }),
{
    if is_file {
        PathAction::SearchFile
    } else if recursive {
        PathAction::WalkRecursively
    } else {
        PathAction::Skip
    }
}

/// Lexicographic order over character sequences: the order in which
/// collected files are searched.
pub open spec fn lex_le(a: Seq<char>, b: Seq<char>) -> bool
    decreases a.len(),
{
    if a.len() == 0 {
        true
    } else if b.len() == 0 {
        false
    } else if a[0] != b[0] {
        a[0] < b[0]
    } else {
        lex_le(a.drop_first(), b.drop_first())
    }
}

/// The lexicographic order is reflexive.
pub proof fn lemma_lex_refl(a: Seq<char>)
    ensures
        lex_le(a, a),
    decreases a.len(),
{
    if a.len() > 0 {
        lemma_lex_refl(a.drop_first());
    }
}

/// The lexicographic order is total.
pub proof fn lemma_lex_total(a: Seq<char>, b: Seq<char>)
    ensures
        lex_le(a, b) || lex_le(b, a),
    decreases a.len(),
{
    if a.len() == 0 || b.len() == 0 {
    } else if a[0] != b[0] {
    } else {
        lemma_lex_total(a.drop_first(), b.drop_first());
    }
}

/// The lexicographic order is transitive.
pub proof fn lemma_lex_trans(a: Seq<char>, b: Seq<char>, c: Seq<char>)
    requires
        lex_le(a, b),
        lex_le(b, c),
    ensures
        lex_le(a, c),
    decreases a.len(),
{
    if a.len() == 0 {
    } else if b.len() == 0 {
    } else if c.len() == 0 {
    } else if a[0] == b[0] && b[0] == c[0] {
        lemma_lex_trans(a.drop_first(), b.drop_first(), c.drop_first());
    }
}

/// Whether `a` comes at or before `b` in the search order.
pub fn str_lex_le(a: &str, b: &str) -> (r: bool)
    ensures
        r == lex_le(a@, b@),
{
    let an = a.unicode_len();
    let bn = b.unicode_len();
    proof {
        assert(a@.skip(0) =~= a@);
        assert(b@.skip(0) =~= b@);
    }
    let mut i: usize = 0;
    loop
        invariant
            i <= an,
            i <= bn,
            an == a@.len(),
            bn == b@.len(),
            lex_le(a@, b@) == lex_le(a@.skip(i as int), b@.skip(i as int)),
            lex_le(b@, a@) == lex_le(b@.skip(i as int), a@.skip(i as int)),
        decreases an - i,
    {
        if i == an {
            return true;
        }
        if i == bn {
            return false;
        }
        let ca = a.get_char(i);
        let cb = b.get_char(i);
        if ca != cb {
            return ca < cb;
        }
        proof {
            assert(a@.skip(i as int).drop_first() =~= a@.skip(i + 1int));
            assert(b@.skip(i as int).drop_first() =~= b@.skip(i + 1int));
        }
        i = i + 1;
    }
}

/// The list is in lexicographic order.
pub open spec fn paths_sorted(s: Seq<Seq<char>>) -> bool {
    forall|i: int, j: int| 0 <= i < j < s.len() ==> lex_le(#[trigger] s[i], #[trigger] s[j])
}

/// The collected files in the order they are searched: the same paths,
/// arranged lexicographically.
pub fn sort_paths(paths: Vec<String>) -> (r: Vec<String>)
    ensures
        paths_sorted(r.deep_view()),
        r.deep_view().to_multiset() == paths.deep_view().to_multiset(),
{
    broadcast use vstd::seq_lib::group_to_multiset_ensures;
    broadcast use vstd::multiset::group_multiset_axioms;

    let mut rest = paths;
    let ghost all = rest.deep_view();
    let mut out: Vec<String> = Vec::new();
    while rest.len() > 0
        invariant
            paths_sorted(out.deep_view()),
            forall|x: int, y: int|
                0 <= x < out.deep_view().len() && 0 <= y < rest.deep_view().len() ==> lex_le(
                    #[trigger] out.deep_view()[x],
                    #[trigger] rest.deep_view()[y],
                ),
            out.deep_view().to_multiset().add(rest.deep_view().to_multiset())
                == all.to_multiset(),
        decreases rest.len(),
    {
        let ghost old_out = out.deep_view();
        let ghost old_rest = rest.deep_view();
        proof {
            lemma_lex_refl(old_rest[0]);
        }
        let mut min: usize = 0;
        let mut t: usize = 1;
        while t < rest.len()
            invariant
                rest.len() > 0,
                min < t,
                t <= rest.len(),
                old_rest == rest.deep_view(),
                forall|j: int|
                    0 <= j < t ==> lex_le(old_rest[min as int], #[trigger] old_rest[j]),
            decreases rest.len() - t,
        {
            if str_lex_le(rest[t].as_str(), rest[min].as_str()) {
                proof {
                    lemma_lex_refl(old_rest[t as int]);
                    assert forall|j: int| 0 <= j < t + 1 implies lex_le(
                        old_rest[t as int],
                        #[trigger] old_rest[j],
                    ) by {
                        if j < t {
                            lemma_lex_trans(old_rest[t as int], old_rest[min as int], old_rest[j]);
                        }
                    }
                }
                min = t;
            } else {
                proof {
                    lemma_lex_total(old_rest[min as int], old_rest[t as int]);
                }
            }
            t = t + 1;
        }
        let chosen = rest.remove(min);
        out.push(chosen);
        proof {
            broadcast use vstd::seq_lib::group_to_multiset_ensures;
            broadcast use vstd::multiset::group_multiset_axioms;

            assert(out.deep_view() =~= old_out.push(chosen@));
            assert(rest.deep_view() =~= old_rest.remove(min as int));
            assert(chosen@ == old_rest[min as int]);
            assert forall|i: int, j: int|
                0 <= i < j < out.deep_view().len() implies lex_le(
                #[trigger] out.deep_view()[i],
                #[trigger] out.deep_view()[j],
            ) by {
                if j < old_out.len() {
                } else {
                    assert(out.deep_view()[j] == old_rest[min as int]);
                }
            }
            assert forall|x: int, y: int|
                0 <= x < out.deep_view().len() && 0 <= y
                    < rest.deep_view().len() implies lex_le(
                #[trigger] out.deep_view()[x],
                #[trigger] rest.deep_view()[y],
            ) by {
                let orig = if y < min { y } else { y + 1 };
                assert(rest.deep_view()[y] == old_rest[orig]);
                if x < old_out.len() {
                    assert(lex_le(old_out[x], old_rest[orig]));
                } else {
                    assert(lex_le(old_rest[min as int], old_rest[orig]));
                }
            }
            assert(old_out.push(chosen@).to_multiset() =~= old_out.to_multiset().insert(
                chosen@,
            ));
            assert(old_rest.remove(min as int).to_multiset() =~= old_rest.to_multiset().remove(
                old_rest[min as int],
            ));
            assert(old_rest.contains(old_rest[min as int]));
            assert(old_rest.to_multiset().count(old_rest[min as int]) > 0);
            assert(out.deep_view().to_multiset().add(rest.deep_view().to_multiset())
                =~= old_out.to_multiset().add(old_rest.to_multiset()));
        }
    }
    proof {
        broadcast use vstd::seq_lib::group_to_multiset_ensures;
        broadcast use vstd::multiset::group_multiset_axioms;

        assert(rest.deep_view().to_multiset() =~= Multiset::<Seq<char>>::empty());
        assert(out.deep_view().to_multiset().add(Multiset::<Seq<char>>::empty())
            =~= out.deep_view().to_multiset());
    }
    out
}

} // verus!
