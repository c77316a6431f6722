//! Searching sequences.

use vstd::prelude::*;

verus! {

/// Index of the first item of `s` that satisfies `p`, or -1.
pub open spec fn first_index<A>(s: Seq<A>, p: spec_fn(A) -> bool) -> int
    decreases s.len(),
{
    if s.len() == 0 {
        -1
    } else if p(s[0]) {
        0
    } else {
        let r = first_index(s.drop_first(), p);
        if r < 0 { -1 } else { r + 1 }
    }
}

/// `first_index` over a prefix that has no match.
pub proof fn lemma_first_index_skip<A>(s: Seq<A>, p: spec_fn(A) -> bool, i: int)
    requires
        0 <= i <= s.len(),
        forall|j: int| 0 <= j < i ==> !p(#[trigger] s[j]),
    ensures
        i < s.len() && p(s[i]) ==> first_index(s, p) == i,
        i == s.len() ==> first_index(s, p) == -1,
    decreases i,
{
    if i > 0 {
        let t = s.drop_first();
        assert forall|j: int| 0 <= j < i - 1 implies !p(#[trigger] t[j]) by {
            assert(t[j] == s[j + 1]);
        }
        lemma_first_index_skip(t, p, i - 1);
        if i < s.len() {
            assert(t[i - 1] == s[i]);
        }
    }
}

/// `first_index` is -1 or the index of a match with no match before it.
pub proof fn lemma_first_index<A>(s: Seq<A>, p: spec_fn(A) -> bool)
    ensures
        -1 <= first_index(s, p) < s.len(),
        first_index(s, p) >= 0 ==> p(s[first_index(s, p)]),
        forall|j: int| 0 <= j < s.len() && (first_index(s, p) < 0 || j < first_index(s, p)) ==> !p(#[trigger] s[j]),
    decreases s.len(),
{
    if s.len() > 0 {
        let t = s.drop_first();
        lemma_first_index(t, p);
        assert forall|j: int| 0 <= j < s.len() && (first_index(s, p) < 0 || j < first_index(s, p)) implies !p(#[trigger] s[j]) by {
            if j > 0 {
                assert(s[j] == t[j - 1]);
            }
        }
    }
}

} // verus!

verus! {

/// Filtering by `a` and then by `b` is filtering by `c` when `c` holds
/// exactly where both do.
pub proof fn lemma_filter_filter<A>(s: Seq<A>, a: spec_fn(A) -> bool, b: spec_fn(A) -> bool, c: spec_fn(A) -> bool)
    requires
        forall|x: A| #[trigger] c(x) == (a(x) && b(x)),
    ensures
        s.filter(a).filter(b) == s.filter(c),
    decreases s.len(),
{
    reveal(Seq::filter);
    if s.len() > 0 {
        lemma_filter_filter(s.drop_last(), a, b, c);
        let x = s.last();
        if a(x) {
            let fa = s.drop_last().filter(a);
            assert(fa.push(x).drop_last() =~= fa);
            assert(fa.push(x).last() == x);
        }
    }
}

} // verus!
