//! Stable sorting of listings by name.

use vstd::prelude::*;

use crate::text::{seq_lt, str_lt};

verus! {

/// Items that a listing is sorted by: each has a name.
pub trait Named {
    /// The name, as characters.
    spec fn key(&self) -> Seq<char>;

    /// The name.
    fn sort_key(&self) -> (r: &str)
        ensures
            r@ == self.key();
}

/// `s` with `x` inserted before the first item whose name sorts after `x`'s.
pub open spec fn insert_by_name<T: Named>(x: T, s: Seq<T>) -> Seq<T>
    decreases s.len(),
{
    if s.len() == 0 {
        seq![x]
    } else if seq_lt(x.key(), s[0].key()) {
        seq![x] + s
    } else {
        seq![s[0]] + insert_by_name(x, s.drop_first())
    }
}

/// `s` stably sorted by name (the order of `sort_by(|a, b| a.name.cmp(&b.name))`).
pub open spec fn sorted_by_name<T: Named>(s: Seq<T>) -> Seq<T>
    decreases s.len(),
{
    if s.len() == 0 {
        s
    } else {
        insert_by_name(s.last(), sorted_by_name(s.drop_last()))
    }
}

/// Inserting at the first position whose item sorts after `x` is `insert_by_name`.
proof fn lemma_insert_position<T: Named>(x: T, s: Seq<T>, p: int)
    requires
        0 <= p <= s.len(),
        forall|j: int| 0 <= j < p ==> !seq_lt(x.key(), #[trigger] s[j].key()),
        p < s.len() ==> seq_lt(x.key(), s[p].key()),
    ensures
        insert_by_name(x, s) == s.insert(p, x),
    decreases s.len(),
{
    if s.len() == 0 {
        assert(s.insert(p, x) =~= seq![x]);
    } else if p == 0 {
        assert(s.insert(p, x) =~= seq![x] + s);
    } else {
        let t = s.drop_first();
        assert forall|j: int| 0 <= j < p - 1 implies !seq_lt(x.key(), #[trigger] t[j].key()) by {
            assert(t[j] == s[j + 1]);
        }
        lemma_insert_position(x, t, p - 1);
        assert(s.insert(p, x) =~= seq![s[0]] + t.insert(p - 1, x));
    }
}

/// Sort `v` stably by name.
pub fn sort_by_name<T: Named>(v: Vec<T>) -> (r: Vec<T>)
    ensures
        r@ == sorted_by_name(v@),
{
    let ghost orig = v@;
    let n = v.len();
    let mut input = v;
    let mut out: Vec<T> = Vec::new();
    let mut i: usize = 0;
    assert(orig.take(0) =~= Seq::<T>::empty());
    assert(orig.skip(0) =~= orig);
    while i < n
        invariant
            n == orig.len(),
            i <= n,
            input@ == orig.skip(i as int),
            out@ == sorted_by_name(orig.take(i as int)),
        decreases n - i,
    {
        let x = input.remove(0);
        assert(x == orig[i as int]);
        assert(input@ =~= orig.skip(i + 1));
        let mut p: usize = 0;
        while p < out.len()
            invariant
                p <= out@.len(),
                forall|j: int| 0 <= j < p ==> !seq_lt(x.key(), #[trigger] out@[j].key()),
            ensures
                p <= out@.len(),
                forall|j: int| 0 <= j < p ==> !seq_lt(x.key(), #[trigger] out@[j].key()),
                p < out@.len() ==> seq_lt(x.key(), out@[p as int].key()),
            decreases out@.len() - p,
        {
            if str_lt(x.sort_key(), out[p].sort_key()) {
                break;
            }
            p = p + 1;
        }
        proof {
            lemma_insert_position(x, out@, p as int);
            let t = orig.take(i + 1);
            assert(t.drop_last() =~= orig.take(i as int));
            assert(t.last() == x);
        }
        out.insert(p, x);
        i = i + 1;
    }
    assert(orig.take(n as int) =~= orig);
    out
}

} // verus!

verus! {

/// Names never decrease along `s`.
pub open spec fn is_sorted_by_name<T: Named>(s: Seq<T>) -> bool {
    forall|i: int, j: int| 0 <= i < j < s.len() ==> !seq_lt(#[trigger] s[j].key(), #[trigger] s[i].key())
}

/// `insert_by_name` puts `x` somewhere into `s`.
proof fn lemma_insert_by_name_inserts<T: Named>(x: T, s: Seq<T>) -> (p: int)
    ensures
        0 <= p <= s.len(),
        insert_by_name(x, s) == s.insert(p, x),
    decreases s.len(),
{
    if s.len() == 0 {
        assert(s.insert(0, x) =~= seq![x]);
        0
    } else if seq_lt(x.key(), s[0].key()) {
        assert(s.insert(0, x) =~= seq![x] + s);
        0
    } else {
        let q = lemma_insert_by_name_inserts(x, s.drop_first());
        assert(s.insert(q + 1, x) =~= seq![s[0]] + s.drop_first().insert(q, x));
        q + 1
    }
}

/// Sorting only reorders: the sorted sequence holds the same items, as often.
pub proof fn law_sort_permutes<T: Named>(s: Seq<T>)
    ensures
        sorted_by_name(s).to_multiset() == s.to_multiset(),
    decreases s.len(),
{
    broadcast use vstd::seq_lib::to_multiset_insert, vstd::seq_lib::to_multiset_build;

    if s.len() > 0 {
        law_sort_permutes(s.drop_last());
        let t = sorted_by_name(s.drop_last());
        let p = lemma_insert_by_name_inserts(s.last(), t);
        assert(s =~= s.drop_last().push(s.last()));
    }
}

/// Every item of the sorted sequence comes from the input.
pub proof fn lemma_sorted_items_from_input<T: Named>(s: Seq<T>, i: int)
    requires
        0 <= i < sorted_by_name(s).len(),
    ensures
        s.contains(sorted_by_name(s)[i]),
{
    broadcast use vstd::seq_lib::to_multiset_contains;

    law_sort_permutes(s);
    assert(sorted_by_name(s).contains(sorted_by_name(s)[i]));
    assert(sorted_by_name(s).to_multiset().count(sorted_by_name(s)[i]) > 0);
}

/// Every item of a sorted filtered sequence satisfies the filter.
pub proof fn lemma_sorted_filter_satisfies<T: Named>(s: Seq<T>, pred: spec_fn(T) -> bool, i: int)
    requires
        0 <= i < sorted_by_name(s.filter(pred)).len(),
    ensures
        pred(sorted_by_name(s.filter(pred))[i]),
{
    let f = s.filter(pred);
    lemma_sorted_items_from_input(f, i);
    let k = f.lemma_contains_to_index(sorted_by_name(f)[i]);
    s.lemma_filter_pred(pred, k);
}

/// Inserting by name into a sorted sequence keeps it sorted.
proof fn lemma_insert_keeps_sorted<T: Named>(x: T, s: Seq<T>)
    requires
        is_sorted_by_name(s),
    ensures
        is_sorted_by_name(insert_by_name(x, s)),
    decreases s.len(),
{
    let r = insert_by_name(x, s);
    if s.len() == 0 {
    } else if seq_lt(x.key(), s[0].key()) {
        assert forall|i: int, j: int| 0 <= i < j < r.len() implies !seq_lt(#[trigger] r[j].key(), #[trigger] r[i].key()) by {
            if i == 0 {
                assert(r[j] == s[j - 1]);
                if j - 1 > 0 {
                    assert(!seq_lt(s[j - 1].key(), s[0].key()));
                }
                if seq_lt(s[j - 1].key(), x.key()) {
                    if j - 1 == 0 {
                        crate::text::lemma_seq_lt_transitive(s[0].key(), x.key(), s[0].key());
                        crate::text::lemma_seq_lt_irreflexive(s[0].key());
                    } else {
                        crate::text::lemma_seq_lt_transitive(s[j - 1].key(), x.key(), s[0].key());
                    }
                }
            } else {
                assert(r[i] == s[i - 1] && r[j] == s[j - 1]);
            }
        }
    } else {
        let rest = s.drop_first();
        assert forall|i: int, j: int| 0 <= i < j < rest.len() implies !seq_lt(#[trigger] rest[j].key(), #[trigger] rest[i].key()) by {
            assert(rest[i] == s[i + 1] && rest[j] == s[j + 1]);
        }
        lemma_insert_keeps_sorted(x, rest);
        let q = lemma_insert_by_name_inserts(x, rest);
        let tail = insert_by_name(x, rest);
        assert(r == seq![s[0]] + tail);
        assert forall|i: int, j: int| 0 <= i < j < r.len() implies !seq_lt(#[trigger] r[j].key(), #[trigger] r[i].key()) by {
            if i == 0 {
                let e = tail[j - 1];
                if j - 1 < q {
                    assert(e == rest[j - 1]);
                    assert(e == s[j]);
                } else if j - 1 > q {
                    assert(e == rest[j - 2]);
                    assert(e == s[j - 1]);
                } else {
                    assert(e == x);
                }
            } else {
                assert(r[i] == tail[i - 1] && r[j] == tail[j - 1]);
            }
        }
    }
}

/// The result of sorting is sorted by name.
pub proof fn law_sort_is_sorted<T: Named>(s: Seq<T>)
    ensures
        is_sorted_by_name(sorted_by_name(s)),
    decreases s.len(),
{
    if s.len() > 0 {
        law_sort_is_sorted(s.drop_last());
        lemma_insert_keeps_sorted(s.last(), sorted_by_name(s.drop_last()));
    }
}

} // verus!

verus! {

/// Some item of `s` has name `k`.
pub open spec fn has_key<T: Named>(s: Seq<T>, k: Seq<char>) -> bool {
    exists|i: int| 0 <= i < s.len() && (#[trigger] s[i]).key() == k
}

/// No name occurs twice in `s`.
pub open spec fn keys_distinct<T: Named>(s: Seq<T>) -> bool {
    forall|i: int, j: int| 0 <= i < s.len() && 0 <= j < s.len() && i != j ==> (#[trigger] s[i]).key() != (#[trigger] s[j]).key()
}

/// Inserting `x` adds its name and, when the name is new, keeps the names distinct.
proof fn lemma_insert_keys<T: Named>(x: T, s: Seq<T>)
    ensures
        forall|k: Seq<char>| has_key(insert_by_name(x, s), k) <==> (x.key() == k || has_key(s, k)),
        keys_distinct(s) && !has_key(s, x.key()) ==> keys_distinct(insert_by_name(x, s)),
{
    let q = lemma_insert_by_name_inserts(x, s);
    let r = s.insert(q, x);
    assert forall|k: Seq<char>| has_key(r, k) <==> (x.key() == k || has_key(s, k)) by {
        if has_key(r, k) {
            let i = choose|i: int| 0 <= i < r.len() && (#[trigger] r[i]).key() == k;
            if i < q {
                assert(r[i] == s[i]);
            } else if i > q {
                assert(r[i] == s[i - 1]);
            }
        }
        if has_key(s, k) {
            let i = choose|i: int| 0 <= i < s.len() && (#[trigger] s[i]).key() == k;
            if i < q {
                assert(r[i] == s[i]);
            } else {
                assert(r[i + 1] == s[i]);
            }
        }
        if x.key() == k {
            assert(r[q] == x);
        }
    }
    if keys_distinct(s) && !has_key(s, x.key()) {
        assert forall|i: int, j: int| 0 <= i < r.len() && 0 <= j < r.len() && i != j implies (#[trigger] r[i]).key()
            != (#[trigger] r[j]).key() by {
            let si = if i < q { i } else { i - 1 };
            let sj = if j < q { j } else { j - 1 };
            if i == q {
                assert(r[j] == s[sj]);
            } else if j == q {
                assert(r[i] == s[si]);
            } else {
                assert(r[i] == s[si] && r[j] == s[sj]);
            }
        }
    }
}

/// Sorting keeps the set of names and keeps distinct names distinct.
pub proof fn law_sort_keeps_keys<T: Named>(s: Seq<T>)
    ensures
        forall|k: Seq<char>| has_key(sorted_by_name(s), k) <==> has_key(s, k),
        keys_distinct(s) ==> keys_distinct(sorted_by_name(s)),
    decreases s.len(),
{
    if s.len() > 0 {
        let init = s.drop_last();
        law_sort_keeps_keys(init);
        lemma_insert_keys(s.last(), sorted_by_name(init));
        assert forall|k: Seq<char>| has_key(s, k) <==> (s.last().key() == k || has_key(init, k)) by {
            if has_key(s, k) {
                let i = choose|i: int| 0 <= i < s.len() && (#[trigger] s[i]).key() == k;
                if i < s.len() - 1 {
                    assert(init[i] == s[i]);
                }
            }
            if has_key(init, k) {
                let i = choose|i: int| 0 <= i < init.len() && (#[trigger] init[i]).key() == k;
                assert(s[i] == init[i]);
            }
        }
        if keys_distinct(s) {
            assert forall|i: int, j: int| 0 <= i < init.len() && 0 <= j < init.len() && i != j implies (#[trigger] init[i]).key()
                != (#[trigger] init[j]).key() by {
                assert(init[i] == s[i] && init[j] == s[j]);
            }
            if has_key(init, s.last().key()) {
                let i = choose|i: int| 0 <= i < init.len() && (#[trigger] init[i]).key() == s.last().key();
                assert(s[i] == init[i]);
                assert(s[s.len() - 1].key() == s[i].key());
            }
        }
    }
}

} // verus!

verus! {

/// Inserting by name into a sorted sequence and then filtering is inserting
/// into the filtered sequence (when `x` passes the filter).
proof fn lemma_insert_filter<T: Named>(x: T, s: Seq<T>, p: spec_fn(T) -> bool)
    requires
        is_sorted_by_name(s),
    ensures
        insert_by_name(x, s).filter(p) == if p(x) {
            insert_by_name(x, s.filter(p))
        } else {
            s.filter(p)
        },
    decreases s.len(),
{
    reveal_with_fuel(Seq::filter, 2);
    if s.len() == 0 {
        assert(seq![x].drop_last() =~= Seq::<T>::empty());
        if p(x) {
            assert(seq![x].filter(p) =~= seq![x]);
        } else {
            assert(seq![x].filter(p) =~= Seq::<T>::empty());
        }
    } else {
        let s0 = s[0];
        let t = s.drop_first();
        assert(s =~= seq![s0] + t);
        t.lemma_filter_prepend(s0, p);
        assert forall|i: int, j: int| 0 <= i < j < t.len() implies !seq_lt(#[trigger] t[j].key(), #[trigger] t[i].key()) by {
            assert(t[i] == s[i + 1] && t[j] == s[j + 1]);
        }
        if seq_lt(x.key(), s0.key()) {
            s.lemma_filter_prepend(x, p);
            if p(x) {
                let f = s.filter(p);
                if f.len() > 0 {
                    assert(f.contains(f[0]));
                    s.lemma_filter_contains_rev(p, f[0]);
                    let k = choose|k: int| 0 <= k < s.len() && s[k] == f[0];
                    if k > 0 {
                        assert(!seq_lt(s[k].key(), s[0].key()));
                        if s[k].key() != s[0].key() {
                            crate::text::lemma_seq_lt_total(s[k].key(), s[0].key());
                            crate::text::lemma_seq_lt_transitive(x.key(), s[0].key(), s[k].key());
                        }
                    }
                    assert(seq_lt(x.key(), f[0].key()));
                } else {
                    assert(f =~= Seq::<T>::empty());
                }
                assert(seq![x] + Seq::<T>::empty() =~= seq![x]);
            } else {
                assert(Seq::<T>::empty() + s.filter(p) =~= s.filter(p));
            }
        } else {
            let it = insert_by_name(x, t);
            it.lemma_filter_prepend(s0, p);
            lemma_insert_filter(x, t, p);
            let tf = t.filter(p);
            if p(s0) {
                if p(x) {
                    let sf = seq![s0] + tf;
                    assert(sf[0] == s0);
                    assert(sf.drop_first() =~= tf);
                }
            } else {
                assert(Seq::<T>::empty() + tf =~= tf);
                assert(Seq::<T>::empty() + it.filter(p) =~= it.filter(p));
            }
        }
    }
}

/// Sorting commutes with filtering: the sort is stable.
pub proof fn law_sort_filter<T: Named>(s: Seq<T>, p: spec_fn(T) -> bool)
    ensures
        sorted_by_name(s.filter(p)) == sorted_by_name(s).filter(p),
    decreases s.len(),
{
    reveal(Seq::filter);
    if s.len() > 0 {
        let init = s.drop_last();
        let x = s.last();
        law_sort_filter(init, p);
        law_sort_is_sorted(init);
        lemma_insert_filter(x, sorted_by_name(init), p);
        if p(x) {
            let g = init.filter(p).push(x);
            assert(g.drop_last() =~= init.filter(p));
            assert(g.last() == x);
        }
    }
}

} // verus!
