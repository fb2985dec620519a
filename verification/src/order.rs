//! Stable insertion order under a strict order, and what it keeps.
use vstd::prelude::*;

verus! {

/// `x` placed into `s` before the first element that it precedes.
pub open spec fn insert_by<T>(x: T, s: Seq<T>, before: spec_fn(T, T) -> bool) -> Seq<T>
    decreases s.len(),
{
    if s.len() == 0 {
        seq![x]
    } else if before(x, s[0]) {
        seq![x] + s
    } else {
        seq![s[0]] + insert_by(x, s.drop_first(), before)
    }
}

/// `s` sorted by `before`, keeping equally placed elements in their order.
pub open spec fn sort_by<T>(s: Seq<T>, before: spec_fn(T, T) -> bool) -> Seq<T>
    decreases s.len(),
{
    if s.len() == 0 {
        s
    } else {
        insert_by(s.last(), sort_by(s.drop_last(), before), before)
    }
}

/// No element of `s` precedes one listed before it.
pub open spec fn ordered_by<T>(s: Seq<T>, before: spec_fn(T, T) -> bool) -> bool {
    forall|i: int, j: int| 0 <= i < j < s.len() ==> !before(#[trigger] s[j], #[trigger] s[i])
}

/// `before` is transitive and asymmetric.
pub open spec fn strict_order<T>(before: spec_fn(T, T) -> bool) -> bool {
    &&& forall|a: T, b: T, c: T| #[trigger] before(a, b) && #[trigger] before(b, c) ==> before(a, c)
    &&& forall|a: T, b: T| #[trigger] before(a, b) ==> !before(b, a)
}

proof fn lemma_insert_by_multiset<T>(x: T, s: Seq<T>, before: spec_fn(T, T) -> bool)
    ensures
        insert_by(x, s, before).to_multiset() == s.to_multiset().insert(x),
    decreases s.len(),
{
    broadcast use vstd::seq_lib::group_to_multiset_ensures;
    if s.len() == 0 {
        assert(seq![x] =~= Seq::<T>::empty().push(x));
        assert(Seq::<T>::empty().to_multiset() =~= vstd::multiset::Multiset::<T>::empty());
    } else if before(x, s[0]) {
        assert(seq![x] + s =~= s.insert(0, x));
    } else {
        let t = s.drop_first();
        lemma_insert_by_multiset(x, t, before);
        let r = insert_by(x, t, before);
        vstd::seq_lib::lemma_multiset_commutative(seq![s[0]], r);
        vstd::seq_lib::lemma_multiset_commutative(seq![s[0]], t);
        assert(seq![s[0]] + t =~= s);
        assert((seq![s[0]] + r).to_multiset() =~= s.to_multiset().insert(x));
    }
}

proof fn lemma_member<T>(y: T, x: T, s: Seq<T>, before: spec_fn(T, T) -> bool)
    requires
        insert_by(x, s, before).contains(y),
    ensures
        y == x || s.contains(y),
{
    broadcast use vstd::seq_lib::group_to_multiset_ensures;
    lemma_insert_by_multiset(x, s, before);
    assert(insert_by(x, s, before).to_multiset().count(y) > 0);
}

proof fn lemma_insert_by_ordered<T>(x: T, s: Seq<T>, before: spec_fn(T, T) -> bool)
    requires
        strict_order(before),
        ordered_by(s, before),
    ensures
        ordered_by(insert_by(x, s, before), before),
    decreases s.len(),
{
    if s.len() == 0 {
    } else if before(x, s[0]) {
        let r = seq![x] + s;
        assert forall|i: int, j: int| 0 <= i < j < r.len() implies !before(#[trigger] r[j], #[trigger] r[i]) by {
            if i == 0 {
                assert(r[j] == s[j - 1]);
                if j - 1 > 0 {
                    assert(!before(s[j - 1], s[0]));
                }
            } else {
                assert(r[i] == s[i - 1] && r[j] == s[j - 1]);
            }
        };
    } else {
        let t = s.drop_first();
        assert forall|i: int, j: int| 0 <= i < j < t.len() implies !before(#[trigger] t[j], #[trigger] t[i]) by {
            assert(t[i] == s[i + 1] && t[j] == s[j + 1]);
        };
        lemma_insert_by_ordered(x, t, before);
        let q = insert_by(x, t, before);
        let r = seq![s[0]] + q;
        assert forall|i: int, j: int| 0 <= i < j < r.len() implies !before(#[trigger] r[j], #[trigger] r[i]) by {
            if i == 0 {
                let y = r[j];
                assert(y == q[j - 1]);
                assert(q.contains(y));
                lemma_member(y, x, t, before);
                if y != x {
                    let k = choose|k: int| 0 <= k < t.len() && t[k] == y;
                    assert(s[k + 1] == y);
                }
            } else {
                assert(r[i] == q[i - 1] && r[j] == q[j - 1]);
            }
        };
    }
}

/// Sorting keeps every element, and lists none after one that it precedes.
pub proof fn lemma_sort_by<T>(s: Seq<T>, before: spec_fn(T, T) -> bool)
    requires
        strict_order(before),
    ensures
        sort_by(s, before).to_multiset() == s.to_multiset(),
        ordered_by(sort_by(s, before), before),
    decreases s.len(),
{
    broadcast use vstd::seq_lib::group_to_multiset_ensures;
    if s.len() > 0 {
        let init = s.drop_last();
        lemma_sort_by(init, before);
        lemma_insert_by_multiset(s.last(), sort_by(init, before), before);
        lemma_insert_by_ordered(s.last(), sort_by(init, before), before);
        assert(init.push(s.last()) =~= s);
    }
}

} // verus!

verus! {

/// Where `insert_by` puts `x`: after the first `p` elements, which `x` does
/// not precede, and before the element at `p`, which it does.
pub proof fn lemma_insert_by_at<T>(x: T, s: Seq<T>, before: spec_fn(T, T) -> bool, p: int)
    requires
        0 <= p <= s.len(),
        forall|k: int| 0 <= k < p ==> !before(x, #[trigger] s[k]),
        p < s.len() ==> before(x, s[p]),
    ensures
        insert_by(x, s, before) == s.take(p).push(x) + s.skip(p),
    decreases s.len(),
{
    if s.len() == 0 {
        assert(s.take(p).push(x) + s.skip(p) =~= seq![x]);
    } else if p == 0 {
        assert(s.take(p).push(x) + s.skip(p) =~= seq![x] + s);
    } else {
        let t = s.drop_first();
        assert forall|k: int| 0 <= k < p - 1 implies !before(x, #[trigger] t[k]) by {
            assert(t[k] == s[k + 1]);
        };
        lemma_insert_by_at(x, t, before, p - 1);
        assert(s.take(p).push(x) + s.skip(p) =~= seq![s[0]] + (t.take(p - 1).push(x) + t.skip(p - 1)));
    }
}

} // verus!
