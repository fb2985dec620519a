//! An ordered map from string keys to values, kept sorted by key.
use vstd::prelude::*;
use crate::text::{chars_lt, chars_of, lemma_seq_lt_asymmetric, lemma_seq_lt_irreflexive, lemma_seq_lt_total, lemma_seq_lt_transitive, seq_lt, str_eq};

verus! {

/// Keys strictly ascending in the order of `str`'s `Ord`.
pub open spec fn strictly_sorted(ks: Seq<Seq<char>>) -> bool {
    forall|i: int, j: int| 0 <= i < j < ks.len() ==> seq_lt(ks[i], ks[j])
}

/// The members of `set` in ascending order.
pub open spec fn sorted_keys(set: Set<Seq<char>>) -> Seq<Seq<char>> {
    choose|q: Seq<Seq<char>>| strictly_sorted(q) && forall|k: Seq<char>| q.contains(k) <==> set.contains(k)
}

/// Two ascending sequences with the same members are equal.
pub proof fn lemma_sorted_unique(a: Seq<Seq<char>>, b: Seq<Seq<char>>)
    requires
        strictly_sorted(a),
        strictly_sorted(b),
        forall|k: Seq<char>| a.contains(k) <==> b.contains(k),
    ensures
        a == b,
    decreases a.len(),
{
    if a.len() == 0 {
        if b.len() > 0 {
            assert(b.contains(b[0]));
        }
        assert(a =~= b);
    } else {
        assert(a.contains(a[0]));
        let j = choose|j: int| 0 <= j < b.len() && b[j] == a[0];
        assert(b.contains(b[0]));
        let i = choose|i: int| 0 <= i < a.len() && a[i] == b[0];
        if j > 0 {
            assert(seq_lt(b[0], b[j]));
            if i > 0 {
                assert(seq_lt(a[0], a[i]));
                lemma_seq_lt_asymmetric(a[0], b[0]);
            } else {
                lemma_seq_lt_irreflexive(a[0]);
            }
        }
        assert(b[0] == a[0]);
        let a1 = a.drop_first();
        let b1 = b.drop_first();
        assert forall|k: Seq<char>| a1.contains(k) <==> b1.contains(k) by {
            if a1.contains(k) {
                let x = choose|x: int| 0 <= x < a1.len() && a1[x] == k;
                assert(a[x + 1] == k);
                assert(seq_lt(a[0], k));
                assert(b.contains(k));
                let y = choose|y: int| 0 <= y < b.len() && b[y] == k;
                if y == 0 {
                    lemma_seq_lt_irreflexive(k);
                }
                assert(b1[y - 1] == k);
            }
            if b1.contains(k) {
                let x = choose|x: int| 0 <= x < b1.len() && b1[x] == k;
                assert(b[x + 1] == k);
                assert(seq_lt(b[0], k));
                assert(a.contains(k));
                let y = choose|y: int| 0 <= y < a.len() && a[y] == k;
                if y == 0 {
                    lemma_seq_lt_irreflexive(k);
                }
                assert(a1[y - 1] == k);
            }
        };
        lemma_sorted_unique(a1, b1);
        assert(a =~= seq![a[0]] + a1);
        assert(b =~= seq![b[0]] + b1);
    }
}

/// An ascending sequence is the sorted form of its members.
pub proof fn lemma_sorted_keys(q: Seq<Seq<char>>, set: Set<Seq<char>>)
    requires
        strictly_sorted(q),
        forall|k: Seq<char>| q.contains(k) <==> set.contains(k),
    ensures
        sorted_keys(set) == q,
{
    let r = sorted_keys(set);
    lemma_sorted_unique(r, q);
}

/// `x` placed into the ascending `q` before the first key above it.
pub open spec fn insert_sorted(x: Seq<char>, q: Seq<Seq<char>>) -> Seq<Seq<char>>
    decreases q.len(),
{
    if q.len() == 0 {
        seq![x]
    } else if seq_lt(x, q[0]) {
        seq![x] + q
    } else {
        seq![q[0]] + insert_sorted(x, q.drop_first())
    }
}

proof fn lemma_insert_sorted(x: Seq<char>, q: Seq<Seq<char>>)
    requires
        strictly_sorted(q),
        !q.contains(x),
    ensures
        strictly_sorted(insert_sorted(x, q)),
        forall|k: Seq<char>| insert_sorted(x, q).contains(k) <==> (k == x || q.contains(k)),
    decreases q.len(),
{
    let r = insert_sorted(x, q);
    if q.len() == 0 {
        assert forall|k: Seq<char>| r.contains(k) <==> (k == x || q.contains(k)) by {
            if r.contains(k) {
                let i = choose|i: int| 0 <= i < r.len() && r[i] == k;
            }
            if k == x {
                assert(r[0] == x);
            }
        };
    } else if seq_lt(x, q[0]) {
        assert forall|i: int, j: int| 0 <= i < j < r.len() implies seq_lt(r[i], r[j]) by {
            if i == 0 {
                if j > 1 {
                    lemma_seq_lt_transitive(x, q[0], q[j - 1]);
                }
            } else {
                assert(r[i] == q[i - 1] && r[j] == q[j - 1]);
            }
        };
        assert forall|k: Seq<char>| r.contains(k) <==> (k == x || q.contains(k)) by {
            if r.contains(k) {
                let i = choose|i: int| 0 <= i < r.len() && r[i] == k;
                if i > 0 {
                    assert(q[i - 1] == k);
                }
            }
            if k == x {
                assert(r[0] == x);
            }
            if q.contains(k) {
                let i = choose|i: int| 0 <= i < q.len() && q[i] == k;
                assert(r[i + 1] == k);
            }
        };
    } else {
        let t = q.drop_first();
        assert(x != q[0]) by {
            if x == q[0] {
                assert(q.contains(q[0]));
            }
        };
        lemma_seq_lt_total(x, q[0]);
        assert(strictly_sorted(t)) by {
            assert forall|i: int, j: int| 0 <= i < j < t.len() implies seq_lt(t[i], t[j]) by {
                assert(t[i] == q[i + 1] && t[j] == q[j + 1]);
            };
        };
        assert(!t.contains(x)) by {
            if t.contains(x) {
                let i = choose|i: int| 0 <= i < t.len() && t[i] == x;
                assert(q[i + 1] == x);
            }
        };
        lemma_insert_sorted(x, t);
        let rt = insert_sorted(x, t);
        assert(seq_lt(q[0], x));
        assert forall|k: Seq<char>| rt.contains(k) implies seq_lt(q[0], k) by {
            if k != x {
                assert(insert_sorted(x, t).contains(k));
                assert(t.contains(k));
                let i = choose|i: int| 0 <= i < t.len() && t[i] == k;
                assert(q[i + 1] == k);
                assert(seq_lt(q[0], q[i + 1]));
            }
        };
        assert forall|i: int, j: int| 0 <= i < j < r.len() implies seq_lt(r[i], r[j]) by {
            assert(r[j] == rt[j - 1]);
            if i == 0 {
                assert(rt.contains(rt[j - 1]));
            } else {
                assert(r[i] == rt[i - 1]);
            }
        };
        assert forall|k: Seq<char>| r.contains(k) <==> (k == x || q.contains(k)) by {
            if r.contains(k) {
                let i = choose|i: int| 0 <= i < r.len() && r[i] == k;
                if i > 0 {
                    assert(rt[i - 1] == k);
                    assert(rt.contains(k));
                    if k != x {
                        assert(insert_sorted(x, t).contains(k));
                        assert(t.contains(k));
                        let m = choose|m: int| 0 <= m < t.len() && t[m] == k;
                        assert(q[m + 1] == k);
                    }
                } else {
                    assert(q[0] == k);
                }
            }
            if k == x {
                assert(rt.contains(x));
                let m = choose|m: int| 0 <= m < rt.len() && rt[m] == x;
                assert(r[m + 1] == x);
            }
            if q.contains(k) {
                let m = choose|m: int| 0 <= m < q.len() && q[m] == k;
                if m == 0 {
                    assert(r[0] == k);
                } else {
                    assert(t[m - 1] == k);
                    assert(t.contains(k));
                    assert(insert_sorted(x, t).contains(k));
                    let n = choose|n: int| 0 <= n < rt.len() && rt[n] == k;
                    assert(r[n + 1] == k);
                }
            }
        };
    }
}

/// Every finite set of keys has an ascending listing, and `sorted_keys` is
/// one.
pub proof fn lemma_sorted_keys_exist(set: Set<Seq<char>>)
    requires
        set.finite(),
    ensures
        strictly_sorted(sorted_keys(set)),
        forall|k: Seq<char>| sorted_keys(set).contains(k) <==> set.contains(k),
    decreases set.len(),
{
    if set.len() == 0 {
        assert(set =~= Set::<Seq<char>>::empty()) by {
            vstd::set_lib::lemma_set_empty_equivalency_len(set);
        };
        let q = Seq::<Seq<char>>::empty();
        assert(strictly_sorted(q) && forall|k: Seq<char>| q.contains(k) <==> set.contains(k));
    } else {
        let x = set.choose();
        vstd::set::axiom_set_choose_len(set);
        let rest = set.remove(x);
        vstd::set::axiom_set_remove_finite(set, x);
        vstd::set::axiom_set_remove_len(set, x);
        lemma_sorted_keys_exist(rest);
        let q = sorted_keys(rest);
        lemma_insert_sorted(x, q);
        let w = insert_sorted(x, q);
        assert(strictly_sorted(w) && forall|k: Seq<char>| w.contains(k) <==> set.contains(k));
    }
}

pub open spec fn string_views(v: Seq<String>) -> Seq<Seq<char>> {
    v.map_values(|s: String| s@)
}

/// Equality by deep view, decided at run time.
pub trait DeepEq: DeepView + Sized {
    fn deep_eq(&self, other: &Self) -> (r: bool)
        ensures
            r == (self.deep_view() == other.deep_view()),
    ;

    fn deep_clone(&self) -> (r: Self)
        ensures
            r.deep_view() == self.deep_view(),
    ;
}

impl DeepEq for String {
    fn deep_eq(&self, other: &Self) -> (r: bool) {
        *self == *other
    }

    fn deep_clone(&self) -> (r: Self) {
        self.clone()
    }
}

impl DeepEq for Option<String> {
    fn deep_eq(&self, other: &Self) -> (r: bool) {
        match (self, other) {
            (Some(a), Some(b)) => *a == *b,
            (None, None) => true,
            _ => false,
        }
    }

    fn deep_clone(&self) -> (r: Self) {
        match self {
            Some(a) => Some(a.clone()),
            None => None,
        }
    }
}

impl<V: DeepView> View for SortedMap<V> {
    type V = Map<Seq<char>, V::V>;

    open spec fn view(&self) -> Map<Seq<char>, V::V> {
        Map::new(
            |k: Seq<char>| self.key_seq().contains(k),
            |k: Seq<char>| self.val_seq()[self.index_of_key(k)],
        )
    }
}

impl DeepEq for Vec<String> {
    fn deep_eq(&self, other: &Self) -> (r: bool) {
        if self.len() != other.len() {
            assert(self.deep_view().len() != other.deep_view().len());
            return false;
        }
        let mut i: usize = 0;
        while i < self.len()
            invariant
                i <= self.len(),
                self.len() == other.len(),
                forall|x: int| 0 <= x < i ==> self@[x]@ == other@[x]@,
            decreases self.len() - i,
        {
            if self[i] != other[i] {
                assert(self.deep_view()[i as int] != other.deep_view()[i as int]);
                return false;
            }
            i = i + 1;
        }
        assert(self.deep_view() =~= other.deep_view());
        true
    }

    fn deep_clone(&self) -> (r: Self) {
        let mut r: Vec<String> = Vec::new();
        let mut i: usize = 0;
        while i < self.len()
            invariant
                i <= self.len(),
                r@.len() == i,
                forall|x: int| 0 <= x < i ==> r@[x]@ == self@[x]@,
            decreases self.len() - i,
        {
            r.push(self[i].clone());
            i = i + 1;
        }
        assert(r.deep_view() =~= self.deep_view());
        r
    }
}

/// `m` with the bindings of `g` added, those of `g` winning.
pub open spec fn extend_map<V>(m: Map<Seq<char>, V>, g: Map<Seq<char>, V>) -> Map<Seq<char>, V> {
    Map::new(
        |k: Seq<char>| m.dom().contains(k) || g.dom().contains(k),
        |k: Seq<char>| if g.dom().contains(k) { g[k] } else { m[k] },
    )
}

/// The value bound to `k` in `m`, if any.
pub open spec fn map_get<V>(m: Map<Seq<char>, V>, k: Seq<char>) -> Option<V> {
    if m.dom().contains(k) {
        Some(m[k])
    } else {
        None
    }
}

/// A map from strings to values whose entries are kept in ascending key
/// order, like a `BTreeMap<String, V>`.
#[derive(Debug)]
pub struct SortedMap<V> {
    keys: Vec<String>,
    vals: Vec<V>,
}

impl<V> SortedMap<V> {
    /// The keys, in ascending order.
    pub closed spec fn key_seq(&self) -> Seq<Seq<char>> {
        string_views(self.keys@)
    }

    /// Keys and values pair up, and keys ascend strictly.
    pub closed spec fn wf(&self) -> bool {
        &&& self.keys.len() == self.vals.len()
        &&& strictly_sorted(self.key_seq())
    }

    /// Every map value satisfies `wf`.
    #[verifier::type_invariant]
    pub open spec fn inv(&self) -> bool {
        self.wf()
    }
}

impl<V: DeepView> SortedMap<V> {
    /// The values, in the order of their keys.
    pub closed spec fn val_seq(&self) -> Seq<V::V> {
        self.vals@.map_values(|v: V| v.deep_view())
    }

    /// Index of key `k` in `key_seq()`.
    pub open spec fn index_of_key(&self, k: Seq<char>) -> int {
        choose|i: int| 0 <= i < self.key_seq().len() && self.key_seq()[i] == k
    }

    /// The value of `k`, if present.
    pub open spec fn lookup(&self, k: Seq<char>) -> Option<V::V> {
        if self.key_seq().contains(k) {
            Some(self.val_seq()[self.index_of_key(k)])
        } else {
            None
        }
    }

    pub proof fn lemma_shape(&self)
        requires
            self.wf(),
        ensures
            self.key_seq().len() == self.val_seq().len(),
            strictly_sorted(self.key_seq()),
    {
    }

    /// The entry at index `i` is what `lookup` finds for its key.
    pub proof fn lemma_index(&self, i: int)
        requires
            self.wf(),
            0 <= i < self.key_seq().len(),
        ensures
            self.index_of_key(self.key_seq()[i]) == i,
            self.lookup(self.key_seq()[i]) == Some(self.val_seq()[i]),
            self@.dom().contains(self.key_seq()[i]),
            self@[self.key_seq()[i]] == self.val_seq()[i],
    {
        let k = self.key_seq()[i];
        assert(self.key_seq().contains(k));
        let j = self.index_of_key(k);
        if j < i {
            lemma_seq_lt_irreflexive(k);
        } else if i < j {
            lemma_seq_lt_irreflexive(k);
        }
    }

    pub fn new() -> (m: Self)
        ensures
            m.key_seq() == Seq::<Seq<char>>::empty(),
            m.val_seq() == Seq::<V::V>::empty(),
    {
        let m = SortedMap { keys: Vec::new(), vals: Vec::new() };
        assert(m.key_seq() =~= Seq::<Seq<char>>::empty());
        assert(m.val_seq() =~= Seq::<V::V>::empty());
        m
    }

    pub fn len(&self) -> (n: usize)
        ensures
            n == self.key_seq().len(),
            n == self.val_seq().len(),
    {
        proof { use_type_invariant(self); }
        self.keys.len()
    }

    pub fn key_at(&self, i: usize) -> (k: &String)
        requires
            i < self.key_seq().len(),
        ensures
            k@ == self.key_seq()[i as int],
    {
        &self.keys[i]
    }

    pub fn value_at(&self, i: usize) -> (v: &V)
        requires
            i < self.key_seq().len(),
        ensures
            v.deep_view() == self.val_seq()[i as int],
    {
        proof { use_type_invariant(self); }
        &self.vals[i]
    }

    /// Position where `k` is or would be inserted.
    fn position(&self, k: &str) -> (p: usize)
        ensures
            p <= self.key_seq().len(),
            forall|i: int| 0 <= i < p ==> seq_lt(#[trigger] self.key_seq()[i], k@),
            p < self.key_seq().len() ==> !seq_lt(self.key_seq()[p as int], k@),
    {
        proof { use_type_invariant(self); }
        let kv = chars_of(k);
        let mut p: usize = 0;
        while p < self.keys.len()
            invariant
                p <= self.keys.len(),
                kv@ == k@,
                self.key_seq().len() == self.keys.len(),
                forall|i: int| 0 <= i < p ==> seq_lt(#[trigger] self.key_seq()[i], k@),
            decreases self.keys.len() - p,
        {
            let cur = chars_of(self.keys[p].as_str());
            if !chars_lt(&cur, &kv) {
                return p;
            }
            p = p + 1;
        }
        p
    }

    /// Index of `k`, if present.
    pub fn find(&self, k: &str) -> (r: Option<usize>)
        ensures
            r matches Some(i) ==> i < self.key_seq().len() && self.key_seq()[i as int] == k@,
            r is None ==> !self.key_seq().contains(k@),
            self.lookup(k@) == (match r { Some(i) => Some(self.val_seq()[i as int]), None => None }),
    {
        proof { use_type_invariant(self); }
        let p = self.position(k);
        if p < self.keys.len() && str_eq(self.keys[p].as_str(), k) {
            proof { self.lemma_index(p as int); }
            Some(p)
        } else {
            proof {
                if self.key_seq().contains(k@) {
                    let j = choose|j: int| 0 <= j < self.key_seq().len() && self.key_seq()[j] == k@;
                    if j < p {
                        lemma_seq_lt_irreflexive(k@);
                    } else if j > p {
                        lemma_seq_lt_total(self.key_seq()[p as int], k@);
                        lemma_seq_lt_transitive(k@, self.key_seq()[p as int], self.key_seq()[j]);
                        lemma_seq_lt_irreflexive(k@);
                    }
                }
            }
            None
        }
    }

    pub fn get(&self, k: &str) -> (r: Option<&V>)
        ensures
            self.lookup(k@) == (match r { Some(v) => Some(v.deep_view()), None => None }),
            map_get(self@, k@) == (match r { Some(v) => Some(v.deep_view()), None => None }),
    {
        match self.find(k) {
            Some(i) => Some(self.value_at(i)),
            None => None,
        }
    }

    /// The map with `k` bound to `v`, replacing any earlier binding.
    fn with_entry(self, k: String, v: V) -> (m: Self)
        ensures
            m@ == self@.insert(k@, v.deep_view()),
    {
        proof { use_type_invariant(&self); }
        let ghost old_keys = self.key_seq();
        let ghost old_vals = self.val_seq();
        let p = self.position(k.as_str());
        let SortedMap { mut keys, mut vals } = self;
        let present = p < keys.len() && str_eq(keys[p].as_str(), k.as_str());
        let ghost kv = k@;
        let ghost vv = v.deep_view();
        if present {
            vals.set(p, v);
        } else {
            keys.insert(p, k);
            vals.insert(p, v);
        }
        let ghost nk = if present { old_keys } else { old_keys.insert(p as int, kv) };
        assert(string_views(keys@) =~= nk);
        assert forall|i: int, j: int| 0 <= i < j < nk.len() implies seq_lt(nk[i], nk[j]) by {
            if !present {
                if j == p {
                } else if i == p {
                    lemma_seq_lt_total(old_keys[p as int], kv);
                    if j - 1 > p {
                        lemma_seq_lt_transitive(kv, old_keys[p as int], old_keys[j - 1]);
                    }
                } else if j > p && i < p {
                } else {
                }
            }
        };
        let m = SortedMap { keys, vals };
        assert(m.val_seq() =~= (if present { old_vals.update(p as int, vv) } else { old_vals.insert(p as int, vv) }));
        assert(m.key_seq() == nk);
        assert(m.wf());
        proof {
            let target = self@.insert(kv, vv);
            assert forall|q: Seq<char>| #![trigger m@.dom().contains(q)] #![trigger target.dom().contains(q)] #![trigger m@[q]]
                m@.dom().contains(q) == target.dom().contains(q)
                && (m@.dom().contains(q) ==> m@[q] == target[q]) by {
                if q == kv {
                    m.lemma_index(p as int);
                } else if old_keys.contains(q) {
                    let j = choose|j: int| 0 <= j < old_keys.len() && old_keys[j] == q;
                    self.lemma_index(j);
                    if present || j < p {
                        m.lemma_index(j);
                    } else {
                        m.lemma_index(j + 1);
                    }
                } else {
                    if m.key_seq().contains(q) {
                        let j = choose|j: int| 0 <= j < m.key_seq().len() && m.key_seq()[j] == q;
                        if present || j < p {
                            assert(old_keys[j] == q);
                        } else if j > p {
                            assert(old_keys[j - 1] == q);
                        }
                    }
                }
            };
            assert(m@.dom() =~= target.dom());
            assert(m@ =~= target);
        }
        m
    }

    /// Binds `k` to `v`, replacing any earlier binding.
    pub fn insert(&mut self, k: String, v: V)
        ensures
            final(self)@ == old(self)@.insert(k@, v.deep_view()),
    {
        let mut tmp = SortedMap::new();
        std::mem::swap(&mut tmp, self);
        let m = tmp.with_entry(k, v);
        *self = m;
    }

    /// Binds `k` to `v` unless `k` is already bound.
    pub fn insert_if_absent(&mut self, k: String, v: V)
        ensures
            final(self)@ == (if old(self)@.dom().contains(k@) { old(self)@ } else { old(self)@.insert(k@, v.deep_view()) }),
    {
        if !self.contains_key(k.as_str()) {
            self.insert(k, v);
        }
    }

    /// The keys, in ascending order.
    pub fn keys(&self) -> (r: Vec<String>)
        ensures
            r.deep_view() == self.key_seq(),
            strictly_sorted(r.deep_view()),
            r.deep_view() == sorted_keys(self@.dom()),
    {
        proof { use_type_invariant(self); }
        let mut r: Vec<String> = Vec::new();
        let mut i: usize = 0;
        while i < self.keys.len()
            invariant
                i <= self.keys.len(),
                self.key_seq().len() == self.keys.len(),
                r.deep_view() == self.key_seq().take(i as int),
            decreases self.keys.len() - i,
        {
            let k = self.keys[i].clone();
            let ghost before = r@;
            let ghost bd = r.deep_view();
            r.push(k);
            assert(bd.len() == i);
            assert(before.len() == i);
            assert(r@ == before.push(k));
            assert(k@ == self.key_seq()[i as int]);
            assert forall|x: int| 0 <= x < i implies r.deep_view()[x] == bd[x] by {
                assert(r@[x] == before[x]);
            };
            assert(r.deep_view() =~= self.key_seq().take(i + 1));
            i = i + 1;
        }
        assert(self.key_seq().take(i as int) =~= self.key_seq());
        proof {
            lemma_sorted_keys(self.key_seq(), self@.dom());
        }
        r
    }

    /// The keys come in ascending order.
    pub proof fn lemma_key_order(&self)
        requires
            self.wf(),
        ensures
            self.key_seq() == sorted_keys(self@.dom()),
            self.key_seq().len() == self.val_seq().len(),
    {
        lemma_sorted_keys(self.key_seq(), self@.dom());
    }

    /// Binds every key of `other` to its value there, replacing earlier
    /// bindings (`BTreeMap::extend`).
    pub fn extend_from(&mut self, other: &Self)
        where V: DeepEq
        ensures
            final(self)@ == extend_map(old(self)@, other@),
    {
        proof {
            use_type_invariant(other);
            other.lemma_key_order();
        }
        let ghost start = self@;
        let mut i: usize = 0;
        let n = other.len();
        while i < n
            invariant
                i <= n,
                n == other.key_seq().len(),
                other.wf(),
                self@ == extend_map(start, Map::new(
                    |k: Seq<char>| exists|x: int| 0 <= x < i && other.key_seq()[x] == k,
                    |k: Seq<char>| other@[k],
                )),
            decreases n - i,
        {
            proof { other.lemma_index(i as int); }
            let k = other.key_at(i).clone();
            let v = other.value_at(i).deep_clone();
            self.insert(k, v);
            i = i + 1;
            assert(self@ =~= extend_map(start, Map::new(
                |k: Seq<char>| exists|x: int| 0 <= x < i && other.key_seq()[x] == k,
                |k: Seq<char>| other@[k],
            )));
        }
        assert forall|k: Seq<char>| #![auto] other@.dom().contains(k) implies (exists|x: int| 0 <= x < i && other.key_seq()[x] == k) by {
            let x = choose|x: int| 0 <= x < other.key_seq().len() && other.key_seq()[x] == k;
        };
        assert(self@ =~= extend_map(start, other@));
    }

    /// Equal views have equal key sequences.
    pub proof fn lemma_equal_views(&self, other: &Self)
        requires
            self.wf(),
            other.wf(),
            self@ == other@,
        ensures
            self.key_seq() == other.key_seq(),
    {
        assert forall|k: Seq<char>| self.key_seq().contains(k) <==> other.key_seq().contains(k) by {
            assert(self@.dom().contains(k) == self.key_seq().contains(k));
            assert(other@.dom().contains(k) == other.key_seq().contains(k));
        };
        lemma_sorted_unique(self.key_seq(), other.key_seq());
    }

    /// Whether both maps bind the same keys to equal values.
    pub fn same_as(&self, other: &Self) -> (r: bool)
        where V: DeepEq
        ensures
            r == (self@ == other@),
    {
        proof {
            use_type_invariant(self);
            use_type_invariant(other);
            if self@ == other@ {
                self.lemma_equal_views(other);
            }
        }
        if self.keys.len() != other.keys.len() {
            return false;
        }
        let mut i: usize = 0;
        while i < self.keys.len()
            invariant
                self.wf(),
                other.wf(),
                i <= self.keys.len(),
                self.keys.len() == other.keys.len(),
                self.key_seq().len() == self.keys.len(),
                other.key_seq().len() == other.keys.len(),
                self.val_seq().len() == self.keys.len(),
                other.val_seq().len() == other.keys.len(),
                self@ == other@ ==> self.key_seq() == other.key_seq(),
                forall|x: int| 0 <= x < i ==> #[trigger] self.key_seq()[x] == other.key_seq()[x],
                forall|x: int| 0 <= x < i ==> #[trigger] self.val_seq()[x] == other.val_seq()[x],
            decreases self.keys.len() - i,
        {
            assert(self.key_seq()[i as int] == self.keys@[i as int]@);
            assert(other.key_seq()[i as int] == other.keys@[i as int]@);
            if !str_eq(self.keys[i].as_str(), other.keys[i].as_str()) {
                return false;
            }
            assert(self.val_seq()[i as int] == self.vals@[i as int].deep_view());
            assert(other.val_seq()[i as int] == other.vals@[i as int].deep_view());
            if !self.vals[i].deep_eq(&other.vals[i]) {
                proof {
                    self.lemma_index(i as int);
                    other.lemma_index(i as int);
                }
                return false;
            }
            assert(self.vals@[i as int].deep_view() == other.vals@[i as int].deep_view());
            assert(self.val_seq()[i as int] == other.val_seq()[i as int]);
            assert(self.key_seq()[i as int] == other.key_seq()[i as int]);
            i = i + 1;
        }
        proof {
            assert(self.key_seq() =~= other.key_seq());
            assert(self.val_seq() =~= other.val_seq());
            assert(self@ =~= other@);
        }
        true
    }

    pub fn contains_key(&self, k: &str) -> (r: bool)
        ensures
            r == self.key_seq().contains(k@),
            r == self.lookup(k@) is Some,
            r == self@.dom().contains(k@),
    {
        self.find(k).is_some()
    }
}

} // verus!
