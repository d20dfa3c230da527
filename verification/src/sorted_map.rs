use vstd::prelude::*;

use crate::order::{lex_lt, lemma_lex_irreflexive, lemma_lex_transitive, KeyOrder, MapKey};

verus! {

/// Whether the keys are in strictly increasing order.
pub open spec fn sorted_keys<K: MapKey>(s: Seq<K::V>) -> bool {
    forall|i: int, j: int|
        0 <= i < j < s.len() ==> lex_lt(#[trigger] K::rank(s[i]), #[trigger] K::rank(s[j]))
}

/// The map that pairs each key of `ks` with the value at the same place in `vs`.
pub open spec fn pairs_to_map<K: MapKey, V>(ks: Seq<K::V>, vs: Seq<V>) -> Map<K::V, V> {
    Map::new(|k: K::V| ks.contains(k), |k: K::V| vs[ks.index_of(k)])
}

/// Keys in strictly increasing order are distinct.
pub proof fn lemma_sorted_distinct<K: MapKey>(s: Seq<K::V>, i: int, j: int)
    requires
        sorted_keys::<K>(s),
        0 <= i < s.len(),
        0 <= j < s.len(),
        i != j,
    ensures
        s[i] != s[j],
{
    if s[i] == s[j] {
        lemma_lex_irreflexive(K::rank(s[i]));
        if i < j {
            assert(lex_lt(K::rank(s[i]), K::rank(s[j])));
        } else {
            assert(lex_lt(K::rank(s[j]), K::rank(s[i])));
        }
    }
}

/// In a map built from distinct sorted keys, the key at place `i` maps to
/// the value at place `i`.
pub proof fn lemma_pairs_at<K: MapKey, V>(ks: Seq<K::V>, vs: Seq<V>, i: int)
    requires
        sorted_keys::<K>(ks),
        0 <= i < ks.len(),
    ensures
        pairs_to_map::<K, V>(ks, vs).contains_key(ks[i]),
        pairs_to_map::<K, V>(ks, vs)[ks[i]] == vs[i],
{
    assert(ks.contains(ks[i]));
    let j = ks.index_of(ks[i]);
    if j != i {
        lemma_sorted_distinct::<K>(ks, i, j);
    }
}

/// A map whose keys are kept in increasing order, with one value per key.
pub struct SortedMap<K: MapKey, V> {
    keys: Vec<K>,
    vals: Vec<V>,
}

impl<K: MapKey, V> View for SortedMap<K, V> {
    type V = Map<K::V, V>;

    closed spec fn view(&self) -> Map<K::V, V> {
        pairs_to_map::<K, V>(self.key_seq(), self.vals@)
    }
}

impl<K: MapKey, V> SortedMap<K, V> {
    /// The keys, in increasing order.
    pub closed spec fn key_seq(&self) -> Seq<K::V> {
        Seq::new(self.keys@.len(), |i: int| self.keys@[i]@)
    }

    #[verifier::type_invariant]
    closed spec fn well_formed(self) -> bool {
        &&& self.keys@.len() == self.vals@.len()
        &&& sorted_keys::<K>(self.key_seq())
    }

    /// An empty map.
    pub fn new() -> (r: Self)
        ensures
            r@ == Map::<K::V, V>::empty(),
            r.key_seq() == Seq::<K::V>::empty(),
    {
        let r = SortedMap { keys: Vec::new(), vals: Vec::new() };
        assert(r@ =~= Map::<K::V, V>::empty());
        assert(r.key_seq() =~= Seq::<K::V>::empty());
        r
    }

    /// The number of keys; the keys are sorted, distinct, and exactly the
    /// keys of the map.
    pub fn len(&self) -> (r: usize)
        ensures
            r == self.key_seq().len(),
            sorted_keys::<K>(self.key_seq()),
            forall|k: K::V| #[trigger] self@.contains_key(k) <==> self.key_seq().contains(k),
    {
        proof {
            use_type_invariant(self);
        }
        self.keys.len()
    }

    /// The key at place `i` of the increasing order.
    pub fn key_at(&self, i: usize) -> (r: &K)
        requires
            i < self.key_seq().len(),
        ensures
            r@ == self.key_seq()[i as int],
    {
        &self.keys[i]
    }

    /// The value of the key at place `i` of the increasing order.
    pub fn value_at(&self, i: usize) -> (r: &V)
        requires
            i < self.key_seq().len(),
        ensures
            self@.contains_key(self.key_seq()[i as int]),
            *r == self@[self.key_seq()[i as int]],
    {
        proof {
            use_type_invariant(self);
            lemma_pairs_at::<K, V>(self.key_seq(), self.vals@, i as int);
        }
        &self.vals[i]
    }

    /// Finds the place of `k`: `(true, i)` where the key at `i` is `k`,
    /// `(false, i)` where `k` is absent and belongs at place `i`.
    fn find(&self, k: &K) -> (r: (bool, usize))
        ensures
            r.1 <= self.key_seq().len(),
            forall|j: int| 0 <= j < r.1 ==> lex_lt(K::rank(#[trigger] self.key_seq()[j]), K::rank(k@)),
            r.0 ==> r.1 < self.key_seq().len() && self.key_seq()[r.1 as int] == k@,
            !r.0 ==> forall|j: int|
                r.1 <= j < self.key_seq().len() ==> lex_lt(K::rank(k@), K::rank(#[trigger] self.key_seq()[j])),
            r.0 <==> self.key_seq().contains(k@),
    {
        proof {
            use_type_invariant(self);
        }
        let ghost ks = self.key_seq();
        let n = self.keys.len();
        let mut i: usize = 0;
        while i < n
            invariant
                n == ks.len(),
                ks == self.key_seq(),
                sorted_keys::<K>(ks),
                i <= n,
                forall|j: int| 0 <= j < i ==> lex_lt(K::rank(#[trigger] ks[j]), K::rank(k@)),
            decreases n - i,
        {
            let c = self.keys[i].compare_key(k);
            match c {
                KeyOrder::Less => {},
                KeyOrder::Equal => {
                    assert(ks.contains(k@)) by {
                        assert(ks[i as int] == k@);
                    }
                    return (true, i);
                },
                KeyOrder::Greater => {
                    assert forall|j: int| i <= j < n implies lex_lt(K::rank(k@), K::rank(#[trigger] ks[j])) by {
                        if j > i {
                            lemma_lex_transitive(K::rank(k@), K::rank(ks[i as int]), K::rank(ks[j]));
                        }
                    }
                    assert(!ks.contains(k@)) by {
                        if ks.contains(k@) {
                            let j = ks.index_of(k@);
                            lemma_lex_irreflexive(K::rank(k@));
                        }
                    }
                    return (false, i);
                },
            }
            i = i + 1;
        }
        assert(!ks.contains(k@)) by {
            if ks.contains(k@) {
                let j = ks.index_of(k@);
                lemma_lex_irreflexive(K::rank(k@));
            }
        }
        (false, i)
    }

    /// Whether `k` is a key of the map.
    pub fn contains_key(&self, k: &K) -> (r: bool)
        ensures
            r == self@.contains_key(k@),
    {
        let (found, _i) = self.find(k);
        found
    }

    /// The value of `k`, if it is a key.
    pub fn get(&self, k: &K) -> (r: Option<&V>)
        ensures
            self@.contains_key(k@) ==> r == Some(&self@[k@]),
            !self@.contains_key(k@) ==> r is None,
    {
        proof {
            use_type_invariant(self);
        }
        let (found, i) = self.find(k);
        if found {
            proof {
                lemma_pairs_at::<K, V>(self.key_seq(), self.vals@, i as int);
            }
            Some(&self.vals[i])
        } else {
            None
        }
    }

    /// Maps `k` to `v`, replacing any value `k` had.
    pub fn insert(&mut self, k: K, v: V)
        ensures
            final(self)@ == old(self)@.insert(k@, v),
            old(self)@.contains_key(k@) ==> final(self).key_seq() == old(self).key_seq(),
            !old(self)@.contains_key(k@) ==> exists|p: int|
                0 <= p <= old(self).key_seq().len() && final(self).key_seq() == old(self).key_seq().insert(p, k@),
    {
        proof {
            use_type_invariant(&*self);
        }
        let ghost ks = self.key_seq();
        let ghost vs = self.vals@;
        let (found, i) = self.find(&k);
        if found {
            let mut tmp = SortedMap::new();
            std::mem::swap(&mut tmp, self);
            let SortedMap { keys, mut vals } = tmp;
            vals.set(i, v);
            *self = SortedMap { keys, vals };
            proof {
                assert(self.key_seq() == ks);
                assert forall|kk: K::V| #[trigger] self@.contains_key(kk) == old(self)@.insert(k@, v).contains_key(kk) by {}
                assert forall|kk: K::V| self@.contains_key(kk) implies #[trigger] self@[kk] == old(self)@.insert(k@, v)[kk] by {
                    let j = ks.index_of(kk);
                    lemma_pairs_at::<K, V>(ks, self.vals@, j);
                    lemma_pairs_at::<K, V>(ks, vs, j);
                    if j != i {
                        lemma_sorted_distinct::<K>(ks, j, i as int);
                        assert(self.vals@[j] == vs[j]);
                    }
                }
                assert(self@ =~= old(self)@.insert(k@, v));
            }
        } else {
            let mut tmp = SortedMap::new();
            std::mem::swap(&mut tmp, self);
            let SortedMap { mut keys, mut vals } = tmp;
            let ghost kv = k@;
            keys.insert(i, k);
            vals.insert(i, v);
            let ghost nks = Seq::new(keys@.len(), |j: int| keys@[j]@);
            proof {
                assert(nks =~= ks.insert(i as int, kv));
                assert forall|a: int, b: int| 0 <= a < b < nks.len() implies lex_lt(
                    #[trigger] K::rank(nks[a]),
                    #[trigger] K::rank(nks[b]),
                ) by {
                    if b < i {
                    } else if b == i {
                    } else if a < i {
                        lemma_lex_transitive(K::rank(nks[a]), K::rank(kv), K::rank(nks[b]));
                    } else if a == i {
                    } else {
                    }
                }
            }
            *self = SortedMap { keys, vals };
            proof {
                assert(self.key_seq() =~= nks);
                let m = old(self)@.insert(kv, v);
                assert forall|kk: K::V| #[trigger] self@.contains_key(kk) == m.contains_key(kk) by {
                    if nks.contains(kk) {
                        let j = nks.index_of(kk);
                        if j < i {
                            assert(ks[j] == kk);
                        } else if j > i {
                            assert(ks[j - 1] == kk);
                        }
                    }
                    if ks.contains(kk) {
                        let j = ks.index_of(kk);
                        if j < i {
                            assert(nks[j] == kk);
                        } else {
                            assert(nks[j + 1] == kk);
                        }
                    }
                    if kk == kv {
                        assert(nks[i as int] == kk);
                    }
                }
                assert forall|kk: K::V| self@.contains_key(kk) implies #[trigger] self@[kk] == m[kk] by {
                    let j = nks.index_of(kk);
                    lemma_pairs_at::<K, V>(nks, self.vals@, j);
                    if j < i {
                        lemma_pairs_at::<K, V>(ks, vs, j);
                    } else if j > i {
                        lemma_pairs_at::<K, V>(ks, vs, j - 1);
                    }
                }
                assert(self@ =~= m);
                assert(self.key_seq() == ks.insert(i as int, kv));
            }
        }
    }

    /// Removes `k` and returns its value, if it was a key.
    pub fn remove(&mut self, k: &K) -> (r: Option<V>)
        ensures
            final(self)@ == old(self)@.remove(k@),
            !old(self)@.contains_key(k@) ==> final(self).key_seq() == old(self).key_seq(),
            old(self)@.contains_key(k@) ==> exists|p: int|
                0 <= p < old(self).key_seq().len() && old(self).key_seq()[p] == k@
                    && final(self).key_seq() == old(self).key_seq().remove(p),
            old(self)@.contains_key(k@) ==> r == Some(old(self)@[k@]),
            !old(self)@.contains_key(k@) ==> r is None,
    {
        proof {
            use_type_invariant(&*self);
        }
        let ghost ks = self.key_seq();
        let ghost vs = self.vals@;
        let (found, i) = self.find(k);
        if !found {
            assert(self@ =~= old(self)@.remove(k@));
            return None;
        }
        assert(ks[i as int] == k@);
        let mut tmp = SortedMap::new();
        std::mem::swap(&mut tmp, self);
        let SortedMap { mut keys, mut vals } = tmp;
        let _gone = keys.remove(i);
        let v = vals.remove(i);
        let ghost nks = Seq::new(keys@.len(), |j: int| keys@[j]@);
        proof {
            assert(nks =~= ks.remove(i as int));
            assert forall|a: int, b: int| 0 <= a < b < nks.len() implies lex_lt(
                #[trigger] K::rank(nks[a]),
                #[trigger] K::rank(nks[b]),
            ) by {
                if a < i && b >= i {
                    assert(nks[b] == ks[b + 1]);
                } else if a >= i {
                    assert(nks[a] == ks[a + 1]);
                    assert(nks[b] == ks[b + 1]);
                }
            }
        }
        *self = SortedMap { keys, vals };
        proof {
            assert(self.key_seq() =~= nks);
            lemma_pairs_at::<K, V>(ks, vs, i as int);
            let m = old(self)@.remove(k@);
            assert forall|kk: K::V| #[trigger] self@.contains_key(kk) == m.contains_key(kk) by {
                if nks.contains(kk) {
                    let j = nks.index_of(kk);
                    if j < i {
                        assert(ks[j] == kk);
                        lemma_sorted_distinct::<K>(ks, j, i as int);
                    } else {
                        assert(ks[j + 1] == kk);
                        lemma_sorted_distinct::<K>(ks, j + 1, i as int);
                    }
                }
                if ks.contains(kk) && kk != k@ {
                    let j = ks.index_of(kk);
                    if j < i {
                        assert(nks[j] == kk);
                    } else {
                        assert(j != i);
                        assert(nks[j - 1] == kk);
                    }
                }
            }
            assert forall|kk: K::V| self@.contains_key(kk) implies #[trigger] self@[kk] == m[kk] by {
                let j = nks.index_of(kk);
                lemma_pairs_at::<K, V>(nks, self.vals@, j);
                if j < i {
                    lemma_pairs_at::<K, V>(ks, vs, j);
                } else {
                    lemma_pairs_at::<K, V>(ks, vs, j + 1);
                }
            }
            assert(self@ =~= m);
            assert(self.key_seq() == ks.remove(i as int));
        }
        Some(v)
    }
}

impl<K: MapKey, V: Copy> SortedMap<K, V> {
    /// A copy of the map.
    pub fn copied(&self) -> (r: Self)
        ensures
            r@ == self@,
            r.key_seq() == self.key_seq(),
    {
        proof {
            use_type_invariant(self);
        }
        let n = self.keys.len();
        let mut keys: Vec<K> = Vec::new();
        let mut vals: Vec<V> = Vec::new();
        for i in 0..n
            invariant
                n == self.keys@.len(),
                n == self.vals@.len(),
                keys@.len() == i,
                vals@ == self.vals@.take(i as int),
                forall|j: int| 0 <= j < i ==> (#[trigger] keys@[j])@ == self.keys@[j]@,
        {
            keys.push(self.keys[i].clone_key());
            vals.push(self.vals[i]);
            assert(vals@ =~= self.vals@.take(i + 1));
        }
        assert(vals@ =~= self.vals@);
        let ghost nks = Seq::new(keys@.len(), |j: int| keys@[j]@);
        assert(nks =~= self.key_seq());
        let r = SortedMap { keys, vals };
        assert(r.key_seq() =~= self.key_seq());
        r
    }
}

/// The sum of the values of the keys `ks` in `m`.
pub open spec fn sum_over<K: MapKey>(ks: Seq<K::V>, m: Map<K::V, u128>) -> int
    decreases ks.len(),
{
    if ks.len() == 0 {
        0
    } else {
        sum_over::<K>(ks.drop_last(), m) + m[ks.last()]
    }
}

/// Changing the value of a key that is not among `ks` leaves their sum alone.
pub proof fn lemma_sum_other_key<K: MapKey>(ks: Seq<K::V>, m: Map<K::V, u128>, k: K::V, v: u128)
    requires
        !ks.contains(k),
    ensures
        sum_over::<K>(ks, m.insert(k, v)) == sum_over::<K>(ks, m),
    decreases ks.len(),
{
    if ks.len() > 0 {
        assert(!ks.drop_last().contains(k)) by {
            if ks.drop_last().contains(k) {
                let j = ks.drop_last().index_of(k);
                assert(ks[j] == k);
            }
        }
        lemma_sum_other_key::<K>(ks.drop_last(), m, k, v);
    }
}

/// Changing the value of a key that occurs once among `ks` changes their sum
/// by the difference.
pub proof fn lemma_sum_update<K: MapKey>(ks: Seq<K::V>, m: Map<K::V, u128>, k: K::V, v: u128)
    requires
        sorted_keys::<K>(ks),
        ks.contains(k),
    ensures
        sum_over::<K>(ks, m.insert(k, v)) == sum_over::<K>(ks, m) - m[k] + v,
    decreases ks.len(),
{
    let dl = ks.drop_last();
    assert(sorted_keys::<K>(dl));
    if ks.last() == k {
        assert(!dl.contains(k)) by {
            if dl.contains(k) {
                let j = dl.index_of(k);
                lemma_sorted_distinct::<K>(ks, j, ks.len() - 1);
            }
        }
        lemma_sum_other_key::<K>(dl, m, k, v);
    } else {
        assert(dl.contains(k)) by {
            let j = ks.index_of(k);
            assert(j != ks.len() - 1);
            assert(dl[j] == k);
        }
        lemma_sum_update::<K>(dl, m, k, v);
    }
}

/// Adding a new key with value `v` at any place adds `v` to the sum.
pub proof fn lemma_sum_insert<K: MapKey>(ks: Seq<K::V>, m: Map<K::V, u128>, p: int, k: K::V, v: u128)
    requires
        0 <= p <= ks.len(),
        !ks.contains(k),
    ensures
        sum_over::<K>(ks.insert(p, k), m.insert(k, v)) == sum_over::<K>(ks, m) + v,
    decreases ks.len(),
{
    let nks = ks.insert(p, k);
    if p == ks.len() {
        assert(nks.drop_last() =~= ks);
        lemma_sum_other_key::<K>(ks, m, k, v);
    } else {
        let dl = ks.drop_last();
        assert(nks.drop_last() =~= dl.insert(p, k));
        assert(!dl.contains(k)) by {
            if dl.contains(k) {
                let j = dl.index_of(k);
                assert(ks[j] == k);
            }
        }
        lemma_sum_insert::<K>(dl, m, p, k, v);
        assert(nks.last() == ks.last());
    }
}

} // verus!
