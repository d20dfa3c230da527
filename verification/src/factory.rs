use vstd::prelude::*;

use crate::order::MapKey;
use crate::sorted_map::SortedMap;
use crate::text::{contains_text, has_substring, text};
use crate::types::{copy_pools, joined_names, pool_defect, pools_view, CustomError, CustomErrorView, Pool_Data, PoolView, SwapParams};

verus! {

/// The pool factory: the pools recorded under each pool name, and the
/// locks held by operations in progress (by pool name or by user).
pub struct Factory {
    /// The pools recorded under each pool name.
    pub pool_data: SortedMap<String, Vec<Pool_Data>>,
    /// The locks, by the name of what they guard.
    pub locks: SortedMap<String, bool>,
}

/// The pools recorded under each name, by their views.
pub open spec fn entries(f: Factory) -> Map<Seq<char>, Seq<PoolView>> {
    f.pool_data@.map_values(|v: Vec<Pool_Data>| pools_view(v@))
}

/// The pools recorded under `name`, or none.
pub open spec fn entries_of(f: Factory, name: Seq<char>) -> Seq<PoolView> {
    if entries(f).contains_key(name) {
        entries(f)[name]
    } else {
        Seq::empty()
    }
}

/// The entries once `p` is recorded under its name: appended to the pools
/// already there, or as the first one.
pub open spec fn entries_after_store(f: Factory, p: PoolView) -> Map<Seq<char>, Seq<PoolView>> {
    entries(f).insert(joined_names(p.tokens), entries_of(f, joined_names(p.tokens)).push(p))
}

/// Whether some pool recorded under the name of `p` has a smaller swap fee
/// than `p`: adding liquidity then subtracts a larger fee from a smaller
/// one, which fails.
pub open spec fn fee_conflict(f: Factory, p: PoolView) -> bool {
    exists|i: int|
        0 <= i < entries_of(f, joined_names(p.tokens)).len() && (#[trigger] entries_of(
            f,
            joined_names(p.tokens),
        )[i]).swap_fee < p.swap_fee
}

/// Whether the locks hold `key`.
pub open spec fn held(locks: Map<Seq<char>, bool>, key: Seq<char>) -> bool {
    locks.contains_key(key) && locks[key]
}

/// Whether the lock of `key` is held.
pub open spec fn lock_held(f: Factory, key: Seq<char>) -> bool {
    held(f.locks@, key)
}

/// The keys that hold both names as substrings, in their order.
pub open spec fn matching_keys(ks: Seq<Seq<char>>, a: Seq<char>, b: Seq<char>) -> Seq<Seq<char>>
    decreases ks.len(),
{
    if ks.len() == 0 {
        Seq::empty()
    } else {
        let rest = matching_keys(ks.drop_last(), a, b);
        if has_substring(ks.last(), a) && has_substring(ks.last(), b) {
            rest.push(ks.last())
        } else {
            rest
        }
    }
}

impl Factory {
    /// A factory with no pools and no locks.
    pub fn new() -> (r: Factory)
        ensures
            entries(r) == Map::<Seq<char>, Seq<PoolView>>::empty(),
            r.locks@ == Map::<Seq<char>, bool>::empty(),
            r.pool_data.key_seq() == Seq::<Seq<char>>::empty(),
            r.locks.key_seq() == Seq::<Seq<char>>::empty(),
    {
        let r = Factory { pool_data: SortedMap::new(), locks: SortedMap::new() };
        assert(entries(r) =~= Map::<Seq<char>, Seq<PoolView>>::empty());
        r
    }

    /// Appends the pool to those recorded under its name.
    fn record(&mut self, params: Pool_Data)
        ensures
            entries(*final(self)) == entries_after_store(*old(self), params@),
            final(self).locks == old(self).locks,
    {
        let key = params.pool_name();
        let ghost before = entries(*self);
        let ghost p = params@;
        let mut pools = match self.pool_data.remove(&key) {
            Some(v) => v,
            None => Vec::new(),
        };
        assert(pools_view(pools@) == entries_of(*old(self), key@));
        pools.push(params);
        assert(pools_view(pools@) =~= entries_of(*old(self), key@).push(p));
        self.pool_data.insert(key, pools);
        assert(entries(*self) =~= entries_after_store(*old(self), p));
    }

    /// Records the pool under its name (the names of its tokens joined
    /// together), after the pools already there.
    pub fn store_pool_data_curr(&mut self, params: Pool_Data) -> (r: Result<(), String>)
        ensures
            r is Ok,
            entries(*final(self)) == entries_after_store(*old(self), params@),
            final(self).locks == old(self).locks,
    {
        self.record(params);
        Ok(())
    }

    /// Whether adding the pool's liquidity would subtract its swap fee from
    /// a smaller one (see `add_liquidity_curr`).
    pub fn has_fee_conflict(&self, params: &Pool_Data) -> (r: bool)
        ensures
            r == fee_conflict(*self, params@),
    {
        let key = params.pool_name();
        match self.pool_data.get(&key) {
            None => {
                assert(entries_of(*self, key@).len() == 0);
                false
            },
            Some(pools) => {
                let ghost es = entries_of(*self, key@);
                assert(pools_view(pools@) == es);
                let n = pools.len();
                for i in 0..n
                    invariant
                        n == pools@.len(),
                        pools_view(pools@) == es,
                        es == entries_of(*self, joined_names(params@.tokens)),
                        forall|j: int| 0 <= j < i ==> (#[trigger] es[j]).swap_fee >= params.swap_fee,
                {
                    assert(es[i as int] == pools@[i as int]@);
                    if pools[i].swap_fee < params.swap_fee {
                        return true;
                    }
                }
                false
            },
        }
    }

    /// Adds the pool's liquidity: every pool already recorded under its
    /// name has its swap fee compared with the new one by subtraction, and
    /// as that difference is never negative the pool is appended to them
    /// (or recorded as the first one). A recorded fee smaller than the new
    /// one makes the subtraction fail, so it is excluded.
    pub fn add_liquidity_curr(&mut self, params: Pool_Data) -> (r: Result<(), String>)
        requires
            !fee_conflict(*old(self), params@),
        ensures
            r is Ok,
            entries(*final(self)) == entries_after_store(*old(self), params@),
            final(self).locks == old(self).locks,
    {
        self.record(params);
        Ok(())
    }

    /// The pools recorded under `key`, or "Pool not found".
    pub fn get_specific_pool_data(&self, key: &String) -> (r: Result<Vec<Pool_Data>, String>)
        ensures
            entries(*self).contains_key(key@) ==> (r matches Ok(v) && pools_view(v@) == entries(*self)[key@]),
            !entries(*self).contains_key(key@) ==> (r matches Err(m) && m@ == "Pool not found"@),
    {
        match self.pool_data.get(key) {
            Some(pools) => Ok(copy_pools(pools)),
            None => Err(text("Pool not found")),
        }
    }

    /// Every pool name with its pools, in the order of the names.
    pub fn get_pool_data(&self) -> (r: Vec<(String, Vec<Pool_Data>)>)
        ensures
            r@.len() == self.pool_data.key_seq().len(),
            forall|i: int|
                0 <= i < r@.len() ==> (#[trigger] r@[i]).0@ == self.pool_data.key_seq()[i] && entries(
                    *self,
                ).contains_key(r@[i].0@) && pools_view(r@[i].1@) == entries(*self)[r@[i].0@],
    {
        let n = self.pool_data.len();
        let mut out: Vec<(String, Vec<Pool_Data>)> = Vec::new();
        for i in 0..n
            invariant
                n == self.pool_data.key_seq().len(),
                out@.len() == i,
                forall|j: int|
                    0 <= j < i ==> (#[trigger] out@[j]).0@ == self.pool_data.key_seq()[j] && entries(
                        *self,
                    ).contains_key(out@[j].0@) && pools_view(out@[j].1@) == entries(*self)[out@[j].0@],
        {
            let k = self.pool_data.key_at(i).clone_key();
            let pools = copy_pools(self.pool_data.value_at(i));
            out.push((k, pools));
        }
        out
    }

    /// The names of the pools whose name holds both token names, in the
    /// order of the names, or "No matching pools found." where there is
    /// none.
    pub fn search_swap_pool(&self, params: &SwapParams) -> (r: Result<Vec<String>, String>)
        ensures
            matching_keys(self.pool_data.key_seq(), params.token1_name@, params.token2_name@).len() > 0 ==> (r matches Ok(
                v,
            ) && v@.map_values(|s: String| s@) == matching_keys(
                self.pool_data.key_seq(),
                params.token1_name@,
                params.token2_name@,
            )),
            matching_keys(self.pool_data.key_seq(), params.token1_name@, params.token2_name@).len() == 0 ==> (r matches Err(
                m,
            ) && m@ == "No matching pools found."@),
    {
        let n = self.pool_data.len();
        let ghost ks = self.pool_data.key_seq();
        let ghost a = params.token1_name@;
        let ghost b = params.token2_name@;
        let mut found: Vec<String> = Vec::new();
        for i in 0..n
            invariant
                n == ks.len(),
                ks == self.pool_data.key_seq(),
                a == params.token1_name@,
                b == params.token2_name@,
                found@.map_values(|s: String| s@) == matching_keys(ks.take(i as int), a, b),
        {
            let key = self.pool_data.key_at(i);
            proof {
                assert(ks.take(i + 1).drop_last() =~= ks.take(i as int));
                assert(ks.take(i + 1).last() == ks[i as int]);
            }
            if contains_text(key.as_str(), params.token1_name.as_str()) && contains_text(
                key.as_str(),
                params.token2_name.as_str(),
            ) {
                let k = key.clone_key();
                found.push(k);
                assert(found@.map_values(|s: String| s@) =~= matching_keys(ks.take(i as int), a, b).push(
                    ks[i as int],
                ));
            }
        }
        assert(ks.take(n as int) =~= ks);
        if found.len() > 0 {
            Ok(found)
        } else {
            Err(text("No matching pools found."))
        }
    }

    /// Takes the lock of `key`: where it is held the operation is refused
    /// with `AnotherOperationInProgress(key)` and nothing changes, else the
    /// lock is held from now on.
    pub fn try_lock(&mut self, key: String) -> (r: Result<(), CustomError>)
        ensures
            lock_held(*old(self), key@) ==> (r matches Err(e) && e@ == CustomErrorView::AnotherOperationInProgress(key@)
                && *final(self) == *old(self)),
            !lock_held(*old(self), key@) ==> (r is Ok && final(self).locks@ == old(self).locks@.insert(key@, true)
                && final(self).pool_data == old(self).pool_data),
    {
        let held = match self.locks.get(&key) {
            Some(b) => *b,
            None => false,
        };
        if held {
            return Err(CustomError::AnotherOperationInProgress(key));
        }
        self.locks.insert(key, true);
        Ok(())
    }

    /// Releases the lock of `key`.
    pub fn release_lock(&mut self, key: &String)
        ensures
            final(self).locks@ == old(self).locks@.remove(key@),
            final(self).pool_data == old(self).pool_data,
    {
        let _ = self.locks.remove(key);
    }

    /// The first step of creating a pool: a pool that `validate` refuses
    /// is refused with its error (`PoolDataEmpty` for a pool without
    /// tokens); else the lock of the pool's name is taken (see `try_lock`)
    /// and the name is returned.
    pub fn begin_create_pools(&mut self, params: &Pool_Data) -> (r: Result<String, CustomError>)
        ensures
            pool_defect(params@) matches Some(d) ==> (r matches Err(e) && e@ == d && *final(self) == *old(self)),
            pool_defect(params@) is None && lock_held(*old(self), joined_names(params@.tokens)) ==> (r matches Err(e)
                && e@ == CustomErrorView::AnotherOperationInProgress(joined_names(params@.tokens)) && *final(self)
                == *old(self)),
            pool_defect(params@) is None && !lock_held(*old(self), joined_names(params@.tokens)) ==> (r matches Ok(
                name,
            ) && name@ == joined_names(params@.tokens) && final(self).locks@ == old(self).locks@.insert(
                name@,
                true,
            ) && final(self).pool_data == old(self).pool_data),
    {
        match params.validate() {
            Err(e) => {
                return Err(e);
            },
            Ok(()) => {},
        }
        let name = params.pool_name();
        match self.try_lock(name.clone_key()) {
            Err(e) => Err(e),
            Ok(()) => Ok(name),
        }
    }
}

/// Once the lock of a name is taken, a second operation on that name is
/// refused until the lock is released; releasing a lock that was free
/// before it was taken leaves the locks as they were.
pub proof fn lemma_lock_exclusive(locks: Map<Seq<char>, bool>, key: Seq<char>)
    ensures
        held(locks.insert(key, true), key),
        !held(locks.insert(key, true).remove(key), key),
        !locks.contains_key(key) ==> locks.insert(key, true).remove(key) == locks,
        forall|other: Seq<char>| other != key ==> held(locks.insert(key, true), other) == held(locks, other),
{
    if !locks.contains_key(key) {
        assert(locks.insert(key, true).remove(key) =~= locks);
    }
}

/// A pool recorded under its name is read back after the pools that were
/// there, and every other name keeps its pools.
pub proof fn lemma_store_then_read(f: Factory, p: PoolView, other: Seq<char>)
    ensures
        entries_after_store(f, p).contains_key(joined_names(p.tokens)),
        entries_after_store(f, p)[joined_names(p.tokens)] == entries_of(f, joined_names(p.tokens)).push(p),
        other != joined_names(p.tokens) ==> entries_after_store(f, p).contains_key(other) == entries(
            f,
        ).contains_key(other),
        other != joined_names(p.tokens) && entries(f).contains_key(other) ==> entries_after_store(f, p)[other]
            == entries(f)[other],
{
}

/// The pool search gives exactly the names that hold both token names, in
/// their order: each name it gives is one of the names and holds both, and
/// each name that holds both is among them.
pub proof fn lemma_matching_keys_exact(ks: Seq<Seq<char>>, a: Seq<char>, b: Seq<char>)
    ensures
        forall|i: int|
            0 <= i < matching_keys(ks, a, b).len() ==> ks.contains(#[trigger] matching_keys(ks, a, b)[i])
                && has_substring(matching_keys(ks, a, b)[i], a) && has_substring(matching_keys(ks, a, b)[i], b),
        forall|j: int|
            0 <= j < ks.len() && has_substring(#[trigger] ks[j], a) && has_substring(ks[j], b) ==> matching_keys(
                ks,
                a,
                b,
            ).contains(ks[j]),
    decreases ks.len(),
{
    if ks.len() > 0 {
        let rest = ks.drop_last();
        lemma_matching_keys_exact(rest, a, b);
        let m = matching_keys(ks, a, b);
        let mr = matching_keys(rest, a, b);
        assert forall|i: int| 0 <= i < m.len() implies ks.contains(#[trigger] m[i]) && has_substring(m[i], a)
            && has_substring(m[i], b) by {
            if i < mr.len() {
                assert(m[i] == mr[i]);
                let w = rest.index_of(mr[i]);
                assert(ks[w] == rest[w]);
            } else {
                assert(m[i] == ks.last());
                assert(ks[ks.len() - 1] == ks.last());
            }
        }
        assert forall|j: int| 0 <= j < ks.len() && has_substring(#[trigger] ks[j], a) && has_substring(ks[j], b)
            implies m.contains(ks[j]) by {
            if j < ks.len() - 1 {
                assert(rest[j] == ks[j]);
                assert(mr.contains(ks[j]));
                let w = mr.index_of(ks[j]);
                assert(m[w] == mr[w]);
            } else {
                assert(m[m.len() - 1] == ks[j]);
            }
        }
    }
}

} // verus!
