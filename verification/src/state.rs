use vstd::prelude::*;

use ic_stable_structures::memory_manager::{MemoryId, MemoryManager, VirtualMemory};
use ic_stable_structures::DefaultMemoryImpl;

use crate::principal::PrincipalId;

verus! {

/// The stable map (an `ic_stable_structures::BTreeMap` in the canister's
/// stable memory) from the name of a pool to the principal of the canister
/// that holds the pool.
#[verifier::external_body]
pub struct TokenPools {
    map: ic_stable_structures::BTreeMap<String, Vec<u8>, VirtualMemory<DefaultMemoryImpl>>,
}

/// What the stable map holds: pool names and the bytes of their canisters.
pub uninterp spec fn token_pools_contents(pools: TokenPools) -> Map<Seq<char>, Seq<u8>>;

/// Calls `MemoryManager::init` on the default memory, takes its memory 0,
/// and calls `ic_stable_structures::BTreeMap::init` on it, which loads a
/// map already stored there or starts an empty one. Nothing is stated of
/// the contents: they are whatever the memory holds.
#[verifier::external_body]
fn stable_pools_init() -> (r: TokenPools) {
    let manager = MemoryManager::init(DefaultMemoryImpl::default());
    TokenPools { map: ic_stable_structures::BTreeMap::init(manager.get(MemoryId::new(0))) }
}

/// Calls `ic_stable_structures::BTreeMap::get`: the value stored under the
/// key, if any.
#[verifier::external_body]
fn stable_pools_get(pools: &TokenPools, name: &String) -> (r: Option<Vec<u8>>)
    ensures
        r matches Some(v) ==> token_pools_contents(*pools).contains_key(name@) && v@
            == token_pools_contents(*pools)[name@],
        r is None ==> !token_pools_contents(*pools).contains_key(name@),
{
    pools.map.get(name)
}

/// Calls `ic_stable_structures::BTreeMap::insert`: stores the value under
/// the key, replacing any value it had.
#[verifier::external_body]
fn stable_pools_insert(pools: &mut TokenPools, name: String, principal: Vec<u8>)
    ensures
        token_pools_contents(*final(pools)) == token_pools_contents(*old(pools)).insert(name@, principal@),
{
    pools.map.insert(name, principal);
}

/// The state kept in stable memory: which canister holds each pool. A
/// canister holds one `State` for its whole life: the contracts here take
/// the contents of each `State` value as its own, which holds only while no
/// second value is opened over the same stable memory.
pub struct State {
    pub token_pools: TokenPools,
}

/// The pools of the state, by name, as the bytes of their canisters.
pub open spec fn pool_canisters(s: &State) -> Map<Seq<char>, Seq<u8>> {
    token_pools_contents(s.token_pools)
}

/// The canister recorded for the pool, where its bytes can be those of a
/// principal.
pub open spec fn canister_of(m: Map<Seq<char>, Seq<u8>>, name: Seq<char>) -> Option<Seq<u8>> {
    if m.contains_key(name) && m[name].len() <= 29 {
        Some(m[name])
    } else {
        None
    }
}

impl State {
    /// Opens the state stored in the canister's stable memory. A canister
    /// opens it once and keeps that one value for its whole life: two values
    /// opened over the same memory would share their contents, while the
    /// contracts here take each value's contents as its own.
    pub fn new() -> (r: State) {
        State { token_pools: stable_pools_init() }
    }

    /// The canister that holds the pool, if the pool is known.
    pub fn pool_canister(&self, pool_name: &String) -> (r: Option<PrincipalId>)
        ensures
            canister_of(pool_canisters(self), pool_name@) matches Some(b) ==> (r matches Some(p) && p@ == b),
            canister_of(pool_canisters(self), pool_name@) is None ==> r is None,
    {
        match stable_pools_get(&self.token_pools, pool_name) {
            Some(bytes) => PrincipalId::from_slice(bytes.as_slice()),
            None => None,
        }
    }

    /// Records the canister that holds the pool.
    pub fn set_pool_canister(&mut self, pool_name: String, canister: &PrincipalId)
        ensures
            pool_canisters(final(self)) == pool_canisters(old(self)).insert(pool_name@, canister@),
    {
        let bytes = vstd::slice::slice_to_vec(canister.as_bytes());
        stable_pools_insert(&mut self.token_pools, pool_name, bytes);
    }
}

} // verus!
