use vstd::prelude::*;

use crate::factory::{entries_of, lock_held, matching_keys, Factory};
use crate::maths::{lemma_out_given_in_bounded, out_given_in, out_given_in_fits, out_given_in_value};
use crate::order::{compare_str, KeyOrder, MapKey};
use crate::principal::{anonymous_bytes, spec_principal_text, PrincipalId};
use crate::state::{canister_of, pool_canisters, State};
use crate::text::{push_text, text};
use crate::types::{joined_names, CustomError, CustomErrorView, Pool_Data, PoolView, SwapParams, TokenView};

verus! {

/// A pool that can take a swap: the name it is recorded under, the ledgers
/// of the token paid in and of the token paid out, the canister that holds
/// the pool, the weights of the two tokens and the amount paid in.
pub struct SwapCandidate {
    pub pool_key: String,
    pub ledger_in: PrincipalId,
    pub ledger_out: PrincipalId,
    pub canister: PrincipalId,
    pub weight_in: u128,
    pub weight_out: u128,
    pub amount_in: u128,
}

/// The mathematical content of a `SwapCandidate`.
pub struct CandidateView {
    pub pool_key: Seq<char>,
    pub ledger_in: Seq<u8>,
    pub ledger_out: Seq<u8>,
    pub canister: Seq<u8>,
    pub weight_in: u128,
    pub weight_out: u128,
    pub amount_in: u128,
}

impl View for SwapCandidate {
    type V = CandidateView;

    open spec fn view(&self) -> CandidateView {
        CandidateView {
            pool_key: self.pool_key@,
            ledger_in: self.ledger_in@,
            ledger_out: self.ledger_out@,
            canister: self.canister@,
            weight_in: self.weight_in,
            weight_out: self.weight_out,
            amount_in: self.amount_in,
        }
    }
}

/// The place of the first token named `name`, if any.
pub open spec fn first_named(ts: Seq<TokenView>, name: Seq<char>) -> Option<int>
    decreases ts.len(),
{
    if ts.len() == 0 {
        None
    } else {
        match first_named(ts.drop_last(), name) {
            Some(i) => Some(i),
            None => if ts.last().name == name {
                Some(ts.len() - 1)
            } else {
                None
            },
        }
    }
}

/// The candidate that the pool `p`, recorded under `key`, gives for a swap
/// of `amount` of the token named `a` for the token named `b`: where both
/// tokens are in the pool and the canister of the pool is known.
pub open spec fn pool_candidate(
    key: Seq<char>,
    p: PoolView,
    canisters: Map<Seq<char>, Seq<u8>>,
    a: Seq<char>,
    b: Seq<char>,
    amount: u128,
) -> Option<CandidateView> {
    match (first_named(p.tokens, a), first_named(p.tokens, b)) {
        (Some(i), Some(j)) => match canister_of(canisters, joined_names(p.tokens)) {
            Some(c) => Some(
                CandidateView {
                    pool_key: key,
                    ledger_in: p.tokens[i].ledger,
                    ledger_out: p.tokens[j].ledger,
                    canister: c,
                    weight_in: p.tokens[i].weight,
                    weight_out: p.tokens[j].weight,
                    amount_in: amount,
                },
            ),
            None => None,
        },
        _ => None,
    }
}

/// The candidates of the pools `ps` recorded under `key`, in their order.
pub open spec fn key_candidates(
    key: Seq<char>,
    ps: Seq<PoolView>,
    canisters: Map<Seq<char>, Seq<u8>>,
    a: Seq<char>,
    b: Seq<char>,
    amount: u128,
) -> Seq<CandidateView>
    decreases ps.len(),
{
    if ps.len() == 0 {
        Seq::empty()
    } else {
        let rest = key_candidates(key, ps.drop_last(), canisters, a, b, amount);
        match pool_candidate(key, ps.last(), canisters, a, b, amount) {
            Some(c) => rest.push(c),
            None => rest,
        }
    }
}

/// The candidates of all pools recorded under the names `keys`, name by
/// name.
pub open spec fn all_candidates(
    f: Factory,
    keys: Seq<Seq<char>>,
    canisters: Map<Seq<char>, Seq<u8>>,
    a: Seq<char>,
    b: Seq<char>,
    amount: u128,
) -> Seq<CandidateView>
    decreases keys.len(),
{
    if keys.len() == 0 {
        Seq::empty()
    } else {
        all_candidates(f, keys.drop_last(), canisters, a, b, amount) + key_candidates(
            keys.last(),
            entries_of(f, keys.last()),
            canisters,
            a,
            b,
            amount,
        )
    }
}

/// Whether `c` quotes a swap of `amount` of the token named `a` for the
/// token named `b` in the pool `p`, recorded under `key`: the token paid in
/// is one of the pool's tokens named `a` and the token paid out one named
/// `b`, their ledgers and weights are those of the candidate, and the
/// canister is the one recorded for the pool.
pub open spec fn quotes_pool(
    c: CandidateView,
    key: Seq<char>,
    p: PoolView,
    canisters: Map<Seq<char>, Seq<u8>>,
    a: Seq<char>,
    b: Seq<char>,
    amount: u128,
) -> bool {
    exists|i: int, j: int|
        0 <= i < p.tokens.len() && 0 <= j < p.tokens.len() && #[trigger] p.tokens[i].name == a && #[trigger]
            p.tokens[j].name == b && c.ledger_in == p.tokens[i].ledger && c.weight_in == p.tokens[i].weight
            && c.ledger_out == p.tokens[j].ledger && c.weight_out == p.tokens[j].weight && c.pool_key == key
            && c.amount_in == amount && canisters.contains_key(joined_names(p.tokens)) && c.canister
            == canisters[joined_names(p.tokens)]
}

/// The first token found under a name has that name.
proof fn lemma_first_named_is_named(ts: Seq<TokenView>, name: Seq<char>)
    ensures
        first_named(ts, name) matches Some(i) ==> 0 <= i < ts.len() && ts[i].name == name,
    decreases ts.len(),
{
    if ts.len() > 0 {
        lemma_first_named_is_named(ts.drop_last(), name);
    }
}

/// Every candidate of the pools `ps` quotes one of them.
proof fn lemma_key_candidates_quote(
    key: Seq<char>,
    ps: Seq<PoolView>,
    canisters: Map<Seq<char>, Seq<u8>>,
    a: Seq<char>,
    b: Seq<char>,
    amount: u128,
)
    ensures
        forall|n: int|
            0 <= n < key_candidates(key, ps, canisters, a, b, amount).len() ==> exists|q: int|
                0 <= q < ps.len() && quotes_pool(
                    #[trigger] key_candidates(key, ps, canisters, a, b, amount)[n],
                    key,
                    ps[q],
                    canisters,
                    a,
                    b,
                    amount,
                ),
    decreases ps.len(),
{
    if ps.len() > 0 {
        let init = ps.drop_last();
        let rest = key_candidates(key, init, canisters, a, b, amount);
        lemma_key_candidates_quote(key, init, canisters, a, b, amount);
        let p = ps.last();
        let all = key_candidates(key, ps, canisters, a, b, amount);
        lemma_first_named_is_named(p.tokens, a);
        lemma_first_named_is_named(p.tokens, b);
        assert forall|n: int| 0 <= n < all.len() implies exists|q: int|
            0 <= q < ps.len() && quotes_pool(#[trigger] all[n], key, ps[q], canisters, a, b, amount) by {
            if n < rest.len() {
                assert(all[n] == rest[n]);
                let q = choose|q: int| 0 <= q < init.len() && quotes_pool(rest[n], key, init[q], canisters, a, b, amount);
                assert(init[q] == ps[q]);
            } else {
                let c = pool_candidate(key, p, canisters, a, b, amount)->0;
                assert(all[n] == c);
                let i = first_named(p.tokens, a)->0;
                let j = first_named(p.tokens, b)->0;
                assert(p.tokens[i].name == a && p.tokens[j].name == b);
                assert(quotes_pool(c, key, p, canisters, a, b, amount));
                assert(ps[ps.len() - 1] == p);
            }
        }
    }
}

/// A token that is in the pool is found under its name.
proof fn lemma_first_named_finds(ts: Seq<TokenView>, name: Seq<char>, k: int)
    requires
        0 <= k < ts.len(),
        ts[k].name == name,
    ensures
        first_named(ts, name) is Some,
    decreases ts.len(),
{
    if k < ts.len() - 1 {
        lemma_first_named_finds(ts.drop_last(), name, k);
    }
}

/// Whether the pool can take a swap of the token named `a` for the token
/// named `b`: it holds both and its canister is known.
pub open spec fn pool_takes_swap(p: PoolView, canisters: Map<Seq<char>, Seq<u8>>, a: Seq<char>, b: Seq<char>) -> bool {
    &&& exists|i: int| 0 <= i < p.tokens.len() && #[trigger] p.tokens[i].name == a
    &&& exists|j: int| 0 <= j < p.tokens.len() && #[trigger] p.tokens[j].name == b
    &&& canister_of(canisters, joined_names(p.tokens)) is Some
}

/// Each pool of `ps` that can take the swap has a candidate quoting it.
proof fn lemma_key_candidates_complete(
    key: Seq<char>,
    ps: Seq<PoolView>,
    canisters: Map<Seq<char>, Seq<u8>>,
    a: Seq<char>,
    b: Seq<char>,
    amount: u128,
)
    ensures
        forall|q: int|
            0 <= q < ps.len() && pool_takes_swap(#[trigger] ps[q], canisters, a, b) ==> exists|n: int|
                0 <= n < key_candidates(key, ps, canisters, a, b, amount).len() && quotes_pool(
                    key_candidates(key, ps, canisters, a, b, amount)[n],
                    key,
                    ps[q],
                    canisters,
                    a,
                    b,
                    amount,
                ),
    decreases ps.len(),
{
    if ps.len() > 0 {
        let init = ps.drop_last();
        let rest = key_candidates(key, init, canisters, a, b, amount);
        let all = key_candidates(key, ps, canisters, a, b, amount);
        lemma_key_candidates_complete(key, init, canisters, a, b, amount);
        let p = ps.last();
        lemma_first_named_is_named(p.tokens, a);
        lemma_first_named_is_named(p.tokens, b);
        assert forall|q: int| 0 <= q < ps.len() && pool_takes_swap(#[trigger] ps[q], canisters, a, b) implies exists|
            n: int,
        | 0 <= n < all.len() && quotes_pool(all[n], key, ps[q], canisters, a, b, amount) by {
            if q < init.len() {
                assert(init[q] == ps[q]);
                let n = choose|n: int|
                    0 <= n < rest.len() && quotes_pool(rest[n], key, init[q], canisters, a, b, amount);
                assert(all[n] == rest[n]);
            } else {
                assert(ps[q] == p);
                let i = choose|i: int| 0 <= i < p.tokens.len() && #[trigger] p.tokens[i].name == a;
                let j = choose|j: int| 0 <= j < p.tokens.len() && #[trigger] p.tokens[j].name == b;
                lemma_first_named_finds(p.tokens, a, i);
                lemma_first_named_finds(p.tokens, b, j);
                let c = pool_candidate(key, p, canisters, a, b, amount)->0;
                let i0 = first_named(p.tokens, a)->0;
                let j0 = first_named(p.tokens, b)->0;
                assert(p.tokens[i0].name == a && p.tokens[j0].name == b);
                assert(quotes_pool(c, key, p, canisters, a, b, amount));
                assert(all[rest.len() as int] == c);
            }
        }
    }
}

/// Every pool recorded under one of the keys that can take the swap (it
/// holds a token named `a` and one named `b`, and its canister is known)
/// has a candidate among those `swap_candidates` builds that quotes it.
pub proof fn lemma_candidates_cover_pools(
    f: Factory,
    keys: Seq<Seq<char>>,
    canisters: Map<Seq<char>, Seq<u8>>,
    a: Seq<char>,
    b: Seq<char>,
    amount: u128,
)
    ensures
        forall|k: int, q: int|
            0 <= k < keys.len() && 0 <= q < entries_of(f, keys[k]).len() && pool_takes_swap(
                #[trigger] entries_of(f, keys[k])[q],
                canisters,
                a,
                b,
            ) ==> exists|n: int|
                0 <= n < all_candidates(f, keys, canisters, a, b, amount).len() && quotes_pool(
                    all_candidates(f, keys, canisters, a, b, amount)[n],
                    keys[k],
                    entries_of(f, keys[k])[q],
                    canisters,
                    a,
                    b,
                    amount,
                ),
    decreases keys.len(),
{
    if keys.len() > 0 {
        let init = keys.drop_last();
        let last = keys.last();
        let rest = all_candidates(f, init, canisters, a, b, amount);
        let tail = key_candidates(last, entries_of(f, last), canisters, a, b, amount);
        let all = all_candidates(f, keys, canisters, a, b, amount);
        lemma_candidates_cover_pools(f, init, canisters, a, b, amount);
        lemma_key_candidates_complete(last, entries_of(f, last), canisters, a, b, amount);
        assert(all == rest + tail);
        assert forall|k: int, q: int|
            0 <= k < keys.len() && 0 <= q < entries_of(f, keys[k]).len() && pool_takes_swap(
                #[trigger] entries_of(f, keys[k])[q],
                canisters,
                a,
                b,
            ) implies exists|n: int|
            0 <= n < all.len() && quotes_pool(all[n], keys[k], entries_of(f, keys[k])[q], canisters, a, b, amount) by {
            if k < init.len() {
                assert(init[k] == keys[k]);
                let n = choose|n: int|
                    0 <= n < rest.len() && quotes_pool(
                        rest[n],
                        init[k],
                        entries_of(f, init[k])[q],
                        canisters,
                        a,
                        b,
                        amount,
                    );
                assert(all[n] == rest[n]);
            } else {
                assert(keys[k] == last);
                let m = choose|m: int|
                    0 <= m < tail.len() && quotes_pool(tail[m], last, entries_of(f, last)[q], canisters, a, b, amount);
                assert(all[rest.len() + m] == tail[m]);
            }
        }
    }
}

/// Every swap candidate quotes one of the pools it names, with the token
/// paid in and the token paid out taken from that pool by their names: the
/// candidates that `swap_candidates` builds for the keys `keys` each come
/// from a pool `p` recorded under one of the keys, with `weight_in` and
/// `ledger_in` those of a token of `p` named `a`, `weight_out` and
/// `ledger_out` those of a token of `p` named `b`, the amount paid in, and
/// the canister recorded for `p`.
pub proof fn lemma_candidates_quote_named_tokens(
    f: Factory,
    keys: Seq<Seq<char>>,
    canisters: Map<Seq<char>, Seq<u8>>,
    a: Seq<char>,
    b: Seq<char>,
    amount: u128,
)
    ensures
        forall|n: int|
            0 <= n < all_candidates(f, keys, canisters, a, b, amount).len() ==> exists|k: int, q: int|
                0 <= k < keys.len() && 0 <= q < entries_of(f, keys[k]).len() && quotes_pool(
                    #[trigger] all_candidates(f, keys, canisters, a, b, amount)[n],
                    keys[k],
                    entries_of(f, keys[k])[q],
                    canisters,
                    a,
                    b,
                    amount,
                ),
    decreases keys.len(),
{
    if keys.len() > 0 {
        let init = keys.drop_last();
        let last = keys.last();
        let rest = all_candidates(f, init, canisters, a, b, amount);
        let tail = key_candidates(last, entries_of(f, last), canisters, a, b, amount);
        let all = all_candidates(f, keys, canisters, a, b, amount);
        lemma_candidates_quote_named_tokens(f, init, canisters, a, b, amount);
        lemma_key_candidates_quote(last, entries_of(f, last), canisters, a, b, amount);
        assert(all == rest + tail);
        assert forall|n: int| 0 <= n < all.len() implies exists|k: int, q: int|
            0 <= k < keys.len() && 0 <= q < entries_of(f, keys[k]).len() && quotes_pool(
                #[trigger] all[n],
                keys[k],
                entries_of(f, keys[k])[q],
                canisters,
                a,
                b,
                amount,
            ) by {
            if n < rest.len() {
                assert(all[n] == rest[n]);
                let (k, q) = choose|k: int, q: int|
                    0 <= k < init.len() && 0 <= q < entries_of(f, init[k]).len() && quotes_pool(
                        rest[n],
                        init[k],
                        entries_of(f, init[k])[q],
                        canisters,
                        a,
                        b,
                        amount,
                    );
                assert(init[k] == keys[k]);
            } else {
                let m = n - rest.len();
                assert(all[n] == tail[m]);
                let q = choose|q: int|
                    0 <= q < entries_of(f, last).len() && quotes_pool(
                        tail[m],
                        last,
                        entries_of(f, last)[q],
                        canisters,
                        a,
                        b,
                        amount,
                    );
                assert(keys[keys.len() - 1] == last);
            }
        }
    }
}

/// The views of a sequence of candidates.
pub open spec fn candidates_view(v: Seq<SwapCandidate>) -> Seq<CandidateView> {
    v.map_values(|c: SwapCandidate| c@)
}

/// The first token named `name` in the pool, if any.
fn find_token(p: &Pool_Data, name: &String) -> (r: Option<usize>)
    ensures
        r matches Some(i) ==> first_named(p@.tokens, name@) == Some(i as int) && i < p@.tokens.len(),
        r is None ==> first_named(p@.tokens, name@) is None,
{
    let n = p.pool_data.len();
    let ghost ts = p@.tokens;
    for i in 0..n
        invariant
            n == ts.len(),
            ts == p@.tokens,
            first_named(ts.take(i as int), name@) is None,
    {
        proof {
            assert(ts.take(i + 1).drop_last() =~= ts.take(i as int));
        }
        assert(ts[i as int] == p.pool_data@[i as int]@);
        if compare_str(p.pool_data[i].token_name.as_str(), name.as_str()) == KeyOrder::Equal {
            proof {
                lemma_first_named_prefix(ts, name@, i + 1);
            }
            return Some(i);
        }
    }
    assert(ts.take(n as int) =~= ts);
    None
}

/// A first match in a prefix stays the first match in the whole sequence.
pub proof fn lemma_first_named_prefix(ts: Seq<TokenView>, name: Seq<char>, k: int)
    requires
        0 <= k <= ts.len(),
        first_named(ts.take(k), name) is Some,
    ensures
        first_named(ts, name) == first_named(ts.take(k), name),
    decreases ts.len() - k,
{
    if k < ts.len() {
        assert(ts.take(k + 1).drop_last() =~= ts.take(k));
        lemma_first_named_prefix(ts, name, k + 1);
    } else {
        assert(ts.take(k) =~= ts);
    }
}

impl Factory {
    /// The pools that can take the swap: for each pool name that holds both
    /// token names (see `search_swap_pool`), each pool recorded under it
    /// that has both tokens and whose canister is known, in that order; or
    /// "No matching pools found." where no name matches.
    pub fn swap_candidates(&self, state: &State, params: &SwapParams) -> (r: Result<Vec<SwapCandidate>, String>)
        ensures
            ({
                let ks = matching_keys(self.pool_data.key_seq(), params.token1_name@, params.token2_name@);
                &&& ks.len() == 0 ==> (r matches Err(m) && m@ == "No matching pools found."@)
                &&& ks.len() > 0 ==> (r matches Ok(v) && candidates_view(v@) == all_candidates(
                    *self,
                    ks,
                    pool_canisters(state),
                    params.token1_name@,
                    params.token2_name@,
                    params.token_amount,
                ))
            }),
    {
        let keys = match self.search_swap_pool(params) {
            Ok(k) => k,
            Err(m) => {
                return Err(m);
            },
        };
        let ghost ks = keys@.map_values(|s: String| s@);
        let ghost cs = pool_canisters(state);
        let ghost a = params.token1_name@;
        let ghost b = params.token2_name@;
        let amount = params.token_amount;
        let mut out: Vec<SwapCandidate> = Vec::new();
        let nk = keys.len();
        for i in 0..nk
            invariant
                nk == keys@.len(),
                ks == keys@.map_values(|s: String| s@),
                cs == pool_canisters(state),
                a == params.token1_name@,
                b == params.token2_name@,
                amount == params.token_amount,
                candidates_view(out@) == all_candidates(*self, ks.take(i as int), cs, a, b, amount),
        {
            let key = &keys[i];
            proof {
                assert(ks.take(i + 1).drop_last() =~= ks.take(i as int));
                assert(ks.take(i + 1).last() == key@);
            }
            match self.pool_data.get(key) {
                None => {
                    assert(entries_of(*self, key@) =~= Seq::<PoolView>::empty());
                    assert(key_candidates(key@, entries_of(*self, key@), cs, a, b, amount) =~= Seq::<
                        CandidateView,
                    >::empty());
                    assert(candidates_view(out@) =~= all_candidates(*self, ks.take(i + 1), cs, a, b, amount));
                },
                Some(pools) => {
                    let ghost ps = entries_of(*self, key@);
                    let ghost before = candidates_view(out@);
                    assert(ps == pools@.map_values(|p: Pool_Data| p@));
                    let np = pools.len();
                    for j in 0..np
                        invariant
                            np == pools@.len(),
                            ps == pools@.map_values(|p: Pool_Data| p@),
                            cs == pool_canisters(state),
                            a == params.token1_name@,
                            b == params.token2_name@,
                            amount == params.token_amount,
                            candidates_view(out@) == before + key_candidates(
                                key@,
                                ps.take(j as int),
                                cs,
                                a,
                                b,
                                amount,
                            ),
                    {
                        let p = &pools[j];
                        proof {
                            assert(ps.take(j + 1).drop_last() =~= ps.take(j as int));
                            assert(ps.take(j + 1).last() == p@);
                        }
                        let found = match (find_token(p, &params.token1_name), find_token(p, &params.token2_name)) {
                            (Some(ti), Some(tj)) => {
                                let name = p.pool_name();
                                match state.pool_canister(&name) {
                                    Some(c) => {
                                        let t_in = &p.pool_data[ti];
                                        let t_out = &p.pool_data[tj];
                                        assert(t_in@ == p@.tokens[ti as int]);
                                        assert(t_out@ == p@.tokens[tj as int]);
                                        Some(
                                            SwapCandidate {
                                                pool_key: key.clone_key(),
                                                ledger_in: t_in.ledger_canister_id.clone_key(),
                                                ledger_out: t_out.ledger_canister_id.clone_key(),
                                                canister: c,
                                                weight_in: t_in.weight,
                                                weight_out: t_out.weight,
                                                amount_in: amount,
                                            },
                                        )
                                    },
                                    None => None,
                                }
                            },
                            _ => None,
                        };
                        match found {
                            Some(c) => {
                                assert(pool_candidate(key@, p@, cs, a, b, amount) == Some(c@));
                                assert(key_candidates(key@, ps.take(j + 1), cs, a, b, amount) == key_candidates(
                                    key@,
                                    ps.take(j as int),
                                    cs,
                                    a,
                                    b,
                                    amount,
                                ).push(c@));
                                let ghost cv = c@;
                                let ghost prev = out@;
                                out.push(c);
                                assert(candidates_view(out@) =~= candidates_view(prev).push(cv));
                                assert(candidates_view(out@) =~= before + key_candidates(
                                    key@,
                                    ps.take(j + 1),
                                    cs,
                                    a,
                                    b,
                                    amount,
                                ));
                            },
                            None => {
                                assert(pool_candidate(key@, p@, cs, a, b, amount) is None);
                                assert(key_candidates(key@, ps.take(j + 1), cs, a, b, amount) == key_candidates(
                                    key@,
                                    ps.take(j as int),
                                    cs,
                                    a,
                                    b,
                                    amount,
                                ));
                            },
                        }
                    }
                    assert(ps.take(np as int) =~= ps);
                    assert(candidates_view(out@) =~= all_candidates(*self, ks.take(i + 1), cs, a, b, amount));
                },
            }
        }
        assert(ks.take(nk as int) =~= ks);
        Ok(out)
    }
}

/// What a candidate pays out for the balances `(in, out)` of its canister.
pub open spec fn quote_value(c: CandidateView, bal: (u128, u128)) -> int {
    out_given_in_value(bal.0 as int, c.weight_in as int, bal.1 as int, c.weight_out as int, c.amount_in as int)
}

/// Whether the amounts of a candidate's quote fit in 128 bits.
pub open spec fn quote_fits(c: CandidateView, bal: (u128, u128)) -> bool {
    out_given_in_fits(bal.0 as int, c.weight_in as int, bal.1 as int, c.weight_out as int, c.amount_in as int)
}

/// Whether a quote can be computed: the balance in plus the amount in is
/// not zero, and the weight out is not zero (each is a divisor).
pub open spec fn quote_defined(c: CandidateView, bal: (u128, u128)) -> bool {
    bal.0 + c.amount_in > 0 && c.weight_out > 0
}

/// The best of the first `n` candidates: the last one whose quote is at
/// least every quote before it, with its quote; `(None, 0)` for none.
pub open spec fn best_upto(cs: Seq<CandidateView>, bals: Seq<(u128, u128)>, n: nat) -> (Option<Seq<char>>, int)
    decreases n,
{
    if n == 0 {
        (None, 0)
    } else {
        let prev = best_upto(cs, bals, (n - 1) as nat);
        let q = quote_value(cs[n - 1], bals[n - 1]);
        if q >= prev.1 {
            (Some(cs[n - 1].pool_key), q)
        } else {
            prev
        }
    }
}

/// The pool to swap through and what it pays out: the best candidate (see
/// `best_upto`), or "No suitable pool found." and 0 where there is none.
pub open spec fn best_pool(cs: Seq<CandidateView>, bals: Seq<(u128, u128)>) -> (Seq<char>, int) {
    let b = best_upto(cs, bals, cs.len());
    match b.0 {
        Some(k) => (k, b.1),
        None => ("No suitable pool found."@, 0),
    }
}

/// The best of the first `n` candidates pays out at least as much as each
/// of them, and where there is one it is one of them, with its quote.
pub proof fn lemma_best_upto(cs: Seq<CandidateView>, bals: Seq<(u128, u128)>, n: nat)
    requires
        n <= cs.len(),
        bals.len() == cs.len(),
        forall|i: int| 0 <= i < cs.len() ==> quote_defined(#[trigger] cs[i], bals[i]),
    ensures
        best_upto(cs, bals, n).1 >= 0,
        forall|i: int| 0 <= i < n ==> quote_value(#[trigger] cs[i], bals[i]) <= best_upto(cs, bals, n).1,
        n > 0 ==> exists|i: int|
            0 <= i < n && best_upto(cs, bals, n).0 == Some(cs[i].pool_key) && best_upto(cs, bals, n).1
                == quote_value(#[trigger] cs[i], bals[i]),
    decreases n,
{
    if n > 0 {
        lemma_best_upto(cs, bals, (n - 1) as nat);
        let k = n - 1;
        assert(quote_defined(cs[k], bals[k]));
        lemma_out_given_in_bounded(
            bals[k].0 as int,
            cs[k].weight_in as int,
            bals[k].1 as int,
            cs[k].weight_out as int,
            cs[k].amount_in as int,
        );
        let prev = best_upto(cs, bals, (n - 1) as nat);
        let q = quote_value(cs[k], bals[k]);
        if q < prev.1 {
            let i = choose|i: int|
                0 <= i < n - 1 && best_upto(cs, bals, (n - 1) as nat).0 == Some(cs[i].pool_key) && best_upto(
                    cs,
                    bals,
                    (n - 1) as nat,
                ).1 == quote_value(#[trigger] cs[i], bals[i]);
            assert(best_upto(cs, bals, n).1 == quote_value(cs[i], bals[i]));
        } else {
            assert(best_upto(cs, bals, n).1 == quote_value(cs[k], bals[k]));
        }
    }
}

/// The pool chosen for a swap pays out at least as much as every
/// candidate, and where there is a candidate it is one of them, with its
/// quote; with no candidate the answer is "No suitable pool found." and 0.
pub proof fn lemma_best_pool_is_best(cs: Seq<CandidateView>, bals: Seq<(u128, u128)>)
    requires
        bals.len() == cs.len(),
        forall|i: int| 0 <= i < cs.len() ==> quote_defined(#[trigger] cs[i], bals[i]),
    ensures
        forall|i: int| 0 <= i < cs.len() ==> quote_value(#[trigger] cs[i], bals[i]) <= best_pool(cs, bals).1,
        cs.len() > 0 ==> exists|i: int|
            0 <= i < cs.len() && best_pool(cs, bals).0 == cs[i].pool_key && best_pool(cs, bals).1 == quote_value(
                #[trigger] cs[i],
                bals[i],
            ),
        cs.len() == 0 ==> best_pool(cs, bals) == ("No suitable pool found."@, 0int),
{
    lemma_best_upto(cs, bals, cs.len());
}

/// Chooses the pool to swap through, given the balances of the token in
/// and of the token out held by each candidate's canister: the candidate
/// with the largest quote (`out_given_in`), the later one among equals,
/// with its quote; "No suitable pool found." and 0 where there is no
/// candidate. `None` where a quote does not fit in 128 bits.
pub fn choose_best_pool(candidates: &Vec<SwapCandidate>, balances: &Vec<(u128, u128)>) -> (r: Option<(String, u128)>)
    requires
        balances@.len() == candidates@.len(),
        forall|i: int| 0 <= i < candidates@.len() ==> quote_defined(#[trigger] candidates@[i]@, balances@[i]),
    ensures
        (forall|i: int| 0 <= i < candidates@.len() ==> quote_fits(#[trigger] candidates@[i]@, balances@[i])) ==> (r matches Some(
            (k, q),
        ) && k@ == best_pool(candidates_view(candidates@), balances@).0 && q == best_pool(
            candidates_view(candidates@),
            balances@,
        ).1),
        !(forall|i: int| 0 <= i < candidates@.len() ==> quote_fits(#[trigger] candidates@[i]@, balances@[i])) ==> r is None,
{
    let ghost cs = candidates_view(candidates@);
    let n = candidates.len();
    let mut best: Option<usize> = None;
    let mut max_out: u128 = 0;
    for i in 0..n
        invariant
            n == candidates@.len(),
            n == balances@.len(),
            cs == candidates_view(candidates@),
            forall|j: int| 0 <= j < n ==> quote_defined(#[trigger] candidates@[j]@, balances@[j]),
            forall|j: int| 0 <= j < i ==> quote_fits(#[trigger] candidates@[j]@, balances@[j]),
            max_out == best_upto(cs, balances@, i as nat).1,
            best matches Some(b) ==> b < i && best_upto(cs, balances@, i as nat).0 == Some(cs[b as int].pool_key),
            best is None ==> best_upto(cs, balances@, i as nat).0 is None,
    {
        let c = &candidates[i];
        let (b_in, b_out) = balances[i];
        assert(cs[i as int] == c@);
        assert(quote_defined(cs[i as int], balances@[i as int]));
        let q = match out_given_in(b_in, c.weight_in, b_out, c.weight_out, c.amount_in) {
            Some(q) => q,
            None => {
                return None;
            },
        };
        if q >= max_out {
            max_out = q;
            best = Some(i);
        }
    }
    match best {
        Some(b) => Some((candidates[b].pool_key.clone_key(), max_out)),
        None => {
            proof {
                reveal_strlit("No suitable pool found.");
            }
            Some((text("No suitable pool found."), 0))
        },
    }
}

impl Factory {
    /// The first step of a swap: the lock of the caller (by the textual
    /// form of its principal) is taken, or the swap is refused with
    /// `AnotherOperationInProgress` where it is held; the lock's key is
    /// returned.
    pub fn compute_swap_begin(&mut self, caller: &PrincipalId) -> (r: Result<String, CustomError>)
        ensures
            lock_held(*old(self), spec_principal_text(caller@)) ==> (r matches Err(e) && e@
                == CustomErrorView::AnotherOperationInProgress(spec_principal_text(caller@)) && *final(self)
                == *old(self)),
            !lock_held(*old(self), spec_principal_text(caller@)) ==> (r matches Ok(k) && k@ == spec_principal_text(
                caller@,
            ) && final(self).locks@ == old(self).locks@.insert(k@, true) && final(self).pool_data
                == old(self).pool_data),
    {
        let user = caller.to_text();
        match self.try_lock(user.clone_key()) {
            Err(e) => Err(e),
            Ok(()) => Ok(user),
        }
    }
}

/// Whether the name is one of the two answers of the pool search that
/// name no pool.
pub open spec fn names_no_pool(name: Seq<char>) -> bool {
    name == "No suitable pool found."@ || name == "No matching pools found."@
}

/// The canister to swap through, for the pool name the search chose:
/// `NoCanisterIDFound` where the search found no pool or the pool's
/// canister is not known.
pub fn compute_swap_target(state: &State, pool_name: &String) -> (r: Result<PrincipalId, CustomError>)
    ensures
        names_no_pool(pool_name@) ==> (r matches Err(e) && e@ == CustomErrorView::NoCanisterIDFound),
        !names_no_pool(pool_name@) ==> match canister_of(pool_canisters(state), pool_name@) {
            Some(c) => r matches Ok(p) && p@ == c,
            None => r matches Err(e) && e@ == CustomErrorView::NoCanisterIDFound,
        },
{
    if compare_str(pool_name.as_str(), "No suitable pool found.") == KeyOrder::Equal || compare_str(
        pool_name.as_str(),
        "No matching pools found.",
    ) == KeyOrder::Equal {
        return Err(CustomError::NoCanisterIDFound);
    }
    match state.pool_canister(pool_name) {
        Some(c) => Ok(c),
        None => Err(CustomError::NoCanisterIDFound),
    }
}

/// The error of a swap that the pool canister refused: `SwappingFailed`
/// with "Failed to perform swap: " and the reason.
pub fn compute_swap_failure(reason: &str) -> (r: CustomError)
    ensures
        r@ == CustomErrorView::SwappingFailed("Failed to perform swap: "@ + reason@),
{
    let mut m = text("Failed to perform swap: ");
    push_text(&mut m, reason);
    CustomError::SwappingFailed(m)
}

/// The canister recorded for the pool named by the two token names joined
/// together.
pub fn get_pool_canister_id(state: &State, token1: &str, token2: &str) -> (r: Option<PrincipalId>)
    ensures
        canister_of(pool_canisters(state), token1@ + token2@) matches Some(c) ==> (r matches Some(p) && p@ == c),
        canister_of(pool_canisters(state), token1@ + token2@) is None ==> r is None,
{
    let mut name = text(token1);
    push_text(&mut name, token2);
    state.pool_canister(&name)
}

/// Refuses the anonymous principal with "Anonymous access not allowed".
pub fn prevent_anonymous(caller: &PrincipalId) -> (r: Result<(), String>)
    ensures
        caller@ == anonymous_bytes() ==> (r matches Err(m) && m@ == "Anonymous access not allowed"@),
        caller@ != anonymous_bytes() ==> r is Ok,
{
    if caller.is_anonymous() {
        Err(text("Anonymous access not allowed"))
    } else {
        Ok(())
    }
}

/// The message of a failed canister creation: "Error: " and the reason.
pub fn creation_error_message(reason: &str) -> (r: String)
    ensures
        r@ == "Error: "@ + reason@,
{
    let mut m = text("Error: ");
    push_text(&mut m, reason);
    m
}

} // verus!
