use vstd::prelude::*;

use crate::order::{lex_lt, MapKey};
use crate::principal::{anonymous_bytes, PrincipalId};
use crate::sorted_map::{lemma_sum_update, sorted_keys, sum_over, SortedMap};
use crate::state::{pool_canisters, State};
use crate::text::{is_blank, push_text, text, trims_to_empty};
use crate::types::{invalid_pool_message, pool_defect, validate_with_message, CustomError, Pool_Data, TokenView};
use crate::vault::{names_contain, str_views, value_or_zero, zero_stake, Vault};

verus! {

/// The fixed-point scale of ratios: one is 10^18.
pub const BASE_SCALING: u128 = 1_000_000_000_000_000_000;

/// The message for an amount that does not fit in 128 bits.
pub open spec fn overflow_message() -> Seq<char> {
    "arithmetic overflow"@
}

fn overflow_text() -> (r: String)
    ensures
        r@ == overflow_message(),
{
    text("arithmetic overflow")
}

/// The sum of value times balance over the tokens whose value and balance
/// are both above zero: what a user contributes.
pub open spec fn contribution(ts: Seq<TokenView>) -> int
    decreases ts.len(),
{
    if ts.len() == 0 {
        0
    } else {
        contribution(ts.drop_last()) + if zero_stake(ts.last()) {
            0
        } else {
            ts.last().value * ts.last().balance
        }
    }
}

proof fn lemma_contribution_prefix(ts: Seq<TokenView>, i: int)
    requires
        0 <= i <= ts.len(),
    ensures
        0 <= contribution(ts.take(i)) <= contribution(ts),
    decreases ts.len() - i,
{
    if i == ts.len() {
        assert(ts.take(i) =~= ts);
        lemma_contribution_nonneg(ts);
    } else {
        lemma_contribution_prefix(ts, i + 1);
        assert(ts.take(i + 1).drop_last() =~= ts.take(i));
        assert(ts.take(i + 1).last() == ts[i]);
        lemma_contribution_nonneg(ts.take(i));
        let t = ts[i];
        assert(t.value * t.balance >= 0) by (nonlinear_arith)
            requires
                t.value >= 0,
                t.balance >= 0,
        ;
    }
}

proof fn lemma_contribution_nonneg(ts: Seq<TokenView>)
    ensures
        contribution(ts) >= 0,
    decreases ts.len(),
{
    if ts.len() > 0 {
        lemma_contribution_nonneg(ts.drop_last());
        let t = ts.last();
        assert(t.value * t.balance >= 0) by (nonlinear_arith)
            requires
                t.value >= 0,
                t.balance >= 0,
        ;
    }
}

/// A user's contribution, or `None` where it does not fit in 128 bits.
pub fn checked_contribution(params: &Pool_Data) -> (r: Option<u128>)
    ensures
        r matches Some(v) ==> v == contribution(params@.tokens),
        r is None <==> contribution(params@.tokens) > u128::MAX,
{
    let n = params.pool_data.len();
    let ghost ts = params@.tokens;
    let mut acc: u128 = 0;
    for i in 0..n
        invariant
            n == params.pool_data@.len(),
            ts == params@.tokens,
            acc == contribution(ts.take(i as int)),
    {
        let t = &params.pool_data[i];
        assert(ts[i as int] == t@);
        assert(ts.take(i + 1).drop_last() =~= ts.take(i as int));
        assert(ts.take(i + 1).last() == ts[i as int]);
        proof {
            lemma_contribution_prefix(ts, i + 1);
        }
        if t.value != 0 && t.balance != 0 {
            match t.value.checked_mul(t.balance) {
                Some(prod) => match acc.checked_add(prod) {
                    Some(next) => {
                        acc = next;
                    },
                    None => {
                        return None;
                    },
                },
                None => {
                    proof {
                        lemma_contribution_nonneg(ts.take(i as int));
                    }
                    return None;
                },
            }
        }
    }
    assert(ts.take(n as int) =~= ts);
    Some(acc)
}

/// The LP tokens minted for a contribution `c` when the vault holds `total`
/// LP tokens: `(c / (total * 1000)) * total`.
pub open spec fn minted_lp(c: int, total: int) -> int {
    (c / (total * 1000)) * total
}

/// What a burn of `amount` LP tokens of a pool holding `pool_lp` is worth,
/// scaled as the pool canister expects: `(pool_lp * 100) * (amount * 10^18 /
/// pool_lp) / 10^18`.
pub open spec fn burn_worth(amount: int, pool_lp: int) -> int {
    ((pool_lp * 100) * ((amount * BASE_SCALING) / pool_lp)) / (BASE_SCALING as int)
}

/// Whether every amount of a burn fits in 128 bits.
pub open spec fn burn_fits(amount: int, pool_lp: int) -> bool {
    &&& amount * BASE_SCALING <= u128::MAX
    &&& pool_lp * 100 <= u128::MAX
    &&& (pool_lp * 100) * ((amount * BASE_SCALING) / pool_lp) <= u128::MAX
}

/// The amount a user's share is worth, for the pool canister's
/// `get_burned_tokens`: `pool_lp * 1000 * (amount * 10^18 / pool_lp)`,
/// which is `(pool_lp * 10^18 * 1000) * (amount * 10^18 / pool_lp) / 10^18`
/// exactly (see `lemma_share_worth_exact`).
pub open spec fn share_worth(amount: int, pool_lp: int) -> int {
    pool_lp * 1000 * ((amount * BASE_SCALING) / pool_lp)
}

/// Whether every amount of a share computation fits in 128 bits.
pub open spec fn share_fits(amount: int, pool_lp: int) -> bool {
    &&& amount * BASE_SCALING <= u128::MAX
    &&& pool_lp * 1000 <= u128::MAX
    &&& pool_lp * 1000 * ((amount * BASE_SCALING) / pool_lp) <= u128::MAX
}

/// The share's worth is the value of the scaled formula: scaling the pool's
/// LP tokens up by 10^18 and the product down by 10^18 loses nothing.
pub proof fn lemma_share_worth_exact(amount: int, pool_lp: int)
    requires
        amount >= 0,
        pool_lp > 0,
    ensures
        share_worth(amount, pool_lp) == ((pool_lp * BASE_SCALING * 1000) * ((amount * BASE_SCALING) / pool_lp)) / (
        BASE_SCALING as int),
{
    let r = (amount * BASE_SCALING) / pool_lp;
    let s = BASE_SCALING as int;
    assert(((pool_lp * s * 1000) * r) / s == pool_lp * 1000 * r) by (nonlinear_arith)
        requires
            s > 0,
    ;
}

/// The principals, in order, whose pools include `name`.
pub open spec fn participants(ks: Seq<Seq<u8>>, m: Map<Seq<u8>, Vec<String>>, name: Seq<char>) -> Seq<Seq<u8>>
    decreases ks.len(),
{
    if ks.len() == 0 {
        Seq::empty()
    } else {
        let rest = participants(ks.drop_last(), m, name);
        if str_views(m[ks.last()]@).contains(name) {
            rest.push(ks.last())
        } else {
            rest
        }
    }
}

/// The sum of the balances.
pub open spec fn balance_sum(bs: Seq<u128>) -> int
    decreases bs.len(),
{
    if bs.len() == 0 {
        0
    } else {
        balance_sum(bs.drop_last()) + bs.last()
    }
}

/// The sum of each balance's share of the fee: `balance * fee / total`.
pub open spec fn fee_shares(bs: Seq<u128>, fee: int, total: int) -> int
    decreases bs.len(),
{
    if bs.len() == 0 {
        0
    } else {
        fee_shares(bs.drop_last(), fee, total) + (bs.last() * fee) / total
    }
}

/// The swap fee of a trade of `token_amount` at a fee of `fee` thousandths.
pub open spec fn swap_fee_of(token_amount: int, fee: int) -> int {
    (token_amount * fee) / 1000
}

/// What the participant at `i`, among participants with balances `bs`,
/// earns from a trade of `token_amount` at a fee of `fee` thousandths: its
/// share of the trade's fee in proportion to its balance, rounded down.
pub open spec fn fee_gain(bs: Seq<u128>, i: int, token_amount: u128, fee: u128) -> int {
    (bs[i] * swap_fee_of(token_amount as int, fee as int)) / balance_sum(bs)
}

/// A principal's fees of a pool, or 0.
pub open spec fn fee_of(m: Map<Seq<u8>, SortedMap<String, u128>>, user: Seq<u8>, pool: Seq<char>) -> int {
    if m.contains_key(user) {
        value_or_zero(m[user]@, pool) as int
    } else {
        0
    }
}

/// What happens after an attempt to transfer minted LP tokens.
#[derive(Debug)]
pub enum LpTransferStep {
    /// The transfer went through.
    Finished,
    /// Try again; the number of failed attempts so far.
    Retry(u8),
    /// Give up with this message.
    Failed(String),
}

/// Decides what follows an attempt to transfer minted LP tokens, given the
/// failed attempts before it: two attempts are made in all.
pub fn lp_transfer_step(failed_before: u8, succeeded: bool) -> (r: LpTransferStep)
    requires
        failed_before < 2,
    ensures
        succeeded ==> r is Finished,
        !succeeded && failed_before + 1 < 2 ==> (r matches LpTransferStep::Retry(n) && n == failed_before + 1),
        !succeeded && failed_before + 1 >= 2 ==> (r matches LpTransferStep::Failed(m) && m@
            == "LP token transfer failed after 2 retries."@),
{
    if succeeded {
        LpTransferStep::Finished
    } else if failed_before + 1 < 2 {
        LpTransferStep::Retry(failed_before + 1)
    } else {
        LpTransferStep::Failed(text("LP token transfer failed after 2 retries."))
    }
}

/// The checks of a burn before any tokens move: the pool is valid, its
/// name is not blank and the amount is above zero.
pub fn burn_precheck(params: &Pool_Data, pool_name: &String, amount: u128) -> (r: Result<(), String>)
    ensures
        pool_defect(params@) is Some ==> (r matches Err(m) && m@ == invalid_pool_message(params@)),
        pool_defect(params@) is None && is_blank(pool_name@) ==> (r matches Err(m) && m@
            == "Pool name cannot be empty."@),
        pool_defect(params@) is None && !is_blank(pool_name@) && amount == 0 ==> (r matches Err(m) && m@
            == "Amount to burn must be greater than zero."@),
        pool_defect(params@) is None && !is_blank(pool_name@) && amount > 0 ==> r is Ok,
{
    validate_with_message(params)?;
    if trims_to_empty(pool_name.as_str()) {
        return Err(text("Pool name cannot be empty."));
    }
    if amount == 0 {
        return Err(text("Amount to burn must be greater than zero."));
    }
    Ok(())
}

/// Whether every balance times the fee fits in 128 bits.
pub open spec fn shares_fit(bs: Seq<u128>, fee: int) -> bool {
    forall|i: int| 0 <= i < bs.len() ==> #[trigger] bs[i] * fee <= u128::MAX
}

proof fn lemma_balance_sum_prefix(bs: Seq<u128>, i: int)
    requires
        0 <= i <= bs.len(),
    ensures
        0 <= balance_sum(bs.take(i)) <= balance_sum(bs),
    decreases bs.len() - i,
{
    if i == bs.len() {
        assert(bs.take(i) =~= bs);
        lemma_balance_sum_nonneg(bs);
    } else {
        lemma_balance_sum_prefix(bs, i + 1);
        assert(bs.take(i + 1).drop_last() =~= bs.take(i));
        lemma_balance_sum_nonneg(bs.take(i));
    }
}

proof fn lemma_balance_sum_nonneg(bs: Seq<u128>)
    ensures
        balance_sum(bs) >= 0,
    decreases bs.len(),
{
    if bs.len() > 0 {
        lemma_balance_sum_nonneg(bs.drop_last());
    }
}

/// Each share loses less than one to rounding: the shares of a fee add up
/// to at least the balances' sum times the fee over the total, less one per
/// balance.
proof fn lemma_fee_shares_rounding(bs: Seq<u128>, fee: int, total: int)
    requires
        fee >= 0,
        total > 0,
    ensures
        total * fee_shares(bs, fee, total) >= balance_sum(bs) * fee - bs.len() * total,
    decreases bs.len(),
{
    if bs.len() > 0 {
        let rest = bs.drop_last();
        lemma_fee_shares_rounding(rest, fee, total);
        let b = bs.last() as int;
        let q = (b * fee) / total;
        assert(total * q >= b * fee - total) by (nonlinear_arith)
            requires
                q == (b * fee) / total,
                total > 0,
        ;
        let fr = fee_shares(rest, fee, total);
        let sr = balance_sum(rest);
        let n = rest.len() as int;
        assert(total * (fr + q) >= (sr + b) * fee - (n + 1) * total) by (nonlinear_arith)
            requires
                total * fr >= sr * fee - n * total,
                total * q >= b * fee - total,
        ;
    }
}

/// What the first `n` participants earn together from a trade.
pub open spec fn gains_upto(bs: Seq<u128>, n: int, token_amount: u128, fee: u128) -> int
    decreases n,
{
    if n <= 0 {
        0
    } else {
        gains_upto(bs, n - 1, token_amount, fee) + fee_gain(bs, n - 1, token_amount, fee)
    }
}

proof fn lemma_gains_upto_shares(bs: Seq<u128>, k: int, token_amount: u128, fee: u128)
    requires
        0 <= k <= bs.len(),
    ensures
        gains_upto(bs, k, token_amount, fee) == fee_shares(
            bs.take(k),
            swap_fee_of(token_amount as int, fee as int),
            balance_sum(bs),
        ),
    decreases k,
{
    if k > 0 {
        lemma_gains_upto_shares(bs, k - 1, token_amount, fee);
        assert(bs.take(k).drop_last() =~= bs.take(k - 1));
        assert(bs.take(k).last() == bs[k - 1]);
    } else {
        assert(bs.take(0) =~= Seq::<u128>::empty());
    }
}

/// The fee shared out among a pool's participants is the fee on the trade,
/// a thousandth of `token_amount * fee`, split in proportion to their
/// balances (each participant's gain is what `distribute_swap_fee` adds to
/// its fees):
/// - a sole participant with a balance earns the whole fee of the trade;
/// - each participant earns its balance's part of the trade's fee, rounded
///   down: `total * gain <= balance * fee of the trade < total * (gain + 1)`;
/// - together they earn the trade's fee, less at most one per participant
///   lost to rounding down.
pub proof fn lemma_swap_fee_shared_is_trade_fee(token_amount: u128, fee: u128, bs: Seq<u128>, b: u128, i: int)
    requires
        b > 0,
    ensures
        fee_gain(seq![b], 0, token_amount, fee) == (token_amount * fee) / 1000,
        balance_sum(bs) > 0 && 0 <= i < bs.len() ==> {
            let g = fee_gain(bs, i, token_amount, fee);
            &&& balance_sum(bs) * g <= bs[i] * ((token_amount * fee) / 1000)
            &&& bs[i] * ((token_amount * fee) / 1000) < balance_sum(bs) * (g + 1)
        },
        balance_sum(bs) > 0 ==> {
            let all = gains_upto(bs, bs.len() as int, token_amount, fee);
            &&& all <= (token_amount * fee) / 1000
            &&& all >= (token_amount * fee) / 1000 - bs.len()
        },
{
    let f = (token_amount * fee) / 1000;
    assert(f >= 0) by (nonlinear_arith)
        requires
            f == (token_amount * fee) / 1000,
    ;
    assert(seq![b].drop_last() =~= Seq::<u128>::empty());
    assert(balance_sum(Seq::<u128>::empty()) == 0);
    assert(seq![b].last() == b);
    assert(balance_sum(seq![b]) == b);
    assert((b * f) / (b as int) == f) by (nonlinear_arith)
        requires
            b > 0,
    ;
    if balance_sum(bs) > 0 {
        let t = balance_sum(bs);
        if 0 <= i < bs.len() {
            let x = bs[i] * f;
            let g = x / t;
            assert(t * g <= x && x < t * (g + 1)) by (nonlinear_arith)
                requires
                    g == x / t,
                    t > 0,
            ;
        }
        lemma_gains_upto_shares(bs, bs.len() as int, token_amount, fee);
        assert(bs.take(bs.len() as int) =~= bs);
        lemma_fee_shares_bounded(bs, f, t);
        lemma_fee_shares_rounding(bs, f, t);
        let sh = fee_shares(bs, f, t);
        let n = bs.len() as int;
        assert((t * f) / t == f) by (nonlinear_arith)
            requires
                t > 0,
        ;
        assert(sh >= f - n) by (nonlinear_arith)
            requires
                t * sh >= t * f - n * t,
                t > 0,
        ;
    }
}

/// The shares of a fee never add up to more than the fee: each share is
/// rounded down, so together they are at most the balances' sum times the
/// fee over the total, which is the fee where the total is that sum.
pub proof fn lemma_fee_shares_bounded(bs: Seq<u128>, fee: int, total: int)
    requires
        fee >= 0,
        total > 0,
    ensures
        fee_shares(bs, fee, total) <= (balance_sum(bs) * fee) / total,
        total == balance_sum(bs) ==> fee_shares(bs, fee, total) <= fee,
    decreases bs.len(),
{
    if bs.len() > 0 {
        let rest = bs.drop_last();
        lemma_fee_shares_bounded(rest, fee, total);
        lemma_balance_sum_nonneg(rest);
        let s = balance_sum(rest);
        let b = bs.last() as int;
        assert((s * fee) / total + (b * fee) / total <= ((s + b) * fee) / total) by (nonlinear_arith)
            requires
                s >= 0,
                b >= 0,
                fee >= 0,
                total > 0,
        ;
    }
    if total == balance_sum(bs) {
        assert((total * fee) / total == fee) by (nonlinear_arith)
            requires
                total > 0,
        ;
    }
}

proof fn lemma_fee_shares_prefix(bs: Seq<u128>, fee: int, total: int, i: int)
    requires
        0 <= i <= bs.len(),
        fee >= 0,
        total > 0,
    ensures
        0 <= fee_shares(bs.take(i), fee, total) <= fee_shares(bs, fee, total),
    decreases bs.len() - i,
{
    if i == bs.len() {
        assert(bs.take(i) =~= bs);
        lemma_fee_shares_nonneg(bs, fee, total);
    } else {
        lemma_fee_shares_prefix(bs, fee, total, i + 1);
        assert(bs.take(i + 1).drop_last() =~= bs.take(i));
        lemma_fee_shares_nonneg(bs.take(i), fee, total);
        let b = bs[i];
        assert((b * fee) / total >= 0) by (nonlinear_arith)
            requires
                b >= 0,
                fee >= 0,
                total > 0,
        ;
    }
}

proof fn lemma_fee_shares_nonneg(bs: Seq<u128>, fee: int, total: int)
    requires
        fee >= 0,
        total > 0,
    ensures
        fee_shares(bs, fee, total) >= 0,
    decreases bs.len(),
{
    if bs.len() > 0 {
        lemma_fee_shares_nonneg(bs.drop_last(), fee, total);
        let b = bs.last();
        assert((b * fee) / total >= 0) by (nonlinear_arith)
            requires
                b >= 0,
                fee >= 0,
                total > 0,
        ;
    }
}

/// The fees of the principal's pools before a distribution (an empty map
/// where there are none).
pub open spec fn fees_before(v: Vault, user: Seq<u8>) -> Map<Seq<char>, u128> {
    if v.fee_share@.contains_key(user) {
        v.fee_share@[user]@
    } else {
        Map::empty()
    }
}

/// Whether every amount of a fee distribution fits in 128 bits: the sum
/// of the balances, the trade times the fee, each balance times the swap
/// fee, and each participant's fees after their share is added.
pub open spec fn distribution_fits(
    v: Vault,
    users: Seq<Seq<u8>>,
    pool: Seq<char>,
    fee: u128,
    token_amount: u128,
    bs: Seq<u128>,
) -> bool {
    let sf = swap_fee_of(token_amount as int, fee as int);
    let total = balance_sum(bs);
    &&& total <= u128::MAX
    &&& token_amount * fee <= u128::MAX
    &&& shares_fit(bs, sf)
    &&& forall|i: int|
        0 <= i < users.len() ==> fee_of(v.fee_share@, #[trigger] users[i], pool) + (bs[i] * sf) / total
            <= u128::MAX
}

/// The participants of a pool are exactly the users among `ks` whose pools
/// include it: each participant is one of them and has joined the pool,
/// and each of them who has joined it is a participant.
pub proof fn lemma_participants_exact(ks: Seq<Seq<u8>>, m: Map<Seq<u8>, Vec<String>>, name: Seq<char>)
    ensures
        forall|i: int|
            0 <= i < participants(ks, m, name).len() ==> ks.contains(#[trigger] participants(ks, m, name)[i])
                && str_views(m[participants(ks, m, name)[i]]@).contains(name),
        forall|j: int|
            0 <= j < ks.len() && str_views(m[#[trigger] ks[j]]@).contains(name) ==> participants(
                ks,
                m,
                name,
            ).contains(ks[j]),
    decreases ks.len(),
{
    if ks.len() > 0 {
        let rest = ks.drop_last();
        lemma_participants_exact(rest, m, name);
        let ps = participants(ks, m, name);
        let pr = participants(rest, m, name);
        assert forall|i: int| 0 <= i < ps.len() implies ks.contains(#[trigger] ps[i]) && str_views(
            m[ps[i]]@,
        ).contains(name) by {
            if i < pr.len() {
                assert(ps[i] == pr[i]);
                let w = rest.index_of(pr[i]);
                assert(ks[w] == rest[w]);
            } else {
                assert(ps[i] == ks.last());
                assert(ks[ks.len() - 1] == ks.last());
            }
        }
        assert forall|j: int| 0 <= j < ks.len() && str_views(m[#[trigger] ks[j]]@).contains(name) implies ps.contains(
            ks[j],
        ) by {
            if j < rest.len() {
                assert(rest[j] == ks[j]);
                assert(pr.contains(rest[j]));
                let w = pr.index_of(rest[j]);
                assert(ps[w] == pr[w]);
            } else {
                assert(ps[ps.len() - 1] == ks[j]);
            }
        }
    }
}

/// The participants of a pool, taken from keys in increasing order, are
/// in increasing order too, and each is one of the keys.
pub proof fn lemma_participants_sorted(ks: Seq<Seq<u8>>, m: Map<Seq<u8>, Vec<String>>, name: Seq<char>)
    requires
        sorted_keys::<PrincipalId>(ks),
    ensures
        sorted_keys::<PrincipalId>(participants(ks, m, name)),
        forall|i: int|
            0 <= i < participants(ks, m, name).len() ==> ks.contains(#[trigger] participants(ks, m, name)[i]),
    decreases ks.len(),
{
    if ks.len() > 0 {
        let rest = ks.drop_last();
        assert(sorted_keys::<PrincipalId>(rest)) by {
            assert forall|a: int, b: int| 0 <= a < b < rest.len() implies lex_lt(
                #[trigger] PrincipalId::rank(rest[a]),
                #[trigger] PrincipalId::rank(rest[b]),
            ) by {
                assert(rest[a] == ks[a] && rest[b] == ks[b]);
            }
        }
        lemma_participants_sorted(rest, m, name);
        let pr = participants(rest, m, name);
        let p = participants(ks, m, name);
        assert forall|i: int| 0 <= i < pr.len() implies lex_lt(
            PrincipalId::rank(#[trigger] pr[i]),
            PrincipalId::rank(ks.last()),
        ) by {
            let w = rest.index_of(pr[i]);
            assert(ks[w] == pr[i]);
            assert(ks[ks.len() - 1] == ks.last());
        }
        assert forall|i: int| 0 <= i < p.len() implies ks.contains(#[trigger] p[i]) by {
            if i < pr.len() {
                assert(p[i] == pr[i]);
                let w = rest.index_of(pr[i]);
                assert(ks[w] == pr[i]);
            } else {
                assert(ks[ks.len() - 1] == p[i]);
            }
        }
        assert forall|a: int, b: int| 0 <= a < b < p.len() implies lex_lt(
            #[trigger] PrincipalId::rank(p[a]),
            #[trigger] PrincipalId::rank(p[b]),
        ) by {
            if b < pr.len() {
                assert(p[a] == pr[a] && p[b] == pr[b]);
            } else {
                assert(p[a] == pr[a]);
                assert(p[b] == ks.last());
            }
        }
    }
}

impl Vault {
    /// The principals, in order, whose pools include `pool_name`: those who
    /// share the pool's swap fees.
    pub fn apy_participants(&self, pool_name: &String) -> (r: Vec<PrincipalId>)
        ensures
            r@.map_values(|p: PrincipalId| p@) == participants(
                self.users_pool.key_seq(),
                self.users_pool@,
                pool_name@,
            ),
    {
        let n = self.users_pool.len();
        let ghost ks = self.users_pool.key_seq();
        let ghost m = self.users_pool@;
        let mut out: Vec<PrincipalId> = Vec::new();
        for i in 0..n
            invariant
                n == ks.len(),
                ks == self.users_pool.key_seq(),
                m == self.users_pool@,
                out@.map_values(|p: PrincipalId| p@) == participants(ks.take(i as int), m, pool_name@),
        {
            let user = self.users_pool.key_at(i);
            let names = self.users_pool.value_at(i);
            assert(ks.take(i + 1).drop_last() =~= ks.take(i as int));
            assert(ks.take(i + 1).last() == ks[i as int]);
            if names_contain(names, pool_name) {
                let ghost before = out@;
                out.push(user.clone_key());
                assert(out@.map_values(|p: PrincipalId| p@) =~= before.map_values(|p: PrincipalId| p@).push(
                    ks[i as int],
                ));
            }
        }
        assert(ks.take(n as int) =~= ks);
        out
    }

    /// Shares the swap fee of a trade among the pool's participants (see
    /// `apy_participants`) in proportion to their balances, given in the
    /// same order: the fee is `token_amount * fee / 1000`, and each
    /// participant's fees in the pool grow by their share `balance * fee /
    /// total`. The shares add up to at most the fee. Nothing changes where
    /// there are no participants or their balances are all 0, or where an
    /// amount does not fit in 128 bits.
    pub fn distribute_swap_fee(&mut self, pool_name: &String, fee: u128, token_amount: u128, balances: &Vec<u128>) -> (r:
        Result<(), CustomError>)
        requires
            balances@.len() == participants(
                old(self).users_pool.key_seq(),
                old(self).users_pool@,
                pool_name@,
            ).len(),
        ensures
            ({
                let ps = participants(old(self).users_pool.key_seq(), old(self).users_pool@, pool_name@);
                let sf = swap_fee_of(token_amount as int, fee as int);
                let total = balance_sum(balances@);
                &&& ps.len() == 0 || total == 0 ==> r is Ok && *final(self) == *old(self)
                &&& ps.len() > 0 && total != 0 && !distribution_fits(
                    *old(self),
                    ps,
                    pool_name@,
                    fee,
                    token_amount,
                    balances@,
                ) ==> (r matches Err(e) && e@ == crate::vault::overflow_error() && *final(self) == *old(self))
                &&& ps.len() > 0 && total != 0 && distribution_fits(
                    *old(self),
                    ps,
                    pool_name@,
                    fee,
                    token_amount,
                    balances@,
                ) ==> {
                    &&& r is Ok
                    &&& forall|i: int|
                        0 <= i < ps.len() ==> final(self).fee_share@.contains_key(#[trigger] ps[i])
                            && final(self).fee_share@[ps[i]]@ == fees_before(*old(self), ps[i]).insert(
                            pool_name@,
                            (fee_of(old(self).fee_share@, ps[i], pool_name@) + fee_gain(balances@, i, token_amount, fee)) as u128,
                        )
                    &&& forall|u: Seq<u8>|
                        !ps.contains(u) ==> (#[trigger] final(self).fee_share@.contains_key(u)
                            == old(self).fee_share@.contains_key(u) && (old(self).fee_share@.contains_key(u)
                            ==> final(self).fee_share@[u] == old(self).fee_share@[u]))
                    &&& fee_shares(balances@, sf, total) <= sf
                    &&& final(self).total_lp_supply == old(self).total_lp_supply
                    &&& final(self).pool_lp_share == old(self).pool_lp_share
                    &&& final(self).users_lp == old(self).users_lp
                    &&& final(self).users_pool == old(self).users_pool
                    &&& final(self).users_pool_lp == old(self).users_pool_lp
                }
            }),
    {
        let _k = self.users_pool.len();
        let users = self.apy_participants(pool_name);
        let ghost ps = participants(self.users_pool.key_seq(), self.users_pool@, pool_name@);
        proof {
            lemma_participants_sorted(self.users_pool.key_seq(), self.users_pool@, pool_name@);
        }
        assert forall|j: int, k: int| 0 <= j < k < ps.len() implies ps[j] != ps[k] by {
            crate::sorted_map::lemma_sorted_distinct::<PrincipalId>(ps, j, k);
        }
        let n = balances.len();
        if n == 0 {
            return Ok(());
        }
        let ghost bs = balances@;
        let mut total: u128 = 0;
        for i in 0..n
            invariant
                n == bs.len(),
                bs == balances@,
                *self == *old(self),
                n == ps.len(),
                ps == participants(old(self).users_pool.key_seq(), old(self).users_pool@, pool_name@),
                total == balance_sum(bs.take(i as int)),
        {
            assert(bs.take(i + 1).drop_last() =~= bs.take(i as int));
            assert(bs.take(i + 1).last() == bs[i as int]);
            proof {
                lemma_balance_sum_prefix(bs, i + 1);
            }
            match total.checked_add(balances[i]) {
                Some(t) => {
                    total = t;
                },
                None => {
                    return Err(crate::vault::overflow_error_value());
                },
            }
        }
        assert(bs.take(n as int) =~= bs);
        if total == 0 {
            return Ok(());
        }
        let sf = match token_amount.checked_mul(fee) {
            Some(x) => x / 1000,
            None => {
                return Err(crate::vault::overflow_error_value());
            },
        };
        proof {
            lemma_fee_shares_bounded(bs, sf as int, total as int);
        }
        // Every share and every new fee must fit before anything changes.
        for i in 0..n
            invariant
                n == bs.len(),
                bs == balances@,
                ps.len() == n,
                *self == *old(self),
                ps == participants(old(self).users_pool.key_seq(), old(self).users_pool@, pool_name@),
                users@.map_values(|p: PrincipalId| p@) == ps,
                total == balance_sum(bs),
                total > 0,
                sf == swap_fee_of(token_amount as int, fee as int),
                forall|j: int| 0 <= j < i ==> #[trigger] bs[j] * sf <= u128::MAX,
                forall|j: int|
                    0 <= j < i ==> fee_of(self.fee_share@, #[trigger] ps[j], pool_name@) + (bs[j] * sf) / (total as int)
                        <= u128::MAX,
        {
            assert(ps[i as int] == users@[i as int]@);
            let prod = match balances[i].checked_mul(sf) {
                Some(p) => p,
                None => {
                    return Err(crate::vault::overflow_error_value());
                },
            };
            let current = self.get_users_pool_apy(pool_name, &users[i]);
            if current.checked_add(prod / total).is_none() {
                return Err(crate::vault::overflow_error_value());
            }
        }
        let ghost old_fs = self.fee_share@;
        let mut i: usize = 0;
        while i < n
            invariant
                i <= n,
                n == bs.len(),
                bs == balances@,
                ps.len() == n,
                users@.map_values(|p: PrincipalId| p@) == ps,
                total == balance_sum(bs),
                total > 0,
                sf == swap_fee_of(token_amount as int, fee as int),
                forall|j: int, k: int| 0 <= j < k < ps.len() ==> ps[j] != ps[k],
                forall|j: int| 0 <= j < n ==> #[trigger] bs[j] * sf <= u128::MAX,
                forall|j: int|
                    0 <= j < n ==> fee_of(old_fs, #[trigger] ps[j], pool_name@) + (bs[j] * sf) / (total as int) <= u128::MAX,
                forall|j: int|
                    0 <= j < i ==> self.fee_share@.contains_key(#[trigger] ps[j]) && self.fee_share@[ps[j]]@
                        == (if old_fs.contains_key(ps[j]) {
                        old_fs[ps[j]]@
                    } else {
                        Map::empty()
                    }).insert(pool_name@, (fee_of(old_fs, ps[j], pool_name@) + (bs[j] * sf) / (total as int)) as u128),
                forall|u: Seq<u8>|
                    (forall|j: int| 0 <= j < i ==> ps[j] != u) ==> (#[trigger] self.fee_share@.contains_key(u)
                        == old_fs.contains_key(u) && (old_fs.contains_key(u) ==> self.fee_share@[u] == old_fs[u])),
                self.total_lp_supply == old(self).total_lp_supply,
                self.pool_lp_share == old(self).pool_lp_share,
                self.users_lp == old(self).users_lp,
                self.users_pool == old(self).users_pool,
                self.users_pool_lp == old(self).users_pool_lp,
            decreases n - i,
        {
            let user = &users[i];
            let ghost u = ps[i as int];
            assert(u == user@);
            assert(forall|j: int| 0 <= j < i ==> ps[j] != u);
            let current = self.get_users_pool_apy(pool_name, user);
            assert(current == fee_of(old_fs, u, pool_name@));
            let share = balances[i] * sf / total;
            let ghost before = self.fee_share@;
            let mut inner = match self.fee_share.remove(user) {
                Some(m) => m,
                None => SortedMap::new(),
            };
            inner.insert(pool_name.clone(), current + share);
            self.fee_share.insert(user.clone_key(), inner);
            let ghost k = i;
            i = i + 1;
            assert forall|u2: Seq<u8>| (forall|j: int| 0 <= j < i ==> ps[j] != u2) implies (
            #[trigger] self.fee_share@.contains_key(u2) == old_fs.contains_key(u2) && (old_fs.contains_key(u2)
                ==> self.fee_share@[u2] == old_fs[u2])) by {
                assert(ps[k as int] != u2);
                assert(forall|j: int| 0 <= j < k ==> ps[j] != u2);
                assert(before.contains_key(u2) == old_fs.contains_key(u2));
                assert(old_fs.contains_key(u2) ==> before[u2] == old_fs[u2]);
            }
            assert forall|j: int| 0 <= j < i implies self.fee_share@.contains_key(#[trigger] ps[j])
                && self.fee_share@[ps[j]]@ == (if old_fs.contains_key(ps[j]) {
                old_fs[ps[j]]@
            } else {
                Map::empty()
            }).insert(pool_name@, (fee_of(old_fs, ps[j], pool_name@) + (bs[j] * sf) / (total as int)) as u128) by {
                if j < k {
                    assert(ps[j] != u);
                }
            }
        }
        assert forall|u: Seq<u8>| !ps.contains(u) implies (#[trigger] self.fee_share@.contains_key(u)
            == old_fs.contains_key(u) && (old_fs.contains_key(u) ==> self.fee_share@[u] == old_fs[u])) by {
            assert forall|j: int| 0 <= j < n implies ps[j] != u by {
                if ps[j] == u {
                    assert(ps.contains(u));
                }
            }
        }
        Ok(())
    }

    /// The swap fees a principal has earned in a pool, or 0.
    pub fn get_users_pool_apy(&self, pool_name: &String, user: &PrincipalId) -> (r: u128)
        ensures
            r == fee_of(self.fee_share@, user@, pool_name@),
    {
        match self.fee_share.get(user) {
            Some(inner) => match inner.get(pool_name) {
                Some(v) => *v,
                None => 0,
            },
            None => 0,
        }
    }

    /// Sets a principal's fees in a pool to 0, where there are any.
    pub fn decrease_users_apy(&mut self, user: &PrincipalId, pool_name: &String)
        ensures
            !(old(self).fee_share@.contains_key(user@) && old(self).fee_share@[user@]@.contains_key(pool_name@))
                ==> *final(self) == *old(self),
            old(self).fee_share@.contains_key(user@) && old(self).fee_share@[user@]@.contains_key(pool_name@)
                ==> {
                &&& final(self).fee_share@.remove(user@) == old(self).fee_share@.remove(user@)
                &&& final(self).fee_share@.contains_key(user@)
                &&& final(self).fee_share@[user@]@ == old(self).fee_share@[user@]@.insert(pool_name@, 0)
                &&& final(self).total_lp_supply == old(self).total_lp_supply
                &&& final(self).pool_lp_share == old(self).pool_lp_share
                &&& final(self).users_lp == old(self).users_lp
                &&& final(self).users_pool == old(self).users_pool
                &&& final(self).users_pool_lp == old(self).users_pool_lp
            },
    {
        let present = match self.fee_share.get(user) {
            Some(inner) => inner.contains_key(pool_name),
            None => false,
        };
        if !present {
            return;
        }
        let ghost old_fs = self.fee_share@;
        let mut inner = match self.fee_share.remove(user) {
            Some(m) => m,
            None => SortedMap::new(),
        };
        inner.insert(pool_name.clone(), 0);
        self.fee_share.insert(user.clone_key(), inner);
        assert(self.fee_share@.remove(user@) =~= old_fs.remove(user@));
    }

    /// Records the LP tokens minted for the caller's contribution and
    /// returns them: `(contribution / (total * 1000)) * total`, where the
    /// contribution is the sum of value times balance over the tokens with a
    /// value and a balance above zero and `total` is the total LP supply.
    pub fn record_lp_share(&mut self, caller: &PrincipalId, params: &Pool_Data) -> (r: Result<u128, String>)
        ensures
            pool_defect(params@) is Some ==> (r matches Err(m) && m@ == invalid_pool_message(params@)),
            pool_defect(params@) is None && old(self).total_lp_supply == 0 ==> (r matches Err(m) && m@
                == "Total pool value or total LP supply is zero."@),
            pool_defect(params@) is None && old(self).total_lp_supply > 0 && (old(self).total_lp_supply * 1000
                > u128::MAX || contribution(params@.tokens) > u128::MAX) ==> (r matches Err(m) && m@
                == overflow_message()),
            r is Err ==> *final(self) == *old(self),
            pool_defect(params@) is None && old(self).total_lp_supply > 0 && old(self).total_lp_supply * 1000
                <= u128::MAX && contribution(params@.tokens) <= u128::MAX ==> {
                let lp = minted_lp(contribution(params@.tokens), old(self).total_lp_supply as int);
                &&& r == Ok::<u128, String>(lp as u128)
                &&& final(self).users_lp@ == old(self).users_lp@.insert(caller@, lp as u128)
                &&& final(self).total_lp_supply == old(self).total_lp_supply
                &&& final(self).pool_lp_share == old(self).pool_lp_share
                &&& final(self).users_pool == old(self).users_pool
                &&& final(self).users_pool_lp == old(self).users_pool_lp
                &&& final(self).fee_share == old(self).fee_share
            },
    {
        validate_with_message(params)?;
        let total = self.total_lp_supply;
        if total == 0 {
            return Err(text("Total pool value or total LP supply is zero."));
        }
        let total_pool_value = match total.checked_mul(1000) {
            Some(v) => v,
            None => {
                return Err(overflow_text());
            },
        };
        let c = match checked_contribution(params) {
            Some(c) => c,
            None => {
                return Err(overflow_text());
            },
        };
        let q = c / total_pool_value;
        assert(q * total <= c) by (nonlinear_arith)
            requires
                q == c / total_pool_value,
                total_pool_value == total * 1000,
                total > 0,
                c >= 0,
        ;
        let lp = q * total;
        self.users_lp.insert(caller.clone_key(), lp);
        Ok(lp)
    }

    /// The canister of the pool and what burning `amount` of its LP tokens
    /// is worth, for the pool canister's `burn_tokens`.
    pub fn burn_plan(&self, state: &State, pool_name: &String, amount: u128) -> (r: Result<
        (PrincipalId, u128),
        String,
    >)
        requires
            amount > 0,
        ensures
            !pool_canisters(state).contains_key(pool_name@) ==> (r matches Err(m) && m@
                == "No canister ID found for the pool: "@ + pool_name@),
            r matches Ok((c, t)) ==> {
                let lp = value_or_zero(self.pool_lp_share@, pool_name@);
                &&& pool_canisters(state).contains_key(pool_name@)
                &&& c@ == pool_canisters(state)[pool_name@]
                &&& lp > 0
                &&& burn_fits(amount as int, lp as int)
                &&& t == burn_worth(amount as int, lp as int)
            },
            pool_canisters(state).contains_key(pool_name@) && pool_canisters(state)[pool_name@].len() <= 29
                ==> {
                let lp = value_or_zero(self.pool_lp_share@, pool_name@);
                &&& lp == 0 ==> (r matches Err(m) && m@ == "No LP tokens in the pool: "@ + pool_name@)
                &&& lp > 0 && !burn_fits(amount as int, lp as int) ==> (r matches Err(m) && m@
                    == overflow_message())
                &&& lp > 0 && burn_fits(amount as int, lp as int) ==> r is Ok
            },
    {
        let canister = match state.pool_canister(pool_name) {
            Some(c) => c,
            None => {
                let mut m = text("No canister ID found for the pool: ");
                push_text(&mut m, pool_name.as_str());
                return Err(m);
            },
        };
        let pool_total_lp: u128 = match self.pool_lp_share.get(pool_name) {
            Some(v) => *v,
            None => 0,
        };
        if pool_total_lp == 0 {
            let mut m = text("No LP tokens in the pool: ");
            push_text(&mut m, pool_name.as_str());
            return Err(m);
        }
        let scaled = match amount.checked_mul(BASE_SCALING) {
            Some(v) => v,
            None => {
                return Err(overflow_text());
            },
        };
        let ratio = scaled / pool_total_lp;
        let pool_value = match pool_total_lp.checked_mul(100) {
            Some(v) => v,
            None => {
                return Err(overflow_text());
            },
        };
        if pool_value == 0 {
            let mut m = text("No tokens in the pool: ");
            push_text(&mut m, pool_name.as_str());
            return Err(m);
        }
        let product = match pool_value.checked_mul(ratio) {
            Some(v) => v,
            None => {
                return Err(overflow_text());
            },
        };
        Ok((canister, product / BASE_SCALING))
    }

    /// The canister of the pool and what the caller's share of `amount` LP
    /// tokens is worth, for the pool canister's `get_burned_tokens`.
    pub fn share_ratio_plan(
        &self,
        state: &State,
        caller: &PrincipalId,
        params: &Pool_Data,
        pool_name: &String,
        amount: u128,
    ) -> (r: Result<(PrincipalId, u128), String>)
        ensures
            caller@ == anonymous_bytes() ==> (r matches Err(m) && m@
                == "Invalid user principal: Cannot be anonymous."@),
            caller@ != anonymous_bytes() && is_blank(pool_name@) ==> (r matches Err(m) && m@
                == "Pool name cannot be empty."@),
            caller@ != anonymous_bytes() && !is_blank(pool_name@) && amount == 0 ==> (r matches Err(m) && m@
                == "Amount must be greater than zero."@),
            caller@ != anonymous_bytes() && !is_blank(pool_name@) && amount > 0 && pool_defect(params@) is Some
                ==> (r matches Err(m) && m@ == invalid_pool_message(params@)),
            caller@ != anonymous_bytes() && !is_blank(pool_name@) && amount > 0 && pool_defect(params@) is None
                && value_or_zero(self.pool_lp_share@, pool_name@) == 0 ==> (r matches Err(m) && m@
                == "No LP tokens found for the pool: "@ + pool_name@),
            caller@ != anonymous_bytes() && !is_blank(pool_name@) && amount > 0 && pool_defect(params@) is None
                && value_or_zero(self.pool_lp_share@, pool_name@) > 0 && !pool_canisters(state).contains_key(
                pool_name@,
            ) ==> (r matches Err(m) && m@ == "No canister ID found for the pool: "@ + pool_name@),
            r matches Ok((c, t)) ==> {
                let lp = value_or_zero(self.pool_lp_share@, pool_name@);
                &&& caller@ != anonymous_bytes()
                &&& pool_defect(params@) is None
                &&& pool_canisters(state).contains_key(pool_name@)
                &&& c@ == pool_canisters(state)[pool_name@]
                &&& lp > 0
                &&& share_fits(amount as int, lp as int)
                &&& t == share_worth(amount as int, lp as int)
            },
            caller@ != anonymous_bytes() && !is_blank(pool_name@) && amount > 0 && pool_defect(params@) is None
                && value_or_zero(self.pool_lp_share@, pool_name@) > 0 && pool_canisters(state).contains_key(
                pool_name@,
            ) && pool_canisters(state)[pool_name@].len() <= 29 ==> {
                let lp = value_or_zero(self.pool_lp_share@, pool_name@);
                &&& !share_fits(amount as int, lp as int) ==> (r matches Err(m) && m@ == overflow_message())
                &&& share_fits(amount as int, lp as int) ==> r is Ok
            },
    {
        if caller.is_anonymous() {
            return Err(text("Invalid user principal: Cannot be anonymous."));
        }
        if trims_to_empty(pool_name.as_str()) {
            return Err(text("Pool name cannot be empty."));
        }
        if amount == 0 {
            return Err(text("Amount must be greater than zero."));
        }
        validate_with_message(params)?;
        let pool_total_lp: u128 = match self.pool_lp_share.get(pool_name) {
            Some(v) => *v,
            None => 0,
        };
        if pool_total_lp == 0 {
            let mut m = text("No LP tokens found for the pool: ");
            push_text(&mut m, pool_name.as_str());
            return Err(m);
        }
        let canister = match state.pool_canister(pool_name) {
            Some(c) => c,
            None => {
                let mut m = text("No canister ID found for the pool: ");
                push_text(&mut m, pool_name.as_str());
                return Err(m);
            },
        };
        let scaled = match amount.checked_mul(BASE_SCALING) {
            Some(v) => v,
            None => {
                return Err(overflow_text());
            },
        };
        let ratio = scaled / pool_total_lp;
        let pool_thousandths = match pool_total_lp.checked_mul(1000) {
            Some(v) => v,
            None => {
                return Err(overflow_text());
            },
        };
        let tokens = match pool_thousandths.checked_mul(ratio) {
            Some(v) => v,
            None => {
                return Err(overflow_text());
            },
        };
        Ok((canister, tokens))
    }
}

} // verus!
