use vstd::prelude::*;

use crate::maths::{burned_amount, burned_token_amount};
use crate::order::{compare_str, KeyOrder, MapKey};
use crate::principal::{anonymous_bytes, spec_principal_debug, spec_principal_text, PrincipalId};
use crate::sorted_map::SortedMap;
use crate::text::{is_blank, push_text, text, trims_to_empty};
use crate::types::{
    invalid_pool_message, pool_defect, pools_view, validate_with_message, CreatePoolParams, Pool_Data, PoolView, SwapParams,
    TokenView,
};
use crate::vault::value_or_zero;

verus! {

/// The errors of a pool canister.
#[derive(Debug)]
pub enum SwapError {
    InternalError(String),
    InSufficientBalance,
    InvalidAmount,
    UserNotFound,
    PoolNotFound,
    UnauthorizedAccess,
    OverflowError,
    UnderFlowError,
}

/// The mathematical content of a `SwapError`.
pub enum SwapErrorView {
    InternalError(Seq<char>),
    InSufficientBalance,
    InvalidAmount,
    UserNotFound,
    PoolNotFound,
    UnauthorizedAccess,
    OverflowError,
    UnderFlowError,
}

impl View for SwapError {
    type V = SwapErrorView;

    open spec fn view(&self) -> SwapErrorView {
        match self {
            SwapError::InternalError(m) => SwapErrorView::InternalError(m@),
            SwapError::InSufficientBalance => SwapErrorView::InSufficientBalance,
            SwapError::InvalidAmount => SwapErrorView::InvalidAmount,
            SwapError::UserNotFound => SwapErrorView::UserNotFound,
            SwapError::PoolNotFound => SwapErrorView::PoolNotFound,
            SwapError::UnauthorizedAccess => SwapErrorView::UnauthorizedAccess,
            SwapError::OverflowError => SwapErrorView::OverflowError,
            SwapError::UnderFlowError => SwapErrorView::UnderFlowError,
        }
    }
}

/// The text of an error, as its `Display` writes it.
pub open spec fn swap_error_text(e: SwapErrorView) -> Seq<char> {
    match e {
        SwapErrorView::InternalError(m) => "Internal error: "@ + m,
        SwapErrorView::InSufficientBalance => "Insufficiant Balance"@,
        SwapErrorView::InvalidAmount => "Invalid Amount"@,
        SwapErrorView::UserNotFound => "UserNotFount"@,
        SwapErrorView::PoolNotFound => "PoolNotFound"@,
        SwapErrorView::UnauthorizedAccess => "UnauthorizedAccess"@,
        SwapErrorView::OverflowError => "OverflowError"@,
        SwapErrorView::UnderFlowError => "UnderFlowError"@,
    }
}

impl SwapError {
    /// The text of the error (what its `Display` shows).
    pub fn describe(&self) -> (r: String)
        ensures
            r@ == swap_error_text(self@),
    {
        match self {
            SwapError::InternalError(m) => {
                let mut s = text("Internal error: ");
                push_text(&mut s, m.as_str());
                s
            },
            SwapError::InSufficientBalance => text("Insufficiant Balance"),
            SwapError::InvalidAmount => text("Invalid Amount"),
            SwapError::UserNotFound => text("UserNotFount"),
            SwapError::PoolNotFound => text("PoolNotFound"),
            SwapError::UnauthorizedAccess => text("UnauthorizedAccess"),
            SwapError::OverflowError => text("OverflowError"),
            SwapError::UnderFlowError => text("UnderFlowError"),
        }
    }
}

impl From<String> for SwapError {
    /// A message becomes an internal error, whose text is "Internal error: "
    /// and the message.
    fn from(err: String) -> (r: SwapError)
        ensures
            r == SwapError::InternalError(err),
            swap_error_text(r@) == "Internal error: "@ + err@,
    {
        SwapError::InternalError(err)
    }
}

impl vstd::std_specs::convert::FromSpecImpl<String> for SwapError {
    open spec fn obeys_from_spec() -> bool {
        true
    }

    open spec fn from_spec(v: String) -> SwapError {
        SwapError::InternalError(v)
    }
}

/// The state of a pool canister: the pools each user has put in, and the
/// balance each user holds in it.
pub struct SwapPoolState {
    /// The pools each user has put in, in the order they came.
    pub pool_data: SortedMap<PrincipalId, Vec<Pool_Data>>,
    /// The total balance each user has put in.
    pub pool_balance: SortedMap<PrincipalId, u128>,
}

/// The pools of each user, by their views.
pub open spec fn pool_lists(s: SwapPoolState) -> Map<Seq<u8>, Seq<PoolView>> {
    s.pool_data@.map_values(|v: Vec<Pool_Data>| pools_view(v@))
}

/// The pools of the user, or none.
pub open spec fn pools_of(s: SwapPoolState, user: Seq<u8>) -> Seq<PoolView> {
    if pool_lists(s).contains_key(user) {
        pool_lists(s)[user]
    } else {
        Seq::empty()
    }
}

/// The sum of the balances of the tokens.
pub open spec fn balance_total(ts: Seq<TokenView>) -> int
    decreases ts.len(),
{
    if ts.len() == 0 {
        0
    } else {
        balance_total(ts.drop_last()) + ts.last().balance
    }
}

/// The message for an anonymous user.
pub open spec fn anonymous_message() -> Seq<char> {
    "Invalid user principal: Cannot be anonymous."@
}

/// Whether the balance the user would hold after adding the pool's tokens
/// fits in 128 bits.
pub open spec fn balance_fits(s: SwapPoolState, user: Seq<u8>, p: PoolView) -> bool {
    value_or_zero(s.pool_balance@, user) + balance_total(p.tokens) <= u128::MAX
}

/// The outcome of a request about a user and a pool: refused for the
/// anonymous user or for a pool that `validate` refuses, with its message.
pub open spec fn request_error(user: Seq<u8>, p: PoolView) -> Option<Seq<char>> {
    if user == anonymous_bytes() {
        Some(anonymous_message())
    } else if pool_defect(p) is Some {
        Some(invalid_pool_message(p))
    } else {
        None
    }
}

/// Checks a request about a user and a pool: the user is not anonymous and
/// the pool is valid (see `validate`).
pub fn check_pool_request(user: &PrincipalId, params: &Pool_Data) -> (r: Result<(), String>)
    ensures
        request_error(user@, params@) matches Some(m) ==> (r matches Err(e) && e@ == m),
        request_error(user@, params@) is None ==> r is Ok,
{
    if user.is_anonymous() {
        return Err(text("Invalid user principal: Cannot be anonymous."));
    }
    validate_with_message(params)
}

/// The sum of the balances of the pool's tokens, or `None` where it does
/// not fit in 128 bits.
fn checked_balance_total(params: &Pool_Data) -> (r: Option<u128>)
    ensures
        balance_total(params@.tokens) <= u128::MAX ==> r == Some(balance_total(params@.tokens) as u128),
        balance_total(params@.tokens) > u128::MAX ==> r is None,
{
    let ghost ts = params@.tokens;
    let n = params.pool_data.len();
    let mut total: u128 = 0;
    for i in 0..n
        invariant
            n == ts.len(),
            ts == params@.tokens,
            total == balance_total(ts.take(i as int)),
    {
        assert(ts.take(i + 1).drop_last() =~= ts.take(i as int));
        assert(ts[i as int] == params.pool_data@[i as int]@);
        match total.checked_add(params.pool_data[i].balance) {
            Some(t) => {
                total = t;
            },
            None => {
                proof {
                    lemma_balance_total_prefix(ts, i + 1);
                }
                return None;
            },
        }
    }
    assert(ts.take(n as int) =~= ts);
    Some(total)
}

/// A prefix of the tokens has at most the total balance of all of them.
pub proof fn lemma_balance_total_prefix(ts: Seq<TokenView>, k: int)
    requires
        0 <= k <= ts.len(),
    ensures
        balance_total(ts.take(k)) <= balance_total(ts),
        balance_total(ts.take(k)) >= 0,
    decreases ts.len(),
{
    if ts.len() > 0 {
        if k == ts.len() {
            assert(ts.take(k) =~= ts);
            lemma_balance_total_prefix(ts.drop_last(), k - 1);
            assert(ts.drop_last().take(k - 1) =~= ts.drop_last());
        } else {
            lemma_balance_total_prefix(ts.drop_last(), k);
            assert(ts.drop_last().take(k) =~= ts.take(k));
        }
    } else {
        assert(ts.take(k) =~= ts);
    }
}

impl SwapPoolState {
    /// A pool canister with no pools and no balances.
    pub fn new() -> (r: SwapPoolState)
        ensures
            pool_lists(r) == Map::<Seq<u8>, Seq<PoolView>>::empty(),
            r.pool_balance@ == Map::<Seq<u8>, u128>::empty(),
            r.pool_data.key_seq() == Seq::<Seq<u8>>::empty(),
            r.pool_balance.key_seq() == Seq::<Seq<u8>>::empty(),
    {
        let r = SwapPoolState { pool_data: SortedMap::new(), pool_balance: SortedMap::new() };
        assert(pool_lists(r) =~= Map::<Seq<u8>, Seq<PoolView>>::empty());
        r
    }

    /// Adds the balances of the pool's tokens to the user's balance. The
    /// anonymous user and a pool without tokens are ignored; a balance that
    /// would not fit in 128 bits is refused with `OverflowError`.
    pub fn pool_balance(&mut self, user: &PrincipalId, params: &Pool_Data) -> (r: Result<(), SwapError>)
        ensures
            user@ == anonymous_bytes() || params@.tokens.len() == 0 ==> (r is Ok && *final(self) == *old(self)),
            user@ != anonymous_bytes() && params@.tokens.len() > 0 && !balance_fits(*old(self), user@, params@)
                ==> (r matches Err(e) && e@ == SwapErrorView::OverflowError && *final(self) == *old(self)),
            user@ != anonymous_bytes() && params@.tokens.len() > 0 && balance_fits(*old(self), user@, params@)
                ==> (r is Ok && final(self).pool_balance@ == old(self).pool_balance@.insert(
                user@,
                (value_or_zero(old(self).pool_balance@, user@) + balance_total(params@.tokens)) as u128,
            ) && final(self).pool_data == old(self).pool_data),
    {
        if user.is_anonymous() || params.pool_data.len() == 0 {
            return Ok(());
        }
        proof {
            lemma_balance_total_prefix(params@.tokens, params@.tokens.len() as int);
            assert(params@.tokens.take(params@.tokens.len() as int) =~= params@.tokens);
        }
        let total = match checked_balance_total(params) {
            Some(t) => t,
            None => {
                return Err(SwapError::OverflowError);
            },
        };
        let current: u128 = match self.pool_balance.get(user) {
            Some(b) => *b,
            None => 0,
        };
        match current.checked_add(total) {
            Some(b) => {
                self.pool_balance.insert(user.clone_key(), b);
                Ok(())
            },
            None => Err(SwapError::OverflowError),
        }
    }

    /// The balance the user holds; `None` for the anonymous user or a user
    /// with no balance.
    pub fn get_pool_balance(&self, user: &PrincipalId) -> (r: Option<u128>)
        ensures
            user@ == anonymous_bytes() ==> r is None,
            user@ != anonymous_bytes() && self.pool_balance@.contains_key(user@) ==> r == Some(
                self.pool_balance@[user@],
            ),
            user@ != anonymous_bytes() && !self.pool_balance@.contains_key(user@) ==> r is None,
    {
        if user.is_anonymous() {
            return None;
        }
        match self.pool_balance.get(user) {
            Some(b) => Some(*b),
            None => None,
        }
    }

    /// Records the pool for the user after checking the request (see
    /// `check_pool_request`): the pool's balances are added to the user's
    /// balance (see `pool_balance`) and the pool is appended to the user's
    /// pools. Nothing changes where it is refused.
    pub fn store_pool_data(&mut self, user: &PrincipalId, params: Pool_Data) -> (r: Result<(), String>)
        ensures
            request_error(user@, params@) matches Some(m) ==> (r matches Err(e) && e@ == m && *final(self)
                == *old(self)),
            request_error(user@, params@) is None && !balance_fits(*old(self), user@, params@) ==> (r matches Err(
                e,
            ) && e@ == swap_error_text(SwapErrorView::OverflowError) && *final(self) == *old(self)),
            request_error(user@, params@) is None && balance_fits(*old(self), user@, params@) ==> {
                &&& r is Ok
                &&& final(self).pool_balance@ == old(self).pool_balance@.insert(
                    user@,
                    (value_or_zero(old(self).pool_balance@, user@) + balance_total(params@.tokens)) as u128,
                )
                &&& pool_lists(*final(self)) == pool_lists(*old(self)).insert(
                    user@,
                    pools_of(*old(self), user@).push(params@),
                )
            },
    {
        check_pool_request(user, &params)?;
        match self.pool_balance(user, &params) {
            Ok(()) => {},
            Err(e) => {
                return Err(e.describe());
            },
        }
        let ghost p = params@;
        let mut pools = match self.pool_data.remove(user) {
            Some(v) => v,
            None => Vec::new(),
        };
        assert(pools_view(pools@) == pools_of(*old(self), user@));
        pools.push(params);
        assert(pools_view(pools@) =~= pools_of(*old(self), user@).push(p));
        self.pool_data.insert(user.clone_key(), pools);
        assert(pool_lists(*self) =~= pool_lists(*old(self)).insert(user@, pools_of(*old(self), user@).push(p)));
        Ok(())
    }

    /// Adds liquidity for the user: the same checks and the same effect as
    /// `store_pool_data`, whether or not the user has pools already.
    pub fn add_liquidity_to_pool(&mut self, user: &PrincipalId, params: Pool_Data) -> (r: Result<(), String>)
        ensures
            request_error(user@, params@) matches Some(m) ==> (r matches Err(e) && e@ == m && *final(self)
                == *old(self)),
            request_error(user@, params@) is None && !balance_fits(*old(self), user@, params@) ==> (r matches Err(
                e,
            ) && e@ == swap_error_text(SwapErrorView::OverflowError) && *final(self) == *old(self)),
            request_error(user@, params@) is None && balance_fits(*old(self), user@, params@) ==> {
                &&& r is Ok
                &&& final(self).pool_balance@ == old(self).pool_balance@.insert(
                    user@,
                    (value_or_zero(old(self).pool_balance@, user@) + balance_total(params@.tokens)) as u128,
                )
                &&& pool_lists(*final(self)) == pool_lists(*old(self)).insert(
                    user@,
                    pools_of(*old(self), user@).push(params@),
                )
            },
    {
        self.store_pool_data(user, params)
    }
}

/// Whether the share of every token in a burn of `t` fits in 128 bits.
pub open spec fn burn_amounts_fit(ts: Seq<TokenView>, t: u128) -> bool {
    forall|i: int| 0 <= i < ts.len() ==> (#[trigger] ts[i]).weight * t * 100 <= u128::MAX
}

/// What each token of the pool pays out for a burn of `t` LP tokens (see
/// `burned_amount`), after checking the request (see
/// `check_pool_request`); an amount that does not fit in 128 bits gives
/// the text of `OverflowError`.
pub fn get_burned_tokens(params: &Pool_Data, user: &PrincipalId, tokens_to_transfer: u128) -> (r: Result<
    Vec<u128>,
    String,
>)
    ensures
        request_error(user@, params@) matches Some(m) ==> (r matches Err(e) && e@ == m),
        request_error(user@, params@) is None && !burn_amounts_fit(params@.tokens, tokens_to_transfer) ==> (r matches Err(
            e,
        ) && e@ == swap_error_text(SwapErrorView::OverflowError)),
        request_error(user@, params@) is None && burn_amounts_fit(params@.tokens, tokens_to_transfer) ==> (r matches Ok(
            v,
        ) && v@.len() == params@.tokens.len() && forall|i: int|
            0 <= i < v@.len() ==> #[trigger] v@[i] == burned_amount(
                params@.tokens[i].weight as int,
                tokens_to_transfer as int,
            )),
{
    match check_pool_request(user, params) {
        Err(m) => {
            return Err(m);
        },
        Ok(()) => {},
    }
    let ghost ts = params@.tokens;
    let n = params.pool_data.len();
    let mut out: Vec<u128> = Vec::new();
    for i in 0..n
        invariant
            n == ts.len(),
            ts == params@.tokens,
            request_error(user@, params@) is None,
            out@.len() == i,
            forall|j: int| 0 <= j < i ==> (#[trigger] ts[j]).weight * tokens_to_transfer * 100 <= u128::MAX,
            forall|j: int|
                0 <= j < i ==> #[trigger] out@[j] == burned_amount(ts[j].weight as int, tokens_to_transfer as int),
    {
        assert(ts[i as int] == params.pool_data@[i as int]@);
        match burned_token_amount(params.pool_data[i].weight, tokens_to_transfer) {
            Some(a) => {
                out.push(a);
            },
            None => {
                return Err(SwapError::OverflowError.describe());
            },
        }
    }
    Ok(out)
}

/// The transfers a burn of `t` LP tokens makes to the user: for each token
/// of the pool, in order, its ledger and exactly the amount that
/// `get_burned_tokens` gives for it; the same refusals as
/// `get_burned_tokens`.
pub fn burn_tokens_plan(params: &Pool_Data, user: &PrincipalId, tokens_to_transfer: u128) -> (r: Result<
    Vec<(PrincipalId, u128)>,
    String,
>)
    ensures
        request_error(user@, params@) matches Some(m) ==> (r matches Err(e) && e@ == m),
        request_error(user@, params@) is None && !burn_amounts_fit(params@.tokens, tokens_to_transfer) ==> (r matches Err(
            e,
        ) && e@ == swap_error_text(SwapErrorView::OverflowError)),
        request_error(user@, params@) is None && burn_amounts_fit(params@.tokens, tokens_to_transfer) ==> (r matches Ok(
            v,
        ) && v@.len() == params@.tokens.len() && forall|i: int|
            0 <= i < v@.len() ==> (#[trigger] v@[i]).0@ == params@.tokens[i].ledger && v@[i].1 == burned_amount(
                params@.tokens[i].weight as int,
                tokens_to_transfer as int,
            )),
{
    let amounts = match get_burned_tokens(params, user, tokens_to_transfer) {
        Err(m) => {
            return Err(m);
        },
        Ok(a) => a,
    };
    let n = amounts.len();
    let mut out: Vec<(PrincipalId, u128)> = Vec::new();
    for i in 0..n
        invariant
            n == amounts@.len(),
            n == params@.tokens.len(),
            forall|j: int|
                0 <= j < n ==> #[trigger] amounts@[j] == burned_amount(
                    params@.tokens[j].weight as int,
                    tokens_to_transfer as int,
                ),
            out@.len() == i,
            forall|j: int|
                0 <= j < i ==> (#[trigger] out@[j]).0@ == params@.tokens[j].ledger && out@[j].1 == burned_amount(
                    params@.tokens[j].weight as int,
                    tokens_to_transfer as int,
                ),
    {
        assert(params.pool_data@[i as int]@ == params@.tokens[i as int]);
        out.push((params.pool_data[i].ledger_canister_id.clone_key(), amounts[i]));
    }
    Ok(out)
}

/// The message of a transfer that failed while burning: "Token transfer
/// failed for ", the token's name, " for user ", the user's principal and
/// ": " with the reason.
pub fn burn_failure_message(token_name: &str, user: &PrincipalId, reason: &str) -> (r: String)
    ensures
        r@ == "Token transfer failed for "@ + token_name@ + " for user "@ + spec_principal_text(user@) + ": "@
            + reason@,
{
    let mut m = text("Token transfer failed for ");
    push_text(&mut m, token_name);
    push_text(&mut m, " for user ");
    push_text(&mut m, user.to_text().as_str());
    push_text(&mut m, ": ");
    push_text(&mut m, reason);
    m
}

/// The message of a transfer that failed while rolling back: "Rollback
/// failed for user ", the user's principal, " on token ", the token's name
/// and ": " with the reason.
pub fn rollback_failure_message(user: &PrincipalId, token_name: &str, reason: &str) -> (r: String)
    ensures
        r@ == "Rollback failed for user "@ + spec_principal_text(user@) + " on token "@ + token_name@ + ": "@
            + reason@,
{
    let mut m = text("Rollback failed for user ");
    push_text(&mut m, user.to_text().as_str());
    push_text(&mut m, " on token ");
    push_text(&mut m, token_name);
    push_text(&mut m, ": ");
    push_text(&mut m, reason);
    m
}

/// The balance of a token after a swap that takes `d1` from each token
/// named `a` and adds `d2` to each token named `b`.
pub open spec fn swapped_balance(t: TokenView, a: Seq<char>, b: Seq<char>, d1: int, d2: int) -> int {
    let after_in = if t.name == a {
        t.balance - d1
    } else {
        t.balance as int
    };
    if t.name == b {
        after_in + d2
    } else {
        after_in
    }
}

/// The token after the swap.
pub open spec fn swap_token(t: TokenView, a: Seq<char>, b: Seq<char>, d1: int, d2: int) -> TokenView {
    TokenView {
        name: t.name,
        balance: swapped_balance(t, a, b, d1, d2) as u128,
        weight: t.weight,
        value: t.value,
        ledger: t.ledger,
        image: t.image,
    }
}

/// The pool after the swap.
pub open spec fn swap_pool_view(p: PoolView, a: Seq<char>, b: Seq<char>, d1: int, d2: int) -> PoolView {
    PoolView { tokens: p.tokens.map_values(|t: TokenView| swap_token(t, a, b, d1, d2)), swap_fee: p.swap_fee }
}

/// The pools after the swap.
pub open spec fn swap_pools(ps: Seq<PoolView>, a: Seq<char>, b: Seq<char>, d1: int, d2: int) -> Seq<PoolView> {
    ps.map_values(|p: PoolView| swap_pool_view(p, a, b, d1, d2))
}

/// Whether the token is named `a` and holds less than `d1`.
pub open spec fn token_short(t: TokenView, a: Seq<char>, d1: int) -> bool {
    t.name == a && t.balance < d1
}

/// Whether the token is named `b` and its balance after the swap does not
/// fit in 128 bits.
pub open spec fn token_overflows(t: TokenView, a: Seq<char>, b: Seq<char>, d1: int, d2: int) -> bool {
    t.name == b && swapped_balance(t, a, b, d1, d2) > u128::MAX
}

/// Whether some token of the pool is short.
pub open spec fn pool_short(p: PoolView, a: Seq<char>, d1: int) -> bool {
    exists|j: int| 0 <= j < p.tokens.len() && token_short(#[trigger] p.tokens[j], a, d1)
}

/// Whether some token of the pool is named `name`.
pub open spec fn pool_holds(p: PoolView, name: Seq<char>) -> bool {
    exists|j: int| 0 <= j < p.tokens.len() && (#[trigger] p.tokens[j]).name == name
}

/// Whether some token of the pool overflows.
pub open spec fn pool_overflows(p: PoolView, a: Seq<char>, b: Seq<char>, d1: int, d2: int) -> bool {
    exists|j: int| 0 <= j < p.tokens.len() && token_overflows(#[trigger] p.tokens[j], a, b, d1, d2)
}

/// Whether some token of the pools is short.
pub open spec fn pools_short(ps: Seq<PoolView>, a: Seq<char>, d1: int) -> bool {
    exists|i: int| 0 <= i < ps.len() && pool_short(#[trigger] ps[i], a, d1)
}

/// Whether some token of the pools is named `name`.
pub open spec fn pools_hold(ps: Seq<PoolView>, name: Seq<char>) -> bool {
    exists|i: int| 0 <= i < ps.len() && pool_holds(#[trigger] ps[i], name)
}

/// Whether some token of the pools overflows.
pub open spec fn pools_overflow(ps: Seq<PoolView>, a: Seq<char>, b: Seq<char>, d1: int, d2: int) -> bool {
    exists|i: int| 0 <= i < ps.len() && pool_overflows(#[trigger] ps[i], a, b, d1, d2)
}

/// The first user, in the order of `ks`, who has a short token.
pub open spec fn first_short_user(ks: Seq<Seq<u8>>, lists: Map<Seq<u8>, Seq<PoolView>>, a: Seq<char>, d1: int) -> Option<
    Seq<u8>,
>
    decreases ks.len(),
{
    if ks.len() == 0 {
        None
    } else {
        match first_short_user(ks.drop_last(), lists, a, d1) {
            Some(u) => Some(u),
            None => if pools_short(lists[ks.last()], a, d1) {
                Some(ks.last())
            } else {
                None
            },
        }
    }
}

/// Whether some user of `ks` has a token named `name`.
pub open spec fn users_hold(ks: Seq<Seq<u8>>, lists: Map<Seq<u8>, Seq<PoolView>>, name: Seq<char>) -> bool {
    exists|i: int| 0 <= i < ks.len() && pools_hold(lists[#[trigger] ks[i]], name)
}

/// Whether some user of `ks` has a token that overflows.
pub open spec fn users_overflow(
    ks: Seq<Seq<u8>>,
    lists: Map<Seq<u8>, Seq<PoolView>>,
    a: Seq<char>,
    b: Seq<char>,
    d1: int,
    d2: int,
) -> bool {
    exists|i: int| 0 <= i < ks.len() && pools_overflow(lists[#[trigger] ks[i]], a, b, d1, d2)
}

/// The share of the swap that each user's tokens give and take: the
/// amount paid in and the amount paid out, each divided by the number of
/// users.
pub open spec fn swap_shares(s: SwapPoolState, token_amount: u128, amount: u128) -> (int, int) {
    let n = s.pool_data.key_seq().len() as int;
    ((token_amount as int) / n, (amount as int) / n)
}

/// Why a swap of `token_amount` of the token named `a` for `amount` of the
/// token named `b` is refused, if it is: there are no users; a user (the
/// first in order) has a token named `a` holding less than their share;
/// no token is named `a`; no token is named `b`; or a balance would not
/// fit in 128 bits.
pub open spec fn swap_error(s: SwapPoolState, a: Seq<char>, b: Seq<char>, token_amount: u128, amount: u128) -> Option<
    Seq<char>,
> {
    let ks = s.pool_data.key_seq();
    let lists = pool_lists(s);
    let (d1, d2) = swap_shares(s, token_amount, amount);
    if ks.len() == 0 {
        Some("No pool data found."@)
    } else {
        match first_short_user(ks, lists, a, d1) {
            Some(u) => Some("User "@ + spec_principal_debug(u) + " has insufficient balance for token "@ + a),
            None => if !users_hold(ks, lists, a) {
                Some("Insufficient balance."@)
            } else if !users_hold(ks, lists, b) {
                Some("Insufficient liquidity."@)
            } else if users_overflow(ks, lists, a, b, d1, d2) {
                Some(swap_error_text(SwapErrorView::OverflowError))
            } else {
                None
            },
        }
    }
}

/// Whether two names are the same.
fn same_name(x: &String, y: &String) -> (r: bool)
    ensures
        r == (x@ == y@),
{
    compare_str(x.as_str(), y.as_str()) == KeyOrder::Equal
}

/// What a pool shows of the swap: whether a token is short, whether a
/// token is named `a`, whether a token is named `b`, and whether a token
/// overflows.
fn scan_pool(p: &Pool_Data, a: &String, b: &String, d1: u128, d2: u128) -> (r: (bool, bool, bool, bool))
    ensures
        r.0 == pool_short(p@, a@, d1 as int),
        r.1 == pool_holds(p@, a@),
        r.2 == pool_holds(p@, b@),
        r.3 == pool_overflows(p@, a@, b@, d1 as int, d2 as int),
{
    let ghost ts = p@.tokens;
    let n = p.pool_data.len();
    let mut short = false;
    let mut has_a = false;
    let mut has_b = false;
    let mut over = false;
    for j in 0..n
        invariant
            n == ts.len(),
            ts == p@.tokens,
            short == exists|k: int| 0 <= k < j && token_short(#[trigger] ts[k], a@, d1 as int),
            has_a == exists|k: int| 0 <= k < j && (#[trigger] ts[k]).name == a@,
            has_b == exists|k: int| 0 <= k < j && (#[trigger] ts[k]).name == b@,
            over == exists|k: int| 0 <= k < j && token_overflows(#[trigger] ts[k], a@, b@, d1 as int, d2 as int),
    {
        let t = &p.pool_data[j];
        assert(ts[j as int] == t@);
        let is_a = same_name(&t.token_name, a);
        let is_b = same_name(&t.token_name, b);
        let mut this_short = false;
        let mut this_over = false;
        let mut after_in: u128 = t.balance;
        if is_a {
            if t.balance < d1 {
                this_short = true;
            } else {
                after_in = t.balance - d1;
            }
        }
        if is_b && !this_short {
            if after_in.checked_add(d2).is_none() {
                this_over = true;
            }
        }
        assert(this_short == token_short(ts[j as int], a@, d1 as int));
        assert(this_over == token_overflows(ts[j as int], a@, b@, d1 as int, d2 as int));
        short = short || this_short;
        has_a = has_a || is_a;
        has_b = has_b || is_b;
        over = over || this_over;
    }
    (short, has_a, has_b, over)
}

/// What a list of pools shows of the swap (see `scan_pool`).
fn scan_pools(ps: &Vec<Pool_Data>, a: &String, b: &String, d1: u128, d2: u128) -> (r: (bool, bool, bool, bool))
    ensures
        r.0 == pools_short(pools_view(ps@), a@, d1 as int),
        r.1 == pools_hold(pools_view(ps@), a@),
        r.2 == pools_hold(pools_view(ps@), b@),
        r.3 == pools_overflow(pools_view(ps@), a@, b@, d1 as int, d2 as int),
{
    let ghost vs = pools_view(ps@);
    let n = ps.len();
    let mut short = false;
    let mut has_a = false;
    let mut has_b = false;
    let mut over = false;
    for i in 0..n
        invariant
            n == vs.len(),
            vs == pools_view(ps@),
            short == exists|k: int| 0 <= k < i && pool_short(#[trigger] vs[k], a@, d1 as int),
            has_a == exists|k: int| 0 <= k < i && pool_holds(#[trigger] vs[k], a@),
            has_b == exists|k: int| 0 <= k < i && pool_holds(#[trigger] vs[k], b@),
            over == exists|k: int| 0 <= k < i && pool_overflows(#[trigger] vs[k], a@, b@, d1 as int, d2 as int),
    {
        assert(vs[i as int] == ps@[i as int]@);
        let (s1, h1, h2, o1) = scan_pool(&ps[i], a, b, d1, d2);
        short = short || s1;
        has_a = has_a || h1;
        has_b = has_b || h2;
        over = over || o1;
    }
    (short, has_a, has_b, over)
}

/// The token after the swap.
fn swap_token_params(t: &CreatePoolParams, a: &String, b: &String, d1: u128, d2: u128) -> (r: CreatePoolParams)
    requires
        !token_short(t@, a@, d1 as int),
        !token_overflows(t@, a@, b@, d1 as int, d2 as int),
    ensures
        r@ == swap_token(t@, a@, b@, d1 as int, d2 as int),
{
    let mut r = t.duplicate();
    if same_name(&t.token_name, a) {
        r.balance = r.balance - d1;
    }
    if same_name(&t.token_name, b) {
        r.balance = r.balance + d2;
    }
    r
}

/// The pool after the swap.
fn swap_pool_params(p: &Pool_Data, a: &String, b: &String, d1: u128, d2: u128) -> (r: Pool_Data)
    requires
        !pool_short(p@, a@, d1 as int),
        !pool_overflows(p@, a@, b@, d1 as int, d2 as int),
    ensures
        r@ == swap_pool_view(p@, a@, b@, d1 as int, d2 as int),
{
    let ghost ts = p@.tokens;
    let n = p.pool_data.len();
    let mut out: Vec<CreatePoolParams> = Vec::new();
    for j in 0..n
        invariant
            n == ts.len(),
            ts == p@.tokens,
            !pool_short(p@, a@, d1 as int),
            !pool_overflows(p@, a@, b@, d1 as int, d2 as int),
            out@.len() == j,
            forall|k: int| 0 <= k < j ==> (#[trigger] out@[k])@ == swap_token(ts[k], a@, b@, d1 as int, d2 as int),
    {
        assert(ts[j as int] == p.pool_data@[j as int]@);
        assert(!token_short(ts[j as int], a@, d1 as int));
        assert(!token_overflows(ts[j as int], a@, b@, d1 as int, d2 as int));
        out.push(swap_token_params(&p.pool_data[j], a, b, d1, d2));
    }
    let r = Pool_Data { pool_data: out, swap_fee: p.swap_fee };
    assert(r@.tokens =~= ts.map_values(|t: TokenView| swap_token(t, a@, b@, d1 as int, d2 as int)));
    r
}

/// The pools after the swap.
fn swap_pool_list(ps: &Vec<Pool_Data>, a: &String, b: &String, d1: u128, d2: u128) -> (r: Vec<Pool_Data>)
    requires
        !pools_short(pools_view(ps@), a@, d1 as int),
        !pools_overflow(pools_view(ps@), a@, b@, d1 as int, d2 as int),
    ensures
        pools_view(r@) == swap_pools(pools_view(ps@), a@, b@, d1 as int, d2 as int),
{
    let ghost vs = pools_view(ps@);
    let n = ps.len();
    let mut out: Vec<Pool_Data> = Vec::new();
    for i in 0..n
        invariant
            n == vs.len(),
            vs == pools_view(ps@),
            !pools_short(vs, a@, d1 as int),
            !pools_overflow(vs, a@, b@, d1 as int, d2 as int),
            out@.len() == i,
            forall|k: int| 0 <= k < i ==> (#[trigger] out@[k])@ == swap_pool_view(vs[k], a@, b@, d1 as int, d2 as int),
    {
        assert(vs[i as int] == ps@[i as int]@);
        assert(!pool_short(vs[i as int], a@, d1 as int));
        assert(!pool_overflows(vs[i as int], a@, b@, d1 as int, d2 as int));
        out.push(swap_pool_params(&ps[i], a, b, d1, d2));
    }
    assert(pools_view(out@) =~= swap_pools(vs, a@, b@, d1 as int, d2 as int));
    out
}

/// Checks a swap before any token moves: the user is not anonymous, both
/// token names are not blank, and the amount is not zero.
pub fn swap_precheck(user: &PrincipalId, params: &SwapParams, amount: u128) -> (r: Result<(), String>)
    ensures
        user@ == anonymous_bytes() ==> (r matches Err(m) && m@ == anonymous_message()),
        user@ != anonymous_bytes() && (is_blank(params.token1_name@) || is_blank(params.token2_name@)) ==> (r matches Err(
            m,
        ) && m@ == "Invalid SwapParams: Token names cannot be empty."@),
        user@ != anonymous_bytes() && !is_blank(params.token1_name@) && !is_blank(params.token2_name@) && amount
            == 0 ==> (r matches Err(m) && m@ == "Transfer amount must be greater than zero."@),
        user@ != anonymous_bytes() && !is_blank(params.token1_name@) && !is_blank(params.token2_name@) && amount
            > 0 ==> r is Ok,
{
    if user.is_anonymous() {
        return Err(text("Invalid user principal: Cannot be anonymous."));
    }
    if trims_to_empty(params.token1_name.as_str()) || trims_to_empty(params.token2_name.as_str()) {
        return Err(text("Invalid SwapParams: Token names cannot be empty."));
    }
    if amount == 0 {
        return Err(text("Transfer amount must be greater than zero."));
    }
    Ok(())
}

/// The message of a failed transfer to the user in a swap: "Token transfer
/// failed for user ", the user's principal, ": " and the error as `{:?}`
/// writes it.
pub fn swap_transfer_failure(user: &PrincipalId, error_debug: &str) -> (r: String)
    ensures
        r@ == "Token transfer failed for user "@ + spec_principal_text(user@) + ": "@ + error_debug@,
{
    let mut m = text("Token transfer failed for user ");
    push_text(&mut m, user.to_text().as_str());
    push_text(&mut m, ": ");
    push_text(&mut m, error_debug);
    m
}

impl SwapPoolState {
    /// Applies a swap of `params.token_amount` of the token named
    /// `token1_name` for `amount` of the token named `token2_name` across
    /// the pools of all users: each token named `token1_name` gives the
    /// amount paid in divided by the number of users, and each token named
    /// `token2_name` takes the amount paid out divided by the number of
    /// users. Where `swap_error` refuses the swap, nothing changes.
    pub fn apply_swap(&mut self, params: &SwapParams, amount: u128) -> (r: Result<(), String>)
        ensures
            swap_error(*old(self), params.token1_name@, params.token2_name@, params.token_amount, amount) matches Some(
                m,
            ) ==> (r matches Err(e) && e@ == m && *final(self) == *old(self)),
            swap_error(*old(self), params.token1_name@, params.token2_name@, params.token_amount, amount) is None
                ==> {
                let (d1, d2) = swap_shares(*old(self), params.token_amount, amount);
                &&& r is Ok
                &&& pool_lists(*final(self)) == pool_lists(*old(self)).map_values(
                    |ps: Seq<PoolView>| swap_pools(ps, params.token1_name@, params.token2_name@, d1, d2),
                )
                &&& final(self).pool_balance == old(self).pool_balance
            },
    {
        let n = self.pool_data.len();
        if n == 0 {
            return Err(text("No pool data found."));
        }
        let ghost ks = self.pool_data.key_seq();
        let ghost lists = pool_lists(*self);
        let ghost a = params.token1_name@;
        let ghost b = params.token2_name@;
        let count = n as u128;
        let d1 = params.token_amount / count;
        let d2 = amount / count;
        let mut has_a = false;
        let mut has_b = false;
        let mut over = false;
        assert(d1 as int == swap_shares(*self, params.token_amount, amount).0);
        assert(d2 as int == swap_shares(*self, params.token_amount, amount).1);
        for i in 0..n
            invariant
                n == ks.len(),
                *self == *old(self),
                d1 as int == swap_shares(*self, params.token_amount, amount).0,
                d2 as int == swap_shares(*self, params.token_amount, amount).1,
                ks == self.pool_data.key_seq(),
                lists == pool_lists(*self),
                a == params.token1_name@,
                b == params.token2_name@,
                forall|k: Seq<u8>| #[trigger] self.pool_data@.contains_key(k) <==> ks.contains(k),
                first_short_user(ks.take(i as int), lists, a, d1 as int) is None,
                has_a == users_hold(ks.take(i as int), lists, a),
                has_b == users_hold(ks.take(i as int), lists, b),
                over == users_overflow(ks.take(i as int), lists, a, b, d1 as int, d2 as int),
        {
            let user = self.pool_data.key_at(i);
            let pools = self.pool_data.value_at(i);
            let ghost k = ks[i as int];
            assert(pools_view(pools@) == lists[k]);
            let (short, h1, h2, o1) = scan_pools(pools, &params.token1_name, &params.token2_name, d1, d2);
            let ghost pre = ks.take(i as int);
            let ghost post = ks.take(i + 1);
            assert(post.drop_last() =~= pre);
            assert(post.last() == k);
            if short {
                let mut m = text("User ");
                push_text(&mut m, user.debug_text().as_str());
                push_text(&mut m, " has insufficient balance for token ");
                push_text(&mut m, params.token1_name.as_str());
                proof {
                    lemma_first_short_prefix(ks, lists, a, d1 as int, i + 1);
                }
                return Err(m);
            }
            assert(users_hold(post, lists, a) == (users_hold(pre, lists, a) || h1)) by {
                if h1 {
                    assert(pools_hold(lists[post[i as int]], a));
                }
                if users_hold(post, lists, a) && !h1 {
                    let w = choose|w: int| 0 <= w < post.len() && pools_hold(lists[#[trigger] post[w]], a);
                    assert(w < i);
                    assert(pre[w] == post[w]);
                }
                if users_hold(pre, lists, a) {
                    let w = choose|w: int| 0 <= w < pre.len() && pools_hold(lists[#[trigger] pre[w]], a);
                    assert(pre[w] == post[w]);
                }
            }
            assert(users_hold(post, lists, b) == (users_hold(pre, lists, b) || h2)) by {
                if h2 {
                    assert(pools_hold(lists[post[i as int]], b));
                }
                if users_hold(post, lists, b) && !h2 {
                    let w = choose|w: int| 0 <= w < post.len() && pools_hold(lists[#[trigger] post[w]], b);
                    assert(w < i);
                    assert(pre[w] == post[w]);
                }
                if users_hold(pre, lists, b) {
                    let w = choose|w: int| 0 <= w < pre.len() && pools_hold(lists[#[trigger] pre[w]], b);
                    assert(pre[w] == post[w]);
                }
            }
            assert(users_overflow(post, lists, a, b, d1 as int, d2 as int) == (users_overflow(
                pre,
                lists,
                a,
                b,
                d1 as int,
                d2 as int,
            ) || o1)) by {
                if o1 {
                    assert(pools_overflow(lists[post[i as int]], a, b, d1 as int, d2 as int));
                }
                if users_overflow(post, lists, a, b, d1 as int, d2 as int) && !o1 {
                    let w = choose|w: int|
                        0 <= w < post.len() && pools_overflow(lists[#[trigger] post[w]], a, b, d1 as int, d2 as int);
                    assert(w < i);
                    assert(pre[w] == post[w]);
                }
                if users_overflow(pre, lists, a, b, d1 as int, d2 as int) {
                    let w = choose|w: int|
                        0 <= w < pre.len() && pools_overflow(lists[#[trigger] pre[w]], a, b, d1 as int, d2 as int);
                    assert(pre[w] == post[w]);
                }
            }
            has_a = has_a || h1;
            has_b = has_b || h2;
            over = over || o1;
        }
        assert(ks.take(n as int) =~= ks);
        if !has_a {
            return Err(text("Insufficient balance."));
        }
        if !has_b {
            return Err(text("Insufficient liquidity."));
        }
        if over {
            return Err(SwapError::OverflowError.describe());
        }
        proof {
            lemma_no_short_user(ks, lists, a, d1 as int);
        }
        let mut swapped: SortedMap<PrincipalId, Vec<Pool_Data>> = SortedMap::new();
        for i in 0..n
            invariant
                n == ks.len(),
                ks == self.pool_data.key_seq(),
                lists == pool_lists(*self),
                a == params.token1_name@,
                b == params.token2_name@,
                forall|k: Seq<u8>| #[trigger] self.pool_data@.contains_key(k) <==> ks.contains(k),
                forall|j: int| 0 <= j < n ==> !pools_short(lists[#[trigger] ks[j]], a, d1 as int),
                !users_overflow(ks, lists, a, b, d1 as int, d2 as int),
                forall|k: Seq<u8>| #[trigger] swapped@.contains_key(k) <==> ks.take(i as int).contains(k),
                forall|k: Seq<u8>|
                    #[trigger] swapped@.contains_key(k) ==> pools_view(swapped@[k]@) == swap_pools(
                        lists[k],
                        a,
                        b,
                        d1 as int,
                        d2 as int,
                    ),
        {
            let user = self.pool_data.key_at(i);
            let pools = self.pool_data.value_at(i);
            let ghost k = ks[i as int];
            assert(pools_view(pools@) == lists[k]);
            assert(!pools_short(lists[ks[i as int]], a, d1 as int));
            assert(!pools_overflow(lists[ks[i as int]], a, b, d1 as int, d2 as int));
            let new_pools = swap_pool_list(pools, &params.token1_name, &params.token2_name, d1, d2);
            let ghost before = swapped@;
            assert(forall|kk: Seq<u8>| #[trigger] before.contains_key(kk) <==> ks.take(i as int).contains(kk));
            swapped.insert(user.clone_key(), new_pools);
            assert(user@ == k);
            assert(swapped@ == before.insert(k, new_pools));
            assert forall|kk: Seq<u8>| #[trigger] swapped@.contains_key(kk) <==> ks.take(i + 1).contains(kk) by {
                let t1 = ks.take(i as int);
                let t2 = ks.take(i + 1);
                assert(t2 =~= t1.push(k));
                if kk == k {
                    assert(t2[i as int] == kk);
                } else {
                    if t1.contains(kk) {
                        let w = t1.index_of(kk);
                        assert(t2[w] == kk);
                    }
                    if t2.contains(kk) {
                        let w = t2.index_of(kk);
                        assert(w != i);
                        assert(t1[w] == kk);
                    }
                    assert(swapped@.contains_key(kk) == before.contains_key(kk));
                }
            }
        }
        let ghost target = lists.map_values(|ps: Seq<PoolView>| swap_pools(ps, a, b, d1 as int, d2 as int));
        assert(ks.take(n as int) =~= ks);
        self.pool_data = swapped;
        assert(pool_lists(*self) =~= target);
        Ok(())
    }
}

/// A short user found after a prefix of users none of whom is short is the
/// first short user of all.
pub proof fn lemma_first_short_prefix(
    ks: Seq<Seq<u8>>,
    lists: Map<Seq<u8>, Seq<PoolView>>,
    a: Seq<char>,
    d1: int,
    k: int,
)
    requires
        0 <= k <= ks.len(),
        first_short_user(ks.take(k), lists, a, d1) is Some,
    ensures
        first_short_user(ks, lists, a, d1) == first_short_user(ks.take(k), lists, a, d1),
    decreases ks.len() - k,
{
    if k < ks.len() {
        assert(ks.take(k + 1).drop_last() =~= ks.take(k));
        lemma_first_short_prefix(ks, lists, a, d1, k + 1);
    } else {
        assert(ks.take(k) =~= ks);
    }
}

/// Where no user is the first short user, no user is short.
pub proof fn lemma_no_short_user(ks: Seq<Seq<u8>>, lists: Map<Seq<u8>, Seq<PoolView>>, a: Seq<char>, d1: int)
    requires
        first_short_user(ks, lists, a, d1) is None,
    ensures
        forall|j: int| 0 <= j < ks.len() ==> !pools_short(lists[#[trigger] ks[j]], a, d1),
    decreases ks.len(),
{
    if ks.len() > 0 {
        lemma_no_short_user(ks.drop_last(), lists, a, d1);
        assert forall|j: int| 0 <= j < ks.len() implies !pools_short(lists[#[trigger] ks[j]], a, d1) by {
            if j < ks.len() - 1 {
                assert(ks.drop_last()[j] == ks[j]);
            }
        }
    }
}

/// A swap moves only balances: every user keeps the same pools, every pool
/// the same tokens with the same names, weights, values, ledgers and
/// images and the same swap fee; a token named `a` gives `d1`, a token
/// named `b` takes `d2`, and every other token keeps its balance.
pub proof fn lemma_swap_moves_only_balances(ps: Seq<PoolView>, a: Seq<char>, b: Seq<char>, d1: int, d2: int)
    requires
        !pools_short(ps, a, d1),
        !pools_overflow(ps, a, b, d1, d2),
        d1 >= 0,
        d2 >= 0,
    ensures
        swap_pools(ps, a, b, d1, d2).len() == ps.len(),
        forall|i: int|
            0 <= i < ps.len() ==> {
                let p = #[trigger] ps[i];
                let q = swap_pools(ps, a, b, d1, d2)[i];
                &&& q.swap_fee == p.swap_fee
                &&& q.tokens.len() == p.tokens.len()
                &&& forall|j: int|
                    0 <= j < p.tokens.len() ==> {
                        let t = #[trigger] p.tokens[j];
                        let u = q.tokens[j];
                        &&& u.name == t.name
                        &&& u.weight == t.weight
                        &&& u.value == t.value
                        &&& u.ledger == t.ledger
                        &&& u.image == t.image
                        &&& u.balance == t.balance - (if t.name == a {
                            d1
                        } else {
                            0
                        }) + (if t.name == b {
                            d2
                        } else {
                            0
                        })
                    }
            },
{
    assert forall|i: int| 0 <= i < ps.len() implies {
        let p = #[trigger] ps[i];
        let q = swap_pools(ps, a, b, d1, d2)[i];
        &&& q.swap_fee == p.swap_fee
        &&& q.tokens.len() == p.tokens.len()
        &&& forall|j: int|
            0 <= j < p.tokens.len() ==> {
                let t = #[trigger] p.tokens[j];
                let u = q.tokens[j];
                &&& u.name == t.name
                &&& u.weight == t.weight
                &&& u.value == t.value
                &&& u.ledger == t.ledger
                &&& u.image == t.image
                &&& u.balance == t.balance - (if t.name == a {
                    d1
                } else {
                    0
                }) + (if t.name == b {
                    d2
                } else {
                    0
                })
            }
    } by {
        let p = ps[i];
        assert(!pool_short(p, a, d1));
        assert(!pool_overflows(p, a, b, d1, d2));
        assert forall|j: int| 0 <= j < p.tokens.len() implies {
            let t = #[trigger] p.tokens[j];
            let u = swap_pools(ps, a, b, d1, d2)[i].tokens[j];
            &&& u.name == t.name
            &&& u.weight == t.weight
            &&& u.value == t.value
            &&& u.ledger == t.ledger
            &&& u.image == t.image
            &&& u.balance == t.balance - (if t.name == a {
                d1
            } else {
                0
            }) + (if t.name == b {
                d2
            } else {
                0
            })
        } by {
            let t = p.tokens[j];
            assert(!token_short(t, a, d1));
            assert(!token_overflows(t, a, b, d1, d2));
        }
    }
}

/// The balance a user is given after `pool_balance` is what a read of the
/// balance gives back, and no other user's balance changes.
pub proof fn lemma_balance_read_back(balances: Map<Seq<u8>, u128>, user: Seq<u8>, other: Seq<u8>, total: u128)
    ensures
        balances.insert(user, total).contains_key(user),
        balances.insert(user, total)[user] == total,
        other != user ==> value_or_zero(balances.insert(user, total), other) == value_or_zero(balances, other),
{
}

} // verus!
