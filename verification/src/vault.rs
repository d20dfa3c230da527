use vstd::prelude::*;

use crate::order::MapKey;
use crate::principal::{anonymous_bytes, spec_principal_text, PrincipalId};
use crate::sorted_map::{lemma_sum_insert, lemma_sum_update, sorted_keys, sum_over, SortedMap};
use crate::text::{is_blank, nat_display, nat_text, push_text, text, trims_to_empty};
use crate::types::{joined_names, pool_defect, CustomError, CustomErrorView, Pool_Data, PoolView};

verus! {

/// The views of a sequence of strings.
pub open spec fn str_views(v: Seq<String>) -> Seq<Seq<char>> {
    v.map_values(|s: String| s@)
}

/// The vault: the LP tokens of each pool and of each user, the pools each
/// user has joined, and the swap fees earned by each user.
pub struct Vault {
    /// The LP tokens of all pools together.
    pub total_lp_supply: u128,
    /// The LP tokens of each pool, by pool name.
    pub pool_lp_share: SortedMap<String, u128>,
    /// The LP tokens last minted to each user.
    pub users_lp: SortedMap<PrincipalId, u128>,
    /// The names of the pools each user has joined.
    pub users_pool: SortedMap<PrincipalId, Vec<String>>,
    /// The LP tokens each user holds in each pool.
    pub users_pool_lp: SortedMap<PrincipalId, SortedMap<String, u128>>,
    /// The swap fees earned, by principal and pool name.
    pub fee_share: SortedMap<PrincipalId, SortedMap<String, u128>>,
}

/// The value of `k` in `m`, or 0.
pub open spec fn value_or_zero<K>(m: Map<K, u128>, k: K) -> u128 {
    if m.contains_key(k) { m[k] } else { 0 }
}

/// Whether the list of pool names holds `name`.
pub fn names_contain(names: &Vec<String>, name: &String) -> (r: bool)
    ensures
        r == str_views(names@).contains(name@),
{
    let n = names.len();
    for i in 0..n
        invariant
            n == names@.len(),
            forall|j: int| 0 <= j < i ==> names@[j]@ != name@,
    {
        if names[i] == *name {
            assert(str_views(names@)[i as int] == name@);
            return true;
        }
    }
    assert(!str_views(names@).contains(name@)) by {
        if str_views(names@).contains(name@) {
            let j = str_views(names@).index_of(name@);
            assert(names@[j]@ == name@);
        }
    }
    false
}

/// The place of the first occurrence of `name` in the list.
pub fn position_of(names: &Vec<String>, name: &String) -> (r: Option<usize>)
    ensures
        r matches Some(i) ==> i < names@.len() && str_views(names@)[i as int] == name@ && forall|j: int|
            0 <= j < i ==> str_views(names@)[j] != name@,
        r is None ==> forall|j: int| 0 <= j < names@.len() ==> str_views(names@)[j] != name@,
{
    let n = names.len();
    for i in 0..n
        invariant
            n == names@.len(),
            forall|j: int| 0 <= j < i ==> str_views(names@)[j] != name@,
    {
        assert(str_views(names@)[i as int] == names@[i as int]@);
        if names[i] == *name {
            return Some(i);
        }
    }
    None
}

/// A copy of a list of names.
pub fn copy_names(names: &Vec<String>) -> (r: Vec<String>)
    ensures
        str_views(r@) == str_views(names@),
{
    let n = names.len();
    let mut out: Vec<String> = Vec::new();
    for i in 0..n
        invariant
            n == names@.len(),
            out@.len() == i,
            forall|j: int| 0 <= j < i ==> (#[trigger] out@[j])@ == names@[j]@,
    {
        out.push(names[i].clone());
    }
    assert(str_views(out@) =~= str_views(names@));
    out
}

impl Vault {
    /// An empty vault.
    pub fn new() -> (r: Vault)
        ensures
            r.total_lp_supply == 0,
            r.pool_lp_share@ == Map::<Seq<char>, u128>::empty(),
            r.users_lp@ == Map::<Seq<u8>, u128>::empty(),
            r.users_pool@ == Map::<Seq<u8>, Vec<String>>::empty(),
            r.users_pool_lp@ == Map::<Seq<u8>, SortedMap<String, u128>>::empty(),
            r.fee_share@ == Map::<Seq<u8>, SortedMap<String, u128>>::empty(),
            r.pool_lp_share.key_seq() == Seq::<Seq<char>>::empty(),
            r.users_lp.key_seq() == Seq::<Seq<u8>>::empty(),
            r.users_pool.key_seq() == Seq::<Seq<u8>>::empty(),
            r.users_pool_lp.key_seq() == Seq::<Seq<u8>>::empty(),
            r.fee_share.key_seq() == Seq::<Seq<u8>>::empty(),
    {
        Vault {
            total_lp_supply: 0,
            pool_lp_share: SortedMap::new(),
            users_lp: SortedMap::new(),
            users_pool: SortedMap::new(),
            users_pool_lp: SortedMap::new(),
            fee_share: SortedMap::new(),
        }
    }

    /// The LP tokens of all pools together.
    pub fn get_total_lp(&self) -> (r: u128)
        ensures
            r == self.total_lp_supply,
    {
        self.total_lp_supply
    }

    /// Sets the total LP supply to the sum of all pools' LP tokens (0 where
    /// there is no pool); a sum that does not fit in 128 bits is refused
    /// and nothing changes.
    pub fn total_lp_tokens(&mut self) -> (r: Result<(), CustomError>)
        ensures
            sum_over::<String>(old(self).pool_lp_share.key_seq(), old(self).pool_lp_share@) <= u128::MAX ==> (r is Ok
                && final(self).total_lp_supply == sum_over::<String>(
                old(self).pool_lp_share.key_seq(),
                old(self).pool_lp_share@,
            ) && final(self).pool_lp_share == old(self).pool_lp_share && final(self).users_lp == old(self).users_lp
                && final(self).users_pool == old(self).users_pool && final(self).users_pool_lp
                == old(self).users_pool_lp && final(self).fee_share == old(self).fee_share),
            sum_over::<String>(old(self).pool_lp_share.key_seq(), old(self).pool_lp_share@) > u128::MAX ==> (r matches Err(
                e,
            ) && e@ == overflow_error() && *final(self) == *old(self)),
    {
        match checked_total(&self.pool_lp_share) {
            Some(total) => {
                self.total_lp_supply = total;
                Ok(())
            },
            None => Err(overflow_error_value()),
        }
    }

    /// The LP tokens of a pool: 0 for a blank name or an unknown pool.
    pub fn get_pool_lp_tokens(&self, pool_name: &String) -> (r: u128)
        ensures
            is_blank(pool_name@) ==> r == 0,
            !is_blank(pool_name@) ==> r == value_or_zero(self.pool_lp_share@, pool_name@),
    {
        if trims_to_empty(pool_name.as_str()) {
            return 0;
        }
        match self.pool_lp_share.get(pool_name) {
            Some(v) => *v,
            None => 0,
        }
    }

    /// The LP tokens last minted to a user: `None` for the anonymous
    /// principal or a user with none.
    pub fn get_users_lp(&self, user: &PrincipalId) -> (r: Option<u128>)
        ensures
            user@ == anonymous_bytes() ==> r is None,
            user@ != anonymous_bytes() ==> (if self.users_lp@.contains_key(user@) {
                r == Some(self.users_lp@[user@])
            } else {
                r is None
            }),
    {
        if user.is_anonymous() {
            return None;
        }
        match self.users_lp.get(user) {
            Some(v) => Some(*v),
            None => None,
        }
    }

    /// The LP tokens a user holds in each pool: `None` for the anonymous
    /// principal or a user with none.
    pub fn get_user_pools_with_lp(&self, user: &PrincipalId) -> (r: Option<SortedMap<String, u128>>)
        ensures
            user@ == anonymous_bytes() ==> r is None,
            user@ != anonymous_bytes() ==> (if self.users_pool_lp@.contains_key(user@) {
                r matches Some(m) && m@ == self.users_pool_lp@[user@]@
            } else {
                r is None
            }),
    {
        if user.is_anonymous() {
            return None;
        }
        match self.users_pool_lp.get(user) {
            Some(m) => Some(m.copied()),
            None => None,
        }
    }

    /// The pools a user has joined: an error for the anonymous principal,
    /// `None` for a user who has joined none.
    pub fn get_users_pool(&self, user: &PrincipalId) -> (r: Result<Option<Vec<String>>, CustomError>)
        ensures
            user@ == anonymous_bytes() ==> (r matches Err(e)
                && e@ == CustomErrorView::InvalidInput("Anonymous principal is not allowed."@)),
            user@ != anonymous_bytes() ==> (if self.users_pool@.contains_key(user@) {
                r matches Ok(Some(v)) && str_views(v@) == str_views(self.users_pool@[user@]@)
            } else {
                r matches Ok(None)
            }),
    {
        if user.is_anonymous() {
            return Err(CustomError::InvalidInput(text("Anonymous principal is not allowed.")));
        }
        match self.users_pool.get(user) {
            Some(v) => Ok(Some(copy_names(v))),
            None => Ok(None),
        }
    }

    /// Adds the pool `name` to the pools of `user`, unless it is there.
    fn join_pool(&mut self, user: &PrincipalId, name: String)
        ensures
            pools_joined(old(self).users_pool@, final(self).users_pool@, user@, name@),
            final(self).total_lp_supply == old(self).total_lp_supply,
            final(self).pool_lp_share == old(self).pool_lp_share,
            final(self).users_lp == old(self).users_lp,
            final(self).users_pool_lp == old(self).users_pool_lp,
            final(self).fee_share == old(self).fee_share,
    {
        let ghost old_map = self.users_pool@;
        let ghost nm = name@;
        match self.users_pool.remove(user) {
            Some(list) => {
                let mut list = list;
                if !names_contain(&list, &name) {
                    list.push(name);
                    assert(str_views(list@) =~= str_views(old_map[user@]@).push(nm));
                }
                self.users_pool.insert(user.clone_key(), list);
            },
            None => {
                let mut list: Vec<String> = Vec::new();
                list.push(name);
                assert(str_views(list@) =~= seq![nm]);
                self.users_pool.insert(user.clone_key(), list);
            },
        }
        assert(self.users_pool@.remove(user@) =~= old_map.remove(user@));
    }

    /// Records that the caller has joined the pool, after validating it.
    pub fn users_pool(&mut self, caller: &PrincipalId, params: &Pool_Data) -> (r: Result<(), CustomError>)
        ensures
            pool_defect(params@) matches Some(e) ==> (r matches Err(err) && err@ == e && *final(self)
                == *old(self)),
            pool_defect(params@) is None ==> {
                &&& r is Ok
                &&& pools_joined(old(self).users_pool@, final(self).users_pool@, caller@, joined_names(params@.tokens))
                &&& final(self).total_lp_supply == old(self).total_lp_supply
                &&& final(self).pool_lp_share == old(self).pool_lp_share
                &&& final(self).users_lp == old(self).users_lp
                &&& final(self).users_pool_lp == old(self).users_pool_lp
                &&& final(self).fee_share == old(self).fee_share
            },
    {
        match params.validate() {
            Err(e) => {
                return Err(e);
            },
            Ok(()) => {},
        }
        let name = params.pool_name();
        self.join_pool(caller, name);
        Ok(())
    }

    /// Mints the LP tokens of a deposit into a pool: after validating the
    /// pool, a thousandth of its worth (the sum of value times balance, or
    /// 0 where a token has a zero balance) is added to the pool's LP tokens
    /// (unless it is 0) and to the caller's LP tokens in the pool; the pool
    /// is added to the caller's pools, and the total LP supply is set to the
    /// sum of all pools' LP tokens.
    pub fn increase_pool_lp_tokens(&mut self, caller: &PrincipalId, params: &Pool_Data) -> (r: Result<
        (),
        CustomError,
    >)
        ensures
            pool_defect(params@) matches Some(e) ==> (r matches Err(err) && err@ == e && *final(self)
                == *old(self)),
            pool_defect(params@) is None && !deposit_fits(*old(self), caller@, params@.tokens) ==> (r matches Err(
                err,
            ) && err@ == overflow_error() && *final(self) == *old(self)),
            pool_defect(params@) is None && deposit_fits(*old(self), caller@, params@.tokens) ==> (r is Ok
                && lp_minted(*old(self), *final(self), caller@, params@.tokens)),
    {
        match params.validate() {
            Err(e) => {
                return Err(e);
            },
            Ok(()) => {},
        }
        let name = params.pool_name();
        let ghost ts = params@.tokens;
        let ghost nm = name@;
        let _n = self.pool_lp_share.len();
        let supply = match checked_pool_supply(params) {
            Some(s) => s,
            None => {
                return Err(overflow_error_value());
            },
        };
        let lp = supply / 1000;
        let old_pool: u128 = match self.pool_lp_share.get(&name) {
            Some(v) => *v,
            None => 0,
        };
        let new_pool: u128 = if supply != 0 {
            match old_pool.checked_add(lp) {
                Some(x) => x,
                None => {
                    return Err(overflow_error_value());
                },
            }
        } else {
            old_pool
        };
        let old_user: u128 = match self.users_pool_lp.get(caller) {
            Some(inner) => match inner.get(&name) {
                Some(v) => *v,
                None => 0,
            },
            None => 0,
        };
        let new_user = match old_user.checked_add(lp) {
            Some(x) => x,
            None => {
                return Err(overflow_error_value());
            },
        };
        let sum_old = match checked_total(&self.pool_lp_share) {
            Some(x) => x,
            None => {
                return Err(overflow_error_value());
            },
        };
        proof {
            if self.pool_lp_share@.contains_key(nm) {
                lemma_sum_at_least::<String>(self.pool_lp_share.key_seq(), self.pool_lp_share@, nm);
            }
        }
        let new_total = match (sum_old - old_pool).checked_add(new_pool) {
            Some(x) => x,
            None => {
                return Err(overflow_error_value());
            },
        };
        let ghost old_ks = self.pool_lp_share.key_seq();
        let ghost old_m = self.pool_lp_share@;
        if supply != 0 {
            self.pool_lp_share.insert(name.clone(), new_pool);
            proof {
                if old_m.contains_key(nm) {
                    lemma_sum_update::<String>(old_ks, old_m, nm, new_pool);
                } else {
                    let p = choose|p: int|
                        0 <= p <= old_ks.len() && self.pool_lp_share.key_seq() == old_ks.insert(p, nm);
                    lemma_sum_insert::<String>(old_ks, old_m, p, nm, new_pool);
                }
            }
        }
        let ghost old_upl = self.users_pool_lp@;
        let mut inner = match self.users_pool_lp.remove(caller) {
            Some(m) => m,
            None => SortedMap::new(),
        };
        inner.insert(name.clone(), new_user);
        self.users_pool_lp.insert(caller.clone_key(), inner);
        assert(self.users_pool_lp@.remove(caller@) =~= old_upl.remove(caller@));
        self.join_pool(caller, name);
        self.total_lp_supply = new_total;
        Ok(())
    }

    /// Checks that `amount` LP tokens can be taken from a pool, and returns
    /// the pool's LP tokens.
    pub fn check_pool_lp_decrease(&self, pool_name: &String, amount: u128) -> (r: Result<u128, String>)
        ensures
            pool_decrease_error(*self, pool_name@, amount) matches Some(m) ==> (r matches Err(e) && e@ == m),
            pool_decrease_error(*self, pool_name@, amount) is None ==> r == Ok::<u128, String>(
                self.pool_lp_share@[pool_name@],
            ),
    {
        if trims_to_empty(pool_name.as_str()) {
            return Err(text("Pool name cannot be empty."));
        }
        if amount == 0 {
            return Err(text("Amount to decrease must be greater than zero."));
        }
        let current: u128 = match self.pool_lp_share.get(pool_name) {
            Some(v) => *v,
            None => {
                let mut m = text("Pool not found: ");
                push_text(&mut m, pool_name.as_str());
                return Err(m);
            },
        };
        if current < amount {
            let mut m = text("Insufficient LP tokens in pool '");
            push_text(&mut m, pool_name.as_str());
            push_text(&mut m, "'. Available: ");
            push_text(&mut m, nat_text(current).as_str());
            push_text(&mut m, ", Required: ");
            push_text(&mut m, nat_text(amount).as_str());
            return Err(m);
        }
        Ok(current)
    }

    /// Takes `amount` LP tokens from a pool. The error is the message the
    /// canister traps with, and then nothing changes.
    pub fn decrease_pool_lp(&mut self, pool_name: &String, amount: u128) -> (r: Result<(), String>)
        ensures
            pool_decrease_error(*old(self), pool_name@, amount) matches Some(m) ==> (r matches Err(e) && e@ == m
                && *final(self) == *old(self)),
            pool_decrease_error(*old(self), pool_name@, amount) is None ==> {
                &&& r is Ok
                &&& final(self).pool_lp_share@ == old(self).pool_lp_share@.insert(
                    pool_name@,
                    (old(self).pool_lp_share@[pool_name@] - amount) as u128,
                )
                &&& final(self).pool_lp_share.key_seq() == old(self).pool_lp_share.key_seq()
                &&& final(self).total_lp_supply == old(self).total_lp_supply
                &&& final(self).users_lp == old(self).users_lp
                &&& final(self).users_pool == old(self).users_pool
                &&& final(self).users_pool_lp == old(self).users_pool_lp
                &&& final(self).fee_share == old(self).fee_share
            },
    {
        let current = self.check_pool_lp_decrease(pool_name, amount)?;
        self.pool_lp_share.insert(pool_name.clone(), current - amount);
        Ok(())
    }

    /// Checks that `amount` LP tokens of a pool can be taken from a user,
    /// and returns the user's LP tokens in the pool.
    pub fn check_user_pool_lp_decrease(&self, user: &PrincipalId, pool_name: &String, amount: u128) -> (r:
        Result<u128, String>)
        ensures
            user_decrease_error(*self, user@, pool_name@, amount) matches Some(m) ==> (r matches Err(e) && e@
                == m),
            user_decrease_error(*self, user@, pool_name@, amount) is None ==> r == Ok::<u128, String>(
                self.users_pool_lp@[user@]@[pool_name@],
            ),
    {
        if trims_to_empty(pool_name.as_str()) {
            return Err(text("Pool name cannot be empty."));
        }
        if amount == 0 {
            return Err(text("Amount to decrease must be greater than zero."));
        }
        if user.is_anonymous() {
            return Err(text("Anonymous users are not allowed."));
        }
        let current: u128 = match self.users_pool_lp.get(user) {
            None => {
                let mut m = text("User '");
                push_text(&mut m, user.to_text().as_str());
                push_text(&mut m, "' not found");
                return Err(m);
            },
            Some(inner) => match inner.get(pool_name) {
                Some(v) => *v,
                None => {
                    let mut m = text("User '");
                    push_text(&mut m, user.to_text().as_str());
                    push_text(&mut m, "' is not associated with pool '");
                    push_text(&mut m, pool_name.as_str());
                    push_text(&mut m, "'");
                    return Err(m);
                },
            },
        };
        if current < amount {
            let mut m = text("Insufficient LP tokens for user '");
            push_text(&mut m, user.to_text().as_str());
            push_text(&mut m, "' in pool '");
            push_text(&mut m, pool_name.as_str());
            push_text(&mut m, "'. Available: ");
            push_text(&mut m, nat_text(current).as_str());
            push_text(&mut m, ", Required: ");
            push_text(&mut m, nat_text(amount).as_str());
            return Err(m);
        }
        Ok(current)
    }

    /// Takes `amount` LP tokens of a pool from a user. The error is the
    /// message the canister traps with, and then nothing changes.
    pub fn decrease_user_pool_lp(&mut self, user: &PrincipalId, pool_name: &String, amount: u128) -> (r: Result<
        (),
        String,
    >)
        ensures
            user_decrease_error(*old(self), user@, pool_name@, amount) matches Some(m) ==> (r matches Err(e) && e@
                == m && *final(self) == *old(self)),
            user_decrease_error(*old(self), user@, pool_name@, amount) is None ==> {
                &&& r is Ok
                &&& final(self).users_pool_lp@.remove(user@) == old(self).users_pool_lp@.remove(user@)
                &&& final(self).users_pool_lp@.contains_key(user@)
                &&& final(self).users_pool_lp@[user@]@ == old(self).users_pool_lp@[user@]@.insert(
                    pool_name@,
                    (old(self).users_pool_lp@[user@]@[pool_name@] - amount) as u128,
                )
                &&& final(self).total_lp_supply == old(self).total_lp_supply
                &&& final(self).pool_lp_share == old(self).pool_lp_share
                &&& final(self).users_lp == old(self).users_lp
                &&& final(self).users_pool == old(self).users_pool
                &&& final(self).fee_share == old(self).fee_share
            },
    {
        let current = self.check_user_pool_lp_decrease(user, pool_name, amount)?;
        let ghost old_upl = self.users_pool_lp@;
        let mut inner = match self.users_pool_lp.remove(user) {
            Some(m) => m,
            None => SortedMap::new(),
        };
        inner.insert(pool_name.clone(), current - amount);
        self.users_pool_lp.insert(user.clone_key(), inner);
        assert(self.users_pool_lp@.remove(user@) =~= old_upl.remove(user@));
        Ok(())
    }

    /// Takes `lp` tokens from the total LP supply. The error is the message
    /// the canister traps with, and then nothing changes.
    pub fn decrease_total_lp(&mut self, lp: u128) -> (r: Result<(), String>)
        ensures
            total_decrease_error(*old(self), lp) matches Some(m) ==> (r matches Err(e) && e@ == m && *final(self)
                == *old(self)),
            total_decrease_error(*old(self), lp) is None ==> {
                &&& r is Ok
                &&& final(self).total_lp_supply == old(self).total_lp_supply - lp
                &&& final(self).pool_lp_share == old(self).pool_lp_share
                &&& final(self).users_lp == old(self).users_lp
                &&& final(self).users_pool == old(self).users_pool
                &&& final(self).users_pool_lp == old(self).users_pool_lp
                &&& final(self).fee_share == old(self).fee_share
            },
    {
        if lp == 0 {
            return Err(text("Amount to decrease must be greater than zero."));
        }
        if self.total_lp_supply < lp {
            return Err(text("Insufficient total LP tokens to decrease."));
        }
        self.total_lp_supply = self.total_lp_supply - lp;
        Ok(())
    }

    /// Takes the burned LP tokens from the pool, from the caller's share of
    /// the pool and from the total supply, in that order; where one of them
    /// refuses, its message is returned and nothing changes.
    pub fn finish_burn(&mut self, caller: &PrincipalId, pool_name: &String, amount: u128) -> (r: Result<
        (),
        String,
    >)
        ensures
            burn_error(*old(self), caller@, pool_name@, amount) matches Some(m) ==> (r matches Err(e) && e@ == m
                && *final(self) == *old(self)),
            burn_error(*old(self), caller@, pool_name@, amount) is None ==> {
                &&& r is Ok
                &&& final(self).pool_lp_share@ == old(self).pool_lp_share@.insert(
                    pool_name@,
                    (old(self).pool_lp_share@[pool_name@] - amount) as u128,
                )
                &&& final(self).pool_lp_share.key_seq() == old(self).pool_lp_share.key_seq()
                &&& final(self).users_pool_lp@.remove(caller@) == old(self).users_pool_lp@.remove(caller@)
                &&& final(self).users_pool_lp@.contains_key(caller@)
                &&& final(self).users_pool_lp@[caller@]@ == old(self).users_pool_lp@[caller@]@.insert(
                    pool_name@,
                    (old(self).users_pool_lp@[caller@]@[pool_name@] - amount) as u128,
                )
                &&& final(self).total_lp_supply == old(self).total_lp_supply - amount
                &&& old(self).total_lp_supply == sum_over::<String>(
                    old(self).pool_lp_share.key_seq(),
                    old(self).pool_lp_share@,
                ) ==> final(self).total_lp_supply == sum_over::<String>(
                    final(self).pool_lp_share.key_seq(),
                    final(self).pool_lp_share@,
                )
                &&& final(self).users_lp == old(self).users_lp
                &&& final(self).users_pool == old(self).users_pool
                &&& final(self).fee_share == old(self).fee_share
            },
    {
        let _n = self.pool_lp_share.len();
        let _p = self.check_pool_lp_decrease(pool_name, amount)?;
        let _u = self.check_user_pool_lp_decrease(caller, pool_name, amount)?;
        if self.total_lp_supply < amount {
            return Err(text("Insufficient total LP tokens to decrease."));
        }
        let _a = self.decrease_pool_lp(pool_name, amount);
        let _b = self.decrease_user_pool_lp(caller, pool_name, amount);
        let _c = self.decrease_total_lp(amount);
        proof {
            lemma_sum_update::<String>(
                old(self).pool_lp_share.key_seq(),
                old(self).pool_lp_share@,
                pool_name@,
                (old(self).pool_lp_share@[pool_name@] - amount) as u128,
            );
        }
        Ok(())
    }

    /// Removes the pool from the caller's pools, after validating it.
    pub fn remove_user_pool(&mut self, caller: &PrincipalId, params: &Pool_Data) -> (r: Result<(), CustomError>)
        ensures
            pool_defect(params@) matches Some(e) ==> (r matches Err(err) && err@ == e && *final(self)
                == *old(self)),
            pool_defect(params@) is None ==> {
                &&& r is Ok
                &&& pools_left(old(self).users_pool@, final(self).users_pool@, caller@, joined_names(params@.tokens))
                &&& final(self).total_lp_supply == old(self).total_lp_supply
                &&& final(self).pool_lp_share == old(self).pool_lp_share
                &&& final(self).users_lp == old(self).users_lp
                &&& final(self).users_pool_lp == old(self).users_pool_lp
                &&& final(self).fee_share == old(self).fee_share
            },
    {
        match params.validate() {
            Err(e) => {
                return Err(e);
            },
            Ok(()) => {},
        }
        let name = params.pool_name();
        let ghost old_map = self.users_pool@;
        let ghost nm = name@;
        match self.users_pool.remove(caller) {
            None => {
                assert(self.users_pool@ =~= old_map);
            },
            Some(list) => {
                let mut list = list;
                let ghost l = str_views(list@);
                let pos = position_of(&list, &name);
                if let Some(i) = pos {
                    proof {
                        lemma_remove_first_at(l, nm, i as int);
                    }
                    let _gone = list.remove(i);
                    assert(str_views(list@) =~= l.remove(i as int));
                } else {
                    proof {
                        lemma_remove_first_absent(l, nm);
                    }
                }
                if list.len() > 0 {
                    self.users_pool.insert(caller.clone_key(), list);
                    assert(self.users_pool@.remove(caller@) =~= old_map.remove(caller@));
                }
            },
        }
        Ok(())
    }
}


/// The pools of `user` after joining the pool `name`: unchanged where it was
/// already joined, else with `name` added last.
pub open spec fn joined_pools(m: Map<Seq<u8>, Vec<String>>, user: Seq<u8>, name: Seq<char>) -> Seq<Seq<char>> {
    if m.contains_key(user) {
        let l = str_views(m[user]@);
        if l.contains(name) {
            l
        } else {
            l.push(name)
        }
    } else {
        seq![name]
    }
}

/// `new` is `old` after `user` joined the pool `name`.
pub open spec fn pools_joined(
    old: Map<Seq<u8>, Vec<String>>,
    new: Map<Seq<u8>, Vec<String>>,
    user: Seq<u8>,
    name: Seq<char>,
) -> bool {
    &&& new.remove(user) == old.remove(user)
    &&& new.contains_key(user)
    &&& str_views(new[user]@) == joined_pools(old, user, name)
}

/// The sequence without the first occurrence of `x`.
pub open spec fn remove_first<T>(l: Seq<T>, x: T) -> Seq<T>
    decreases l.len(),
{
    if l.len() == 0 {
        l
    } else if l[0] == x {
        l.drop_first()
    } else {
        seq![l[0]] + remove_first(l.drop_first(), x)
    }
}

/// `new` is `old` after `user` left the pool `name`: the first occurrence
/// of the name is removed from the user's pools, and a user left with no
/// pools is removed.
pub open spec fn pools_left(
    old: Map<Seq<u8>, Vec<String>>,
    new: Map<Seq<u8>, Vec<String>>,
    user: Seq<u8>,
    name: Seq<char>,
) -> bool {
    if !old.contains_key(user) {
        new == old
    } else {
        let l = remove_first(str_views(old[user]@), name);
        if l.len() == 0 {
            new == old.remove(user)
        } else {
            &&& new.remove(user) == old.remove(user)
            &&& new.contains_key(user)
            &&& str_views(new[user]@) == l
        }
    }
}

proof fn lemma_remove_first_at<T>(l: Seq<T>, x: T, i: int)
    requires
        0 <= i < l.len(),
        l[i] == x,
        forall|j: int| 0 <= j < i ==> l[j] != x,
    ensures
        remove_first(l, x) == l.remove(i),
    decreases l.len(),
{
    if i == 0 {
        assert(l.remove(0) =~= l.drop_first());
    } else {
        lemma_remove_first_at(l.drop_first(), x, i - 1);
        assert(seq![l[0]] + l.drop_first().remove(i - 1) =~= l.remove(i));
    }
}

proof fn lemma_remove_first_absent<T>(l: Seq<T>, x: T)
    requires
        forall|j: int| 0 <= j < l.len() ==> l[j] != x,
    ensures
        remove_first(l, x) == l,
    decreases l.len(),
{
    if l.len() > 0 {
        lemma_remove_first_absent(l.drop_first(), x);
        assert(seq![l[0]] + l.drop_first() =~= l);
    }
}

/// Removing the first occurrence of an element appended to a sequence that
/// did not hold it gives the sequence back.
proof fn lemma_remove_first_pushed<T>(l: Seq<T>, x: T)
    requires
        !l.contains(x),
    ensures
        remove_first(l.push(x), x) == l,
    decreases l.len(),
{
    if l.len() == 0 {
        assert(l.push(x).drop_first() =~= l);
    } else {
        let t = l.drop_first();
        assert(!t.contains(x)) by {
            if t.contains(x) {
                let w = t.index_of(x);
                assert(l[w + 1] == x);
            }
        }
        lemma_remove_first_pushed(t, x);
        assert(l.push(x)[0] == l[0]);
        assert(l[0] != x) by {
            assert(l.contains(l[0]) || l[0] != x);
            if l[0] == x {
                assert(l.contains(x));
            }
        }
        assert(l.push(x).drop_first() =~= t.push(x));
        assert(seq![l[0]] + t =~= l);
    }
}

/// The names of the pools a user has joined, where the user has an entry.
pub open spec fn pool_names_of(m: Map<Seq<u8>, Vec<String>>, user: Seq<u8>) -> Option<Seq<Seq<char>>> {
    if m.contains_key(user) {
        Some(str_views(m[user]@))
    } else {
        None
    }
}

/// Joining a pool the user had not joined and then leaving it gives the
/// user back the pools they had, and no other user's pools change. A user
/// recorded with an empty list of pools comes out with no entry at all:
/// leaving removes a user whose last pool is gone.
pub proof fn lemma_join_then_leave(
    before: Map<Seq<u8>, Vec<String>>,
    joined: Map<Seq<u8>, Vec<String>>,
    left: Map<Seq<u8>, Vec<String>>,
    user: Seq<u8>,
    name: Seq<char>,
)
    requires
        before.contains_key(user) ==> !str_views(before[user]@).contains(name),
        pools_joined(before, joined, user, name),
        pools_left(joined, left, user, name),
    ensures
        left.remove(user) == before.remove(user),
        pool_names_of(left, user) == (if before.contains_key(user) && before[user]@.len() > 0 {
            pool_names_of(before, user)
        } else {
            None
        }),
{
    if before.contains_key(user) {
        let l = str_views(before[user]@);
        lemma_remove_first_pushed(l, name);
        if before[user]@.len() == 0 {
            assert(left.remove(user) =~= before.remove(user));
        }
    } else {
        assert(remove_first(seq![name], name) =~= Seq::<Seq<char>>::empty());
    }
}

/// Leaving a pool the user has not joined changes nothing: neither the
/// user's pools nor anyone else's. (A user recorded with an empty list is
/// removed, as leaving removes a user with no pools.)
pub proof fn lemma_leave_absent(
    before: Map<Seq<u8>, Vec<String>>,
    left: Map<Seq<u8>, Vec<String>>,
    user: Seq<u8>,
    name: Seq<char>,
)
    requires
        before.contains_key(user) ==> !str_views(before[user]@).contains(name) && before[user]@.len() > 0,
        pools_left(before, left, user, name),
    ensures
        left.remove(user) == before.remove(user),
        pool_names_of(left, user) == pool_names_of(before, user),
{
    if before.contains_key(user) {
        let l = str_views(before[user]@);
        assert forall|j: int| 0 <= j < l.len() implies l[j] != name by {
            if l[j] == name {
                assert(l.contains(name));
            }
        }
        lemma_remove_first_absent(l, name);
    }
}

/// After joining, the user's pools hold the pool exactly once, where they
/// held no pool twice before: the name is listed and nothing is repeated.
pub proof fn lemma_join_lists_once(
    before: Map<Seq<u8>, Vec<String>>,
    joined: Map<Seq<u8>, Vec<String>>,
    user: Seq<u8>,
    name: Seq<char>,
)
    requires
        before.contains_key(user) ==> str_views(before[user]@).no_duplicates(),
        pools_joined(before, joined, user, name),
    ensures
        str_views(joined[user]@).contains(name),
        str_views(joined[user]@).no_duplicates(),
        forall|i: int, j: int|
            0 <= i < str_views(joined[user]@).len() && 0 <= j < str_views(joined[user]@).len() && str_views(
                joined[user]@,
            )[i] == name && str_views(joined[user]@)[j] == name ==> i == j,
{
    let j = joined_pools(before, user, name);
    if before.contains_key(user) {
        let l = str_views(before[user]@);
        if !l.contains(name) {
            assert(j[j.len() - 1] == name);
            assert forall|a: int, b: int| 0 <= a < j.len() && 0 <= b < j.len() && a != b implies j[a] != j[b] by {
                if a == l.len() {
                    assert(l[b] != name) by {
                        if l[b] == name {
                            assert(l.contains(name));
                        }
                    }
                } else if b == l.len() {
                    assert(l[a] != name) by {
                        if l[a] == name {
                            assert(l.contains(name));
                        }
                    }
                }
            }
        }
    } else {
        assert(j[0] == name);
    }
}

/// Joining the same pool a second time changes nothing: the user's pools
/// and everyone else's stay as the first join left them.
pub proof fn lemma_join_twice(
    before: Map<Seq<u8>, Vec<String>>,
    once: Map<Seq<u8>, Vec<String>>,
    twice: Map<Seq<u8>, Vec<String>>,
    user: Seq<u8>,
    name: Seq<char>,
)
    requires
        pools_joined(before, once, user, name),
        pools_joined(once, twice, user, name),
    ensures
        twice.remove(user) == once.remove(user),
        pool_names_of(twice, user) == pool_names_of(once, user),
{
    let j = joined_pools(before, user, name);
    if before.contains_key(user) && !str_views(before[user]@).contains(name) {
        assert(j[j.len() - 1] == name);
    } else if !before.contains_key(user) {
        assert(j[0] == name);
    }
    assert(str_views(once[user]@).contains(name));
}

/// `new` is `old` after the caller's deposit of the tokens `ts` was minted:
/// the pool's LP tokens grow by the deposit's worth (unless it is 0), so do
/// the caller's LP tokens in the pool, the caller has joined the pool, the
/// total LP supply is the sum over all pools, and nothing else changes.
pub open spec fn lp_minted(old: Vault, new: Vault, caller: Seq<u8>, ts: Seq<crate::types::TokenView>) -> bool {
    let name = joined_names(ts);
    &&& new.pool_lp_share@ == (if pool_supply(ts) != 0 {
        old.pool_lp_share@.insert(name, deposit_pool_value(old, ts) as u128)
    } else {
        old.pool_lp_share@
    })
    &&& new.users_pool_lp@.remove(caller) == old.users_pool_lp@.remove(caller)
    &&& new.users_pool_lp@.contains_key(caller)
    &&& new.users_pool_lp@[caller]@ == user_pools_before(old, caller).insert(
        name,
        deposit_user_value(old, caller, ts) as u128,
    )
    &&& pools_joined(old.users_pool@, new.users_pool@, caller, name)
    &&& new.total_lp_supply == deposit_total(old, ts)
    &&& new.total_lp_supply == sum_over::<String>(new.pool_lp_share.key_seq(), new.pool_lp_share@)
    &&& new.users_lp == old.users_lp
    &&& new.fee_share == old.fee_share
}

/// A deposit adds to what the depositor already holds in the pool, by
/// exactly what it adds to the pool: the depositor's LP tokens in the pool
/// after a minted deposit are those held before (0 where none) plus the
/// growth of the pool's LP tokens, and both grow by a thousandth of the
/// deposit's worth (`pool_supply`: the sum of value times balance, or 0
/// where a token has a zero balance).
pub proof fn lemma_deposit_adds_to_holding(old: Vault, new: Vault, user: Seq<u8>, ts: Seq<crate::types::TokenView>)
    requires
        deposit_fits(old, user, ts),
        lp_minted(old, new, user, ts),
    ensures
        ({
            let name = joined_names(ts);
            let before = if old.users_pool_lp@.contains_key(user) {
                value_or_zero(old.users_pool_lp@[user]@, name) as int
            } else {
                0
            };
            &&& new.users_pool_lp@.contains_key(user)
            &&& new.users_pool_lp@[user]@.contains_key(name)
            &&& new.users_pool_lp@[user]@[name] == before + value_or_zero(new.pool_lp_share@, name)
                - value_or_zero(old.pool_lp_share@, name)
            &&& new.users_pool_lp@[user]@[name] == before + pool_supply(ts) / 1000
            &&& value_or_zero(new.pool_lp_share@, name) == value_or_zero(old.pool_lp_share@, name) + pool_supply(
                ts,
            ) / 1000
        }),
{
    lemma_stake_sum_prefix(ts, 0);
    let name = joined_names(ts);
    if pool_supply(ts) != 0 {
        assert(new.pool_lp_share@.contains_key(name));
    }
}

/// The pool-share map's value for `name` before and after a deposit worth
/// `supply`: a deposit worth 0 leaves the pool's share alone.
pub open spec fn deposit_pool_value(v: Vault, ts: Seq<crate::types::TokenView>) -> int {
    let old_pool = value_or_zero(v.pool_lp_share@, joined_names(ts));
    if pool_supply(ts) != 0 {
        old_pool + pool_supply(ts) / 1000
    } else {
        old_pool as int
    }
}

/// The caller's pools before the deposit (an empty map where there are none).
pub open spec fn user_pools_before(v: Vault, user: Seq<u8>) -> Map<Seq<char>, u128> {
    if v.users_pool_lp@.contains_key(user) {
        v.users_pool_lp@[user]@
    } else {
        Map::empty()
    }
}

/// The caller's LP tokens in the pool after the deposit.
pub open spec fn deposit_user_value(v: Vault, user: Seq<u8>, ts: Seq<crate::types::TokenView>) -> int {
    value_or_zero(user_pools_before(v, user), joined_names(ts)) + pool_supply(ts) / 1000
}

/// The sum of all pools' LP tokens after the deposit.
pub open spec fn deposit_total(v: Vault, ts: Seq<crate::types::TokenView>) -> int {
    sum_over::<String>(v.pool_lp_share.key_seq(), v.pool_lp_share@) - value_or_zero(
        v.pool_lp_share@,
        joined_names(ts),
    ) + deposit_pool_value(v, ts)
}

/// Whether every amount the deposit computes fits in 128 bits.
pub open spec fn deposit_fits(v: Vault, user: Seq<u8>, ts: Seq<crate::types::TokenView>) -> bool {
    &&& pool_supply(ts) <= u128::MAX
    &&& deposit_pool_value(v, ts) <= u128::MAX
    &&& deposit_user_value(v, user, ts) <= u128::MAX
    &&& deposit_total(v, ts) <= u128::MAX
}

/// The message `decrease_pool_lp` traps with, if any.
pub open spec fn pool_decrease_error(v: Vault, name: Seq<char>, amount: u128) -> Option<Seq<char>> {
    if is_blank(name) {
        Some("Pool name cannot be empty."@)
    } else if amount == 0 {
        Some("Amount to decrease must be greater than zero."@)
    } else if !v.pool_lp_share@.contains_key(name) {
        Some("Pool not found: "@ + name)
    } else if v.pool_lp_share@[name] < amount {
        Some(
            "Insufficient LP tokens in pool '"@ + name + "'. Available: "@ + nat_display(
                v.pool_lp_share@[name] as nat,
            ) + ", Required: "@ + nat_display(amount as nat),
        )
    } else {
        None
    }
}

/// The message `decrease_user_pool_lp` traps with, if any.
pub open spec fn user_decrease_error(v: Vault, user: Seq<u8>, name: Seq<char>, amount: u128) -> Option<
    Seq<char>,
> {
    if is_blank(name) {
        Some("Pool name cannot be empty."@)
    } else if amount == 0 {
        Some("Amount to decrease must be greater than zero."@)
    } else if user == anonymous_bytes() {
        Some("Anonymous users are not allowed."@)
    } else if !v.users_pool_lp@.contains_key(user) {
        Some("User '"@ + spec_principal_text(user) + "' not found"@)
    } else if !v.users_pool_lp@[user]@.contains_key(name) {
        Some("User '"@ + spec_principal_text(user) + "' is not associated with pool '"@ + name + "'"@)
    } else if v.users_pool_lp@[user]@[name] < amount {
        Some(
            "Insufficient LP tokens for user '"@ + spec_principal_text(user) + "' in pool '"@ + name
                + "'. Available: "@ + nat_display(v.users_pool_lp@[user]@[name] as nat) + ", Required: "@
                + nat_display(amount as nat),
        )
    } else {
        None
    }
}

/// The message `decrease_total_lp` traps with, if any.
pub open spec fn total_decrease_error(v: Vault, lp: u128) -> Option<Seq<char>> {
    if lp == 0 {
        Some("Amount to decrease must be greater than zero."@)
    } else if v.total_lp_supply < lp {
        Some("Insufficient total LP tokens to decrease."@)
    } else {
        None
    }
}

/// The first message the three decreases of a burn trap with, if any.
pub open spec fn burn_error(v: Vault, user: Seq<u8>, name: Seq<char>, amount: u128) -> Option<Seq<char>> {
    if pool_decrease_error(v, name, amount) is Some {
        pool_decrease_error(v, name, amount)
    } else if user_decrease_error(v, user, name, amount) is Some {
        user_decrease_error(v, user, name, amount)
    } else {
        total_decrease_error(v, amount)
    }
}

/// The error for a result that does not fit the 128 bits amounts are held in.
pub open spec fn overflow_error() -> CustomErrorView {
    CustomErrorView::OperationFailed("arithmetic overflow"@)
}

/// The error for an amount that does not fit in 128 bits.
pub fn overflow_error_value() -> (r: CustomError)
    ensures
        r@ == overflow_error(),
{
    CustomError::OperationFailed(text("arithmetic overflow"))
}

/// Whether the token has a zero value or a zero balance.
pub open spec fn zero_stake(t: crate::types::TokenView) -> bool {
    t.value == 0 || t.balance == 0
}

/// Whether some token of the pool has a zero value or a zero balance.
pub open spec fn has_zero_stake(ts: Seq<crate::types::TokenView>) -> bool {
    exists|i: int| 0 <= i < ts.len() && zero_stake(#[trigger] ts[i])
}

/// The sum of value times balance over the tokens.
pub open spec fn stake_sum(ts: Seq<crate::types::TokenView>) -> int
    decreases ts.len(),
{
    if ts.len() == 0 {
        0
    } else {
        stake_sum(ts.drop_last()) + ts.last().value * ts.last().balance
    }
}

proof fn lemma_stake_sum_concat(ts: Seq<crate::types::TokenView>, us: Seq<crate::types::TokenView>)
    ensures
        stake_sum(ts + us) == stake_sum(ts) + stake_sum(us),
    decreases us.len(),
{
    if us.len() == 0 {
        assert(ts + us =~= ts);
    } else {
        lemma_stake_sum_concat(ts, us.drop_last());
        assert((ts + us).drop_last() =~= ts + us.drop_last());
        assert((ts + us).last() == us.last());
    }
}

/// A deposit's worth (`pool_supply`) adds up value times balance over its
/// tokens: one token with a value and a balance is worth their product,
/// two deposits with no empty token together are worth what each is worth,
/// and a deposit holding a token with a zero value or balance is worth 0.
pub proof fn lemma_deposit_worth(
    t: crate::types::TokenView,
    ts: Seq<crate::types::TokenView>,
    us: Seq<crate::types::TokenView>,
)
    ensures
        t.value > 0 && t.balance > 0 ==> pool_supply(seq![t]) == t.value * t.balance,
        !has_zero_stake(ts) && !has_zero_stake(us) ==> pool_supply(ts + us) == pool_supply(ts) + pool_supply(us),
        has_zero_stake(ts) ==> pool_supply(ts + us) == 0 && pool_supply(us + ts) == 0,
        t.value == 0 || t.balance == 0 ==> pool_supply(ts.push(t)) == 0,
{
    let one = seq![t];
    assert(one.drop_last() =~= Seq::<crate::types::TokenView>::empty());
    assert(stake_sum(Seq::<crate::types::TokenView>::empty()) == 0);
    assert(one.last() == t);
    if t.value > 0 && t.balance > 0 {
        assert(!has_zero_stake(one)) by {
            if has_zero_stake(one) {
                let i = choose|i: int| 0 <= i < one.len() && zero_stake(#[trigger] one[i]);
                assert(one[i] == t);
            }
        }
    }
    if !has_zero_stake(ts) && !has_zero_stake(us) {
        assert(!has_zero_stake(ts + us)) by {
            if has_zero_stake(ts + us) {
                let i = choose|i: int| 0 <= i < (ts + us).len() && zero_stake(#[trigger] (ts + us)[i]);
                if i < ts.len() {
                    assert((ts + us)[i] == ts[i]);
                } else {
                    assert((ts + us)[i] == us[i - ts.len()]);
                }
            }
        }
        lemma_stake_sum_concat(ts, us);
    }
    if has_zero_stake(ts) {
        let i = choose|i: int| 0 <= i < ts.len() && zero_stake(#[trigger] ts[i]);
        assert((ts + us)[i] == ts[i]);
        assert((us + ts)[us.len() + i] == ts[i]);
    }
    if t.value == 0 || t.balance == 0 {
        assert(ts.push(t)[ts.len() as int] == t);
    }
}

/// What a deposit of the pool's tokens is worth: the sum of value times
/// balance, or 0 where a token has a zero value or balance.
pub open spec fn pool_supply(ts: Seq<crate::types::TokenView>) -> int {
    if has_zero_stake(ts) {
        0
    } else {
        stake_sum(ts)
    }
}

/// The stake sum of a prefix is at most that of the whole.
pub proof fn lemma_stake_sum_prefix(ts: Seq<crate::types::TokenView>, i: int)
    requires
        0 <= i <= ts.len(),
    ensures
        0 <= stake_sum(ts.take(i)) <= stake_sum(ts),
    decreases ts.len() - i,
{
    if i == ts.len() {
        assert(ts.take(i) =~= ts);
        lemma_stake_sum_nonneg(ts);
    } else {
        lemma_stake_sum_prefix(ts, i + 1);
        assert(ts.take(i + 1).drop_last() =~= ts.take(i));
        assert(ts.take(i + 1).last() == ts[i]);
        lemma_stake_sum_nonneg(ts.take(i));
        let t = ts[i];
        assert(t.value * t.balance >= 0) by (nonlinear_arith)
            requires
                t.value >= 0,
                t.balance >= 0,
        ;
    }
}

proof fn lemma_stake_sum_nonneg(ts: Seq<crate::types::TokenView>)
    ensures
        stake_sum(ts) >= 0,
    decreases ts.len(),
{
    if ts.len() > 0 {
        lemma_stake_sum_nonneg(ts.drop_last());
        let t = ts.last();
        assert(t.value * t.balance >= 0) by (nonlinear_arith)
            requires
                t.value >= 0,
                t.balance >= 0,
        ;
    }
}

/// The deposit worth of the pool's tokens, or `None` where it does not fit
/// in 128 bits.
pub fn checked_pool_supply(params: &Pool_Data) -> (r: Option<u128>)
    ensures
        r matches Some(v) ==> v == pool_supply(params@.tokens),
        r is None <==> pool_supply(params@.tokens) > u128::MAX,
{
    let n = params.pool_data.len();
    let ghost ts = params@.tokens;
    for i in 0..n
        invariant
            n == params.pool_data@.len(),
            ts == params@.tokens,
            forall|j: int| 0 <= j < i ==> !zero_stake(#[trigger] ts[j]),
    {
        let t = &params.pool_data[i];
        assert(ts[i as int] == t@);
        if t.value == 0 || t.balance == 0 {
            assert(zero_stake(ts[i as int]));
            return Some(0);
        }
    }
    let mut acc: u128 = 0;
    for i in 0..n
        invariant
            n == params.pool_data@.len(),
            ts == params@.tokens,
            !has_zero_stake(ts),
            acc == stake_sum(ts.take(i as int)),
    {
        let t = &params.pool_data[i];
        assert(ts[i as int] == t@);
        assert(ts.take(i + 1).drop_last() =~= ts.take(i as int));
        proof {
            lemma_stake_sum_prefix(ts, i + 1);
        }
        match t.value.checked_mul(t.balance) {
            Some(prod) => {
                match acc.checked_add(prod) {
                    Some(next) => {
                        acc = next;
                    },
                    None => {
                        return None;
                    },
                }
            },
            None => {
                proof {
                    lemma_stake_sum_nonneg(ts.take(i as int));
                }
                return None;
            },
        }
    }
    assert(ts.take(n as int) =~= ts);
    Some(acc)
}

/// The sum of a string-keyed map's values is at least the value of any key.
pub proof fn lemma_sum_at_least<K: MapKey>(ks: Seq<K::V>, m: Map<K::V, u128>, k: K::V)
    requires
        ks.contains(k),
    ensures
        sum_over::<K>(ks, m) >= m[k],
    decreases ks.len(),
{
    lemma_sum_nonneg::<K>(ks.drop_last(), m);
    if ks.last() != k {
        let j = ks.index_of(k);
        assert(ks.drop_last()[j] == k);
        lemma_sum_at_least::<K>(ks.drop_last(), m, k);
    }
}

/// Sums of values are not negative.
pub proof fn lemma_sum_nonneg<K: MapKey>(ks: Seq<K::V>, m: Map<K::V, u128>)
    ensures
        sum_over::<K>(ks, m) >= 0,
    decreases ks.len(),
{
    if ks.len() > 0 {
        lemma_sum_nonneg::<K>(ks.drop_last(), m);
    }
}

/// The sum of the LP tokens of all pools, or `None` where it does not fit
/// in 128 bits.
pub fn checked_total<K: MapKey>(m: &SortedMap<K, u128>) -> (r: Option<u128>)
    ensures
        r matches Some(v) ==> v == sum_over::<K>(m.key_seq(), m@),
        r is None <==> sum_over::<K>(m.key_seq(), m@) > u128::MAX,
{
    let n = m.len();
    let ghost ks = m.key_seq();
    let mut acc: u128 = 0;
    for i in 0..n
        invariant
            n == ks.len(),
            ks == m.key_seq(),
            acc == sum_over::<K>(ks.take(i as int), m@),
    {
        let v = *m.value_at(i);
        assert(ks.take(i + 1).drop_last() =~= ks.take(i as int));
        match acc.checked_add(v) {
            Some(next) => {
                acc = next;
            },
            None => {
                proof {
                    lemma_sum_prefix::<K>(ks, m@, i + 1);
                }
                return None;
            },
        }
    }
    assert(ks.take(n as int) =~= ks);
    Some(acc)
}

/// The sum over a prefix of the keys is at most the sum over all of them.
pub proof fn lemma_sum_prefix<K: MapKey>(ks: Seq<K::V>, m: Map<K::V, u128>, i: int)
    requires
        0 <= i <= ks.len(),
    ensures
        sum_over::<K>(ks.take(i), m) <= sum_over::<K>(ks, m),
    decreases ks.len() - i,
{
    if i == ks.len() {
        assert(ks.take(i) =~= ks);
    } else {
        lemma_sum_prefix::<K>(ks, m, i + 1);
        assert(ks.take(i + 1).drop_last() =~= ks.take(i));
    }
}

} // verus!
