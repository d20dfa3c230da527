use vstd::prelude::*;

use crate::factory::{entries, entries_after_store, fee_conflict, lock_held, Factory};
use crate::order::MapKey;
use crate::principal::PrincipalId;
use crate::state::{canister_of, pool_canisters, State};
use crate::types::{joined_names, pool_defect, CustomError, CustomErrorView, Pool_Data};
use crate::vault::{deposit_fits, joined_pools, lemma_join_twice, lp_minted, pools_joined, str_views, Vault};

verus! {

/// Where a pool creation stands.
#[derive(Clone, Copy, PartialEq, Eq, Structural, Debug)]
pub enum CreatePhase {
    /// The pool's canister is to be looked up.
    Lookup,
    /// A canister is being created for the pool.
    Creating,
    /// The tokens are being deposited into the pool's canister.
    Depositing,
    /// The pool is being stored in its canister and the LP tokens minted.
    Storing,
    /// The creation is over and its lock released.
    Done,
}

/// A pool creation in progress: the pool, who creates it, its name (whose
/// lock it holds), its canister once known, the next token to deposit and
/// whether the canister existed before.
pub struct CreatePoolsRun {
    pub name: String,
    pub params: Pool_Data,
    pub caller: PrincipalId,
    pub canister: Option<PrincipalId>,
    pub next: usize,
    pub existing: bool,
    pub phase: CreatePhase,
}

/// What happened outside since the last step.
pub enum CreatePoolsEvent {
    /// The creation has just begun.
    Started,
    /// The new canister, or why it could not be created.
    CanisterCreated(Result<PrincipalId, String>),
    /// Whether the last deposit went through.
    Deposited(bool),
    /// The pool was stored in its canister and the LP tokens were minted.
    Stored,
}

/// What is to be done next.
pub enum CreatePoolsAction {
    /// Create a canister for the pool.
    CreateCanister,
    /// Deposit `amount` of the token held by `ledger` from the caller into
    /// `canister`.
    Deposit { ledger: PrincipalId, canister: PrincipalId, amount: u128 },
    /// Store the pool in `canister` and mint the caller's LP tokens.
    StoreAndMint { canister: PrincipalId },
    /// Adding the liquidity would subtract the pool's swap fee from a
    /// smaller fee recorded under its name, which fails: stop the call.
    FeeConflict,
    /// The creation is over with this result.
    Finish(Result<(), CustomError>),
}

/// Whether the run is for a valid pool under its own name.
pub open spec fn run_valid(run: CreatePoolsRun) -> bool {
    &&& pool_defect(run.params@) is None
    &&& run.params@.tokens.len() > 0
    &&& run.name@ == joined_names(run.params@.tokens)
}

/// Whether the lock of the run's pool matches where the run stands: held
/// until the run is done, free once it is.
pub open spec fn run_lock_ok(f: Factory, run: CreatePoolsRun) -> bool {
    (run.phase != CreatePhase::Done) == lock_held(f, run.name@)
}

/// What a step of a pool creation does to the lock of its pool: the run
/// keeps its name, a lock that matched where the run stood still matches,
/// and the run is done exactly when the step finished it.
pub open spec fn step_keeps_lock(
    f0: Factory,
    r0: CreatePoolsRun,
    finished: bool,
    f1: Factory,
    r1: CreatePoolsRun,
) -> bool {
    &&& r1.name@ == r0.name@
    &&& run_lock_ok(f0, r0) ==> run_lock_ok(f1, r1)
    &&& finished == (r1.phase == CreatePhase::Done)
}

/// Along the steps of a creation, the run keeps its name and its lock
/// matches where it stands.
proof fn lemma_trace_keeps_lock(fs: Seq<Factory>, rs: Seq<CreatePoolsRun>, finished: Seq<bool>, k: int)
    requires
        fs.len() == rs.len(),
        fs.len() == finished.len() + 1,
        run_lock_ok(fs[0], rs[0]),
        forall|i: int|
            0 < i <= finished.len() ==> #[trigger] step_keeps_lock(fs[i - 1], rs[i - 1], finished[i - 1], fs[i], rs[i]),
        0 <= k < fs.len(),
    ensures
        run_lock_ok(fs[k], rs[k]),
        rs[k].name@ == rs[0].name@,
    decreases k,
{
    if k > 0 {
        lemma_trace_keeps_lock(fs, rs, finished, k - 1);
        assert(step_keeps_lock(fs[k - 1], rs[k - 1], finished[k - 1], fs[k], rs[k]));
    }
}

/// A whole pool creation ends with its pool unlocked, whatever its outcome:
/// a run begun with its pool locked (as `begin_create_pools_run` leaves
/// it), taken through steps (as `create_pools_step` takes it) of which the
/// last finishes it, leaves the lock of the pool free, so a following
/// creation of the same pool is not refused as another operation in
/// progress. `fs` are the factory's states between the steps, `rs` the
/// run's, and `finished` tells of each step whether it finished the run.
pub proof fn lemma_creation_ends_unlocked(fs: Seq<Factory>, rs: Seq<CreatePoolsRun>, finished: Seq<bool>)
    requires
        fs.len() == rs.len(),
        fs.len() == finished.len() + 1,
        finished.len() > 0,
        run_valid(rs[0]),
        run_lock_ok(fs[0], rs[0]),
        forall|i: int|
            0 < i <= finished.len() ==> #[trigger] step_keeps_lock(fs[i - 1], rs[i - 1], finished[i - 1], fs[i], rs[i]),
        finished.last(),
    ensures
        !lock_held(fs.last(), joined_names(rs[0].params@.tokens)),
{
    let n = finished.len() as int;
    lemma_trace_keeps_lock(fs, rs, finished, n);
    assert(step_keeps_lock(fs[n - 1], rs[n - 1], finished[n - 1], fs[n], rs[n]));
}

/// Whether the event is the one the run waits for.
pub open spec fn run_expects(run: CreatePoolsRun, event: CreatePoolsEvent) -> bool {
    match event {
        CreatePoolsEvent::Started => run.phase == CreatePhase::Lookup,
        CreatePoolsEvent::CanisterCreated(_) => run.phase == CreatePhase::Creating,
        CreatePoolsEvent::Deposited(_) => run.phase == CreatePhase::Depositing && run.canister is Some
            && run.next < run.params@.tokens.len(),
        CreatePoolsEvent::Stored => run.phase == CreatePhase::Storing && run.canister is Some,
    }
}

/// Whether the action deposits the run's token at `i` into `c`.
pub open spec fn deposits_token(a: CreatePoolsAction, run: CreatePoolsRun, i: int, c: Seq<u8>) -> bool {
    a matches CreatePoolsAction::Deposit { ledger, canister, amount } && ledger@ == run.params@.tokens[i].ledger
        && canister@ == c && amount == run.params@.tokens[i].balance
}

/// Whether the action finishes with the given outcome.
pub open spec fn finishes_with(a: CreatePoolsAction, outcome: Option<CustomErrorView>) -> bool {
    match outcome {
        None => a matches CreatePoolsAction::Finish(Ok(())),
        Some(e) => a matches CreatePoolsAction::Finish(Err(err)) && err@ == e,
    }
}

/// Whether the user's pools include `name`.
pub open spec fn has_joined(v: Vault, user: Seq<u8>, name: Seq<char>) -> bool {
    v.users_pool@.contains_key(user) && str_views(v.users_pool@[user]@).contains(name)
}

/// A user who joins a pool has it among their pools.
proof fn lemma_joined_contains(m: Map<Seq<u8>, Vec<String>>, user: Seq<u8>, name: Seq<char>)
    ensures
        joined_pools(m, user, name).contains(name),
{
    let j = joined_pools(m, user, name);
    if m.contains_key(user) && !str_views(m[user]@).contains(name) {
        assert(j[j.len() - 1] == name);
    } else if !m.contains_key(user) {
        assert(j[0] == name);
    }
}

/// The token at `i` of the run, as a deposit into `c`.
fn deposit_of(run: &CreatePoolsRun, i: usize, c: &PrincipalId) -> (a: CreatePoolsAction)
    requires
        i < run.params@.tokens.len(),
    ensures
        deposits_token(a, *run, i as int, c@),
{
    let t = &run.params.pool_data[i];
    assert(t@ == run.params@.tokens[i as int]);
    CreatePoolsAction::Deposit {
        ledger: t.ledger_canister_id.clone_key(),
        canister: c.clone_key(),
        amount: t.balance,
    }
}

impl Factory {
    /// Begins creating a pool (see `begin_create_pools`: an invalid pool is
    /// refused with its error, and a pool whose name is locked with
    /// `AnotherOperationInProgress`); the run starts at the lookup of the
    /// pool's canister.
    pub fn begin_create_pools_run(&mut self, params: Pool_Data, caller: &PrincipalId) -> (r: Result<
        CreatePoolsRun,
        CustomError,
    >)
        ensures
            pool_defect(params@) matches Some(d) ==> (r matches Err(e) && e@ == d && *final(self) == *old(self)),
            pool_defect(params@) is None && lock_held(*old(self), joined_names(params@.tokens)) ==> (r matches Err(e)
                && e@ == CustomErrorView::AnotherOperationInProgress(joined_names(params@.tokens)) && *final(self)
                == *old(self)),
            pool_defect(params@) is None && !lock_held(*old(self), joined_names(params@.tokens)) ==> (r matches Ok(
                run,
            ) && run_valid(run) && run_lock_ok(*final(self), run) && run.params@ == params@ && run.caller@ == caller@ && run.phase
                == CreatePhase::Lookup && run.canister is None && final(self).locks@ == old(self).locks@.insert(
                run.name@,
                true,
            ) && final(self).pool_data == old(self).pool_data),
    {
        let name = match self.begin_create_pools(&params) {
            Err(e) => {
                return Err(e);
            },
            Ok(n) => n,
        };
        Ok(
            CreatePoolsRun {
                name,
                params,
                caller: caller.clone_key(),
                canister: None,
                next: 0,
                existing: false,
                phase: CreatePhase::Lookup,
            },
        )
    }

    /// Takes the next step of a pool creation, given what happened outside:
    /// - once started, a pool whose canister is known deposits its first
    ///   token into that canister (unless adding its liquidity would fail
    ///   on the fees, which stops the call), and a pool whose canister is
    ///   not known has one created;
    /// - a canister that could not be created ends the creation with
    ///   `CanisterCreationFailed`; a new canister is recorded for the pool
    ///   and the first token is deposited into it;
    /// - a deposit that failed ends the creation with `TokenDepositFailed`,
    ///   with nothing of the pool recorded; after a deposit that went
    ///   through the next token is deposited, and after the last one the
    ///   pool is recorded under its name, the caller's LP tokens are
    ///   minted, the caller joins the pool, and the pool is stored in its
    ///   canister;
    /// - once stored, the creation ends with success.
    /// Every end releases the pool's lock, and every other step keeps it:
    /// a run that holds its lock until it is done keeps doing so.
    pub fn create_pools_step(
        &mut self,
        state: &mut State,
        vault: &mut Vault,
        run: &mut CreatePoolsRun,
        event: CreatePoolsEvent,
    ) -> (a: CreatePoolsAction)
        requires
            run_valid(*old(run)),
            run_expects(*old(run), event),
        ensures
            run_valid(*final(run)),
            final(run).name == old(run).name,
            final(run).params == old(run).params,
            final(run).caller == old(run).caller,
            step_keeps_lock(*old(self), *old(run), a is Finish, *final(self), *final(run)),
            ({
                let name = old(run).name@;
                let ts = old(run).params@.tokens;
                match event {
                    CreatePoolsEvent::Started => {
                        &&& pool_canisters(final(state)) == pool_canisters(old(state))
                        &&& *final(vault) == *old(vault)
                        &&& match canister_of(pool_canisters(old(state)), name) {
                        Some(c) => if fee_conflict(*old(self), old(run).params@) {
                            &&& a is FeeConflict
                            &&& *final(self) == *old(self)
                            &&& *final(run) == *old(run)
                        } else {
                            &&& deposits_token(a, *old(run), 0, c)
                            &&& final(run).phase == CreatePhase::Depositing
                            &&& final(run).canister matches Some(k) && k@ == c
                            &&& final(run).next == 0
                            &&& final(run).existing
                            &&& *final(self) == *old(self)
                        },
                        None => {
                            &&& a is CreateCanister
                            &&& final(run).phase == CreatePhase::Creating
                            &&& *final(self) == *old(self)
                        },
                        }
                    },
                    CreatePoolsEvent::CanisterCreated(Err(m)) => {
                        &&& finishes_with(a, Some(CustomErrorView::CanisterCreationFailed(m@)))
                        &&& final(run).phase == CreatePhase::Done
                        &&& final(self).locks@ == old(self).locks@.remove(name)
                        &&& final(self).pool_data == old(self).pool_data
                        &&& pool_canisters(final(state)) == pool_canisters(old(state))
                        &&& *final(vault) == *old(vault)
                    },
                    CreatePoolsEvent::CanisterCreated(Ok(c)) => {
                        &&& deposits_token(a, *old(run), 0, c@)
                        &&& final(run).phase == CreatePhase::Depositing
                        &&& final(run).canister matches Some(k) && k@ == c@
                        &&& final(run).next == 0
                        &&& !final(run).existing
                        &&& pool_canisters(final(state)) == pool_canisters(old(state)).insert(name, c@)
                        &&& *final(self) == *old(self)
                        &&& *final(vault) == *old(vault)
                    },
                    CreatePoolsEvent::Deposited(false) => {
                        &&& finishes_with(a, Some(CustomErrorView::TokenDepositFailed))
                        &&& final(run).phase == CreatePhase::Done
                        &&& final(self).locks@ == old(self).locks@.remove(name)
                        &&& final(self).pool_data == old(self).pool_data
                        &&& pool_canisters(final(state)) == pool_canisters(old(state))
                        &&& *final(vault) == *old(vault)
                    },
                    CreatePoolsEvent::Deposited(true) => {
                        &&& old(run).next + 1 < ts.len() ==> {
                            &&& deposits_token(a, *old(run), old(run).next + 1, old(run).canister->0@)
                            &&& final(run).phase == CreatePhase::Depositing
                            &&& final(run).next == old(run).next + 1
                            &&& final(run).canister == old(run).canister
                            &&& *final(self) == *old(self)
                            &&& *final(vault) == *old(vault)
                        }
                        &&& old(run).next + 1 >= ts.len() ==> {
                            &&& a matches CreatePoolsAction::StoreAndMint { canister } && canister@ == old(
                                run,
                            ).canister->0@
                            &&& final(run).phase == CreatePhase::Storing
                            &&& final(run).canister == old(run).canister
                            &&& entries(*final(self)) == entries_after_store(*old(self), old(run).params@)
                            &&& final(self).locks == old(self).locks
                            &&& has_joined(*final(vault), old(run).caller@, name)
                            &&& deposit_fits(*old(vault), old(run).caller@, ts) ==> lp_minted(
                                *old(vault),
                                *final(vault),
                                old(run).caller@,
                                ts,
                            )
                            &&& !deposit_fits(*old(vault), old(run).caller@, ts) ==> {
                                &&& pools_joined(old(vault).users_pool@, final(vault).users_pool@, old(run).caller@, name)
                                &&& final(vault).total_lp_supply == old(vault).total_lp_supply
                                &&& final(vault).pool_lp_share == old(vault).pool_lp_share
                                &&& final(vault).users_lp == old(vault).users_lp
                                &&& final(vault).users_pool_lp == old(vault).users_pool_lp
                                &&& final(vault).fee_share == old(vault).fee_share
                            }
                        }
                        &&& pool_canisters(final(state)) == pool_canisters(old(state))
                    },
                    CreatePoolsEvent::Stored => {
                        &&& finishes_with(a, None)
                        &&& final(run).phase == CreatePhase::Done
                        &&& final(self).locks@ == old(self).locks@.remove(name)
                        &&& final(self).pool_data == old(self).pool_data
                        &&& pool_canisters(final(state)) == pool_canisters(old(state))
                        &&& *final(vault) == *old(vault)
                    },
                }
            }),
    {
        match event {
            CreatePoolsEvent::Started => {
                match state.pool_canister(&run.name) {
                    Some(c) => {
                        if self.has_fee_conflict(&run.params) {
                            return CreatePoolsAction::FeeConflict;
                        }
                        let a = deposit_of(run, 0, &c);
                        run.canister = Some(c);
                        run.next = 0;
                        run.existing = true;
                        run.phase = CreatePhase::Depositing;
                        a
                    },
                    None => {
                        run.phase = CreatePhase::Creating;
                        CreatePoolsAction::CreateCanister
                    },
                }
            },
            CreatePoolsEvent::CanisterCreated(Err(m)) => {
                self.release_lock(&run.name);
                run.phase = CreatePhase::Done;
                CreatePoolsAction::Finish(Err(CustomError::CanisterCreationFailed(m)))
            },
            CreatePoolsEvent::CanisterCreated(Ok(c)) => {
                state.set_pool_canister(run.name.clone_key(), &c);
                let a = deposit_of(run, 0, &c);
                run.canister = Some(c);
                run.next = 0;
                run.existing = false;
                run.phase = CreatePhase::Depositing;
                a
            },
            CreatePoolsEvent::Deposited(false) => {
                self.release_lock(&run.name);
                run.phase = CreatePhase::Done;
                CreatePoolsAction::Finish(Err(CustomError::TokenDepositFailed))
            },
            CreatePoolsEvent::Deposited(true) => {
                let canister = match &run.canister {
                    Some(c) => c.clone_key(),
                    None => {
                        proof {
                            assert(false);
                        }
                        return CreatePoolsAction::FeeConflict;
                    },
                };
                let len = run.params.pool_data.len();
                assert(len == run.params@.tokens.len());
                if run.next + 1 < len {
                    let a = deposit_of(run, run.next + 1, &canister);
                    run.next = run.next + 1;
                    a
                } else {
                    let _ = self.store_pool_data_curr(run.params.duplicate());
                    let ghost before = vault.users_pool@;
                    let _ = vault.increase_pool_lp_tokens(&run.caller, &run.params);
                    let ghost mid = vault.users_pool@;
                    let _ = vault.users_pool(&run.caller, &run.params);
                    proof {
                        let nm = joined_names(run.params@.tokens);
                        lemma_joined_contains(mid, run.caller@, nm);
                        if pools_joined(before, mid, run.caller@, nm) {
                            lemma_join_twice(before, mid, vault.users_pool@, run.caller@, nm);
                        }
                    }
                    run.phase = CreatePhase::Storing;
                    CreatePoolsAction::StoreAndMint { canister }
                }
            },
            CreatePoolsEvent::Stored => {
                self.release_lock(&run.name);
                run.phase = CreatePhase::Done;
                CreatePoolsAction::Finish(Ok(()))
            },
        }
    }
}

} // verus!
