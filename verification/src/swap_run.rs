use vstd::prelude::*;

use crate::factory::{lock_held, Factory};
use crate::order::MapKey;
use crate::principal::{spec_principal_text, PrincipalId};
use crate::routing::{compute_swap_failure, compute_swap_target, names_no_pool};
use crate::state::{canister_of, pool_canisters, State};
use crate::types::{CustomError, CustomErrorView, SwapParams};

verus! {

/// Where a swap through the factory stands.
#[derive(Clone, Copy, PartialEq, Eq, Structural, Debug)]
pub enum SwapPhase {
    /// The best pool for the swap is being searched for.
    Search,
    /// The tokens paid in are being deposited into the pool's canister.
    Depositing,
    /// The pool's canister is performing the swap.
    Swapping,
    /// The swap failed and the tokens paid in are being sent back.
    RollingBack,
    /// The swap is over and the caller's lock released.
    Done,
}

/// A swap in progress: the key of the caller's lock, the ledger and the
/// amount paid in, the canister of the chosen pool once known, the amount
/// that pool pays out, why the swap failed where it did, and where it
/// stands.
pub struct ComputeSwapRun {
    pub key: String,
    pub ledger: PrincipalId,
    pub token_amount: u128,
    pub canister: Option<PrincipalId>,
    pub swap_amount: u128,
    pub failure: String,
    pub phase: SwapPhase,
}

/// What happened outside since the last step.
pub enum ComputeSwapEvent {
    /// The search chose this pool (or answered that there is none), paying
    /// out this amount.
    Searched { pool_name: String, amount: u128 },
    /// Whether the deposit went through.
    Deposited(bool),
    /// The pool's canister performed the swap, or why it did not.
    Swapped(Result<(), String>),
    /// The tokens paid in were sent back (whether or not that worked).
    RolledBack,
}

/// What is to be done next.
pub enum ComputeSwapAction {
    /// Deposit `amount` of the token held by `ledger` from the caller into
    /// `canister`.
    Deposit { ledger: PrincipalId, canister: PrincipalId, amount: u128 },
    /// Ask `canister` to swap, paying out `amount`.
    Swap { canister: PrincipalId, amount: u128 },
    /// Ask `canister` to send `amount` back to the caller.
    Rollback { canister: PrincipalId, amount: u128 },
    /// The swap is over with this result.
    Finish(Result<(), CustomError>),
}

/// Whether the lock of the caller matches where the swap stands: held until
/// the swap is done, free once it is.
pub open spec fn swap_lock_ok(f: Factory, run: ComputeSwapRun) -> bool {
    (run.phase != SwapPhase::Done) == lock_held(f, run.key@)
}

/// What a step of a swap does to the caller's lock: the run keeps its key,
/// a lock that matched where the swap stood still matches, and the swap is
/// done exactly when the step finished it.
pub open spec fn swap_step_keeps_lock(
    f0: Factory,
    r0: ComputeSwapRun,
    finished: bool,
    f1: Factory,
    r1: ComputeSwapRun,
) -> bool {
    &&& r1.key@ == r0.key@
    &&& swap_lock_ok(f0, r0) ==> swap_lock_ok(f1, r1)
    &&& finished == (r1.phase == SwapPhase::Done)
}

/// Along the steps of a swap, the run keeps its key and the caller's lock
/// matches where it stands.
proof fn lemma_swap_trace_keeps_lock(fs: Seq<Factory>, rs: Seq<ComputeSwapRun>, finished: Seq<bool>, k: int)
    requires
        fs.len() == rs.len(),
        fs.len() == finished.len() + 1,
        swap_lock_ok(fs[0], rs[0]),
        forall|i: int|
            0 < i <= finished.len() ==> #[trigger] swap_step_keeps_lock(
                fs[i - 1],
                rs[i - 1],
                finished[i - 1],
                fs[i],
                rs[i],
            ),
        0 <= k < fs.len(),
    ensures
        swap_lock_ok(fs[k], rs[k]),
        rs[k].key@ == rs[0].key@,
    decreases k,
{
    if k > 0 {
        lemma_swap_trace_keeps_lock(fs, rs, finished, k - 1);
        assert(swap_step_keeps_lock(fs[k - 1], rs[k - 1], finished[k - 1], fs[k], rs[k]));
    }
}

/// A whole swap ends with the caller's lock free, whatever its outcome: a
/// swap begun with the lock taken (as `begin_compute_swap` leaves it),
/// taken through steps (as `compute_swap_step` takes it) of which the last
/// finishes it, leaves the caller free to swap again. `fs` are the
/// factory's states between the steps, `rs` the swap's, and `finished`
/// tells of each step whether it finished the swap.
pub proof fn lemma_swap_ends_unlocked(fs: Seq<Factory>, rs: Seq<ComputeSwapRun>, finished: Seq<bool>)
    requires
        fs.len() == rs.len(),
        fs.len() == finished.len() + 1,
        finished.len() > 0,
        swap_lock_ok(fs[0], rs[0]),
        forall|i: int|
            0 < i <= finished.len() ==> #[trigger] swap_step_keeps_lock(
                fs[i - 1],
                rs[i - 1],
                finished[i - 1],
                fs[i],
                rs[i],
            ),
        finished.last(),
    ensures
        !lock_held(fs.last(), rs[0].key@),
{
    let n = finished.len() as int;
    lemma_swap_trace_keeps_lock(fs, rs, finished, n);
    assert(swap_step_keeps_lock(fs[n - 1], rs[n - 1], finished[n - 1], fs[n], rs[n]));
}

/// Whether the event is the one the swap waits for.
pub open spec fn swap_expects(run: ComputeSwapRun, event: ComputeSwapEvent) -> bool {
    match event {
        ComputeSwapEvent::Searched { .. } => run.phase == SwapPhase::Search,
        ComputeSwapEvent::Deposited(_) => run.phase == SwapPhase::Depositing && run.canister is Some,
        ComputeSwapEvent::Swapped(_) => run.phase == SwapPhase::Swapping && run.canister is Some,
        ComputeSwapEvent::RolledBack => run.phase == SwapPhase::RollingBack && run.canister is Some,
    }
}

/// Whether the action ends the swap with the given outcome.
pub open spec fn swap_finishes_with(a: ComputeSwapAction, outcome: Option<CustomErrorView>) -> bool {
    match outcome {
        None => a matches ComputeSwapAction::Finish(Ok(())),
        Some(e) => a matches ComputeSwapAction::Finish(Err(err)) && err@ == e,
    }
}

/// The step that ends a swap: the caller's lock is released and the swap
/// is done.
pub open spec fn swap_ended(f0: Factory, f1: Factory, r0: ComputeSwapRun, r1: ComputeSwapRun) -> bool {
    &&& f1.locks@ == f0.locks@.remove(r0.key@)
    &&& f1.pool_data == f0.pool_data
    &&& r1.phase == SwapPhase::Done
}

impl Factory {
    /// Begins a swap through the factory for the caller: the caller's lock
    /// (keyed by the textual form of its principal) is taken, or the swap
    /// is refused with `AnotherOperationInProgress` where it is held (see
    /// `compute_swap_begin`); the swap starts with the search for a pool.
    pub fn begin_compute_swap(&mut self, caller: &PrincipalId, params: &SwapParams) -> (r: Result<
        ComputeSwapRun,
        CustomError,
    >)
        ensures
            lock_held(*old(self), spec_principal_text(caller@)) ==> (r matches Err(e) && e@
                == CustomErrorView::AnotherOperationInProgress(spec_principal_text(caller@)) && *final(self)
                == *old(self)),
            !lock_held(*old(self), spec_principal_text(caller@)) ==> (r matches Ok(run) && run.key@
                == spec_principal_text(caller@) && run.ledger@ == params.ledger_canister_id1@ && run.token_amount
                == params.token_amount && run.phase == SwapPhase::Search && swap_lock_ok(*final(self), run)
                && final(self).locks@ == old(self).locks@.insert(run.key@, true) && final(self).pool_data
                == old(self).pool_data),
    {
        let key = match self.compute_swap_begin(caller) {
            Err(e) => {
                return Err(e);
            },
            Ok(k) => k,
        };
        Ok(
            ComputeSwapRun {
                key,
                ledger: params.ledger_canister_id1.clone_key(),
                token_amount: params.token_amount,
                canister: None,
                swap_amount: 0,
                failure: String::new(),
                phase: SwapPhase::Search,
            },
        )
    }

    /// Takes the next step of a swap, given what happened outside:
    /// - once the search is done, a pool that was found and whose canister
    ///   is known takes the deposit of the tokens paid in; else the swap
    ///   ends with `NoCanisterIDFound`;
    /// - a deposit that failed ends the swap with `TokenDepositFailed`; one
    ///   that went through is followed by the swap in the pool's canister;
    /// - a swap that went through ends the swap with success; one that
    ///   failed has the tokens paid in sent back, after which the swap ends
    ///   with `SwappingFailed` ("Failed to perform swap: " and the reason).
    /// Every end releases the caller's lock, and every other step keeps it.
    pub fn compute_swap_step(&mut self, state: &State, run: &mut ComputeSwapRun, event: ComputeSwapEvent) -> (a:
        ComputeSwapAction)
        requires
            swap_expects(*old(run), event),
        ensures
            final(run).key == old(run).key,
            final(run).ledger == old(run).ledger,
            final(run).token_amount == old(run).token_amount,
            swap_step_keeps_lock(*old(self), *old(run), a is Finish, *final(self), *final(run)),
            match event {
                ComputeSwapEvent::Searched { pool_name, amount } => {
                    if names_no_pool(pool_name@) || canister_of(pool_canisters(state), pool_name@) is None {
                        &&& swap_finishes_with(a, Some(CustomErrorView::NoCanisterIDFound))
                        &&& swap_ended(*old(self), *final(self), *old(run), *final(run))
                    } else {
                        let c = canister_of(pool_canisters(state), pool_name@)->0;
                        &&& a matches ComputeSwapAction::Deposit { ledger, canister, amount: m } && ledger@
                            == old(run).ledger@ && canister@ == c && m == old(run).token_amount
                        &&& final(run).canister matches Some(k) && k@ == c
                        &&& final(run).swap_amount == amount
                        &&& final(run).phase == SwapPhase::Depositing
                        &&& *final(self) == *old(self)
                    }
                },
                ComputeSwapEvent::Deposited(false) => {
                    &&& swap_finishes_with(a, Some(CustomErrorView::TokenDepositFailed))
                    &&& swap_ended(*old(self), *final(self), *old(run), *final(run))
                },
                ComputeSwapEvent::Deposited(true) => {
                    &&& a matches ComputeSwapAction::Swap { canister, amount } && canister@ == old(run).canister->0@
                        && amount == old(run).swap_amount
                    &&& final(run).phase == SwapPhase::Swapping
                    &&& final(run).canister == old(run).canister
                    &&& *final(self) == *old(self)
                },
                ComputeSwapEvent::Swapped(Ok(())) => {
                    &&& swap_finishes_with(a, None)
                    &&& swap_ended(*old(self), *final(self), *old(run), *final(run))
                },
                ComputeSwapEvent::Swapped(Err(m)) => {
                    &&& a matches ComputeSwapAction::Rollback { canister, amount } && canister@ == old(
                        run,
                    ).canister->0@ && amount == old(run).token_amount
                    &&& final(run).phase == SwapPhase::RollingBack
                    &&& final(run).canister == old(run).canister
                    &&& final(run).failure@ == m@
                    &&& *final(self) == *old(self)
                },
                ComputeSwapEvent::RolledBack => {
                    &&& swap_finishes_with(
                        a,
                        Some(CustomErrorView::SwappingFailed("Failed to perform swap: "@ + old(run).failure@)),
                    )
                    &&& swap_ended(*old(self), *final(self), *old(run), *final(run))
                },
            },
    {
        match event {
            ComputeSwapEvent::Searched { pool_name, amount } => {
                match compute_swap_target(state, &pool_name) {
                    Err(e) => {
                        self.release_lock(&run.key);
                        run.phase = SwapPhase::Done;
                        ComputeSwapAction::Finish(Err(e))
                    },
                    Ok(c) => {
                        let a = ComputeSwapAction::Deposit {
                            ledger: run.ledger.clone_key(),
                            canister: c.clone_key(),
                            amount: run.token_amount,
                        };
                        run.canister = Some(c);
                        run.swap_amount = amount;
                        run.phase = SwapPhase::Depositing;
                        a
                    },
                }
            },
            ComputeSwapEvent::Deposited(false) => {
                self.release_lock(&run.key);
                run.phase = SwapPhase::Done;
                ComputeSwapAction::Finish(Err(CustomError::TokenDepositFailed))
            },
            ComputeSwapEvent::Deposited(true) => {
                let canister = match &run.canister {
                    Some(c) => c.clone_key(),
                    None => {
                        proof {
                            assert(false);
                        }
                        return ComputeSwapAction::Finish(Ok(()));
                    },
                };
                run.phase = SwapPhase::Swapping;
                ComputeSwapAction::Swap { canister, amount: run.swap_amount }
            },
            ComputeSwapEvent::Swapped(Ok(())) => {
                self.release_lock(&run.key);
                run.phase = SwapPhase::Done;
                ComputeSwapAction::Finish(Ok(()))
            },
            ComputeSwapEvent::Swapped(Err(m)) => {
                let canister = match &run.canister {
                    Some(c) => c.clone_key(),
                    None => {
                        proof {
                            assert(false);
                        }
                        return ComputeSwapAction::Finish(Ok(()));
                    },
                };
                run.failure = m;
                run.phase = SwapPhase::RollingBack;
                ComputeSwapAction::Rollback { canister, amount: run.token_amount }
            },
            ComputeSwapEvent::RolledBack => {
                self.release_lock(&run.key);
                run.phase = SwapPhase::Done;
                ComputeSwapAction::Finish(Err(compute_swap_failure(run.failure.as_str())))
            },
        }
    }
}

} // verus!
