use valueswap::factory::Factory;
use valueswap::principal::PrincipalId;
use valueswap::state::State;
use valueswap::swap_run::{ComputeSwapAction, ComputeSwapEvent, SwapPhase};
use valueswap::types::{CustomError, SwapParams};

fn caller() -> PrincipalId {
    PrincipalId::from_slice(&[3, 3]).unwrap()
}

fn params() -> SwapParams {
    SwapParams {
        token1_name: "ckBTC".to_string(),
        token_amount: 700,
        token2_name: "ckETH".to_string(),
        ledger_canister_id1: PrincipalId::from_slice(&[1]).unwrap(),
        ledger_canister_id2: PrincipalId::from_slice(&[2]).unwrap(),
    }
}

fn state_with_pool() -> State {
    let mut s = State::new();
    s.set_pool_canister("ckBTCckETH".to_string(), &PrincipalId::from_slice(&[9, 9]).unwrap());
    s
}

fn searched(name: &str) -> ComputeSwapEvent {
    ComputeSwapEvent::Searched { pool_name: name.to_string(), amount: 42 }
}

#[test]
fn a_swap_that_goes_through_releases_the_lock() {
    let (mut f, s) = (Factory::new(), state_with_pool());
    let mut run = f.begin_compute_swap(&caller(), &params()).unwrap();
    match f.compute_swap_step(&s, &mut run, searched("ckBTCckETH")) {
        ComputeSwapAction::Deposit { ledger, canister, amount } => {
            assert_eq!(ledger.as_bytes(), &[1]);
            assert_eq!(canister.as_bytes(), &[9, 9]);
            assert_eq!(amount, 700);
        }
        _ => panic!("expected a deposit"),
    }
    assert_eq!(
        f.begin_compute_swap(&caller(), &params()).err(),
        Some(CustomError::AnotherOperationInProgress(caller().to_text()))
    );
    match f.compute_swap_step(&s, &mut run, ComputeSwapEvent::Deposited(true)) {
        ComputeSwapAction::Swap { canister, amount } => {
            assert_eq!(canister.as_bytes(), &[9, 9]);
            assert_eq!(amount, 42);
        }
        _ => panic!("expected the swap"),
    }
    assert!(matches!(
        f.compute_swap_step(&s, &mut run, ComputeSwapEvent::Swapped(Ok(()))),
        ComputeSwapAction::Finish(Ok(()))
    ));
    assert!(run.phase == SwapPhase::Done);
    assert!(f.begin_compute_swap(&caller(), &params()).is_ok());
}

#[test]
fn a_swap_without_a_pool_is_refused() {
    let (mut f, s) = (Factory::new(), state_with_pool());
    let mut run = f.begin_compute_swap(&caller(), &params()).unwrap();
    match f.compute_swap_step(&s, &mut run, searched("No suitable pool found.")) {
        ComputeSwapAction::Finish(Err(e)) => assert_eq!(e, CustomError::NoCanisterIDFound),
        _ => panic!("expected the swap to be refused"),
    }
    let mut run = f.begin_compute_swap(&caller(), &params()).unwrap();
    match f.compute_swap_step(&s, &mut run, searched("ckETHckUSDC")) {
        ComputeSwapAction::Finish(Err(e)) => assert_eq!(e, CustomError::NoCanisterIDFound),
        _ => panic!("expected the swap to be refused"),
    }
    assert!(f.begin_compute_swap(&caller(), &params()).is_ok());
}

#[test]
fn a_failed_deposit_ends_the_swap() {
    let (mut f, s) = (Factory::new(), state_with_pool());
    let mut run = f.begin_compute_swap(&caller(), &params()).unwrap();
    let _ = f.compute_swap_step(&s, &mut run, searched("ckBTCckETH"));
    match f.compute_swap_step(&s, &mut run, ComputeSwapEvent::Deposited(false)) {
        ComputeSwapAction::Finish(Err(e)) => assert_eq!(e, CustomError::TokenDepositFailed),
        _ => panic!("expected the swap to fail"),
    }
    assert!(f.begin_compute_swap(&caller(), &params()).is_ok());
}

#[test]
fn a_refused_swap_sends_the_tokens_back() {
    let (mut f, s) = (Factory::new(), state_with_pool());
    let mut run = f.begin_compute_swap(&caller(), &params()).unwrap();
    let _ = f.compute_swap_step(&s, &mut run, searched("ckBTCckETH"));
    let _ = f.compute_swap_step(&s, &mut run, ComputeSwapEvent::Deposited(true));
    match f.compute_swap_step(&s, &mut run, ComputeSwapEvent::Swapped(Err("no balance".to_string()))) {
        ComputeSwapAction::Rollback { canister, amount } => {
            assert_eq!(canister.as_bytes(), &[9, 9]);
            assert_eq!(amount, 700);
        }
        _ => panic!("expected the tokens to be sent back"),
    }
    match f.compute_swap_step(&s, &mut run, ComputeSwapEvent::RolledBack) {
        ComputeSwapAction::Finish(Err(e)) => {
            assert_eq!(e, CustomError::SwappingFailed("Failed to perform swap: no balance".to_string()))
        }
        _ => panic!("expected the swap to fail"),
    }
    assert!(f.begin_compute_swap(&caller(), &params()).is_ok());
}
