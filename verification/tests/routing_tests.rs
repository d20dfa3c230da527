use valueswap::factory::Factory;
use valueswap::principal::PrincipalId;
use valueswap::routing::{
    choose_best_pool, compute_swap_failure, compute_swap_target, creation_error_message, get_pool_canister_id,
    prevent_anonymous, SwapCandidate,
};
use valueswap::state::State;
use valueswap::types::{CreatePoolParams, CustomError, Pool_Data, SwapParams};

fn token(name: &str, weight: u128, ledger: u8) -> CreatePoolParams {
    CreatePoolParams {
        token_name: name.to_string(),
        balance: 100,
        weight,
        value: 1,
        ledger_canister_id: PrincipalId::from_slice(&[ledger]).unwrap(),
        image: "image.png".to_string(),
    }
}

fn swap(a: &str, b: &str, amount: u128) -> SwapParams {
    SwapParams {
        token1_name: a.to_string(),
        token_amount: amount,
        token2_name: b.to_string(),
        ledger_canister_id1: PrincipalId::from_slice(&[1]).unwrap(),
        ledger_canister_id2: PrincipalId::from_slice(&[2]).unwrap(),
    }
}

fn candidate(key: &str, w_in: u128, w_out: u128, amount: u128) -> SwapCandidate {
    SwapCandidate {
        pool_key: key.to_string(),
        ledger_in: PrincipalId::from_slice(&[1]).unwrap(),
        ledger_out: PrincipalId::from_slice(&[2]).unwrap(),
        canister: PrincipalId::from_slice(&[3]).unwrap(),
        weight_in: w_in,
        weight_out: w_out,
        amount_in: amount,
    }
}

#[test]
fn swap_candidates_need_both_tokens_and_a_canister() {
    let mut f = Factory::new();
    f.store_pool_data_curr(Pool_Data { pool_data: vec![token("ckBTC", 80, 1), token("ckETH", 20, 2)], swap_fee: 3 })
        .unwrap();
    let mut state = State::new();
    let params = swap("ckBTC", "ckETH", 10);
    assert_eq!(f.swap_candidates(&state, &params).unwrap().len(), 0);
    state.set_pool_canister("ckBTCckETH".to_string(), &PrincipalId::from_slice(&[7, 7]).unwrap());
    let cs = f.swap_candidates(&state, &params).unwrap();
    assert_eq!(cs.len(), 1);
    assert_eq!(cs[0].pool_key, "ckBTCckETH");
    assert_eq!(cs[0].weight_in, 80);
    assert_eq!(cs[0].weight_out, 20);
    assert_eq!(cs[0].amount_in, 10);
    assert_eq!(cs[0].ledger_in.as_bytes(), &[1]);
    assert_eq!(cs[0].ledger_out.as_bytes(), &[2]);
    assert_eq!(cs[0].canister.as_bytes(), &[7, 7]);
    let none = f.swap_candidates(&state, &swap("ckBTC", "ICP", 10));
    assert_eq!(none.err(), Some("No matching pools found.".to_string()));
}

#[test]
fn choose_best_pool_takes_the_largest_quote() {
    let cs = vec![candidate("a", 50, 50, 1000), candidate("b", 100, 50, 1000)];
    let bals = vec![(1000, 1000), (1000, 1000)];
    assert_eq!(choose_best_pool(&cs, &bals), Some(("b".to_string(), 750)));
}

#[test]
fn choose_best_pool_prefers_the_later_of_equals() {
    let cs = vec![candidate("a", 50, 50, 1000), candidate("b", 50, 50, 1000), candidate("c", 50, 100, 1)];
    let bals = vec![(1000, 1000), (1000, 1000), (1000, 0)];
    assert_eq!(choose_best_pool(&cs, &bals), Some(("b".to_string(), 500)));
}

#[test]
fn choose_best_pool_without_candidates() {
    assert_eq!(choose_best_pool(&vec![], &vec![]), Some(("No suitable pool found.".to_string(), 0)));
}

#[test]
fn choose_best_pool_overflow_is_none() {
    let cs = vec![candidate("a", 50, 50, 1)];
    assert_eq!(choose_best_pool(&cs, &vec![(u128::MAX - 1, 10)]), None);
}

#[test]
fn compute_swap_target_needs_a_known_pool() {
    let mut state = State::new();
    state.set_pool_canister("ckBTCckETH".to_string(), &PrincipalId::from_slice(&[5]).unwrap());
    assert_eq!(
        compute_swap_target(&state, &"No suitable pool found.".to_string()).err(),
        Some(CustomError::NoCanisterIDFound)
    );
    assert_eq!(
        compute_swap_target(&state, &"No matching pools found.".to_string()).err(),
        Some(CustomError::NoCanisterIDFound)
    );
    assert_eq!(compute_swap_target(&state, &"ckETHckBTC".to_string()).err(), Some(CustomError::NoCanisterIDFound));
    assert_eq!(compute_swap_target(&state, &"ckBTCckETH".to_string()).unwrap().as_bytes(), &[5]);
}

#[test]
fn compute_swap_locks_the_user() {
    let mut f = Factory::new();
    let user = PrincipalId::from_slice(&[1, 2, 3]).unwrap();
    let key = f.compute_swap_begin(&user).unwrap();
    assert_eq!(key, user.to_text());
    assert_eq!(f.compute_swap_begin(&user).err(), Some(CustomError::AnotherOperationInProgress(user.to_text())));
    f.release_lock(&key);
    assert!(f.compute_swap_begin(&user).is_ok());
}

#[test]
fn compute_swap_failure_message() {
    assert_eq!(
        compute_swap_failure("(CanisterReject, \"no\")"),
        CustomError::SwappingFailed("Failed to perform swap: (CanisterReject, \"no\")".to_string())
    );
}

#[test]
fn pool_canister_id_joins_the_token_names() {
    let mut state = State::new();
    state.set_pool_canister("ckBTCckETH".to_string(), &PrincipalId::from_slice(&[5, 6]).unwrap());
    assert_eq!(get_pool_canister_id(&state, "ckBTC", "ckETH").unwrap().as_bytes(), &[5, 6]);
    assert!(get_pool_canister_id(&state, "ckETH", "ckBTC").is_none());
}

#[test]
fn prevent_anonymous_refuses_only_the_anonymous_principal() {
    assert_eq!(prevent_anonymous(&PrincipalId::anonymous()), Err("Anonymous access not allowed".to_string()));
    assert_eq!(prevent_anonymous(&PrincipalId::from_slice(&[1]).unwrap()), Ok(()));
}

#[test]
fn creation_error_message_prefixes_the_reason() {
    assert_eq!(creation_error_message("out of cycles"), "Error: out of cycles");
}
