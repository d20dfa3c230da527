use valueswap::principal::PrincipalId;
use valueswap::swap_pool::{
    burn_failure_message, burn_tokens_plan, check_pool_request, get_burned_tokens, rollback_failure_message, swap_precheck,
    swap_transfer_failure, SwapError, SwapPoolState,
};
use valueswap::types::{CreatePoolParams, Pool_Data, SwapParams};

fn token(name: &str, balance: u128) -> CreatePoolParams {
    CreatePoolParams {
        token_name: name.to_string(),
        balance,
        weight: 50,
        value: 1,
        ledger_canister_id: PrincipalId::from_slice(&[9]).unwrap(),
        image: "image.png".to_string(),
    }
}

fn pool(tokens: Vec<CreatePoolParams>) -> Pool_Data {
    Pool_Data { pool_data: tokens, swap_fee: 3 }
}

fn user(b: u8) -> PrincipalId {
    PrincipalId::from_slice(&[b, 2, 3]).unwrap()
}

fn swap(a: &str, b: &str, amount: u128) -> SwapParams {
    SwapParams {
        token1_name: a.to_string(),
        token_amount: amount,
        token2_name: b.to_string(),
        ledger_canister_id1: PrincipalId::from_slice(&[1]).unwrap(),
        ledger_canister_id2: PrincipalId::from_slice(&[2]).unwrap(),
    }
}

#[test]
fn store_pool_data_checks_the_request() {
    let mut s = SwapPoolState::new();
    let anon = PrincipalId::anonymous();
    assert_eq!(
        s.store_pool_data(&anon, pool(vec![token("ckBTC", 1)])),
        Err("Invalid user principal: Cannot be anonymous.".to_string())
    );
    assert_eq!(s.store_pool_data(&user(1), pool(vec![])), Err("Invalid pool data: PoolDataEmpty".to_string()));
    assert_eq!(s.get_pool_balance(&user(1)), None);
}

#[test]
fn store_pool_data_adds_the_balances() {
    let mut s = SwapPoolState::new();
    s.store_pool_data(&user(1), pool(vec![token("ckBTC", 100), token("ckETH", 200)])).unwrap();
    assert_eq!(s.get_pool_balance(&user(1)), Some(300));
    s.add_liquidity_to_pool(&user(1), pool(vec![token("ckBTC", 5)])).unwrap();
    assert_eq!(s.get_pool_balance(&user(1)), Some(305));
    assert_eq!(s.get_pool_balance(&user(2)), None);
    assert_eq!(s.get_pool_balance(&PrincipalId::anonymous()), None);
}

#[test]
fn pool_balance_ignores_anonymous_and_empty_pools() {
    let mut s = SwapPoolState::new();
    assert!(s.pool_balance(&PrincipalId::anonymous(), &pool(vec![token("ckBTC", 5)])).is_ok());
    assert!(s.pool_balance(&user(1), &pool(vec![])).is_ok());
    assert_eq!(s.get_pool_balance(&user(1)), None);
    assert!(s.pool_balance(&user(1), &pool(vec![token("ckBTC", 5)])).is_ok());
    assert_eq!(s.get_pool_balance(&user(1)), Some(5));
    assert!(matches!(s.pool_balance(&user(1), &pool(vec![token("ckBTC", u128::MAX)])), Err(SwapError::OverflowError)));
    assert_eq!(s.get_pool_balance(&user(1)), Some(5));
}

#[test]
fn apply_swap_without_users() {
    let mut s = SwapPoolState::new();
    assert_eq!(s.apply_swap(&swap("ckBTC", "ckETH", 10), 5), Err("No pool data found.".to_string()));
}

#[test]
fn apply_swap_moves_the_shares() {
    let mut s = SwapPoolState::new();
    s.store_pool_data(&user(1), pool(vec![token("ckBTC", 100), token("ckETH", 200)])).unwrap();
    s.store_pool_data(&user(2), pool(vec![token("ckBTC", 40), token("ckETH", 10)])).unwrap();
    // two users: each gives 30 / 2 of ckBTC and takes 51 / 2 of ckETH
    assert_eq!(s.apply_swap(&swap("ckBTC", "ckETH", 30), 51), Ok(()));
    let p1 = s.pool_data.get(&user(1)).unwrap();
    assert_eq!(p1[0].pool_data[0].balance, 85);
    assert_eq!(p1[0].pool_data[1].balance, 225);
    let p2 = s.pool_data.get(&user(2)).unwrap();
    assert_eq!(p2[0].pool_data[0].balance, 25);
    assert_eq!(p2[0].pool_data[1].balance, 35);
}

#[test]
fn apply_swap_reports_the_first_short_user() {
    let mut s = SwapPoolState::new();
    s.store_pool_data(&user(1), pool(vec![token("ckBTC", 100), token("ckETH", 200)])).unwrap();
    s.store_pool_data(&user(2), pool(vec![token("ckBTC", 4), token("ckETH", 10)])).unwrap();
    s.store_pool_data(&user(3), pool(vec![token("ckBTC", 1), token("ckETH", 10)])).unwrap();
    let expected = format!(
        "User {:?} has insufficient balance for token ckBTC",
        candid::Principal::from_slice(&[2, 2, 3])
    );
    assert_eq!(s.apply_swap(&swap("ckBTC", "ckETH", 30), 3), Err(expected));
    // nothing changed
    assert_eq!(s.pool_data.get(&user(1)).unwrap()[0].pool_data[0].balance, 100);
}

#[test]
fn apply_swap_needs_both_tokens() {
    let mut s = SwapPoolState::new();
    s.store_pool_data(&user(1), pool(vec![token("ckETH", 200)])).unwrap();
    assert_eq!(s.apply_swap(&swap("ckBTC", "ckETH", 2), 3), Err("Insufficient balance.".to_string()));
    assert_eq!(s.apply_swap(&swap("ckETH", "ckBTC", 2), 3), Err("Insufficient liquidity.".to_string()));
}

#[test]
fn apply_swap_refuses_an_overflowing_balance() {
    let mut s = SwapPoolState::new();
    s.store_pool_data(&user(1), pool(vec![token("ckBTC", 10), token("ckETH", u128::MAX - 10)])).unwrap();
    assert_eq!(s.apply_swap(&swap("ckBTC", "ckETH", 2), 11), Err("OverflowError".to_string()));
    assert_eq!(s.pool_data.get(&user(1)).unwrap()[0].pool_data[0].balance, 10);
}

#[test]
fn swap_precheck_messages() {
    let p = swap("ckBTC", "ckETH", 2);
    assert_eq!(
        swap_precheck(&PrincipalId::anonymous(), &p, 5),
        Err("Invalid user principal: Cannot be anonymous.".to_string())
    );
    assert_eq!(
        swap_precheck(&user(1), &swap(" ", "ckETH", 2), 5),
        Err("Invalid SwapParams: Token names cannot be empty.".to_string())
    );
    assert_eq!(swap_precheck(&user(1), &p, 0), Err("Transfer amount must be greater than zero.".to_string()));
    assert_eq!(swap_precheck(&user(1), &p, 5), Ok(()));
}

#[test]
fn burned_tokens_follow_the_weights() {
    let p = Pool_Data {
        pool_data: vec![
            CreatePoolParams { weight: 80, ..token("ckBTC", 1) },
            CreatePoolParams { weight: 20, ..token("ckETH", 1) },
        ],
        swap_fee: 3,
    };
    assert_eq!(get_burned_tokens(&p, &user(1), 1_000_000_000_000_000_000), Ok(vec![80, 20]));
    assert_eq!(
        get_burned_tokens(&p, &PrincipalId::anonymous(), 1),
        Err("Invalid user principal: Cannot be anonymous.".to_string())
    );
    assert_eq!(get_burned_tokens(&p, &user(1), u128::MAX), Err("OverflowError".to_string()));
    assert_eq!(check_pool_request(&user(1), &p), Ok(()));
}

#[test]
fn failure_messages_name_the_user() {
    let u = user(1);
    assert_eq!(
        burn_failure_message("ckBTC", &u, "boom"),
        format!("Token transfer failed for ckBTC for user {}: boom", candid::Principal::from_slice(&[1, 2, 3]))
    );
    assert_eq!(
        rollback_failure_message(&u, "ckETH", "boom"),
        format!("Rollback failed for user {} on token ckETH: boom", candid::Principal::from_slice(&[1, 2, 3]))
    );
    assert_eq!(
        swap_transfer_failure(&u, "\"no\""),
        format!("Token transfer failed for user {}: \"no\"", candid::Principal::from_slice(&[1, 2, 3]))
    );
}

#[test]
fn swap_error_texts() {
    assert_eq!(SwapError::OverflowError.describe(), "OverflowError");
    assert_eq!(SwapError::InSufficientBalance.describe(), "Insufficiant Balance");
    assert_eq!(SwapError::UserNotFound.describe(), "UserNotFount");
    let e: SwapError = SwapError::from("bad".to_string());
    assert_eq!(e.describe(), "Internal error: bad");
}

#[test]
fn burn_plan_pays_each_ledger_its_burned_amount() {
    let p = Pool_Data {
        pool_data: vec![
            CreatePoolParams { weight: 80, ledger_canister_id: PrincipalId::from_slice(&[7]).unwrap(), ..token("ckBTC", 1) },
            CreatePoolParams { weight: 20, ..token("ckETH", 1) },
        ],
        swap_fee: 3,
    };
    let plan = burn_tokens_plan(&p, &user(1), 1_000_000_000_000_000_000).unwrap();
    let got: Vec<(Vec<u8>, u128)> = plan.iter().map(|(l, a)| (l.as_bytes().to_vec(), *a)).collect();
    assert_eq!(got, vec![(vec![7u8], 80u128), (vec![9u8], 20u128)]);
    assert_eq!(
        burn_tokens_plan(&p, &PrincipalId::anonymous(), 1).err(),
        Some("Invalid user principal: Cannot be anonymous.".to_string())
    );
    assert_eq!(burn_tokens_plan(&p, &user(1), u128::MAX).err(), Some("OverflowError".to_string()));
}
