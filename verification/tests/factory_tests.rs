use valueswap::factory::Factory;
use valueswap::principal::PrincipalId;
use valueswap::types::{CreatePoolParams, CustomError, Pool_Data, SwapParams};

fn token(name: &str, balance: u128, weight: u128) -> CreatePoolParams {
    CreatePoolParams {
        token_name: name.to_string(),
        balance,
        weight,
        value: 1,
        ledger_canister_id: PrincipalId::from_slice(&[9, name.len() as u8]).unwrap(),
        image: "image.png".to_string(),
    }
}

fn pool(names: &[&str], fee: u128) -> Pool_Data {
    Pool_Data { pool_data: names.iter().map(|n| token(n, 100, 50)).collect(), swap_fee: fee }
}

fn swap(a: &str, b: &str, amount: u128) -> SwapParams {
    SwapParams {
        token1_name: a.to_string(),
        token_amount: amount,
        token2_name: b.to_string(),
        ledger_canister_id1: PrincipalId::from_slice(&[1]).unwrap(),
        ledger_canister_id2: PrincipalId::from_slice(&[2]).unwrap(),
    }
}

#[test]
fn test_create_pools_success() {
    let mut f = Factory::new();
    let params = pool(&["token1", "token2"], 3);
    let name = f.begin_create_pools(&params).unwrap();
    assert_eq!(name, "token1token2");
    assert_eq!(f.store_pool_data_curr(params), Ok(()));
    f.release_lock(&name);
    let again = pool(&["token1", "token2"], 3);
    assert_eq!(f.begin_create_pools(&again), Ok("token1token2".to_string()));
}

#[test]
fn test_create_pools_empty_data() {
    let mut f = Factory::new();
    let params = Pool_Data { pool_data: vec![], swap_fee: 0 };
    assert_eq!(f.begin_create_pools(&params), Err(CustomError::PoolDataEmpty));
}

#[test]
fn test_create_pools_another_operation_in_progress() {
    let mut f = Factory::new();
    assert_eq!(f.try_lock("token1".to_string()), Ok(()));
    let params = pool(&["token1"], 3);
    assert_eq!(
        f.begin_create_pools(&params),
        Err(CustomError::AnotherOperationInProgress("token1".to_string()))
    );
}

#[test]
fn lock_is_exclusive_until_released() {
    let mut f = Factory::new();
    assert_eq!(f.try_lock("p".to_string()), Ok(()));
    assert_eq!(f.try_lock("p".to_string()), Err(CustomError::AnotherOperationInProgress("p".to_string())));
    assert_eq!(f.try_lock("q".to_string()), Ok(()));
    f.release_lock(&"p".to_string());
    assert_eq!(f.try_lock("p".to_string()), Ok(()));
}

#[test]
fn stored_pools_are_read_back_in_order() {
    let mut f = Factory::new();
    assert_eq!(f.get_specific_pool_data(&"ckBTCckETH".to_string()).err(), Some("Pool not found".to_string()));
    f.store_pool_data_curr(pool(&["ckBTC", "ckETH"], 3)).unwrap();
    f.store_pool_data_curr(pool(&["ckBTC", "ckETH"], 5)).unwrap();
    let got = f.get_specific_pool_data(&"ckBTCckETH".to_string()).unwrap();
    assert_eq!(got.len(), 2);
    assert_eq!(got[0].swap_fee, 3);
    assert_eq!(got[1].swap_fee, 5);
    assert_eq!(got[1].pool_data[0].token_name, "ckBTC");
}

#[test]
fn add_liquidity_appends_unless_a_fee_is_smaller() {
    let mut f = Factory::new();
    let first = pool(&["ckBTC", "ckETH"], 5);
    assert!(!f.has_fee_conflict(&first));
    f.add_liquidity_curr(first).unwrap();
    let lower = pool(&["ckBTC", "ckETH"], 3);
    assert!(!f.has_fee_conflict(&lower));
    f.add_liquidity_curr(lower).unwrap();
    assert_eq!(f.get_specific_pool_data(&"ckBTCckETH".to_string()).unwrap().len(), 2);
    let higher = pool(&["ckBTC", "ckETH"], 9);
    assert!(f.has_fee_conflict(&higher));
    assert!(!f.has_fee_conflict(&pool(&["ckETH", "ckBTC"], 9)));
}

#[test]
fn get_pool_data_lists_names_in_order() {
    let mut f = Factory::new();
    f.store_pool_data_curr(pool(&["ckETH", "ckUSDC"], 1)).unwrap();
    f.store_pool_data_curr(pool(&["ckBTC", "ckETH"], 1)).unwrap();
    let all = f.get_pool_data();
    let names: Vec<&str> = all.iter().map(|(k, _)| k.as_str()).collect();
    assert_eq!(names, vec!["ckBTCckETH", "ckETHckUSDC"]);
    assert_eq!(all[0].1.len(), 1);
}

#[test]
fn search_swap_pool_finds_names_holding_both_tokens() {
    let mut f = Factory::new();
    f.store_pool_data_curr(pool(&["ckETH", "ckUSDC"], 1)).unwrap();
    f.store_pool_data_curr(pool(&["ckBTC", "ckETH"], 1)).unwrap();
    f.store_pool_data_curr(pool(&["ckBTC", "ckUSDC"], 1)).unwrap();
    assert_eq!(f.search_swap_pool(&swap("ckBTC", "ckETH", 1)), Ok(vec!["ckBTCckETH".to_string()]));
    assert_eq!(
        f.search_swap_pool(&swap("ck", "ck", 1)),
        Ok(vec!["ckBTCckETH".to_string(), "ckBTCckUSDC".to_string(), "ckETHckUSDC".to_string()])
    );
    assert_eq!(f.search_swap_pool(&swap("ckBTC", "ICP", 1)), Err("No matching pools found.".to_string()));
}

#[test]
fn create_pools_refuses_an_invalid_pool_before_locking() {
    let mut f = Factory::new();
    let mut params = pool(&["ckBTC"], 5);
    params.pool_data[0].token_name = "".to_string();
    assert_eq!(
        f.begin_create_pools(&params),
        Err(CustomError::InvalidInput("Token name cannot be empty or exceed 100 characters".to_string()))
    );
    let mut zero = pool(&["ckBTC"], 5);
    zero.pool_data[0].weight = 0;
    assert_eq!(
        f.begin_create_pools(&zero),
        Err(CustomError::InvalidInput("Weight and value must be greater than zero".to_string()))
    );
    assert_eq!(f.try_lock("ckBTC".to_string()), Ok(()));
}
