use valueswap::principal::PrincipalId;
use valueswap::state::State;
use valueswap::types::{CreatePoolParams, CustomError, Pool_Data};
use valueswap::vault::Vault;
use valueswap::vault_ops::{burn_precheck, lp_transfer_step, LpTransferStep};

fn token(name: &str, balance: u128, value: u128) -> CreatePoolParams {
    CreatePoolParams {
        token_name: name.to_string(),
        balance,
        weight: 50,
        value,
        ledger_canister_id: PrincipalId::from_slice(&[9]).unwrap(),
        image: "image.png".to_string(),
    }
}

fn pool() -> Pool_Data {
    Pool_Data { pool_data: vec![token("ckBTC", 1000, 10), token("ckETH", 500, 20)], swap_fee: 3 }
}

fn user(b: u8) -> PrincipalId {
    PrincipalId::from_slice(&[b, 1]).unwrap()
}

fn name() -> String {
    "ckBTCckETH".to_string()
}

#[test]
fn deposit_mints_a_thousandth_of_the_worth() {
    let mut v = Vault::new();
    // worth 1000 * 10 + 500 * 20 = 20000, a thousandth is 20
    assert_eq!(v.increase_pool_lp_tokens(&user(1), &pool()), Ok(()));
    assert_eq!(v.get_pool_lp_tokens(&name()), 20);
    assert_eq!(v.get_total_lp(), 20);
    let mine = v.get_user_pools_with_lp(&user(1)).unwrap();
    assert_eq!(mine.get(&name()), Some(&20));
    assert_eq!(v.get_users_pool(&user(1)), Ok(Some(vec![name()])));
    assert_eq!(v.increase_pool_lp_tokens(&user(2), &pool()), Ok(()));
    assert_eq!(v.get_pool_lp_tokens(&name()), 40);
    assert_eq!(v.get_total_lp(), 40);
    assert_eq!(v.total_lp_tokens(), Ok(()));
    assert_eq!(v.get_total_lp(), 40);
}

#[test]
fn deposit_refuses_an_invalid_pool() {
    let mut v = Vault::new();
    let bad = Pool_Data { pool_data: vec![], swap_fee: 3 };
    assert_eq!(v.increase_pool_lp_tokens(&user(1), &bad), Err(CustomError::PoolDataEmpty));
    assert_eq!(v.get_total_lp(), 0);
    assert_eq!(v.get_pool_lp_tokens(&"  ".to_string()), 0);
}

#[test]
fn join_then_leave_restores_the_pools() {
    let mut v = Vault::new();
    assert_eq!(v.get_users_pool(&user(1)), Ok(None));
    v.users_pool(&user(1), &pool()).unwrap();
    v.users_pool(&user(1), &pool()).unwrap();
    assert_eq!(v.get_users_pool(&user(1)), Ok(Some(vec![name()])));
    v.remove_user_pool(&user(1), &pool()).unwrap();
    assert_eq!(v.get_users_pool(&user(1)), Ok(None));
    assert_eq!(
        v.get_users_pool(&PrincipalId::anonymous()),
        Err(CustomError::InvalidInput("Anonymous principal is not allowed.".to_string()))
    );
}

#[test]
fn decreases_report_their_messages() {
    let mut v = Vault::new();
    v.increase_pool_lp_tokens(&user(1), &pool()).unwrap();
    assert_eq!(v.decrease_pool_lp(&" ".to_string(), 1), Err("Pool name cannot be empty.".to_string()));
    assert_eq!(v.decrease_pool_lp(&name(), 0), Err("Amount to decrease must be greater than zero.".to_string()));
    assert_eq!(v.decrease_pool_lp(&"x".to_string(), 1), Err("Pool not found: x".to_string()));
    assert_eq!(
        v.decrease_pool_lp(&name(), 5000),
        Err("Insufficient LP tokens in pool 'ckBTCckETH'. Available: 20, Required: 5_000".to_string())
    );
    assert_eq!(
        v.decrease_user_pool_lp(&user(2), &name(), 1),
        Err(format!("User '{}' not found", user(2).to_text()))
    );
    assert_eq!(v.decrease_total_lp(0), Err("Amount to decrease must be greater than zero.".to_string()));
    assert_eq!(v.decrease_total_lp(21), Err("Insufficient total LP tokens to decrease.".to_string()));
}

#[test]
fn finish_burn_takes_from_pool_user_and_total() {
    let mut v = Vault::new();
    v.increase_pool_lp_tokens(&user(1), &pool()).unwrap();
    assert_eq!(v.finish_burn(&user(1), &name(), 5), Ok(()));
    assert_eq!(v.get_pool_lp_tokens(&name()), 15);
    assert_eq!(v.get_total_lp(), 15);
    assert_eq!(v.get_user_pools_with_lp(&user(1)).unwrap().get(&name()), Some(&15));
    assert!(v.finish_burn(&user(1), &name(), 16).is_err());
    assert_eq!(v.get_total_lp(), 15);
}

#[test]
fn burn_plan_values_the_burn() {
    let mut v = Vault::new();
    v.increase_pool_lp_tokens(&user(1), &pool()).unwrap();
    v.increase_pool_lp_tokens(&user(2), &pool()).unwrap();
    let mut state = State::new();
    assert_eq!(
        v.burn_plan(&state, &name(), 4).err(),
        Some("No canister ID found for the pool: ckBTCckETH".to_string())
    );
    state.set_pool_canister(name(), &PrincipalId::from_slice(&[7]).unwrap());
    // (40 * 100) * (4 * 10^18 / 40) / 10^18
    let (canister, worth) = v.burn_plan(&state, &name(), 4).unwrap();
    assert_eq!(canister.as_bytes(), &[7]);
    assert_eq!(worth, 400);
}

#[test]
fn share_ratio_plan_values_the_share() {
    let mut v = Vault::new();
    v.increase_pool_lp_tokens(&user(1), &pool()).unwrap();
    v.increase_pool_lp_tokens(&user(2), &pool()).unwrap();
    let mut state = State::new();
    state.set_pool_canister(name(), &PrincipalId::from_slice(&[7]).unwrap());
    // 40 * 1000 * (4 * 10^18 / 40)
    let (_, worth) = v.share_ratio_plan(&state, &user(1), &pool(), &name(), 4).unwrap();
    assert_eq!(worth, 4_000_000_000_000_000_000_000);
    assert_eq!(
        v.share_ratio_plan(&state, &PrincipalId::anonymous(), &pool(), &name(), 4).err(),
        Some("Invalid user principal: Cannot be anonymous.".to_string())
    );
    assert_eq!(
        v.share_ratio_plan(&state, &user(1), &pool(), &name(), 0).err(),
        Some("Amount must be greater than zero.".to_string())
    );
    assert_eq!(
        v.share_ratio_plan(&state, &user(1), &pool(), &"other".to_string(), 4).err(),
        Some("No LP tokens found for the pool: other".to_string())
    );
}

#[test]
fn record_lp_share_needs_a_supply() {
    let mut v = Vault::new();
    assert_eq!(
        v.record_lp_share(&user(1), &pool()),
        Err("Total pool value or total LP supply is zero.".to_string())
    );
    v.increase_pool_lp_tokens(&user(1), &pool()).unwrap();
    // (20000 / (20 * 1000)) * 20
    assert_eq!(v.record_lp_share(&user(1), &pool()), Ok(20));
    assert_eq!(v.get_users_lp(&user(1)), Some(20));
    assert_eq!(v.get_users_lp(&PrincipalId::anonymous()), None);
}

#[test]
fn swap_fees_are_shared_by_balance() {
    let mut v = Vault::new();
    v.users_pool(&user(1), &pool()).unwrap();
    v.users_pool(&user(2), &pool()).unwrap();
    let people = v.apy_participants(&name());
    assert_eq!(people.len(), 2);
    // fee of 1000 at 3 thousandths is 3; shares 3 * 100 / 300 and 3 * 200 / 300
    assert_eq!(v.distribute_swap_fee(&name(), 3, 1000, &vec![100, 200]), Ok(()));
    assert_eq!(v.get_users_pool_apy(&name(), &user(1)), 1);
    assert_eq!(v.get_users_pool_apy(&name(), &user(2)), 2);
    assert_eq!(v.distribute_swap_fee(&name(), 3, 1000, &vec![100, 200]), Ok(()));
    assert_eq!(v.get_users_pool_apy(&name(), &user(2)), 4);
    v.decrease_users_apy(&user(1), &name());
    assert_eq!(v.get_users_pool_apy(&name(), &user(1)), 0);
    assert_eq!(v.get_users_pool_apy(&name(), &user(2)), 4);
}

#[test]
fn swap_fees_need_balances() {
    let mut v = Vault::new();
    v.users_pool(&user(1), &pool()).unwrap();
    assert_eq!(v.distribute_swap_fee(&name(), 3, 1000, &vec![0]), Ok(()));
    assert_eq!(v.get_users_pool_apy(&name(), &user(1)), 0);
    assert_eq!(v.apy_participants(&"other".to_string()).len(), 0);
}

#[test]
fn burn_precheck_messages() {
    assert_eq!(burn_precheck(&pool(), &name(), 1), Ok(()));
    assert_eq!(burn_precheck(&pool(), &" ".to_string(), 1), Err("Pool name cannot be empty.".to_string()));
    assert_eq!(burn_precheck(&pool(), &name(), 0), Err("Amount to burn must be greater than zero.".to_string()));
}

#[test]
fn lp_transfer_is_tried_twice() {
    assert!(matches!(lp_transfer_step(0, true), LpTransferStep::Finished));
    assert!(matches!(lp_transfer_step(0, false), LpTransferStep::Retry(1)));
    match lp_transfer_step(1, false) {
        LpTransferStep::Failed(m) => assert_eq!(m, "LP token transfer failed after 2 retries."),
        _ => panic!("expected a failure"),
    }
}

#[test]
fn leaving_a_pool_not_joined_changes_nothing() {
    let mut v = Vault::new();
    v.users_pool(&user(1), &pool()).unwrap();
    let other = Pool_Data { pool_data: vec![token("ckUSDC", 10, 1)], swap_fee: 3 };
    assert_eq!(v.remove_user_pool(&user(1), &other), Ok(()));
    assert_eq!(v.get_users_pool(&user(1)), Ok(Some(vec![name()])));
    assert_eq!(v.remove_user_pool(&user(2), &other), Ok(()));
    assert_eq!(v.get_users_pool(&user(2)), Ok(None));
}
