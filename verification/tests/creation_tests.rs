use valueswap::creation::{CreatePhase, CreatePoolsAction, CreatePoolsEvent, CreatePoolsRun};
use valueswap::factory::Factory;
use valueswap::principal::PrincipalId;
use valueswap::state::State;
use valueswap::types::{CreatePoolParams, CustomError, Pool_Data};
use valueswap::vault::Vault;

fn token(name: &str, balance: u128, ledger: u8) -> CreatePoolParams {
    CreatePoolParams {
        token_name: name.to_string(),
        balance,
        weight: 50,
        value: 10,
        ledger_canister_id: PrincipalId::from_slice(&[ledger]).unwrap(),
        image: "image.png".to_string(),
    }
}

fn pool(fee: u128) -> Pool_Data {
    Pool_Data { pool_data: vec![token("ckBTC", 1000, 1), token("ckETH", 500, 2)], swap_fee: fee }
}

fn caller() -> PrincipalId {
    PrincipalId::from_slice(&[5, 5]).unwrap()
}

fn expect_deposit(a: CreatePoolsAction, ledger: u8, canister: &[u8], amount: u128) {
    match a {
        CreatePoolsAction::Deposit { ledger: l, canister: c, amount: m } => {
            assert_eq!(l.as_bytes(), &[ledger]);
            assert_eq!(c.as_bytes(), canister);
            assert_eq!(m, amount);
        }
        _ => panic!("expected a deposit"),
    }
}

#[test]
fn creation_of_a_new_pool_runs_to_the_end() {
    let (mut f, mut s, mut v) = (Factory::new(), State::new(), Vault::new());
    let mut run = f.begin_create_pools_run(pool(3), &caller()).unwrap();
    let a = f.create_pools_step(&mut s, &mut v, &mut run, CreatePoolsEvent::Started);
    assert!(matches!(a, CreatePoolsAction::CreateCanister));
    let canister = PrincipalId::from_slice(&[9, 9]).unwrap();
    let a = f.create_pools_step(&mut s, &mut v, &mut run, CreatePoolsEvent::CanisterCreated(Ok(canister)));
    expect_deposit(a, 1, &[9, 9], 1000);
    assert_eq!(s.pool_canister(&"ckBTCckETH".to_string()).unwrap().as_bytes(), &[9, 9]);
    let a = f.create_pools_step(&mut s, &mut v, &mut run, CreatePoolsEvent::Deposited(true));
    expect_deposit(a, 2, &[9, 9], 500);
    assert!(f.get_specific_pool_data(&"ckBTCckETH".to_string()).is_err());
    let a = f.create_pools_step(&mut s, &mut v, &mut run, CreatePoolsEvent::Deposited(true));
    assert!(matches!(a, CreatePoolsAction::StoreAndMint { .. }));
    assert_eq!(f.get_specific_pool_data(&"ckBTCckETH".to_string()).unwrap().len(), 1);
    assert_eq!(v.get_users_pool(&caller()), Ok(Some(vec!["ckBTCckETH".to_string()])));
    assert_eq!(v.get_pool_lp_tokens(&"ckBTCckETH".to_string()), 15);
    let a = f.create_pools_step(&mut s, &mut v, &mut run, CreatePoolsEvent::Stored);
    assert!(matches!(a, CreatePoolsAction::Finish(Ok(()))));
    assert!(run.phase == CreatePhase::Done);
    assert_eq!(f.try_lock("ckBTCckETH".to_string()), Ok(()));
}

#[test]
fn a_failed_deposit_leaves_nothing_recorded() {
    let (mut f, mut s, mut v) = (Factory::new(), State::new(), Vault::new());
    let mut run = f.begin_create_pools_run(pool(3), &caller()).unwrap();
    let _ = f.create_pools_step(&mut s, &mut v, &mut run, CreatePoolsEvent::Started);
    let canister = PrincipalId::from_slice(&[9]).unwrap();
    let _ = f.create_pools_step(&mut s, &mut v, &mut run, CreatePoolsEvent::CanisterCreated(Ok(canister)));
    let _ = f.create_pools_step(&mut s, &mut v, &mut run, CreatePoolsEvent::Deposited(true));
    let a = f.create_pools_step(&mut s, &mut v, &mut run, CreatePoolsEvent::Deposited(false));
    match a {
        CreatePoolsAction::Finish(Err(e)) => assert_eq!(e, CustomError::TokenDepositFailed),
        _ => panic!("expected the creation to fail"),
    }
    assert_eq!(v.get_users_pool(&caller()), Ok(None));
    assert_eq!(v.get_total_lp(), 0);
    assert!(f.get_specific_pool_data(&"ckBTCckETH".to_string()).is_err());
    assert_eq!(f.try_lock("ckBTCckETH".to_string()), Ok(()));
}

#[test]
fn an_existing_canister_takes_the_deposits() {
    let (mut f, mut s, mut v) = (Factory::new(), State::new(), Vault::new());
    s.set_pool_canister("ckBTCckETH".to_string(), &PrincipalId::from_slice(&[7]).unwrap());
    let mut run = f.begin_create_pools_run(pool(3), &caller()).unwrap();
    let a = f.create_pools_step(&mut s, &mut v, &mut run, CreatePoolsEvent::Started);
    expect_deposit(a, 1, &[7], 1000);
    assert!(run.existing);
}

#[test]
fn a_smaller_recorded_fee_stops_the_creation() {
    let (mut f, mut s, mut v) = (Factory::new(), State::new(), Vault::new());
    s.set_pool_canister("ckBTCckETH".to_string(), &PrincipalId::from_slice(&[7]).unwrap());
    f.store_pool_data_curr(pool(1)).unwrap();
    let mut run = f.begin_create_pools_run(pool(3), &caller()).unwrap();
    let a = f.create_pools_step(&mut s, &mut v, &mut run, CreatePoolsEvent::Started);
    assert!(matches!(a, CreatePoolsAction::FeeConflict));
}

#[test]
fn a_canister_that_cannot_be_created_ends_the_creation() {
    let (mut f, mut s, mut v) = (Factory::new(), State::new(), Vault::new());
    let mut run = f.begin_create_pools_run(pool(3), &caller()).unwrap();
    let _ = f.create_pools_step(&mut s, &mut v, &mut run, CreatePoolsEvent::Started);
    let a = f.create_pools_step(&mut s, &mut v, &mut run, CreatePoolsEvent::CanisterCreated(Err("Error: no".to_string())));
    match a {
        CreatePoolsAction::Finish(Err(e)) => assert_eq!(e, CustomError::CanisterCreationFailed("Error: no".to_string())),
        _ => panic!("expected the creation to fail"),
    }
    assert!(s.pool_canister(&"ckBTCckETH".to_string()).is_none());
    assert_eq!(f.try_lock("ckBTCckETH".to_string()), Ok(()));
}

#[test]
fn an_invalid_pool_is_refused_before_anything() {
    let mut f = Factory::new();
    let mut p = pool(3);
    p.pool_data[0].token_name = "".to_string();
    assert_eq!(
        f.begin_create_pools_run(p, &caller()).err(),
        Some(CustomError::InvalidInput("Token name cannot be empty or exceed 100 characters".to_string()))
    );
}

fn tok(name: &str, balance: u128, weight: u128, value: u128, ledger: u8) -> CreatePoolParams {
    CreatePoolParams {
        token_name: name.to_string(),
        balance,
        weight,
        value,
        ledger_canister_id: PrincipalId::from_slice(&[ledger]).unwrap(),
        image: "image.png".to_string(),
    }
}

fn user() -> PrincipalId {
    PrincipalId::from_text("xkd3g-llatk-lmuv7-eoudm-qtjnr-iapqh-taggr-pwpmo-3rojt-pxkwo-4qe").unwrap()
}

/// Answers every action of a run as the outside would: a new canister with
/// the given bytes, and each deposit as `deposit_ok` says.
fn finish_run(
    f: &mut Factory,
    s: &mut State,
    v: &mut Vault,
    run: &mut CreatePoolsRun,
    new_canister: &[u8],
    deposit_ok: &dyn Fn(usize) -> bool,
) -> Result<(), CustomError> {
    let mut event = CreatePoolsEvent::Started;
    let mut deposits: usize = 0;
    loop {
        match f.create_pools_step(s, v, run, event) {
            CreatePoolsAction::CreateCanister => {
                event = CreatePoolsEvent::CanisterCreated(Ok(PrincipalId::from_slice(new_canister).unwrap()))
            }
            CreatePoolsAction::Deposit { .. } => {
                event = CreatePoolsEvent::Deposited(deposit_ok(deposits));
                deposits += 1;
            }
            CreatePoolsAction::StoreAndMint { .. } => event = CreatePoolsEvent::Stored,
            CreatePoolsAction::FeeConflict => panic!("the fees conflict"),
            CreatePoolsAction::Finish(r) => return r,
        }
    }
}

fn create(
    f: &mut Factory,
    s: &mut State,
    v: &mut Vault,
    params: Pool_Data,
    new_canister: &[u8],
    deposit_ok: &dyn Fn(usize) -> bool,
) -> Result<(), CustomError> {
    let mut run = f.begin_create_pools_run(params, &user())?;
    finish_run(f, s, v, &mut run, new_canister, deposit_ok)
}

fn all_ok(_: usize) -> bool {
    true
}

fn none_ok(_: usize) -> bool {
    false
}

#[test]
fn test_create_pools() {
    let (mut f, mut s, mut v) = (Factory::new(), State::new(), Vault::new());
    let p = Pool_Data {
        pool_data: vec![tok("ckbtc", 100000, 10, 100, 1), tok("cketh", 100000, 10, 100, 2)],
        swap_fee: 5,
    };
    assert!(create(&mut f, &mut s, &mut v, p, &[40], &all_ok).is_ok());
    assert_eq!(v.get_users_pool(&user()), Ok(Some(vec!["ckbtccketh".to_string()])));
    assert_eq!(f.get_specific_pool_data(&"ckbtccketh".to_string()).unwrap().len(), 1);
    assert_eq!(f.try_lock("ckbtccketh".to_string()), Ok(()));
}

#[test]
fn test_create_pool_with_empty_token_name() {
    let (mut f, mut s, mut v) = (Factory::new(), State::new(), Vault::new());
    let p = Pool_Data { pool_data: vec![tok("", 100000, 10, 100, 1)], swap_fee: 5 };
    assert!(create(&mut f, &mut s, &mut v, p, &[40], &all_ok).is_err());
    assert_eq!(v.get_users_pool(&user()), Ok(None));
}

#[test]
fn test_create_pool_with_zero_weight() {
    let (mut f, mut s, mut v) = (Factory::new(), State::new(), Vault::new());
    let p = Pool_Data { pool_data: vec![tok("ckbtc", 100000, 0, 100, 1)], swap_fee: 5 };
    assert!(create(&mut f, &mut s, &mut v, p, &[40], &all_ok).is_err());
    assert!(s.pool_canister(&"ckbtc".to_string()).is_none());
}

#[test]
fn test_create_pool_with_incorrect_metadata() {
    // The approval was refused, so the ledger refuses the deposit.
    let (mut f, mut s, mut v) = (Factory::new(), State::new(), Vault::new());
    let p = Pool_Data { pool_data: vec![tok("ckbtc", 100000, 10, 100, 1)], swap_fee: 5 };
    assert!(create(&mut f, &mut s, &mut v, p, &[40], &none_ok).is_err());
    assert_eq!(v.get_users_pool(&user()), Ok(None));
}

#[test]
fn test_create_pool_with_zero_balance_token() {
    // The ledger takes the first deposit and refuses the empty one.
    let (mut f, mut s, mut v) = (Factory::new(), State::new(), Vault::new());
    let p = Pool_Data {
        pool_data: vec![tok("ckbtc", 100000, 50, 100, 1), tok("cketh", 0, 50, 100, 2)],
        swap_fee: 5,
    };
    let r = create(&mut f, &mut s, &mut v, p, &[40], &|i| i == 0);
    assert!(r.is_err());
    assert_eq!(r, Err(CustomError::TokenDepositFailed));
    assert!(f.get_specific_pool_data(&"ckbtccketh".to_string()).is_err());
}

#[test]
fn test_create_pool_with_no_prior_lock_and_approval() {
    let (mut f, mut s, mut v) = (Factory::new(), State::new(), Vault::new());
    let p = Pool_Data { pool_data: vec![tok("ckbtc", 100000, 10, 100, 1)], swap_fee: 5 };
    assert!(create(&mut f, &mut s, &mut v, p, &[40], &all_ok).is_ok());
}

#[test]
fn test_create_multiple_pools_successively() {
    let (mut f, mut s, mut v) = (Factory::new(), State::new(), Vault::new());
    for i in 1..=4u8 {
        let p = Pool_Data {
            pool_data: vec![tok(&format!("Token{}", i), 100000 * i as u128, 10, 100 * i as u128, i)],
            swap_fee: 5,
        };
        assert!(create(&mut f, &mut s, &mut v, p, &[40 + i], &all_ok).is_ok(), "sequence {}", i);
    }
    assert_eq!(v.get_users_pool(&user()).unwrap().unwrap().len(), 4);
}

#[test]
fn test_create_pool_with_approval_timeout() {
    let (mut f, mut s, mut v) = (Factory::new(), State::new(), Vault::new());
    let p = Pool_Data { pool_data: vec![tok("ckusdc", 100000, 10, 100, 3)], swap_fee: 5 };
    assert!(create(&mut f, &mut s, &mut v, p, &[40], &none_ok).is_err());
}

#[test]
fn test_create_multiple_pools_concurrently_with_approval() {
    let (mut f, mut s, mut v) = (Factory::new(), State::new(), Vault::new());
    let mut runs: Vec<CreatePoolsRun> = Vec::new();
    for i in 0..4u8 {
        let p = Pool_Data {
            pool_data: vec![tok(&format!("Token{}", i), 100000 * (i as u128 + 1), 10, 100 * (i as u128 + 1), i + 1)],
            swap_fee: 5,
        };
        runs.push(f.begin_create_pools_run(p, &user()).unwrap());
    }
    for (i, run) in runs.iter_mut().enumerate() {
        assert!(finish_run(&mut f, &mut s, &mut v, run, &[50 + i as u8], &all_ok).is_ok());
    }
}

#[test]
fn test_create_pools_with_varied_weights() {
    let (mut f, mut s, mut v) = (Factory::new(), State::new(), Vault::new());
    let p = Pool_Data {
        pool_data: vec![tok("ckbtc", 100000, 80, 100, 1), tok("cketh", 100000, 20, 100, 2)],
        swap_fee: 5,
    };
    assert!(create(&mut f, &mut s, &mut v, p, &[40], &all_ok).is_ok());
}

#[test]
fn test_create_pool_with_three_tokens_30_40_30() {
    let (mut f, mut s, mut v) = (Factory::new(), State::new(), Vault::new());
    let p = Pool_Data {
        pool_data: vec![
            tok("ckbtc", 100000, 30, 100, 1),
            tok("cketh", 100000, 40, 100, 2),
            tok("ckusdc", 100000, 30, 100, 1),
        ],
        swap_fee: 5,
    };
    assert!(create(&mut f, &mut s, &mut v, p, &[40], &all_ok).is_ok());
}

#[test]
fn test_create_pool_with_equal_weights() {
    let (mut f, mut s, mut v) = (Factory::new(), State::new(), Vault::new());
    let p = Pool_Data {
        pool_data: vec![
            tok("ckbtc", 100000, 25, 100, 1),
            tok("cketh", 100000, 25, 100, 2),
            tok("ckbtc", 100000, 25, 100, 3),
            tok("cketh", 100000, 25, 100, 1),
        ],
        swap_fee: 5,
    };
    assert!(create(&mut f, &mut s, &mut v, p, &[40], &all_ok).is_ok());
}

#[test]
fn test_create_pool_with_four_tokens_equal_weights() {
    let (mut f, mut s, mut v) = (Factory::new(), State::new(), Vault::new());
    let p = Pool_Data {
        pool_data: vec![
            tok("ckbtc", 50000, 125, 100, 1),
            tok("cketh", 50000, 125, 100, 2),
            tok("ckusdc", 50000, 125, 100, 1),
            tok("ckbtc", 50000, 125, 100, 2),
        ],
        swap_fee: 5,
    };
    assert!(create(&mut f, &mut s, &mut v, p, &[40], &all_ok).is_ok());
}

#[test]
fn every_end_of_a_run_frees_the_pool_for_another_run() {
    let (mut f, mut s, mut v) = (Factory::new(), State::new(), Vault::new());
    let p = || Pool_Data { pool_data: vec![tok("ckbtc", 10, 10, 100, 1)], swap_fee: 5 };
    let mut run = f.begin_create_pools_run(p(), &user()).unwrap();
    assert_eq!(
        f.begin_create_pools_run(p(), &user()).err(),
        Some(CustomError::AnotherOperationInProgress("ckbtc".to_string()))
    );
    assert!(finish_run(&mut f, &mut s, &mut v, &mut run, &[40], &none_ok).is_err());
    assert!(create(&mut f, &mut s, &mut v, p(), &[40], &all_ok).is_ok());
    assert!(create(&mut f, &mut s, &mut v, p(), &[40], &all_ok).is_ok());
}

#[test]
fn creating_a_pool_mints_the_callers_lp_tokens() {
    let (mut f, mut s, mut v) = (Factory::new(), State::new(), Vault::new());
    // worth 1000 * 10 + 500 * 10 = 15000, a thousandth is 15
    assert!(create(&mut f, &mut s, &mut v, pool(3), &[40], &all_ok).is_ok());
    assert_eq!(v.get_pool_lp_tokens(&"ckBTCckETH".to_string()), 15);
    assert_eq!(v.get_total_lp(), 15);
    let mine = v.get_user_pools_with_lp(&user()).unwrap();
    assert_eq!(mine.get(&"ckBTCckETH".to_string()), Some(&15));
}
