use valueswap::principal::PrincipalId;
use valueswap::types::{validate_with_message, CreatePoolParams, CustomError, Pool_Data};

fn token(name: &str, balance: u128, weight: u128, value: u128) -> CreatePoolParams {
    CreatePoolParams {
        token_name: name.to_string(),
        balance,
        weight,
        value,
        ledger_canister_id: PrincipalId::from_slice(&[9, 9]).unwrap(),
        image: "image.png".to_string(),
    }
}

#[test]
fn validate_accepts_a_good_pool() {
    let p = Pool_Data { pool_data: vec![token("ckBTC", 10, 50, 1), token("ckETH", 10, 50, 1)], swap_fee: 3 };
    assert_eq!(p.validate(), Ok(()));
    assert_eq!(p.pool_name(), "ckBTCckETH");
}

#[test]
fn validate_refuses_an_empty_pool() {
    let p = Pool_Data { pool_data: vec![], swap_fee: 3 };
    assert_eq!(p.validate(), Err(CustomError::PoolDataEmpty));
    assert_eq!(validate_with_message(&p), Err("Invalid pool data: PoolDataEmpty".to_string()));
}

#[test]
fn validate_refuses_a_blank_or_long_name() {
    let blank = Pool_Data { pool_data: vec![token("  ", 10, 50, 1)], swap_fee: 3 };
    let msg = "Token name cannot be empty or exceed 100 characters".to_string();
    assert_eq!(blank.validate(), Err(CustomError::InvalidInput(msg.clone())));
    let long = Pool_Data { pool_data: vec![token(&"x".repeat(101), 10, 50, 1)], swap_fee: 3 };
    assert_eq!(long.validate(), Err(CustomError::InvalidInput(msg)));
    let just_fits = Pool_Data { pool_data: vec![token(&"x".repeat(100), 10, 50, 1)], swap_fee: 3 };
    assert_eq!(just_fits.validate(), Ok(()));
}

#[test]
fn validate_counts_characters_not_bytes() {
    let accented = Pool_Data { pool_data: vec![token(&"é".repeat(60), 10, 10, 100)], swap_fee: 3 };
    assert_eq!(accented.validate(), Ok(()));
    let hundred = Pool_Data { pool_data: vec![token(&"é".repeat(100), 10, 10, 100)], swap_fee: 3 };
    assert_eq!(hundred.validate(), Ok(()));
    let too_long = Pool_Data { pool_data: vec![token(&"é".repeat(101), 10, 10, 100)], swap_fee: 3 };
    assert_eq!(
        too_long.validate(),
        Err(CustomError::InvalidInput("Token name cannot be empty or exceed 100 characters".to_string()))
    );
}

#[test]
fn validate_refuses_zero_weight_or_value() {
    let msg = "Weight and value must be greater than zero".to_string();
    let w = Pool_Data { pool_data: vec![token("ckBTC", 10, 0, 1)], swap_fee: 3 };
    assert_eq!(w.validate(), Err(CustomError::InvalidInput(msg.clone())));
    let v = Pool_Data { pool_data: vec![token("ckBTC", 10, 5, 0)], swap_fee: 3 };
    assert_eq!(v.validate(), Err(CustomError::InvalidInput(msg)));
}

#[test]
fn validate_reports_the_first_refused_token() {
    let p = Pool_Data { pool_data: vec![token("ckBTC", 10, 50, 1), token("ckETH", 10, 0, 1), token("", 1, 1, 1)], swap_fee: 3 };
    let e = p.validate().unwrap_err();
    assert_eq!(e, CustomError::InvalidInput("Weight and value must be greater than zero".to_string()));
    assert_eq!(validate_with_message(&p), Err(format!("Invalid pool data: {:?}", e)));
}
