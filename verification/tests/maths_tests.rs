use valueswap::maths::{burned_token_amount, out_given_in};

#[test]
fn out_given_in_equal_weights_pays_half() {
    // base 1/2, exponent 1: 1000 * (1 - 1/2)
    assert_eq!(out_given_in(1000, 50, 1000, 50, 1000), Some(500));
}

#[test]
fn out_given_in_double_weight_squares_the_base() {
    // exponent 200 hundredths: two steps, 1000 * (1 - 1/4)
    assert_eq!(out_given_in(1000, 100, 1000, 50, 1000), Some(750));
}

#[test]
fn out_given_in_takes_a_fractional_exponent() {
    // exponent 1/2: 1000 * (1 - sqrt(1/2)), rounded down
    assert_eq!(out_given_in(1000, 50, 1000, 100, 1000), Some(292));
    // exponent 1/2: 100 * (1 - sqrt(1/4))
    assert_eq!(out_given_in(100, 1, 100, 2, 300), Some(50));
    // exponent 1/4: 5000 * (1 - (1/2)^(1/4))
    assert_eq!(out_given_in(1000, 20, 5000, 80, 1000), Some(795));
    // exponent 33 hundredths: 1000 * (1 - (1/2)^0.33)
    assert_eq!(out_given_in(1000, 1, 1000, 3, 1000), Some(204));
}

#[test]
fn out_given_in_grows_with_the_amount() {
    let mut last = 0;
    for amount in [0u128, 1, 5, 50, 500, 5000, 50_000] {
        let out = out_given_in(1000, 30, 4000, 70, amount).unwrap();
        assert!(out >= last);
        assert!(out <= 4000);
        last = out;
    }
}

#[test]
fn out_given_in_zero_weight_in_pays_nothing() {
    assert_eq!(out_given_in(1000, 0, 1000, 100, 1000), Some(0));
}

#[test]
fn out_given_in_nothing_in_gives_nothing_out() {
    assert_eq!(out_given_in(1000, 50, 2000, 50, 0), Some(0));
    assert_eq!(out_given_in(7, 30, 123456, 90, 0), Some(0));
}

#[test]
fn out_given_in_uneven_base() {
    // base 3/4 in fixed point, one step: 1000 * (1 - 3/4)
    assert_eq!(out_given_in(3, 50, 1000, 50, 1), Some(250));
}

#[test]
fn out_given_in_never_pays_more_than_the_pool_holds() {
    for amount in [1u128, 10, 1000, 1_000_000, 1_000_000_000] {
        let out = out_given_in(1000, 80, 5000, 20, amount).unwrap();
        assert!(out <= 5000);
    }
}

#[test]
fn out_given_in_overflow_is_none() {
    assert_eq!(out_given_in(u128::MAX, 1, 1, 1, 0), None);
    assert_eq!(out_given_in(1, u128::MAX, 1, 1, 1), None);
}

#[test]
fn burned_token_amount_is_the_weight_share() {
    // 50 * 10^18 * 100 / (10^18 * 100)
    assert_eq!(burned_token_amount(50, 1_000_000_000_000_000_000), Some(50));
    assert_eq!(burned_token_amount(30, 2_000_000_000_000_000_000), Some(60));
    assert_eq!(burned_token_amount(1, 999), Some(0));
}

#[test]
fn burned_token_amount_overflow_is_none() {
    assert_eq!(burned_token_amount(u128::MAX, 2), None);
    assert_eq!(burned_token_amount(u128::MAX / 50, 1), None);
}
