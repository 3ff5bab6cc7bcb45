use agent_market::decimal::{u128_to_string, u64_to_string};

#[test]
fn renders_zero() {
    assert_eq!(u128_to_string(0), "0");
    assert_eq!(u64_to_string(0), "0");
}

#[test]
fn renders_single_and_multi_digit_values() {
    assert_eq!(u128_to_string(7), "7");
    assert_eq!(u128_to_string(10), "10");
    assert_eq!(u128_to_string(105), "105");
    assert_eq!(u64_to_string(1234567890), "1234567890");
}

#[test]
fn renders_extreme_values() {
    assert_eq!(u64_to_string(u64::MAX), "18446744073709551615");
    assert_eq!(
        u128_to_string(u128::MAX),
        "340282366920938463463374607431768211455"
    );
}
