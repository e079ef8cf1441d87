use ccwc::decimal::to_decimal;

#[test]
fn decimal_of_zero() {
    assert_eq!(to_decimal(0), "0");
}

#[test]
fn decimal_of_single_digits() {
    assert_eq!(to_decimal(1), "1");
    assert_eq!(to_decimal(9), "9");
}

#[test]
fn decimal_of_several_digits() {
    assert_eq!(to_decimal(10), "10");
    assert_eq!(to_decimal(120), "120");
    assert_eq!(to_decimal(1234567890), "1234567890");
    assert_eq!(to_decimal(100000), "100000");
}
