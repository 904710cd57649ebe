use lightpool_bot::decimal::{power_of_ten, Decimal};
use lightpool_bot::fixed::{Price, Quantity};

fn decimal(text: &str) -> Decimal {
    match Decimal::parse(text) {
        Ok(value) => value,
        Err(_) => panic!("not a decimal: {text}"),
    }
}

fn parts(value: Decimal) -> (i128, u32) {
    (value.mantissa, value.scale)
}

#[test]
fn decimals_are_read_with_their_scale() {
    assert_eq!(parts(decimal("12.340")), (12_340, 3));
    assert_eq!(parts(decimal("-0.5")), (-5, 1));
    assert_eq!(parts(decimal("7")), (7, 0));
    assert!(Decimal::parse("1,5").is_err());
    assert!(Decimal::parse("").is_err());
    assert!(Decimal::parse("abc").is_err());
}

#[test]
fn decimals_multiply() {
    let product = decimal("1.5").checked_mul(decimal("0.04"));
    assert_eq!(product.map(parts), Some((60, 3)));
    let large = decimal("79228162514264337593543950335");
    assert!(large.checked_mul(decimal("2")).is_none());
}

#[test]
fn decimals_add_and_subtract() {
    assert_eq!(
        decimal("1.5").checked_add(decimal("0.04")).map(parts),
        Some((154, 2))
    );
    assert_eq!(
        decimal("1.5").checked_sub(decimal("0.04")).map(parts),
        Some((146, 2))
    );
    let large = decimal("79228162514264337593543950335");
    assert!(large.checked_add(decimal("1")).is_none());
}

#[test]
fn decimals_divide() {
    assert_eq!(decimal("1500000").divide(1_000_000).normalized_text(), "1.5");
    assert_eq!(decimal("1").divide(8).text(), "0.125");
}

#[test]
fn decimals_compare_by_value() {
    assert!(decimal("0.10").less_than(decimal("0.2")));
    assert!(!decimal("0.20").less_than(decimal("0.2")));
    assert_eq!(decimal("3").min(decimal("2.5")).text(), "2.5");
    assert_eq!(decimal("2").min(decimal("2.5")).text(), "2");
    assert!(decimal("0.00").is_zero());
    assert!(!decimal("0.01").is_zero());
    assert!(Decimal::zero().is_zero());
    assert_eq!(Decimal::one().text(), "1");
    assert_eq!(Decimal::from_u64(42).text(), "42");
}

#[test]
fn decimals_are_shown() {
    assert_eq!(decimal("12.340").text(), "12.340");
    assert_eq!(decimal("-0.050").text(), "-0.050");
    assert_eq!(decimal("-0.050").normalized_text(), "-0.05");
    assert_eq!(decimal("0.000").text(), "0.000");
    assert_eq!(decimal("0.000").normalized_text(), "0");
    assert_eq!(decimal("12.340").normalized_text(), "12.34");
    assert_eq!(decimal("100").normalized_text(), "100");
}

#[test]
fn decimals_round_half_to_even() {
    assert_eq!(decimal("2.5").round_to_u64(), Some(2));
    assert_eq!(decimal("3.5").round_to_u64(), Some(4));
    assert_eq!(decimal("2.51").round_to_u64(), Some(3));
    assert_eq!(decimal("-0.2").round_to_u64(), Some(0));
    assert_eq!(decimal("-1").round_to_u64(), None);
    assert_eq!(decimal("18446744073709551615").round_to_u64(), Some(u64::MAX));
    assert_eq!(decimal("18446744073709551616").round_to_u64(), None);
}

#[test]
fn powers_of_ten() {
    assert_eq!(power_of_ten(0), 1);
    assert_eq!(power_of_ten(28), 10_000_000_000_000_000_000_000_000_000);
}

#[test]
fn prices_are_nine_digit_fixed_point() {
    assert_eq!(
        Price::from_decimal_dp(decimal("0.523"), 6).ok(),
        Some(Price { raw: 523_000_000, precision: 6 })
    );
    assert_eq!(
        Price::from_decimal(decimal("0.50")).ok(),
        Some(Price { raw: 500_000_000, precision: 2 })
    );
    assert!(Price::from_decimal_dp(decimal("9223372037"), 6).is_err());
    assert!(Price::from_decimal_dp(decimal("1"), 10).is_err());
}

#[test]
fn prices_are_read_from_text() {
    assert_eq!(Price::parse("0.001"), Some(Price { raw: 1_000_000, precision: 3 }));
    assert_eq!(Price::parse("price"), None);
}

#[test]
fn prices_give_their_decimal_back() {
    let price = Price { raw: 523_000_000, precision: 6 };
    assert_eq!(parts(price.as_decimal()), (523_000, 6));
}

#[test]
fn quantities_are_not_negative() {
    assert_eq!(
        Quantity::from_decimal_dp(decimal("2.5"), 6).ok(),
        Some(Quantity { raw: 2_500_000_000, precision: 6 })
    );
    assert_eq!(
        Quantity::from_decimal(decimal("2.50")).ok(),
        Some(Quantity { raw: 2_500_000_000, precision: 2 })
    );
    assert!(Quantity::from_decimal_dp(decimal("-1"), 6).is_err());
    assert_eq!(
        Quantity::parse("2.5"),
        Some(Quantity { raw: 2_500_000_000, precision: 1 })
    );
    assert_eq!(Quantity::parse("much"), None);
    let quantity = Quantity { raw: 2_500_000_000, precision: 6 };
    assert_eq!(parts(quantity.as_decimal()), (2_500_000, 6));
    assert!(quantity.is_positive());
    assert!(!quantity.is_zero());
    assert!(Quantity { raw: 0, precision: 6 }.is_zero());
}
