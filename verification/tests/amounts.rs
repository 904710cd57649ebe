use std::str::FromStr;

use lightpool_bot::common::amounts::{
    align_raw_to_tick, checked_limit_price_raw, checked_limit_price_string, decimal_to_raw_amount,
    format_price_pieces, format_token_amount, limit_price_string, limit_price_string_for_unit,
    parse_token_amount_str, probability_to_limit_price, raw_to_decimal,
    tick_size_from_instrument_info, to_limit_price_raw, AmountError, PriceUnit,
};
use lightpool_bot::decimal::Decimal;
use lightpool_bot::params::{ParamValue, Params};

fn decimal(text: &str) -> Decimal {
    match Decimal::parse(text) {
        Ok(value) => value,
        Err(_) => panic!("not a decimal: {text}"),
    }
}

#[test]
fn token_amounts_read_back() {
    for raw in [0u64, 1, 999_999, 1_000_000, 1_500_000, 18_446_744_073_709_551_615] {
        let text = format_token_amount(raw);
        assert_eq!(parse_token_amount_str(&text).ok(), Some(raw));
    }
}

#[test]
fn token_amounts_have_six_digits_or_none() {
    assert_eq!(format_token_amount(1_500_000), "1.500000");
    assert_eq!(format_token_amount(7), "0.000007");
    assert_eq!(format_token_amount(0), "0");
    assert_eq!(format_token_amount(3_000_000), "3");
}

#[test]
fn token_amounts_are_trimmed_and_rounded() {
    assert_eq!(parse_token_amount_str("  2.5 ").ok(), Some(2_500_000));
    assert_eq!(parse_token_amount_str("0.0000005").ok(), Some(0));
    assert_eq!(parse_token_amount_str("0.0000015").ok(), Some(2));
}

#[test]
fn amounts_survive_decimals() {
    for raw in [0u64, 1, 10, 12_300, 999_999, 1_000_000, 1_500_000, 123_000_000, u64::MAX] {
        let decimal = raw_to_decimal(raw);
        assert!(decimal.scale <= 6);
        assert_eq!(decimal_to_raw_amount(decimal), Ok(raw));
    }
}

#[test]
fn token_amounts_refuse_other_text() {
    for text in ["one", ""] {
        let cause = match rust_decimal::Decimal::from_str(text) {
            Err(error) => error.to_string(),
            Ok(number) => panic!("{number}"),
        };
        assert_eq!(parse_token_amount_str(text).err().map(|error| error.message()), Some(cause));
    }
    assert_eq!(
        parse_token_amount_str("-1").err().map(|error| error.message()),
        Some("invalid token amount".to_string())
    );
    assert_eq!(
        decimal_to_raw_amount(decimal("18446744073709.551616")),
        Err(AmountError::InvalidAmount)
    );
    assert_eq!(
        decimal_to_raw_amount(decimal("18446744073709.551615")),
        Ok(18_446_744_073_709_551_615)
    );
}

#[test]
fn raw_amounts_are_millionths() {
    assert_eq!(raw_to_decimal(1_500_000).normalized_text(), "1.5");
    assert_eq!(raw_to_decimal(1).text(), "0.000001");
}

#[test]
fn prices_align_to_the_nearest_tick() {
    assert_eq!(align_raw_to_tick(1_499, 1_000), 1_000);
    assert_eq!(align_raw_to_tick(1_500, 1_000), 2_000);
    assert_eq!(align_raw_to_tick(1_501, 0), 1_501);
    assert_eq!(align_raw_to_tick(1_501, 1), 1_501);
}

#[test]
fn aligned_prices_stay_aligned() {
    for raw in [0u64, 499, 500, 12_345, 999_999] {
        let once = align_raw_to_tick(raw, 1_000);
        assert_eq!(align_raw_to_tick(once, 1_000), once);
        assert_eq!(once % 1_000, 0);
    }
}

#[test]
fn probabilities_become_prices() {
    assert_eq!(probability_to_limit_price(decimal("0.5234"), 1_000), Ok(523_000));
    assert_eq!(
        probability_to_limit_price(decimal("0"), 1_000),
        Err(AmountError::PriceRoundsToZero)
    );
    assert_eq!(probability_to_limit_price(decimal("1"), 1_000), Ok(1_000_000));
}

#[test]
fn probabilities_outside_the_unit_are_refused() {
    assert_eq!(
        probability_to_limit_price(decimal("1.000001"), 1_000),
        Err(AmountError::PriceOutOfRange)
    );
    assert_eq!(
        probability_to_limit_price(decimal("-0.1"), 1_000),
        Err(AmountError::PriceOutOfRange)
    );
}

#[test]
fn decimal_prices_may_exceed_one() {
    assert_eq!(
        to_limit_price_raw(decimal("150.2504"), 1_000, PriceUnit::Decimal),
        Ok(150_250_000)
    );
    assert_eq!(
        to_limit_price_raw(decimal("0"), 1_000, PriceUnit::Decimal),
        Err(AmountError::PriceNotPositive)
    );
    assert_eq!(
        to_limit_price_raw(decimal("0.0004"), 1_000, PriceUnit::Decimal),
        Err(AmountError::PriceRoundsToZero)
    );
    assert_eq!(
        to_limit_price_raw(decimal("0.5"), 1_000, PriceUnit::Cents),
        Ok(500_000)
    );
}

#[test]
fn prices_that_would_overflow_are_told_apart() {
    assert_eq!(
        checked_limit_price_raw(decimal("18446744073709.551615"), 1_000, PriceUnit::Decimal),
        None
    );
    assert_eq!(
        checked_limit_price_raw(decimal("2"), 1_000, PriceUnit::Decimal),
        Some(Ok(2_000_000))
    );
}

#[test]
fn price_pieces_show_cents() {
    assert_eq!(format_price_pieces(523_000), "52.3");
    assert_eq!(format_price_pieces(500_000), "50");
    assert_eq!(limit_price_string(decimal("0.523"), 1_000), Ok("52.3".to_string()));
    assert_eq!(
        limit_price_string_for_unit(decimal("0.523"), 1_000, PriceUnit::Cents),
        Ok("52.3".to_string())
    );
    assert_eq!(
        checked_limit_price_string(decimal("2"), 1_000, PriceUnit::Cents),
        Some(Err(AmountError::PriceOutOfRange))
    );
}

#[test]
fn the_unit_and_tick_come_from_the_info() {
    let mut info = Params::new();
    assert_eq!(PriceUnit::from_info(Some(&info)), PriceUnit::Cents);
    assert_eq!(PriceUnit::from_info(None), PriceUnit::Cents);
    assert_eq!(tick_size_from_instrument_info(Some(&info)), 1_000);
    info.set("price_unit", ParamValue::Text("decimal".to_string()));
    info.set("tick_size_raw", ParamValue::Unsigned(500));
    assert_eq!(PriceUnit::from_info(Some(&info)), PriceUnit::Decimal);
    assert_eq!(tick_size_from_instrument_info(Some(&info)), 500);
    assert_eq!(tick_size_from_instrument_info(None), 1_000);
}
