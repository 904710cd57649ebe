use std::str::FromStr;

use lightpool_bot::collections::TextSet;
use lightpool_bot::common::balances::{
    balance_from_total_and_locked, checked_balance, collect_balance_token_specs_from_cache,
    currency_for_balance_symbol, needs_markets, parse_balance_entries, placeholder_balances, push_token_spec,
    read_balance_entry, resolve_balance_token_specs,
};
use lightpool_bot::common::currency::Currency;
use lightpool_bot::config::Environment;
use lightpool_bot::decimal::Decimal;
use lightpool_bot::http::models::{BalanceEntry, BalanceTokenSpec, Market};
use lightpool_bot::model::{Instrument, InstrumentId, InstrumentKind};
use lightpool_bot::params::{ParamValue, Params};

fn env() -> Environment {
    Environment {
        clob_index_http: None,
        clob_index_ws: None,
        http_timeout_secs: None,
        http_connect_timeout_secs: None,
        private_key: None,
        collateral_token: None,
        collateral_currency: None,
        wallet_private_key: None,
    }
}

fn decimal(text: &str) -> Decimal {
    match Decimal::parse(text) {
        Ok(value) => value,
        Err(_) => panic!("not a decimal: {text}"),
    }
}

fn usdt() -> Currency {
    Currency { code: "USDT".to_string(), precision: 6 }
}

fn outcome(symbol: &str, venue: &str, outcome: &str, token: &str) -> Instrument {
    let mut info = Params::new();
    info.set("collateral_token", ParamValue::Text("0xC0".to_string()));
    info.set("outcome_token", ParamValue::Text(token.to_string()));
    info.set("outcome", ParamValue::Text(outcome.to_string()));
    Instrument {
        id: InstrumentId { symbol: symbol.to_string(), venue: venue.to_string() },
        raw_symbol: symbol.to_string(),
        kind: InstrumentKind::BinaryOption,
        outcome: Some(outcome.to_string()),
        info: Some(info),
    }
}

fn market(collateral: &str) -> Market {
    Market {
        id: "m".to_string(),
        slug: "rain".to_string(),
        question: "?".to_string(),
        icon_url: None,
        market_address: "0x0a".to_string(),
        collateral_token: collateral.to_string(),
        yes_token: "0x11".to_string(),
        no_token: "0x22".to_string(),
        yes_spot_market: "0x33".to_string(),
        no_spot_market: "0x44".to_string(),
        state: "open".to_string(),
        resolution_deadline: 1,
    }
}

fn pairs(specs: &[BalanceTokenSpec]) -> Vec<(&str, &str)> {
    specs
        .iter()
        .map(|spec| (spec.symbol.as_str(), spec.address.as_str()))
        .collect()
}

fn entry(symbol: &str, total: &str, locked: &str) -> BalanceEntry {
    BalanceEntry {
        symbol: symbol.to_string(),
        total: total.to_string(),
        locked: locked.to_string(),
        available: "0".to_string(),
    }
}

#[test]
fn tokens_of_the_cache_are_listed_once() {
    let cache = vec![
        outcome("rain-YES", "LIGHTPOOL", "yes", "0x11"),
        outcome("rain-NO", "LIGHTPOOL", "", " 0x22 "),
        outcome("snow", "LIGHTPOOL", "maybe", "0x33"),
        outcome("other-YES", "POLYMARKET", "yes", "0x99"),
    ];
    let specs = collect_balance_token_specs_from_cache(&cache, &env());
    assert_eq!(
        pairs(&specs),
        vec![("USDT", "0xC0"), ("YES", "0x11"), ("NO", "0x22"), ("OUTCOME", "0x33")]
    );
}

#[test]
fn tokens_of_markets_fill_an_empty_list() {
    let markets = vec![market("0xc0"), market("0xC0")];
    let specs = resolve_balance_token_specs(Vec::new(), &markets, &env());
    assert_eq!(
        pairs(&specs),
        vec![("USDT", "0xc0"), ("YES", "0x11"), ("NO", "0x22")]
    );
    let none = resolve_balance_token_specs(Vec::new(), &[], &env());
    assert_eq!(pairs(&none), vec![("USDT", "0x0200000000000001")]);
    let kept = resolve_balance_token_specs(
        vec![BalanceTokenSpec { symbol: "YES".to_string(), address: "0x77".to_string() }],
        &[],
        &env(),
    );
    assert_eq!(pairs(&kept), vec![("YES", "0x77")]);
}

#[test]
fn markets_are_needed_only_for_an_empty_list() {
    let slugs = vec!["rain".to_string()];
    assert!(needs_markets(&Vec::new(), &slugs));
    assert!(!needs_markets(&Vec::new(), &Vec::new()));
    let specs =
        vec![BalanceTokenSpec { symbol: "YES".to_string(), address: "0x77".to_string() }];
    assert!(!needs_markets(&specs, &slugs));
}

#[test]
fn collateral_symbols_share_a_currency() {
    let mut env = env();
    env.collateral_currency = Some("lpusd".to_string());
    assert_eq!(currency_for_balance_symbol("LPUSD", &env).code, "lpusd");
    assert_eq!(currency_for_balance_symbol("usdt", &env).code, "lpusd");
    assert_eq!(currency_for_balance_symbol("YES", &env).code, "YES");
}

#[test]
fn free_is_total_less_locked() {
    let balance = match balance_from_total_and_locked(decimal("10.5"), decimal("4"), usdt()) {
        Ok(balance) => balance,
        Err(error) => panic!("{error:?}"),
    };
    assert_eq!(balance.total, 10_500_000_000);
    assert_eq!(balance.locked, 4_000_000_000);
    assert_eq!(balance.free, 6_500_000_000);
}

#[test]
fn locked_stays_within_the_total() {
    let balance = match balance_from_total_and_locked(decimal("3"), decimal("4"), usdt()) {
        Ok(balance) => balance,
        Err(error) => panic!("{error:?}"),
    };
    assert_eq!((balance.total, balance.locked, balance.free), (3_000_000_000, 3_000_000_000, 0));
}

#[test]
fn balances_out_of_range_are_refused() {
    let cause = match checked_balance(decimal("99999999999"), decimal("0"), usdt()) {
        Some(Err(cause)) => cause,
        other => panic!("{other:?}"),
    };
    assert!(cause.contains("MoneyRaw") || cause.contains("Money"));
    match read_balance_entry(&entry("USDT", "99999999999", "0"), usdt()) {
        Some(Err(error)) => {
            assert_eq!(error.message(), format!("invalid balance for USDT: {cause}"));
        }
        other => panic!("{other:?}"),
    }
    let mut fine = usdt();
    fine.precision = 12;
    match checked_balance(decimal("1"), decimal("0"), fine) {
        Some(Err(cause)) => assert!(cause.contains("precision")),
        other => panic!("{other:?}"),
    }
}

#[test]
fn entries_are_read_with_their_currency() {
    let entries = vec![entry("USDT", " 10 ", "1"), entry("YES", "2.5", "0")];
    let balances = match parse_balance_entries(&entries, &env()) {
        Some(Ok(balances)) => balances,
        other => panic!("{other:?}"),
    };
    assert_eq!(balances.len(), 2);
    assert_eq!(balances[0].currency.code, "USDT");
    assert_eq!(balances[0].free + balances[0].locked, balances[0].total);
    assert_eq!(balances[1].currency.code, "YES");
    assert_eq!(balances[1].total, 2_500_000_000);
}

#[test]
fn bad_entries_are_refused() {
    let cause = match rust_decimal::Decimal::from_str("ten") {
        Err(error) => error.to_string(),
        Ok(number) => panic!("{number}"),
    };
    let refusal = |total: &str, locked: &str| {
        match read_balance_entry(&entry("USDT", total, locked), usdt()) {
            Some(Err(error)) => error.message(),
            other => panic!("{other:?}"),
        }
    };
    assert_eq!(refusal("ten", "1"), format!("invalid balance total for USDT: {cause}"));
    assert_eq!(refusal("10", "ten"), format!("invalid balance locked for USDT: {cause}"));
    match parse_balance_entries(&[entry("YES", "ten", "1")], &env()) {
        Some(Err(error)) => {
            assert_eq!(error.message(), format!("invalid balance total for YES: {cause}"));
        }
        other => panic!("{other:?}"),
    }
}

#[test]
fn symbols_are_read_behind_amounts() {
    let cause = match rust_decimal::Decimal::from_str("ten") {
        Err(error) => error.to_string(),
        Ok(number) => panic!("{number}"),
    };
    let refusal = |entries: &[_]| match parse_balance_entries(entries, &env()) {
        Some(Err(error)) => error.message(),
        other => panic!("{other:?}"),
    };
    assert_eq!(
        refusal(&[entry(" ", "ten", "1")]),
        format!("invalid balance total for  : {cause}")
    );
    assert_eq!(
        refusal(&[entry("", "1", "ten")]),
        format!("invalid balance locked for : {cause}")
    );
    assert_eq!(
        refusal(&[entry("YES", "ten", "1"), entry("", "1", "0")]),
        format!("invalid balance total for YES: {cause}")
    );
    assert!(parse_balance_entries(&[entry("", "1", "0")], &env()).is_none());
    assert!(
        parse_balance_entries(&[entry("USDT", "1", "0"), entry(" ", "1", "0")], &env()).is_none()
    );
}

#[test]
fn tokens_are_listed_once() {
    let mut specs = Vec::new();
    let mut seen = TextSet::new();
    push_token_spec(&mut specs, &mut seen, "A", " 0xAb ");
    push_token_spec(&mut specs, &mut seen, "B", "0xaB");
    push_token_spec(&mut specs, &mut seen, "C", "  ");
    push_token_spec(&mut specs, &mut seen, "D", "0xcd");
    let listed: Vec<(&str, &str)> = specs
        .iter()
        .map(|spec| (spec.symbol.as_str(), spec.address.as_str()))
        .collect();
    assert_eq!(listed, vec![("A", "0xAb"), ("D", "0xcd")]);
}

#[test]
fn an_account_without_entries_holds_nothing() {
    let placeholders = placeholder_balances(&env());
    assert_eq!(placeholders.len(), 1);
    assert_eq!(placeholders[0].currency.code, "USDT");
    assert_eq!((placeholders[0].total, placeholders[0].free), (0, 0));
    match parse_balance_entries(&[], &env()) {
        Some(Ok(balances)) => assert_eq!(balances.len(), 1),
        other => panic!("{other:?}"),
    }
}
