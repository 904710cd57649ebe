use std::str::FromStr;

use lightpool_bot::common::currency::{currency_with, register_currency, Currency};
use lightpool_bot::common::instrument_meta::{
    base_token_from_info, instrument_info, price_unit_for_instrument, quote_token_from_info,
};
use lightpool_bot::common::amounts::PriceUnit;
use lightpool_bot::config::Environment;
use lightpool_bot::fixed::{Price, Quantity};
use lightpool_bot::http::models::{BookLevel, BookSnapshot, Market};
use lightpool_bot::model::{InstrumentId, InstrumentKind, OrderSide};
use lightpool_bot::params::text_param;
use lightpool_bot::parse::{
    create_instrument, create_instrument_in, instruments_for_market, parse_book_delta,
    parse_book_snapshot, parse_price, parse_quantity, parse_quote_delta, parse_quote_snapshot,
    parse_quote_tick, BookAction, LightpoolOutcome, F_LAST, F_SNAPSHOT,
};
use lightpool_bot::websocket::models::{QuoteDelta, QuoteSnapshot};
use nautilus_model::types::{price::check_positive_price, quantity::check_positive_quantity};

fn env() -> Environment {
    Environment {
        clob_index_http: None,
        clob_index_ws: None,
        http_timeout_secs: None,
        http_connect_timeout_secs: None,
        private_key: None,
        collateral_token: None,
        collateral_currency: None,
        wallet_private_key: None,
    }
}

fn market() -> Market {
    Market {
        id: "m-1".to_string(),
        slug: "rain".to_string(),
        question: "Will it rain?".to_string(),
        icon_url: None,
        market_address: "0x0a".to_string(),
        collateral_token: "0xc0".to_string(),
        yes_token: "0x11".to_string(),
        no_token: "0x22".to_string(),
        yes_spot_market: "0x33".to_string(),
        no_spot_market: "0x44".to_string(),
        state: "open".to_string(),
        resolution_deadline: 1_700_000_000,
    }
}

fn id() -> InstrumentId {
    InstrumentId { symbol: "rain-YES".to_string(), venue: "LIGHTPOOL".to_string() }
}

fn level(price: &str, size: &str) -> BookLevel {
    BookLevel { price: price.to_string(), size: size.to_string() }
}

#[test]
fn an_outcome_becomes_a_binary_option() {
    let market = market();
    let option = match create_instrument(&market, LightpoolOutcome::Yes, "0x33", 1_000, &env(), 7) {
        Ok(option) => option,
        Err(error) => panic!("{error:?}"),
    };
    let instrument = &option.instrument;
    assert_eq!(instrument.id, id());
    assert_eq!(instrument.raw_symbol, "0x33");
    assert_eq!(instrument.kind, InstrumentKind::BinaryOption);
    assert_eq!(instrument.outcome.as_deref(), Some("yes"));
    let info = instrument_info(instrument);
    assert_eq!(text_param(info, "market_slug"), Some("rain"));
    assert_eq!(text_param(info, "market_id"), Some("m-1"));
    assert_eq!(text_param(info, "outcome"), Some("yes"));
    assert_eq!(text_param(info, "spot_market"), Some("0x33"));
    assert_eq!(text_param(info, "question"), Some("Will it rain?"));
    assert_eq!(quote_token_from_info(info), Some("0xc0".to_string()));
    assert_eq!(base_token_from_info(info), Some("0x11".to_string()));
    assert_eq!(price_unit_for_instrument(instrument), PriceUnit::Cents);
    assert_eq!(option.currency.code, "USDT");
    assert_eq!(option.expiration_ns, 1_700_000_000_000_000_000);
    assert_eq!(option.price_increment, Price { raw: 1_000_000, precision: 6 });
    assert_eq!(option.size_increment, Quantity { raw: 1_000, precision: 6 });
    assert_eq!(option.description, "Will it rain?");
    assert_eq!((option.ts_event, option.ts_init), (7, 7));
}

#[test]
fn a_market_has_two_instruments() {
    let market = market();
    let options = match instruments_for_market(&market, 1_000, 2_000, &env(), 7) {
        Ok(options) => options,
        Err(error) => panic!("{error:?}"),
    };
    assert_eq!(options.len(), 2);
    assert_eq!(options[0].instrument.id.symbol, "rain-YES");
    assert_eq!(options[1].instrument.id.symbol, "rain-NO");
    assert_eq!(options[1].instrument.raw_symbol, "0x44");
    assert_eq!(options[1].price_increment.raw, 2_000_000);
    assert_eq!(
        base_token_from_info(options[1].instrument.info.as_ref()),
        Some("0x22".to_string())
    );
}

/// How a text that is no number is refused.
fn no_number(text: &str) -> String {
    match rust_decimal::Decimal::from_str(text) {
        Err(error) => error.to_string(),
        Ok(number) => panic!("{number}"),
    }
}

#[test]
fn bad_ticks_are_refused() {
    let market = market();
    let currency = Currency { code: "USDT".to_string(), precision: 6 };
    let not_positive = match check_positive_price(nautilus_model::types::Price::zero(6), "price_increment")
    {
        Err(error) => error.to_string(),
        Ok(()) => panic!("positive"),
    };
    match create_instrument_in(&market, LightpoolOutcome::No, "0x44", 0, currency.clone(), 7) {
        Err(error) => assert_eq!(error.message(), not_positive),
        Ok(option) => panic!("{option:?}"),
    }
    let tick = rust_decimal::Decimal::from(u64::MAX) / rust_decimal::Decimal::from(1_000_000);
    let cause = match nautilus_model::types::Price::from_decimal_dp(tick, 6) {
        Err(error) => error.to_string(),
        Ok(price) => panic!("{price}"),
    };
    match create_instrument_in(&market, LightpoolOutcome::No, "0x44", u64::MAX, currency, 7) {
        Err(error) => assert_eq!(
            error.message(),
            format!("invalid tick size 18446744073709551615: {cause}")
        ),
        Ok(option) => panic!("{option:?}"),
    }
    match instruments_for_market(&market, 1_000, 0, &env(), 7) {
        Err(error) => assert_eq!(error.message(), not_positive),
        Ok(options) => panic!("{options:?}"),
    }
    let mut far = market;
    far.resolution_deadline = u64::MAX;
    assert!(
        create_instrument(&far, LightpoolOutcome::Yes, "0x33", u64::MAX, &env(), 7).is_err()
    );
    far.no_spot_market = "".to_string();
    assert!(instruments_for_market(&far, u64::MAX, 1_000, &env(), 7).is_err());
}

#[test]
fn currencies_keep_their_places() {
    assert_eq!(register_currency("BTC").precision, 8);
    let new = register_currency("LPTESTTOKEN");
    assert_eq!((new.code.as_str(), new.precision), ("LPTESTTOKEN", 6));
    assert_eq!(register_currency("LPTESTTOKEN").precision, 6);
    assert_eq!(currency_with("A", Some(2)).precision, 2);
    assert_eq!(currency_with("A", None).precision, 6);
}

#[test]
fn cent_prices_are_read() {
    assert_eq!(parse_price("52.3").ok(), Some(Price { raw: 523_000_000, precision: 6 }));
    assert_eq!(parse_price(" 100 ").ok(), Some(Price { raw: 1_000_000_000, precision: 6 }));
    assert_eq!(
        parse_price(" cheap").err().map(|error| error.message()),
        Some(format!("invalid cents price ' cheap': {}", no_number("cheap")))
    );
    let most = rust_decimal::Decimal::MAX / rust_decimal::Decimal::from(100);
    let cause = match nautilus_model::types::Price::from_decimal_dp(most, 6) {
        Err(error) => error.to_string(),
        Ok(price) => panic!("{price}"),
    };
    assert_eq!(
        parse_price("79228162514264337593543950335").err().map(|error| error.message()),
        Some(format!("invalid price '79228162514264337593543950335': {cause}"))
    );
}

#[test]
fn sizes_are_read() {
    assert_eq!(
        parse_quantity("2.5").ok(),
        Some(Quantity { raw: 2_500_000_000, precision: 6 })
    );
    assert_eq!(
        parse_quantity("many").err().map(|error| error.message()),
        Some(format!("invalid size 'many': {}", no_number("many")))
    );
    assert_eq!(
        parse_quantity("-1").err().map(|error| error.message()),
        Some(
            "invalid size '-1': Decimal value '-1' is negative, Quantity must be non-negative"
                .to_string()
        )
    );
}

#[test]
fn a_snapshot_clears_the_book_first() {
    let snapshot = BookSnapshot {
        sequence: 9,
        bids: vec![level("52", "10")],
        asks: vec![level("53", "4"), level("54", "0")],
        last_trade_price: None,
    };
    let deltas = match parse_book_snapshot(&snapshot, &id(), 7) {
        Ok(deltas) => deltas,
        Err(error) => panic!("{error:?}"),
    };
    assert_eq!(deltas.instrument_id, id());
    assert_eq!(deltas.sequence, 9);
    let actions: Vec<BookAction> = deltas.deltas.iter().map(|delta| delta.action).collect();
    assert_eq!(
        actions,
        vec![BookAction::Clear, BookAction::Update, BookAction::Update, BookAction::Delete]
    );
    assert_eq!(deltas.deltas[1].side, OrderSide::Buy);
    assert_eq!(deltas.deltas[1].price.raw, 520_000_000);
    assert_eq!(deltas.deltas[1].size.raw, 10_000_000_000);
    assert_eq!(deltas.deltas[1].flags, F_SNAPSHOT);
    assert_eq!(deltas.deltas[2].side, OrderSide::Sell);
    assert_eq!(deltas.deltas[3].flags, F_SNAPSHOT | F_LAST);
}

#[test]
fn only_the_last_delta_closes_the_book() {
    let bids = vec![level("52", "10"), level("51", "1")];
    let deltas = match parse_book_delta(&bids, &[], &id(), 3, 7) {
        Ok(deltas) => deltas,
        Err(error) => panic!("{error:?}"),
    };
    let closing: Vec<bool> = deltas
        .deltas
        .iter()
        .map(|delta| delta.flags & F_LAST != 0)
        .collect();
    assert_eq!(closing, vec![false, true]);
    assert_eq!(deltas.flags, F_LAST);
}

#[test]
fn a_delta_needs_levels() {
    assert_eq!(
        parse_book_delta(&[], &[], &id(), 3, 7).err().map(|error| error.message()),
        Some("empty orderbook delta".to_string())
    );
}

#[test]
fn bad_levels_are_refused() {
    let refusal = |level| {
        parse_book_delta(&[level], &[], &id(), 3, 7).err().map(|error| error.message())
    };
    assert_eq!(
        refusal(level("52", "?")),
        Some(format!("invalid size '?': {}", no_number("?")))
    );
    assert_eq!(
        refusal(level("?", "1")),
        Some(format!("invalid cents price '?': {}", no_number("?")))
    );
    let zero = nautilus_model::types::Quantity::zero(6);
    let not_positive = match check_positive_quantity(zero, "order.size") {
        Err(error) => error.to_string(),
        Ok(()) => panic!("positive"),
    };
    assert_eq!(refusal(level("52", "0.0000001")), Some(not_positive));
}

#[test]
fn a_quote_needs_both_sides() {
    let bid = level("52", "10");
    let ask = level("53", "4");
    assert!(matches!(parse_quote_tick(Some(&bid), None, &id(), 7), Ok(None)));
    let quote = match parse_quote_tick(Some(&bid), Some(&ask), &id(), 7) {
        Ok(Some(quote)) => quote,
        other => panic!("{other:?}"),
    };
    assert_eq!(quote.bid_price.raw, 520_000_000);
    assert_eq!(quote.ask_price.raw, 530_000_000);
    assert_eq!(quote.bid_size.raw, 10_000_000_000);
    assert_eq!(quote.ask_size.raw, 4_000_000_000);
}

#[test]
fn quote_messages_are_read() {
    let snapshot = QuoteSnapshot {
        msg_type: "quote_snapshot".to_string(),
        spot_market: "0x33".to_string(),
        sequence: 1,
        best_bid: Some(level("52", "10")),
        best_ask: Some(level("53", "4")),
        last_trade_price: None,
    };
    assert!(matches!(parse_quote_snapshot(&snapshot, &id(), 7), Ok(Some(_))));
    let delta = QuoteDelta {
        msg_type: "quote".to_string(),
        spot_market: "0x33".to_string(),
        sequence: 1,
        block_num: 2,
        best_bid: None,
        best_ask: Some(level("53", "4")),
        last_trade_price: None,
    };
    assert!(matches!(parse_quote_delta(&delta, &id(), 7), Ok(None)));
}
