use lightpool_bot::config::Environment;
use lightpool_bot::decimal::Decimal;
use lightpool_bot::fixed::Price;
use lightpool_bot::http::models::{BalanceEntry, BookLevel, Market};
use lightpool_bot::model::{Instrument, InstrumentId, InstrumentKind};
use lightpool_bot::runners::{
    book_depth, check_bootstrap, find_registry_market, lightpool_slugs, parse_csv_list,
    parse_symbols, registry_candidates, require_non_empty, resolve_markets, RegistryFile,
    RegistryMarket,
};
use lightpool_bot::strategies::liquidity_maker::bootstrap::MarketPair;
use lightpool_bot::tools::{
    best_level, cents_to_display, check_level, check_tick, count_or, format_levels,
    instrument_is_yes, market_balance_specs, merge_amount_of, number_or, outcome_instrument_id,
    outcome_op, pick_instrument, pick_seed_instrument, resolve_merge_amount, seed_deadline,
    seed_level, seed_question, spot_market_for_outcome, MergeError, OutcomeOp, SeedError,
};

fn decimal(text: &str) -> Decimal {
    match Decimal::parse(text) {
        Ok(value) => value,
        Err(_) => panic!("not a decimal: {text}"),
    }
}

fn registry() -> RegistryFile {
    RegistryFile {
        markets: vec![RegistryMarket {
            symbol: "aapl".to_string(),
            base_token: "0x02".to_string(),
            quote_token: "0x01".to_string(),
            spot_market: "0x03".to_string(),
        }],
    }
}

fn symbols(raw: &[&str]) -> Vec<String> {
    raw.iter().map(|symbol| symbol.to_string()).collect()
}

fn instrument(symbol: &str, kind: InstrumentKind) -> Instrument {
    Instrument {
        id: InstrumentId { symbol: symbol.to_string(), venue: "LIGHTPOOL".to_string() },
        raw_symbol: symbol.to_string(),
        kind,
        outcome: None,
        info: None,
    }
}

fn balance(symbol: &str, available: &str) -> BalanceEntry {
    BalanceEntry {
        symbol: symbol.to_string(),
        total: "0".to_string(),
        locked: "0".to_string(),
        available: available.to_string(),
    }
}

fn market() -> Market {
    Market {
        id: "m".to_string(),
        slug: "rain".to_string(),
        question: "?".to_string(),
        icon_url: None,
        market_address: "0x0a".to_string(),
        collateral_token: "0xc0".to_string(),
        yes_token: "0x11".to_string(),
        no_token: "0x22".to_string(),
        yes_spot_market: "0x33".to_string(),
        no_spot_market: "0x44".to_string(),
        state: "open".to_string(),
        resolution_deadline: 1,
    }
}

#[test]
fn lists_are_split_at_commas() {
    assert_eq!(parse_csv_list(" a ,, b,"), vec!["a", "b"]);
    assert!(parse_csv_list(" , ").is_empty());
    assert_eq!(parse_symbols("aapl, Tsla"), vec!["AAPL", "TSLA"]);
}

#[test]
fn registries_are_looked_for() {
    assert_eq!(
        registry_candidates(Some(" /r.json "), "/crate"),
        vec![
            "/r.json",
            "../data/tokenized-stocks/registry.json",
            "../../data/tokenized-stocks/registry.json",
            "/crate/../../../data/tokenized-stocks/registry.json"
        ]
    );
    assert_eq!(registry_candidates(Some("  "), "/crate").len(), 3);
    assert_eq!(registry_candidates(None, "/crate").len(), 3);
    assert!(find_registry_market(&registry(), "AAPL").is_some());
    assert!(find_registry_market(&registry(), "TSLA").is_none());
}

#[test]
fn markets_come_from_the_registry() {
    match resolve_markets(&symbols(&["AAPL"]), &None, Some(&registry())) {
        Ok(markets) => {
            assert_eq!(markets.len(), 1);
            assert_eq!(markets[0].hl_coin, "xyz:AAPL");
            assert_eq!(markets[0].spot.spot_market, "0x03");
            assert_eq!(markets[0].spot.base_token, "0x02");
            assert_eq!(markets[0].spot.quote_token, "0x01");
        }
        Err(error) => panic!("{}", error.message()),
    }
    match resolve_markets(
        &symbols(&["AAPL"]),
        &Some(symbols(&["0x09"])),
        Some(&registry()),
    ) {
        Ok(markets) => assert_eq!(markets[0].spot.spot_market, "0x09"),
        Err(error) => panic!("{}", error.message()),
    }
}

#[test]
fn unresolved_markets_are_refused() {
    let message = |symbols: &Vec<String>, spots: &Option<Vec<String>>| {
        match resolve_markets(symbols, spots, Some(&registry())) {
            Ok(markets) => panic!("{markets:?}"),
            Err(error) => error.message(),
        }
    };
    assert_eq!(
        message(&symbols(&["AAPL", "TSLA"]), &Some(symbols(&["0x09"]))),
        "--spot-market count (1) must match --symbol count (2)"
    );
    assert!(message(&symbols(&["TSLA"]), &None).starts_with("missing spot_market for TSLA"));
    assert!(message(&symbols(&["TSLA"]), &Some(symbols(&["0x09"])))
        .starts_with("missing base_token/quote_token for TSLA"));
}

#[test]
fn arguments_are_held_to_their_form() {
    assert_eq!(require_non_empty("--slug", " a "), Ok("a".to_string()));
    assert_eq!(
        require_non_empty("--slug", "  "),
        Err("--slug must be non-empty".to_string())
    );
    assert_eq!(book_depth(25), 25);
    assert_eq!(book_depth(usize::MAX), 10);
    assert!(check_bootstrap(true, false).is_ok());
    assert_eq!(
        check_bootstrap(true, true),
        Err("--bootstrap-markets cannot be used with --polymarket-only".to_string())
    );
}

#[test]
fn slugs_come_from_pairs_or_arguments() {
    let pairs = vec![MarketPair {
        condition_id: "c".to_string(),
        question: "?".to_string(),
        lightpool_slug: "rain".to_string(),
        market_address: "0x0a".to_string(),
    }];
    assert_eq!(lightpool_slugs(&pairs, true, Some("other")), Ok(symbols(&["rain"])));
    assert_eq!(lightpool_slugs(&Vec::new(), true, Some(" snow ")), Ok(symbols(&["snow"])));
    assert_eq!(lightpool_slugs(&Vec::new(), false, None), Ok(Vec::new()));
    assert_eq!(
        lightpool_slugs(&Vec::new(), true, None),
        Err("--lightpool-slug is required unless --bootstrap-markets or --polymarket-only"
            .to_string())
    );
    assert_eq!(
        lightpool_slugs(&Vec::new(), true, Some(" ")),
        Err("--lightpool-slug must be non-empty".to_string())
    );
}

#[test]
fn yes_instruments_are_preferred() {
    let instruments = vec![
        instrument("rain-NO", InstrumentKind::BinaryOption),
        instrument("rain-YES", InstrumentKind::BinaryOption),
    ];
    assert!(instrument_is_yes(&instruments[1]));
    assert!(!instrument_is_yes(&instruments[0]));
    assert_eq!(
        pick_seed_instrument(&instruments).map(|found| found.id.symbol.as_str()),
        Some("rain-YES")
    );
    assert_eq!(
        pick_instrument(&instruments[..1]).map(|found| found.id.symbol.as_str()),
        Some("rain-NO")
    );
    assert!(pick_instrument(&[]).is_none());
}

#[test]
fn counts_have_defaults() {
    assert_eq!(count_or(Some(" 7 "), 2), 7);
    assert_eq!(count_or(Some("0"), 2), 1);
    assert_eq!(count_or(Some("many"), 2), 2);
    assert_eq!(count_or(None, 2), 2);
    assert_eq!(number_or(Some("0"), 2), 0);
    assert_eq!(number_or(Some("?"), 2), 2);
    assert_eq!(seed_deadline(100), 2_592_100);
    assert_eq!(seed_deadline(u64::MAX), u64::MAX);
    assert_eq!(
        seed_question(1, 99),
        "Dev seed market #1 \u{2014} will it rain? (99)"
    );
}

#[test]
fn seed_levels_straddle_the_middle() {
    assert_eq!(
        seed_level(decimal("0.50"), decimal("0.01"), 2),
        Some(Ok((
            Price { raw: 480_000_000, precision: 2 },
            Price { raw: 520_000_000, precision: 2 }
        )))
    );
    assert_eq!(
        seed_level(decimal("0.50"), decimal("0.25"), 2),
        Some(Err(SeedError::OutsideUnit))
    );
    assert_eq!(check_tick(decimal("0")), Err(SeedError::TickNotPositive));
    assert_eq!(check_tick(decimal("0.01")), Ok(()));
    assert_eq!(check_level(decimal("0"), decimal("0.5")), Err(SeedError::OutsideUnit));
    assert_eq!(check_level(decimal("0.5"), decimal("1")), Err(SeedError::OutsideUnit));
}

#[test]
fn outcome_operations_are_read() {
    assert_eq!(outcome_op("mint"), Some(OutcomeOp::Mint));
    assert_eq!(outcome_op("burn"), Some(OutcomeOp::Burn));
    assert_eq!(outcome_op("swap"), None);
}

#[test]
fn the_smaller_balance_is_merged() {
    match merge_amount_of(decimal("3"), decimal("2.5")) {
        Ok(amount) => assert_eq!(amount.text(), "2.5"),
        Err(error) => panic!("{error:?}"),
    }
    assert_eq!(
        merge_amount_of(decimal("3"), decimal("0")).err(),
        Some(MergeError::NothingToMerge)
    );
    match resolve_merge_amount(&[balance("YES", "3"), balance("NO", "1")]) {
        Ok(amount) => assert_eq!(amount.text(), "1"),
        Err(error) => panic!("{error:?}"),
    }
    assert_eq!(
        resolve_merge_amount(&[balance("YES", "?"), balance("NO", "1")]).err(),
        Some(MergeError::InvalidYes)
    );
    assert_eq!(
        resolve_merge_amount(&[balance("YES", "1"), balance("NO", "?")]).err(),
        Some(MergeError::InvalidNo)
    );
}

#[test]
fn market_balances_name_three_tokens() {
    let env = Environment {
        clob_index_http: None,
        clob_index_ws: None,
        http_timeout_secs: None,
        http_connect_timeout_secs: None,
        private_key: None,
        collateral_token: None,
        collateral_currency: None,
        wallet_private_key: None,
    };
    let specs = market_balance_specs(&market(), &env);
    let found: Vec<(&str, &str)> = specs
        .iter()
        .map(|spec| (spec.symbol.as_str(), spec.address.as_str()))
        .collect();
    assert_eq!(found, vec![("USDT", "0xc0"), ("YES", "0x11"), ("NO", "0x22")]);
}

#[test]
fn books_are_shown() {
    assert_eq!(cents_to_display(" 52 "), Some("0.52".to_string()));
    assert_eq!(cents_to_display("105"), Some("1.05".to_string()));
    assert_eq!(cents_to_display("52.3"), None);
    let levels = vec![
        BookLevel { price: "52".to_string(), size: "10".to_string() },
        BookLevel { price: "51.5".to_string(), size: "4".to_string() },
    ];
    assert_eq!(format_levels(&levels), "10@0.52, 4@?");
    assert_eq!(best_level(&levels), "10@52");
    assert_eq!(format_levels(&[]), "[-]");
    assert_eq!(best_level(&[]), "-");
}

#[test]
fn outcomes_name_spot_market_and_instrument() {
    assert_eq!(spot_market_for_outcome(&market(), "yes"), Ok("0x33".to_string()));
    assert_eq!(spot_market_for_outcome(&market(), "no"), Ok("0x44".to_string()));
    assert_eq!(
        spot_market_for_outcome(&market(), "YES"),
        Err("--outcome must be yes or no, got YES".to_string())
    );
    assert_eq!(
        outcome_instrument_id("rain", "yes"),
        Ok(InstrumentId { symbol: "rain-YES".to_string(), venue: "LIGHTPOOL".to_string() })
    );
    assert!(outcome_instrument_id("rain", "maybe").is_err());
}
