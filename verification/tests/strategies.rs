use lightpool_bot::collections::{InstrumentMap, InstrumentSet, TextMap, TextSet};
use lightpool_bot::config::SpotMarketBootstrap;
use lightpool_bot::decimal::Decimal;
use lightpool_bot::model::{find_instrument, Instrument, InstrumentId, InstrumentKind};
use lightpool_bot::params::{ParamValue, Params};
use lightpool_bot::strategies::equity_liquidity_maker::config::{
    EquityLiquidityMakerConfig, EquityMarketPair,
};
use lightpool_bot::strategies::equity_liquidity_maker::strategy::{
    EquityLiquidityMaker, EquityStartError,
};
use lightpool_bot::strategies::liquidity_maker::config::LiquidityMakerConfig;
use lightpool_bot::strategies::liquidity_maker::markets::{
    assign_lightpool_markets_to_slugs, assign_markets_to_slugs,
    discover_lightpool_markets_from_cache, discover_markets_from_cache, format_decimal_levels,
    instrument_outcome_side, instrument_spot_market, market_slug_from_symbol,
    price_matches_outcome, resolve_yes_no_pair, OutcomeSide,
};
use lightpool_bot::strategies::liquidity_maker::strategy::{
    venue_label, LiquidityMaker, StartError,
};

fn decimal(text: &str) -> Decimal {
    match Decimal::parse(text) {
        Ok(value) => value,
        Err(_) => panic!("not a decimal: {text}"),
    }
}

fn id(symbol: &str, venue: &str) -> InstrumentId {
    InstrumentId { symbol: symbol.to_string(), venue: venue.to_string() }
}

fn option(symbol: &str, venue: &str, outcome: &str, slug: Option<&str>) -> Instrument {
    let mut info = Params::new();
    if let Some(slug) = slug {
        info.set("market_slug", ParamValue::Text(slug.to_string()));
    }
    Instrument {
        id: id(symbol, venue),
        raw_symbol: format!("raw-{symbol}"),
        kind: InstrumentKind::BinaryOption,
        outcome: Some(outcome.to_string()),
        info: Some(info),
    }
}

fn cache() -> Vec<Instrument> {
    vec![
        option("c1-111", "POLYMARKET", "Yes", None),
        option("c1-222", "POLYMARKET", "No", None),
        option("c2-333", "POLYMARKET", "Up", None),
        option("nodash", "POLYMARKET", "No", None),
        option("rain-YES", "LIGHTPOOL", "yes", Some("rain")),
        option("rain-NO", "LIGHTPOOL", "NO", None),
    ]
}

fn maker() -> LiquidityMaker {
    LiquidityMaker::new(
        LiquidityMakerConfig::new(vec!["event".to_string()])
            .with_lightpool_slugs(vec!["rain".to_string()])
            .with_trading_enabled(true)
            .with_reconcile_delta_batch_size(2),
    )
}

#[test]
fn text_maps_keep_the_last_value() {
    let mut map: TextMap<u64> = TextMap::new();
    assert_eq!(map.insert("a", 1), None);
    assert_eq!(map.insert("b", 2), None);
    assert_eq!(map.insert("a", 3), Some(1));
    assert_eq!(map.get("a"), Some(&3));
    assert_eq!(map.get("c"), None);
    assert!(map.contains("b"));
    assert_eq!(map.len(), 2);
    assert_eq!(map.entries().len(), 2);
}

#[test]
fn instrument_maps_tell_venues_apart() {
    let mut map: InstrumentMap<u64> = InstrumentMap::new();
    assert_eq!(map.insert(&id("a", "X"), 1), None);
    assert_eq!(map.insert(&id("a", "Y"), 2), None);
    assert_eq!(map.get(&id("a", "X")), Some(&1));
    assert_eq!(map.insert(&id("a", "X"), 4), Some(1));
    assert_eq!(map.get(&id("a", "X")), Some(&4));
    assert!(!map.contains(&id("b", "X")));
    assert_eq!(map.len(), 2);
}

#[test]
fn sets_hold_members_once() {
    let mut texts = TextSet::new();
    assert!(texts.insert("a"));
    assert!(!texts.insert("a"));
    let mut set = InstrumentSet::new();
    assert!(set.insert(&id("a", "X")));
    assert!(!set.insert(&id("a", "X")));
    assert!(set.insert(&id("b", "X")));
    assert!(set.contains(&id("b", "X")));
    assert!(set.remove(&id("b", "X")));
    assert!(!set.remove(&id("b", "X")));
    assert!(!set.contains(&id("b", "X")));
    assert_eq!(set.drain(), vec![id("a", "X")]);
    assert!(set.items().is_empty());
    assert!(!set.contains(&id("a", "X")));
}

#[test]
fn markets_are_discovered_in_pairs() {
    let cache = cache();
    let polymarket = discover_markets_from_cache(&cache);
    assert_eq!(polymarket.len(), 1);
    match polymarket.get("c1") {
        Some(market) => {
            assert_eq!(market.yes_id, id("c1-111", "POLYMARKET"));
            assert_eq!(market.no_id, id("c1-222", "POLYMARKET"));
        }
        None => panic!("not found"),
    }
    let lightpool = discover_lightpool_markets_from_cache(&cache);
    assert_eq!(lightpool.len(), 1);
    match lightpool.get("rain") {
        Some(market) => assert_eq!(market.no_id, id("rain-NO", "LIGHTPOOL")),
        None => panic!("not found"),
    }
}

#[test]
fn markets_are_assigned_to_slugs() {
    let cache = cache();
    let lightpool = discover_lightpool_markets_from_cache(&cache);
    let slugs = vec!["rain".to_string(), "snow".to_string()];
    let mut assigned = TextMap::new();
    assert_eq!(assign_lightpool_markets_to_slugs(&slugs, &lightpool, &mut assigned), 1);
    assert_eq!(assign_lightpool_markets_to_slugs(&slugs, &lightpool, &mut assigned), 0);
    let polymarket = discover_markets_from_cache(&cache);
    let mut by_slug = TextMap::new();
    let mut conditions = TextMap::new();
    assert_eq!(assign_markets_to_slugs(&[], &polymarket, &mut by_slug, &mut conditions), 0);
    assert_eq!(assign_markets_to_slugs(&slugs, &polymarket, &mut by_slug, &mut conditions), 1);
    assert_eq!(assign_markets_to_slugs(&slugs, &polymarket, &mut by_slug, &mut conditions), 0);
    assert!(by_slug.get("rain").is_some_and(|markets| markets.contains("c1")));
    assert!(!by_slug.contains("snow"));
}

#[test]
fn outcomes_come_from_labels() {
    let cache = cache();
    let side = |symbol, venue| instrument_outcome_side(&cache, &id(symbol, venue));
    assert_eq!(side("c2-333", "POLYMARKET"), OutcomeSide::Yes);
    assert_eq!(side("rain-NO", "LIGHTPOOL"), OutcomeSide::No);
    assert_eq!(side("none", "LIGHTPOOL"), OutcomeSide::Unknown);
    assert_eq!(OutcomeSide::from_label("down"), OutcomeSide::No);
    assert_eq!(OutcomeSide::from_label("maybe").as_str(), "unknown");
    assert_eq!(
        instrument_spot_market(&cache, &id("rain-NO", "LIGHTPOOL")),
        Some("raw-rain-NO".to_string())
    );
    assert!(find_instrument(&cache, &id("none", "LIGHTPOOL")).is_none());
    assert_eq!(market_slug_from_symbol("rain-YES"), "rain");
    assert_eq!(market_slug_from_symbol("rain-NO"), "rain");
    assert_eq!(market_slug_from_symbol("rain"), "rain");
}

#[test]
fn swapped_outcomes_are_put_right() {
    let cache = cache();
    let polymarket = discover_markets_from_cache(&cache);
    let mut pair = match polymarket.get("c1") {
        Some(pair) => pair.clone(),
        None => panic!("not found"),
    };
    let straight = Some((id("c1-111", "POLYMARKET"), id("c1-222", "POLYMARKET")));
    assert_eq!(resolve_yes_no_pair(&cache, &pair), straight);
    pair.yes_id = id("c1-222", "POLYMARKET");
    pair.no_id = id("c1-111", "POLYMARKET");
    assert_eq!(resolve_yes_no_pair(&cache, &pair), straight);
    assert_eq!(
        resolve_yes_no_pair(&[], &pair),
        Some((id("c1-222", "POLYMARKET"), id("c1-111", "POLYMARKET")))
    );
}

#[test]
fn prices_match_their_outcome() {
    assert!(price_matches_outcome(OutcomeSide::Yes, decimal("0.55")));
    assert!(!price_matches_outcome(OutcomeSide::Yes, decimal("0.56")));
    assert!(price_matches_outcome(OutcomeSide::No, decimal("0.55")));
    assert!(!price_matches_outcome(OutcomeSide::No, decimal("0.54")));
    assert!(price_matches_outcome(OutcomeSide::Unknown, decimal("9")));
    let levels = vec![
        (decimal("0.50"), decimal("3")),
        (decimal("0.49"), decimal("1.5")),
        (decimal("0.48"), decimal("2")),
    ];
    assert_eq!(format_decimal_levels(&levels, 2), "3@0.50, 1.5@0.49");
    assert_eq!(format_decimal_levels(&levels, 0), "");
}

#[test]
fn starting_subscribes_and_pairs() {
    let mut maker = maker();
    let plan = match maker.on_start(&cache()) {
        Ok(plan) => plan,
        Err(error) => panic!("{error:?}"),
    };
    assert_eq!((plan.synced_polymarket, plan.synced_lightpool), (1, 1));
    assert_eq!(plan.depth, 10);
    assert_eq!(
        plan.subscribe,
        vec![id("c1-111", "POLYMARKET"), id("c1-222", "POLYMARKET")]
    );
    assert_eq!(
        maker.lightpool_for_polymarket(&id("c1-111", "POLYMARKET")),
        Some(id("rain-YES", "LIGHTPOOL"))
    );
    assert_eq!(
        maker.polymarket_for_lightpool(&id("rain-NO", "LIGHTPOOL")),
        Some(id("c1-222", "POLYMARKET"))
    );
    assert_eq!(maker.lightpool_for_polymarket(&id("c9", "POLYMARKET")), None);
    assert!(maker.reconcile_subscriptions().is_empty());
    assert_eq!(maker.on_stop().len(), 2);
}

#[test]
fn an_unmanaged_book_does_not_start() {
    let mut maker = LiquidityMaker::new(
        LiquidityMakerConfig::new(vec!["event".to_string()]).with_managed_book(false),
    );
    assert_eq!(maker.on_start(&cache()).err(), Some(StartError::UnmanagedBook));
}

#[test]
fn deltas_are_reconciled_in_batches() {
    let mut maker = maker();
    let first = id("c1-111", "POLYMARKET");
    assert!(maker.on_book_deltas(&id("rain-YES", "LIGHTPOOL")).reconcile.is_empty());
    assert!(maker.on_book_deltas(&first).reconcile.is_empty());
    let pairs = maker.pm_to_lp.len();
    assert_eq!(maker.on_book_deltas(&first).reconcile, vec![first.clone()]);
    assert_eq!(maker.pm_to_lp.len(), pairs);
    assert!(!maker.pending_reconcile_pm_instruments.contains(&first));
    assert!(maker.on_book_deltas(&id("c1-222", "POLYMARKET")).reconcile.is_empty());
    assert_eq!(maker.pending_reconcile_delta_count, 1);
    assert_eq!(venue_label(&first), "Polymarket");
    assert_eq!(venue_label(&id("a", "LIGHTPOOL")), "Lightpool");
    assert_eq!(venue_label(&id("a", "X")), "Unknown");
}

#[test]
fn without_trading_nothing_is_collected() {
    let mut maker = LiquidityMaker::new(
        LiquidityMakerConfig::new(vec!["event".to_string()]).with_reconcile_delta_batch_size(1),
    );
    assert!(maker.on_book_deltas(&id("c1-111", "POLYMARKET")).reconcile.is_empty());
    assert_eq!(maker.pending_reconcile_delta_count, 0);
}

#[test]
fn books_are_logged_at_an_interval() {
    let config = LiquidityMakerConfig::new(vec!["event".to_string()]).with_log_interval(3);
    let mut maker = LiquidityMaker::new(config);
    let first = id("c1-111", "POLYMARKET");
    let second = id("c1-222", "POLYMARKET");
    let logged: Vec<bool> = (0..7).map(|_| maker.on_book_deltas(&first).log_book).collect();
    assert_eq!(logged, vec![false, false, true, false, false, true, false]);
    assert!(!maker.on_book_deltas(&second).log_book);
    assert!(!maker.on_book_deltas(&id("rain-YES", "LIGHTPOOL")).log_book);
    assert_eq!(maker.delta_batches.get(&first).copied(), Some(7));
    assert_eq!(maker.delta_batches.get(&second).copied(), Some(1));
    assert_eq!(maker.delta_batches.get(&id("rain-YES", "LIGHTPOOL")).copied(), None);
    assert!(!maker.maybe_log_book(&first));
    assert!(maker.maybe_log_book(&first));
}

#[test]
fn no_interval_logs_no_book() {
    let first = id("c1-111", "POLYMARKET");
    let mut never = LiquidityMaker::new(
        LiquidityMakerConfig::new(vec!["event".to_string()]).with_log_interval(0),
    );
    assert!(!never.on_book_deltas(&first).log_book);
    assert_eq!(never.delta_batches.get(&first).copied(), None);
    let mut silent = LiquidityMaker::new(
        LiquidityMakerConfig::new(vec!["event".to_string()])
            .with_log_interval(1)
            .with_log_polymarket(false),
    );
    assert!(!silent.on_book_deltas(&first).log_book);
    assert_eq!(silent.delta_batches.get(&first).copied(), None);
}

fn equity(symbol: &str) -> EquityMarketPair {
    EquityMarketPair {
        symbol: symbol.to_string(),
        hl_coin: format!("xyz:{symbol}"),
        spot: SpotMarketBootstrap {
            symbol: symbol.to_string(),
            spot_market: "0x03".to_string(),
            base_token: "0x02".to_string(),
            quote_token: "0x01".to_string(),
        },
    }
}

#[test]
fn equity_symbols_are_told_apart() {
    assert_eq!(
        EquityLiquidityMaker::hl_instrument_id("AAPL"),
        id("xyz:AAPL-USD-PERP", "HYPERLIQUID")
    );
    assert_eq!(
        EquityLiquidityMaker::lp_instrument_id("AAPL"),
        id("AAPL-USDT", "LIGHTPOOL")
    );
    assert_ne!(
        EquityLiquidityMaker::hl_instrument_id("AAPL"),
        EquityLiquidityMaker::hl_instrument_id("TSLA")
    );
}

#[test]
fn an_equity_maker_pairs_its_symbols() {
    let config = EquityLiquidityMakerConfig::new(vec![equity("AAPL"), equity("TSLA")])
        .with_log_interval(2)
        .with_reconcile_delta_batch_size(2);
    let mut maker = EquityLiquidityMaker::new(config);
    match maker.on_start() {
        Ok(subscribe) => assert_eq!(
            subscribe,
            vec![
                id("xyz:AAPL-USD-PERP", "HYPERLIQUID"),
                id("xyz:TSLA-USD-PERP", "HYPERLIQUID")
            ]
        ),
        Err(error) => panic!("{error:?}"),
    }
    let aapl = id("xyz:AAPL-USD-PERP", "HYPERLIQUID");
    assert_eq!(
        maker.lightpool_for_hyperliquid(&aapl),
        Some(id("AAPL-USDT", "LIGHTPOOL"))
    );
    let first = maker.on_book_deltas(&aapl);
    assert!(!first.log_book && first.reconcile.is_empty());
    let second = maker.on_book_deltas(&aapl);
    assert!(second.log_book);
    assert_eq!(second.reconcile, vec![aapl.clone()]);
    let other = maker.on_book_deltas(&id("AAPL-USDT", "LIGHTPOOL"));
    assert!(!other.log_book && other.reconcile.is_empty());
    assert_eq!(
        maker.reconcile_after_own_cancel(&id("AAPL-USDT", "LIGHTPOOL")),
        vec![aapl.clone()]
    );
    assert!(maker.reconcile_after_own_cancel(&id("MSFT-USDT", "LIGHTPOOL")).is_empty());
    assert_eq!(maker.on_stop().len(), 2);
}

#[test]
fn an_equity_maker_needs_markets() {
    let mut empty = EquityLiquidityMaker::new(EquityLiquidityMakerConfig::new(Vec::new()));
    assert_eq!(empty.on_start().err(), Some(EquityStartError::NoMarkets));
    let mut config = EquityLiquidityMakerConfig::new(vec![equity("AAPL")]);
    config.managed_book = false;
    let mut unmanaged = EquityLiquidityMaker::new(config);
    assert_eq!(unmanaged.on_start().err(), Some(EquityStartError::UnmanagedBook));
    assert_eq!(
        EquityStartError::NoMarkets.message(),
        "EquityLiquidityMaker requires at least one market"
    );
}
