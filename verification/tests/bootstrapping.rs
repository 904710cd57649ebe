use lightpool_bot::http::bootstrap::BootstrappedMarket;
use lightpool_bot::http::models::Market;
use lightpool_bot::strategies::liquidity_maker::bootstrap::{
    check_event_slugs, deadline_ahead, deadline_from, deadline_still_open, event_request_limit,
    fetch_hottest_event_slugs, fetch_top_polymarket_markets, has_order_book, outcome_price_tokens,
    parse_deadline_unix, parse_resolution_deadline, BootstrapConfig, BootstrapError, BootstrapStep,
    Bootstrapper, GammaEvent, GammaMarket,
};

const NOW: u64 = 1_700_000_000;

fn market(condition: &str, question: &str) -> GammaMarket {
    GammaMarket {
        condition_id: condition.to_string(),
        question: question.to_string(),
        end_date: Some("2030-01-01T00:00:00Z".to_string()),
        closed: None,
        enable_order_book: None,
        accepting_orders: None,
        has_best_bid: true,
        has_best_ask: false,
        still_active: true,
    }
}

fn event(slug: &str, markets: Vec<GammaMarket>) -> GammaEvent {
    GammaEvent {
        slug: Some(slug.to_string()),
        end_date: Some("2030-01-01T00:00:00Z".to_string()),
        closed: None,
        archived: None,
        markets,
    }
}

fn indexed(slug: &str, question: &str) -> Market {
    Market {
        id: "m".to_string(),
        slug: slug.to_string(),
        question: question.to_string(),
        icon_url: None,
        market_address: format!("0x{slug}"),
        collateral_token: "0xc0".to_string(),
        yes_token: "0x11".to_string(),
        no_token: "0x22".to_string(),
        yes_spot_market: "0x33".to_string(),
        no_spot_market: "0x44".to_string(),
        state: "open".to_string(),
        resolution_deadline: 1,
    }
}

fn created(slug: &str) -> BootstrappedMarket {
    BootstrappedMarket {
        question: "?".to_string(),
        market_address: format!("0x{slug}"),
        yes_token: "0x11".to_string(),
        no_token: "0x22".to_string(),
        slug: slug.to_string(),
    }
}

#[test]
fn deadlines_are_read() {
    assert_eq!(parse_deadline_unix("2026-12-31T23:59:59Z"), Some(1_798_761_599));
    assert_eq!(parse_deadline_unix("2026-12-31T23:59:59.123Z"), Some(1_798_761_599));
    assert_eq!(parse_deadline_unix("2026-12-31"), Some(1_798_761_599));
    assert_eq!(parse_deadline_unix("1960-01-01"), Some(0));
    assert_eq!(parse_deadline_unix("soon"), None);
    assert_eq!(deadline_from(Some(-5), None), Some(0));
    assert_eq!(deadline_from(None, Some(7)), Some(7));
    assert_eq!(deadline_from(None, None), None);
}

#[test]
fn deadlines_fall_back() {
    assert_eq!(parse_resolution_deadline(Some(" 2026-12-31 ")), 1_798_761_599);
    assert_eq!(parse_resolution_deadline(Some("1970-01-01T00:00:10Z")), 10);
    assert_eq!(parse_resolution_deadline(Some("  ")), 1_798_761_599);
    assert_eq!(parse_resolution_deadline(None), 1_798_761_599);
}

#[test]
fn deadlines_must_be_a_week_ahead() {
    let week = 604_800;
    assert!(!deadline_ahead(Some(NOW + week), NOW));
    assert!(deadline_ahead(Some(NOW + week + 1), NOW));
    assert!(!deadline_ahead(None, NOW));
    assert!(!deadline_ahead(Some(u64::MAX), u64::MAX));
    assert!(deadline_still_open(Some("2030-01-01"), NOW));
    assert!(!deadline_still_open(Some("2020-01-01"), NOW));
    assert!(!deadline_still_open(None, NOW));
}

#[test]
fn closed_books_cannot_be_mirrored() {
    let mut one = market("c", "?");
    assert!(has_order_book(&one));
    one.closed = Some(true);
    assert!(!has_order_book(&one));
    one.closed = Some(false);
    one.enable_order_book = Some(false);
    assert!(!has_order_book(&one));
    one.enable_order_book = Some(true);
    one.accepting_orders = Some(false);
    assert!(!has_order_book(&one));
    one.accepting_orders = None;
    one.has_best_bid = false;
    assert!(!has_order_book(&one));
    one.has_best_ask = true;
    assert!(has_order_book(&one));
}

#[test]
fn outcome_prices_are_listed() {
    assert_eq!(
        outcome_price_tokens(" [\"0.45\", '0.55'] "),
        Some(vec!["0.45".to_string(), "0.55".to_string()])
    );
    assert_eq!(outcome_price_tokens("[ ]"), None);
    assert_eq!(outcome_price_tokens("0.45"), None);
}

#[test]
fn events_are_ranked_in_order() {
    let mut closed = event("closed", Vec::new());
    closed.closed = Some(true);
    let mut past = event("past", Vec::new());
    past.end_date = Some("2020-01-01".to_string());
    let mut unlisted = market("c", "?");
    unlisted.has_best_bid = false;
    let events = vec![
        closed,
        past,
        event("first", Vec::new()),
        event("bookless", vec![unlisted]),
        event("  ", Vec::new()),
        event(" second ", vec![market("c", "?")]),
        event("third", Vec::new()),
    ];
    assert_eq!(
        fetch_hottest_event_slugs(&events, 2, NOW).ok(),
        Some(vec!["first".to_string(), "second".to_string()])
    );
    assert_eq!(
        fetch_hottest_event_slugs(&events, 0, NOW).ok(),
        Some(vec!["first".to_string()])
    );
    match fetch_hottest_event_slugs(&events[..2], 2, NOW) {
        Err(none) => assert_eq!(
            none.message(),
            "no active Polymarket events returned for volume24hr ranking"
        ),
        Ok(slugs) => panic!("{slugs:?}"),
    }
    assert_eq!(event_request_limit(3), 15);
    assert_eq!(event_request_limit(0), 5);
    assert_eq!(event_request_limit(u32::MAX), u32::MAX);
}

#[test]
fn top_markets_are_open_and_active() {
    let mut past = market("past", "?");
    past.end_date = None;
    let mut bookless = market("bookless", "?");
    bookless.has_best_bid = false;
    let mut decided = market("decided", "?");
    decided.still_active = false;
    let markets = vec![
        past,
        market("a", "?"),
        bookless,
        decided,
        market("b", "?"),
        market("c", "?"),
    ];
    let chosen = |max| -> Vec<String> {
        fetch_top_polymarket_markets(&markets, max, NOW)
            .iter()
            .map(|market| market.condition_id.clone())
            .collect()
    };
    assert_eq!(chosen(2), vec!["a", "b"]);
    assert_eq!(chosen(9), vec!["a", "b", "c"]);
    assert!(chosen(0).is_empty());
}

#[test]
fn markets_are_reused_or_created_once() {
    let markets = vec![
        market("c1", " Rain? "),
        market("c2", "Snow?"),
        market("c3", "   "),
        market("c4", "Snow?"),
    ];
    let existing = vec![indexed("rain", "Rain?"), indexed("rain-2", "Rain? ")];
    let mut run = Bootstrapper::new(markets, existing, 5);
    match run.next_step() {
        BootstrapStep::Create { question, resolution_deadline, mint_amount } => {
            assert_eq!(question, "Snow?");
            assert_eq!(resolution_deadline, 1_893_456_000);
            assert_eq!(mint_amount, 5);
        }
        BootstrapStep::Done => panic!("done"),
    }
    assert!(run.created(Ok(created("snow"))).is_ok());
    assert!(matches!(run.next_step(), BootstrapStep::Done));
    match run.finish() {
        Ok(pairs) => {
            let found: Vec<(&str, &str, &str)> = pairs
                .iter()
                .map(|pair| {
                    (
                        pair.condition_id.as_str(),
                        pair.question.as_str(),
                        pair.lightpool_slug.as_str(),
                    )
                })
                .collect();
            assert_eq!(
                found,
                vec![("c1", "Rain?", "rain"), ("c2", "Snow?", "snow"), ("c4", "Snow?", "snow")]
            );
            assert_eq!(pairs[1].market_address, "0xsnow");
        }
        Err(error) => panic!("{}", error.message()),
    }
}

#[test]
fn the_token_cap_ends_creation() {
    let markets = vec![market("c1", "Rain?"), market("c2", "Snow?"), market("c3", "Wind?")];
    let mut run = Bootstrapper::new(markets, vec![indexed("wind", "Wind?")], 5);
    assert!(matches!(run.next_step(), BootstrapStep::Create { .. }));
    assert!(run
        .created(Err("create: Cannot create more tokens".to_string()))
        .is_ok());
    assert!(matches!(run.next_step(), BootstrapStep::Done));
    match run.finish() {
        Ok(pairs) => {
            assert_eq!(pairs.len(), 1);
            assert_eq!(pairs[0].condition_id, "c3");
        }
        Err(error) => panic!("{}", error.message()),
    }
}

#[test]
fn other_failures_end_the_run() {
    let mut run = Bootstrapper::new(vec![market("c1", "Rain?")], Vec::new(), 5);
    assert!(matches!(run.next_step(), BootstrapStep::Create { .. }));
    match run.created(Err("no funds".to_string())) {
        Err(error) => {
            assert_eq!(error.message(), "bootstrap LightPool market for condition=c1: no funds")
        }
        Ok(()) => panic!("went on"),
    }
}

#[test]
fn a_run_needs_events_and_markets() {
    let config = BootstrapConfig::default();
    assert_eq!(config.max_markets, 5);
    assert_eq!(config.mint_amount, 1_000_000_000_000_000);
    assert_eq!(config.order_field, "liquidity");
    match check_event_slugs(&config) {
        Err(error) => assert_eq!(
            error.message(),
            "bootstrap requires at least one Polymarket event slug"
        ),
        Ok(()) => panic!("accepted"),
    }
    let run = Bootstrapper::new(Vec::new(), Vec::new(), 5);
    assert!(matches!(run.finish(), Err(BootstrapError::NoMarkets)));
}
