use lightpool_bot::config::{Environment, LightpoolDataClientConfig, LightpoolExecClientConfig};
use lightpool_bot::data::{BookType, DataEvent, LightpoolDataClient, SubscribeError};
use lightpool_bot::factories::{LightpoolDataClientFactory, LightpoolExecutionClientFactory};
use lightpool_bot::http::models::{BookLevel, Market};
use lightpool_bot::model::InstrumentId;
use lightpool_bot::parse::instruments_for_market;
use lightpool_bot::websocket::clob_index::ClobIndexWsMessage;
use lightpool_bot::websocket::models::{
    OrderBookDelta, OrderBookWsSnapshot, QuoteDelta, QuoteSnapshot,
};

fn env() -> Environment {
    Environment {
        clob_index_http: None,
        clob_index_ws: None,
        http_timeout_secs: None,
        http_connect_timeout_secs: None,
        private_key: Some(" key ".to_string()),
        collateral_token: None,
        collateral_currency: None,
        wallet_private_key: None,
    }
}

fn market() -> Market {
    Market {
        id: "m-1".to_string(),
        slug: "rain".to_string(),
        question: "?".to_string(),
        icon_url: None,
        market_address: "0x0a".to_string(),
        collateral_token: "0xc0".to_string(),
        yes_token: "0x11".to_string(),
        no_token: "0x22".to_string(),
        yes_spot_market: "0x33".to_string(),
        no_spot_market: "0x44".to_string(),
        state: "open".to_string(),
        resolution_deadline: 1,
    }
}

fn client() -> LightpoolDataClient {
    let config = LightpoolDataClientConfig::new(vec!["rain".to_string()], &env());
    let mut client = LightpoolDataClient::new("LP", config);
    match instruments_for_market(&market(), 1_000, 1_000, &env(), 7) {
        Ok(options) => client.bootstrap_instruments(&options),
        Err(error) => panic!("{error:?}"),
    }
    client
}

fn yes() -> InstrumentId {
    InstrumentId { symbol: "rain-YES".to_string(), venue: "LIGHTPOOL".to_string() }
}

fn levels(price: &str) -> Vec<BookLevel> {
    vec![BookLevel { price: price.to_string(), size: "10".to_string() }]
}

fn delta(spot_market: &str) -> ClobIndexWsMessage {
    ClobIndexWsMessage::OrderBookDelta(OrderBookDelta {
        msg_type: "orderbook_delta".to_string(),
        spot_market: spot_market.to_string(),
        sequence: 4,
        block_num: 5,
        bids: levels("52"),
        asks: Vec::new(),
        last_trade_price: None,
    })
}

fn quote() -> ClobIndexWsMessage {
    ClobIndexWsMessage::Quote(QuoteDelta {
        msg_type: "quote".to_string(),
        spot_market: "0x33".to_string(),
        sequence: 4,
        block_num: 5,
        best_bid: levels("52").pop(),
        best_ask: levels("53").pop(),
        last_trade_price: None,
    })
}

#[test]
fn spot_markets_lead_to_their_instruments() {
    let client = client();
    assert!(client.spot_market_by_instrument.contains(&yes()));
    assert_eq!(client.instrument_by_spot_market.get("0x33"), Some(yes()));
    assert_eq!(client.instrument_by_spot_market.get("0x99"), None);
    assert_eq!(client.venue(), "LIGHTPOOL");
}

#[test]
fn subscriptions_need_an_l2_book_and_an_instrument() {
    let mut client = client();
    let other = InstrumentId { symbol: "snow-YES".to_string(), venue: "LIGHTPOOL".to_string() };
    assert!(matches!(client.subscribe_book_deltas(BookType::L2_MBP, &yes()), Ok(10)));
    match client.subscribe_book_deltas(BookType::L3_MBO, &yes()) {
        Err(error) => assert_eq!(
            error.message(),
            "Lightpool only supports L2_MBP order book deltas, received L3_MBO"
        ),
        Ok(depth) => panic!("{depth}"),
    }
    assert!(matches!(
        client.subscribe_book_deltas(BookType::L2_MBP, &other),
        Err(SubscribeError::InstrumentNotFound(_))
    ));
    match client.subscribe_quotes(&other) {
        Err(error) => assert_eq!(
            error.message(),
            "Instrument snow-YES.LIGHTPOOL not found in Lightpool cache"
        ),
        Ok(()) => panic!("subscribed"),
    }
    assert!(client.subscribe_quotes(&yes()).is_ok());
}

#[test]
fn only_subscribed_books_are_published() {
    let mut client = client();
    assert!(client.handle_message(delta("0x33"), 9).is_ok_and(|event| event.is_none()));
    assert!(client.subscribe_book_deltas(BookType::L2_MBP, &yes()).is_ok());
    match client.handle_message(delta("0x33"), 9) {
        Ok(Some(DataEvent::Deltas(deltas))) => {
            assert_eq!(deltas.instrument_id, yes());
            assert_eq!(deltas.sequence, 4);
            assert_eq!(deltas.ts_init, 9);
        }
        other => panic!("{other:?}"),
    }
    assert!(client.handle_message(delta("0x44"), 9).is_ok_and(|event| event.is_none()));
    assert!(client.handle_message(delta("0x99"), 9).is_ok_and(|event| event.is_none()));
    assert!(client.handle_message(quote(), 9).is_ok_and(|event| event.is_none()));
    client.unsubscribe_book_deltas(&yes());
    assert!(client.handle_message(delta("0x33"), 9).is_ok_and(|event| event.is_none()));
}

#[test]
fn book_snapshots_are_published() {
    let mut client = client();
    assert!(client.subscribe_book_deltas(BookType::L2_MBP, &yes()).is_ok());
    let snapshot = ClobIndexWsMessage::OrderBookSnapshot(OrderBookWsSnapshot {
        msg_type: "orderbook_snapshot".to_string(),
        spot_market: "0x33".to_string(),
        sequence: 4,
        bids: levels("52"),
        asks: levels("53"),
        last_trade_price: None,
    });
    match client.handle_message(snapshot, 9) {
        Ok(Some(DataEvent::Deltas(deltas))) => assert_eq!(deltas.deltas.len(), 3),
        other => panic!("{other:?}"),
    }
}

#[test]
fn only_subscribed_quotes_are_published() {
    let mut client = client();
    assert!(client.subscribe_quotes(&yes()).is_ok());
    assert!(matches!(client.handle_message(quote(), 9), Ok(Some(DataEvent::Quote(_)))));
    let snapshot = ClobIndexWsMessage::QuoteSnapshot(QuoteSnapshot {
        msg_type: "quote_snapshot".to_string(),
        spot_market: "0x33".to_string(),
        sequence: 4,
        best_bid: None,
        best_ask: levels("53").pop(),
        last_trade_price: None,
    });
    assert!(client.handle_message(snapshot, 9).is_ok_and(|event| event.is_none()));
    client.unsubscribe_quotes(&yes());
    assert!(client.handle_message(quote(), 9).is_ok_and(|event| event.is_none()));
}

#[test]
fn unreadable_books_are_refused() {
    let mut client = client();
    assert!(client.subscribe_book_deltas(BookType::L2_MBP, &yes()).is_ok());
    let snapshot = ClobIndexWsMessage::OrderBookSnapshot(OrderBookWsSnapshot {
        msg_type: "orderbook_snapshot".to_string(),
        spot_market: "0x33".to_string(),
        sequence: 4,
        bids: levels("cheap"),
        asks: levels("53"),
        last_trade_price: None,
    });
    match client.handle_message(snapshot, 9) {
        Err(refusal) => assert!(refusal.message().starts_with("invalid cents price 'cheap': ")),
        Ok(event) => panic!("{event:?}"),
    }
}

#[test]
fn other_messages_publish_nothing() {
    let client = client();
    assert!(client
        .handle_message(ClobIndexWsMessage::Error("no".to_string()), 9)
        .is_ok_and(|event| event.is_none()));
}

#[test]
fn stopping_drops_subscriptions_and_resetting_drops_instruments() {
    let mut client = client();
    client.set_connected();
    assert!(client.is_connected());
    assert!(client.subscribe_quotes(&yes()).is_ok());
    client.stop();
    assert!(client.is_disconnected());
    assert!(!client.active_quote_subs.contains(&yes()));
    assert!(client.spot_market_by_instrument.contains(&yes()));
    client.reset();
    assert!(!client.spot_market_by_instrument.contains(&yes()));
    assert_eq!(client.instrument_by_spot_market.get("0x33"), None);
}

#[test]
fn factories_make_clients() {
    let data = LightpoolDataClientFactory;
    assert_eq!(data.name(), "LIGHTPOOL");
    assert_eq!(data.config_type(), "LightpoolDataClientConfig");
    let client = data.create("LP", LightpoolDataClientConfig::new(Vec::new(), &env()));
    assert_eq!(client.client_id, "LP");
    assert!(!client.is_connected());
    let execution = LightpoolExecutionClientFactory;
    assert_eq!(execution.name(), "LIGHTPOOL");
    assert_eq!(execution.config_type(), "LightpoolExecClientConfig");
    let client = execution.create(LightpoolExecClientConfig::new(Vec::new(), &env()), &env());
    assert_eq!(client.private_key, Some("key".to_string()));
}
