use lightpool_bot::config::Environment;
use lightpool_bot::model::{Instrument, InstrumentId, InstrumentKind};
use lightpool_bot::websocket::clob_index::{
    dispatch_text, message_kind, message_of, route_type, socket_step, ClobIndexWsClient,
    ClobIndexWsMessage, HandlerCommand, MessageKind, SocketEvent, SocketStep, TextRoute, WsPayload,
    WsRefusal,
};
use lightpool_bot::websocket::models::{WsError, WsSubscribed};

fn id() -> InstrumentId {
    InstrumentId { symbol: "rain-YES".to_string(), venue: "LIGHTPOOL".to_string() }
}

fn client() -> ClobIndexWsClient {
    let mut client = ClobIndexWsClient::new("ws://index/");
    client.cache_instruments(vec![Instrument {
        id: id(),
        raw_symbol: "0x33".to_string(),
        kind: InstrumentKind::BinaryOption,
        outcome: None,
        info: None,
    }]);
    client
}

fn json(text: Result<String, WsRefusal>) -> serde_json::Value {
    match text {
        Ok(text) => match serde_json::from_str(&text) {
            Ok(value) => value,
            Err(error) => panic!("{error}"),
        },
        Err(refusal) => panic!("{}", refusal.message()),
    }
}

fn field<'a>(value: &'a serde_json::Value, key: &str) -> Option<&'a str> {
    value.get(key).and_then(|value| value.as_str())
}

#[test]
fn message_types_are_told_apart() {
    let types = [
        ("error", MessageKind::Error),
        ("subscribed", MessageKind::Subscribed),
        ("unsubscribed", MessageKind::Unsubscribed),
        ("orderbook_snapshot", MessageKind::OrderBookSnapshot),
        ("orderbook_delta", MessageKind::OrderBookDelta),
        ("quote_snapshot", MessageKind::QuoteSnapshot),
        ("quote", MessageKind::Quote),
        ("order", MessageKind::UserOrder),
        ("trade", MessageKind::UserTrade),
    ];
    for (name, kind) in types {
        assert_eq!(message_kind(name), Some(kind));
        assert_eq!(route_type(Some(name)), TextRoute::Read(kind));
    }
    assert_eq!(message_kind("Quote"), None);
    assert_eq!(route_type(Some("ticker")), TextRoute::Unhandled);
    assert_eq!(route_type(None), TextRoute::Untyped);
}

#[test]
fn texts_are_routed_by_their_type() {
    assert_eq!(
        dispatch_text("{\"type\":\"quote\",\"sequence\":1}"),
        TextRoute::Read(MessageKind::Quote)
    );
    assert_eq!(dispatch_text("{\"type\":\"ticker\"}"), TextRoute::Unhandled);
    assert_eq!(dispatch_text("{\"type\":7}"), TextRoute::Untyped);
    assert_eq!(dispatch_text("[]"), TextRoute::Untyped);
    assert_eq!(dispatch_text("{"), TextRoute::Invalid);
}

#[test]
fn payloads_become_messages() {
    let error = WsError { msg_type: "error".to_string(), error: "no".to_string() };
    assert!(matches!(
        message_of(WsPayload::Error(error)),
        ClobIndexWsMessage::Error(text) if text == "no"
    ));
    let subscribed = WsSubscribed {
        msg_type: "subscribed".to_string(),
        channel: "quote".to_string(),
        key: "0x33".to_string(),
    };
    assert!(matches!(
        message_of(WsPayload::Subscribed(subscribed)),
        ClobIndexWsMessage::Subscribed { channel, key } if channel == "quote" && key == "0x33"
    ));
}

#[test]
fn the_socket_answers_events() {
    assert!(matches!(
        socket_step(SocketEvent::Command(Some(HandlerCommand::Send("x".to_string())))),
        SocketStep::Write(text) if text == "x"
    ));
    assert!(matches!(
        socket_step(SocketEvent::Command(Some(HandlerCommand::Disconnect))),
        SocketStep::Close
    ));
    assert!(matches!(socket_step(SocketEvent::Command(None)), SocketStep::Close));
    assert!(matches!(
        socket_step(SocketEvent::Text("t".to_string())),
        SocketStep::Dispatch(text) if text == "t"
    ));
    assert!(matches!(
        socket_step(SocketEvent::Ping(vec![1, 2])),
        SocketStep::Pong(payload) if payload == vec![1, 2]
    ));
    assert!(matches!(socket_step(SocketEvent::Closed), SocketStep::End(None)));
    assert!(matches!(
        socket_step(SocketEvent::Failed("reset".to_string())),
        SocketStep::End(Some(ClobIndexWsMessage::Error(text))) if text == "reset"
    ));
    assert!(matches!(
        socket_step(SocketEvent::WriteFailed),
        SocketStep::End(Some(ClobIndexWsMessage::Error(text)))
            if text == "failed to write websocket text"
    ));
    assert!(matches!(socket_step(SocketEvent::OtherFrame), SocketStep::Ignore));
}

#[test]
fn a_connected_client_opens_no_second_connection() {
    let mut client = client();
    assert_eq!(client.connect_url(), Some("ws://index/api/ws".to_string()));
    client.set_connected(true);
    assert!(client.is_connected());
    assert_eq!(client.connect_url(), None);
}

#[test]
fn commands_name_their_channel() {
    let mut client = client();
    client.set_connected(true);
    let book = json(client.subscribe_orderbook(&id(), 10));
    assert_eq!(field(&book, "op"), Some("subscribe"));
    assert_eq!(field(&book, "channel"), Some("orderbook_delta"));
    assert_eq!(field(&book, "spot_market"), Some("0x33"));
    assert_eq!(book.get("depth").and_then(|depth| depth.as_u64()), Some(10));
    let no_book = json(client.unsubscribe_orderbook(&id()));
    assert_eq!(field(&no_book, "op"), Some("unsubscribe"));
    assert_eq!(no_book.get("depth"), None);
    let quotes = json(client.subscribe_quotes(&id()));
    assert_eq!(field(&quotes, "channel"), Some("quote"));
    assert_eq!(field(&json(client.unsubscribe_quotes(&id())), "op"), Some("unsubscribe"));
    let user = json(client.subscribe_user("0x\"abc"));
    assert_eq!(field(&user, "channel"), Some("user"));
    assert_eq!(field(&user, "user_address"), Some("0x\"abc"));
    assert_eq!(field(&json(client.unsubscribe_user("0xabc")), "op"), Some("unsubscribe"));
}

#[test]
fn commands_need_connection_and_instrument() {
    let mut client = client();
    assert!(matches!(client.subscribe_quotes(&id()), Err(WsRefusal::NotConnected)));
    client.set_connected(true);
    let other = InstrumentId { symbol: "snow".to_string(), venue: "LIGHTPOOL".to_string() };
    match client.subscribe_orderbook(&other, 1) {
        Err(refusal) => assert_eq!(
            refusal.message(),
            "instrument snow.LIGHTPOOL not found in LightPool WS cache"
        ),
        Ok(text) => panic!("{text}"),
    }
    assert_eq!(WsRefusal::NotConnected.message(), "LightPool WebSocket not connected");
    assert!(matches!(client.get_user_address(), Err(WsRefusal::SignerNotSet)));
    client.set_signer("0xabc".to_string());
    assert!(matches!(client.get_user_address(), Ok(address) if address == "0xabc"));
}

#[test]
fn caching_replaces_what_was_cached() {
    let mut client = client();
    assert!(client.get_instrument(&id()).is_some());
    assert!(matches!(client.spot_market(&id()), Ok(spot) if spot == "0x33"));
    client.cache_instruments(Vec::new());
    assert!(client.get_instrument(&id()).is_none());
}

#[test]
fn a_socket_client_needs_no_key() {
    let env = Environment {
        clob_index_http: None,
        clob_index_ws: Some("ws://index:9//".to_string()),
        http_timeout_secs: None,
        http_connect_timeout_secs: None,
        private_key: None,
        collateral_token: None,
        collateral_currency: None,
        wallet_private_key: None,
    };
    let (client, key) = ClobIndexWsClient::from_env(&env);
    assert_eq!(client.ws_url, "ws://index:9");
    assert!(key.is_none());
}
