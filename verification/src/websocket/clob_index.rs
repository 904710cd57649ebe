//! The clob-index WebSocket: which message a text is, and what is sent to subscribe.

use vstd::prelude::*;

use crate::collections;
use crate::common::consts::DEFAULT_CLOB_INDEX_WS;
use crate::common::signer;
use crate::common::signer::KeyMaterial;
use crate::config;
use crate::config::Environment;
use crate::http::clob_index;
use crate::model::{Instrument, InstrumentId};
use crate::params;
use crate::params::{ParamValue, ParamView, Params};
use crate::shared::SharedInstruments;
use crate::text;
use crate::websocket::models::{
    OrderBookDelta, OrderBookWsSnapshot, QuoteDelta, QuoteSnapshot, UserOrderMessage,
    UserTradeMessage, WsError, WsSubscribed,
};

verus! {

/// Unified outbound message stream.
#[derive(Debug)]
pub enum ClobIndexWsMessage {
    OrderBookSnapshot(OrderBookWsSnapshot),
    OrderBookDelta(OrderBookDelta),
    QuoteSnapshot(QuoteSnapshot),
    Quote(QuoteDelta),
    UserOrder(UserOrderMessage),
    UserTrade(UserTradeMessage),
    Subscribed { channel: String, key: String },
    Unsubscribed { channel: String, key: String },
    Error(String),
}

/// What a message is, by its `type`.
#[derive(Clone, Copy, Debug, PartialEq, Eq, Structural)]
pub enum MessageKind {
    Error,
    Subscribed,
    Unsubscribed,
    OrderBookSnapshot,
    OrderBookDelta,
    QuoteSnapshot,
    Quote,
    UserOrder,
    UserTrade,
}

impl MessageKind {
    /// The `type` of such messages.
    pub open spec fn label(self) -> Seq<char> {
        match self {
            MessageKind::Error => "error"@,
            MessageKind::Subscribed => "subscribed"@,
            MessageKind::Unsubscribed => "unsubscribed"@,
            MessageKind::OrderBookSnapshot => "orderbook_snapshot"@,
            MessageKind::OrderBookDelta => "orderbook_delta"@,
            MessageKind::QuoteSnapshot => "quote_snapshot"@,
            MessageKind::Quote => "quote"@,
            MessageKind::UserOrder => "order"@,
            MessageKind::UserTrade => "trade"@,
        }
    }
}

/// No two kinds of messages share a `type`.
pub proof fn law_message_types_are_distinct(a: MessageKind, b: MessageKind)
    requires
        a.label() == b.label(),
    ensures
        a == b,
{
    reveal_strlit("error");
    reveal_strlit("subscribed");
    reveal_strlit("unsubscribed");
    reveal_strlit("orderbook_snapshot");
    reveal_strlit("orderbook_delta");
    reveal_strlit("quote_snapshot");
    reveal_strlit("quote");
    reveal_strlit("order");
    reveal_strlit("trade");
    assert("error"@.len() == 5 && "error"@[0] == 'e');
    assert("subscribed"@.len() == 10);
    assert("unsubscribed"@.len() == 12);
    assert("orderbook_snapshot"@.len() == 18);
    assert("orderbook_delta"@.len() == 15);
    assert("quote_snapshot"@.len() == 14);
    assert("quote"@.len() == 5 && "quote"@[0] == 'q');
    assert("order"@.len() == 5 && "order"@[0] == 'o');
    assert("trade"@.len() == 5 && "trade"@[0] == 't');
}

/// The kind of the messages of a `type`; messages of other types are not handled.
pub fn message_kind(msg_type: &str) -> (r: Option<MessageKind>)
    ensures
        match r {
            Some(kind) => msg_type@ == kind.label(),
            None => forall|kind: MessageKind| msg_type@ != #[trigger] kind.label(),
        },
{
    if text::same(msg_type, "error") {
        Some(MessageKind::Error)
    } else if text::same(msg_type, "subscribed") {
        Some(MessageKind::Subscribed)
    } else if text::same(msg_type, "unsubscribed") {
        Some(MessageKind::Unsubscribed)
    } else if text::same(msg_type, "orderbook_snapshot") {
        Some(MessageKind::OrderBookSnapshot)
    } else if text::same(msg_type, "orderbook_delta") {
        Some(MessageKind::OrderBookDelta)
    } else if text::same(msg_type, "quote_snapshot") {
        Some(MessageKind::QuoteSnapshot)
    } else if text::same(msg_type, "quote") {
        Some(MessageKind::Quote)
    } else if text::same(msg_type, "order") {
        Some(MessageKind::UserOrder)
    } else if text::same(msg_type, "trade") {
        Some(MessageKind::UserTrade)
    } else {
        None
    }
}

/// The field that `serde_json` finds in a text: nothing where the text is no JSON, and nothing
/// inside where it has no such text field.
pub uninterp spec fn json_text_field(text: Seq<char>, field: Seq<char>) -> Option<Option<Seq<char>>>;

/// The error of `serde_json` for a text that is no JSON.
#[verifier::external_type_specification]
#[verifier::external_body]
pub struct ExJsonError(serde_json::Error);

/// The characters of an optional text inside a result.
pub open spec fn field_view(r: Result<Option<String>, serde_json::Error>) -> Option<
    Option<Seq<char>>,
> {
    match r {
        Ok(found) => Some(params::string_view(found)),
        Err(_) => None,
    }
}

/// `serde_json::from_str` into a value, and a field of it as text.
///
/// The result depends on the two texts alone.
#[verifier::external_body]
fn field_outside(text: &str, field: &str) -> (r: Result<Option<String>, serde_json::Error>)
    ensures
        field_view(r) == json_text_field(text@, field@),
{
    let envelope: serde_json::Value = serde_json::from_str(text)?;
    Ok(envelope.get(field).and_then(|v| v.as_str()).map(|s| s.to_owned()))
}

/// What becomes of a text.
#[derive(Clone, Copy, Debug, PartialEq, Eq, Structural)]
pub enum TextRoute {
    /// The text is no JSON.
    Invalid,
    /// It has no `type`.
    Untyped,
    /// Its `type` is not handled.
    Unhandled,
    /// It is read as a message of this kind.
    Read(MessageKind),
}

/// What becomes of a text, given what its `type` is.
pub open spec fn is_route(r: TextRoute, found: Option<Option<Seq<char>>>) -> bool {
    match found {
        None => r == TextRoute::Invalid,
        Some(None) => r == TextRoute::Untyped,
        Some(Some(msg_type)) => match r {
            TextRoute::Read(kind) => msg_type == kind.label(),
            TextRoute::Unhandled => forall|kind: MessageKind| msg_type != #[trigger] kind.label(),
            _ => false,
        },
    }
}

/// What becomes of a text with a `type`.
pub fn route_type(msg_type: Option<&str>) -> (r: TextRoute)
    ensures
        is_route(r, Some(params::text_view(msg_type))),
{
    match msg_type {
        None => TextRoute::Untyped,
        Some(msg_type) => match message_kind(msg_type) {
            Some(kind) => TextRoute::Read(kind),
            None => TextRoute::Unhandled,
        },
    }
}

/// What becomes of a text that the socket delivers.
pub fn dispatch_text(text: &str) -> (r: TextRoute)
    ensures
        is_route(r, json_text_field(text@, "type"@)),
{
    match field_outside(text, "type") {
        Ok(found) => match found {
            Some(msg_type) => route_type(Some(msg_type.as_str())),
            None => route_type(None),
        },
        Err(_) => TextRoute::Invalid,
    }
}

/// What a text was read as.
#[derive(Debug)]
pub enum WsPayload {
    Error(WsError),
    Subscribed(WsSubscribed),
    Unsubscribed(WsSubscribed),
    OrderBookSnapshot(OrderBookWsSnapshot),
    OrderBookDelta(OrderBookDelta),
    QuoteSnapshot(QuoteSnapshot),
    Quote(QuoteDelta),
    UserOrder(UserOrderMessage),
    UserTrade(UserTradeMessage),
}

/// The message of what was read.
pub fn message_of(payload: WsPayload) -> (r: ClobIndexWsMessage)
    ensures
        r == (match payload {
            WsPayload::Error(e) => ClobIndexWsMessage::Error(e.error),
            WsPayload::Subscribed(m) => ClobIndexWsMessage::Subscribed {
                channel: m.channel,
                key: m.key,
            },
            WsPayload::Unsubscribed(m) => ClobIndexWsMessage::Unsubscribed {
                channel: m.channel,
                key: m.key,
            },
            WsPayload::OrderBookSnapshot(m) => ClobIndexWsMessage::OrderBookSnapshot(m),
            WsPayload::OrderBookDelta(m) => ClobIndexWsMessage::OrderBookDelta(m),
            WsPayload::QuoteSnapshot(m) => ClobIndexWsMessage::QuoteSnapshot(m),
            WsPayload::Quote(m) => ClobIndexWsMessage::Quote(m),
            WsPayload::UserOrder(m) => ClobIndexWsMessage::UserOrder(m),
            WsPayload::UserTrade(m) => ClobIndexWsMessage::UserTrade(m),
        }),
{
    match payload {
        WsPayload::Error(e) => ClobIndexWsMessage::Error(e.error),
        WsPayload::Subscribed(m) => ClobIndexWsMessage::Subscribed {
            channel: m.channel,
            key: m.key,
        },
        WsPayload::Unsubscribed(m) => ClobIndexWsMessage::Unsubscribed {
            channel: m.channel,
            key: m.key,
        },
        WsPayload::OrderBookSnapshot(m) => ClobIndexWsMessage::OrderBookSnapshot(m),
        WsPayload::OrderBookDelta(m) => ClobIndexWsMessage::OrderBookDelta(m),
        WsPayload::QuoteSnapshot(m) => ClobIndexWsMessage::QuoteSnapshot(m),
        WsPayload::Quote(m) => ClobIndexWsMessage::Quote(m),
        WsPayload::UserOrder(m) => ClobIndexWsMessage::UserOrder(m),
        WsPayload::UserTrade(m) => ClobIndexWsMessage::UserTrade(m),
    }
}

/// What the client asks of its connection.
#[derive(Debug)]
pub enum HandlerCommand {
    Send(String),
    Disconnect,
}

/// What happens to a connection.
#[derive(Debug)]
pub enum SocketEvent {
    /// A command, or none because nobody is left to give one.
    Command(Option<HandlerCommand>),
    /// A text could not be written.
    WriteFailed,
    Text(String),
    Ping(Vec<u8>),
    /// The peer closed the connection, or it ended.
    Closed,
    Failed(String),
    /// Any other frame.
    OtherFrame,
}

/// What is done with a connection.
#[derive(Debug)]
pub enum SocketStep {
    Write(String),
    Dispatch(String),
    Pong(Vec<u8>),
    Ignore,
    /// Closes the connection and ends.
    Close,
    /// Ends, with a last message where there is one.
    End(Option<ClobIndexWsMessage>),
}

/// `r` is the step for `event`.
pub open spec fn is_step(r: SocketStep, event: SocketEvent) -> bool {
    match event {
        SocketEvent::Command(Some(HandlerCommand::Send(text))) => r == SocketStep::Write(text),
        SocketEvent::Command(Some(HandlerCommand::Disconnect)) => r == SocketStep::Close,
        SocketEvent::Command(None) => r == SocketStep::Close,
        SocketEvent::WriteFailed => r matches SocketStep::End(
            Some(ClobIndexWsMessage::Error(error)),
        ) && error@ == "failed to write websocket text"@,
        SocketEvent::Text(text) => r == SocketStep::Dispatch(text),
        SocketEvent::Ping(payload) => r == SocketStep::Pong(payload),
        SocketEvent::Closed => r == SocketStep::End(None),
        SocketEvent::Failed(error) => r == SocketStep::End(Some(ClobIndexWsMessage::Error(error))),
        SocketEvent::OtherFrame => r == SocketStep::Ignore,
    }
}

/// What is done with a connection when something happens to it.
pub fn socket_step(event: SocketEvent) -> (r: SocketStep)
    ensures
        is_step(r, event),
{
    match event {
        SocketEvent::Command(command) => match command {
            Some(HandlerCommand::Send(text)) => SocketStep::Write(text),
            _ => SocketStep::Close,
        },
        SocketEvent::WriteFailed => SocketStep::End(
            Some(ClobIndexWsMessage::Error("failed to write websocket text".to_owned())),
        ),
        SocketEvent::Text(text) => SocketStep::Dispatch(text),
        SocketEvent::Ping(payload) => SocketStep::Pong(payload),
        SocketEvent::Closed => SocketStep::End(None),
        SocketEvent::Failed(error) => SocketStep::End(Some(ClobIndexWsMessage::Error(error))),
        SocketEvent::OtherFrame => SocketStep::Ignore,
    }
}

/// What `serde_json` writes for an object with some fields.
pub uninterp spec fn json_object_text(fields: Seq<(Seq<char>, ParamView)>) -> Seq<char>;

/// `to_string` of a `serde_json` object: its fields, texts escaped.
///
/// The text depends on the fields alone. Values of other kinds are written as null.
#[verifier::external_body]
fn object_outside(fields: &Params) -> (r: String)
    ensures
        r@ == json_object_text(fields@),
{
    let mut object: serde_json::Map<String, serde_json::Value> = serde_json::Map::new();
    for (name, value) in &fields.entries {
        let value = match value {
            ParamValue::Text(text) => serde_json::Value::String(text.clone()),
            ParamValue::Unsigned(n) => serde_json::Value::from(*n),
            ParamValue::Other => serde_json::Value::Null,
        };
        object.insert(name.clone(), value);
    }
    serde_json::Value::Object(object).to_string()
}

/// Why a client refused a call.
#[derive(Debug)]
pub enum WsRefusal {
    SignerNotSet,
    /// The instrument's id, as text.
    InstrumentNotFound(String),
    NotConnected,
}

impl WsRefusal {
    pub open spec fn text(self) -> Seq<char> {
        match self {
            WsRefusal::SignerNotSet =>
            "signer not set; set LIGHTPOOL_PRIVATE_KEY or create ~/.lightpool/wallet.json"@,
            WsRefusal::InstrumentNotFound(id) => "instrument "@ + id@
                + " not found in LightPool WS cache"@,
            WsRefusal::NotConnected => "LightPool WebSocket not connected"@,
        }
    }

    /// The refusal in words.
    pub fn message(&self) -> (r: String)
        ensures
            r@ == self.text(),
    {
        match self {
            WsRefusal::SignerNotSet =>
            "signer not set; set LIGHTPOOL_PRIVATE_KEY or create ~/.lightpool/wallet.json".to_owned(),
            WsRefusal::InstrumentNotFound(id) => {
                let mut r: String = text::append("instrument ", id.as_str());
                r.append(" not found in LightPool WS cache");
                r
            },
            WsRefusal::NotConnected => "LightPool WebSocket not connected".to_owned(),
        }
    }
}

/// clob-index WebSocket client: one connection, demuxed messages.
#[derive(Debug)]
pub struct ClobIndexWsClient {
    pub ws_url: String,
    /// Address of the signer, where there is one.
    pub user_address: Option<String>,
    pub instruments: SharedInstruments,
    pub connected: bool,
}

/// `r` refuses for want of an instrument.
pub open spec fn not_found<T>(r: Result<T, WsRefusal>, id: InstrumentId) -> bool {
    r matches Err(WsRefusal::InstrumentNotFound(text)) && text@ == id@.0.push('.') + id@.1
}

/// `r` is the text of a command, or refuses because nobody would send it.
pub open spec fn is_command(
    r: Result<String, WsRefusal>,
    connected: bool,
    fields: Seq<(Seq<char>, ParamView)>,
) -> bool {
    if connected {
        r matches Ok(text) && text@ == json_object_text(fields)
    } else {
        r == Err::<String, WsRefusal>(WsRefusal::NotConnected)
    }
}

/// The fields of a command to a channel.
pub open spec fn command_fields(
    op: Seq<char>,
    channel: Seq<char>,
    key: Seq<char>,
    value: Seq<char>,
) -> Seq<(Seq<char>, ParamView)> {
    seq![
        ("op"@, ParamView::Text(op)),
        ("channel"@, ParamView::Text(channel)),
        (key, ParamView::Text(value)),
    ]
}

fn channel_command(op: &str, channel: &str, key: &str, value: &str) -> (r: Params)
    ensures
        r@ == command_fields(op@, channel@, key@, value@),
{
    let mut fields: Params = Params::new();
    fields.entries.push(("op".to_owned(), ParamValue::Text(op.to_owned())));
    fields.entries.push(("channel".to_owned(), ParamValue::Text(channel.to_owned())));
    fields.entries.push((key.to_owned(), ParamValue::Text(value.to_owned())));
    assert(fields@ =~= command_fields(op@, channel@, key@, value@));
    fields
}

impl ClobIndexWsClient {
    /// A client that is not connected. Slashes at the end of the url are left out.
    pub fn new(ws_url: &str) -> (r: ClobIndexWsClient)
        ensures
            r.ws_url@ == text::trim_end_char(ws_url@, '/'),
            r.user_address is None,
            r.instruments@ == Map::<(Seq<char>, Seq<char>), Instrument>::empty(),
            !r.connected,
    {
        ClobIndexWsClient {
            ws_url: text::trim_end_matches(ws_url, '/'),
            user_address: None,
            instruments: SharedInstruments::new(),
            connected: false,
        }
    }

    /// A client for the endpoint of the environment, with the key to sign for where there is one.
    pub fn from_env(env: &Environment) -> (r: (ClobIndexWsClient, Option<KeyMaterial>))
        ensures
            r.0.ws_url@ == text::trim_end_char(
                config::nonempty_or(env.clob_index_ws, DEFAULT_CLOB_INDEX_WS@),
                '/',
            ),
            r.0.user_address is None,
            r.0.instruments@ == Map::<(Seq<char>, Seq<char>), Instrument>::empty(),
            !r.0.connected,
            match config::signing_key(*env) {
                Some(key) => r.1 matches Some(material) && signer::is_material(material, key),
                None => r.1 is None,
            },
    {
        let client: ClobIndexWsClient = ClobIndexWsClient::new(
            config::clob_index_ws_from_env(env).as_str(),
        );
        match config::resolve_private_key(env) {
            Ok(key) => (client, Some(signer::signer_from_private_key(key.as_str()))),
            Err(_) => (client, None),
        }
    }

    pub fn set_signer(&mut self, address: String)
        ensures
            final(self).user_address == Some(address),
            final(self).ws_url == old(self).ws_url,
            final(self).instruments == old(self).instruments,
            final(self).connected == old(self).connected,
    {
        self.user_address = Some(address);
    }

    pub fn get_user_address(&self) -> (r: Result<String, WsRefusal>)
        ensures
            match self.user_address {
                Some(address) => r == Ok::<String, WsRefusal>(address),
                None => r == Err::<String, WsRefusal>(WsRefusal::SignerNotSet),
            },
    {
        match &self.user_address {
            Some(address) => Ok(address.clone()),
            None => Err(WsRefusal::SignerNotSet),
        }
    }

    pub fn is_connected(&self) -> (r: bool)
        ensures
            r == self.connected,
    {
        self.connected
    }

    /// Caches instruments in place of those cached before. Of two with one id the later one stays.
    pub fn cache_instruments(&mut self, instruments: Vec<Instrument>)
        ensures
            final(self).instruments@ == clob_index::with_instruments(
                Map::empty(),
                instruments@,
            ),
            final(self).ws_url == old(self).ws_url,
            final(self).user_address == old(self).user_address,
            final(self).connected == old(self).connected,
    {
        self.instruments = SharedInstruments::new();
        let ghost all = instruments@;
        let mut taken: Vec<Instrument> = collections::reversed(instruments);
        assert(taken@.reverse() =~= all);
        while taken.len() > 0
            invariant
                taken@.len() <= all.len(),
                taken@.reverse() == all.skip(all.len() - taken@.len()),
                self.instruments@ == clob_index::with_instruments(
                    Map::empty(),
                    all.take(all.len() - taken@.len()),
                ),
                self.ws_url == old(self).ws_url,
                self.user_address == old(self).user_address,
                self.connected == old(self).connected,
            decreases taken.len(),
        {
            let ghost n = all.len() - taken@.len();
            let ghost before = taken@;
            if let Some(instrument) = taken.pop() {
                proof {
                    assert(before.reverse()[0] == instrument);
                    assert(all[n] == instrument);
                    assert(all.take(n + 1).drop_last() =~= all.take(n));
                    assert(taken@.reverse() =~= all.skip(n + 1)) by {
                        assert(before.reverse().skip(1) =~= all.skip(n).skip(1));
                        assert(taken@.reverse() =~= before.reverse().skip(1));
                    }
                }
                self.instruments.insert(instrument);
            }
        }
        assert(all.take(all.len() as int) =~= all);
    }

    pub fn get_instrument(&self, instrument_id: &InstrumentId) -> (r: Option<&Instrument>)
        ensures
            params::owned(r) == collections::entry(self.instruments@, instrument_id@),
    {
        self.instruments.get(instrument_id)
    }

    /// The spot market of an instrument.
    pub fn spot_market(&self, instrument_id: &InstrumentId) -> (r: Result<String, WsRefusal>)
        ensures
            match collections::entry(self.instruments@, instrument_id@) {
                Some(instrument) => r == Ok::<String, WsRefusal>(instrument.raw_symbol),
                None => not_found(r, *instrument_id),
            },
    {
        match self.instruments.get(instrument_id) {
            Some(instrument) => Ok(instrument.raw_symbol.clone()),
            None => Err(WsRefusal::InstrumentNotFound(instrument_id.text())),
        }
    }

    /// The url to connect to, unless the client is connected.
    pub fn connect_url(&self) -> (r: Option<String>)
        ensures
            params::string_view(r) == if self.connected {
                None
            } else {
                Some(self.ws_url@ + "/api/ws"@)
            },
    {
        if self.connected {
            None
        } else {
            Some(text::append(self.ws_url.as_str(), "/api/ws"))
        }
    }

    /// The connection stands, or has ended.
    pub fn set_connected(&mut self, connected: bool)
        ensures
            final(self).connected == connected,
            final(self).ws_url == old(self).ws_url,
            final(self).user_address == old(self).user_address,
            final(self).instruments == old(self).instruments,
    {
        self.connected = connected;
    }

    fn command(&self, fields: &Params) -> (r: Result<String, WsRefusal>)
        ensures
            is_command(r, self.connected, fields@),
    {
        if self.connected {
            Ok(object_outside(fields))
        } else {
            Err(WsRefusal::NotConnected)
        }
    }

    pub fn subscribe_orderbook(&self, instrument_id: &InstrumentId, depth: u32) -> (r: Result<
        String,
        WsRefusal,
    >)
        ensures
            match collections::entry(self.instruments@, instrument_id@) {
                Some(instrument) => is_command(
                    r,
                    self.connected,
                    command_fields(
                        "subscribe"@,
                        "orderbook_delta"@,
                        "spot_market"@,
                        instrument.raw_symbol@,
                    ).push(("depth"@, ParamView::Unsigned(depth as u64))),
                ),
                None => not_found(r, *instrument_id),
            },
    {
        match self.spot_market(instrument_id) {
            Ok(spot_market) => {
                let mut fields: Params = channel_command(
                    "subscribe",
                    "orderbook_delta",
                    "spot_market",
                    spot_market.as_str(),
                );
                let ghost three = fields@;
                fields.entries.push(("depth".to_owned(), ParamValue::Unsigned(depth as u64)));
                assert(fields@ =~= three.push(("depth"@, ParamView::Unsigned(depth as u64))));
                self.command(&fields)
            },
            Err(e) => Err(e),
        }
    }

    /// The command for an instrument's channel.
    fn market_command(&self, op: &str, channel: &str, instrument_id: &InstrumentId) -> (r: Result<
        String,
        WsRefusal,
    >)
        ensures
            match collections::entry(self.instruments@, instrument_id@) {
                Some(instrument) => is_command(
                    r,
                    self.connected,
                    command_fields(op@, channel@, "spot_market"@, instrument.raw_symbol@),
                ),
                None => not_found(r, *instrument_id),
            },
    {
        match self.spot_market(instrument_id) {
            Ok(spot_market) => {
                let fields: Params = channel_command(
                    op,
                    channel,
                    "spot_market",
                    spot_market.as_str(),
                );
                self.command(&fields)
            },
            Err(e) => Err(e),
        }
    }

    pub fn unsubscribe_orderbook(&self, instrument_id: &InstrumentId) -> (r: Result<
        String,
        WsRefusal,
    >)
        ensures
            match collections::entry(self.instruments@, instrument_id@) {
                Some(instrument) => is_command(
                    r,
                    self.connected,
                    command_fields(
                        "unsubscribe"@,
                        "orderbook_delta"@,
                        "spot_market"@,
                        instrument.raw_symbol@,
                    ),
                ),
                None => not_found(r, *instrument_id),
            },
    {
        self.market_command("unsubscribe", "orderbook_delta", instrument_id)
    }

    pub fn subscribe_quotes(&self, instrument_id: &InstrumentId) -> (r: Result<String, WsRefusal>)
        ensures
            match collections::entry(self.instruments@, instrument_id@) {
                Some(instrument) => is_command(
                    r,
                    self.connected,
                    command_fields(
                        "subscribe"@,
                        "quote"@,
                        "spot_market"@,
                        instrument.raw_symbol@,
                    ),
                ),
                None => not_found(r, *instrument_id),
            },
    {
        self.market_command("subscribe", "quote", instrument_id)
    }

    pub fn unsubscribe_quotes(&self, instrument_id: &InstrumentId) -> (r: Result<String, WsRefusal>)
        ensures
            match collections::entry(self.instruments@, instrument_id@) {
                Some(instrument) => is_command(
                    r,
                    self.connected,
                    command_fields(
                        "unsubscribe"@,
                        "quote"@,
                        "spot_market"@,
                        instrument.raw_symbol@,
                    ),
                ),
                None => not_found(r, *instrument_id),
            },
    {
        self.market_command("unsubscribe", "quote", instrument_id)
    }

    pub fn subscribe_user(&self, user_address: &str) -> (r: Result<String, WsRefusal>)
        ensures
            is_command(
                r,
                self.connected,
                command_fields("subscribe"@, "user"@, "user_address"@, user_address@),
            ),
    {
        let fields: Params = channel_command("subscribe", "user", "user_address", user_address);
        self.command(&fields)
    }

    pub fn unsubscribe_user(&self, user_address: &str) -> (r: Result<String, WsRefusal>)
        ensures
            is_command(
                r,
                self.connected,
                command_fields("unsubscribe"@, "user"@, "user_address"@, user_address@),
            ),
    {
        let fields: Params = channel_command("unsubscribe", "user", "user_address", user_address);
        self.command(&fields)
    }
}

/// A command names what to do, the channel and what the channel is about, in this order.
pub proof fn law_command_fields(
    op: Seq<char>,
    channel: Seq<char>,
    key: Seq<char>,
    value: Seq<char>,
)
    ensures
        ({
            let fields = command_fields(op, channel, key, value);
            &&& fields.len() == 3
            &&& fields[0] == ("op"@, ParamView::Text(op))
            &&& fields[1] == ("channel"@, ParamView::Text(channel))
            &&& fields[2] == (key, ParamView::Text(value))
        }),
{
}

/// What the socket does: it writes what it is told to, answers a ping with its payload, hands texts
/// on as they are, and ends where the connection does.
pub proof fn law_socket_steps(r: SocketStep, event: SocketEvent)
    requires
        is_step(r, event),
    ensures
        event matches SocketEvent::Text(text) ==> r == SocketStep::Dispatch(text),
        event matches SocketEvent::Ping(payload) ==> r == SocketStep::Pong(payload),
        event matches SocketEvent::Command(Some(HandlerCommand::Send(text))) ==> r
            == SocketStep::Write(text),
        event is Closed || event is Failed || event is WriteFailed ==> r is End,
        event == SocketEvent::Command(None) || event == SocketEvent::Command(
            Some(HandlerCommand::Disconnect),
        ) ==> r == SocketStep::Close,
{
}

/// The types of the messages.
pub proof fn law_message_types()
    ensures
        MessageKind::Error.label() == "error"@,
        MessageKind::Subscribed.label() == "subscribed"@,
        MessageKind::Unsubscribed.label() == "unsubscribed"@,
        MessageKind::OrderBookSnapshot.label() == "orderbook_snapshot"@,
        MessageKind::OrderBookDelta.label() == "orderbook_delta"@,
        MessageKind::QuoteSnapshot.label() == "quote_snapshot"@,
        MessageKind::Quote.label() == "quote"@,
        MessageKind::UserOrder.label() == "order"@,
        MessageKind::UserTrade.label() == "trade"@,
{
}

} // verus!
