//! The market data client: which instruments it knows, which of them are subscribed, and what a
//! message publishes.

use vstd::prelude::*;

use crate::collections;
use crate::common::consts::LIGHTPOOL;
use crate::config::LightpoolDataClientConfig;
use crate::fixed::{Price, Quantity};
use crate::http::models::{BookLevel, BookSnapshot};
use crate::model::{InstrumentId, OrderSide};
use crate::parse;
use crate::parse::{BinaryOption, OrderBookDeltas, ParseError, ParseErrorView, QuoteTick};
use crate::shared::{SharedIds, SharedSet, SharedTexts};
use crate::text;
use crate::websocket::clob_index::ClobIndexWsMessage;
use crate::websocket::models::{OrderBookDelta, OrderBookWsSnapshot};

verus! {

/// How deep an order book is asked for.
#[derive(Clone, Copy, Debug, PartialEq, Eq, Structural)]
#[allow(non_camel_case_types)]
pub enum BookType {
    L1_MBP,
    L2_MBP,
    L3_MBO,
}

/// What is published.
#[derive(Debug)]
pub enum DataEvent {
    Deltas(OrderBookDeltas),
    Quote(QuoteTick),
}

/// Why a subscription was refused.
#[derive(Debug)]
pub enum SubscribeError {
    /// Only L2 books by price are supported.
    UnsupportedBookType(BookType),
    /// The instrument's id, as text.
    InstrumentNotFound(String),
}

impl BookType {
    pub open spec fn label(self) -> Seq<char> {
        match self {
            BookType::L1_MBP => "L1_MBP"@,
            BookType::L2_MBP => "L2_MBP"@,
            BookType::L3_MBO => "L3_MBO"@,
        }
    }

    pub fn name(&self) -> (r: &'static str)
        ensures
            r@ == self.label(),
    {
        match self {
            BookType::L1_MBP => "L1_MBP",
            BookType::L2_MBP => "L2_MBP",
            BookType::L3_MBO => "L3_MBO",
        }
    }
}

impl SubscribeError {
    pub open spec fn text(self) -> Seq<char> {
        match self {
            SubscribeError::UnsupportedBookType(kind) =>
            "Lightpool only supports L2_MBP order book deltas, received "@ + kind.label(),
            SubscribeError::InstrumentNotFound(id) => "Instrument "@ + id@
                + " not found in Lightpool cache"@,
        }
    }

    /// The refusal in words.
    pub fn message(&self) -> (r: String)
        ensures
            r@ == self.text(),
    {
        match self {
            SubscribeError::UnsupportedBookType(kind) => text::append(
                "Lightpool only supports L2_MBP order book deltas, received ",
                kind.name(),
            ),
            SubscribeError::InstrumentNotFound(id) => {
                let mut r: String = text::append("Instrument ", id.as_str());
                r.append(" not found in Lightpool cache");
                r
            },
        }
    }
}

/// The market data client.
#[derive(Debug)]
pub struct LightpoolDataClient {
    pub client_id: String,
    pub config: LightpoolDataClientConfig,
    pub connected: bool,
    /// Known instruments, with their spot markets.
    pub spot_market_by_instrument: SharedTexts,
    pub instrument_by_spot_market: SharedIds,
    pub active_delta_subs: SharedSet,
    pub active_quote_subs: SharedSet,
}

/// `r` publishes a quote: none where it is missing, and the refusal where it was refused.
pub open spec fn publishes_quote(
    r: Result<Option<DataEvent>, ParseError>,
    quote: Result<Option<QuoteTick>, ParseErrorView>,
) -> bool {
    match quote {
        Ok(Some(tick)) => r == Ok::<Option<DataEvent>, ParseError>(Some(DataEvent::Quote(tick))),
        Ok(None) => r == Ok::<Option<DataEvent>, ParseError>(None),
        Err(e) => r matches Err(refusal) && refusal@ == e,
    }
}

/// The book of a snapshot message.
pub open spec fn book_of(snapshot: OrderBookWsSnapshot) -> BookSnapshot {
    BookSnapshot {
        sequence: snapshot.sequence,
        bids: snapshot.bids,
        asks: snapshot.asks,
        last_trade_price: snapshot.last_trade_price,
    }
}

/// `r` publishes the deltas `deltas`, or is their refusal.
pub open spec fn publishes_deltas(
    r: Result<Option<DataEvent>, ParseError>,
    id: InstrumentId,
    deltas: Result<Seq<parse::BookDelta>, ParseErrorView>,
) -> bool {
    match deltas {
        Ok(_) => r matches Ok(Some(DataEvent::Deltas(d))) && parse::is_deltas(Ok(d), id, deltas),
        Err(e) => r matches Err(refusal) && refusal@ == e,
    }
}

/// `r` publishes nothing.
pub open spec fn publishes_nothing(r: Result<Option<DataEvent>, ParseError>) -> bool {
    r == Ok::<Option<DataEvent>, ParseError>(None)
}

/// The levels of a message can be counted.
pub open spec fn levels_fit(message: ClobIndexWsMessage) -> bool {
    match message {
        ClobIndexWsMessage::OrderBookSnapshot(m) => m.bids@.len() + m.asks@.len() <= usize::MAX,
        ClobIndexWsMessage::OrderBookDelta(m) => m.bids@.len() + m.asks@.len() <= usize::MAX,
        _ => true,
    }
}

/// The deltas of an update message.
pub open spec fn update_deltas(m: OrderBookDelta, id: InstrumentId, ts: u64) -> Result<
    Seq<parse::BookDelta>,
    ParseErrorView,
> {
    if m.bids@.len() + m.asks@.len() == 0 {
        Err(ParseErrorView::EmptyDelta)
    } else {
        parse::book_deltas(
            Seq::empty(),
            parse::update_context(m.bids@, m.asks@, id, m.sequence, ts),
            m.bids@,
            m.asks@,
        )
    }
}

/// The deltas of a snapshot message.
pub open spec fn snapshot_deltas(m: OrderBookWsSnapshot, id: InstrumentId, ts: u64) -> Result<
    Seq<parse::BookDelta>,
    ParseErrorView,
> {
    let context = parse::snapshot_context(book_of(m), id, ts);
    parse::book_deltas(seq![parse::clear_delta(context)], context, m.bids@, m.asks@)
}

impl LightpoolDataClient {
    pub fn new(client_id: &str, config: LightpoolDataClientConfig) -> (r: LightpoolDataClient)
        ensures
            r.client_id@ == client_id@,
            r.config == config,
            !r.connected,
            r.wf(),
            r.instrument_by_spot_market@ == Map::<Seq<char>, InstrumentId>::empty(),
            r.spot_market_by_instrument@ == Map::<(Seq<char>, Seq<char>), String>::empty(),
            r.active_delta_subs@ == Set::<(Seq<char>, Seq<char>)>::empty(),
            r.active_quote_subs@ == Set::<(Seq<char>, Seq<char>)>::empty(),
    {
        LightpoolDataClient {
            client_id: client_id.to_owned(),
            config,
            connected: false,
            spot_market_by_instrument: SharedTexts::new(),
            instrument_by_spot_market: SharedIds::new(),
            active_delta_subs: SharedSet::new(),
            active_quote_subs: SharedSet::new(),
        }
    }

    /// Spot markets lead to known instruments.
    pub open spec fn wf(self) -> bool {
        forall|spot: Seq<char>| #[trigger]
            self.instrument_by_spot_market@.dom().contains(spot)
                ==> self.spot_market_by_instrument@.dom().contains(
                self.instrument_by_spot_market@[spot]@,
            )
    }

    /// The instrument of a spot market, where it is known.
    pub open spec fn instrument_of(self, spot_market: Seq<char>) -> Option<InstrumentId> {
        collections::entry(self.instrument_by_spot_market@, spot_market)
    }

    /// Everything but the subscriptions is the same.
    pub open spec fn same_but_subs(self, other: LightpoolDataClient) -> bool {
        &&& self.client_id == other.client_id
        &&& self.config == other.config
        &&& self.connected == other.connected
        &&& self.spot_market_by_instrument == other.spot_market_by_instrument
        &&& self.instrument_by_spot_market == other.instrument_by_spot_market
    }

    pub fn venue(&self) -> (r: &'static str)
        ensures
            r@ == LIGHTPOOL@,
    {
        LIGHTPOOL
    }

    pub fn is_connected(&self) -> (r: bool)
        ensures
            r == self.connected,
    {
        self.connected
    }

    pub fn is_disconnected(&self) -> (r: bool)
        ensures
            r == !self.connected,
    {
        !self.connected
    }

    pub fn set_connected(&mut self)
        ensures
            final(self).connected,
            final(self).client_id == old(self).client_id,
            final(self).config == old(self).config,
            final(self).spot_market_by_instrument == old(self).spot_market_by_instrument,
            final(self).instrument_by_spot_market == old(self).instrument_by_spot_market,
            final(self).active_delta_subs == old(self).active_delta_subs,
            final(self).active_quote_subs == old(self).active_quote_subs,
    {
        self.connected = true;
    }

    /// Remembers an instrument and its spot market. Of two instruments with one spot market the
    /// later one gets its messages.
    pub fn register_instrument(&mut self, option: &BinaryOption)
        requires
            old(self).wf(),
        ensures
            final(self).wf(),
            final(self).spot_market_by_instrument@ == old(self).spot_market_by_instrument@.insert(
                option.instrument.id@,
                option.instrument.raw_symbol,
            ),
            final(self).instrument_by_spot_market@ == old(self).instrument_by_spot_market@.insert(
                option.instrument.raw_symbol@,
                option.instrument.id,
            ),
            final(self).client_id == old(self).client_id,
            final(self).config == old(self).config,
            final(self).connected == old(self).connected,
            final(self).active_delta_subs == old(self).active_delta_subs,
            final(self).active_quote_subs == old(self).active_quote_subs,
    {
        let id: InstrumentId = option.instrument.id.clone();
        let spot_market: String = option.instrument.raw_symbol.clone();
        self.spot_market_by_instrument.insert(&id, spot_market.clone());
        self.instrument_by_spot_market.insert(spot_market.as_str(), id);
    }

    /// Remembers the instruments of the markets, in order.
    pub fn bootstrap_instruments(&mut self, options: &[BinaryOption])
        requires
            old(self).wf(),
        ensures
            final(self).wf(),
            final(self).spot_market_by_instrument@ == spots_after(
                old(self).spot_market_by_instrument@,
                options@,
            ),
            final(self).instrument_by_spot_market@ == instruments_after(
                old(self).instrument_by_spot_market@,
                options@,
            ),
            final(self).client_id == old(self).client_id,
            final(self).config == old(self).config,
            final(self).connected == old(self).connected,
            final(self).active_delta_subs == old(self).active_delta_subs,
            final(self).active_quote_subs == old(self).active_quote_subs,
    {
        let mut i: usize = 0;
        while i < options.len()
            invariant
                i <= options@.len(),
                self.wf(),
                self.spot_market_by_instrument@ == spots_after(
                    old(self).spot_market_by_instrument@,
                    options@.take(i as int),
                ),
                self.instrument_by_spot_market@ == instruments_after(
                    old(self).instrument_by_spot_market@,
                    options@.take(i as int),
                ),
                self.client_id == old(self).client_id,
                self.config == old(self).config,
                self.connected == old(self).connected,
                self.active_delta_subs == old(self).active_delta_subs,
                self.active_quote_subs == old(self).active_quote_subs,
            decreases options@.len() - i,
        {
            assert(options@.take(i + 1).drop_last() =~= options@.take(i as int));
            self.register_instrument(&options[i]);
            i += 1;
        }
        assert(options@.take(i as int) =~= options@);
    }

    /// Subscribes to the book of a known instrument, and hands out the depth to ask for.
    pub fn subscribe_book_deltas(&mut self, book_type: BookType, instrument_id: &InstrumentId) -> (r:
        Result<u32, SubscribeError>)
        requires
            old(self).wf(),
        ensures
            final(self).wf(),
            final(self).same_but_subs(*old(self)),
            final(self).active_quote_subs == old(self).active_quote_subs,
            if book_type != BookType::L2_MBP {
                r == Err::<u32, SubscribeError>(SubscribeError::UnsupportedBookType(book_type))
            } else if !old(self).spot_market_by_instrument@.dom().contains(instrument_id@) {
                unknown(r, *instrument_id)
            } else {
                r == Ok::<u32, SubscribeError>(old(self).config.book_depth)
            },
            final(self).active_delta_subs@ == if r is Ok {
                old(self).active_delta_subs@.insert(instrument_id@)
            } else {
                old(self).active_delta_subs@
            },
    {
        if book_type != BookType::L2_MBP {
            return Err(SubscribeError::UnsupportedBookType(book_type));
        }
        if !self.spot_market_by_instrument.contains(instrument_id) {
            return Err(SubscribeError::InstrumentNotFound(instrument_id.text()));
        }
        self.active_delta_subs.insert(instrument_id);
        Ok(self.config.book_depth)
    }

    pub fn unsubscribe_book_deltas(&mut self, instrument_id: &InstrumentId)
        requires
            old(self).wf(),
        ensures
            final(self).wf(),
            final(self).same_but_subs(*old(self)),
            final(self).active_quote_subs == old(self).active_quote_subs,
            final(self).active_delta_subs@ == old(self).active_delta_subs@.remove(instrument_id@),
    {
        self.active_delta_subs.remove(instrument_id);
    }

    /// Subscribes to the quotes of a known instrument.
    pub fn subscribe_quotes(&mut self, instrument_id: &InstrumentId) -> (r: Result<
        (),
        SubscribeError,
    >)
        requires
            old(self).wf(),
        ensures
            final(self).wf(),
            final(self).same_but_subs(*old(self)),
            final(self).active_delta_subs == old(self).active_delta_subs,
            if !old(self).spot_market_by_instrument@.dom().contains(instrument_id@) {
                unknown(r, *instrument_id)
            } else {
                r is Ok
            },
            final(self).active_quote_subs@ == if r is Ok {
                old(self).active_quote_subs@.insert(instrument_id@)
            } else {
                old(self).active_quote_subs@
            },
    {
        if !self.spot_market_by_instrument.contains(instrument_id) {
            return Err(SubscribeError::InstrumentNotFound(instrument_id.text()));
        }
        self.active_quote_subs.insert(instrument_id);
        Ok(())
    }

    pub fn unsubscribe_quotes(&mut self, instrument_id: &InstrumentId)
        requires
            old(self).wf(),
        ensures
            final(self).wf(),
            final(self).same_but_subs(*old(self)),
            final(self).active_delta_subs == old(self).active_delta_subs,
            final(self).active_quote_subs@ == old(self).active_quote_subs@.remove(instrument_id@),
    {
        self.active_quote_subs.remove(instrument_id);
    }

    /// Ends all subscriptions. Instruments stay known.
    pub fn stop(&mut self)
        requires
            old(self).wf(),
        ensures
            final(self).wf(),
            !final(self).connected,
            final(self).active_delta_subs@ == Set::<(Seq<char>, Seq<char>)>::empty(),
            final(self).active_quote_subs@ == Set::<(Seq<char>, Seq<char>)>::empty(),
            final(self).client_id == old(self).client_id,
            final(self).config == old(self).config,
            final(self).spot_market_by_instrument == old(self).spot_market_by_instrument,
            final(self).instrument_by_spot_market == old(self).instrument_by_spot_market,
    {
        self.connected = false;
        self.active_delta_subs.clear();
        self.active_quote_subs.clear();
    }

    /// Ends all subscriptions and forgets the instruments.
    pub fn reset(&mut self)
        requires
            old(self).wf(),
        ensures
            final(self).wf(),
            !final(self).connected,
            final(self).active_delta_subs@ == Set::<(Seq<char>, Seq<char>)>::empty(),
            final(self).active_quote_subs@ == Set::<(Seq<char>, Seq<char>)>::empty(),
            final(self).spot_market_by_instrument@ == Map::<(Seq<char>, Seq<char>), String>::empty(),
            final(self).instrument_by_spot_market@ == Map::<Seq<char>, InstrumentId>::empty(),
            final(self).client_id == old(self).client_id,
            final(self).config == old(self).config,
    {
        self.stop();
        self.spot_market_by_instrument.clear();
        self.instrument_by_spot_market.clear();
    }

    /// The instrument of a spot market, where it is known and subscribed.
    fn subscribed(&self, spot_market: &str, subs: &SharedSet) -> (r: Option<InstrumentId>)
        ensures
            r == (match self.instrument_of(spot_market@) {
                Some(id) => if subs@.contains(id@) {
                    Some(id)
                } else {
                    None
                },
                None => None,
            }),
    {
        match self.instrument_by_spot_market.get(spot_market) {
            Some(id) => if subs.contains(&id) {
                Some(id)
            } else {
                None
            },
            None => None,
        }
    }

    /// What a message publishes: book changes and quotes of known instruments that are subscribed.
    /// Those that cannot be read are refused.
    pub fn handle_message(&self, message: ClobIndexWsMessage, ts_init: u64) -> (r: Result<
        Option<DataEvent>,
        ParseError,
    >)
        requires
            levels_fit(message),
        ensures
            match message {
                ClobIndexWsMessage::OrderBookSnapshot(m) => match self.instrument_of(
                    m.spot_market@,
                ) {
                    Some(id) => if self.active_delta_subs@.contains(id@) {
                        publishes_deltas(r, id, snapshot_deltas(m, id, ts_init))
                    } else {
                        publishes_nothing(r)
                    },
                    None => publishes_nothing(r),
                },
                ClobIndexWsMessage::OrderBookDelta(m) => match self.instrument_of(m.spot_market@) {
                    Some(id) => if self.active_delta_subs@.contains(id@) {
                        publishes_deltas(r, id, update_deltas(m, id, ts_init))
                    } else {
                        publishes_nothing(r)
                    },
                    None => publishes_nothing(r),
                },
                ClobIndexWsMessage::QuoteSnapshot(m) => match self.instrument_of(m.spot_market@) {
                    Some(id) => if self.active_quote_subs@.contains(id@) {
                        publishes_quote(r, parse::quote_of(m.best_bid, m.best_ask, id, ts_init))
                    } else {
                        publishes_nothing(r)
                    },
                    None => publishes_nothing(r),
                },
                ClobIndexWsMessage::Quote(m) => match self.instrument_of(m.spot_market@) {
                    Some(id) => if self.active_quote_subs@.contains(id@) {
                        publishes_quote(r, parse::quote_of(m.best_bid, m.best_ask, id, ts_init))
                    } else {
                        publishes_nothing(r)
                    },
                    None => publishes_nothing(r),
                },
                _ => publishes_nothing(r),
            },
    {
        match message {
            ClobIndexWsMessage::OrderBookSnapshot(m) => {
                match self.subscribed(m.spot_market.as_str(), &self.active_delta_subs) {
                    Some(id) => {
                        let book: BookSnapshot = BookSnapshot {
                            sequence: m.sequence,
                            bids: m.bids,
                            asks: m.asks,
                            last_trade_price: m.last_trade_price,
                        };
                        match parse::parse_book_snapshot(&book, &id, ts_init) {
                            Ok(deltas) => Ok(Some(DataEvent::Deltas(deltas))),
                            Err(e) => Err(e),
                        }
                    },
                    None => Ok(None),
                }
            },
            ClobIndexWsMessage::OrderBookDelta(m) => {
                match self.subscribed(m.spot_market.as_str(), &self.active_delta_subs) {
                    Some(id) => match parse::parse_book_delta(
                        m.bids.as_slice(),
                        m.asks.as_slice(),
                        &id,
                        m.sequence,
                        ts_init,
                    ) {
                        Ok(deltas) => Ok(Some(DataEvent::Deltas(deltas))),
                        Err(e) => Err(e),
                    },
                    None => Ok(None),
                }
            },
            ClobIndexWsMessage::QuoteSnapshot(m) => {
                match self.subscribed(m.spot_market.as_str(), &self.active_quote_subs) {
                    Some(id) => published_quote(parse::parse_quote_snapshot(&m, &id, ts_init)),
                    None => Ok(None),
                }
            },
            ClobIndexWsMessage::Quote(m) => {
                match self.subscribed(m.spot_market.as_str(), &self.active_quote_subs) {
                    Some(id) => published_quote(parse::parse_quote_delta(&m, &id, ts_init)),
                    None => Ok(None),
                }
            },
            _ => Ok(None),
        }
    }
}

/// The event of a quote that was read.
fn published_quote(quote: Result<Option<QuoteTick>, ParseError>) -> (r: Result<
    Option<DataEvent>,
    ParseError,
>)
    ensures
        publishes_quote(r, parse::viewed(quote)),
{
    match quote {
        Ok(Some(tick)) => Ok(Some(DataEvent::Quote(tick))),
        Ok(None) => Ok(None),
        Err(e) => Err(e),
    }
}

/// `r` refuses an instrument that is not known.
pub open spec fn unknown<T>(r: Result<T, SubscribeError>, id: InstrumentId) -> bool {
    r matches Err(SubscribeError::InstrumentNotFound(text)) && text@ == id@.0.push('.') + id@.1
}

/// Spot markets by instrument, with some instruments added in order.
pub open spec fn spots_after(
    map: Map<(Seq<char>, Seq<char>), String>,
    options: Seq<BinaryOption>,
) -> Map<(Seq<char>, Seq<char>), String>
    decreases options.len(),
{
    if options.len() == 0 {
        map
    } else {
        spots_after(map, options.drop_last()).insert(
            options.last().instrument.id@,
            options.last().instrument.raw_symbol,
        )
    }
}

/// Instruments by spot market, with some instruments added in order.
pub open spec fn instruments_after(
    map: Map<Seq<char>, InstrumentId>,
    options: Seq<BinaryOption>,
) -> Map<Seq<char>, InstrumentId>
    decreases options.len(),
{
    if options.len() == 0 {
        map
    } else {
        instruments_after(map, options.drop_last()).insert(
            options.last().instrument.raw_symbol@,
            options.last().instrument.id,
        )
    }
}

/// Each instrument of a list with distinct spot markets gets the messages of its own spot market.
pub proof fn law_spot_markets_lead_to_their_instruments(
    map: Map<Seq<char>, InstrumentId>,
    options: Seq<BinaryOption>,
    i: int,
)
    requires
        0 <= i < options.len(),
        forall|a: int, b: int|
            0 <= a < b < options.len() ==> (#[trigger] options[a]).instrument.raw_symbol@ != (
            #[trigger] options[b]).instrument.raw_symbol@,
    ensures
        collections::entry(
            instruments_after(map, options),
            options[i].instrument.raw_symbol@,
        ) == Some(options[i].instrument.id),
    decreases options.len(),
{
    if i < options.len() - 1 {
        let head = options.drop_last();
        assert(forall|k: int| 0 <= k < head.len() ==> head[k] == options[k]);
        law_spot_markets_lead_to_their_instruments(map, head, i);
        assert(options[i].instrument.raw_symbol@ != options[options.len()
            - 1].instrument.raw_symbol@);
    }
}

/// What is published for an update is the update: for the instrument, with its sequence, a bid for
/// each bid and then an ask for each ask, in their order.
pub proof fn law_updates_are_published(
    r: Result<Option<DataEvent>, ParseError>,
    id: InstrumentId,
    m: OrderBookDelta,
    ts: u64,
)
    requires
        m.bids@.len() + m.asks@.len() <= usize::MAX,
        publishes_deltas(r, id, update_deltas(m, id, ts)),
    ensures
        m.bids@.len() + m.asks@.len() == 0 ==> r is Err,
        r is Ok ==> (r matches Ok(Some(DataEvent::Deltas(d))) && {
            &&& d.instrument_id == id
            &&& d.sequence == m.sequence
            &&& d.ts_init == ts
            &&& d.deltas@.len() == m.bids@.len() + m.asks@.len()
            &&& forall|i: int|
                0 <= i < m.bids@.len() ==> {
                        &&& (#[trigger] d.deltas@[0 + i]).side == OrderSide::Buy
                        &&& parse::price_read(m.bids@[i].price@) == Ok::<Price, ParseErrorView>(d.deltas@[0 + i].price)
                        &&& parse::size_read(m.bids@[i].size@) == Ok::<Quantity, ParseErrorView>(d.deltas@[0 + i].size)
                    }
            &&& forall|i: int|
                0 <= i < m.asks@.len() ==> {
                        &&& (#[trigger] d.deltas@[0 + m.bids@.len() + i]).side == OrderSide::Sell
                        &&& parse::price_read(m.asks@[i].price@) == Ok::<Price, ParseErrorView>(d.deltas@[0 + m.bids@.len() + i].price)
                        &&& parse::size_read(m.asks@[i].size@) == Ok::<Quantity, ParseErrorView>(d.deltas@[0 + m.bids@.len() + i].size)
                    }
        }),
{
    let context = parse::update_context(m.bids@, m.asks@, id, m.sequence, ts);
    parse::law_deltas_follow_levels(Seq::empty(), context, m.bids@, m.asks@);
}

/// What is published for a snapshot is the snapshot: the book is emptied, and then come its bids and
/// its asks, in their order.
pub proof fn law_snapshots_are_published(
    r: Result<Option<DataEvent>, ParseError>,
    id: InstrumentId,
    m: OrderBookWsSnapshot,
    ts: u64,
)
    requires
        m.bids@.len() + m.asks@.len() <= usize::MAX,
        publishes_deltas(r, id, snapshot_deltas(m, id, ts)),
    ensures
        r is Ok ==> (r matches Ok(Some(DataEvent::Deltas(d))) && {
            &&& d.instrument_id == id
            &&& d.sequence == m.sequence
            &&& d.ts_init == ts
            &&& d.deltas@.len() == 1 + m.bids@.len() + m.asks@.len()
            &&& d.deltas@[0].action == parse::BookAction::Clear
            &&& forall|i: int|
                0 <= i < m.bids@.len() ==> {
                        &&& (#[trigger] d.deltas@[1 + i]).side == OrderSide::Buy
                        &&& parse::price_read(m.bids@[i].price@) == Ok::<Price, ParseErrorView>(d.deltas@[1 + i].price)
                        &&& parse::size_read(m.bids@[i].size@) == Ok::<Quantity, ParseErrorView>(d.deltas@[1 + i].size)
                    }
            &&& forall|i: int|
                0 <= i < m.asks@.len() ==> {
                        &&& (#[trigger] d.deltas@[1 + m.bids@.len() + i]).side == OrderSide::Sell
                        &&& parse::price_read(m.asks@[i].price@) == Ok::<Price, ParseErrorView>(d.deltas@[1 + m.bids@.len() + i].price)
                        &&& parse::size_read(m.asks@[i].size@) == Ok::<Quantity, ParseErrorView>(d.deltas@[1 + m.bids@.len() + i].size)
                    }
        }),
{
    let context = parse::snapshot_context(book_of(m), id, ts);
    parse::law_deltas_follow_levels(
        seq![parse::clear_delta(context)],
        context,
        m.bids@,
        m.asks@,
    );
}

/// A quote that was read is published as it is, one without a side is not published, and one that
/// cannot be read is refused.
pub proof fn law_quotes_are_published(
    r: Result<Option<DataEvent>, ParseError>,
    bid: Option<BookLevel>,
    ask: Option<BookLevel>,
    id: InstrumentId,
    ts: u64,
)
    requires
        publishes_quote(r, parse::quote_of(bid, ask, id, ts)),
    ensures
        bid is None || ask is None ==> (r matches Ok(None)),
        r matches Ok(Some(event)) ==> (event matches DataEvent::Quote(q) && q.instrument_id == id
            && q.ts_init == ts && parse::price_read(bid->Some_0.price@) == Ok::<
            Price,
            ParseErrorView,
        >(q.bid_price) && parse::price_read(ask->Some_0.price@) == Ok::<Price, ParseErrorView>(
            q.ask_price,
        ) && parse::size_read(bid->Some_0.size@) == Ok::<Quantity, ParseErrorView>(q.bid_size)
            && parse::size_read(ask->Some_0.size@) == Ok::<Quantity, ParseErrorView>(q.ask_size)),
        bid is Some && ask is Some ==> !(r matches Ok(None)),
{
}

/// Each instrument of a list with distinct instruments is known with its own spot market.
pub proof fn law_instruments_keep_their_spot_markets(
    map: Map<(Seq<char>, Seq<char>), String>,
    options: Seq<BinaryOption>,
    i: int,
)
    requires
        0 <= i < options.len(),
        forall|a: int, b: int|
            0 <= a < b < options.len() ==> (#[trigger] options[a]).instrument.id@ != (
            #[trigger] options[b]).instrument.id@,
    ensures
        collections::entry(spots_after(map, options), options[i].instrument.id@) == Some(
            options[i].instrument.raw_symbol,
        ),
    decreases options.len(),
{
    if i < options.len() - 1 {
        let head = options.drop_last();
        assert(forall|k: int| 0 <= k < head.len() ==> head[k] == options[k]);
        law_instruments_keep_their_spot_markets(map, head, i);
        assert(options[i].instrument.id@ != options[options.len() - 1].instrument.id@);
    }
}

} // verus!
