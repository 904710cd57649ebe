//! Orders and instruments as the rules of this crate read them.

use vstd::prelude::*;

use crate::fixed::{Price, Quantity};
use crate::params::Params;
use crate::text;

verus! {

#[derive(Clone, Copy, Debug, PartialEq, Eq, Structural)]
pub enum OrderSide {
    NoOrderSide,
    Buy,
    Sell,
}

#[derive(Clone, Copy, Debug, PartialEq, Eq, Structural)]
pub enum OrderType {
    Market,
    Limit,
    StopMarket,
    StopLimit,
    MarketToLimit,
    MarketIfTouched,
    LimitIfTouched,
    TrailingStopMarket,
    TrailingStopLimit,
}

#[derive(Clone, Copy, Debug, PartialEq, Eq, Structural)]
pub enum TimeInForce {
    Gtc,
    Ioc,
    Fok,
    Gtd,
    Day,
    AtTheOpen,
    AtTheClose,
}

#[derive(Clone, Copy, Debug, PartialEq, Eq, Structural)]
pub enum OrderStatus {
    Accepted,
    Canceled,
    PartiallyFilled,
    Filled,
}

/// Which side of a trade paid the spread.
#[derive(Clone, Copy, Debug, PartialEq, Eq, Structural)]
pub enum LiquiditySide {
    Maker,
    Taker,
}

impl OrderSide {
    pub open spec fn label(self) -> Seq<char> {
        match self {
            OrderSide::NoOrderSide => "NoOrderSide"@,
            OrderSide::Buy => "Buy"@,
            OrderSide::Sell => "Sell"@,
        }
    }

    /// The name of the side.
    pub fn name(&self) -> (r: &'static str)
        ensures
            r@ == self.label(),
    {
        match self {
            OrderSide::NoOrderSide => "NoOrderSide",
            OrderSide::Buy => "Buy",
            OrderSide::Sell => "Sell",
        }
    }
}

impl OrderType {
    pub open spec fn label(self) -> Seq<char> {
        match self {
            OrderType::Market => "Market"@,
            OrderType::Limit => "Limit"@,
            OrderType::StopMarket => "StopMarket"@,
            OrderType::StopLimit => "StopLimit"@,
            OrderType::MarketToLimit => "MarketToLimit"@,
            OrderType::MarketIfTouched => "MarketIfTouched"@,
            OrderType::LimitIfTouched => "LimitIfTouched"@,
            OrderType::TrailingStopMarket => "TrailingStopMarket"@,
            OrderType::TrailingStopLimit => "TrailingStopLimit"@,
        }
    }

    /// The name of the type.
    pub fn name(&self) -> (r: &'static str)
        ensures
            r@ == self.label(),
    {
        match self {
            OrderType::Market => "Market",
            OrderType::Limit => "Limit",
            OrderType::StopMarket => "StopMarket",
            OrderType::StopLimit => "StopLimit",
            OrderType::MarketToLimit => "MarketToLimit",
            OrderType::MarketIfTouched => "MarketIfTouched",
            OrderType::LimitIfTouched => "LimitIfTouched",
            OrderType::TrailingStopMarket => "TrailingStopMarket",
            OrderType::TrailingStopLimit => "TrailingStopLimit",
        }
    }
}

impl TimeInForce {
    pub open spec fn label(self) -> Seq<char> {
        match self {
            TimeInForce::Gtc => "Gtc"@,
            TimeInForce::Ioc => "Ioc"@,
            TimeInForce::Fok => "Fok"@,
            TimeInForce::Gtd => "Gtd"@,
            TimeInForce::Day => "Day"@,
            TimeInForce::AtTheOpen => "AtTheOpen"@,
            TimeInForce::AtTheClose => "AtTheClose"@,
        }
    }

    /// The name of the duration.
    pub fn name(&self) -> (r: &'static str)
        ensures
            r@ == self.label(),
    {
        match self {
            TimeInForce::Gtc => "Gtc",
            TimeInForce::Ioc => "Ioc",
            TimeInForce::Fok => "Fok",
            TimeInForce::Gtd => "Gtd",
            TimeInForce::Day => "Day",
            TimeInForce::AtTheOpen => "AtTheOpen",
            TimeInForce::AtTheClose => "AtTheClose",
        }
    }
}

/// An instrument: its symbol at a venue.
#[derive(Debug, PartialEq, Eq)]
pub struct InstrumentId {
    pub symbol: String,
    pub venue: String,
}

impl Clone for InstrumentId {
    fn clone(&self) -> (r: InstrumentId)
        ensures
            r == *self,
    {
        InstrumentId { symbol: self.symbol.clone(), venue: self.venue.clone() }
    }
}

impl View for InstrumentId {
    type V = (Seq<char>, Seq<char>);

    open spec fn view(&self) -> (Seq<char>, Seq<char>) {
        (self.symbol@, self.venue@)
    }
}

impl InstrumentId {
    /// Whether two ids name the same instrument.
    pub fn same(&self, other: &InstrumentId) -> (r: bool)
        ensures
            r == (self@ == other@),
    {
        text::same(self.symbol.as_str(), other.symbol.as_str()) && text::same(
            self.venue.as_str(),
            other.venue.as_str(),
        )
    }

    /// `symbol.venue`.
    pub fn text(&self) -> (r: String)
        ensures
            r@ == self@.0.push('.') + self@.1,
    {
        let mut r: String = self.symbol.clone();
        r.push('.');
        r.append(self.venue.as_str());
        r
    }
}

/// What an instrument is, as far as a rule asks.
#[derive(Clone, Copy, Debug, PartialEq, Eq, Structural)]
pub enum InstrumentKind {
    BinaryOption,
    CurrencyPair,
    Other,
}

/// An instrument as the trading core caches it.
#[derive(Debug)]
pub struct Instrument {
    pub id: InstrumentId,
    pub raw_symbol: String,
    pub kind: InstrumentKind,
    /// Outcome label of a binary option.
    pub outcome: Option<String>,
    pub info: Option<Params>,
}

/// The cached instrument with an id, where there is one.
pub open spec fn cached(cache: Seq<Instrument>, id: (Seq<char>, Seq<char>)) -> Option<Instrument>
    decreases cache.len(),
{
    if cache.len() == 0 {
        None
    } else if cache[0].id@ == id {
        Some(cache[0])
    } else {
        cached(cache.skip(1), id)
    }
}

proof fn lemma_cached(cache: Seq<Instrument>, id: (Seq<char>, Seq<char>), i: int)
    requires
        0 <= i <= cache.len(),
        forall|k: int| 0 <= k < i ==> (#[trigger] cache[k]).id@ != id,
    ensures
        cached(cache, id) == cached(cache.skip(i), id),
    decreases i,
{
    if i == 0 {
        assert(cache.skip(0) =~= cache);
    } else {
        assert(cache[0].id@ != id);
        lemma_cached(cache.skip(1), id, i - 1);
        assert(cache.skip(1).skip(i - 1) =~= cache.skip(i));
    }
}

/// The cached instrument with an id, where there is one.
pub fn find_instrument<'a>(cache: &'a [Instrument], id: &InstrumentId) -> (r: Option<&'a Instrument>)
    ensures
        match r {
            Some(instrument) => cached(cache@, id@) == Some(*instrument) && instrument.id@ == id@,
            None => cached(cache@, id@) is None,
        },
{
    let mut i: usize = 0;
    while i < cache.len()
        invariant
            i <= cache.len(),
            forall|k: int| 0 <= k < i ==> (#[trigger] cache@[k]).id@ != id@,
        decreases cache.len() - i,
    {
        if cache[i].id.same(id) {
            proof {
                lemma_cached(cache@, id@, i as int);
                assert(cache@.skip(i as int)[0] == cache@[i as int]);
            }
            return Some(&cache[i]);
        }
        i += 1;
    }
    proof {
        lemma_cached(cache@, id@, i as int);
    }
    None
}

/// An order as the trading core holds it.
#[derive(Debug)]
pub struct Order {
    pub client_order_id: String,
    pub instrument_id: InstrumentId,
    pub side: OrderSide,
    pub order_type: OrderType,
    pub time_in_force: TimeInForce,
    pub quantity: Quantity,
    pub leaves_qty: Quantity,
    pub price: Option<Price>,
    pub venue_order_id: Option<String>,
    pub is_closed: bool,
    pub is_pending_update: bool,
    pub ts_accepted: Option<u64>,
}

impl Clone for Order {
    fn clone(&self) -> (r: Order)
        ensures
            r == *self,
    {
        Order {
            client_order_id: self.client_order_id.clone(),
            instrument_id: self.instrument_id.clone(),
            side: self.side,
            order_type: self.order_type,
            time_in_force: self.time_in_force,
            quantity: self.quantity,
            leaves_qty: self.leaves_qty,
            price: self.price,
            venue_order_id: match &self.venue_order_id {
                Some(id) => Some(id.clone()),
                None => None,
            },
            is_closed: self.is_closed,
            is_pending_update: self.is_pending_update,
            ts_accepted: self.ts_accepted,
        }
    }
}

impl Order {
    /// Price and quantities are valid.
    pub open spec fn valid(self) -> bool {
        &&& self.quantity.valid()
        &&& self.leaves_qty.valid()
        &&& self.price matches Some(p) ==> p.valid()
    }
}

/// The cached instrument of an id has the id, and is the first one that has it.
pub proof fn law_cache_finds_the_first(cache: Seq<Instrument>, id: (Seq<char>, Seq<char>), i: int)
    requires
        0 <= i < cache.len(),
        cache[i].id@ == id,
        forall|j: int| 0 <= j < i ==> (#[trigger] cache[j]).id@ != id,
    ensures
        cached(cache, id) == Some(cache[i]),
    decreases cache.len(),
{
    if i > 0 {
        assert(cache[0].id@ != id);
        let rest = cache.skip(1);
        assert forall|j: int| 0 <= j < i - 1 implies (#[trigger] rest[j]).id@ != id by {
            assert(rest[j] == cache[j + 1]);
        }
        law_cache_finds_the_first(rest, id, i - 1);
    }
}

} // verus!
