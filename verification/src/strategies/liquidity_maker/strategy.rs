//! Liquidity maker strategy: follows Polymarket book deltas and mirrors them onto LightPool.

use vstd::prelude::*;

use crate::collections;
use crate::collections::{InstrumentMap, InstrumentSet, TextMap, TextSet};
use crate::model::{Instrument, InstrumentId, Order};
use crate::strategies::liquidity_maker::config::LiquidityMakerConfig;
use crate::strategies::liquidity_maker::levels;
use crate::strategies::liquidity_maker::levels::Level;
use crate::strategies::liquidity_maker::markets;
use crate::strategies::liquidity_maker::markets::{MarketVenue, OutcomeSide, SlugMarketIds};
use crate::strategies::liquidity_maker::sync;
use crate::strategies::liquidity_maker::sync::{BookSnapshot, OrdersByLevel, ReconcileAction};
use crate::text;

verus! {

/// Mirrors Polymarket depth onto LightPool using own orders.
///
/// Requires `managed_book = true`, so that a Polymarket book is in the cache while deltas stream in.
#[derive(Debug)]
pub struct LiquidityMaker {
    pub config: LiquidityMakerConfig,
    /// Event slug -> condition_id -> YES/NO instrument ids (Polymarket).
    pub polymarket_slug_markets: TextMap<TextMap<SlugMarketIds>>,
    /// Event slug -> condition ids (Polymarket).
    pub slug_to_conditions: TextMap<TextSet>,
    /// market_slug -> YES/NO instrument ids (LightPool).
    pub lightpool_markets: TextMap<SlugMarketIds>,
    pub instrument_to_market_key: InstrumentMap<String>,
    pub subscribed_instruments: InstrumentSet,
    /// Number of delta batches of each Polymarket instrument whose book is logged.
    pub delta_batches: InstrumentMap<u64>,
    /// Polymarket instrument id -> paired LightPool instrument id.
    pub pm_to_lp: InstrumentMap<InstrumentId>,
    /// Polymarket instrument ids with deltas in the current reconcile batch.
    pub pending_reconcile_pm_instruments: InstrumentSet,
    /// Polymarket delta count in the current reconcile batch.
    pub pending_reconcile_delta_count: u64,
}

/// What the strategy does when it starts.
#[derive(Debug)]
pub struct StartPlan {
    /// Polymarket markets that were not known before.
    pub synced_polymarket: usize,
    /// LightPool markets that were not known before.
    pub synced_lightpool: usize,
    /// Instruments to subscribe, with this many levels per side.
    pub subscribe: Vec<InstrumentId>,
    pub depth: usize,
}

/// What a book delta leads to.
#[derive(Debug)]
pub struct DeltaOutcome {
    /// The instrument's book is to be logged.
    pub log_book: bool,
    /// Instruments to reconcile.
    pub reconcile: Vec<InstrumentId>,
}

/// The strategy cannot start.
#[derive(Clone, Copy, Debug, PartialEq, Eq, Structural)]
pub enum StartError {
    /// The strategy needs `managed_book=true` to read cache order books.
    UnmanagedBook,
}

/// One side and the other of a book, best level first.
#[derive(Debug)]
pub struct BookView {
    pub bids: Vec<Level>,
    pub asks: Vec<Level>,
}

impl BookView {
    /// Each price once per side, all of them valid.
    pub open spec fn valid(self) -> bool {
        &&& levels::distinct_prices(self.bids@)
        &&& levels::all_valid(self.bids@)
        &&& levels::distinct_prices(self.asks@)
        &&& levels::all_valid(self.asks@)
    }
}

/// What the cache holds for an instrument pair.
#[derive(Debug)]
pub struct PairView {
    /// The reference book, where the cache has one.
    pub reference: Option<BookView>,
    /// The strategy has an id to find its orders by.
    pub has_strategy_id: bool,
    /// Number of own orders on their way to or from the venue.
    pub inflight: usize,
    /// Own open orders.
    pub open_orders: Vec<Order>,
}

impl PairView {
    pub open spec fn valid(self) -> bool {
        &&& self.reference matches Some(book) ==> book.valid()
        &&& levels::valid_orders(self.open_orders@)
        &&& self.open_orders@.len() <= u32::MAX
    }
}

/// Why reconciling a pair does nothing.
#[derive(Clone, Copy, Debug, PartialEq, Eq, Structural)]
pub enum SkipReason {
    TradingDisabled,
    ReferenceBookMissing,
    NoStrategyId,
    OrdersInFlight,
    BooksMatch,
}

/// The levels that a config retains: at least one.
pub open spec fn depth_of(config: LiquidityMakerConfig) -> int {
    if config.depth == 0 {
        1
    } else {
        config.depth as int
    }
}

/// What keeps a pair from being reconciled, where there is one.
pub open spec fn skip_reason(config: LiquidityMakerConfig, view: PairView) -> Option<SkipReason> {
    if !config.trading_enabled || !config.lightpool_enabled {
        Some(SkipReason::TradingDisabled)
    } else if view.reference is None {
        Some(SkipReason::ReferenceBookMissing)
    } else if !view.has_strategy_id {
        Some(SkipReason::NoStrategyId)
    } else if view.inflight != 0 {
        Some(SkipReason::OrdersInFlight)
    } else {
        None
    }
}

/// The snapshots that a pair is reconciled by.
pub open spec fn are_snapshots(
    config: LiquidityMakerConfig,
    view: PairView,
    reference: BookSnapshot,
    actual: BookSnapshot,
    orders: OrdersByLevel,
) -> bool {
    let depth = depth_of(config);
    let book = view.reference->Some_0;
    let own = view.open_orders@;
    &&& reference.bids.levels@ == sync::first_levels(book.bids@, depth)
    &&& reference.asks.levels@ == sync::first_levels(book.asks@, depth)
    &&& levels::is_top(
        actual.bids.levels@,
        levels::order_levels(own, crate::model::OrderSide::Buy),
        depth,
        true,
    )
    &&& levels::is_top(
        actual.asks.levels@,
        levels::order_levels(own, crate::model::OrderSide::Sell),
        depth,
        false,
    )
    &&& forall|price: i64| #[trigger]
        orders.bids.at(price) == sync::orders_at(own, crate::model::OrderSide::Buy, price)
    &&& forall|price: i64| #[trigger]
        orders.asks.at(price) == sync::orders_at(own, crate::model::OrderSide::Sell, price)
}

/// `r` says what reconciling a pair does.
pub open spec fn is_reconcile_result(
    config: LiquidityMakerConfig,
    view: PairView,
    r: Result<Vec<ReconcileAction>, SkipReason>,
) -> bool {
    match skip_reason(config, view) {
        Some(reason) => r == Err::<Vec<ReconcileAction>, SkipReason>(reason),
        None => exists|reference: BookSnapshot, actual: BookSnapshot, orders: OrdersByLevel|
            {
                &&& #[trigger] are_snapshots(config, view, reference, actual, orders)
                &&& if sync::same_levels(reference.bids.levels@, actual.bids.levels@)
                    && sync::same_levels(reference.asks.levels@, actual.asks.levels@) {
                    r == Err::<Vec<ReconcileAction>, SkipReason>(SkipReason::BooksMatch)
                } else {
                    r matches Ok(actions) && actions@ == sync::reconcile_actions(
                        reference,
                        actual,
                        orders,
                    )
                }
            },
    }
}

/// Decides how to bring the own orders of a pair to the reference book.
///
/// Nothing is done while trading is off, the reference book or the strategy id is missing, own
/// orders are in flight or the books match.
pub fn reconcile_pair(config: &LiquidityMakerConfig, view: &PairView) -> (r: Result<
    Vec<ReconcileAction>,
    SkipReason,
>)
    requires
        view.valid(),
    ensures
        is_reconcile_result(*config, *view, r),
{
    if !config.trading_enabled || !config.lightpool_enabled {
        return Err(SkipReason::TradingDisabled);
    }
    let depth: usize = if config.depth == 0 {
        1
    } else {
        config.depth
    };
    match &view.reference {
        None => Err(SkipReason::ReferenceBookMissing),
        Some(book) => {
            if !view.has_strategy_id {
                return Err(SkipReason::NoStrategyId);
            }
            if view.inflight != 0 {
                return Err(SkipReason::OrdersInFlight);
            }
            let reference: BookSnapshot = BookSnapshot::from_book(&book.bids, &book.asks, depth);
            let actual: BookSnapshot = BookSnapshot::from_open_orders(
                view.open_orders.as_slice(),
                depth,
            );
            let orders: OrdersByLevel = OrdersByLevel::from_open_orders(
                view.open_orders.as_slice(),
            );
            assert(are_snapshots(*config, *view, reference, actual, orders));
            if sync::books_match(&reference, &actual) {
                return Err(SkipReason::BooksMatch);
            }
            Ok(sync::build_reconcile_actions(&reference, &actual, &orders))
        },
    }
}

/// The action is sent to the venue: an order of no size is not placed.
pub open spec fn is_sent(action: ReconcileAction) -> bool {
    match action {
        ReconcileAction::Cancel { client_order_id } => true,
        ReconcileAction::Modify { client_order_id, quantity } => true,
        ReconcileAction::Place { side, price, quantity } => quantity.raw != 0,
    }
}

/// Whether an action is sent to the venue.
pub fn sends(action: &ReconcileAction) -> (r: bool)
    ensures
        r == is_sent(*action),
{
    match action {
        ReconcileAction::Cancel { client_order_id: _ } => true,
        ReconcileAction::Modify { client_order_id: _, quantity: _ } => true,
        ReconcileAction::Place { side: _, price: _, quantity } => !quantity.is_zero(),
    }
}

/// The ids of a list of markets.
pub open spec fn ids_of(markets: Map<Seq<char>, SlugMarketIds>) -> Set<(Seq<char>, Seq<char>)> {
    Set::new(
        |id: (Seq<char>, Seq<char>)|
            exists|key: Seq<char>| #[trigger]
                markets.dom().contains(key) && (markets[key].yes_id@ == id
                    || markets[key].no_id@ == id),
    )
}

/// `label` is the condition id of a market with this instrument.
pub open spec fn names_market(
    markets: Map<Seq<char>, SlugMarketIds>,
    id: (Seq<char>, Seq<char>),
    label: Seq<char>,
) -> bool {
    exists|key: Seq<char>| #[trigger]
        markets.dom().contains(key) && (markets[key].yes_id@ == id || markets[key].no_id@ == id)
            && markets[key].condition_id@ == label
}

/// Each instrument of a list is labelled with the condition id of a market that it belongs to.
pub open spec fn all_named(
    list: Seq<InstrumentId>,
    labels: Map<(Seq<char>, Seq<char>), String>,
    markets: Map<Seq<char>, SlugMarketIds>,
) -> bool {
    forall|id: (Seq<char>, Seq<char>)| #[trigger]
        collections::id_views(list).contains(id) ==> labels.dom().contains(id) && names_market(
            markets,
            id,
            labels[id]@,
        )
}

/// Instruments that are not on a list keep their labels.
pub open spec fn others_keep_names(
    list: Seq<InstrumentId>,
    before: Map<(Seq<char>, Seq<char>), String>,
    after: Map<(Seq<char>, Seq<char>), String>,
) -> bool {
    forall|id: (Seq<char>, Seq<char>)|
        !collections::id_views(list).contains(id) ==> #[trigger] collections::entry(after, id)
            == collections::entry(before, id)
}

/// A market pairs a Polymarket instrument with a LightPool instrument: NO with NO, and YES with YES
/// where it is another instrument than NO.
pub open spec fn pairs(
    cache: Seq<Instrument>,
    market: SlugMarketIds,
    lightpool: (InstrumentId, InstrumentId),
    pm_id: (Seq<char>, Seq<char>),
    lp_id: InstrumentId,
) -> bool {
    let (yes, no) = markets::resolved_pair(cache, market);
    if no@ == pm_id {
        lp_id == lightpool.1
    } else {
        yes@ == pm_id && lp_id == lightpool.0
    }
}

/// `map` pairs the instruments of all markets, and nothing else.
pub open spec fn are_pairs(
    map: Map<(Seq<char>, Seq<char>), InstrumentId>,
    cache: Seq<Instrument>,
    markets: Map<Seq<char>, SlugMarketIds>,
    lightpool: (InstrumentId, InstrumentId),
) -> bool {
    &&& map.dom() == ids_of(markets)
    &&& all_paired(map, cache, markets, lightpool)
}

/// Some market pairs the two instruments.
pub open spec fn is_paired(
    cache: Seq<Instrument>,
    markets: Map<Seq<char>, SlugMarketIds>,
    lightpool: (InstrumentId, InstrumentId),
    pm_id: (Seq<char>, Seq<char>),
    lp_id: InstrumentId,
) -> bool {
    exists|key: Seq<char>| #[trigger]
        markets.dom().contains(key) && pairs(cache, markets[key], lightpool, pm_id, lp_id)
}

/// Every entry pairs two instruments.
pub open spec fn all_paired(
    map: Map<(Seq<char>, Seq<char>), InstrumentId>,
    cache: Seq<Instrument>,
    markets: Map<Seq<char>, SlugMarketIds>,
    lightpool: (InstrumentId, InstrumentId),
) -> bool {
    forall|id: (Seq<char>, Seq<char>)| #[trigger]
        map.dom().contains(id) ==> is_paired(cache, markets, lightpool, id, map[id])
}

/// Label of an instrument's venue.
pub fn venue_label(instrument_id: &InstrumentId) -> (r: &'static str)
    ensures
        r@ == if instrument_id.venue@ == "POLYMARKET"@ {
            "Polymarket"@
        } else if instrument_id.venue@ == "LIGHTPOOL"@ {
            "Lightpool"@
        } else {
            "Unknown"@
        },
{
    if text::same(instrument_id.venue.as_str(), "POLYMARKET") {
        "Polymarket"
    } else if text::same(instrument_id.venue.as_str(), "LIGHTPOOL") {
        "Lightpool"
    } else {
        "Unknown"
    }
}

impl LiquidityMaker {
    /// A batch of deltas is reconciled before it outgrows its size.
    pub open spec fn wf(self) -> bool {
        self.pending_reconcile_delta_count == 0 || self.pending_reconcile_delta_count
            < self.config.reconcile_delta_batch_size
    }

    /// The number of delta batches that were counted for an instrument.
    pub open spec fn counted(self, id: (Seq<char>, Seq<char>)) -> u64 {
        match collections::entry(self.delta_batches@, id) {
            Some(count) => count,
            None => 0,
        }
    }

    /// Polymarket books are logged, at an interval of delta batches.
    pub open spec fn logs_books(self) -> bool {
        self.config.log_polymarket && self.config.log_interval > 0
    }

    /// The Polymarket markets of the first configured event slug.
    pub open spec fn polymarket_markets(self) -> Map<Seq<char>, SlugMarketIds> {
        if self.config.polymarket_slugs@.len() == 0 {
            Map::empty()
        } else {
            markets::markets_of(self.polymarket_slug_markets@, self.config.polymarket_slugs@[0]@)
        }
    }

    /// Creates a strategy that knows no market yet.
    pub fn new(config: LiquidityMakerConfig) -> (r: LiquidityMaker)
        ensures
            r.wf(),
            r.config == config,
            r.polymarket_slug_markets@ == Map::<Seq<char>, TextMap<SlugMarketIds>>::empty(),
            r.slug_to_conditions@ == Map::<Seq<char>, TextSet>::empty(),
            r.lightpool_markets@ == Map::<Seq<char>, SlugMarketIds>::empty(),
            r.instrument_to_market_key@ == Map::<(Seq<char>, Seq<char>), String>::empty(),
            r.subscribed_instruments@ == Set::<(Seq<char>, Seq<char>)>::empty(),
            r.delta_batches@ == Map::<(Seq<char>, Seq<char>), u64>::empty(),
            r.pm_to_lp@ == Map::<(Seq<char>, Seq<char>), InstrumentId>::empty(),
            r.pending_reconcile_pm_instruments@ == Set::<(Seq<char>, Seq<char>)>::empty(),
            r.pending_reconcile_delta_count == 0,
    {
        LiquidityMaker {
            config,
            polymarket_slug_markets: TextMap::new(),
            slug_to_conditions: TextMap::new(),
            lightpool_markets: TextMap::new(),
            instrument_to_market_key: InstrumentMap::new(),
            subscribed_instruments: InstrumentSet::new(),
            delta_batches: InstrumentMap::new(),
            pm_to_lp: InstrumentMap::new(),
            pending_reconcile_pm_instruments: InstrumentSet::new(),
            pending_reconcile_delta_count: 0,
        }
    }

    /// Counts a Polymarket delta, and hands out the instruments to reconcile where it completes a
    /// batch: each instrument with a delta in the batch, once.
    pub fn collect_polymarket_delta_for_reconcile(&mut self, instrument_id: &InstrumentId) -> (r:
        Vec<InstrumentId>)
        requires
            old(self).wf(),
        ensures
            final(self).wf(),
            *final(self) == (LiquidityMaker {
                pending_reconcile_pm_instruments: final(self).pending_reconcile_pm_instruments,
                pending_reconcile_delta_count: final(self).pending_reconcile_delta_count,
                ..*old(self)
            }),
            !old(self).config.trading_enabled ==> {
                &&& r@.len() == 0
                &&& *final(self) == *old(self)
            },
            old(self).config.trading_enabled && old(self).pending_reconcile_delta_count + 1
                >= old(self).config.reconcile_delta_batch_size ==> {
                &&& collections::id_views(r@).no_duplicates()
                &&& collections::id_views(r@).to_set() == old(
                    self,
                ).pending_reconcile_pm_instruments@.insert(instrument_id@)
                &&& final(self).pending_reconcile_pm_instruments@ == Set::<
                    (Seq<char>, Seq<char>),
                >::empty()
                &&& final(self).pending_reconcile_delta_count == 0
            },
            old(self).config.trading_enabled && old(self).pending_reconcile_delta_count + 1 < old(
                self,
            ).config.reconcile_delta_batch_size ==> {
                &&& r@.len() == 0
                &&& final(self).pending_reconcile_pm_instruments@ == old(
                    self,
                ).pending_reconcile_pm_instruments@.insert(instrument_id@)
                &&& final(self).pending_reconcile_delta_count == old(
                    self,
                ).pending_reconcile_delta_count + 1
            },
    {
        if !self.config.trading_enabled {
            return Vec::new();
        }
        let _ = self.pending_reconcile_pm_instruments.insert(instrument_id);
        self.pending_reconcile_delta_count = self.pending_reconcile_delta_count + 1;
        if self.pending_reconcile_delta_count >= self.config.reconcile_delta_batch_size {
            self.reconcile_batched_polymarket_deltas()
        } else {
            Vec::new()
        }
    }

    /// Ends the current batch and hands out the instruments to reconcile.
    pub fn reconcile_batched_polymarket_deltas(&mut self) -> (r: Vec<InstrumentId>)
        ensures
            final(self).wf(),
            *final(self) == (LiquidityMaker {
                pending_reconcile_pm_instruments: final(self).pending_reconcile_pm_instruments,
                pending_reconcile_delta_count: final(self).pending_reconcile_delta_count,
                ..*old(self)
            }),
            final(self).pending_reconcile_pm_instruments@ == Set::<
                (Seq<char>, Seq<char>),
            >::empty(),
            final(self).pending_reconcile_delta_count == 0,
            !old(self).config.trading_enabled ==> r@.len() == 0,
            old(self).config.trading_enabled ==> {
                &&& collections::id_views(r@).no_duplicates()
                &&& collections::id_views(r@).to_set() == old(
                    self,
                ).pending_reconcile_pm_instruments@
            },
    {
        let ids: Vec<InstrumentId> = self.pending_reconcile_pm_instruments.drain();
        self.pending_reconcile_delta_count = 0;
        if !self.config.trading_enabled {
            return Vec::new();
        }
        ids
    }

    /// Counts a delta batch of an instrument and says whether its book is to be logged: once every
    /// `log_interval` batches, never where the interval is zero or Polymarket books are not logged.
    pub fn maybe_log_book(&mut self, instrument_id: &InstrumentId) -> (r: bool)
        requires
            old(self).logs_books() ==> old(self).counted(instrument_id@) < u64::MAX,
        ensures
            !old(self).logs_books() ==> !r && *final(self) == *old(self),
            !old(self).config.log_polymarket || old(self).config.log_interval == 0 ==> !r,
            old(self).config.log_polymarket && old(self).config.log_interval > 0 ==> {
                let count: int = match collections::entry(old(self).delta_batches@, instrument_id@) {
                    Some(count) => count + 1,
                    None => 1,
                };
                &&& collections::entry(final(self).delta_batches@, instrument_id@) == Some(
                    count as u64,
                )
                &&& r <==> count % (old(self).config.log_interval as int) == 0
            },
            old(self).logs_books() ==> {
                let count = (old(self).counted(instrument_id@) + 1) as u64;
                &&& final(self).delta_batches@ == old(self).delta_batches@.insert(
                    instrument_id@,
                    count,
                )
                &&& r == (count % old(self).config.log_interval == 0)
            },
            *final(self) == (LiquidityMaker {
                delta_batches: final(self).delta_batches,
                ..*old(self)
            }),
    {
        if !self.config.log_polymarket || self.config.log_interval == 0 {
            return false;
        }
        let count: u64 = match self.delta_batches.get(instrument_id) {
            Some(count) => *count + 1,
            None => 1,
        };
        let _ = self.delta_batches.insert(instrument_id, count);
        count % self.config.log_interval == 0
    }

    /// Counts a book delta of a Polymarket instrument; deltas of other venues are left alone.
    pub fn on_book_deltas(&mut self, instrument_id: &InstrumentId) -> (r: DeltaOutcome)
        requires
            old(self).wf(),
            old(self).logs_books() ==> old(self).counted(instrument_id@) < u64::MAX,
        ensures
            final(self).wf(),
            *final(self) == (LiquidityMaker {
                delta_batches: final(self).delta_batches,
                pending_reconcile_pm_instruments: final(self).pending_reconcile_pm_instruments,
                pending_reconcile_delta_count: final(self).pending_reconcile_delta_count,
                ..*old(self)
            }),
            instrument_id.venue@ != "POLYMARKET"@ ==> {
                &&& !r.log_book
                &&& r.reconcile@.len() == 0
                &&& *final(self) == *old(self)
            },
            instrument_id.venue@ == "POLYMARKET"@ ==> {
                &&& r.log_book == (old(self).logs_books() && (old(self).counted(instrument_id@)
                    + 1) % old(self).config.log_interval as int == 0)
                &&& final(self).delta_batches@ == if old(self).logs_books() {
                    old(self).delta_batches@.insert(
                        instrument_id@,
                        (old(self).counted(instrument_id@) + 1) as u64,
                    )
                } else {
                    old(self).delta_batches@
                }
            },
            instrument_id.venue@ == "POLYMARKET"@ && old(self).config.trading_enabled && old(
                self,
            ).pending_reconcile_delta_count + 1 >= old(self).config.reconcile_delta_batch_size ==> {
                &&& collections::id_views(r.reconcile@).no_duplicates()
                &&& collections::id_views(r.reconcile@).to_set() == old(
                    self,
                ).pending_reconcile_pm_instruments@.insert(instrument_id@)
                &&& final(self).pending_reconcile_pm_instruments@ == Set::<
                    (Seq<char>, Seq<char>),
                >::empty()
                &&& final(self).pending_reconcile_delta_count == 0
            },
            instrument_id.venue@ == "POLYMARKET"@ && old(self).config.trading_enabled && old(
                self,
            ).pending_reconcile_delta_count + 1 < old(self).config.reconcile_delta_batch_size ==> {
                &&& r.reconcile@.len() == 0
                &&& final(self).pending_reconcile_pm_instruments@ == old(
                    self,
                ).pending_reconcile_pm_instruments@.insert(instrument_id@)
                &&& final(self).pending_reconcile_delta_count == old(
                    self,
                ).pending_reconcile_delta_count + 1
            },
            !old(self).config.trading_enabled ==> {
                &&& r.reconcile@.len() == 0
                &&& final(self).pending_reconcile_pm_instruments == old(
                    self,
                ).pending_reconcile_pm_instruments
                &&& final(self).pending_reconcile_delta_count == old(
                    self,
                ).pending_reconcile_delta_count
            },
    {
        if !text::same(instrument_id.venue.as_str(), "POLYMARKET") {
            return DeltaOutcome { log_book: false, reconcile: Vec::new() };
        }
        let log_book: bool = self.maybe_log_book(instrument_id);
        let reconcile: Vec<InstrumentId> = self.collect_polymarket_delta_for_reconcile(
            instrument_id,
        );
        DeltaOutcome { log_book, reconcile }
    }

    /// Assigns the Polymarket markets in the cache to the configured slugs.
    ///
    /// Returns the number of markets that were not known before.
    pub fn sync_polymarket_markets_from_cache(&mut self, cache: &[Instrument]) -> (r: usize)
        ensures
            *final(self) == (LiquidityMaker {
                polymarket_slug_markets: final(self).polymarket_slug_markets,
                slug_to_conditions: final(self).slug_to_conditions,
                ..*old(self)
            }),
            synced_polymarket(*old(self), *final(self), cache@, r),
    {
        let discovered: TextMap<SlugMarketIds> = markets::discover_markets_from_cache(cache);
        let r: usize = markets::assign_markets_to_slugs(
            self.config.polymarket_slugs.as_slice(),
            &discovered,
            &mut self.polymarket_slug_markets,
            &mut self.slug_to_conditions,
        );
        assert(assigned_to_first_slug(*old(self), *self, discovered@, r));
        r
    }

    /// Assigns the LightPool markets in the cache to the configured slugs.
    ///
    /// Returns the number of slugs that had no market before.
    pub fn sync_lightpool_markets_from_cache(&mut self, cache: &[Instrument]) -> (r: usize)
        ensures
            *final(self) == (LiquidityMaker {
                lightpool_markets: final(self).lightpool_markets,
                ..*old(self)
            }),
            old(self).config.lightpool_slugs@.len() == 0 ==> r == 0 && *final(self) == *old(self),
            exists|discovered: Map<Seq<char>, SlugMarketIds>|
                {
                    &&& #[trigger] markets::are_markets(discovered, cache@, MarketVenue::Lightpool)
                    &&& final(self).lightpool_markets@ == old(
                        self,
                    ).lightpool_markets@.union_prefer_right(
                        discovered.restrict(markets::text_set(old(self).config.lightpool_slugs@)),
                    )
                    &&& r == final(self).lightpool_markets@.dom().len() - old(
                        self,
                    ).lightpool_markets@.dom().len()
                },
    {
        let discovered: TextMap<SlugMarketIds> = markets::discover_lightpool_markets_from_cache(
            cache,
        );
        if self.config.lightpool_slugs.len() == 0 {
            proof {
                assert(markets::text_set(self.config.lightpool_slugs@) =~= Set::<
                    Seq<char>,
                >::empty());
                assert(self.lightpool_markets@ =~= self.lightpool_markets@.union_prefer_right(
                    discovered@.restrict(Set::<Seq<char>>::empty()),
                ));
            }
            return 0;
        }
        markets::assign_lightpool_markets_to_slugs(
            self.config.lightpool_slugs.as_slice(),
            &discovered,
            &mut self.lightpool_markets,
        )
    }

    /// The LightPool instrument paired with a Polymarket instrument.
    pub fn lightpool_for_polymarket(&self, polymarket_instrument_id: &InstrumentId) -> (r: Option<
        InstrumentId,
    >)
        ensures
            r == collections::entry(self.pm_to_lp@, polymarket_instrument_id@),
    {
        match self.pm_to_lp.get(polymarket_instrument_id) {
            Some(id) => Some(id.clone()),
            None => None,
        }
    }

    /// A Polymarket instrument that is paired with a LightPool instrument.
    pub fn polymarket_for_lightpool(&self, lightpool_instrument_id: &InstrumentId) -> (r: Option<
        InstrumentId,
    >)
        ensures
            match r {
                Some(pm) => self.pm_to_lp@.dom().contains(pm@) && self.pm_to_lp@[pm@]@
                    == lightpool_instrument_id@,
                None => forall|pm: (Seq<char>, Seq<char>)| #[trigger]
                    self.pm_to_lp@.dom().contains(pm) ==> self.pm_to_lp@[pm]@
                        != lightpool_instrument_id@,
            },
    {
        let list: &Vec<(InstrumentId, InstrumentId)> = self.pm_to_lp.entries();
        let ghost views = collections::instrument_entries(list@);
        let mut i: usize = 0;
        while i < list.len()
            invariant
                i <= list.len(),
                views == collections::instrument_entries(list@),
                collections::distinct_keys(views),
                collections::map_of(views) == self.pm_to_lp@,
                forall|k: int|
                    0 <= k < i ==> (#[trigger] views[k]).1@ != lightpool_instrument_id@,
            decreases list.len() - i,
        {
            if list[i].1.same(lightpool_instrument_id) {
                proof {
                    collections::lemma_key_position(views, i as int);
                }
                return Some(list[i].0.clone());
            }
            i += 1;
        }
        proof {
            assert forall|pm: (Seq<char>, Seq<char>)| #[trigger]
                self.pm_to_lp@.dom().contains(pm) implies self.pm_to_lp@[pm]@
                != lightpool_instrument_id@ by {
                assert(collections::has_key(views, pm));
                let k = collections::key_position(views, pm);
                assert(views[k].0 == pm);
                collections::lemma_key_position(views, k);
            }
        }
        None
    }
}

/// The ids of the first `n` markets of a list.
spec fn listed_ids(views: Seq<(Seq<char>, SlugMarketIds)>, n: int) -> Set<(Seq<char>, Seq<char>)> {
    Set::new(
        |id: (Seq<char>, Seq<char>)|
            exists|i: int|
                0 <= i < n && ((#[trigger] views[i]).1.yes_id@ == id || views[i].1.no_id@ == id),
    )
}

proof fn lemma_listed_next(views: Seq<(Seq<char>, SlugMarketIds)>, n: int)
    requires
        0 <= n < views.len(),
    ensures
        listed_ids(views, n + 1) == listed_ids(views, n).insert(views[n].1.yes_id@).insert(
            views[n].1.no_id@,
        ),
{
    let a = listed_ids(views, n + 1);
    let b = listed_ids(views, n).insert(views[n].1.yes_id@).insert(views[n].1.no_id@);
    assert forall|id: (Seq<char>, Seq<char>)| #[trigger] a.contains(id) <==> b.contains(id) by {
        if listed_ids(views, n).contains(id) {
            let i = choose|i: int|
                0 <= i < n && ((#[trigger] views[i]).1.yes_id@ == id || views[i].1.no_id@ == id);
            assert(views[i].1.yes_id@ == id || views[i].1.no_id@ == id);
        }
        assert(views[n].1.yes_id@ == views[n].1.yes_id@);
    }
    assert(a =~= b);
}

/// The ids of all entries are the ids of their map.
proof fn lemma_listed_all(views: Seq<(Seq<char>, SlugMarketIds)>)
    requires
        collections::distinct_keys(views),
    ensures
        listed_ids(views, views.len() as int) == ids_of(collections::map_of(views)),
{
    let map = collections::map_of(views);
    let a = listed_ids(views, views.len() as int);
    let b = ids_of(map);
    assert forall|id: (Seq<char>, Seq<char>)| #[trigger] a.contains(id) <==> b.contains(id) by {
        if a.contains(id) {
            let i = choose|i: int|
                0 <= i < views.len() && ((#[trigger] views[i]).1.yes_id@ == id
                    || views[i].1.no_id@ == id);
            collections::lemma_key_position(views, i);
            assert(map.dom().contains(views[i].0));
        }
        if b.contains(id) {
            let key = choose|key: Seq<char>| #[trigger]
                map.dom().contains(key) && (map[key].yes_id@ == id || map[key].no_id@ == id);
            assert(collections::has_key(views, key));
            let i = collections::key_position(views, key);
            assert(views[i].0 == key);
            collections::lemma_key_position(views, i);
        }
    }
    assert(a =~= b);
}

impl LiquidityMaker {
    /// Subscribes an instrument of a market, where it is not subscribed yet.
    fn subscribe_one(
        &mut self,
        id: &InstrumentId,
        market_key: &String,
        subscribe: &mut Vec<InstrumentId>,
    )
        ensures
            *final(self) == (LiquidityMaker {
                instrument_to_market_key: final(self).instrument_to_market_key,
                subscribed_instruments: final(self).subscribed_instruments,
                ..*old(self)
            }),
            final(self).subscribed_instruments@ == old(self).subscribed_instruments@.insert(id@),
            final(subscribe)@ == if old(self).subscribed_instruments@.contains(id@) {
                old(subscribe)@
            } else {
                old(subscribe)@.push(*id)
            },
            final(self).instrument_to_market_key@ == if old(
                self,
            ).subscribed_instruments@.contains(id@) {
                old(self).instrument_to_market_key@
            } else {
                old(self).instrument_to_market_key@.insert(id@, *market_key)
            },
    {
        if self.subscribed_instruments.contains(id) {
            assert(self.subscribed_instruments@.insert(id@) =~= self.subscribed_instruments@);
            return;
        }
        subscribe.push(id.clone());
        let _ = self.instrument_to_market_key.insert(id, market_key.clone());
        let _ = self.subscribed_instruments.insert(id);
    }

    /// Hands out the instruments of the known Polymarket markets that are not subscribed yet, each
    /// once, and counts them as subscribed.
    pub fn reconcile_subscriptions(&mut self) -> (r: Vec<InstrumentId>)
        ensures
            *final(self) == (LiquidityMaker {
                instrument_to_market_key: final(self).instrument_to_market_key,
                subscribed_instruments: final(self).subscribed_instruments,
                ..*old(self)
            }),
            final(self).subscribed_instruments@ == old(self).subscribed_instruments@.union(
                ids_of(old(self).polymarket_markets()),
            ),
            collections::id_views(r@).no_duplicates(),
            collections::id_views(r@).to_set() == ids_of(old(self).polymarket_markets()).difference(
                old(self).subscribed_instruments@,
            ),
            all_named(
                r@,
                final(self).instrument_to_market_key@,
                old(self).polymarket_markets(),
            ),
            others_keep_names(
                r@,
                old(self).instrument_to_market_key@,
                final(self).instrument_to_market_key@,
            ),
    {
        let mut subscribe: Vec<InstrumentId> = Vec::new();
        let ghost known = self.polymarket_markets();
        let ghost start = self.subscribed_instruments@;
        let mut list: Vec<SlugMarketIds> = Vec::new();
        let ghost mut views: Seq<(Seq<char>, SlugMarketIds)> = Seq::empty();
        if self.config.polymarket_slugs.len() > 0 {
            let slug: &String = &self.config.polymarket_slugs[0];
            if let Some(markets_of_slug) = self.polymarket_slug_markets.get(slug.as_str()) {
                let entries: &Vec<(String, SlugMarketIds)> = markets_of_slug.entries();
                proof {
                    views = collections::text_entries(entries@);
                }
                let mut k: usize = 0;
                while k < entries.len()
                    invariant
                        k <= entries.len(),
                        views == collections::text_entries(entries@),
                        list@.len() == k,
                        forall|j: int| 0 <= j < k ==> #[trigger] list@[j] == views[j].1,
                    decreases entries.len() - k,
                {
                    list.push(entries[k].1.clone());
                    k += 1;
                }
            }
        }
        proof {
            assert(collections::map_of(views) =~= known) by {
                if views.len() == 0 {
                    assert(forall|key: Seq<char>| !collections::has_key(views, key));
                }
            }
            assert(listed_ids(views, 0) =~= Set::<(Seq<char>, Seq<char>)>::empty());
            assert(start.union(listed_ids(views, 0)) =~= start);
            assert(collections::id_views(subscribe@).to_set() =~= listed_ids(views, 0).difference(
                start,
            ));
        }
        let mut i: usize = 0;
        while i < list.len()
            invariant
                i <= list.len(),
                list@.len() == views.len(),
                forall|j: int| 0 <= j < list@.len() ==> #[trigger] list@[j] == views[j].1,
                collections::distinct_keys(views),
                collections::map_of(views) == known,
                *self == (LiquidityMaker {
                    instrument_to_market_key: self.instrument_to_market_key,
                    subscribed_instruments: self.subscribed_instruments,
                    ..*old(self)
                }),
                self.subscribed_instruments@ == start.union(listed_ids(views, i as int)),
                collections::id_views(subscribe@).no_duplicates(),
                collections::id_views(subscribe@).to_set() == listed_ids(
                    views,
                    i as int,
                ).difference(start),
                all_named(subscribe@, self.instrument_to_market_key@, known),
                others_keep_names(
                    subscribe@,
                    old(self).instrument_to_market_key@,
                    self.instrument_to_market_key@,
                ),
            decreases list.len() - i,
        {
            let market: &SlugMarketIds = &list[i];
            let ghost key = views[i as int].0;
            let ghost before = *self;
            let ghost before_list = subscribe@;
            proof {
                collections::lemma_key_position(views, i as int);
                lemma_listed_next(views, i as int);
                assert(known.dom().contains(key) && known[key] == *market);
                assert(names_market(known, market.yes_id@, market.condition_id@));
                assert(names_market(known, market.no_id@, market.condition_id@));
            }
            self.subscribe_one(&market.yes_id, &market.condition_id, &mut subscribe);
            proof {
                lemma_subscribed(
                    before.subscribed_instruments@,
                    before_list,
                    start,
                    listed_ids(views, i as int),
                    market.yes_id,
                );
            }
            let ghost middle = *self;
            let ghost middle_list = subscribe@;
            self.subscribe_one(&market.no_id, &market.condition_id, &mut subscribe);
            proof {
                lemma_subscribed(
                    middle.subscribed_instruments@,
                    middle_list,
                    start,
                    listed_ids(views, i as int).insert(market.yes_id@),
                    market.no_id,
                );
                assert forall|id: (Seq<char>, Seq<char>)| #[trigger]
                    collections::id_views(subscribe@).contains(
                        id,
                    ) implies self.instrument_to_market_key@.dom().contains(id) && names_market(
                    known,
                    id,
                    self.instrument_to_market_key@[id]@,
                ) by {
                    if collections::id_views(before_list).contains(id) {
                        assert(before.instrument_to_market_key@.dom().contains(id));
                        lemma_set_member(before_list, id);
                    }
                    lemma_pushed_member(before_list, market.yes_id, id);
                    lemma_pushed_member(middle_list, market.no_id, id);
                }
                assert forall|id: (Seq<char>, Seq<char>)|
                    !collections::id_views(subscribe@).contains(id) implies #[trigger]
                collections::entry(self.instrument_to_market_key@, id) == collections::entry(
                    old(self).instrument_to_market_key@,
                    id,
                ) by {
                    lemma_pushed_member(before_list, market.yes_id, id);
                    lemma_pushed_member(middle_list, market.no_id, id);
                    assert(collections::entry(before.instrument_to_market_key@, id)
                        == collections::entry(old(self).instrument_to_market_key@, id));
                }
            }
            i += 1;
        }
        proof {
            lemma_listed_all(views);
        }
        subscribe
    }
}

proof fn lemma_set_member(items: Seq<InstrumentId>, id: (Seq<char>, Seq<char>))
    ensures
        collections::id_views(items).to_set().contains(id) <==> collections::id_views(
            items,
        ).contains(id),
{
}

proof fn lemma_pushed_member(
    items: Seq<InstrumentId>,
    added: InstrumentId,
    id: (Seq<char>, Seq<char>),
)
    ensures
        collections::id_views(items.push(added)).contains(id) <==> collections::id_views(
            items,
        ).contains(id) || id == added@,
{
    let a = collections::id_views(items.push(added));
    let b = collections::id_views(items);
    assert(a =~= b.push(added@));
    if a.contains(id) {
        let i = choose|i: int| 0 <= i < a.len() && a[i] == id;
        if i < b.len() {
            assert(b[i] == id);
        }
    }
    if b.contains(id) {
        let i = choose|i: int| 0 <= i < b.len() && b[i] == id;
        assert(a[i] == id);
    }
    assert(a[b.len() as int] == added@);
}

/// One more instrument in the set of subscriptions and in the list of new ones.
proof fn lemma_subscribed(
    subscribed: Set<(Seq<char>, Seq<char>)>,
    list: Seq<InstrumentId>,
    start: Set<(Seq<char>, Seq<char>)>,
    ids: Set<(Seq<char>, Seq<char>)>,
    id: InstrumentId,
)
    requires
        subscribed == start.union(ids),
        collections::id_views(list).no_duplicates(),
        collections::id_views(list).to_set() == ids.difference(start),
    ensures
        subscribed.insert(id@) == start.union(ids.insert(id@)),
        ({
            let next = if subscribed.contains(id@) {
                list
            } else {
                list.push(id)
            };
            &&& collections::id_views(next).no_duplicates()
            &&& collections::id_views(next).to_set() == ids.insert(id@).difference(start)
        }),
{
    assert(subscribed.insert(id@) =~= start.union(ids.insert(id@)));
    if subscribed.contains(id@) {
        assert(ids.insert(id@).difference(start) =~= ids.difference(start));
    } else {
        let a = collections::id_views(list.push(id));
        let b = collections::id_views(list);
        assert(a =~= b.push(id@));
        assert(!b.contains(id@)) by {
            assert(b.to_set().contains(id@) <==> b.contains(id@));
        }
        assert forall|x: (Seq<char>, Seq<char>)| #[trigger]
            a.to_set().contains(x) <==> ids.insert(id@).difference(start).contains(x) by {
            lemma_pushed_member(list, id, x);
            assert(b.to_set().contains(x) <==> b.contains(x));
        }
        assert(a.to_set() =~= ids.insert(id@).difference(start));
    }
}

/// The LightPool market that is traded: that of the first configured slug, where trading is on.
pub open spec fn traded_market(maker: LiquidityMaker) -> Option<SlugMarketIds> {
    let slugs = maker.config.lightpool_slugs@;
    if maker.config.lightpool_enabled && maker.config.trading_enabled && slugs.len() > 0 {
        collections::entry(maker.lightpool_markets@, slugs[0]@)
    } else {
        None
    }
}

impl LiquidityMaker {
    /// Pairs the Polymarket instruments of the first event slug with the YES and NO instruments of
    /// the first LightPool slug. Nothing is paired while trading is off or a market is missing.
    pub fn rebuild_instrument_pairs(&mut self, cache: &[Instrument])
        ensures
            *final(self) == (LiquidityMaker { pm_to_lp: final(self).pm_to_lp, ..*old(self) }),
            match traded_market(*old(self)) {
                Some(market) => are_pairs(
                    final(self).pm_to_lp@,
                    cache@,
                    old(self).polymarket_markets(),
                    markets::resolved_pair(cache@, market),
                ),
                None => final(self).pm_to_lp@ == Map::<
                    (Seq<char>, Seq<char>),
                    InstrumentId,
                >::empty(),
            },
    {
        self.pm_to_lp = InstrumentMap::new();
        if !self.config.lightpool_enabled || !self.config.trading_enabled {
            return;
        }
        if self.config.lightpool_slugs.len() == 0 {
            return;
        }
        let lp_market: SlugMarketIds = match self.lightpool_markets.get(
            self.config.lightpool_slugs[0].as_str(),
        ) {
            Some(market) => market.clone(),
            None => {
                return;
            },
        };
        let ghost known = self.polymarket_markets();
        let (lp_yes_id, lp_no_id) = match markets::resolve_yes_no_pair(cache, &lp_market) {
            Some(pair) => pair,
            None => {
                return;
            },
        };
        let ghost lightpool = (lp_yes_id, lp_no_id);
        let mut pairs_map: InstrumentMap<InstrumentId> = InstrumentMap::new();
        if self.config.polymarket_slugs.len() == 0 {
            assert(pairs_map@.dom() =~= ids_of(known));
            return;
        }
        match self.polymarket_slug_markets.get(self.config.polymarket_slugs[0].as_str()) {
            None => {
                assert(pairs_map@.dom() =~= ids_of(known));
                return;
            },
            Some(pm_markets) => {
                let entries: &Vec<(String, SlugMarketIds)> = pm_markets.entries();
                let ghost views = collections::text_entries(entries@);
                let mut i: usize = 0;
                assert(pairs_map@.dom() =~= listed_ids(views, 0));
                while i < entries.len()
                    invariant
                        i <= entries.len(),
                        views == collections::text_entries(entries@),
                        collections::distinct_keys(views),
                        collections::map_of(views) == known,
                        lightpool == (lp_yes_id, lp_no_id),
                        pairs_map@.dom() == listed_ids(views, i as int),
                        all_paired(pairs_map@, cache@, known, lightpool),
                    decreases entries.len() - i,
                {
                    let pm_market: &SlugMarketIds = &entries[i].1;
                    let ghost before = pairs_map@;
                    proof {
                        collections::lemma_key_position(views, i as int);
                        lemma_listed_next(views, i as int);
                    }
                    if let Some((pm_yes_id, pm_no_id)) = markets::resolve_yes_no_pair(
                        cache,
                        pm_market,
                    ) {
                        let _ = pairs_map.insert(&pm_yes_id, lp_yes_id.clone());
                        let _ = pairs_map.insert(&pm_no_id, lp_no_id.clone());
                        proof {
                            assert(pairs_map@.dom() =~= listed_ids(views, i + 1));
                            assert forall|id: (Seq<char>, Seq<char>)| #[trigger]
                                pairs_map@.dom().contains(id) implies is_paired(
                                cache@,
                                known,
                                lightpool,
                                id,
                                pairs_map@[id],
                            ) by {
                                let key = views[i as int].0;
                                assert(known.dom().contains(key));
                                if id == pm_no_id@ || id == pm_yes_id@ {
                                    assert(pairs(
                                        cache@,
                                        known[key],
                                        lightpool,
                                        id,
                                        pairs_map@[id],
                                    ));
                                } else {
                                    assert(before.dom().contains(id));
                                }
                            }
                        }
                    }
                    i += 1;
                }
                proof {
                    lemma_listed_all(views);
                }
            },
        }
        self.pm_to_lp = pairs_map;
    }

    /// Learns the markets in the cache, subscribes their instruments and pairs them.
    ///
    /// Fails where books are not managed, and does nothing then.
    pub fn on_start(&mut self, cache: &[Instrument]) -> (r: Result<StartPlan, StartError>)
        ensures
            r is Err <==> !old(self).config.managed_book,
            r is Err ==> *final(self) == *old(self),
            final(self).config == old(self).config,
            r matches Ok(plan) ==> {
                &&& plan.depth == depth_of(old(self).config)
                &&& plan.depth >= 1
                &&& old(self).config.depth > 0 ==> plan.depth == old(self).config.depth
                &&& collections::id_views(plan.subscribe@).no_duplicates()
                &&& collections::id_views(plan.subscribe@).to_set() == ids_of(
                    final(self).polymarket_markets(),
                ).difference(old(self).subscribed_instruments@)
                &&& match traded_market(*final(self)) {
                    Some(market) => are_pairs(
                        final(self).pm_to_lp@,
                        cache@,
                        final(self).polymarket_markets(),
                        markets::resolved_pair(cache@, market),
                    ),
                    None => final(self).pm_to_lp@.dom() == Set::<(Seq<char>, Seq<char>)>::empty(),
                }
                &&& final(self).subscribed_instruments@ == old(self).subscribed_instruments@.union(
                    ids_of(final(self).polymarket_markets()),
                )
                &&& all_named(
                    plan.subscribe@,
                    final(self).instrument_to_market_key@,
                    final(self).polymarket_markets(),
                )
                &&& others_keep_names(
                    plan.subscribe@,
                    old(self).instrument_to_market_key@,
                    final(self).instrument_to_market_key@,
                )
                &&& final(self).pending_reconcile_pm_instruments == old(
                    self,
                ).pending_reconcile_pm_instruments
                &&& final(self).pending_reconcile_delta_count == old(
                    self,
                ).pending_reconcile_delta_count
                &&& synced_polymarket(*old(self), *final(self), cache@, plan.synced_polymarket)
                &&& synced_lightpool(*old(self), *final(self), cache@, plan.synced_lightpool)
            },
    {
        if !self.config.managed_book {
            return Err(StartError::UnmanagedBook);
        }
        let synced_polymarket: usize = self.sync_polymarket_markets_from_cache(cache);
        let synced_lightpool: usize = self.sync_lightpool_markets_from_cache(cache);
        let subscribe: Vec<InstrumentId> = self.reconcile_subscriptions();
        self.rebuild_instrument_pairs(cache);
        let depth: usize = if self.config.depth == 0 {
            1
        } else {
            self.config.depth
        };
        Ok(StartPlan { synced_polymarket, synced_lightpool, subscribe, depth })
    }

    /// The instruments to unsubscribe when the strategy stops.
    pub fn on_stop(&self) -> (r: Vec<InstrumentId>)
        ensures
            collections::id_views(r@).no_duplicates(),
            collections::id_views(r@).to_set() == self.subscribed_instruments@,
    {
        let items: &Vec<InstrumentId> = self.subscribed_instruments.items();
        let mut r: Vec<InstrumentId> = Vec::new();
        let mut i: usize = 0;
        while i < items.len()
            invariant
                i <= items.len(),
                r@ == items@.take(i as int),
            decreases items.len() - i,
        {
            r.push(items[i].clone());
            i += 1;
        }
        assert(items@.take(items@.len() as int) =~= items@);
        r
    }
}

/// The Polymarket markets in the cache were assigned, `new_count` of them for the first time.
pub open spec fn synced_polymarket(
    before: LiquidityMaker,
    after: LiquidityMaker,
    cache: Seq<Instrument>,
    new_count: usize,
) -> bool {
    exists|discovered: Map<Seq<char>, SlugMarketIds>|
        {
            &&& #[trigger] markets::are_markets(discovered, cache, MarketVenue::Polymarket)
            &&& assigned_to_first_slug(before, after, discovered, new_count)
        }
}

/// Markets were assigned to the first Polymarket slug, `new_count` of them for the first time.
/// Without a slug nothing was.
pub open spec fn assigned_to_first_slug(
    before: LiquidityMaker,
    after: LiquidityMaker,
    discovered: Map<Seq<char>, SlugMarketIds>,
    new_count: usize,
) -> bool {
    if before.config.polymarket_slugs@.len() == 0 {
        &&& new_count == 0
        &&& after.polymarket_slug_markets == before.polymarket_slug_markets
        &&& after.slug_to_conditions == before.slug_to_conditions
    } else {
        let slug = before.config.polymarket_slugs@[0]@;
        let had = before.polymarket_markets();
        let new = discovered.dom().difference(had.dom());
        &&& markets::only_slug_changed(
            before.polymarket_slug_markets@,
            after.polymarket_slug_markets@,
            slug,
        )
        &&& after.polymarket_markets() == had.union_prefer_right(discovered)
        &&& markets::only_slug_changed(
            before.slug_to_conditions@,
            after.slug_to_conditions@,
            slug,
        )
        &&& after.slug_to_conditions@[slug]@ == markets::conditions_of(
            before.slug_to_conditions@,
            slug,
        ).union(new)
        &&& new_count == new.len()
    }
}

/// The LightPool markets in the cache were assigned, `new_count` of them for the first time.
pub open spec fn synced_lightpool(
    before: LiquidityMaker,
    after: LiquidityMaker,
    cache: Seq<Instrument>,
    new_count: usize,
) -> bool {
    exists|discovered: Map<Seq<char>, SlugMarketIds>|
        {
            &&& #[trigger] markets::are_markets(discovered, cache, MarketVenue::Lightpool)
            &&& after.lightpool_markets@ == before.lightpool_markets@.union_prefer_right(
                discovered.restrict(markets::text_set(before.config.lightpool_slugs@)),
            )
            &&& new_count == after.lightpool_markets@.dom().len()
                - before.lightpool_markets@.dom().len()
        }
}

/// Reconciling starts exactly where trading and LightPool are on, there are a reference book and a
/// strategy id, and no own order is on its way.
pub proof fn law_reconciling_starts(config: LiquidityMakerConfig, view: PairView)
    ensures
        skip_reason(config, view) is None <==> config.trading_enabled && config.lightpool_enabled
            && view.reference is Some && view.has_strategy_id && view.inflight == 0,
{
}

/// Everything but placing nothing is sent.
pub proof fn law_what_is_sent(action: ReconcileAction)
    ensures
        is_sent(action) <==> !(action matches ReconcileAction::Place { side, price, quantity }
            && quantity.raw == 0),
{
}

/// Outcomes are mirrored onto the same outcome: the NO instrument of a market onto NO, and its YES
/// instrument onto YES, where they are two instruments and belong to no other market.
pub proof fn law_pairs_keep_the_outcome(
    map: Map<(Seq<char>, Seq<char>), InstrumentId>,
    cache: Seq<Instrument>,
    markets: Map<Seq<char>, SlugMarketIds>,
    lightpool: (InstrumentId, InstrumentId),
    key: Seq<char>,
)
    requires
        are_pairs(map, cache, markets, lightpool),
        markets.dom().contains(key),
        markets[key].yes_id@ != markets[key].no_id@,
        forall|other: Seq<char>| #[trigger]
            markets.dom().contains(other) && other != key ==> markets[other].yes_id@
                != markets[key].yes_id@ && markets[other].yes_id@ != markets[key].no_id@
                && markets[other].no_id@ != markets[key].yes_id@ && markets[other].no_id@
                != markets[key].no_id@,
    ensures
        ({
            let market = markets[key];
            let swapped = markets::outcome_side(cache, market.yes_id@) == OutcomeSide::No
                && markets::outcome_side(cache, market.no_id@) == OutcomeSide::Yes;
            &&& map.dom().contains(market.yes_id@) && map.dom().contains(market.no_id@)
            &&& !swapped ==> map[market.yes_id@] == lightpool.0 && map[market.no_id@]
                == lightpool.1
            &&& swapped ==> map[market.yes_id@] == lightpool.1 && map[market.no_id@]
                == lightpool.0
        }),
{
    let market = markets[key];
    assert(ids_of(markets).contains(market.yes_id@));
    assert(ids_of(markets).contains(market.no_id@));
    let yes_id = market.yes_id@;
    let no_id = market.no_id@;
    assert(is_paired(cache, markets, lightpool, yes_id, map[yes_id]));
    assert(is_paired(cache, markets, lightpool, no_id, map[no_id]));
    let a = choose|a: Seq<char>| #[trigger]
        markets.dom().contains(a) && pairs(cache, markets[a], lightpool, yes_id, map[yes_id]);
    let b = choose|b: Seq<char>| #[trigger]
        markets.dom().contains(b) && pairs(cache, markets[b], lightpool, no_id, map[no_id]);
    assert(a == key);
    assert(b == key);
}

/// The market that is mirrored onto is that of the first LightPool slug, and none while LightPool
/// or trading is off.
pub proof fn law_first_slug_is_traded(maker: LiquidityMaker)
    ensures
        !maker.config.lightpool_enabled || !maker.config.trading_enabled
            || maker.config.lightpool_slugs@.len() == 0 ==> traded_market(maker) is None,
        maker.config.lightpool_enabled && maker.config.trading_enabled
            && maker.config.lightpool_slugs@.len() > 0 && maker.lightpool_markets@.dom().contains(
            maker.config.lightpool_slugs@[0]@,
        ) ==> traded_market(maker) == Some(
            maker.lightpool_markets@[maker.config.lightpool_slugs@[0]@],
        ),
{
}

} // verus!
