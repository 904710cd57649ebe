//! Equity liquidity maker: follows Hyperliquid book deltas and pairs them with LightPool spots.

use vstd::prelude::*;

use crate::collections;
use crate::collections::{InstrumentMap, InstrumentSet};
use crate::model::InstrumentId;
use crate::strategies::equity_liquidity_maker::config::{
    EquityLiquidityMakerConfig, EquityMarketPair,
};
use crate::strategies::liquidity_maker::strategy::DeltaOutcome;
use crate::text;

verus! {

pub const HYPERLIQUID_VENUE: &'static str = "HYPERLIQUID";

/// Mirrors Hyperliquid equity L2 depth onto LightPool spot markets via own orders.
#[derive(Debug)]
pub struct EquityLiquidityMaker {
    pub config: EquityLiquidityMakerConfig,
    pub subscribed_instruments: InstrumentSet,
    /// Deltas by instrument, counted for logging.
    pub delta_batches: InstrumentMap<u64>,
    /// Hyperliquid instrument id -> LightPool spot instrument id.
    pub hl_to_lp: InstrumentMap<InstrumentId>,
    pub pending_reconcile_hl_instruments: InstrumentSet,
    pub pending_reconcile_delta_count: u64,
}

/// The Hyperliquid instrument of a symbol.
pub open spec fn hl_id(symbol: Seq<char>) -> (Seq<char>, Seq<char>) {
    ("xyz:"@ + symbol + "-USD-PERP"@, "HYPERLIQUID"@)
}

/// The LightPool instrument of a symbol.
pub open spec fn lp_id(symbol: Seq<char>) -> (Seq<char>, Seq<char>) {
    (symbol + "-USDT"@, "LIGHTPOOL"@)
}

/// The map pairs the instruments of each symbol, and no others.
pub open spec fn are_equity_pairs(
    map: Map<(Seq<char>, Seq<char>), InstrumentId>,
    markets: Seq<EquityMarketPair>,
) -> bool {
    &&& forall|id: (Seq<char>, Seq<char>)| #[trigger]
        map.dom().contains(id) <==> exists|i: int|
            0 <= i < markets.len() && hl_id((#[trigger] markets[i]).symbol@) == id
    &&& forall|i: int|
        0 <= i < markets.len() ==> map[hl_id((#[trigger] markets[i]).symbol@)]@ == lp_id(
            markets[i].symbol@,
        )
}

/// No two symbols share a Hyperliquid instrument.
pub proof fn law_instruments_tell_symbols_apart(a: Seq<char>, b: Seq<char>)
    requires
        hl_id(a) == hl_id(b),
    ensures
        a == b,
{
    let head = "xyz:"@;
    let tail = "-USD-PERP"@;
    let x = hl_id(a).0;
    assert(x.len() == head.len() + a.len() + tail.len());
    assert(a =~= x.subrange(head.len() as int, (head.len() + a.len()) as int));
    assert(b =~= hl_id(b).0.subrange(head.len() as int, (head.len() + b.len()) as int));
}

/// Why the strategy cannot start.
#[derive(Clone, Copy, Debug, PartialEq, Eq, Structural)]
pub enum EquityStartError {
    UnmanagedBook,
    NoMarkets,
}

impl EquityStartError {
    pub open spec fn text(self) -> Seq<char> {
        match self {
            EquityStartError::UnmanagedBook =>
            "EquityLiquidityMaker requires managed_book=true"@,
            EquityStartError::NoMarkets => "EquityLiquidityMaker requires at least one market"@,
        }
    }

    /// The refusal in words.
    pub fn message(&self) -> (r: &'static str)
        ensures
            r@ == self.text(),
    {
        match self {
            EquityStartError::UnmanagedBook => "EquityLiquidityMaker requires managed_book=true",
            EquityStartError::NoMarkets => "EquityLiquidityMaker requires at least one market",
        }
    }
}

/// The instruments that a map leads to one instrument.
pub open spec fn mirrored_onto(
    map: Map<(Seq<char>, Seq<char>), InstrumentId>,
    lp_id: (Seq<char>, Seq<char>),
) -> Set<(Seq<char>, Seq<char>)> {
    Set::new(|id: (Seq<char>, Seq<char>)| map.dom().contains(id) && map[id]@ == lp_id)
}

/// One of the first `n` entries leads an instrument to another.
spec fn listed_onto(
    views: Seq<((Seq<char>, Seq<char>), InstrumentId)>,
    n: int,
    id: (Seq<char>, Seq<char>),
    lp_id: (Seq<char>, Seq<char>),
) -> bool {
    exists|k: int| 0 <= k < n && (#[trigger] views[k]).0 == id && views[k].1@ == lp_id
}

impl EquityLiquidityMaker {
    /// A batch of deltas is reconciled before it outgrows its size.
    pub open spec fn wf(self) -> bool {
        self.pending_reconcile_delta_count == 0 || self.pending_reconcile_delta_count
            < self.config.reconcile_delta_batch_size
    }

    /// Deltas of an instrument that were counted.
    pub open spec fn counted(self, id: (Seq<char>, Seq<char>)) -> u64 {
        match collections::entry(self.delta_batches@, id) {
            Some(count) => count,
            None => 0,
        }
    }

    pub fn new(config: EquityLiquidityMakerConfig) -> (r: EquityLiquidityMaker)
        ensures
            r.wf(),
            r.config == config,
            r.subscribed_instruments@ == Set::<(Seq<char>, Seq<char>)>::empty(),
            r.delta_batches@ == Map::<(Seq<char>, Seq<char>), u64>::empty(),
            r.hl_to_lp@ == Map::<(Seq<char>, Seq<char>), InstrumentId>::empty(),
            r.pending_reconcile_hl_instruments@ == Set::<(Seq<char>, Seq<char>)>::empty(),
            r.pending_reconcile_delta_count == 0,
    {
        EquityLiquidityMaker {
            config,
            subscribed_instruments: InstrumentSet::new(),
            delta_batches: InstrumentMap::new(),
            hl_to_lp: InstrumentMap::new(),
            pending_reconcile_hl_instruments: InstrumentSet::new(),
            pending_reconcile_delta_count: 0,
        }
    }

    /// `xyz:{symbol}-USD-PERP.HYPERLIQUID`.
    pub fn hl_instrument_id(symbol: &str) -> (r: InstrumentId)
        ensures
            r@ == hl_id(symbol@),
    {
        let mut name: String = text::append("xyz:", symbol);
        name.append("-USD-PERP");
        InstrumentId { symbol: name, venue: HYPERLIQUID_VENUE.to_owned() }
    }

    /// `{symbol}-USDT.LIGHTPOOL`.
    pub fn lp_instrument_id(symbol: &str) -> (r: InstrumentId)
        ensures
            r@ == lp_id(symbol@),
    {
        InstrumentId { symbol: text::append(symbol, "-USDT"), venue: "LIGHTPOOL".to_owned() }
    }

    /// Pairs the Hyperliquid and LightPool instruments of each configured symbol.
    pub fn rebuild_instrument_pairs(&mut self)
        ensures
            *final(self) == (EquityLiquidityMaker { hl_to_lp: final(self).hl_to_lp, ..*old(self) }),
            are_equity_pairs(final(self).hl_to_lp@, old(self).config.markets@),
    {
        let mut pairs: InstrumentMap<InstrumentId> = InstrumentMap::new();
        let ghost all = self.config.markets@;
        assert(are_equity_pairs(pairs@, all.take(0)));
        let mut i: usize = 0;
        while i < self.config.markets.len()
            invariant
                i <= self.config.markets@.len(),
                *self == *old(self),
                all == self.config.markets@,
                are_equity_pairs(pairs@, all.take(i as int)),
            decreases self.config.markets@.len() - i,
        {
            let symbol: &str = self.config.markets[i].symbol.as_str();
            let hl: InstrumentId = EquityLiquidityMaker::hl_instrument_id(symbol);
            let lp: InstrumentId = EquityLiquidityMaker::lp_instrument_id(symbol);
            let ghost before = pairs@;
            let _ = pairs.insert(&hl, lp);
            proof {
                let some = all.take(i as int);
                let more = all.take(i + 1);
                assert(more[i as int].symbol@ == symbol@);
                assert forall|id: (Seq<char>, Seq<char>)| #[trigger]
                    pairs@.dom().contains(id) <==> exists|k: int|
                        0 <= k < more.len() && hl_id((#[trigger] more[k]).symbol@) == id by {
                    if before.dom().contains(id) {
                        let k = choose|k: int|
                            0 <= k < some.len() && hl_id((#[trigger] some[k]).symbol@) == id;
                        assert(more[k] == some[k]);
                    }
                    if exists|k: int|
                        0 <= k < more.len() && hl_id((#[trigger] more[k]).symbol@) == id {
                        let k = choose|k: int|
                            0 <= k < more.len() && hl_id((#[trigger] more[k]).symbol@) == id;
                        if k < i {
                            assert(some[k] == more[k]);
                        }
                    }
                }
                assert forall|k: int| 0 <= k < more.len() implies pairs@[hl_id(
                    (#[trigger] more[k]).symbol@,
                )]@ == lp_id(more[k].symbol@) by {
                    if hl_id(more[k].symbol@) == hl@ {
                        law_instruments_tell_symbols_apart(more[k].symbol@, symbol@);
                    } else {
                        assert(some[k] == more[k]);
                    }
                }
            }
            i += 1;
        }
        assert(all.take(i as int) =~= all);
        self.hl_to_lp = pairs;
    }

    /// The LightPool instrument paired with a Hyperliquid instrument.
    pub fn lightpool_for_hyperliquid(&self, hl_instrument_id: &InstrumentId) -> (r: Option<
        InstrumentId,
    >)
        ensures
            r == collections::entry(self.hl_to_lp@, hl_instrument_id@),
    {
        match self.hl_to_lp.get(hl_instrument_id) {
            Some(id) => Some(id.clone()),
            None => None,
        }
    }

    /// The instruments to reconcile once an own order on an instrument was cancelled: those that are
    /// mirrored onto it.
    pub fn reconcile_after_own_cancel(&self, lp_instrument_id: &InstrumentId) -> (r: Vec<
        InstrumentId,
    >)
        ensures
            collections::id_views(r@).no_duplicates(),
            collections::id_views(r@).to_set() == mirrored_onto(
                self.hl_to_lp@,
                lp_instrument_id@,
            ),
    {
        let list: &Vec<(InstrumentId, InstrumentId)> = self.hl_to_lp.entries();
        let ghost views = collections::instrument_entries(list@);
        let mut r: Vec<InstrumentId> = Vec::new();
        let mut i: usize = 0;
        while i < list.len()
            invariant
                i <= list.len(),
                views == collections::instrument_entries(list@),
                collections::distinct_keys(views),
                collections::id_views(r@).no_duplicates(),
                forall|id: (Seq<char>, Seq<char>)| #[trigger]
                    collections::id_views(r@).contains(id) <==> listed_onto(
                        views,
                        i as int,
                        id,
                        lp_instrument_id@,
                    ),
            decreases list.len() - i,
        {
            let ghost before = collections::id_views(r@);
            if list[i].1.same(lp_instrument_id) {
                r.push(list[i].0.clone());
                proof {
                    let after = collections::id_views(r@);
                    let key = views[i as int].0;
                    assert(after =~= before.push(key));
                    assert(!before.contains(key)) by {
                        if before.contains(key) {
                            assert(listed_onto(views, i as int, key, lp_instrument_id@));
                            let k = choose|k: int|
                                0 <= k < i && (#[trigger] views[k]).0 == key && views[k].1@
                                    == lp_instrument_id@;
                            assert(views[k].0 != views[i as int].0);
                        }
                    }
                    assert(after[before.len() as int] == key);
                    assert forall|id: (Seq<char>, Seq<char>)| #[trigger]
                        after.contains(id) <==> listed_onto(
                            views,
                            i + 1,
                            id,
                            lp_instrument_id@,
                        ) by {
                        if after.contains(id) {
                            let k = choose|k: int| 0 <= k < after.len() && after[k] == id;
                            if k < before.len() {
                                assert(before[k] == id);
                                assert(before.contains(id));
                                assert(listed_onto(views, i as int, id, lp_instrument_id@));
                            } else {
                                assert(views[i as int].0 == id);
                            }
                        }
                        if listed_onto(views, i + 1, id, lp_instrument_id@) && id != key {
                            assert(listed_onto(views, i as int, id, lp_instrument_id@));
                            assert(before.contains(id));
                            let k = choose|k: int| 0 <= k < before.len() && before[k] == id;
                            assert(after[k] == id);
                        }
                    }
                }
            } else {
                proof {
                    assert forall|id: (Seq<char>, Seq<char>)| #[trigger]
                        before.contains(id) <==> listed_onto(
                            views,
                            i + 1,
                            id,
                            lp_instrument_id@,
                        ) by {
                        if listed_onto(views, i as int, id, lp_instrument_id@) {
                            assert(listed_onto(views, i + 1, id, lp_instrument_id@));
                        }
                        if listed_onto(views, i + 1, id, lp_instrument_id@) {
                            assert(listed_onto(views, i as int, id, lp_instrument_id@));
                        }
                    }
                }
            }
            i += 1;
        }
        proof {
            let got = collections::id_views(r@);
            let wanted = mirrored_onto(self.hl_to_lp@, lp_instrument_id@);
            assert forall|id: (Seq<char>, Seq<char>)| #[trigger]
                got.to_set().contains(id) <==> wanted.contains(id) by {
                assert(got.to_set().contains(id) <==> got.contains(id));
                if got.contains(id) {
                    assert(listed_onto(views, views.len() as int, id, lp_instrument_id@));
                    let k = choose|k: int|
                        0 <= k < views.len() && (#[trigger] views[k]).0 == id && views[k].1@
                            == lp_instrument_id@;
                    collections::lemma_key_position(views, k);
                }
                if wanted.contains(id) {
                    assert(collections::has_key(views, id));
                    let k = collections::key_position(views, id);
                    assert(views[k].0 == id);
                    collections::lemma_key_position(views, k);
                    assert(listed_onto(views, views.len() as int, id, lp_instrument_id@));
                }
            }
            assert(got.to_set() =~= wanted);
        }
        r
    }

    /// Counts a Hyperliquid delta, and hands out the instruments to reconcile where it completes a
    /// batch: each instrument with a delta in the batch, once.
    pub fn collect_hl_delta_for_reconcile(&mut self, instrument_id: &InstrumentId) -> (r: Vec<
        InstrumentId,
    >)
        requires
            old(self).wf(),
        ensures
            final(self).wf(),
            *final(self) == (EquityLiquidityMaker {
                pending_reconcile_hl_instruments: final(self).pending_reconcile_hl_instruments,
                pending_reconcile_delta_count: final(self).pending_reconcile_delta_count,
                ..*old(self)
            }),
            is_collected(*old(self), *final(self), r@, instrument_id@),
    {
        let _ = self.pending_reconcile_hl_instruments.insert(instrument_id);
        self.pending_reconcile_delta_count = self.pending_reconcile_delta_count + 1;
        if self.pending_reconcile_delta_count >= self.config.reconcile_delta_batch_size {
            self.reconcile_batched_hl_deltas()
        } else {
            Vec::new()
        }
    }

    /// Ends the current batch and hands out the instruments to reconcile.
    pub fn reconcile_batched_hl_deltas(&mut self) -> (r: Vec<InstrumentId>)
        ensures
            final(self).wf(),
            *final(self) == (EquityLiquidityMaker {
                pending_reconcile_hl_instruments: final(self).pending_reconcile_hl_instruments,
                pending_reconcile_delta_count: 0,
                ..*old(self)
            }),
            final(self).pending_reconcile_hl_instruments@ == Set::<
                (Seq<char>, Seq<char>),
            >::empty(),
            collections::id_views(r@).no_duplicates(),
            collections::id_views(r@).to_set() == old(self).pending_reconcile_hl_instruments@,
    {
        let ids: Vec<InstrumentId> = self.pending_reconcile_hl_instruments.drain();
        self.pending_reconcile_delta_count = 0;
        ids
    }

    /// Hands out the paired Hyperliquid instruments that are not subscribed yet, each once, and
    /// counts them as subscribed.
    pub fn reconcile_subscriptions(&mut self) -> (r: Vec<InstrumentId>)
        ensures
            *final(self) == (EquityLiquidityMaker {
                subscribed_instruments: final(self).subscribed_instruments,
                ..*old(self)
            }),
            final(self).subscribed_instruments@ == old(self).subscribed_instruments@.union(
                old(self).hl_to_lp@.dom(),
            ),
            collections::id_views(r@).no_duplicates(),
            collections::id_views(r@).to_set() == old(self).hl_to_lp@.dom().difference(
                old(self).subscribed_instruments@,
            ),
    {
        let mut subscribe: Vec<InstrumentId> = Vec::new();
        let ghost start = self.subscribed_instruments@;
        let mut ids: Vec<InstrumentId> = Vec::new();
        let entries: &Vec<(InstrumentId, InstrumentId)> = self.hl_to_lp.entries();
        let ghost views = collections::instrument_entries(entries@);
        let mut k: usize = 0;
        while k < entries.len()
            invariant
                k <= entries@.len(),
                views == collections::instrument_entries(entries@),
                ids@.len() == k,
                forall|j: int| 0 <= j < k ==> (#[trigger] ids@[j])@ == views[j].0,
            decreases entries@.len() - k,
        {
            ids.push(entries[k].0.clone());
            k += 1;
        }
        proof {
            assert(collections::id_views(subscribe@).to_set() =~= Set::<
                (Seq<char>, Seq<char>),
            >::empty());
            assert(start.union(key_set(views, 0)) =~= start);
            assert(key_set(views, 0).difference(start) =~= Set::<(Seq<char>, Seq<char>)>::empty());
        }
        let mut i: usize = 0;
        while i < ids.len()
            invariant
                i <= ids@.len(),
                ids@.len() == views.len(),
                forall|j: int| 0 <= j < ids@.len() ==> (#[trigger] ids@[j])@ == views[j].0,
                *self == (EquityLiquidityMaker {
                    subscribed_instruments: self.subscribed_instruments,
                    ..*old(self)
                }),
                self.subscribed_instruments@ == start.union(key_set(views, i as int)),
                collections::id_views(subscribe@).no_duplicates(),
                collections::id_views(subscribe@).to_set() == key_set(
                    views,
                    i as int,
                ).difference(start),
            decreases ids@.len() - i,
        {
            let ghost listed = collections::id_views(subscribe@);
            let ghost id = ids@[i as int]@;
            let ghost had = self.subscribed_instruments@;
            proof {
                lemma_key_set(views, i as int);
                assert(views[i as int].0 == id);
            }
            if !self.subscribed_instruments.contains(&ids[i]) {
                subscribe.push(ids[i].clone());
                let _ = self.subscribed_instruments.insert(&ids[i]);
                proof {
                    let next = collections::id_views(subscribe@);
                    assert(next =~= listed.push(id));
                    assert(!listed.contains(id)) by {
                        if listed.contains(id) {
                            assert(listed.to_set().contains(id));
                        }
                    }
                    lemma_push_set(listed, id);
                }
            }
            proof {
                assert(self.subscribed_instruments@ =~= start.union(key_set(views, i + 1)));
                assert(collections::id_views(subscribe@).to_set() =~= key_set(
                    views,
                    i + 1,
                ).difference(start));
            }
            i += 1;
        }
        proof {
            lemma_all_keys(views);
        }
        subscribe
    }

    /// Counts a delta for logging: every `log_interval`-th of an instrument is logged. An interval
    /// of zero counts none.
    pub fn maybe_log_book(&mut self, instrument_id: &InstrumentId) -> (r: bool)
        requires
            old(self).config.log_interval > 0 ==> old(self).counted(instrument_id@) < u64::MAX,
        ensures
            old(self).config.log_interval == 0 ==> !r && *final(self) == *old(self),
            old(self).config.log_interval > 0 ==> {
                let count = (old(self).counted(instrument_id@) + 1) as u64;
                &&& final(self).delta_batches@ == old(self).delta_batches@.insert(
                    instrument_id@,
                    count,
                )
                &&& r == (count % old(self).config.log_interval == 0)
            },
            *final(self) == (EquityLiquidityMaker {
                delta_batches: final(self).delta_batches,
                ..*old(self)
            }),
    {
        if self.config.log_interval == 0 {
            return false;
        }
        let count: u64 = match self.delta_batches.get(instrument_id) {
            Some(count) => *count + 1,
            None => 1,
        };
        let _ = self.delta_batches.insert(instrument_id, count);
        count % self.config.log_interval == 0
    }

    /// Pairs and subscribes the configured symbols.
    ///
    /// Fails where books are not managed or no symbol is configured, and does nothing then.
    pub fn on_start(&mut self) -> (r: Result<Vec<InstrumentId>, EquityStartError>)
        ensures
            if !old(self).config.managed_book {
                r == Err::<Vec<InstrumentId>, EquityStartError>(EquityStartError::UnmanagedBook)
                    && *final(self) == *old(self)
            } else if old(self).config.markets@.len() == 0 {
                r == Err::<Vec<InstrumentId>, EquityStartError>(EquityStartError::NoMarkets)
                    && *final(self) == *old(self)
            } else {
                &&& r is Ok
                &&& are_equity_pairs(final(self).hl_to_lp@, old(self).config.markets@)
                &&& collections::id_views(r->Ok_0@).no_duplicates()
                &&& collections::id_views(r->Ok_0@).to_set() == final(self).hl_to_lp@.dom().difference(old(self).subscribed_instruments@)
                &&& final(self).subscribed_instruments@ == old(
                    self,
                ).subscribed_instruments@.union(final(self).hl_to_lp@.dom())
            },
            *final(self) == (EquityLiquidityMaker {
                hl_to_lp: final(self).hl_to_lp,
                subscribed_instruments: final(self).subscribed_instruments,
                ..*old(self)
            }),
    {
        if !self.config.managed_book {
            return Err(EquityStartError::UnmanagedBook);
        }
        if self.config.markets.len() == 0 {
            return Err(EquityStartError::NoMarkets);
        }
        self.rebuild_instrument_pairs();
        Ok(self.reconcile_subscriptions())
    }

    /// The instruments to unsubscribe when the strategy stops.
    pub fn on_stop(&self) -> (r: Vec<InstrumentId>)
        ensures
            collections::id_views(r@).no_duplicates(),
            collections::id_views(r@).to_set() == self.subscribed_instruments@,
    {
        let items: &Vec<InstrumentId> = self.subscribed_instruments.items();
        let mut r: Vec<InstrumentId> = Vec::new();
        let mut i: usize = 0;
        while i < items.len()
            invariant
                i <= items.len(),
                r@ == items@.take(i as int),
            decreases items.len() - i,
        {
            r.push(items[i].clone());
            i += 1;
        }
        assert(items@.take(items@.len() as int) =~= items@);
        r
    }

    /// Counts a book delta of a Hyperliquid instrument; deltas of other venues are left alone.
    pub fn on_book_deltas(&mut self, instrument_id: &InstrumentId) -> (r: DeltaOutcome)
        requires
            old(self).wf(),
            old(self).config.log_interval > 0 ==> old(self).counted(instrument_id@) < u64::MAX,
        ensures
            final(self).wf(),
            final(self).config == old(self).config,
            final(self).hl_to_lp == old(self).hl_to_lp,
            final(self).subscribed_instruments == old(self).subscribed_instruments,
            instrument_id.venue@ != HYPERLIQUID_VENUE@ ==> {
                &&& !r.log_book
                &&& r.reconcile@.len() == 0
                &&& *final(self) == *old(self)
            },
            instrument_id.venue@ == HYPERLIQUID_VENUE@ ==> {
                &&& is_collected(*old(self), *final(self), r.reconcile@, instrument_id@)
                &&& r.log_book == (old(self).config.log_interval > 0 && (old(self).counted(
                    instrument_id@,
                ) + 1) % old(self).config.log_interval as int == 0)
                &&& final(self).delta_batches@ == if old(self).config.log_interval > 0 {
                    old(self).delta_batches@.insert(
                        instrument_id@,
                        (old(self).counted(instrument_id@) + 1) as u64,
                    )
                } else {
                    old(self).delta_batches@
                }
            },
    {
        if !text::same(instrument_id.venue.as_str(), HYPERLIQUID_VENUE) {
            return DeltaOutcome { log_book: false, reconcile: Vec::new() };
        }
        let log_book: bool = self.maybe_log_book(instrument_id);
        let reconcile: Vec<InstrumentId> = self.collect_hl_delta_for_reconcile(instrument_id);
        DeltaOutcome { log_book, reconcile }
    }
}

/// A delta was counted: it completed the batch, whose instruments are handed out, or it joined it.
pub open spec fn is_collected(
    before: EquityLiquidityMaker,
    after: EquityLiquidityMaker,
    handed: Seq<InstrumentId>,
    id: (Seq<char>, Seq<char>),
) -> bool {
    let pending = before.pending_reconcile_hl_instruments@.insert(id);
    if before.pending_reconcile_delta_count + 1 >= before.config.reconcile_delta_batch_size {
        &&& collections::id_views(handed).no_duplicates()
        &&& collections::id_views(handed).to_set() == pending
        &&& after.pending_reconcile_hl_instruments@ == Set::<(Seq<char>, Seq<char>)>::empty()
        &&& after.pending_reconcile_delta_count == 0
    } else {
        &&& handed.len() == 0
        &&& after.pending_reconcile_hl_instruments@ == pending
        &&& after.pending_reconcile_delta_count == before.pending_reconcile_delta_count + 1
    }
}

/// The keys of the first `n` entries.
spec fn key_set<V>(views: Seq<((Seq<char>, Seq<char>), V)>, n: int) -> Set<(Seq<char>, Seq<char>)> {
    Set::new(
        |id: (Seq<char>, Seq<char>)| exists|i: int| 0 <= i < n && (#[trigger] views[i]).0 == id,
    )
}

proof fn lemma_key_set<V>(views: Seq<((Seq<char>, Seq<char>), V)>, n: int)
    requires
        0 <= n < views.len(),
    ensures
        key_set(views, n + 1) == key_set(views, n).insert(views[n].0),
{
    let a = key_set(views, n + 1);
    let b = key_set(views, n).insert(views[n].0);
    assert forall|id: (Seq<char>, Seq<char>)| #[trigger] a.contains(id) <==> b.contains(id) by {
        if key_set(views, n).contains(id) {
            let i = choose|i: int| 0 <= i < n && (#[trigger] views[i]).0 == id;
            assert(views[i].0 == id);
        }
        assert(views[n].0 == views[n].0);
    }
    assert(a =~= b);
}

proof fn lemma_all_keys<V>(views: Seq<((Seq<char>, Seq<char>), V)>)
    ensures
        key_set(views, views.len() as int) == collections::map_of(views).dom(),
{
    let a = key_set(views, views.len() as int);
    let b = collections::map_of(views).dom();
    assert forall|id: (Seq<char>, Seq<char>)| #[trigger] a.contains(id) <==> b.contains(id) by {
        if a.contains(id) {
            let i = choose|i: int| 0 <= i < views.len() && (#[trigger] views[i]).0 == id;
            assert(views[i].0 == id);
            assert(collections::has_key(views, id));
        }
    }
    assert(a =~= b);
}

proof fn lemma_push_set<T>(items: Seq<T>, item: T)
    requires
        items.no_duplicates(),
        !items.contains(item),
    ensures
        items.push(item).no_duplicates(),
        items.push(item).to_set() == items.to_set().insert(item),
{
    let next = items.push(item);
    assert forall|x: T| #[trigger] next.contains(x) <==> items.contains(x) || x == item by {
        if items.contains(x) {
            let i = choose|i: int| 0 <= i < items.len() && items[i] == x;
            assert(next[i] == x);
        }
        assert(next[items.len() as int] == item);
    }
    assert forall|a: int, b: int|
        0 <= a < next.len() && 0 <= b < next.len() && a != b implies next[a] != next[b] by {
        if a == items.len() {
            assert(items.contains(items[b]));
        } else if b == items.len() {
            assert(items.contains(items[a]));
        }
    }
    assert(next.to_set() =~= items.to_set().insert(item));
}

/// Every symbol is mirrored from its Hyperliquid perpetual onto its LightPool spot, and nothing else
/// is.
pub proof fn law_symbols_are_mirrored(
    map: Map<(Seq<char>, Seq<char>), InstrumentId>,
    markets: Seq<EquityMarketPair>,
    i: int,
)
    requires
        are_equity_pairs(map, markets),
        0 <= i < markets.len(),
    ensures
        ({
            let source = ("xyz:"@ + markets[i].symbol@ + "-USD-PERP"@, "HYPERLIQUID"@);
            &&& map.dom().contains(source)
            &&& map[source]@ == (markets[i].symbol@ + "-USDT"@, "LIGHTPOOL"@)
        }),
        forall|id: (Seq<char>, Seq<char>)| #[trigger]
            map.dom().contains(id) ==> id.1 == "HYPERLIQUID"@,
{
    assert(hl_id(markets[i].symbol@) == hl_id(markets[i].symbol@));
    assert(map.dom().contains(hl_id(markets[i].symbol@)));
}

/// Batches are full before they are handed out: a delta joins its batch, and the one that fills it
/// hands out every instrument of the batch and starts an empty one.
pub proof fn law_batches_are_handed_out_when_full(
    before: EquityLiquidityMaker,
    after: EquityLiquidityMaker,
    handed: Seq<InstrumentId>,
    id: (Seq<char>, Seq<char>),
)
    requires
        is_collected(before, after, handed, id),
        before.config.reconcile_delta_batch_size > 0,
    ensures
        before.pending_reconcile_delta_count + 1 < before.config.reconcile_delta_batch_size ==> {
            &&& handed.len() == 0
            &&& after.pending_reconcile_delta_count == before.pending_reconcile_delta_count + 1
            &&& after.pending_reconcile_hl_instruments@.contains(id)
            &&& before.pending_reconcile_hl_instruments@.subset_of(
                after.pending_reconcile_hl_instruments@,
            )
        },
        before.pending_reconcile_delta_count + 1 >= before.config.reconcile_delta_batch_size ==> {
            &&& collections::id_views(handed).contains(id)
            &&& forall|other: (Seq<char>, Seq<char>)| #[trigger]
                before.pending_reconcile_hl_instruments@.contains(other) ==> collections::id_views(
                    handed,
                ).contains(other)
            &&& after.pending_reconcile_delta_count == 0
            &&& !after.pending_reconcile_hl_instruments@.contains(id)
        },
{
    if before.pending_reconcile_delta_count + 1 >= before.config.reconcile_delta_batch_size {
        let set = collections::id_views(handed).to_set();
        assert(set.contains(id));
        assert forall|other: (Seq<char>, Seq<char>)| #[trigger]
            before.pending_reconcile_hl_instruments@.contains(
                other,
            ) implies collections::id_views(handed).contains(other) by {
            assert(set.contains(other));
        }
    }
}

/// The instruments that are mirrored onto one are those that map to it.
pub proof fn law_instruments_mirrored_onto_one(
    map: Map<(Seq<char>, Seq<char>), InstrumentId>,
    id: (Seq<char>, Seq<char>),
    other: (Seq<char>, Seq<char>),
)
    requires
        map.dom().contains(id),
    ensures
        mirrored_onto(map, map[id]@).contains(id),
        mirrored_onto(map, other).contains(id) ==> map[id]@ == other,
        forall|x: (Seq<char>, Seq<char>)| #[trigger]
            mirrored_onto(map, other).contains(x) ==> map.dom().contains(x),
{
}

} // verus!
