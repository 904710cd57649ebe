//! Which own order a message of the user stream speaks of, and what it says of the order.

use vstd::hash_map::StringHashMap;
use vstd::prelude::*;

use crate::decimal;
use crate::execution::events;
use crate::execution::events::{ChangeView, Fill, FillView, OrderChange, OrderEvent};
use crate::fixed;
use crate::fixed::{Price, Quantity};
use crate::model::{LiquiditySide, Order, OrderSide, OrderStatus};
use crate::params;
use crate::text;
use crate::websocket::models::{UserOrderMessage, UserTradeMessage};

verus! {

/// Own orders, by where they rest on chain and by client order id.
pub struct OrderTracker {
    tracked_orders: StringHashMap<Order>,
    cloid_orders: StringHashMap<Order>,
}

/// Every order is valid.
pub open spec fn orders_valid(orders: Map<Seq<char>, Order>) -> bool {
    forall|key: Seq<char>| #[trigger] orders.dom().contains(key) ==> orders[key].valid()
}

/// The name of a spot market: that of its contract, or the text without white space around it.
pub open spec fn market_name(contract: Option<Seq<char>>, spot_market: Seq<char>) -> Seq<char> {
    match contract {
        Some(name) => name,
        None => text::trimmed(spot_market),
    }
}

/// The key of a chain order: `market:order`.
pub open spec fn order_key(market: Seq<char>, chain_order_id: Seq<char>) -> Seq<char> {
    market.push(':') + chain_order_id
}

/// The spot market that a message names, where it names one: the name under which its orders are
/// tracked.
pub open spec fn message_market(
    spot_market: Option<Seq<char>>,
    contract: Option<Seq<char>>,
) -> Option<Seq<char>> {
    match spot_market {
        Some(market) => if market.len() > 0 {
            Some(market_name(contract, market))
        } else {
            None
        },
        None => None,
    }
}

/// The order that a message speaks of: the one tracked at its market and chain id, or else the one
/// with its client order id.
pub open spec fn resolved(
    resting: Map<Seq<char>, Order>,
    cloids: Map<Seq<char>, Order>,
    market: Option<Seq<char>>,
    chain_order_id: Seq<char>,
    cloid: Option<Seq<char>>,
) -> Option<Order> {
    if is_tracked(resting, market, chain_order_id) {
        Some(resting[order_key(market->Some_0, chain_order_id)])
    } else if cloid is Some && cloid->Some_0.len() > 0 && cloids.dom().contains(cloid->Some_0) {
        Some(cloids[cloid->Some_0])
    } else {
        None
    }
}

/// An order is tracked at the market and chain id.
pub open spec fn is_tracked(
    resting: Map<Seq<char>, Order>,
    market: Option<Seq<char>>,
    chain_order_id: Seq<char>,
) -> bool {
    market is Some && resting.dom().contains(order_key(market->Some_0, chain_order_id))
}

/// The tracked orders once a message has been resolved: an order found by its client order id is
/// tracked from then on.
pub open spec fn tracked_after(
    resting: Map<Seq<char>, Order>,
    cloids: Map<Seq<char>, Order>,
    market: Option<Seq<char>>,
    chain_order_id: Seq<char>,
    cloid: Option<Seq<char>>,
) -> Map<Seq<char>, Order> {
    match resolved(resting, cloids, market, chain_order_id, cloid) {
        Some(order) => if market is Some && !is_tracked(resting, market, chain_order_id) {
            resting.insert(order_key(market->Some_0, chain_order_id), order)
        } else {
            resting
        },
        None => resting,
    }
}

/// An order found by its client order id is accepted by the venue.
pub open spec fn acceptance(
    resting: Map<Seq<char>, Order>,
    cloids: Map<Seq<char>, Order>,
    market: Option<Seq<char>>,
    chain_order_id: Seq<char>,
    cloid: Option<Seq<char>>,
) -> Seq<(Seq<char>, ChangeView)> {
    match resolved(resting, cloids, market, chain_order_id, cloid) {
        Some(order) => if is_tracked(resting, market, chain_order_id) {
            Seq::empty()
        } else {
            seq![
                (
                    order.client_order_id@,
                    ChangeView::Accepted { venue_order_id: chain_order_id },
                ),
            ]
        },
        None => Seq::empty(),
    }
}

/// The label of an order side in clob-index queries.
pub open spec fn side_label(side: OrderSide) -> Option<Seq<char>> {
    match side {
        OrderSide::Buy => Some("buy"@),
        OrderSide::Sell => Some("sell"@),
        OrderSide::NoOrderSide => None,
    }
}

pub fn order_side_label(side: OrderSide) -> (r: Option<&'static str>)
    ensures
        params::text_view(r) == side_label(side),
{
    match side {
        OrderSide::Buy => Some("buy"),
        OrderSide::Sell => Some("sell"),
        OrderSide::NoOrderSide => None,
    }
}

/// The status of an order from its index status: open orders with fills are partially filled, and
/// unknown statuses count as accepted.
pub open spec fn status_of(status: Seq<char>, filled_raw: u64) -> OrderStatus {
    if status == "filled"@ {
        OrderStatus::Filled
    } else if status == "cancelled"@ {
        OrderStatus::Canceled
    } else if status == "partial_filled"@ || (status == "open"@ && filled_raw > 0) {
        OrderStatus::PartiallyFilled
    } else {
        OrderStatus::Accepted
    }
}

pub fn map_index_status(status: &str, filled_raw: u64) -> (r: OrderStatus)
    ensures
        r == status_of(status@, filled_raw),
{
    if text::same(status, "filled") {
        OrderStatus::Filled
    } else if text::same(status, "cancelled") {
        OrderStatus::Canceled
    } else if text::same(status, "partial_filled") || (text::same(status, "open") && filled_raw
        > 0) {
        OrderStatus::PartiallyFilled
    } else {
        OrderStatus::Accepted
    }
}

/// The key of a chain order. `contract` is the name of the contract that the market's text reads
/// as, where it reads as one.
pub fn chain_order_key(spot_market: &str, contract: Option<&str>, chain_order_id: &str) -> (r:
    String)
    ensures
        r@ == order_key(market_name(params::text_view(contract), spot_market@), chain_order_id@),
{
    let mut key: String = match contract {
        Some(name) => name.to_owned(),
        None => text::trim(spot_market),
    };
    key.push(':');
    key.append(chain_order_id);
    key
}

/// A message may leave it open whether the venue got the request.
pub open spec fn is_uncertain(message: Seq<char>) -> bool {
    let m = text::lower(message);
    ||| text::has_part(m, "504"@)
    ||| text::has_part(m, "timed out"@)
    ||| text::has_part(m, "timeout"@)
    ||| text::has_part(m, "connection"@)
    ||| text::has_part(m, "connect failed"@)
    ||| text::has_part(m, "error sending request"@)
}

/// Whether a failed submit may still have reached the chain.
pub fn submit_result_is_uncertain(error: &str) -> (r: bool)
    ensures
        r == is_uncertain(error@),
{
    let lower: String = text::to_ascii_lowercase(error);
    let m: &str = lower.as_str();
    text::contains(m, "504") || text::contains(m, "timed out") || text::contains(m, "timeout")
        || text::contains(m, "connection") || text::contains(m, "connect failed")
        || text::contains(m, "error sending request")
}

/// Whether an error says that the chain has no such order.
pub fn chain_order_missing(error: &str) -> (r: bool)
    ensures
        r == text::has_part(error@, "Order meta not found"@),
{
    text::contains(error, "Order meta not found")
}

/// The quantity of a reported fill, at the precision of the order.
///
/// A positive fill counts, up to what is left of the order. Where none is reported, an order that
/// is fully filled fills what is left.
pub open spec fn fill_quantity(order: Order, reported: Seq<char>, fully_filled: bool) -> Option<
    Quantity,
> {
    let leaves = order.leaves_qty;
    let aligned = match fixed::parsed_quantity(reported) {
        Some((raw, precision)) => fixed::quantity_of(
            Quantity { raw, precision }.decimal(),
            order.quantity.precision,
        ),
        None => None,
    };
    if aligned is Some && aligned->Some_0.raw > 0 {
        if leaves.raw > 0 && aligned->Some_0.raw > leaves.raw {
            Some(leaves)
        } else {
            aligned
        }
    } else if fully_filled && leaves.raw > 0 {
        Some(leaves)
    } else {
        None
    }
}

pub fn fill_quantity_for_order(order: &Order, reported: &str, fully_filled: bool) -> (r: Option<
    Quantity,
>)
    requires
        order.valid(),
    ensures
        r == fill_quantity(*order, reported@, fully_filled),
        r matches Some(q) ==> q.valid() && q.raw > 0 && (order.leaves_qty.raw > 0 ==> q.raw
            <= order.leaves_qty.raw),
        ({
            let leaves = order.leaves_qty;
            match fixed::parsed_quantity(reported@) {
                Some((raw, precision)) => {
                    &&& raw > 0 && precision <= order.quantity.precision && (leaves.raw == 0 || raw
                        <= leaves.raw) ==> r == Some(
                        Quantity { raw, precision: order.quantity.precision },
                    )
                    &&& raw > 0 && precision <= order.quantity.precision && 0 < leaves.raw < raw
                        ==> r == Some(leaves)
                    &&& raw == 0 ==> r == if fully_filled && leaves.raw > 0 {
                        Some(leaves)
                    } else {
                        None
                    }
                    &&& (r matches Some(q) && q != leaves) ==> -fixed::raw_unit(
                        order.quantity.precision as int,
                    ) <= 2 * (r->Some_0.raw - raw) <= fixed::raw_unit(
                        order.quantity.precision as int,
                    )
                    &&& fixed::raw_unit(order.quantity.precision as int) < 2 * raw <= 2 * leaves.raw
                        - fixed::raw_unit(order.quantity.precision as int) ==> {
                        &&& r is Some
                        &&& r->Some_0.precision == order.quantity.precision
                        &&& -fixed::raw_unit(order.quantity.precision as int) <= 2 * (r->Some_0.raw
                            - raw) <= fixed::raw_unit(order.quantity.precision as int)
                    }
                    &&& 0 < 2 * leaves.raw < 2 * raw - fixed::raw_unit(
                        order.quantity.precision as int,
                    ) && 2 * raw + fixed::raw_unit(order.quantity.precision as int) <= 2
                        * fixed::QUANTITY_RAW_MAX ==> r == Some(leaves)
                    &&& 2 * raw < fixed::raw_unit(order.quantity.precision as int) ==> r == if fully_filled
                        && leaves.raw > 0 {
                        Some(leaves)
                    } else {
                        None
                    }
                },
                None => r == if fully_filled && leaves.raw > 0 {
                    Some(leaves)
                } else {
                    None
                },
            }
        }),
{
    let leaves: Quantity = order.leaves_qty;
    if let Some(parsed) = Quantity::parse(reported) {
        proof {
            fixed::lemma_realigned(parsed, order.quantity.precision as int);
            if parsed.raw == 0 {
                lemma_zero_stays(parsed, order.quantity.precision as int);
            }
        }
        if let Ok(aligned) = Quantity::from_decimal_dp(
            parsed.as_decimal(),
            order.quantity.precision,
        ) {
            if aligned.is_positive() {
                if leaves.is_positive() && aligned.raw > leaves.raw {
                    return Some(leaves);
                }
                return Some(aligned);
            }
        }
    }
    if fully_filled && leaves.is_positive() {
        return Some(leaves);
    }
    None
}

/// The fill that closes an order, where something is left of it and it has a price.
pub open spec fn closing_fill(order: Order, venue_order_id: Seq<char>, block_num: u64) -> Seq<
    (Seq<char>, ChangeView),
> {
    if order.leaves_qty.raw > 0 && order.price is Some {
        seq![
            (
                order.client_order_id@,
                ChangeView::Filled {
                    venue_order_id,
                    fill: FillView {
                        trade_id: events::trade_id(venue_order_id, block_num as nat, "filled"@),
                        last_qty: order.leaves_qty,
                        last_px: order.price->Some_0,
                        liquidity: LiquiditySide::Maker,
                    },
                },
            ),
        ]
    } else {
        Seq::empty()
    }
}

/// The fill of an order that matched in full when it was submitted, where it has a price.
pub open spec fn submit_fill(order: Order, venue_order_id: Seq<char>) -> Seq<
    (Seq<char>, ChangeView),
> {
    match order.price {
        Some(last_px) => seq![
            (
                order.client_order_id@,
                ChangeView::Filled {
                    venue_order_id,
                    fill: FillView {
                        trade_id: events::trade_id(venue_order_id, 0, "submit-fill"@),
                        last_qty: order.quantity,
                        last_px,
                        liquidity: LiquiditySide::Taker,
                    },
                },
            ),
        ],
        None => Seq::empty(),
    }
}

fn fill_event(
    order: &Order,
    venue_order_id: &str,
    trade_id: String,
    last_qty: Quantity,
    last_px: Price,
    liquidity: LiquiditySide,
) -> (r: OrderEvent)
    ensures
        r@ == (
            order.client_order_id@,
            ChangeView::Filled {
                venue_order_id: venue_order_id@,
                fill: FillView { trade_id: trade_id@, last_qty, last_px, liquidity },
            },
        ),
{
    events::order_event(
        order,
        OrderChange::Filled {
            venue_order_id: venue_order_id.to_owned(),
            fill: Fill { trade_id, last_qty, last_px, liquidity },
        },
    )
}

/// The fill that closes an order.
pub fn emit_closing_fill(order: &Order, venue_order_id: &str, block_num: u64) -> (r: Vec<
    OrderEvent,
>)
    requires
        events::is_ascii_text(venue_order_id@),
    ensures
        events::event_views(r@) == closing_fill(*order, venue_order_id@, block_num),
{
    let mut r: Vec<OrderEvent> = Vec::new();
    if order.leaves_qty.is_positive() {
        if let Some(last_px) = order.price {
            proof {
                reveal_strlit("filled");
            }
            let trade_id: String = events::lightpool_trade_id(venue_order_id, block_num, "filled");
            r.push(
                fill_event(
                    order,
                    venue_order_id,
                    trade_id,
                    order.leaves_qty,
                    last_px,
                    LiquiditySide::Maker,
                ),
            );
        }
    }
    assert(events::event_views(r@) =~= closing_fill(*order, venue_order_id@, block_num));
    r
}

/// The fill of an order that matched in full when it was submitted.
pub fn emit_submit_fill(order: &Order, venue_order_id: &str) -> (r: Vec<OrderEvent>)
    requires
        events::is_ascii_text(venue_order_id@),
    ensures
        events::event_views(r@) == submit_fill(*order, venue_order_id@),
{
    let mut r: Vec<OrderEvent> = Vec::new();
    if let Some(last_px) = order.price {
        proof {
            reveal_strlit("submit-fill");
        }
        let trade_id: String = events::lightpool_trade_id(venue_order_id, 0, "submit-fill");
        r.push(
            fill_event(
                order,
                venue_order_id,
                trade_id,
                order.quantity,
                last_px,
                LiquiditySide::Taker,
            ),
        );
    }
    assert(events::event_views(r@) =~= submit_fill(*order, venue_order_id@));
    r
}

impl OrderTracker {
    /// Orders by where they rest on chain.
    pub closed spec fn resting(self) -> Map<Seq<char>, Order> {
        self.tracked_orders@
    }

    /// Orders by client order id.
    pub closed spec fn cloids(self) -> Map<Seq<char>, Order> {
        self.cloid_orders@
    }

    /// All orders are valid.
    pub open spec fn wf(self) -> bool {
        orders_valid(self.resting()) && orders_valid(self.cloids())
    }

    pub fn new() -> (r: OrderTracker)
        ensures
            r.wf(),
            r.resting() == Map::<Seq<char>, Order>::empty(),
            r.cloids() == Map::<Seq<char>, Order>::empty(),
    {
        OrderTracker { tracked_orders: StringHashMap::new(), cloid_orders: StringHashMap::new() }
    }

    /// Tracks an order at its spot market and chain id.
    pub fn track_order(
        &mut self,
        spot_market: &str,
        contract: Option<&str>,
        chain_order_id: &str,
        order: &Order,
    )
        requires
            old(self).wf(),
            order.valid(),
        ensures
            final(self).wf(),
            final(self).cloids() == old(self).cloids(),
            final(self).resting() == old(self).resting().insert(
                order_key(market_name(params::text_view(contract), spot_market@), chain_order_id@),
                *order,
            ),
    {
        let key: String = chain_order_key(spot_market, contract, chain_order_id);
        self.tracked_orders.insert(key, order.clone());
    }

    /// Remembers an order by its client order id, where it has one.
    pub fn cache_cloid(&mut self, cloid: &str, order: &Order)
        requires
            old(self).wf(),
            order.valid(),
        ensures
            final(self).wf(),
            final(self).resting() == old(self).resting(),
            final(self).cloids() == if cloid@.len() == 0 {
                old(self).cloids()
            } else {
                old(self).cloids().insert(cloid@, *order)
            },
    {
        if cloid.unicode_len() == 0 {
            return;
        }
        self.cloid_orders.insert(cloid.to_owned(), order.clone());
    }

    /// Forgets a client order id.
    pub fn remove_cloid(&mut self, cloid: &str)
        requires
            old(self).wf(),
        ensures
            final(self).wf(),
            final(self).resting() == old(self).resting(),
            final(self).cloids() == old(self).cloids().remove(cloid@),
    {
        self.cloid_orders.remove(cloid);
    }

    /// The order tracked at a spot market and chain id.
    pub fn tracked_order(
        &self,
        spot_market: &str,
        contract: Option<&str>,
        chain_order_id: &str,
    ) -> (r: Option<Order>)
        ensures
            r == crate::collections::entry(
                self.resting(),
                order_key(market_name(params::text_view(contract), spot_market@), chain_order_id@),
            ),
    {
        let key: String = chain_order_key(spot_market, contract, chain_order_id);
        match self.tracked_orders.get(key.as_str()) {
            Some(order) => Some(order.clone()),
            None => None,
        }
    }

    /// The order that a message speaks of.
    pub fn find_order(
        &self,
        spot_market: Option<&str>,
        contract: Option<&str>,
        chain_order_id: &str,
        cloid: Option<&str>,
    ) -> (r: Option<Order>)
        requires
            self.wf(),
        ensures
            r == resolved(
                self.resting(),
                self.cloids(),
                message_market(params::text_view(spot_market), params::text_view(contract)),
                chain_order_id@,
                params::text_view(cloid),
            ),
            r matches Some(order) ==> order.valid(),
    {
        if let Some(market) = spot_market {
            if market.unicode_len() > 0 {
                if let Some(order) = self.tracked_order(market, contract, chain_order_id) {
                    return Some(order);
                }
            }
        }
        match cloid {
            Some(cloid) => if cloid.unicode_len() == 0 {
                None
            } else {
                match self.cloid_orders.get(cloid) {
                    Some(order) => Some(order.clone()),
                    None => None,
                }
            },
            None => None,
        }
    }

    /// Finds the order that a message speaks of, and appends its acceptance where it was known by
    /// its client order id alone. It is tracked from then on.
    pub fn resolve_order(
        &mut self,
        spot_market: Option<&str>,
        contract: Option<&str>,
        chain_order_id: &str,
        cloid: Option<&str>,
        out: &mut Vec<OrderEvent>,
    ) -> (r: Option<Order>)
        requires
            old(self).wf(),
        ensures
            final(self).wf(),
            final(self).cloids() == old(self).cloids(),
            ({
                let market = message_market(
                    params::text_view(spot_market),
                    params::text_view(contract),
                );
                let id = chain_order_id@;
                let by = params::text_view(cloid);
                &&& r == resolved(old(self).resting(), old(self).cloids(), market, id, by)
                &&& final(self).resting() == tracked_after(
                    old(self).resting(),
                    old(self).cloids(),
                    market,
                    id,
                    by,
                )
                &&& events::event_views(final(out)@) == events::event_views(old(out)@) + acceptance(
                    old(self).resting(),
                    old(self).cloids(),
                    market,
                    id,
                    by,
                )
            }),
            r matches Some(order) ==> order.valid(),
    {
        let ghost before = events::event_views(out@);
        assert(before + Seq::<(Seq<char>, ChangeView)>::empty() =~= before);
        let order: Order = match self.find_order(spot_market, contract, chain_order_id, cloid) {
            Some(order) => order,
            None => {
                return None;
            },
        };
        if let Some(market) = spot_market {
            if market.unicode_len() > 0 {
                if self.tracked_order(market, contract, chain_order_id).is_some() {
                    return Some(order);
                }
                self.track_order(market, contract, chain_order_id, &order);
            }
        }
        out.push(
            events::order_event(
                &order,
                OrderChange::Accepted { venue_order_id: chain_order_id.to_owned() },
            ),
        );
        assert(events::event_views(out@) =~= before + seq![
            (order.client_order_id@, ChangeView::Accepted { venue_order_id: chain_order_id@ }),
        ]);
        Some(order)
    }
}

/// What an order update of the user stream says of an order.
///
/// Nothing is said of a closed order. A cancellation cancels it, and the status `filled` fills
/// what is left. An update changes its quantity, where that is another one or an update is pending.
pub open spec fn order_update(order: Order, message: UserOrderMessage) -> Seq<
    (Seq<char>, ChangeView),
> {
    let id = message.chain_order_id@;
    let status = match params::param_text(Some(message.extra), "status"@) {
        Some(status) => status,
        None => ""@,
    };
    if order.is_closed {
        Seq::empty()
    } else if message.event@ == "cancellation"@ || status == "cancelled"@ || status == "canceled"@ {
        seq![(order.client_order_id@, ChangeView::Canceled { venue_order_id: id })]
    } else if status == "filled"@ {
        closing_fill(
            order,
            id,
            match message.block_num {
                Some(block_num) => block_num,
                None => 0,
            },
        )
    } else if message.event@ != "update"@ {
        Seq::empty()
    } else {
        match params::param_text(Some(message.extra), "size"@) {
            Some(size) => match fixed::parsed_quantity(size) {
                Some((raw, precision)) => if !order.is_pending_update && order.quantity.raw == raw {
                    Seq::empty()
                } else {
                    seq![
                        (
                            order.client_order_id@,
                            ChangeView::Updated {
                                venue_order_id: id,
                                quantity: Quantity { raw, precision },
                            },
                        ),
                    ]
                },
                None => Seq::empty(),
            },
            None => Seq::empty(),
        }
    }
}

/// The market of an order update.
pub open spec fn update_market(message: UserOrderMessage, contract: Option<Seq<char>>) -> Option<
    Seq<char>,
> {
    message_market(params::string_view(message.spot_market), contract)
}

/// The client order id of an order update.
pub open spec fn update_cloid(message: UserOrderMessage) -> Option<Seq<char>> {
    params::param_text(Some(message.extra), "cloid"@)
}

/// What an order update emits.
pub open spec fn order_update_events(
    resting: Map<Seq<char>, Order>,
    cloids: Map<Seq<char>, Order>,
    message: UserOrderMessage,
    contract: Option<Seq<char>>,
) -> Seq<(Seq<char>, ChangeView)> {
    let market = update_market(message, contract);
    let id = message.chain_order_id@;
    let cloid = update_cloid(message);
    acceptance(resting, cloids, market, id, cloid) + match resolved(
        resting,
        cloids,
        market,
        id,
        cloid,
    ) {
        Some(order) => order_update(order, message),
        None => Seq::empty(),
    }
}

/// Whether a trade fills the order in full: by its flag, or because nothing remains.
pub open spec fn is_full_fill(message: UserTradeMessage) -> bool {
    message.is_fully_filled == Some(true) || match params::string_view(message.remaining_amount) {
        Some(amount) => amount == "0"@ || amount == "0.0"@,
        None => false,
    }
}

/// What a trade of the user stream says of an order: a fill at the order's price.
pub open spec fn trade_update(order: Order, message: UserTradeMessage) -> Seq<
    (Seq<char>, ChangeView),
> {
    let id = message.chain_order_id@;
    if order.is_closed || message.fill_amount is None || order.price is None {
        Seq::empty()
    } else {
        match fill_quantity(order, message.fill_amount->Some_0@, is_full_fill(message)) {
            Some(last_qty) => seq![
                (
                    order.client_order_id@,
                    ChangeView::Filled {
                        venue_order_id: id,
                        fill: FillView {
                            trade_id: events::trade_id(
                                id,
                                match message.block_num {
                                    Some(block_num) => block_num as nat,
                                    None => 0,
                                },
                                "trade"@,
                            ),
                            last_qty,
                            last_px: order.price->Some_0,
                            liquidity: LiquiditySide::Maker,
                        },
                    },
                ),
            ],
            None => Seq::empty(),
        }
    }
}

/// The market of a trade.
pub open spec fn trade_market(message: UserTradeMessage, contract: Option<Seq<char>>) -> Option<
    Seq<char>,
> {
    message_market(params::string_view(message.spot_market), contract)
}

/// What a trade emits.
pub open spec fn trade_events(
    resting: Map<Seq<char>, Order>,
    cloids: Map<Seq<char>, Order>,
    message: UserTradeMessage,
    contract: Option<Seq<char>>,
) -> Seq<(Seq<char>, ChangeView)> {
    let market = trade_market(message, contract);
    let id = message.chain_order_id@;
    let cloid = params::string_view(message.cloid);
    acceptance(resting, cloids, market, id, cloid) + match resolved(
        resting,
        cloids,
        market,
        id,
        cloid,
    ) {
        Some(order) => trade_update(order, message),
        None => Seq::empty(),
    }
}

/// An order update reads the chain id as a venue order id: it has the order accepted, or finds it
/// open.
pub open spec fn update_uses_id(
    resting: Map<Seq<char>, Order>,
    cloids: Map<Seq<char>, Order>,
    message: UserOrderMessage,
    contract: Option<Seq<char>>,
) -> bool {
    let market = update_market(message, contract);
    let id = message.chain_order_id@;
    let cloid = update_cloid(message);
    ||| acceptance(resting, cloids, market, id, cloid).len() > 0
    ||| resolved(resting, cloids, market, id, cloid) matches Some(order) && !order.is_closed
}

/// A trade reads the chain id as a venue order id where it emits something.
pub open spec fn trade_uses_id(
    resting: Map<Seq<char>, Order>,
    cloids: Map<Seq<char>, Order>,
    message: UserTradeMessage,
    contract: Option<Seq<char>>,
) -> bool {
    trade_events(resting, cloids, message, contract).len() > 0
}

/// The text of an optional string.
pub fn opt_str(text: &Option<String>) -> (r: Option<&str>)
    ensures
        params::text_view(r) == params::string_view(*text),
{
    match text {
        Some(text) => Some(text.as_str()),
        None => None,
    }
}

/// Appends events.
fn extend(out: &mut Vec<OrderEvent>, more: Vec<OrderEvent>)
    ensures
        events::event_views(final(out)@) == events::event_views(old(out)@) + events::event_views(
            more@,
        ),
{
    let mut more: Vec<OrderEvent> = more;
    let ghost a = events::event_views(out@);
    let ghost b = events::event_views(more@);
    out.append(&mut more);
    assert(events::event_views(out@) =~= a + b);
}

impl OrderTracker {
    /// Applies an order update of the user stream. `contract` is the name of the contract that the
    /// message's spot market reads as, where it reads as one.
    pub fn apply_user_order(&mut self, message: &UserOrderMessage, contract: Option<&str>) -> (r:
        Vec<OrderEvent>)
        requires
            old(self).wf(),
            update_uses_id(
                old(self).resting(),
                old(self).cloids(),
                *message,
                params::text_view(contract),
            ) ==> events::is_venue_id(message.chain_order_id@),
        ensures
            final(self).wf(),
            final(self).cloids() == old(self).cloids(),
            final(self).resting() == tracked_after(
                old(self).resting(),
                old(self).cloids(),
                update_market(*message, params::text_view(contract)),
                message.chain_order_id@,
                update_cloid(*message),
            ),
            events::event_views(r@) == order_update_events(
                old(self).resting(),
                old(self).cloids(),
                *message,
                params::text_view(contract),
            ),
    {
        let mut out: Vec<OrderEvent> = Vec::new();
        let id: &str = message.chain_order_id.as_str();
        let cloid: Option<&str> = params::text_param(Some(&message.extra), "cloid");
        let resolved_order: Option<Order> = self.resolve_order(
            opt_str(&message.spot_market),
            contract,
            id,
            cloid,
            &mut out,
        );
        let ghost accepted = events::event_views(out@);
        assert(accepted =~= acceptance(
            old(self).resting(),
            old(self).cloids(),
            update_market(*message, params::text_view(contract)),
            id@,
            update_cloid(*message),
        ));
        assert(accepted + Seq::<(Seq<char>, ChangeView)>::empty() =~= accepted);
        let order: Order = match resolved_order {
            Some(order) => order,
            None => {
                return out;
            },
        };
        if order.is_closed {
            return out;
        }
        let status: &str = match params::text_param(Some(&message.extra), "status") {
            Some(status) => status,
            None => "",
        };
        if text::same(message.event.as_str(), "cancellation") || text::same(status, "cancelled")
            || text::same(status, "canceled") {
            out.push(
                events::order_event(&order, OrderChange::Canceled { venue_order_id: id.to_owned() }),
            );
            assert(events::event_views(out@) =~= accepted + order_update(order, *message));
            return out;
        }
        if text::same(status, "filled") {
            let block_num: u64 = match message.block_num {
                Some(block_num) => block_num,
                None => 0,
            };
            extend(&mut out, emit_closing_fill(&order, id, block_num));
            return out;
        }
        if !text::same(message.event.as_str(), "update") {
            return out;
        }
        if let Some(size) = params::text_param(Some(&message.extra), "size") {
            if let Some(quantity) = Quantity::parse(size) {
                if order.is_pending_update || order.quantity.raw != quantity.raw {
                    out.push(
                        events::order_event(
                            &order,
                            OrderChange::Updated { venue_order_id: id.to_owned(), quantity },
                        ),
                    );
                    assert(events::event_views(out@) =~= accepted + order_update(order, *message));
                }
            }
        }
        out
    }

    /// Applies a trade of the user stream. `contract` is the name of the contract that the
    /// message's spot market reads as, where it reads as one.
    pub fn apply_user_trade(&mut self, message: &UserTradeMessage, contract: Option<&str>) -> (r:
        Vec<OrderEvent>)
        requires
            old(self).wf(),
            trade_uses_id(
                old(self).resting(),
                old(self).cloids(),
                *message,
                params::text_view(contract),
            ) ==> events::is_venue_id(message.chain_order_id@),
        ensures
            final(self).wf(),
            final(self).cloids() == old(self).cloids(),
            final(self).resting() == tracked_after(
                old(self).resting(),
                old(self).cloids(),
                trade_market(*message, params::text_view(contract)),
                message.chain_order_id@,
                params::string_view(message.cloid),
            ),
            events::event_views(r@) == trade_events(
                old(self).resting(),
                old(self).cloids(),
                *message,
                params::text_view(contract),
            ),
    {
        let mut out: Vec<OrderEvent> = Vec::new();
        let id: &str = message.chain_order_id.as_str();
        let resolved_order: Option<Order> = self.resolve_order(
            opt_str(&message.spot_market),
            contract,
            id,
            opt_str(&message.cloid),
            &mut out,
        );
        let ghost accepted = events::event_views(out@);
        assert(accepted =~= acceptance(
            old(self).resting(),
            old(self).cloids(),
            trade_market(*message, params::text_view(contract)),
            id@,
            params::string_view(message.cloid),
        ));
        assert(accepted + Seq::<(Seq<char>, ChangeView)>::empty() =~= accepted);
        let order: Order = match resolved_order {
            Some(order) => order,
            None => {
                return out;
            },
        };
        if order.is_closed {
            return out;
        }
        let fill_amount: &str = match &message.fill_amount {
            Some(amount) => amount.as_str(),
            None => {
                return out;
            },
        };
        let flagged: bool = match message.is_fully_filled {
            Some(flag) => flag,
            None => false,
        };
        let nothing_remains: bool = match &message.remaining_amount {
            Some(amount) => text::same(amount.as_str(), "0") || text::same(amount.as_str(), "0.0"),
            None => false,
        };
        if let Some(last_qty) = fill_quantity_for_order(
            &order,
            fill_amount,
            flagged || nothing_remains,
        ) {
            if let Some(last_px) = order.price {
                let block_num: u64 = match message.block_num {
                    Some(block_num) => block_num,
                    None => 0,
                };
                proof {
                    reveal_strlit("trade");
                    assert(trade_update(order, *message).len() == 1);
                }
                let trade_id: String = events::lightpool_trade_id(id, block_num, "trade");
                out.push(
                    fill_event(&order, id, trade_id, last_qty, last_px, LiquiditySide::Maker),
                );
                assert(events::event_views(out@) =~= accepted + trade_update(order, *message));
            }
        }
        out
    }
}

/// Once a message has been resolved at a market, a second message for the same chain order is
/// resolved there, whatever client order id it carries, and nothing is accepted again.
pub proof fn law_resolved_order_stays_resolved(
    resting: Map<Seq<char>, Order>,
    cloids: Map<Seq<char>, Order>,
    market: Option<Seq<char>>,
    chain_order_id: Seq<char>,
    cloid: Option<Seq<char>>,
    later_cloid: Option<Seq<char>>,
)
    requires
        market is Some,
        resolved(resting, cloids, market, chain_order_id, cloid) is Some,
    ensures
        ({
            let after = tracked_after(resting, cloids, market, chain_order_id, cloid);
            &&& resolved(after, cloids, market, chain_order_id, later_cloid) == resolved(
                resting,
                cloids,
                market,
                chain_order_id,
                cloid,
            )
            &&& acceptance(after, cloids, market, chain_order_id, later_cloid).len() == 0
            &&& tracked_after(after, cloids, market, chain_order_id, later_cloid) == after
        }),
{
}

/// Nothing stays nothing at other places.
proof fn lemma_zero_stays(q: Quantity, precision: int)
    requires
        q.valid(),
        q.raw == 0,
        0 <= precision <= fixed::FIXED_PRECISION,
    ensures
        fixed::fixed_raw(q.decimal(), precision) == 0,
{
    let unit = fixed::raw_unit(q.precision as int);
    decimal::lemma_pow10_positive((fixed::FIXED_PRECISION - q.precision) as nat);
    assert(0int / unit == 0) by (nonlinear_arith)
        requires
            unit > 0,
    ;
    fixed::lemma_realigned(q, precision);
    assert(q.decimal().mantissa == 0);
    if q.precision > precision {
        let d = decimal::pow10((q.precision - precision) as nat);
        decimal::lemma_pow10_positive((q.precision - precision) as nat);
        assert(0int / d == 0 && 0int % d == 0) by (nonlinear_arith)
            requires
                d > 0,
        ;
        assert(decimal::round_half_even(q.decimal().mantissa as int, d) == 0);
        assert(0 * fixed::raw_unit(precision) == 0);
    }
}

/// The reported amount is what counts: where it is positive and not above what is left of the
/// order, the fill is that amount, whether or not the trade is said to fill the order. More than is
/// left fills what is left. Only where no amount is reported does it matter that the order is said
/// to be filled: then what is left is filled.
pub proof fn law_reported_fill_counts(order: Order, reported: Seq<char>, fully_filled: bool)
    requires
        order.valid(),
        fixed::parsed_quantity(reported) matches Some((raw, precision)) ==> (Quantity {
            raw,
            precision,
        }).valid(),
    ensures
        ({
            let leaves = order.leaves_qty;
            match fixed::parsed_quantity(reported) {
                Some((raw, precision)) => {
                    &&& raw > 0 && precision <= order.quantity.precision && (leaves.raw == 0 || raw
                        <= leaves.raw) ==> fill_quantity(order, reported, fully_filled) == Some(
                        Quantity { raw, precision: order.quantity.precision },
                    )
                    &&& raw > 0 && precision <= order.quantity.precision && 0 < leaves.raw < raw
                        ==> fill_quantity(order, reported, fully_filled) == Some(leaves)
                    &&& raw == 0 ==> fill_quantity(order, reported, fully_filled) == if fully_filled && leaves.raw > 0 {
                        Some(leaves)
                    } else {
                        None
                    }
                    &&& (fill_quantity(order, reported, fully_filled) matches Some(q) && q != leaves) ==> -fixed::raw_unit(
                        order.quantity.precision as int,
                    ) <= 2 * (fill_quantity(order, reported, fully_filled)->Some_0.raw - raw) <= fixed::raw_unit(
                        order.quantity.precision as int,
                    )
                    &&& fixed::raw_unit(order.quantity.precision as int) < 2 * raw <= 2 * leaves.raw
                        - fixed::raw_unit(order.quantity.precision as int) ==> {
                        let q = fill_quantity(order, reported, fully_filled);
                        &&& q is Some
                        &&& q->Some_0.precision == order.quantity.precision
                        &&& -fixed::raw_unit(order.quantity.precision as int) <= 2 * (q->Some_0.raw
                            - raw) <= fixed::raw_unit(order.quantity.precision as int)
                    }
                    &&& 0 < 2 * leaves.raw < 2 * raw - fixed::raw_unit(
                        order.quantity.precision as int,
                    ) && 2 * raw + fixed::raw_unit(order.quantity.precision as int) <= 2
                        * fixed::QUANTITY_RAW_MAX ==> fill_quantity(order, reported, fully_filled)
                        == Some(leaves)
                    &&& 2 * raw < fixed::raw_unit(order.quantity.precision as int)
                        ==> fill_quantity(order, reported, fully_filled) == if fully_filled
                        && leaves.raw > 0 {
                        Some(leaves)
                    } else {
                        None
                    }
                },
                None => fill_quantity(order, reported, fully_filled) == if fully_filled && leaves.raw > 0 {
                    Some(leaves)
                } else {
                    None
                },
            }
        }),
{
    if let Some((raw, precision)) = fixed::parsed_quantity(reported) {
        let q = Quantity { raw, precision };
        fixed::lemma_realigned(q, order.quantity.precision as int);
        if raw == 0 {
            lemma_zero_stays(q, order.quantity.precision as int);
        }
    }
}

/// A trade with a readable amount, not above what is left of an open order with a price, emits one
/// fill: of that amount, at the price of the order, as a maker, under the chain id of the trade.
pub proof fn law_trade_fills_what_it_reports(order: Order, message: UserTradeMessage, raw: u64, precision: u8)
    requires
        order.valid(),
        !order.is_closed,
        order.price is Some,
        message.fill_amount is Some,
        fixed::parsed_quantity(message.fill_amount->Some_0@) == Some((raw, precision)),
        (Quantity { raw, precision }).valid(),
        precision <= order.quantity.precision,
        0 < raw <= order.leaves_qty.raw,
    ensures
        trade_update(order, message).len() == 1,
        trade_update(order, message)[0].0 == order.client_order_id@,
        trade_update(order, message)[0].1 matches ChangeView::Filled { venue_order_id, fill }
            && venue_order_id == message.chain_order_id@ && fill.last_qty.raw == raw
            && fill.last_px == order.price->Some_0 && fill.liquidity == LiquiditySide::Maker,
{
    law_reported_fill_counts(order, message.fill_amount->Some_0@, is_full_fill(message));
}

/// Two trades that report what they filled fill their sum: what the second adds does not depend on
/// whether it is said to complete the order.
pub proof fn law_completing_trade_adds_its_amount(
    order: Order,
    message: UserTradeMessage,
    flagged: UserTradeMessage,
    raw: u64,
    precision: u8,
)
    requires
        order.valid(),
        message.fill_amount is Some,
        flagged.fill_amount == message.fill_amount,
        flagged.chain_order_id == message.chain_order_id,
        flagged.block_num == message.block_num,
        fixed::parsed_quantity(message.fill_amount->Some_0@) == Some((raw, precision)),
        (Quantity { raw, precision }).valid(),
        precision <= order.quantity.precision,
        raw > 0,
    ensures
        trade_update(order, flagged) == trade_update(order, message),
{
    law_reported_fill_counts(order, message.fill_amount->Some_0@, is_full_fill(message));
    law_reported_fill_counts(order, message.fill_amount->Some_0@, is_full_fill(flagged));
}

/// A trade never fills more than is left of an order, and speaks of that order alone.
pub proof fn law_trades_stay_within_the_order(order: Order, message: UserTradeMessage)
    requires
        order.valid(),
    ensures
        trade_update(order, message).len() <= 1,
        order.is_closed || order.price is None || message.fill_amount is None ==> trade_update(
            order,
            message,
        ).len() == 0,
        trade_update(order, message).len() == 1 ==> {
            let (id, change) = trade_update(order, message)[0];
            &&& id == order.client_order_id@
            &&& change matches ChangeView::Filled { venue_order_id, fill }
            &&& venue_order_id == message.chain_order_id@
            &&& fill.last_qty.raw > 0
            &&& order.leaves_qty.raw > 0 ==> fill.last_qty.raw <= order.leaves_qty.raw
            &&& Some(fill.last_px) == order.price
        },
{
}

/// The status that an order update carries.
pub open spec fn update_status(message: UserOrderMessage) -> Seq<char> {
    match params::param_text(Some(message.extra), "status"@) {
        Some(status) => status,
        None => ""@,
    }
}

/// An order update speaks of its order alone, once, and not at all of a closed order. A
/// cancellation cancels it. The status `filled` fills all that is left, at the price of the order.
/// An update sets another quantity.
pub proof fn law_order_updates(order: Order, message: UserOrderMessage)
    ensures
        ({
            let changes = order_update(order, message);
            let status = update_status(message);
            let cancels = message.event@ == "cancellation"@ || status == "cancelled"@ || status
                == "canceled"@;
            &&& changes.len() <= 1
            &&& changes.len() == 1 ==> changes[0].0 == order.client_order_id@
            &&& order.is_closed ==> changes.len() == 0
            &&& !order.is_closed && cancels ==> changes.len() == 1 && (
            changes[0].1 matches ChangeView::Canceled { venue_order_id } && venue_order_id
                == message.chain_order_id@)
            &&& !order.is_closed && !cancels && status == "filled"@ && order.leaves_qty.raw > 0
                && order.price is Some ==> changes.len() == 1 && (
            changes[0].1 matches ChangeView::Filled { venue_order_id, fill } && venue_order_id
                == message.chain_order_id@ && fill.last_qty == order.leaves_qty && fill.last_px
                == order.price->Some_0 && fill.liquidity == LiquiditySide::Maker)
            &&& !order.is_closed && !cancels && status != "filled"@ && message.event@
                == "update"@ ==> match params::param_text(Some(message.extra), "size"@) {
                Some(size) => match fixed::parsed_quantity(size) {
                    Some((raw, precision)) => if raw != order.quantity.raw
                        || order.is_pending_update {
                        changes.len() == 1 && (changes[0].1 matches ChangeView::Updated {
                            venue_order_id,
                            quantity,
                        } && venue_order_id == message.chain_order_id@ && quantity.raw == raw
                            && quantity.precision == precision)
                    } else {
                        changes.len() == 0
                    },
                    None => changes.len() == 0,
                },
                None => changes.len() == 0,
            }
            &&& !cancels && status != "filled"@ && message.event@ != "update"@ ==> changes.len()
                == 0
        }),
{
}

/// A message speaks of the order that is tracked at its market and chain id, whatever client order
/// id it carries. Where none is tracked there, it speaks of the order with its client order id,
/// which is accepted under the chain id and tracked from then on. Else it speaks of no order.
pub proof fn law_messages_reach_their_order(
    resting: Map<Seq<char>, Order>,
    cloids: Map<Seq<char>, Order>,
    market: Seq<char>,
    chain_order_id: Seq<char>,
    cloid: Option<Seq<char>>,
)
    ensures
        ({
            let key = market.push(':') + chain_order_id;
            let found = resolved(resting, cloids, Some(market), chain_order_id, cloid);
            let accepted = acceptance(resting, cloids, Some(market), chain_order_id, cloid);
            let after = tracked_after(resting, cloids, Some(market), chain_order_id, cloid);
            let by_cloid = cloid is Some && cloid->Some_0.len() > 0 && cloids.dom().contains(
                cloid->Some_0,
            );
            &&& resting.dom().contains(key) ==> found == Some(resting[key]) && accepted.len() == 0
                && after == resting
            &&& !resting.dom().contains(key) && by_cloid ==> {
                &&& found == Some(cloids[cloid->Some_0])
                &&& accepted.len() == 1
                &&& accepted[0].0 == cloids[cloid->Some_0].client_order_id@
                &&& accepted[0].1 == (ChangeView::Accepted { venue_order_id: chain_order_id })
                &&& after == resting.insert(key, cloids[cloid->Some_0])
            }
            &&& !resting.dom().contains(key) && !by_cloid ==> found is None && accepted.len() == 0
                && after == resting
        }),
{
}

/// Chain orders of different markets, or with different chain ids, have different keys: chain ids
/// hold no colon.
pub proof fn law_order_keys_tell_orders_apart(
    market: Seq<char>,
    id: Seq<char>,
    other_market: Seq<char>,
    other_id: Seq<char>,
)
    requires
        !id.contains(':'),
        !other_id.contains(':'),
        order_key(market, id) == order_key(other_market, other_id),
    ensures
        market == other_market,
        id == other_id,
{
    let key = order_key(market, id);
    let a = market.len() as int;
    let b = other_market.len() as int;
    let head = market.push(':');
    let other_head = other_market.push(':');
    assert(key == head + id && key == other_head + other_id);
    assert(key.len() == a + 1 + id.len() && key.len() == b + 1 + other_id.len());
    assert(key[a] == head[a] && key[b] == other_head[b]);
    if a < b {
        assert((head + id)[b] == id[b - head.len()]);
        assert(id[b - a - 1] == ':');
    } else if b < a {
        assert((other_head + other_id)[a] == other_id[a - other_head.len()]);
        assert(other_id[a - b - 1] == ':');
    }
    assert(market =~= key.take(a));
    assert(other_market =~= key.take(a));
    assert(id =~= key.skip(a + 1));
    assert(other_id =~= key.skip(a + 1));
}

/// The index statuses of an order: a filled or cancelled one says so whatever was filled of it, and
/// an open one is partially filled exactly where something was.
pub proof fn law_index_statuses(filled_raw: u64)
    ensures
        status_of("filled"@, filled_raw) == OrderStatus::Filled,
        status_of("cancelled"@, filled_raw) == OrderStatus::Canceled,
        status_of("partial_filled"@, filled_raw) == OrderStatus::PartiallyFilled,
        status_of("open"@, filled_raw) == if filled_raw > 0 {
            OrderStatus::PartiallyFilled
        } else {
            OrderStatus::Accepted
        },
{
    reveal_strlit("filled");
    reveal_strlit("cancelled");
    reveal_strlit("partial_filled");
    reveal_strlit("open");
    assert("filled"@.len() == 6);
    assert("cancelled"@.len() == 9);
    assert("partial_filled"@.len() == 14);
    assert("open"@.len() == 4);
}

/// A trade that names a spot market goes to the order tracked there under its chain id, by the name
/// of the market's contract where it has one. An order that is known by its client order id alone
/// is accepted first. Without either order nothing is emitted.
pub proof fn law_trades_go_to_their_order(
    resting: Map<Seq<char>, Order>,
    cloids: Map<Seq<char>, Order>,
    message: UserTradeMessage,
    contract: Option<Seq<char>>,
)
    requires
        message.spot_market is Some,
        message.spot_market->Some_0@.len() > 0,
    ensures
        ({
            let market = match contract {
                Some(name) => name,
                None => text::trimmed(message.spot_market->Some_0@),
            };
            let key = market.push(':') + message.chain_order_id@;
            let cloid = params::string_view(message.cloid);
            let by_cloid = cloid is Some && cloid->Some_0.len() > 0 && cloids.dom().contains(
                cloid->Some_0,
            );
            let events = trade_events(resting, cloids, message, contract);
            &&& resting.dom().contains(key) ==> events == trade_update(resting[key], message)
            &&& !resting.dom().contains(key) && by_cloid ==> events == seq![
                (
                    cloids[cloid->Some_0].client_order_id@,
                    ChangeView::Accepted { venue_order_id: message.chain_order_id@ },
                ),
            ] + trade_update(cloids[cloid->Some_0], message)
            &&& !resting.dom().contains(key) && !by_cloid ==> events.len() == 0
        }),
{
    let market = match contract {
        Some(name) => name,
        None => text::trimmed(message.spot_market->Some_0@),
    };
    let key = market.push(':') + message.chain_order_id@;
    if resting.dom().contains(key) {
        let events = trade_update(resting[key], message);
        assert(Seq::<(Seq<char>, ChangeView)>::empty() + events =~= events);
    }
}

/// An order update that names a spot market goes to the order tracked there under its chain id, by the name
/// of the market's contract where it has one. An order that is known by its client order id alone
/// is accepted first. Without either order nothing is emitted.
pub proof fn law_updates_go_to_their_order(
    resting: Map<Seq<char>, Order>,
    cloids: Map<Seq<char>, Order>,
    message: UserOrderMessage,
    contract: Option<Seq<char>>,
)
    requires
        message.spot_market is Some,
        message.spot_market->Some_0@.len() > 0,
    ensures
        ({
            let market = match contract {
                Some(name) => name,
                None => text::trimmed(message.spot_market->Some_0@),
            };
            let key = market.push(':') + message.chain_order_id@;
            let cloid = params::param_text(Some(message.extra), "cloid"@);
            let by_cloid = cloid is Some && cloid->Some_0.len() > 0 && cloids.dom().contains(
                cloid->Some_0,
            );
            let events = order_update_events(resting, cloids, message, contract);
            &&& resting.dom().contains(key) ==> events == order_update(resting[key], message)
            &&& !resting.dom().contains(key) && by_cloid ==> events == seq![
                (
                    cloids[cloid->Some_0].client_order_id@,
                    ChangeView::Accepted { venue_order_id: message.chain_order_id@ },
                ),
            ] + order_update(cloids[cloid->Some_0], message)
            &&& !resting.dom().contains(key) && !by_cloid ==> events.len() == 0
        }),
{
    let market = match contract {
        Some(name) => name,
        None => text::trimmed(message.spot_market->Some_0@),
    };
    let key = market.push(':') + message.chain_order_id@;
    if resting.dom().contains(key) {
        let events = order_update(resting[key], message);
        assert(Seq::<(Seq<char>, ChangeView)>::empty() + events =~= events);
    }
}

/// An order that matched in full when it was submitted is filled once, as a taker: its whole
/// quantity, at its price.
pub proof fn law_submit_fill_is_the_order(order: Order, venue_order_id: Seq<char>)
    ensures
        order.price is None ==> submit_fill(order, venue_order_id).len() == 0,
        order.price is Some ==> {
            let changes = submit_fill(order, venue_order_id);
            &&& changes.len() == 1
            &&& changes[0].0 == order.client_order_id@
            &&& changes[0].1 matches ChangeView::Filled { venue_order_id: id, fill } && id
                == venue_order_id && fill.last_qty == order.quantity && fill.last_px
                == order.price->Some_0 && fill.liquidity == LiquiditySide::Taker
        },
{
}

/// A failure that speaks of a gateway or client timeout, or of the connection, in whatever case,
/// leaves it open whether the venue got the request, whatever else it says.
pub proof fn law_uncertain_failures(message: Seq<char>, before: Seq<char>, after: Seq<char>)
    ensures
        text::lower(message) == before + "504"@ + after ==> is_uncertain(message),
        text::lower(message) == before + "timed out"@ + after ==> is_uncertain(message),
        text::lower(message) == before + "timeout"@ + after ==> is_uncertain(message),
        text::lower(message) == before + "connection"@ + after ==> is_uncertain(message),
        text::lower(message) == before + "connect failed"@ + after ==> is_uncertain(message),
        text::lower(message) == before + "error sending request"@ + after ==> is_uncertain(message),
{
    text::lemma_part_in_the_middle(before, "504"@, after);
    text::lemma_part_in_the_middle(before, "timed out"@, after);
    text::lemma_part_in_the_middle(before, "timeout"@, after);
    text::lemma_part_in_the_middle(before, "connection"@, after);
    text::lemma_part_in_the_middle(before, "connect failed"@, after);
    text::lemma_part_in_the_middle(before, "error sending request"@, after);
}

/// A failure that names none of them is certain.
pub proof fn law_other_failures_are_certain(message: Seq<char>)
    requires
        !text::has_part(text::lower(message), "504"@),
        !text::has_part(text::lower(message), "timed out"@),
        !text::has_part(text::lower(message), "timeout"@),
        !text::has_part(text::lower(message), "connection"@),
        !text::has_part(text::lower(message), "connect failed"@),
        !text::has_part(text::lower(message), "error sending request"@),
    ensures
        !is_uncertain(message),
{
}

/// A trade fills its order in full where it says so or nothing remains of the order, and only then.
pub proof fn law_full_fills(message: UserTradeMessage)
    ensures
        message.is_fully_filled == Some(true) ==> is_full_fill(message),
        message.remaining_amount matches Some(amount) && (amount@ == "0"@ || amount@ == "0.0"@)
            ==> is_full_fill(message),
        message.is_fully_filled != Some(true) && message.remaining_amount is None ==> !is_full_fill(
            message,
        ),
        message.is_fully_filled != Some(true) && (message.remaining_amount matches Some(amount)
            && amount@ != "0"@ && amount@ != "0.0"@) ==> !is_full_fill(message),
{
}

/// A message that names no market speaks of the order with its client order id, which is accepted
/// under the chain id and not tracked.
pub proof fn law_messages_without_a_market(
    resting: Map<Seq<char>, Order>,
    cloids: Map<Seq<char>, Order>,
    chain_order_id: Seq<char>,
    cloid: Seq<char>,
    contract: Option<Seq<char>>,
)
    ensures
        message_market(None, contract) is None,
        message_market(Some(Seq::empty()), contract) is None,
        tracked_after(resting, cloids, None, chain_order_id, Some(cloid)) == resting,
        cloid.len() > 0 && cloids.dom().contains(cloid) ==> resolved(
            resting,
            cloids,
            None,
            chain_order_id,
            Some(cloid),
        ) == Some(cloids[cloid]) && acceptance(
            resting,
            cloids,
            None,
            chain_order_id,
            Some(cloid),
        ).len() == 1,
        cloid.len() == 0 || !cloids.dom().contains(cloid) ==> resolved(
            resting,
            cloids,
            None,
            chain_order_id,
            Some(cloid),
        ) is None,
        resolved(resting, cloids, None, chain_order_id, None) is None,
{
}

/// The names of the sides in queries.
pub proof fn law_side_labels()
    ensures
        side_label(OrderSide::Buy) == Some("buy"@),
        side_label(OrderSide::Sell) == Some("sell"@),
        side_label(OrderSide::NoOrderSide) is None,
{
}

/// Saying that a trade fills its order changes nothing where the reported amount fills something
/// already. Where it fills nothing, what is left of the order is filled.
pub proof fn law_flag_fills_only_what_is_not_reported(order: Order, reported: Seq<char>)
    ensures
        fill_quantity(order, reported, false) is Some ==> fill_quantity(order, reported, true)
            == fill_quantity(order, reported, false),
        fill_quantity(order, reported, false) is None ==> fill_quantity(order, reported, true)
            == if order.leaves_qty.raw > 0 {
            Some(order.leaves_qty)
        } else {
            None
        },
{
}

/// What is left of an order is filled at its price when the order is closed as filled, and nothing
/// where nothing is left or it has no price.
pub proof fn law_closing_fills_fill_the_rest(order: Order, venue_order_id: Seq<char>, block_num: u64)
    ensures
        order.leaves_qty.raw > 0 && order.price is Some ==> {
            let fills = closing_fill(order, venue_order_id, block_num);
            &&& fills.len() == 1
            &&& fills[0].0 == order.client_order_id@
            &&& fills[0].1 matches ChangeView::Filled { venue_order_id: id, fill }
            &&& id == venue_order_id
            &&& fill.last_qty == order.leaves_qty
            &&& Some(fill.last_px) == order.price
            &&& fill.liquidity == LiquiditySide::Maker
        },
        order.leaves_qty.raw == 0 || order.price is None ==> closing_fill(
            order,
            venue_order_id,
            block_num,
        ).len() == 0,
{
}

} // verus!
