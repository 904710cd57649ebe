//! Commands of the trading core: what is sent for them, and what their outcome emits.

use vstd::prelude::*;

use crate::common::amounts;
use crate::common::amounts::{AmountError, PriceUnit};
use crate::common::instrument_meta;
use crate::decimal;
use crate::decimal::Decimal;
use crate::execution::events;
use crate::execution::events::{ChangeView, OrderChange, OrderEvent};
use crate::execution::tracking;
use crate::execution::tracking::OrderTracker;
use crate::fixed;
use crate::fixed::{Quantity, QUANTITY_RAW_MAX};
use crate::http::models::OrderQueryResponse;
use crate::model::{
    Instrument, InstrumentId, Order, OrderSide, OrderStatus, OrderType, TimeInForce,
};
use crate::params;
use crate::text;

verus! {

/// Why no transaction can be built for an order.
#[derive(Clone, Copy, Debug, PartialEq, Eq, Structural)]
pub enum PlanError {
    MissingPrice,
    Amount(AmountError),
    /// Rounding the price to its tick leaves the range of raw prices.
    PriceTooLarge,
    ZeroSize,
    UnsupportedSide(OrderSide),
}

impl PlanError {
    pub open spec fn text(self) -> Seq<char> {
        match self {
            PlanError::MissingPrice => "limit order missing price"@,
            PlanError::Amount(error) => error.text(),
            PlanError::PriceTooLarge => "price out of range"@,
            PlanError::ZeroSize => "order size must be greater than 0"@,
            PlanError::UnsupportedSide(side) => "unsupported order side: "@ + side.label(),
        }
    }

    /// The reason in words.
    pub fn message(&self) -> (r: String)
        ensures
            r@ == self.text(),
    {
        match self {
            PlanError::MissingPrice => "limit order missing price".to_owned(),
            PlanError::Amount(error) => error.message().to_owned(),
            PlanError::PriceTooLarge => "price out of range".to_owned(),
            PlanError::ZeroSize => "order size must be greater than 0".to_owned(),
            PlanError::UnsupportedSide(side) => text::append(
                "unsupported order side: ",
                side.name(),
            ),
        }
    }
}

/// What a limit order asks of its spot market.
#[derive(Debug)]
pub struct LimitOrderPlan {
    pub side: OrderSide,
    /// Size in raw units.
    pub amount: u64,
    /// Price in raw units, on the tick grid.
    pub limit_price: u64,
    /// Texts to read the locked token's contract from: the first that reads as one is used.
    pub token_candidates: Vec<String>,
    pub cloid: String,
}

/// The texts to read the locked token's contract from: for a buy the quote token, or an empty text,
/// and then the spot market; for a sell the base token, or the spot market.
pub open spec fn token_candidates(
    buy: bool,
    instrument: Instrument,
    spot_market: Seq<char>,
) -> Seq<Seq<char>> {
    let info = instrument_meta::info_of(instrument);
    if buy {
        seq![
            match instrument_meta::token_of(info, "quote_token"@, "collateral_token"@) {
                Some(token) => token,
                None => ""@,
            },
            spot_market,
        ]
    } else {
        seq![
            match instrument_meta::token_of(info, "base_token"@, "outcome_token"@) {
                Some(token) => token,
                None => spot_market,
            },
        ]
    }
}

/// The texts to read the locked token's contract from.
pub fn token_candidates_for_order(buy: bool, instrument: &Instrument, spot_market: &str) -> (r: Vec<
    String,
>)
    ensures
        text::texts(r@) == token_candidates(buy, *instrument, spot_market@),
{
    let mut r: Vec<String> = Vec::new();
    if buy {
        let quote: String = match instrument_meta::quote_token_from_info(
            instrument_meta::instrument_info(instrument),
        ) {
            Some(token) => token,
            None => "".to_owned(),
        };
        r.push(quote);
        r.push(spot_market.to_owned());
    } else {
        let base: String = match instrument_meta::base_token_from_info(
            instrument_meta::instrument_info(instrument),
        ) {
            Some(token) => token,
            None => spot_market.to_owned(),
        };
        r.push(base);
    }
    assert(text::texts(r@) =~= token_candidates(buy, *instrument, spot_market@));
    r
}

/// Why an order without a locked token is not sent: `error` says why the last candidate does not
/// read as a contract.
pub fn missing_token_reason(buy: bool, error: &str) -> (r: String)
    ensures
        r@ == if buy {
            "missing collateral/quote token for buy order: "@ + error@
        } else {
            "missing base/outcome token for sell order: "@ + error@
        },
{
    if buy {
        text::append("missing collateral/quote token for buy order: ", error)
    } else {
        text::append("missing base/outcome token for sell order: ", error)
    }
}

/// Price, tick and unit of an order's limit price.
pub open spec fn order_limit_price(order: Order, instrument: Instrument) -> Result<u64, PlanError> {
    let info = instrument_meta::info_of(instrument);
    let tick_size = amounts::tick_size_of(info);
    let unit = amounts::unit_of(info);
    match order.price {
        None => Err(PlanError::MissingPrice),
        Some(price) => if !amounts::limit_price_fits(price.decimal(), tick_size, unit) {
            Err(PlanError::PriceTooLarge)
        } else {
            match amounts::limit_price(price.decimal(), tick_size, unit) {
                Ok(raw) => Ok(raw),
                Err(e) => Err(PlanError::Amount(e)),
            }
        },
    }
}

/// The raw size of a quantity that is sent: never zero.
pub open spec fn sent_amount(quantity: Quantity) -> Result<u64, PlanError> {
    match amounts::raw_amount(quantity.decimal()) {
        None => Err(PlanError::Amount(AmountError::InvalidAmount)),
        Some(amount) => if amount == 0 {
            Err(PlanError::ZeroSize)
        } else {
            Ok(amount)
        },
    }
}

/// `r` is what a limit order asks of its spot market, or the first reason against it.
pub open spec fn is_limit_plan(
    r: Result<LimitOrderPlan, PlanError>,
    order: Order,
    instrument: Instrument,
    spot_market: Seq<char>,
) -> bool {
    match order_limit_price(order, instrument) {
        Err(e) => r == Err::<LimitOrderPlan, PlanError>(e),
        Ok(limit_price) => match sent_amount(order.quantity) {
            Err(e) => r == Err::<LimitOrderPlan, PlanError>(e),
            Ok(amount) => if order.side == OrderSide::NoOrderSide {
                r == Err::<LimitOrderPlan, PlanError>(PlanError::UnsupportedSide(order.side))
            } else {
                &&& r matches Ok(plan)
                &&& plan.side == order.side
                &&& plan.amount == amount
                &&& plan.limit_price == limit_price
                &&& text::texts(plan.token_candidates@) == token_candidates(
                    order.side == OrderSide::Buy,
                    instrument,
                    spot_market,
                )
                &&& plan.cloid@ == order.client_order_id@
            },
        },
    }
}

/// The raw size of a quantity that is sent.
pub fn sent_amount_of(quantity: &Quantity) -> (r: Result<u64, PlanError>)
    requires
        quantity.valid(),
    ensures
        r == sent_amount(*quantity),
        match r {
            Ok(amount) => {
                &&& amount > 0
                &&& -500 <= amount * 1_000 - quantity.raw <= 500
                &&& quantity.raw % 1_000 == 500 ==> amount % 2 == 0
            },
            Err(e) => e == PlanError::ZeroSize && quantity.raw <= 500,
        },
{
    proof {
        amounts::lemma_quantity_units(*quantity);
    }
    match amounts::decimal_to_raw_amount(quantity.as_decimal()) {
        Ok(amount) => if amount == 0 {
            Err(PlanError::ZeroSize)
        } else {
            Ok(amount)
        },
        Err(e) => Err(PlanError::Amount(e)),
    }
}

/// Plans a limit order on its spot market.
pub fn plan_limit_order(order: &Order, instrument: &Instrument, spot_market: &str) -> (r: Result<
    LimitOrderPlan,
    PlanError,
>)
    requires
        order.valid(),
    ensures
        is_limit_plan(r, *order, *instrument, spot_market@),
        r matches Ok(plan) ==> {
            let price = order.price->Some_0.raw;
            let tick = amounts::tick_size_of(instrument_meta::info_of(*instrument));
            &&& order.price is Some
            &&& order.side == OrderSide::Buy || order.side == OrderSide::Sell
            &&& plan.side == order.side
            &&& plan.cloid@ == order.client_order_id@
            &&& plan.amount > 0
            &&& -500 <= plan.amount * 1_000 - order.quantity.raw <= 500
            &&& plan.limit_price > 0
            &&& plan.limit_price % tick == 0
            &&& -(500 + 500 * tick) <= plan.limit_price * 1_000 - price <= 500 + 500 * tick
            &&& price % 1_000 == 0 ==> -(500 * tick) < plan.limit_price * 1_000 - price <= 500
                * tick
        },
        r matches Err(e) ==> {
            let price = order.price->Some_0.raw;
            let tick = amounts::tick_size_of(instrument_meta::info_of(*instrument));
            let unit = amounts::unit_of(instrument_meta::info_of(*instrument));
            match e {
                PlanError::MissingPrice => order.price is None,
                PlanError::ZeroSize => order.quantity.raw <= 500,
                PlanError::UnsupportedSide(side) => side == order.side && order.side
                    == OrderSide::NoOrderSide,
                PlanError::PriceTooLarge => unit == PriceUnit::Decimal && price + 500 + 1_000 * (
                tick / 2) > 1_000 * u64::MAX,
                PlanError::Amount(AmountError::InvalidAmount) => false,
                PlanError::Amount(AmountError::PriceOutOfRange) => unit == PriceUnit::Cents && (
                price < 0 || price > 1_000_000_000),
                PlanError::Amount(AmountError::PriceNotPositive) => unit == PriceUnit::Decimal
                    && price <= 0,
                PlanError::Amount(AmountError::PriceRoundsToZero) => price <= 500 + 500 * tick,
            }
        },
{
    let price = match order.price {
        Some(price) => price,
        None => {
            return Err(PlanError::MissingPrice);
        },
    };
    let tick_size: u64 = amounts::tick_size_from_instrument_info(
        instrument_meta::instrument_info(instrument),
    );
    let unit: PriceUnit = instrument_meta::price_unit_for_instrument(instrument);
    proof {
        amounts::lemma_price_units(price);
    }
    let limit_price: u64 = match amounts::checked_limit_price_raw(
        price.as_decimal(),
        tick_size,
        unit,
    ) {
        None => {
            return Err(PlanError::PriceTooLarge);
        },
        Some(Err(e)) => {
            return Err(PlanError::Amount(e));
        },
        Some(Ok(raw)) => raw,
    };
    let amount: u64 = match sent_amount_of(&order.quantity) {
        Ok(amount) => amount,
        Err(e) => {
            return Err(e);
        },
    };
    if order.side == OrderSide::NoOrderSide {
        return Err(PlanError::UnsupportedSide(order.side));
    }
    Ok(
        LimitOrderPlan {
            side: order.side,
            amount,
            limit_price,
            token_candidates: token_candidates_for_order(
                order.side == OrderSide::Buy,
                instrument,
                spot_market,
            ),
            cloid: order.client_order_id.clone(),
        },
    )
}

/// How a submit ended.
#[derive(Debug)]
pub enum SubmitOutcome {
    Placed { chain_order_id: u64, fully_matched: bool },
    Failed { error: String },
}

/// How a cancel or an update ended: `details` renders the error with its causes.
#[derive(Debug)]
pub enum CallOutcome {
    Done,
    InvalidSigner { error: String },
    Failed { error: String, details: String },
}

/// What a submit command does first.
///
/// Orders of other types than limit, and orders that cannot be signed or whose instrument is not
/// known, are denied. Others count as submitted, and are remembered by their client order id.
pub open spec fn submit_start(order: Order, has_key: bool, known: bool) -> ChangeView {
    if order.order_type != OrderType::Limit {
        ChangeView::Denied {
            reason: "unsupported order type for Lightpool: "@ + order.order_type.label(),
        }
    } else if !has_key {
        ChangeView::Denied { reason: "LIGHTPOOL_PRIVATE_KEY not configured"@ }
    } else if !known {
        ChangeView::Denied { reason: "instrument not found in cache"@ }
    } else {
        ChangeView::Submitted
    }
}

/// The orders by client order id once an order has been submitted.
pub open spec fn cloids_once_submitted(cloids: Map<Seq<char>, Order>, order: Order) -> Map<
    Seq<char>,
    Order,
> {
    if order.client_order_id@.len() > 0 {
        cloids.insert(order.client_order_id@, order)
    } else {
        cloids
    }
}

/// The tracked orders once a submit has been answered: a placed order is tracked.
pub open spec fn resting_once_answered(
    resting: Map<Seq<char>, Order>,
    order: Order,
    market: Seq<char>,
    outcome: SubmitOutcome,
) -> Map<Seq<char>, Order> {
    match outcome {
        SubmitOutcome::Placed { chain_order_id, fully_matched } => resting.insert(
            tracking::order_key(market, text::decimal_text(chain_order_id as nat)),
            order,
        ),
        SubmitOutcome::Failed { error } => resting,
    }
}

/// The orders by client order id once a submit has been answered: an order that failed for certain
/// is forgotten.
pub open spec fn cloids_once_answered(
    cloids: Map<Seq<char>, Order>,
    order: Order,
    outcome: SubmitOutcome,
) -> Map<Seq<char>, Order> {
    match outcome {
        SubmitOutcome::Placed { chain_order_id, fully_matched } => cloids,
        SubmitOutcome::Failed { error } => if tracking::is_uncertain(error@) {
            cloids
        } else {
            cloids.remove(order.client_order_id@)
        },
    }
}

/// What the outcome of a submit emits.
pub open spec fn submit_events(order: Order, outcome: SubmitOutcome) -> Seq<
    (Seq<char>, ChangeView),
> {
    match outcome {
        SubmitOutcome::Placed { chain_order_id, fully_matched } => {
            let id = text::decimal_text(chain_order_id as nat);
            let accepted = seq![
                (order.client_order_id@, ChangeView::Accepted { venue_order_id: id }),
            ];
            if fully_matched {
                accepted + tracking::submit_fill(order, id)
            } else {
                accepted
            }
        },
        SubmitOutcome::Failed { error } => if tracking::is_uncertain(error@) {
            Seq::empty()
        } else {
            seq![(order.client_order_id@, ChangeView::Rejected { reason: error@ })]
        },
    }
}

impl OrderTracker {
    /// Starts a submit command. The order goes on to its spot market where the event says that it
    /// was submitted.
    pub fn begin_submit(&mut self, order: &Order, has_key: bool, known: bool) -> (r: OrderEvent)
        requires
            old(self).wf(),
            order.valid(),
        ensures
            final(self).wf(),
            r@ == (order.client_order_id@, submit_start(*order, has_key, known)),
            final(self).resting() == old(self).resting(),
            final(self).cloids() == if submit_start(*order, has_key, known) is Submitted {
                cloids_once_submitted(old(self).cloids(), *order)
            } else {
                old(self).cloids()
            },
    {
        if order.order_type != OrderType::Limit {
            let reason: String = text::append(
                "unsupported order type for Lightpool: ",
                order.order_type.name(),
            );
            return events::order_event(order, OrderChange::Denied { reason });
        }
        if !has_key {
            let reason: String = "LIGHTPOOL_PRIVATE_KEY not configured".to_owned();
            return events::order_event(order, OrderChange::Denied { reason });
        }
        if !known {
            let reason: String = "instrument not found in cache".to_owned();
            return events::order_event(order, OrderChange::Denied { reason });
        }
        self.cache_cloid(order.client_order_id.as_str(), order);
        events::order_event(order, OrderChange::Submitted)
    }

    /// Gives up a submit whose signing key is invalid.
    pub fn submit_signer_failed(&mut self, order: &Order, error: &str) -> (r: OrderEvent)
        requires
            old(self).wf(),
        ensures
            final(self).wf(),
            final(self).resting() == old(self).resting(),
            final(self).cloids() == old(self).cloids().remove(order.client_order_id@),
            r@ == (
                order.client_order_id@,
                ChangeView::Rejected { reason: "invalid signer: "@ + error@ },
            ),
    {
        self.remove_cloid(order.client_order_id.as_str());
        events::order_event(
            order,
            OrderChange::Rejected { reason: text::append("invalid signer: ", error) },
        )
    }

    /// Ends a submit: a placed order is tracked at its chain id; a refused one is forgotten; one
    /// whose outcome is uncertain stays known by its client order id until the chain tells.
    pub fn finish_submit(
        &mut self,
        order: &Order,
        spot_market: &str,
        contract: Option<&str>,
        outcome: &SubmitOutcome,
    ) -> (r: Vec<OrderEvent>)
        requires
            old(self).wf(),
            order.valid(),
        ensures
            final(self).wf(),
            events::event_views(r@) == submit_events(*order, *outcome),
            final(self).resting() == resting_once_answered(
                old(self).resting(),
                *order,
                tracking::market_name(params::text_view(contract), spot_market@),
                *outcome,
            ),
            final(self).cloids() == cloids_once_answered(old(self).cloids(), *order, *outcome),
    {
        let mut out: Vec<OrderEvent> = Vec::new();
        match outcome {
            SubmitOutcome::Placed { chain_order_id, fully_matched } => {
                let id: String = text::u64_text(*chain_order_id);
                self.track_order(spot_market, contract, id.as_str(), order);
                out.push(
                    events::order_event(order, OrderChange::Accepted { venue_order_id: id.clone() }),
                );
                let ghost accepted = seq![
                    (order.client_order_id@, ChangeView::Accepted { venue_order_id: id@ }),
                ];
                assert(events::event_views(out@) =~= accepted);
                if *fully_matched {
                    proof {
                        text::lemma_decimal_text(*chain_order_id as nat);
                    }
                    let mut fill: Vec<OrderEvent> = tracking::emit_submit_fill(order, id.as_str());
                    let ghost more = events::event_views(fill@);
                    out.append(&mut fill);
                    assert(events::event_views(out@) =~= accepted + more);
                }
            },
            SubmitOutcome::Failed { error } => {
                if !tracking::submit_result_is_uncertain(error.as_str()) {
                    self.remove_cloid(order.client_order_id.as_str());
                    out.push(
                        events::order_event(order, OrderChange::Rejected { reason: error.clone() }),
                    );
                }
                assert(events::event_views(out@) =~= submit_events(*order, *outcome));
            },
        }
        out
    }
}

/// Why a command on an order is refused.
#[derive(Clone, Copy, Debug, PartialEq, Eq, Structural)]
pub enum CommandError {
    OrderNotFound,
    NoVenueOrderId,
    NoPrivateKey,
    InstrumentNotFound,
    InvalidVenueOrderId,
}

/// A chain order that a command is for.
#[derive(Debug)]
pub struct ChainOrder {
    pub spot_market: String,
    pub venue_order_id: String,
    pub chain_order_id: u64,
}

/// `r` is the chain order with this venue order id, or the first reason against it.
pub open spec fn is_chain_order(
    r: Result<ChainOrder, CommandError>,
    venue_order_id: Option<Seq<char>>,
    has_key: bool,
    instrument: Option<Instrument>,
) -> bool {
    match venue_order_id {
        None => r == Err::<ChainOrder, CommandError>(CommandError::NoVenueOrderId),
        Some(id) => if !has_key {
            r == Err::<ChainOrder, CommandError>(CommandError::NoPrivateKey)
        } else {
            match instrument {
                None => r == Err::<ChainOrder, CommandError>(CommandError::InstrumentNotFound),
                Some(instrument) => match text::parsed_u64(id) {
                    None => r == Err::<ChainOrder, CommandError>(
                        CommandError::InvalidVenueOrderId,
                    ),
                    Some(chain_order_id) => {
                        &&& r matches Ok(order)
                        &&& order.spot_market@ == instrument.raw_symbol@
                        &&& order.venue_order_id@ == id
                        &&& order.chain_order_id == chain_order_id
                    },
                },
            }
        },
    }
}

fn chain_order(
    venue_order_id: Option<&str>,
    has_key: bool,
    instrument: Option<&Instrument>,
) -> (r: Result<ChainOrder, CommandError>)
    ensures
        is_chain_order(r, params::text_view(venue_order_id), has_key, params::owned(instrument)),
{
    let id: &str = match venue_order_id {
        Some(id) => id,
        None => {
            return Err(CommandError::NoVenueOrderId);
        },
    };
    if !has_key {
        return Err(CommandError::NoPrivateKey);
    }
    match instrument {
        None => Err(CommandError::InstrumentNotFound),
        Some(instrument) => match text::parse_u64(id) {
            None => Err(CommandError::InvalidVenueOrderId),
            Some(chain_order_id) => Ok(
                ChainOrder {
                    spot_market: instrument.raw_symbol.clone(),
                    venue_order_id: id.to_owned(),
                    chain_order_id,
                },
            ),
        },
    }
}

/// Plans the cancel of an order.
pub fn plan_cancel(
    order: Option<&Order>,
    has_key: bool,
    instrument: Option<&Instrument>,
) -> (r: Result<ChainOrder, CommandError>)
    ensures
        match order {
            None => r == Err::<ChainOrder, CommandError>(CommandError::OrderNotFound),
            Some(order) => is_chain_order(
                r,
                params::string_view(order.venue_order_id),
                has_key,
                params::owned(instrument),
            ),
        },
{
    match order {
        None => Err(CommandError::OrderNotFound),
        Some(order) => chain_order(
            tracking::opt_str(&order.venue_order_id),
            has_key,
            instrument,
        ),
    }
}

/// What the outcome of a cancel says of the order: an order that the chain does not have counts as
/// cancelled.
pub open spec fn cancel_change(venue_order_id: Seq<char>, outcome: CallOutcome) -> ChangeView {
    match outcome {
        CallOutcome::Done => ChangeView::Canceled { venue_order_id },
        CallOutcome::InvalidSigner { error } => ChangeView::CancelRejected {
            venue_order_id,
            reason: "invalid signer: "@ + error@,
        },
        CallOutcome::Failed { error, details } => if text::has_part(
            details@,
            "Order meta not found"@,
        ) {
            ChangeView::Canceled { venue_order_id }
        } else {
            ChangeView::CancelRejected { venue_order_id, reason: error@ }
        },
    }
}

pub fn finish_cancel(order: &Order, venue_order_id: &str, outcome: &CallOutcome) -> (r: OrderEvent)
    ensures
        r@ == (order.client_order_id@, cancel_change(venue_order_id@, *outcome)),
{
    let id: String = venue_order_id.to_owned();
    let change: OrderChange = match outcome {
        CallOutcome::Done => OrderChange::Canceled { venue_order_id: id },
        CallOutcome::InvalidSigner { error } => OrderChange::CancelRejected {
            venue_order_id: id,
            reason: text::append("invalid signer: ", error.as_str()),
        },
        CallOutcome::Failed { error, details } => if tracking::chain_order_missing(
            details.as_str(),
        ) {
            OrderChange::Canceled { venue_order_id: id }
        } else {
            OrderChange::CancelRejected { venue_order_id: id, reason: error.clone() }
        },
    };
    events::order_event(order, change)
}

/// What a modify command does first.
#[derive(Debug)]
pub enum ModifyStep {
    /// The command is refused.
    Refused(CommandError),
    /// The command asks for what the venue cannot do.
    Rejected(OrderEvent),
    /// The command changes nothing.
    Nothing,
    /// The quantity of a chain order is changed.
    Update { target: ChainOrder, quantity: Quantity },
}

/// The id that an order has, or else the id that the command gives.
pub open spec fn id_of_order(order: Order, given: Option<Seq<char>>) -> Option<Seq<char>> {
    match order.venue_order_id {
        Some(id) => Some(id@),
        None => given,
    }
}

/// `r` is what a modify command does first: only quantities can be changed.
pub open spec fn is_modify_step(
    r: ModifyStep,
    order: Option<Order>,
    has_key: bool,
    changes_price: bool,
    quantity: Option<Quantity>,
    given: Option<Seq<char>>,
    instrument: Option<Instrument>,
) -> bool {
    match order {
        None => r == ModifyStep::Refused(CommandError::OrderNotFound),
        Some(order) => if !has_key {
            r == ModifyStep::Refused(CommandError::NoPrivateKey)
        } else if changes_price {
            &&& r matches ModifyStep::Rejected(event)
            &&& event@ == (
                order.client_order_id@,
                ChangeView::ModifyRejected {
                    known_id: given,
                    reason: "LightPool update_order only supports quantity changes"@,
                },
            )
        } else {
            match quantity {
                None => r is Nothing,
                Some(quantity) => exists|target: Result<ChainOrder, CommandError>|
                    {
                        &&& #[trigger] is_chain_order(
                            target,
                            id_of_order(order, given),
                            has_key,
                            instrument,
                        )
                        &&& match target {
                            Ok(target) => r == (ModifyStep::Update { target, quantity }),
                            Err(e) => r == ModifyStep::Refused(e),
                        }
                    },
            }
        },
    }
}

/// Starts a modify command.
pub fn plan_modify(
    order: Option<&Order>,
    has_key: bool,
    changes_price: bool,
    quantity: Option<Quantity>,
    given: Option<&str>,
    instrument: Option<&Instrument>,
) -> (r: ModifyStep)
    ensures
        is_modify_step(
            r,
            params::owned(order),
            has_key,
            changes_price,
            quantity,
            params::text_view(given),
            params::owned(instrument),
        ),
{
    let order: &Order = match order {
        Some(order) => order,
        None => {
            return ModifyStep::Refused(CommandError::OrderNotFound);
        },
    };
    if !has_key {
        return ModifyStep::Refused(CommandError::NoPrivateKey);
    }
    if changes_price {
        let known_id: Option<String> = match given {
            Some(id) => Some(id.to_owned()),
            None => None,
        };
        let reason: String = "LightPool update_order only supports quantity changes".to_owned();
        return ModifyStep::Rejected(
            events::order_event(order, OrderChange::ModifyRejected { known_id, reason }),
        );
    }
    let quantity: Quantity = match quantity {
        Some(quantity) => quantity,
        None => {
            return ModifyStep::Nothing;
        },
    };
    let id: Option<&str> = match &order.venue_order_id {
        Some(id) => Some(id.as_str()),
        None => given,
    };
    let target = chain_order(id, has_key, instrument);
    assert(is_chain_order(
        target,
        id_of_order(*order, params::text_view(given)),
        has_key,
        params::owned(instrument),
    ));
    match target {
        Ok(target) => ModifyStep::Update { target, quantity },
        Err(e) => ModifyStep::Refused(e),
    }
}

/// What the outcome of an update says of the order: an order that the chain does not have counts as
/// cancelled.
pub open spec fn modify_change(
    venue_order_id: Seq<char>,
    quantity: Quantity,
    outcome: CallOutcome,
) -> ChangeView {
    match outcome {
        CallOutcome::Done => ChangeView::Updated { venue_order_id, quantity },
        CallOutcome::InvalidSigner { error } => ChangeView::ModifyRejected {
            known_id: Some(venue_order_id),
            reason: "invalid signer: "@ + error@,
        },
        CallOutcome::Failed { error, details } => if text::has_part(
            details@,
            "Order meta not found"@,
        ) {
            ChangeView::Canceled { venue_order_id }
        } else {
            ChangeView::ModifyRejected { known_id: Some(venue_order_id), reason: error@ }
        },
    }
}

pub fn finish_modify(
    order: &Order,
    venue_order_id: &str,
    quantity: Quantity,
    outcome: &CallOutcome,
) -> (r: OrderEvent)
    ensures
        r@ == (order.client_order_id@, modify_change(venue_order_id@, quantity, *outcome)),
{
    let id: String = venue_order_id.to_owned();
    let change: OrderChange = match outcome {
        CallOutcome::Done => OrderChange::Updated { venue_order_id: id, quantity },
        CallOutcome::InvalidSigner { error } => OrderChange::ModifyRejected {
            known_id: Some(id),
            reason: text::append("invalid signer: ", error.as_str()),
        },
        CallOutcome::Failed { error, details } => if tracking::chain_order_missing(
            details.as_str(),
        ) {
            OrderChange::Canceled { venue_order_id: id }
        } else {
            OrderChange::ModifyRejected { known_id: Some(id), reason: error.clone() }
        },
    };
    events::order_event(order, change)
}

/// How an order is looked up in the index.
#[derive(Debug)]
pub enum OrderLookup {
    /// By its chain id.
    ById { spot_market: String, chain_order_id: String, user_filter: Option<String> },
    /// By what was sent for it.
    ByMatch {
        spot_market: String,
        user_address: String,
        side: String,
        price: String,
        size_raw: u64,
    },
    /// It cannot be looked up.
    Nothing,
}

/// How an order is looked up, texts as characters.
pub enum LookupView {
    ById {
        spot_market: Seq<char>,
        chain_order_id: Seq<char>,
        user_filter: Option<Seq<char>>,
    },
    ByMatch {
        spot_market: Seq<char>,
        user_address: Seq<char>,
        side: Seq<char>,
        price: Seq<char>,
        size_raw: u64,
    },
    Nothing,
}

impl View for OrderLookup {
    type V = LookupView;

    open spec fn view(&self) -> LookupView {
        match *self {
            OrderLookup::ById { spot_market, chain_order_id, user_filter } => LookupView::ById {
                spot_market: spot_market@,
                chain_order_id: chain_order_id@,
                user_filter: params::string_view(user_filter),
            },
            OrderLookup::ByMatch { spot_market, user_address, side, price, size_raw } => {
                LookupView::ByMatch {
                    spot_market: spot_market@,
                    user_address: user_address@,
                    side: side@,
                    price: price@,
                    size_raw,
                }
            },
            OrderLookup::Nothing => LookupView::Nothing,
        }
    }
}

/// How an order is looked up: by its chain id where it has one, else by what was sent for it.
pub open spec fn lookup(
    order: Order,
    instrument: Instrument,
    venue_order_id: Option<Seq<char>>,
    user_address: Option<Seq<char>>,
) -> Result<LookupView, PlanError> {
    let info = instrument_meta::info_of(instrument);
    let unit = amounts::unit_of(info);
    let spot_market = instrument.raw_symbol@;
    match venue_order_id {
        Some(id) => Ok(
            LookupView::ById { spot_market, chain_order_id: id, user_filter: user_address },
        ),
        None => if user_address is None || tracking::side_label(order.side) is None {
            Ok(LookupView::Nothing)
        } else {
            match order_limit_price(order, instrument) {
                Err(e) => Err(e),
                Ok(raw) => match amounts::raw_amount(order.quantity.decimal()) {
                    None => Err(PlanError::Amount(AmountError::InvalidAmount)),
                    Some(size_raw) => Ok(
                        LookupView::ByMatch {
                            spot_market,
                            user_address: user_address->Some_0,
                            side: tracking::side_label(order.side)->Some_0,
                            price: amounts::price_text(raw, unit),
                            size_raw,
                        },
                    ),
                },
            }
        },
    }
}

/// `r` is the lookup, or the same refusal.
pub open spec fn is_lookup(
    r: Result<OrderLookup, PlanError>,
    expected: Result<LookupView, PlanError>,
) -> bool {
    match expected {
        Ok(view) => r matches Ok(found) && found@ == view,
        Err(e) => r == Err::<OrderLookup, PlanError>(e),
    }
}

/// Plans how to look an order up in the index.
pub fn query_order_from_index(
    order: &Order,
    instrument: &Instrument,
    venue_order_id: Option<&str>,
    user_address: Option<&str>,
) -> (r: Result<OrderLookup, PlanError>)
    requires
        order.valid(),
    ensures
        is_lookup(
            r,
            lookup(
                *order,
                *instrument,
                params::text_view(venue_order_id),
                params::text_view(user_address),
            ),
        ),
{
    let spot_market: String = instrument.raw_symbol.clone();
    if let Some(id) = venue_order_id {
        let user_filter: Option<String> = match user_address {
            Some(address) => Some(address.to_owned()),
            None => None,
        };
        return Ok(OrderLookup::ById { spot_market, chain_order_id: id.to_owned(), user_filter });
    }
    let user_address: &str = match user_address {
        Some(address) => address,
        None => {
            return Ok(OrderLookup::Nothing);
        },
    };
    let side: &str = match tracking::order_side_label(order.side) {
        Some(side) => side,
        None => {
            return Ok(OrderLookup::Nothing);
        },
    };
    let price = match order.price {
        Some(price) => price,
        None => {
            return Err(PlanError::MissingPrice);
        },
    };
    let tick_size: u64 = amounts::tick_size_from_instrument_info(
        instrument_meta::instrument_info(instrument),
    );
    let unit: PriceUnit = instrument_meta::price_unit_for_instrument(instrument);
    let price: String = match amounts::checked_limit_price_string(
        price.as_decimal(),
        tick_size,
        unit,
    ) {
        None => {
            return Err(PlanError::PriceTooLarge);
        },
        Some(Err(e)) => {
            return Err(PlanError::Amount(e));
        },
        Some(Ok(text)) => text,
    };
    match amounts::decimal_to_raw_amount(order.quantity.as_decimal()) {
        Ok(size_raw) => Ok(
            OrderLookup::ByMatch {
                spot_market,
                user_address: user_address.to_owned(),
                side: side.to_owned(),
                price,
                size_raw,
            },
        ),
        Err(e) => Err(PlanError::Amount(e)),
    }
}

/// What a query command does first: nothing where the order or its instrument is not known.
pub fn plan_query(
    order: Option<&Order>,
    instrument: Option<&Instrument>,
    given: Option<&str>,
    user_address: Option<&str>,
) -> (r: Result<OrderLookup, PlanError>)
    requires
        order matches Some(o) ==> o.valid(),
    ensures
        order is None || instrument is None ==> (r matches Ok(found) && found is Nothing),
        order is Some && instrument is Some ==> is_lookup(
            r,
            lookup(
                *order->Some_0,
                *instrument->Some_0,
                match given {
                    Some(id) => Some(id@),
                    None => params::string_view(order->Some_0.venue_order_id),
                },
                params::text_view(user_address),
            ),
        ),
{
    match (order, instrument) {
        (Some(order), Some(instrument)) => {
            let id: Option<&str> = match given {
                Some(id) => Some(id),
                None => tracking::opt_str(&order.venue_order_id),
            };
            query_order_from_index(order, instrument, id, user_address)
        },
        _ => Ok(OrderLookup::Nothing),
    }
}

/// The status of an order as the index reports it.
#[derive(Debug)]
pub struct StatusReport {
    pub instrument_id: InstrumentId,
    pub client_order_id: String,
    pub venue_order_id: String,
    pub side: OrderSide,
    pub order_type: OrderType,
    pub time_in_force: TimeInForce,
    pub status: OrderStatus,
    pub quantity: Quantity,
    pub filled_qty: Quantity,
    pub ts_accepted: u64,
    pub ts_event: u64,
    pub ts_init: u64,
}

/// The filled quantity of an order: whole tokens, or six places.
pub open spec fn filled_quantity(filled_raw: u64) -> Quantity {
    Quantity {
        raw: (filled_raw * 1000) as u64,
        precision: if filled_raw % 1_000_000 == 0 {
            0
        } else {
            6
        },
    }
}

/// The size of the order reads as a quantity, and the filled amount fits in one.
pub open spec fn is_reportable(query: OrderQueryResponse) -> bool {
    fixed::parsed_quantity(query.size@) is Some && query.filled_raw * 1000 <= QUANTITY_RAW_MAX
}

/// `report` is the status of the order at these times.
pub open spec fn is_report(
    report: StatusReport,
    order: Order,
    query: OrderQueryResponse,
    ts_init: u64,
    ts_event: u64,
) -> bool {
    &&& report.instrument_id == order.instrument_id
    &&& report.client_order_id@ == order.client_order_id@
    &&& report.venue_order_id@ == query.chain_order_id@
    &&& report.side == order.side
    &&& report.order_type == order.order_type
    &&& report.time_in_force == order.time_in_force
    &&& report.status == tracking::status_of(query.status@, query.filled_raw)
    &&& Some((report.quantity.raw, report.quantity.precision)) == fixed::parsed_quantity(query.size@)
    &&& report.filled_qty == filled_quantity(query.filled_raw)
    &&& report.ts_accepted == match order.ts_accepted {
        Some(ts) => ts,
        None => ts_event,
    }
    &&& report.ts_event == ts_event
    &&& report.ts_init == ts_init
}

/// The quantity of a filled amount.
fn filled_quantity_of(filled_raw: u64) -> (r: Quantity)
    requires
        filled_raw * 1000 <= QUANTITY_RAW_MAX,
    ensures
        r == filled_quantity(filled_raw),
{
    let text: String = amounts::format_token_amount(filled_raw);
    let parsed: Option<Quantity> = Quantity::parse(text.as_str());
    proof {
        amounts::lemma_token_quantity(filled_raw);
    }
    match parsed {
        Some(quantity) => quantity,
        None => Quantity { raw: 0, precision: 0 },
    }
}

/// Builds the status report of an order.
pub fn build_order_status_report(
    order: &Order,
    query: &OrderQueryResponse,
    ts_init: u64,
    ts_event: u64,
) -> (r: StatusReport)
    requires
        is_reportable(*query),
        events::is_venue_id(query.chain_order_id@),
    ensures
        is_report(r, *order, *query, ts_init, ts_event),
{
    let quantity: Quantity = match Quantity::parse(query.size.as_str()) {
        Some(quantity) => quantity,
        None => Quantity { raw: 0, precision: 0 },
    };
    StatusReport {
        instrument_id: order.instrument_id.clone(),
        client_order_id: order.client_order_id.clone(),
        venue_order_id: query.chain_order_id.clone(),
        side: order.side,
        order_type: order.order_type,
        time_in_force: order.time_in_force,
        status: tracking::map_index_status(query.status.as_str(), query.filled_raw),
        quantity,
        filled_qty: filled_quantity_of(query.filled_raw),
        ts_accepted: match order.ts_accepted {
            Some(ts) => ts,
            None => ts_event,
        },
        ts_event,
        ts_init,
    }
}

/// As [`build_order_status_report`], and `None` where the answer of the index cannot be reported.
pub fn checked_order_status_report(
    order: &Order,
    query: &OrderQueryResponse,
    ts_init: u64,
    ts_event: u64,
) -> (r: Option<StatusReport>)
    ensures
        r is Some <==> is_reportable(*query) && events::is_venue_id(query.chain_order_id@),
        r matches Some(report) ==> is_report(report, *order, *query, ts_init, ts_event),
{
    if query.filled_raw > QUANTITY_RAW_MAX / 1000 || Quantity::parse(
        query.size.as_str(),
    ).is_none() || !events::valid_venue_id(query.chain_order_id.as_str()) {
        return None;
    }
    Some(build_order_status_report(order, query, ts_init, ts_event))
}

/// What a found order emits: its acceptance, where it had no venue order id.
pub fn query_acceptance(order: &Order, query: &OrderQueryResponse) -> (r: Option<OrderEvent>)
    ensures
        match r {
            Some(event) => order.venue_order_id is None && event@ == (
                order.client_order_id@,
                ChangeView::Accepted { venue_order_id: query.chain_order_id@ },
            ),
            None => order.venue_order_id is Some,
        },
{
    if order.venue_order_id.is_some() {
        return None;
    }
    Some(
        events::order_event(
            order,
            OrderChange::Accepted { venue_order_id: query.chain_order_id.clone() },
        ),
    )
}

/// A submit that may have reached the chain keeps its order: the first message that carries its
/// client order id, for a chain order that is not tracked yet, speaks of that order and has it
/// accepted under the chain id.
pub proof fn law_uncertain_submit_is_recovered(
    resting: Map<Seq<char>, Order>,
    cloids: Map<Seq<char>, Order>,
    order: Order,
    submit_market: Seq<char>,
    outcome: SubmitOutcome,
    market: Option<Seq<char>>,
    chain_order_id: Seq<char>,
)
    requires
        order.client_order_id@.len() > 0,
        outcome matches SubmitOutcome::Failed { error } && tracking::is_uncertain(error@),
        !tracking::is_tracked(resting, market, chain_order_id),
    ensures
        ({
            let resting = resting_once_answered(resting, order, submit_market, outcome);
            let cloids = cloids_once_answered(
                cloids_once_submitted(cloids, order),
                order,
                outcome,
            );
            let cloid = Some(order.client_order_id@);
            &&& tracking::resolved(resting, cloids, market, chain_order_id, cloid) == Some(order)
            &&& tracking::acceptance(resting, cloids, market, chain_order_id, cloid) == seq![
                (
                    order.client_order_id@,
                    ChangeView::Accepted { venue_order_id: chain_order_id },
                ),
            ]
        }),
{
}

/// A placed order is found by every later message at its market and chain id, whatever client
/// order id the message carries, and is not accepted again.
pub proof fn law_placed_order_is_found(
    resting: Map<Seq<char>, Order>,
    cloids: Map<Seq<char>, Order>,
    order: Order,
    market: Seq<char>,
    chain_order_id: u64,
    fully_matched: bool,
    cloid: Option<Seq<char>>,
)
    ensures
        ({
            let outcome = SubmitOutcome::Placed { chain_order_id, fully_matched };
            let resting = resting_once_answered(resting, order, market, outcome);
            let cloids = cloids_once_answered(cloids, order, outcome);
            let id = text::decimal_text(chain_order_id as nat);
            &&& tracking::resolved(resting, cloids, Some(market), id, cloid) == Some(order)
            &&& tracking::acceptance(resting, cloids, Some(market), id, cloid).len() == 0
        }),
{
}

/// A submit that failed for certain leaves nothing behind: no message finds its order by the client
/// order id, and the tracked orders and the other client order ids are as before.
pub proof fn law_failed_submit_is_forgotten(
    resting: Map<Seq<char>, Order>,
    cloids: Map<Seq<char>, Order>,
    order: Order,
    submit_market: Seq<char>,
    outcome: SubmitOutcome,
    market: Option<Seq<char>>,
    chain_order_id: Seq<char>,
)
    requires
        outcome matches SubmitOutcome::Failed { error } && !tracking::is_uncertain(error@),
    ensures
        ({
            let after = cloids_once_answered(
                cloids_once_submitted(cloids, order),
                order,
                outcome,
            );
            &&& resting_once_answered(resting, order, submit_market, outcome) == resting
            &&& after == cloids.remove(order.client_order_id@)
            &&& !tracking::is_tracked(resting, market, chain_order_id) ==> tracking::resolved(
                resting,
                after,
                market,
                chain_order_id,
                Some(order.client_order_id@),
            ) is None
        }),
{
    assert(cloids_once_submitted(cloids, order).remove(order.client_order_id@) =~= cloids.remove(
        order.client_order_id@,
    ));
}

/// What is sent of a quantity is its value: a thousand raw units make one unit of the amount. A
/// quantity with at most six places is sent without rounding, another one to the nearest amount,
/// and it is refused as of no size only where that is zero.
///
/// The product with the token scale is the one that needs no rounding.
pub proof fn law_sent_amount_is_the_quantity(quantity: Quantity)
    requires
        quantity.valid(),
        decimal::decimal_product(
            quantity.decimal().mantissa,
            quantity.decimal().scale,
            1_000_000,
            0,
        ) == Some(
            decimal::product_parts(
                quantity.decimal(),
                Decimal { mantissa: 1_000_000, scale: 0 },
            ),
        ),
    ensures
        quantity.raw % 1_000 == 0 && quantity.raw > 0 ==> (sent_amount(quantity) matches Ok(amount)
            && amount * 1_000 == quantity.raw),
        quantity.raw > 500 ==> (sent_amount(quantity) matches Ok(amount) && -500 <= amount * 1_000
            - quantity.raw <= 500),
        quantity.raw <= 500 <==> sent_amount(quantity) == Err::<u64, PlanError>(
            PlanError::ZeroSize,
        ),
{
    amounts::lemma_quantity_units(quantity);
    decimal::lemma_pow10_values();
}

/// An order is submitted exactly where it is a limit order, can be signed and its instrument is
/// known. Every other order is denied, and no denied order is remembered.
pub proof fn law_submits_start(order: Order, has_key: bool, known: bool)
    ensures
        order.order_type == OrderType::Limit && has_key && known <==> submit_start(
            order,
            has_key,
            known,
        ) == ChangeView::Submitted,
        !(order.order_type == OrderType::Limit && has_key && known) ==> submit_start(
            order,
            has_key,
            known,
        ) is Denied,
{
}

/// The outcome of a submit tells of the order alone. A placed order is accepted under its chain id,
/// written in digits, and filled in full where it matched in full. A submit that failed for certain
/// is rejected with the reason of the failure, one that may have reached the chain is not.
pub proof fn law_submit_outcomes(
    order: Order,
    chain_order_id: u64,
    fully_matched: bool,
    error: String,
)
    ensures
        ({
            let events = submit_events(
                order,
                SubmitOutcome::Placed { chain_order_id, fully_matched },
            );
            &&& events.len() == if fully_matched && order.price is Some {
                2int
            } else {
                1
            }
            &&& events[0].0 == order.client_order_id@
            &&& events[0].1 matches ChangeView::Accepted { venue_order_id } && text::parsed_u64(
                venue_order_id,
            ) == Some(chain_order_id)
            &&& events.len() == 2 ==> events[1].0 == order.client_order_id@ && (
            events[1].1 matches ChangeView::Filled { venue_order_id, fill } && text::parsed_u64(
                venue_order_id,
            ) == Some(chain_order_id) && fill.last_qty == order.quantity && Some(fill.last_px)
                == order.price)
        }),
        ({
            let events = submit_events(order, SubmitOutcome::Failed { error });
            &&& tracking::is_uncertain(error@) ==> events.len() == 0
            &&& !tracking::is_uncertain(error@) ==> events.len() == 1 && events[0].0
                == order.client_order_id@ && events[0].1 == (ChangeView::Rejected {
                reason: error@,
            })
        }),
{
    text::lemma_number_is_read_back(chain_order_id);
}

/// A cancel that is done, or whose order the chain does not have, cancels the order. Every other
/// failure rejects the cancel with its reason. All under the id of the order.
pub proof fn law_cancel_outcomes(
    id: Seq<char>,
    error: String,
    details: String,
    before: Seq<char>,
    after: Seq<char>,
)
    ensures
        cancel_change(id, CallOutcome::Done) == (ChangeView::Canceled { venue_order_id: id }),
        cancel_change(id, CallOutcome::InvalidSigner { error }) matches ChangeView::CancelRejected {
            venue_order_id,
            reason,
        } && venue_order_id == id && text::has_part(reason, error@),
        details@ == before + "Order meta not found"@ + after ==> cancel_change(
            id,
            CallOutcome::Failed { error, details },
        ) == (ChangeView::Canceled { venue_order_id: id }),
        !text::has_part(details@, "Order meta not found"@) ==> cancel_change(
            id,
            CallOutcome::Failed { error, details },
        ) == (ChangeView::CancelRejected { venue_order_id: id, reason: error@ }),
{
    text::lemma_part_in_the_middle(before, "Order meta not found"@, after);
    text::lemma_part_in_the_middle("invalid signer: "@, error@, Seq::empty());
    assert("invalid signer: "@ + error@ + Seq::<char>::empty() =~= "invalid signer: "@ + error@);
}

/// An update that is done sets the quantity that was asked for. An order that the chain does not
/// have is cancelled. Every other failure rejects the update with its reason.
pub proof fn law_modify_outcomes(
    id: Seq<char>,
    quantity: Quantity,
    error: String,
    details: String,
    before: Seq<char>,
    after: Seq<char>,
)
    ensures
        modify_change(id, quantity, CallOutcome::Done) == (ChangeView::Updated {
            venue_order_id: id,
            quantity,
        }),
        modify_change(
            id,
            quantity,
            CallOutcome::InvalidSigner { error },
        ) matches ChangeView::ModifyRejected { known_id, reason } && known_id == Some(id)
            && text::has_part(reason, error@),
        details@ == before + "Order meta not found"@ + after ==> modify_change(
            id,
            quantity,
            CallOutcome::Failed { error, details },
        ) == (ChangeView::Canceled { venue_order_id: id }),
        !text::has_part(details@, "Order meta not found"@) ==> modify_change(
            id,
            quantity,
            CallOutcome::Failed { error, details },
        ) == (ChangeView::ModifyRejected { known_id: Some(id), reason: error@ }),
{
    text::lemma_part_in_the_middle(before, "Order meta not found"@, after);
    text::lemma_part_in_the_middle("invalid signer: "@, error@, Seq::empty());
    assert("invalid signer: "@ + error@ + Seq::<char>::empty() =~= "invalid signer: "@ + error@);
}

/// The id that a submit reports leads back to the chain order: a command on the accepted order is
/// for that chain order, on the spot market of its instrument.
pub proof fn law_accepted_orders_can_be_commanded(
    r: Result<ChainOrder, CommandError>,
    order: Order,
    chain_order_id: u64,
    instrument: Instrument,
)
    requires
        submit_events(
            order,
            SubmitOutcome::Placed { chain_order_id, fully_matched: false },
        )[0].1 matches ChangeView::Accepted { venue_order_id } && is_chain_order(
            r,
            Some(venue_order_id),
            true,
            Some(instrument),
        ),
    ensures
        r matches Ok(target) && target.chain_order_id == chain_order_id && target.spot_market@
            == instrument.raw_symbol@,
{
    text::lemma_number_is_read_back(chain_order_id);
}

/// A command needs the id of the order, a key, the instrument and a number as id, and is refused
/// for the first that is missing.
pub proof fn law_commands_need_a_chain_order(
    r: Result<ChainOrder, CommandError>,
    id: Option<Seq<char>>,
    has_key: bool,
    instrument: Option<Instrument>,
)
    requires
        is_chain_order(r, id, has_key, instrument),
    ensures
        r is Ok <==> id is Some && has_key && instrument is Some && text::parsed_u64(id->Some_0)
            is Some,
        r matches Ok(target) ==> target.venue_order_id@ == id->Some_0 && Some(target.chain_order_id)
            == text::parsed_u64(id->Some_0) && target.spot_market@
            == instrument->Some_0.raw_symbol@,
        id is None ==> r == Err::<ChainOrder, CommandError>(CommandError::NoVenueOrderId),
        id is Some && !has_key ==> r == Err::<ChainOrder, CommandError>(CommandError::NoPrivateKey),
        id is Some && has_key && instrument is None ==> r == Err::<ChainOrder, CommandError>(
            CommandError::InstrumentNotFound,
        ),
{
}

/// A modify command changes quantities only. Asking for another price or trigger is rejected,
/// asking for nothing does nothing, and a quantity goes to the chain order that the order rests as:
/// its own id goes ahead of the given one.
pub proof fn law_modify_steps(
    r: ModifyStep,
    order: Option<Order>,
    has_key: bool,
    changes_price: bool,
    quantity: Option<Quantity>,
    given: Option<Seq<char>>,
    instrument: Option<Instrument>,
)
    requires
        is_modify_step(r, order, has_key, changes_price, quantity, given, instrument),
    ensures
        order is None ==> r == ModifyStep::Refused(CommandError::OrderNotFound),
        order is Some && !has_key ==> r == ModifyStep::Refused(CommandError::NoPrivateKey),
        order is Some && has_key && changes_price ==> (r matches ModifyStep::Rejected(event)
            && event@.0 == order->Some_0.client_order_id@ && event@.1 is ModifyRejected),
        order is Some && has_key && !changes_price && quantity is None ==> r is Nothing,
        order is Some && has_key && !changes_price && quantity is Some && instrument is Some ==> {
            let id = match order->Some_0.venue_order_id {
                Some(id) => Some(id@),
                None => given,
            };
            id is Some && text::parsed_u64(id->Some_0) is Some ==> (r matches ModifyStep::Update {
                target,
                quantity: sent,
            } && Some(sent) == quantity && Some(target.chain_order_id) == text::parsed_u64(
                id->Some_0,
            ) && target.spot_market@ == instrument->Some_0.raw_symbol@)
        },
{
    if order is Some && has_key && !changes_price && quantity is Some {
        let id = id_of_order(order->Some_0, given);
        let target = choose|target: Result<ChainOrder, CommandError>|
            {
                &&& #[trigger] is_chain_order(target, id, has_key, instrument)
                &&& match target {
                    Ok(target) => r == (ModifyStep::Update { target, quantity: quantity->Some_0 }),
                    Err(e) => r == ModifyStep::Refused(e),
                }
            };
        assert(is_chain_order(target, id, has_key, instrument));
    }
}

/// An order is looked up by its chain id where it has one, whoever it belongs to. Without one it is
/// looked up for its user, by side, price and size as they were sent. Without either, or without a
/// side, it is not looked up.
pub proof fn law_lookups(
    order: Order,
    instrument: Instrument,
    id: Seq<char>,
    user: Option<Seq<char>>,
)
    ensures
        lookup(order, instrument, Some(id), user) matches Ok(LookupView::ById {
            spot_market,
            chain_order_id,
            user_filter,
        }) && spot_market == instrument.raw_symbol@ && chain_order_id == id && user_filter == user,
        user is None || order.side == OrderSide::NoOrderSide ==> lookup(
            order,
            instrument,
            None,
            user,
        ) == Ok::<LookupView, PlanError>(LookupView::Nothing),
        user is Some && order.side != OrderSide::NoOrderSide && order.price is None ==> lookup(
            order,
            instrument,
            None,
            user,
        ) == Err::<LookupView, PlanError>(PlanError::MissingPrice),
        user is Some && order.side != OrderSide::NoOrderSide ==> (lookup(
            order,
            instrument,
            None,
            user,
        ) matches Ok(found) ==> (found matches LookupView::ByMatch {
            spot_market,
            user_address,
            side,
            price,
            size_raw,
        } && spot_market == instrument.raw_symbol@ && Some(user_address) == user && (order.side
            == OrderSide::Buy ==> side == "buy"@) && (order.side == OrderSide::Sell ==> side
            == "sell"@) && (order_limit_price(order, instrument) matches Ok(raw) && price
            == amounts::price_text(raw, amounts::unit_of(instrument_meta::info_of(instrument))))
            && (sent_amount(order.quantity) matches Ok(amount) ==> size_raw == amount))),
{
}

/// What the index says was filled is the filled quantity: a thousand raw units of a quantity make
/// one unit of an amount.
pub proof fn law_filled_quantities(filled_raw: u64)
    requires
        filled_raw * 1_000 <= QUANTITY_RAW_MAX,
    ensures
        filled_quantity(filled_raw).raw == filled_raw * 1_000,
        filled_quantity(filled_raw).valid(),
        filled_quantity(filled_raw).raw > 0 <==> filled_raw > 0,
{
    decimal::lemma_pow10_values();
    let n = filled_raw as int;
    if n % 1_000_000 == 0 {
        assert((n * 1_000) % 1_000_000_000 == 0);
    } else {
        assert((n * 1_000) % 1_000 == 0);
    }
}

/// For a buy the first text to read the locked token from is the quote token of the instrument, and
/// the last is the spot market. For a sell it is the base token, or the spot market without one.
pub proof fn law_locked_tokens(instrument: Instrument, spot_market: Seq<char>)
    ensures
        ({
            let buy = token_candidates(true, instrument, spot_market);
            let sell = token_candidates(false, instrument, spot_market);
            let info = instrument_meta::info_of(instrument);
            let quote = match params::param(info, "quote_token"@) {
                Some(value) => Some(value),
                None => params::param(info, "collateral_token"@),
            };
            let base = match params::param(info, "base_token"@) {
                Some(value) => Some(value),
                None => params::param(info, "outcome_token"@),
            };
            &&& buy.len() == 2 && buy[1] == spot_market
            &&& (params::value_text(quote) matches Some(t) && text::trimmed(t).len() > 0) ==> buy[0]
                == text::trimmed(params::value_text(quote)->Some_0)
            &&& sell.len() == 1
            &&& (params::value_text(base) matches Some(t) && text::trimmed(t).len() > 0) ==> sell[0]
                == text::trimmed(params::value_text(base)->Some_0)
            &&& params::value_text(base) is None ==> sell[0] == spot_market
        }),
{
    reveal_strlit("");
}

/// A report speaks of the order by its ids, side and kind, and of its state by what the index says:
/// the size, what was filled and the status. The order is accepted when the order says so, or else
/// at the time of the event.
pub proof fn law_reports_join_order_and_index(
    report: StatusReport,
    order: Order,
    query: OrderQueryResponse,
    ts_init: u64,
    ts_event: u64,
)
    requires
        is_report(report, order, query, ts_init, ts_event),
        is_reportable(query),
    ensures
        report.instrument_id == order.instrument_id,
        report.client_order_id@ == order.client_order_id@,
        report.venue_order_id@ == query.chain_order_id@,
        report.side == order.side,
        report.order_type == order.order_type,
        report.time_in_force == order.time_in_force,
        fixed::parsed_quantity(query.size@) == Some((report.quantity.raw, report.quantity.precision)),
        report.filled_qty.raw == query.filled_raw * 1_000,
        report.status == tracking::status_of(query.status@, query.filled_raw),
        order.ts_accepted matches Some(ts) ==> report.ts_accepted == ts,
        order.ts_accepted is None ==> report.ts_accepted == ts_event,
        report.ts_event == ts_event,
        report.ts_init == ts_init,
{
    law_filled_quantities(query.filled_raw);
}

} // verus!
