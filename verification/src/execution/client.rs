//! The execution client: its key, its connection and the user stream.

use vstd::prelude::*;

use crate::common::balances;
use crate::common::balances::AccountBalance;
use crate::common::currency;
use crate::config;
use crate::config::{Environment, LightpoolExecClientConfig};
use crate::execution::commands;
use crate::execution::events;
use crate::execution::events::{ChangeView, OrderEvent};
use crate::execution::tracking;
use crate::execution::tracking::OrderTracker;
use crate::model::Order;
use crate::params;
use crate::text;
use crate::websocket::clob_index::ClobIndexWsMessage;

verus! {

/// Balances of the account, and whether the venue reported them.
#[derive(Debug)]
pub struct AccountState {
    pub balances: Vec<AccountBalance>,
    pub reported: bool,
}

/// The execution client.
pub struct LightpoolExecutionClient {
    pub config: LightpoolExecClientConfig,
    pub private_key: Option<String>,
    pub tracker: OrderTracker,
    pub connected: bool,
    /// The user stream is read.
    pub streaming: bool,
}

/// `LIGHTPOOL-{collateral}`.
pub fn default_account_id(env: &Environment) -> (r: String)
    ensures
        r@ == "LIGHTPOOL-"@ + currency::collateral_code(*env),
{
    text::append("LIGHTPOOL-", currency::collateral_currency_code(env).as_str())
}

/// A message of the user stream can be applied: where it is read as a venue order id, its chain id
/// is one.
pub open spec fn message_applies(
    tracker: OrderTracker,
    message: ClobIndexWsMessage,
    contract: Option<Seq<char>>,
) -> bool {
    match message {
        ClobIndexWsMessage::UserOrder(m) => tracking::update_uses_id(
            tracker.resting(),
            tracker.cloids(),
            m,
            contract,
        ) ==> events::is_venue_id(m.chain_order_id@),
        ClobIndexWsMessage::UserTrade(m) => tracking::trade_uses_id(
            tracker.resting(),
            tracker.cloids(),
            m,
            contract,
        ) ==> events::is_venue_id(m.chain_order_id@),
        _ => true,
    }
}

/// What a message of the user stream emits.
pub open spec fn stream_events(
    tracker: OrderTracker,
    message: ClobIndexWsMessage,
    contract: Option<Seq<char>>,
) -> Seq<(Seq<char>, ChangeView)> {
    match message {
        ClobIndexWsMessage::UserOrder(m) => tracking::order_update_events(
            tracker.resting(),
            tracker.cloids(),
            m,
            contract,
        ),
        ClobIndexWsMessage::UserTrade(m) => tracking::trade_events(
            tracker.resting(),
            tracker.cloids(),
            m,
            contract,
        ),
        _ => Seq::empty(),
    }
}

/// The tracked orders behind a message of the user stream.
pub open spec fn resting_after(
    tracker: OrderTracker,
    message: ClobIndexWsMessage,
    contract: Option<Seq<char>>,
) -> Map<Seq<char>, Order> {
    match message {
        ClobIndexWsMessage::UserOrder(m) => tracking::tracked_after(
            tracker.resting(),
            tracker.cloids(),
            tracking::update_market(m, contract),
            m.chain_order_id@,
            tracking::update_cloid(m),
        ),
        ClobIndexWsMessage::UserTrade(m) => tracking::tracked_after(
            tracker.resting(),
            tracker.cloids(),
            tracking::trade_market(m, contract),
            m.chain_order_id@,
            params::string_view(m.cloid),
        ),
        _ => tracker.resting(),
    }
}

impl LightpoolExecutionClient {
    /// A client that is not connected. Without a key its submits are denied.
    pub fn new(config: LightpoolExecClientConfig, env: &Environment) -> (r: LightpoolExecutionClient)
        ensures
            r.config == config,
            params::string_view(r.private_key) == match config::nonempty(config.private_key) {
                Some(key) => Some(key),
                None => config::signing_key(*env),
            },
            r.tracker.wf(),
            r.tracker.resting() == Map::<Seq<char>, Order>::empty(),
            r.tracker.cloids() == Map::<Seq<char>, Order>::empty(),
            !r.connected,
            !r.streaming,
    {
        let private_key: Option<String> = match config.resolved_private_key(env) {
            Ok(key) => Some(key),
            Err(_) => None,
        };
        LightpoolExecutionClient {
            config,
            private_key,
            tracker: OrderTracker::new(),
            connected: false,
            streaming: false,
        }
    }

    pub fn is_connected(&self) -> (r: bool)
        ensures
            r == self.connected,
    {
        self.connected
    }

    /// The account state to report on connecting: the balances that were fetched, or a zero
    /// balance where there is no signer or they could not be fetched.
    pub fn connect(&mut self, fetched: Option<Vec<AccountBalance>>, env: &Environment) -> (r:
        AccountState)
        ensures
            match fetched {
                Some(list) => r.balances == list && r.reported,
                None => balances::is_placeholder(r.balances@, *env) && !r.reported,
            },
            final(self).connected,
            final(self).config == old(self).config,
            final(self).private_key == old(self).private_key,
            final(self).tracker == old(self).tracker,
            final(self).streaming == old(self).streaming,
    {
        self.connected = true;
        match fetched {
            Some(list) => AccountState { balances: list, reported: true },
            None => AccountState {
                balances: balances::placeholder_balances(env),
                reported: false,
            },
        }
    }

    /// The user stream is read from now on.
    pub fn start_ws_stream(&mut self)
        ensures
            final(self).streaming,
            final(self).connected == old(self).connected,
            final(self).config == old(self).config,
            final(self).private_key == old(self).private_key,
            final(self).tracker == old(self).tracker,
    {
        self.streaming = true;
    }

    /// Ends the connection. Tracked orders stay.
    pub fn stop(&mut self)
        ensures
            !final(self).connected,
            !final(self).streaming,
            final(self).config == old(self).config,
            final(self).private_key == old(self).private_key,
            final(self).tracker == old(self).tracker,
    {
        self.connected = false;
        self.streaming = false;
    }

    /// Starts a submit command: of an order that is in no cache nothing is emitted.
    pub fn submit_order(
        &mut self,
        order: Option<&Order>,
        client_order_id: &str,
        instrument_known: bool,
    ) -> (r: Result<OrderEvent, String>)
        requires
            old(self).tracker.wf(),
            order is Some ==> order->Some_0.valid(),
        ensures
            final(self).tracker.wf(),
            final(self).config == old(self).config,
            final(self).private_key == old(self).private_key,
            final(self).connected == old(self).connected,
            final(self).streaming == old(self).streaming,
            final(self).tracker.resting() == old(self).tracker.resting(),
            match order {
                None => r is Err && r->Err_0@ == "order not found: "@ + client_order_id@
                    && final(self).tracker.cloids() == old(self).tracker.cloids(),
                Some(order) => {
                    let start = commands::submit_start(
                        *order,
                        old(self).private_key is Some,
                        instrument_known,
                    );
                    &&& r is Ok
                    &&& r->Ok_0@ == (order.client_order_id@, start)
                    &&& final(self).tracker.cloids() == if start is Submitted
                        && order.client_order_id@.len() > 0 {
                        old(self).tracker.cloids().insert(order.client_order_id@, *order)
                    } else {
                        old(self).tracker.cloids()
                    }
                },
            },
    {
        match order {
            Some(order) => {
                let has_key: bool = self.private_key.is_some();
                Ok(self.tracker.begin_submit(order, has_key, instrument_known))
            },
            None => Err(text::append("order not found: ", client_order_id)),
        }
    }

    /// Applies a message of the user stream. `contract` is the name of the contract that the
    /// message's spot market reads as, where it reads as one.
    pub fn apply_stream_message(&mut self, message: &ClobIndexWsMessage, contract: Option<&str>) -> (r:
        Vec<OrderEvent>)
        requires
            old(self).tracker.wf(),
            message_applies(old(self).tracker, *message, params::text_view(contract)),
        ensures
            final(self).tracker.wf(),
            final(self).config == old(self).config,
            final(self).private_key == old(self).private_key,
            final(self).connected == old(self).connected,
            final(self).streaming == old(self).streaming,
            final(self).tracker.cloids() == old(self).tracker.cloids(),
            final(self).tracker.resting() == resting_after(
                old(self).tracker,
                *message,
                params::text_view(contract),
            ),
            events::event_views(r@) == stream_events(
                old(self).tracker,
                *message,
                params::text_view(contract),
            ),
    {
        match message {
            ClobIndexWsMessage::UserOrder(m) => self.tracker.apply_user_order(m, contract),
            ClobIndexWsMessage::UserTrade(m) => self.tracker.apply_user_trade(m, contract),
            _ => {
                let none: Vec<OrderEvent> = Vec::new();
                assert(events::event_views(none@) =~= Seq::empty());
                none
            },
        }
    }
}

/// Order updates and trades of the stream are applied to the tracked orders, each as what it is.
/// Other messages say nothing of orders and change none.
pub proof fn law_stream_messages(
    tracker: OrderTracker,
    message: ClobIndexWsMessage,
    contract: Option<Seq<char>>,
)
    ensures
        message matches ClobIndexWsMessage::UserTrade(m) ==> stream_events(
            tracker,
            message,
            contract,
        ) == tracking::trade_events(tracker.resting(), tracker.cloids(), m, contract),
        message matches ClobIndexWsMessage::UserOrder(m) ==> stream_events(
            tracker,
            message,
            contract,
        ) == tracking::order_update_events(tracker.resting(), tracker.cloids(), m, contract),
        !(message is UserTrade) && !(message is UserOrder) ==> stream_events(
            tracker,
            message,
            contract,
        ).len() == 0 && resting_after(tracker, message, contract) == tracker.resting(),
        forall|key: Seq<char>| #[trigger]
            tracker.resting().dom().contains(key) ==> resting_after(
                tracker,
                message,
                contract,
            ).dom().contains(key) && resting_after(tracker, message, contract)[key]
                == tracker.resting()[key],
{
}

} // verus!
