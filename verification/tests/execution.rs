use lightpool_bot::config::{Environment, LightpoolExecClientConfig};
use lightpool_bot::execution::client::{default_account_id, LightpoolExecutionClient};
use lightpool_bot::execution::commands::{
    build_order_status_report, checked_order_status_report, finish_cancel, finish_modify,
    missing_token_reason, plan_cancel, plan_limit_order, plan_modify, plan_query, query_acceptance,
    sent_amount_of, token_candidates_for_order, CallOutcome, CommandError, ModifyStep, OrderLookup,
    PlanError, SubmitOutcome,
};
use lightpool_bot::execution::events::{lightpool_trade_id, OrderChange, OrderEvent};
use lightpool_bot::execution::tracking::{
    chain_order_key, chain_order_missing, emit_closing_fill, emit_submit_fill,
    fill_quantity_for_order, map_index_status, order_side_label, submit_result_is_uncertain,
    OrderTracker,
};
use lightpool_bot::fixed::{Price, Quantity};
use lightpool_bot::http::models::OrderQueryResponse;
use lightpool_bot::model::{
    Instrument, InstrumentId, InstrumentKind, LiquiditySide, Order, OrderSide, OrderStatus,
    OrderType, TimeInForce,
};
use lightpool_bot::params::{ParamValue, Params};
use lightpool_bot::websocket::clob_index::ClobIndexWsMessage;
use lightpool_bot::websocket::models::{UserOrderMessage, UserTradeMessage};

fn env() -> Environment {
    Environment {
        clob_index_http: None,
        clob_index_ws: None,
        http_timeout_secs: None,
        http_connect_timeout_secs: None,
        private_key: Some("key".to_string()),
        collateral_token: None,
        collateral_currency: None,
        wallet_private_key: None,
    }
}

fn id() -> InstrumentId {
    InstrumentId { symbol: "rain-YES".to_string(), venue: "LIGHTPOOL".to_string() }
}

fn quantity(raw: u64) -> Quantity {
    Quantity { raw, precision: 6 }
}

fn order(venue_order_id: Option<&str>) -> Order {
    Order {
        client_order_id: "O-1".to_string(),
        instrument_id: id(),
        side: OrderSide::Buy,
        order_type: OrderType::Limit,
        time_in_force: TimeInForce::Gtc,
        quantity: quantity(5_000_000_000),
        leaves_qty: quantity(5_000_000_000),
        price: Some(Price { raw: 523_000_000, precision: 6 }),
        venue_order_id: venue_order_id.map(|id| id.to_string()),
        is_closed: false,
        is_pending_update: false,
        ts_accepted: None,
    }
}

fn instrument() -> Instrument {
    let mut info = Params::new();
    info.set("collateral_token", ParamValue::Text("0xc0".to_string()));
    info.set("outcome_token", ParamValue::Text("0x11".to_string()));
    Instrument {
        id: id(),
        raw_symbol: "0x33".to_string(),
        kind: InstrumentKind::BinaryOption,
        outcome: None,
        info: Some(info),
    }
}

fn update(event: &str, extra: &[(&str, &str)]) -> UserOrderMessage {
    let mut params = Params::new();
    for (key, value) in extra {
        params.set(key, ParamValue::Text(value.to_string()));
    }
    UserOrderMessage {
        msg_type: "order".to_string(),
        event: event.to_string(),
        user_address: "0xabc".to_string(),
        chain_order_id: "7".to_string(),
        spot_market: Some("0x33".to_string()),
        block_num: Some(12),
        extra: params,
    }
}

fn trade(fill_amount: Option<&str>, remaining: Option<&str>) -> UserTradeMessage {
    UserTradeMessage {
        msg_type: "trade".to_string(),
        user_address: "0xabc".to_string(),
        chain_order_id: "7".to_string(),
        order_id: None,
        cloid: Some("O-1".to_string()),
        market_slug: None,
        outcome: None,
        side: None,
        price: None,
        fill_amount: fill_amount.map(|amount| amount.to_string()),
        remaining_amount: remaining.map(|amount| amount.to_string()),
        is_fully_filled: None,
        spot_market: Some("0x33".to_string()),
        block_num: Some(12),
    }
}

fn tracker() -> OrderTracker {
    let mut tracker = OrderTracker::new();
    tracker.track_order("0x33", None, "7", &order(Some("7")));
    tracker
}

fn changes(events: &[OrderEvent]) -> Vec<&OrderChange> {
    events.iter().map(|event| &event.change).collect()
}

#[test]
fn labels_and_statuses() {
    assert_eq!(order_side_label(OrderSide::Buy), Some("buy"));
    assert_eq!(order_side_label(OrderSide::Sell), Some("sell"));
    assert_eq!(order_side_label(OrderSide::NoOrderSide), None);
    assert_eq!(map_index_status("filled", 0), OrderStatus::Filled);
    assert_eq!(map_index_status("cancelled", 0), OrderStatus::Canceled);
    assert_eq!(map_index_status("partial_filled", 0), OrderStatus::PartiallyFilled);
    assert_eq!(map_index_status("open", 1), OrderStatus::PartiallyFilled);
    assert_eq!(map_index_status("open", 0), OrderStatus::Accepted);
    assert_eq!(map_index_status("new", 3), OrderStatus::Accepted);
}

#[test]
fn chain_orders_are_keyed_by_market_and_id() {
    assert_eq!(chain_order_key(" 0x33 ", None, "7"), "0x33:7");
    assert_eq!(chain_order_key("0x33", Some("0x0033"), "7"), "0x0033:7");
}

#[test]
fn errors_are_told_apart() {
    for error in ["HTTP 504", "Timed OUT", "timeout", "connection reset", "error sending request"] {
        assert!(submit_result_is_uncertain(error));
    }
    assert!(!submit_result_is_uncertain("place_order failed"));
    assert!(chain_order_missing("update_order failed: Order meta not found"));
    assert!(!chain_order_missing("order meta not found"));
}

#[test]
fn fills_stay_within_what_is_left() {
    let mut order = order(None);
    assert_eq!(fill_quantity_for_order(&order, "2", false), Some(quantity(2_000_000_000)));
    order.leaves_qty = quantity(1_000_000_000);
    assert_eq!(fill_quantity_for_order(&order, "2", false), Some(quantity(1_000_000_000)));
    assert_eq!(fill_quantity_for_order(&order, "?", false), None);
    assert_eq!(fill_quantity_for_order(&order, "?", true), Some(quantity(1_000_000_000)));
    assert_eq!(fill_quantity_for_order(&order, "0", false), None);
    order.leaves_qty = quantity(0);
    assert_eq!(fill_quantity_for_order(&order, "2", false), Some(quantity(2_000_000_000)));
    assert_eq!(fill_quantity_for_order(&order, "?", true), None);
}

#[test]
fn trade_ids_keep_their_last_characters() {
    assert_eq!(lightpool_trade_id("7", 12, "trade"), "lp-trade-7-12");
    let long = lightpool_trade_id("123456789012345678901234567890", 12, "trade");
    assert_eq!(long.len(), 36);
    assert!("lp-trade-123456789012345678901234567890-12".ends_with(&long));
}

#[test]
fn closing_and_submit_fills() {
    let mut order = order(None);
    match &emit_closing_fill(&order, "7", 12)[..] {
        [OrderEvent { change: OrderChange::Filled { venue_order_id, fill }, .. }] => {
            assert_eq!(venue_order_id, "7");
            assert_eq!(fill.trade_id, "lp-filled-7-12");
            assert_eq!(fill.last_qty, order.leaves_qty);
            assert_eq!(fill.liquidity, LiquiditySide::Maker);
        }
        other => panic!("{other:?}"),
    }
    match &emit_submit_fill(&order, "7")[..] {
        [OrderEvent { change: OrderChange::Filled { fill, .. }, .. }] => {
            assert_eq!(fill.trade_id, "lp-submit-fill-7-0");
            assert_eq!(fill.liquidity, LiquiditySide::Taker);
        }
        other => panic!("{other:?}"),
    }
    order.leaves_qty = quantity(0);
    assert!(emit_closing_fill(&order, "7", 12).is_empty());
    order.price = None;
    assert!(emit_submit_fill(&order, "7").is_empty());
}

#[test]
fn a_resolved_order_stays_resolved() {
    let mut tracker = OrderTracker::new();
    tracker.cache_cloid("O-1", &order(None));
    assert!(tracker.tracked_order("0x33", None, "7").is_none());
    let mut events = Vec::new();
    let found = tracker.resolve_order(Some("0x33"), None, "7", Some("O-1"), &mut events);
    assert!(found.is_some());
    assert!(matches!(
        &events[..],
        [OrderEvent { change: OrderChange::Accepted { venue_order_id }, .. }] if venue_order_id == "7"
    ));
    let again = tracker.resolve_order(Some("0x33"), None, "7", None, &mut events);
    assert!(again.is_some());
    assert_eq!(events.len(), 1);
    tracker.remove_cloid("O-1");
    assert!(tracker.tracked_order("0x33", None, "7").is_some());
    assert!(tracker.find_order(None, None, "7", Some("O-1")).is_none());
}

#[test]
fn blank_markets_and_cloids_find_nothing() {
    let mut tracker = tracker();
    tracker.cache_cloid("", &order(None));
    let mut events = Vec::new();
    assert!(tracker
        .resolve_order(Some(""), None, "7", Some(""), &mut events)
        .is_none());
    assert!(events.is_empty());
}

#[test]
fn order_updates_become_events() {
    let mut tracker = tracker();
    assert!(matches!(
        &changes(&tracker.apply_user_order(&update("cancellation", &[]), None))[..],
        [OrderChange::Canceled { venue_order_id }] if venue_order_id == "7"
    ));
    assert!(matches!(
        &changes(&tracker.apply_user_order(&update("update", &[("status", "canceled")]), None))[..],
        [OrderChange::Canceled { .. }]
    ));
    assert!(matches!(
        &changes(&tracker.apply_user_order(&update("update", &[("status", "filled")]), None))[..],
        [OrderChange::Filled { .. }]
    ));
    assert!(matches!(
        &changes(&tracker.apply_user_order(&update("update", &[("size", "3")]), None))[..],
        [OrderChange::Updated { quantity, .. }] if quantity.raw == 3_000_000_000
    ));
    assert!(tracker.apply_user_order(&update("update", &[("size", "5.000")]), None).is_empty());
    assert!(tracker.apply_user_order(&update("update", &[("size", "?")]), None).is_empty());
    assert!(tracker.apply_user_order(&update("placement", &[("size", "3")]), None).is_empty());
    assert!(tracker.apply_user_order(&update("update", &[]), None).is_empty());
}

#[test]
fn closed_orders_change_no_more() {
    let mut tracker = OrderTracker::new();
    let mut closed = order(Some("7"));
    closed.is_closed = true;
    tracker.track_order("0x33", None, "7", &closed);
    assert!(tracker.apply_user_order(&update("cancellation", &[]), None).is_empty());
    assert!(tracker.apply_user_trade(&trade(Some("1"), None), None).is_empty());
}

#[test]
fn trades_become_fills() {
    let mut tracker = tracker();
    match &changes(&tracker.apply_user_trade(&trade(Some("2"), None), None))[..] {
        [OrderChange::Filled { venue_order_id, fill }] => {
            assert_eq!(venue_order_id, "7");
            assert_eq!(fill.trade_id, "lp-trade-7-12");
            assert_eq!(fill.last_qty, quantity(2_000_000_000));
            assert_eq!(fill.last_px.raw, 523_000_000);
        }
        other => panic!("{other:?}"),
    }
    assert!(matches!(
        &changes(&tracker.apply_user_trade(&trade(Some("?"), Some("0")), None))[..],
        [OrderChange::Filled { fill, .. }] if fill.last_qty == quantity(5_000_000_000)
    ));
    assert!(tracker.apply_user_trade(&trade(Some("?"), Some("1")), None).is_empty());
    assert!(tracker.apply_user_trade(&trade(None, Some("0")), None).is_empty());
}

#[test]
fn limit_orders_become_plans() {
    let plan = match plan_limit_order(&order(None), &instrument(), "0x33") {
        Ok(plan) => plan,
        Err(error) => panic!("{}", error.message()),
    };
    assert_eq!(plan.amount, 5_000_000);
    assert_eq!(plan.limit_price, 523_000);
    assert_eq!(plan.cloid, "O-1");
    assert_eq!(plan.token_candidates, vec!["0xc0", "0x33"]);
    assert_eq!(token_candidates_for_order(false, &instrument(), "0x33"), vec!["0x11"]);
    assert_eq!(
        missing_token_reason(true, "bad"),
        "missing collateral/quote token for buy order: bad"
    );
    assert_eq!(
        missing_token_reason(false, "bad"),
        "missing base/outcome token for sell order: bad"
    );
}

#[test]
fn bad_limit_orders_are_refused() {
    let mut bad = order(None);
    bad.price = None;
    assert_eq!(
        plan_limit_order(&bad, &instrument(), "0x33").err(),
        Some(PlanError::MissingPrice)
    );
    bad = order(None);
    bad.price = Some(Price { raw: 2_000_000_000, precision: 6 });
    assert!(matches!(
        plan_limit_order(&bad, &instrument(), "0x33"),
        Err(PlanError::Amount(_))
    ));
    bad = order(None);
    bad.side = OrderSide::NoOrderSide;
    assert_eq!(
        plan_limit_order(&bad, &instrument(), "0x33").err(),
        Some(PlanError::UnsupportedSide(OrderSide::NoOrderSide))
    );
    assert_eq!(sent_amount_of(&quantity(0)), Err(PlanError::ZeroSize));
    assert_eq!(sent_amount_of(&quantity(2_000_000_000)), Ok(2_000_000));
}

#[test]
fn submits_end_in_events() {
    let mut tracker = OrderTracker::new();
    let order = order(None);
    assert!(matches!(
        tracker.begin_submit(&order, false, true).change,
        OrderChange::Denied { reason } if reason == "LIGHTPOOL_PRIVATE_KEY not configured"
    ));
    assert!(matches!(
        tracker.begin_submit(&order, true, false).change,
        OrderChange::Denied { reason } if reason == "instrument not found in cache"
    ));
    assert!(matches!(
        tracker.begin_submit(&order, true, true).change,
        OrderChange::Submitted
    ));
    let placed = SubmitOutcome::Placed { chain_order_id: 7, fully_matched: true };
    let events = tracker.finish_submit(&order, "0x33", None, &placed);
    assert!(matches!(
        &changes(&events)[..],
        [OrderChange::Accepted { .. }, OrderChange::Filled { .. }]
    ));
    assert!(tracker.tracked_order("0x33", None, "7").is_some());
    let lost = SubmitOutcome::Failed { error: "connection reset".to_string() };
    assert!(tracker.finish_submit(&order, "0x33", None, &lost).is_empty());
    assert!(tracker.find_order(None, None, "8", Some("O-1")).is_some());
    let refused = SubmitOutcome::Failed { error: "no funds".to_string() };
    assert!(matches!(
        &changes(&tracker.finish_submit(&order, "0x33", None, &refused))[..],
        [OrderChange::Rejected { reason }] if reason == "no funds"
    ));
    assert!(tracker.find_order(None, None, "8", Some("O-1")).is_none());
    assert!(matches!(
        tracker.submit_signer_failed(&order, "bad key").change,
        OrderChange::Rejected { reason } if reason == "invalid signer: bad key"
    ));
}

#[test]
fn an_uncertain_submit_is_recovered_from_the_stream() {
    let mut tracker = OrderTracker::new();
    let order = order(None);
    tracker.begin_submit(&order, true, true);
    let lost = SubmitOutcome::Failed { error: "HTTP 504".to_string() };
    assert!(tracker.finish_submit(&order, "0x33", None, &lost).is_empty());
    let message = update("update", &[("cloid", "O-1"), ("status", "filled")]);
    assert!(matches!(
        &changes(&tracker.apply_user_order(&message, None))[..],
        [OrderChange::Accepted { venue_order_id }, OrderChange::Filled { .. }]
            if venue_order_id == "7"
    ));
    assert!(matches!(
        &changes(&tracker.apply_user_order(&message, None))[..],
        [OrderChange::Filled { .. }]
    ));
}

#[test]
fn a_closed_order_may_have_any_chain_id() {
    let mut tracker = OrderTracker::new();
    let mut closed = order(None);
    closed.is_closed = true;
    tracker.track_order("0x33", None, "", &closed);
    let mut message = update("cancellation", &[]);
    message.chain_order_id = String::new();
    assert!(tracker.apply_user_order(&message, None).is_empty());
}

#[test]
fn cancels_are_planned_and_finished() {
    let known = order(Some("7"));
    let instrument = instrument();
    match plan_cancel(Some(&known), true, Some(&instrument)) {
        Ok(target) => assert_eq!(
            (target.spot_market.as_str(), target.chain_order_id),
            ("0x33", 7)
        ),
        Err(error) => panic!("{error:?}"),
    }
    let refused = |order, key, instrument| plan_cancel(order, key, instrument).err();
    assert_eq!(refused(None, true, Some(&instrument)), Some(CommandError::OrderNotFound));
    let unknown = order(None);
    assert_eq!(
        refused(Some(&unknown), true, Some(&instrument)),
        Some(CommandError::NoVenueOrderId)
    );
    assert_eq!(
        refused(Some(&known), false, Some(&instrument)),
        Some(CommandError::NoPrivateKey)
    );
    assert_eq!(refused(Some(&known), true, None), Some(CommandError::InstrumentNotFound));
    let odd = order(Some("seven"));
    assert_eq!(
        refused(Some(&odd), true, Some(&instrument)),
        Some(CommandError::InvalidVenueOrderId)
    );
    assert!(matches!(
        finish_cancel(&known, "7", &CallOutcome::Done).change,
        OrderChange::Canceled { .. }
    ));
    let missing = CallOutcome::Failed {
        error: "cancel failed".to_string(),
        details: "cancel failed: Order meta not found".to_string(),
    };
    assert!(matches!(
        finish_cancel(&known, "7", &missing).change,
        OrderChange::Canceled { .. }
    ));
    let failed =
        CallOutcome::Failed { error: "no".to_string(), details: "no: really".to_string() };
    assert!(matches!(
        finish_cancel(&known, "7", &failed).change,
        OrderChange::CancelRejected { reason, .. } if reason == "no"
    ));
    let unsigned = CallOutcome::InvalidSigner { error: "bad".to_string() };
    assert!(matches!(
        finish_cancel(&known, "7", &unsigned).change,
        OrderChange::CancelRejected { reason, .. } if reason == "invalid signer: bad"
    ));
}

#[test]
fn modifies_change_only_the_quantity() {
    let known = order(Some("7"));
    let instrument = instrument();
    let size = Some(quantity(1_000_000_000));
    assert!(matches!(
        plan_modify(Some(&known), true, true, size, None, Some(&instrument)),
        ModifyStep::Rejected(OrderEvent { change: OrderChange::ModifyRejected { reason, .. }, .. })
            if reason == "LightPool update_order only supports quantity changes"
    ));
    assert!(matches!(
        plan_modify(Some(&known), true, false, None, None, Some(&instrument)),
        ModifyStep::Nothing
    ));
    assert!(matches!(
        plan_modify(Some(&known), true, false, size, None, Some(&instrument)),
        ModifyStep::Update { target, .. } if target.chain_order_id == 7
    ));
    let unknown = order(None);
    assert!(matches!(
        plan_modify(Some(&unknown), true, false, size, Some("9"), Some(&instrument)),
        ModifyStep::Update { target, .. } if target.chain_order_id == 9
    ));
    assert!(matches!(
        plan_modify(Some(&unknown), true, false, size, None, Some(&instrument)),
        ModifyStep::Refused(CommandError::NoVenueOrderId)
    ));
    assert!(matches!(
        finish_modify(&known, "7", quantity(1_000_000_000), &CallOutcome::Done).change,
        OrderChange::Updated { quantity, .. } if quantity.raw == 1_000_000_000
    ));
    let failed = CallOutcome::Failed { error: "no".to_string(), details: "no".to_string() };
    assert!(matches!(
        finish_modify(&known, "7", quantity(1_000_000_000), &failed).change,
        OrderChange::ModifyRejected { reason, .. } if reason == "no"
    ));
}

#[test]
fn queries_go_by_id_or_by_match() {
    let instrument = instrument();
    let known = order(Some("7"));
    assert!(matches!(
        plan_query(Some(&known), Some(&instrument), None, Some("0xabc")),
        Ok(OrderLookup::ById { chain_order_id, .. }) if chain_order_id == "7"
    ));
    let unknown = order(None);
    match plan_query(Some(&unknown), Some(&instrument), None, Some("0xabc")) {
        Ok(OrderLookup::ByMatch { spot_market, user_address, side, price, size_raw }) => {
            assert_eq!((spot_market.as_str(), user_address.as_str()), ("0x33", "0xabc"));
            assert_eq!((side.as_str(), price.as_str(), size_raw), ("buy", "52.3", 5_000_000));
        }
        other => panic!("{other:?}"),
    }
    assert!(matches!(
        plan_query(Some(&unknown), Some(&instrument), None, None),
        Ok(OrderLookup::Nothing)
    ));
    assert!(matches!(
        plan_query(None, Some(&instrument), None, Some("0xabc")),
        Ok(OrderLookup::Nothing)
    ));
}

#[test]
fn indexed_orders_are_reported() {
    let mut query = OrderQueryResponse {
        chain_order_id: "7".to_string(),
        status: "open".to_string(),
        size: "5".to_string(),
        size_raw: 5_000_000,
        filled_raw: 1_500_000,
    };
    let report = build_order_status_report(&order(None), &query, 3, 4);
    assert_eq!(report.status, OrderStatus::PartiallyFilled);
    assert_eq!(report.quantity.raw, 5_000_000_000);
    assert_eq!(report.filled_qty.raw, 1_500_000_000);
    assert_eq!((report.ts_accepted, report.ts_event, report.ts_init), (4, 4, 3));
    assert!(matches!(
        query_acceptance(&order(None), &query),
        Some(OrderEvent { change: OrderChange::Accepted { venue_order_id }, .. })
            if venue_order_id == "7"
    ));
    assert!(query_acceptance(&order(Some("7")), &query).is_none());
    query.size = "five".to_string();
    assert!(checked_order_status_report(&order(None), &query, 3, 4).is_none());
}

#[test]
fn execution_clients_report_their_account() {
    let env = env();
    assert_eq!(default_account_id(&env), "LIGHTPOOL-USDT");
    let config = LightpoolExecClientConfig::new(Vec::new(), &env);
    let mut client = LightpoolExecutionClient::new(config, &env);
    assert!(!client.is_connected());
    let state = client.connect(None, &env);
    assert!(client.is_connected());
    assert!(!state.reported);
    assert_eq!(state.balances.len(), 1);
    client.start_ws_stream();
    assert!(client.streaming);
    client.stop();
    assert!(!client.is_connected());
    assert!(!client.streaming);
}

#[test]
fn execution_clients_submit_limit_orders_only() {
    let env = env();
    let config = LightpoolExecClientConfig::new(Vec::new(), &env);
    let mut client = LightpoolExecutionClient::new(config, &env);
    assert!(matches!(
        client.submit_order(None, "O-1", true),
        Err(error) if error == "order not found: O-1"
    ));
    let mut market = order(None);
    market.order_type = OrderType::Market;
    assert!(matches!(
        client.submit_order(Some(&market), "O-1", true),
        Ok(OrderEvent { change: OrderChange::Denied { reason }, .. })
            if reason == "unsupported order type for Lightpool: Market"
    ));
    assert!(matches!(
        client.submit_order(Some(&order(None)), "O-1", true),
        Ok(OrderEvent { change: OrderChange::Submitted, .. })
    ));
    let message = ClobIndexWsMessage::UserTrade(trade(Some("1"), None));
    assert!(matches!(
        &changes(&client.apply_stream_message(&message, None))[..],
        [OrderChange::Accepted { .. }, OrderChange::Filled { .. }]
    ));
    let other = ClobIndexWsMessage::Error("no".to_string());
    assert!(client.apply_stream_message(&other, None).is_empty());
}
