use lightpool_bot::fixed::{Price, Quantity};
use lightpool_bot::model::{InstrumentId, Order, OrderSide, OrderType, TimeInForce};
use lightpool_bot::strategies::liquidity_maker::config::LiquidityMakerConfig;
use lightpool_bot::strategies::liquidity_maker::levels::{
    totals_from_orders, trim_side_levels, Level,
};
use lightpool_bot::strategies::liquidity_maker::strategy::{
    reconcile_pair, sends, BookView, PairView, SkipReason,
};
use lightpool_bot::strategies::liquidity_maker::sync::{
    books_match, build_reconcile_actions, BookSnapshot, OrdersByLevel, ReconcileAction,
};

fn level(cents: i64, size: u128) -> Level {
    Level {
        price: Price { raw: cents * 10_000_000, precision: 6 },
        size_raw: size * 1_000_000_000,
        size_precision: 6,
    }
}

fn order(id: &str, side: OrderSide, cents: i64, size: u64, known: bool) -> Order {
    let quantity = Quantity { raw: size * 1_000_000_000, precision: 6 };
    Order {
        client_order_id: id.to_string(),
        instrument_id: InstrumentId {
            symbol: "rain-YES".to_string(),
            venue: "LIGHTPOOL".to_string(),
        },
        side,
        order_type: OrderType::Limit,
        time_in_force: TimeInForce::Gtc,
        quantity,
        leaves_qty: quantity,
        price: Some(Price { raw: cents * 10_000_000, precision: 6 }),
        venue_order_id: if known { Some(format!("v{id}")) } else { None },
        is_closed: false,
        is_pending_update: false,
        ts_accepted: None,
    }
}

fn config() -> LiquidityMakerConfig {
    LiquidityMakerConfig::new(vec!["event".to_string()]).with_trading_enabled(true)
}

fn view(bids: Vec<Level>, asks: Vec<Level>, open_orders: Vec<Order>) -> PairView {
    PairView {
        reference: Some(BookView { bids, asks }),
        has_strategy_id: true,
        inflight: 0,
        open_orders,
    }
}

/// A short form of an action.
fn short(action: &ReconcileAction) -> String {
    match action {
        ReconcileAction::Place { side, price, quantity } => {
            let side = if *side == OrderSide::Buy { "buy" } else { "sell" };
            format!(
                "place {side} {}@{}",
                quantity.raw / 1_000_000_000,
                price.raw / 10_000_000
            )
        }
        ReconcileAction::Cancel { client_order_id } => format!("cancel {client_order_id}"),
        ReconcileAction::Modify { client_order_id, quantity } => {
            format!("modify {client_order_id} {}", quantity.raw / 1_000_000_000)
        }
    }
}

fn plan(view: &PairView) -> Vec<String> {
    match reconcile_pair(&config(), view) {
        Ok(actions) => actions.iter().map(short).collect(),
        Err(reason) => panic!("{reason:?}"),
    }
}

/// Own orders after the actions of a plan, with the actions that are not sent too.
fn carry_out(orders: &[Order], actions: &[ReconcileAction]) -> Vec<Order> {
    let mut resting: Vec<Order> = orders.to_vec();
    for (n, action) in actions.iter().enumerate() {
        match action {
            ReconcileAction::Place { side, price, quantity } => {
                let mut placed = order(&format!("new{n}"), *side, 0, 0, true);
                placed.price = Some(*price);
                placed.quantity = *quantity;
                resting.push(placed);
            }
            ReconcileAction::Cancel { client_order_id } => {
                resting.retain(|order| order.client_order_id != *client_order_id);
            }
            ReconcileAction::Modify { client_order_id, quantity } => {
                for order in resting.iter_mut() {
                    if order.client_order_id == *client_order_id {
                        order.quantity = *quantity;
                    }
                }
            }
        }
    }
    resting
}

#[test]
fn order_levels_are_totals() {
    let orders = vec![
        order("a", OrderSide::Buy, 50, 3, true),
        order("b", OrderSide::Sell, 50, 9, true),
        order("c", OrderSide::Buy, 49, 1, true),
        order("d", OrderSide::Buy, 50, 4, true),
        order("e", OrderSide::Buy, 48, 0, true),
    ];
    let totals = totals_from_orders(&orders, OrderSide::Buy);
    let found: Vec<(i64, u128)> = totals
        .levels()
        .iter()
        .map(|level| (level.price.raw / 10_000_000, level.size_raw / 1_000_000_000))
        .collect();
    assert_eq!(found, vec![(50, 7), (49, 1)]);
    assert_eq!(totals.get(500_000_000).map(|level| level.size_raw), Some(7_000_000_000));
    assert!(totals.get(480_000_000).is_none());
}

#[test]
fn the_best_levels_are_retained() {
    let orders: Vec<Order> = [48, 50, 47, 49]
        .iter()
        .map(|cents| order(&format!("o{cents}"), OrderSide::Buy, *cents, 1, true))
        .collect();
    let totals = totals_from_orders(&orders, OrderSide::Buy);
    let prices = |depth, bids| -> Vec<i64> {
        trim_side_levels(&totals, depth, bids)
            .levels()
            .iter()
            .map(|level| level.price.raw / 10_000_000)
            .collect()
    };
    assert_eq!(prices(2, true), vec![50, 49]);
    assert_eq!(prices(2, false), vec![47, 48]);
    assert_eq!(prices(9, true), vec![50, 49, 48, 47]);
    assert_eq!(prices(0, true), Vec::<i64>::new());
}

#[test]
fn missing_levels_are_placed() {
    let actions = plan(&view(vec![level(50, 5), level(49, 2)], vec![level(52, 3)], Vec::new()));
    assert_eq!(actions, vec!["place buy 2@49", "place buy 5@50", "place sell 3@52"]);
}

#[test]
fn a_single_order_is_modified() {
    let orders = vec![order("a", OrderSide::Buy, 50, 3, true)];
    assert_eq!(plan(&view(vec![level(50, 5)], Vec::new(), orders)), vec!["modify a 5"]);
}

#[test]
fn surplus_orders_are_cancelled() {
    let orders = vec![
        order("a", OrderSide::Sell, 52, 3, true),
        order("b", OrderSide::Sell, 53, 3, false),
    ];
    assert_eq!(plan(&view(Vec::new(), Vec::new(), orders)), vec!["cancel a"]);
}

#[test]
fn several_orders_at_a_price_are_replaced() {
    let orders = vec![
        order("a", OrderSide::Buy, 50, 3, true),
        order("b", OrderSide::Buy, 50, 3, true),
    ];
    assert_eq!(
        plan(&view(vec![level(50, 5)], Vec::new(), orders)),
        vec!["cancel a", "cancel b", "place buy 5@50"]
    );
}

#[test]
fn only_the_configured_depth_is_mirrored() {
    let config = config().with_depth(1);
    let view = view(vec![level(50, 5), level(49, 2)], Vec::new(), Vec::new());
    match reconcile_pair(&config, &view) {
        Ok(actions) => assert_eq!(
            actions.iter().map(short).collect::<Vec<String>>(),
            vec!["place buy 5@50"]
        ),
        Err(reason) => panic!("{reason:?}"),
    }
}

#[test]
fn matching_books_are_left_alone() {
    let orders = vec![
        order("a", OrderSide::Buy, 50, 2, true),
        order("b", OrderSide::Buy, 50, 3, true),
        order("c", OrderSide::Sell, 52, 3, false),
    ];
    assert_eq!(
        reconcile_pair(&config(), &view(vec![level(50, 5)], vec![level(52, 3)], orders)).err(),
        Some(SkipReason::BooksMatch)
    );
}

#[test]
fn reconciling_is_skipped() {
    let full = || view(vec![level(50, 5)], Vec::new(), Vec::new());
    let skipped = |config: &LiquidityMakerConfig, view: &PairView| reconcile_pair(config, view).err();
    assert_eq!(
        skipped(&config().with_trading_enabled(false), &full()),
        Some(SkipReason::TradingDisabled)
    );
    assert_eq!(
        skipped(&config().with_lightpool_enabled(false), &full()),
        Some(SkipReason::TradingDisabled)
    );
    let mut missing = full();
    missing.reference = None;
    assert_eq!(skipped(&config(), &missing), Some(SkipReason::ReferenceBookMissing));
    let mut unnamed = full();
    unnamed.has_strategy_id = false;
    assert_eq!(skipped(&config(), &unnamed), Some(SkipReason::NoStrategyId));
    let mut busy = full();
    busy.inflight = 1;
    assert_eq!(skipped(&config(), &busy), Some(SkipReason::OrdersInFlight));
}

#[test]
fn an_order_of_no_size_is_not_placed() {
    let orders = vec![
        order("a", OrderSide::Buy, 50, 3, true),
        order("b", OrderSide::Buy, 50, 3, true),
    ];
    match reconcile_pair(&config(), &view(vec![level(50, 5)], Vec::new(), orders)) {
        Ok(actions) => {
            let sent: Vec<bool> = actions.iter().map(sends).collect();
            assert_eq!(sent, vec![true, true, true]);
        }
        Err(reason) => panic!("{reason:?}"),
    }
    assert!(!sends(&ReconcileAction::Place {
        side: OrderSide::Buy,
        price: Price { raw: 500_000_000, precision: 2 },
        quantity: Quantity { raw: 0, precision: 6 },
    }));
}

#[test]
fn a_stale_level_is_cancelled() {
    let orders = vec![
        order("a", OrderSide::Buy, 50, 5, true),
        order("stale", OrderSide::Buy, 48, 3, true),
    ];
    match reconcile_pair(&config(), &view(vec![level(50, 5)], Vec::new(), orders)) {
        Ok(actions) => {
            assert!(actions.iter().all(sends));
            match &actions[..] {
                [ReconcileAction::Cancel { client_order_id }] => {
                    assert_eq!(client_order_id, "stale");
                }
                other => panic!("{other:?}"),
            }
        }
        Err(reason) => panic!("{reason:?}"),
    }
}

#[test]
fn a_plan_carried_out_mirrors_the_reference() {
    let bids = vec![level(50, 5), level(49, 2), level(47, 4)];
    let asks = vec![level(52, 3), level(55, 1)];
    let orders = vec![
        order("a", OrderSide::Buy, 50, 3, true),
        order("b", OrderSide::Buy, 50, 1, true),
        order("c", OrderSide::Buy, 49, 7, true),
        order("d", OrderSide::Buy, 45, 2, true),
        order("e", OrderSide::Sell, 52, 3, true),
        order("f", OrderSide::Sell, 54, 8, true),
    ];
    let reference = BookSnapshot::from_book(&bids, &asks, 10);
    let actual = BookSnapshot::from_open_orders(&orders, 10);
    assert!(!books_match(&reference, &actual));
    let actions =
        build_reconcile_actions(&reference, &actual, &OrdersByLevel::from_open_orders(&orders));
    let after = BookSnapshot::from_open_orders(&carry_out(&orders, &actions), 10);
    assert!(books_match(&reference, &after));
    assert!(build_reconcile_actions(&reference, &after, &OrdersByLevel::from_open_orders(&[]))
        .is_empty());
}

#[test]
fn what_is_sent_mirrors_the_reference() {
    let bids = vec![level(50, 5), level(49, 2)];
    let orders = vec![
        order("a", OrderSide::Buy, 50, 3, true),
        order("b", OrderSide::Buy, 50, 1, true),
        order("c", OrderSide::Buy, 47, 9, true),
    ];
    let reference = BookSnapshot::from_book(&bids, &Vec::new(), 10);
    let actual = BookSnapshot::from_open_orders(&orders, 10);
    let actions: Vec<ReconcileAction> =
        build_reconcile_actions(&reference, &actual, &OrdersByLevel::from_open_orders(&orders))
            .into_iter()
            .filter(|action| sends(action))
            .collect();
    let after = BookSnapshot::from_open_orders(&carry_out(&orders, &actions), 10);
    assert!(books_match(&reference, &after));
}
