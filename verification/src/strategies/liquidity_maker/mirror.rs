//! What reconcile actions do to resting orders: carried out in full, they leave the reference book.

use vstd::prelude::*;

use crate::fixed::{Quantity, QUANTITY_RAW_MAX};
use crate::model::{Order, OrderSide};
use crate::strategies::liquidity_maker::config::LiquidityMakerConfig;
use crate::strategies::liquidity_maker::levels;
use crate::strategies::liquidity_maker::levels::Level;
use crate::strategies::liquidity_maker::strategy;
use crate::strategies::liquidity_maker::strategy::{PairView, SkipReason};
use crate::strategies::liquidity_maker::sync;
use crate::strategies::liquidity_maker::sync::{
    BookSnapshot, LevelOrder, OrderGroups, OrdersByLevel, ReconcileAction,
};

verus! {

/// The orders without those of one id.
pub open spec fn without(orders: Seq<Order>, id: Seq<char>) -> Seq<Order>
    decreases orders.len(),
{
    if orders.len() == 0 {
        Seq::<Order>::empty()
    } else if orders.last().client_order_id@ == id {
        without(orders.drop_last(), id)
    } else {
        without(orders.drop_last(), id).push(orders.last())
    }
}

/// The orders with a new quantity for those of one id.
pub open spec fn resized(orders: Seq<Order>, id: Seq<char>, quantity: Quantity) -> Seq<Order>
    decreases orders.len(),
{
    if orders.len() == 0 {
        Seq::<Order>::empty()
    } else {
        let last = orders.last();
        resized(orders.drop_last(), id, quantity).push(
            if last.client_order_id@ == id {
                Order { quantity, ..last }
            } else {
                last
            },
        )
    }
}

/// The resting orders after one action: a placed order does not rest yet.
pub open spec fn resting_after(orders: Seq<Order>, action: ReconcileAction) -> Seq<Order> {
    match action {
        ReconcileAction::Place { side, price, quantity } => orders,
        ReconcileAction::Cancel { client_order_id } => without(orders, client_order_id@),
        ReconcileAction::Modify { client_order_id, quantity } => resized(
            orders,
            client_order_id@,
            quantity,
        ),
    }
}

/// The resting orders after all actions, in their order.
pub open spec fn resting_after_all(orders: Seq<Order>, actions: Seq<ReconcileAction>) -> Seq<Order>
    decreases actions.len(),
{
    if actions.len() == 0 {
        orders
    } else {
        resting_after(resting_after_all(orders, actions.drop_last()), actions.last())
    }
}

/// The size that actions place on a side at a price.
pub open spec fn placed_at(actions: Seq<ReconcileAction>, side: OrderSide, price: i64) -> int
    decreases actions.len(),
{
    if actions.len() == 0 {
        0
    } else {
        placed_at(actions.drop_last(), side, price) + placed_by(actions.last(), side, price)
    }
}

/// The size that one action places on a side at a price.
pub open spec fn placed_by(action: ReconcileAction, side: OrderSide, price: i64) -> int {
    match action {
        ReconcileAction::Place { side: s, price: p, quantity } => if s == side && p.raw == price {
            quantity.raw as int
        } else {
            0
        },
        _ => 0,
    }
}

/// The size on a side at a price once the actions are carried out.
pub open spec fn size_after(
    orders: Seq<Order>,
    actions: Seq<ReconcileAction>,
    side: OrderSide,
    price: i64,
) -> int {
    levels::total_at(resting_after_all(orders, actions), side, price) + placed_at(
        actions,
        side,
        price,
    )
}

/// No two orders share a client order id.
pub open spec fn distinct_ids(orders: Seq<Order>) -> bool {
    forall|i: int, j: int|
        0 <= i < j < orders.len() ==> (#[trigger] orders[i]).client_order_id@ != (
        #[trigger] orders[j]).client_order_id@
}

/// The venue has acknowledged every order of a side at a price.
pub open spec fn known_at(orders: Seq<Order>, side: OrderSide, price: i64) -> bool {
    forall|i: int|
        0 <= i < orders.len() && (#[trigger] orders[i]).side == side && orders[i].price is Some
            && orders[i].price->Some_0.raw == price ==> orders[i].venue_order_id is Some
}

/// One order can hold the size at a price.
pub open spec fn fits_at(reference: Seq<Level>, price: i64) -> bool {
    levels::size_at(reference, price) <= QUANTITY_RAW_MAX
}

spec fn group_without(group: Seq<LevelOrder>, id: Seq<char>) -> Seq<LevelOrder>
    decreases group.len(),
{
    if group.len() == 0 {
        Seq::<LevelOrder>::empty()
    } else if group.last().client_order_id@ == id {
        group_without(group.drop_last(), id)
    } else {
        group_without(group.drop_last(), id).push(group.last())
    }
}

spec fn group_resized(group: Seq<LevelOrder>, id: Seq<char>, quantity: Quantity) -> Seq<LevelOrder>
    decreases group.len(),
{
    if group.len() == 0 {
        Seq::<LevelOrder>::empty()
    } else {
        let last = group.last();
        group_resized(group.drop_last(), id, quantity).push(
            if last.client_order_id@ == id {
                LevelOrder { quantity, ..last }
            } else {
                last
            },
        )
    }
}

spec fn group_after(group: Seq<LevelOrder>, action: ReconcileAction) -> Seq<LevelOrder> {
    match action {
        ReconcileAction::Place { side, price, quantity } => group,
        ReconcileAction::Cancel { client_order_id } => group_without(group, client_order_id@),
        ReconcileAction::Modify { client_order_id, quantity } => group_resized(
            group,
            client_order_id@,
            quantity,
        ),
    }
}

spec fn group_after_all(group: Seq<LevelOrder>, actions: Seq<ReconcileAction>) -> Seq<LevelOrder>
    decreases actions.len(),
{
    if actions.len() == 0 {
        group
    } else {
        group_after(group_after_all(group, actions.drop_last()), actions.last())
    }
}

spec fn group_total(group: Seq<LevelOrder>) -> int
    decreases group.len(),
{
    if group.len() == 0 {
        0
    } else {
        group_total(group.drop_last()) + group.last().quantity.raw
    }
}

/// The action touches the order of this id.
spec fn touches(action: ReconcileAction, id: Seq<char>) -> bool {
    match action {
        ReconcileAction::Place { side, price, quantity } => false,
        ReconcileAction::Cancel { client_order_id } => client_order_id@ == id,
        ReconcileAction::Modify { client_order_id, quantity } => client_order_id@ == id,
    }
}

/// No action touches an order of the group.
spec fn spares(actions: Seq<ReconcileAction>, group: Seq<LevelOrder>) -> bool {
    forall|i: int, k: int|
        0 <= i < actions.len() && 0 <= k < group.len() ==> !touches(
            #[trigger] actions[i],
            (#[trigger] group[k]).client_order_id@,
        )
}

/// The orders at a price carry the total there.
proof fn lemma_total_of_group(orders: Seq<Order>, side: OrderSide, price: i64)
    ensures
        levels::total_at(orders, side, price) == group_total(
            sync::orders_at(orders, side, price),
        ),
    decreases orders.len(),
{
    if orders.len() > 0 {
        lemma_total_of_group(orders.drop_last(), side, price);
        let before = sync::orders_at(orders.drop_last(), side, price);
        let entry = sync::level_order(orders.last());
        assert(before.push(entry).drop_last() =~= before);
    }
}

proof fn lemma_without(orders: Seq<Order>, id: Seq<char>, side: OrderSide, price: i64)
    ensures
        sync::orders_at(without(orders, id), side, price) == group_without(
            sync::orders_at(orders, side, price),
            id,
        ),
    decreases orders.len(),
{
    if orders.len() > 0 {
        lemma_without(orders.drop_last(), id, side, price);
        let rest = without(orders.drop_last(), id);
        let last = orders.last();
        assert(rest.push(last).drop_last() =~= rest);
        let before = sync::orders_at(orders.drop_last(), side, price);
        assert(before.push(sync::level_order(last)).drop_last() =~= before);
    }
}

proof fn lemma_resized(
    orders: Seq<Order>,
    id: Seq<char>,
    quantity: Quantity,
    side: OrderSide,
    price: i64,
)
    ensures
        sync::orders_at(resized(orders, id, quantity), side, price) == group_resized(
            sync::orders_at(orders, side, price),
            id,
            quantity,
        ),
    decreases orders.len(),
{
    if orders.len() > 0 {
        lemma_resized(orders.drop_last(), id, quantity, side, price);
        let rest = resized(orders.drop_last(), id, quantity);
        let last = orders.last();
        let new_last = resized(orders, id, quantity).last();
        assert(resized(orders, id, quantity).drop_last() =~= rest);
        let before = sync::orders_at(orders.drop_last(), side, price);
        assert(before.push(sync::level_order(last)).drop_last() =~= before);
    }
}

proof fn lemma_groups_follow(
    orders: Seq<Order>,
    actions: Seq<ReconcileAction>,
    side: OrderSide,
    price: i64,
)
    ensures
        sync::orders_at(resting_after_all(orders, actions), side, price) == group_after_all(
            sync::orders_at(orders, side, price),
            actions,
        ),
    decreases actions.len(),
{
    if actions.len() > 0 {
        lemma_groups_follow(orders, actions.drop_last(), side, price);
        let resting = resting_after_all(orders, actions.drop_last());
        match actions.last() {
            ReconcileAction::Place { side: s, price: p, quantity } => {},
            ReconcileAction::Cancel { client_order_id } => {
                lemma_without(resting, client_order_id@, side, price);
            },
            ReconcileAction::Modify { client_order_id, quantity } => {
                lemma_resized(resting, client_order_id@, quantity, side, price);
            },
        }
    }
}

proof fn lemma_group_untouched(group: Seq<LevelOrder>, action: ReconcileAction)
    requires
        forall|k: int|
            0 <= k < group.len() ==> !touches(
                action,
                (#[trigger] group[k]).client_order_id@,
            ),
    ensures
        group_after(group, action) == group,
    decreases group.len(),
{
    if group.len() > 0 {
        let head = group.drop_last();
        assert forall|k: int| 0 <= k < head.len() implies !touches(
            action,
            (#[trigger] head[k]).client_order_id@,
        ) by {
            assert(head[k] == group[k]);
        }
        lemma_group_untouched(head, action);
        assert(!touches(action, group[group.len() - 1].client_order_id@));
        assert(head.push(group.last()) =~= group);
    } else {
        assert(group =~= Seq::<LevelOrder>::empty());
    }
}

proof fn lemma_group_spared(group: Seq<LevelOrder>, actions: Seq<ReconcileAction>)
    requires
        spares(actions, group),
    ensures
        group_after_all(group, actions) == group,
    decreases actions.len(),
{
    if actions.len() > 0 {
        let head = actions.drop_last();
        assert(spares(head, group)) by {
            assert forall|i: int, k: int| 0 <= i < head.len() && 0 <= k < group.len() implies !touches(
                #[trigger] head[i],
                (#[trigger] group[k]).client_order_id@,
            ) by {
                assert(head[i] == actions[i]);
            }
        }
        lemma_group_spared(group, head);
        assert(actions.last() == actions[actions.len() - 1]);
        lemma_group_untouched(group, actions.last());
    }
}

proof fn lemma_group_concat(
    group: Seq<LevelOrder>,
    a: Seq<ReconcileAction>,
    b: Seq<ReconcileAction>,
)
    ensures
        group_after_all(group, a + b) == group_after_all(group_after_all(group, a), b),
    decreases b.len(),
{
    if b.len() == 0 {
        assert(a + b =~= a);
    } else {
        lemma_group_concat(group, a, b.drop_last());
        assert((a + b).drop_last() =~= a + b.drop_last());
        assert((a + b).last() == b.last());
    }
}

proof fn lemma_placed_concat(
    a: Seq<ReconcileAction>,
    b: Seq<ReconcileAction>,
    side: OrderSide,
    price: i64,
)
    ensures
        placed_at(a + b, side, price) == placed_at(a, side, price) + placed_at(b, side, price),
    decreases b.len(),
{
    if b.len() == 0 {
        assert(a + b =~= a);
    } else {
        lemma_placed_concat(a, b.drop_last(), side, price);
        assert((a + b).drop_last() =~= a + b.drop_last());
        assert((a + b).last() == b.last());
    }
}

proof fn lemma_nothing_placed(actions: Seq<ReconcileAction>, side: OrderSide, price: i64)
    requires
        forall|i: int| 0 <= i < actions.len() ==> placed_by(#[trigger] actions[i], side, price) == 0,
    ensures
        placed_at(actions, side, price) == 0,
    decreases actions.len(),
{
    if actions.len() > 0 {
        let head = actions.drop_last();
        assert forall|i: int| 0 <= i < head.len() implies placed_by(#[trigger] head[i], side, price)
            == 0 by {
            assert(head[i] == actions[i]);
        }
        lemma_nothing_placed(head, side, price);
        assert(actions.last() == actions[actions.len() - 1]);
    }
}

/// Where the venue knows every order, every order can be acted on.
proof fn lemma_all_known(group: Seq<LevelOrder>)
    requires
        forall|k: int| 0 <= k < group.len() ==> (#[trigger] group[k]).has_venue_id,
    ensures
        sync::with_venue_id(group) == group,
    decreases group.len(),
{
    if group.len() > 0 {
        let head = group.drop_last();
        assert forall|k: int| 0 <= k < head.len() implies (#[trigger] head[k]).has_venue_id by {
            assert(head[k] == group[k]);
        }
        lemma_all_known(head);
        assert(group[group.len() - 1].has_venue_id);
        assert(head.push(group.last()) =~= group);
    } else {
        assert(group =~= Seq::<LevelOrder>::empty());
    }
}

/// What is left of a group was in it, and has another id.
proof fn lemma_group_without(group: Seq<LevelOrder>, id: Seq<char>)
    ensures
        forall|k: int|
            0 <= k < group_without(group, id).len() ==> {
                &&& group.contains(#[trigger] group_without(group, id)[k])
                &&& group_without(group, id)[k].client_order_id@ != id
            },
    decreases group.len(),
{
    if group.len() > 0 {
        let head = group.drop_last();
        lemma_group_without(head, id);
        let rest = group_without(group, id);
        assert forall|k: int| 0 <= k < rest.len() implies group.contains(#[trigger] rest[k])
            && rest[k].client_order_id@ != id by {
            if k < group_without(head, id).len() {
                let x = group_without(head, id)[k];
                assert(rest[k] == x);
                assert(head.contains(x));
                let j = choose|j: int| 0 <= j < head.len() && head[j] == x;
                assert(group[j] == x);
            } else {
                assert(rest[k] == group[group.len() - 1]);
            }
        }
    }
}

/// After a cancel for each listed order, what is left has none of their ids.
proof fn lemma_cancelled(group: Seq<LevelOrder>, listed: Seq<LevelOrder>)
    ensures
        forall|k: int|
            0 <= k < group_after_all(group, sync::cancels(listed)).len() ==> {
                &&& group.contains(#[trigger] group_after_all(group, sync::cancels(listed))[k])
                &&& forall|j: int|
                    0 <= j < listed.len() ==> (#[trigger] listed[j]).client_order_id@
                        != group_after_all(group, sync::cancels(listed))[k].client_order_id@
            },
    decreases listed.len(),
{
    let actions = sync::cancels(listed);
    let left = group_after_all(group, actions);
    if listed.len() == 0 {
        assert(actions.len() == 0);
        assert forall|k: int| 0 <= k < left.len() implies group.contains(#[trigger] left[k]) by {
            assert(group[k] == left[k]);
        }
    } else {
        let head = listed.drop_last();
        lemma_cancelled(group, head);
        assert(actions.drop_last() =~= sync::cancels(head));
        let before = group_after_all(group, sync::cancels(head));
        let id = listed.last().client_order_id@;
        assert(left == group_without(before, id));
        lemma_group_without(before, id);
        assert forall|k: int| 0 <= k < left.len() implies group.contains(#[trigger] left[k]) && (
        forall|j: int|
            0 <= j < listed.len() ==> (#[trigger] listed[j]).client_order_id@
                != left[k].client_order_id@) by {
            assert(before.contains(left[k]));
            let b = choose|b: int| 0 <= b < before.len() && before[b] == left[k];
            assert(group.contains(before[b]));
            assert forall|j: int| 0 <= j < listed.len() implies (
            #[trigger] listed[j]).client_order_id@ != left[k].client_order_id@ by {
                if j < head.len() {
                    assert(head[j] == listed[j]);
                    assert(head[j].client_order_id@ != before[b].client_order_id@);
                }
            }
        }
    }
}

/// Cancelling every order of a group leaves nothing.
proof fn lemma_all_cancelled(group: Seq<LevelOrder>)
    ensures
        group_after_all(group, sync::cancels(group)).len() == 0,
{
    lemma_cancelled(group, group);
    let left = group_after_all(group, sync::cancels(group));
    if left.len() > 0 {
        assert(group.contains(left[0]));
        let j = choose|j: int| 0 <= j < group.len() && group[j] == left[0];
        assert(group[j].client_order_id@ != left[0].client_order_id@);
    }
}

/// The actions of one level bring its total to the reference size.
proof fn lemma_level_reaches_reference(
    side: OrderSide,
    price: i64,
    reference: Option<Level>,
    actual: Option<Level>,
    group: Seq<LevelOrder>,
)
    requires
        reference matches Some(level) ==> level.price.raw == price && level.size_raw
            <= QUANTITY_RAW_MAX,
        group_total(group) == sync::size_of(actual),
        forall|k: int| 0 <= k < group.len() ==> (#[trigger] group[k]).has_venue_id,
    ensures
        ({
            let actions = sync::level_actions(side, reference, actual, group);
            group_total(group_after_all(group, actions)) + placed_at(actions, side, price)
                == sync::size_of(reference)
        }),
{
    let actions = sync::level_actions(side, reference, actual, group);
    lemma_all_known(group);
    let none = Seq::<ReconcileAction>::empty();
    if sync::size_of(reference) == sync::size_of(actual) {
    } else if sync::size_of(actual) == 0 {
        let action = actions[0];
        assert(actions.drop_last() =~= none);
        assert(group_after_all(group, none) == group);
        assert(placed_at(none, side, price) == 0);
    } else if sync::size_of(reference) == 0 {
        lemma_all_cancelled(group);
        lemma_nothing_placed(actions, side, price);
    } else if group.len() == 1 {
        assert(actions.drop_last() =~= none);
        assert(group_after_all(group, none) == group);
        assert(placed_at(none, side, price) == 0);
        let after = group_after(group, actions[0]);
        reveal_with_fuel(group_resized, 2);
        assert(group.drop_last() =~= Seq::<LevelOrder>::empty());
        assert(after.drop_last() =~= Seq::<LevelOrder>::empty());
        assert(group_total(after.drop_last()) == 0);
    } else {
        let first = sync::cancels(group);
        let second = sync::placing(side, reference->Some_0);
        lemma_group_concat(group, first, second);
        lemma_placed_concat(first, second, side, price);
        lemma_all_cancelled(group);
        lemma_nothing_placed(first, side, price);
        assert(second.drop_last() =~= none);
        assert(placed_at(none, side, price) == 0);
        let left = group_after_all(group, first);
        assert(group_after_all(left, none) == left);
    }
}

/// An order of a group is one of the orders at that price.
proof fn lemma_member(orders: Seq<Order>, side: OrderSide, price: i64, k: int) -> (i: int)
    requires
        0 <= k < sync::orders_at(orders, side, price).len(),
    ensures
        0 <= i < orders.len(),
        orders[i].side == side,
        orders[i].price is Some,
        orders[i].price->Some_0.raw == price,
        sync::orders_at(orders, side, price)[k] == sync::level_order(orders[i]),
    decreases orders.len(),
{
    let before = sync::orders_at(orders.drop_last(), side, price);
    if k < before.len() {
        let i = lemma_member(orders.drop_last(), side, price, k);
        assert(orders.drop_last()[i] == orders[i]);
        i
    } else {
        orders.len() - 1
    }
}

/// The actions of one level touch only orders of its group, and place only at its price.
proof fn lemma_level_actions_are_local(
    side: OrderSide,
    reference: Option<Level>,
    actual: Option<Level>,
    group: Seq<LevelOrder>,
    i: int,
)
    requires
        0 <= i < sync::level_actions(side, reference, actual, group).len(),
    ensures
        ({
            let action = sync::level_actions(side, reference, actual, group)[i];
            match action {
                ReconcileAction::Place { side: s, price, quantity } => reference is Some && price
                    == reference->Some_0.price,
                ReconcileAction::Cancel { client_order_id } => exists|k: int|
                    0 <= k < group.len() && (#[trigger] group[k]).client_order_id@
                        == client_order_id@,
                ReconcileAction::Modify { client_order_id, quantity } => exists|k: int|
                    0 <= k < group.len() && (#[trigger] group[k]).client_order_id@
                        == client_order_id@,
            }
        }),
{
    let known = sync::with_venue_id(group);
    let actions = sync::level_actions(side, reference, actual, group);
    lemma_with_venue_id(group);
    if sync::size_of(actual) == 0 {
    } else if sync::size_of(reference) == 0 {
        assert(actions[i] == ReconcileAction::Cancel { client_order_id: known[i].client_order_id });
        assert(group.contains(known[i]));
    } else if known.len() == 1 {
        assert(group.contains(known[0]));
    } else if i < known.len() {
        assert(actions[i] == ReconcileAction::Cancel { client_order_id: known[i].client_order_id });
        assert(group.contains(known[i]));
    } else {
        let second = sync::placing(side, reference->Some_0);
        assert(actions[i] == second[i - known.len()]);
    }
}

proof fn lemma_with_venue_id(group: Seq<LevelOrder>)
    ensures
        forall|k: int|
            0 <= k < sync::with_venue_id(group).len() ==> group.contains(
                #[trigger] sync::with_venue_id(group)[k],
            ),
    decreases group.len(),
{
    if group.len() > 0 {
        let head = group.drop_last();
        lemma_with_venue_id(head);
        let known = sync::with_venue_id(group);
        assert forall|k: int| 0 <= k < known.len() implies group.contains(#[trigger] known[k]) by {
            if k < sync::with_venue_id(head).len() {
                let x = sync::with_venue_id(head)[k];
                assert(known[k] == x);
                assert(head.contains(x));
                let j = choose|j: int| 0 <= j < head.len() && head[j] == x;
                assert(group[j] == x);
            } else {
                assert(known[k] == group[group.len() - 1]);
            }
        }
    }
}

/// The actions of another price leave the orders and the placed size at a price.
proof fn lemma_other_level(
    orders: Seq<Order>,
    side: OrderSide,
    reference: Seq<Level>,
    actual: Seq<Level>,
    price: i64,
    other: i64,
)
    requires
        distinct_ids(orders),
        price != other,
    ensures
        ({
            let actions = sync::level_actions(
                side,
                levels::find(reference, other),
                levels::find(actual, other),
                sync::orders_at(orders, side, other),
            );
            &&& spares(actions, sync::orders_at(orders, side, price))
            &&& placed_at(actions, side, price) == 0
        }),
{
    let from = sync::orders_at(orders, side, other);
    let here = sync::orders_at(orders, side, price);
    let r = levels::find(reference, other);
    let a = levels::find(actual, other);
    let actions = sync::level_actions(side, r, a, from);
    if r is Some {
        let i = levels::position(reference, other);
        assert(reference[i].price.raw == other);
    }
    assert forall|i: int, k: int| 0 <= i < actions.len() && 0 <= k < here.len() implies !touches(
        #[trigger] actions[i],
        (#[trigger] here[k]).client_order_id@,
    ) by {
        lemma_level_actions_are_local(side, r, a, from, i);
        if touches(actions[i], here[k].client_order_id@) {
            let j = choose|j: int|
                0 <= j < from.len() && (#[trigger] from[j]).client_order_id@
                    == here[k].client_order_id@;
            let x = lemma_member(orders, side, other, j);
            let y = lemma_member(orders, side, price, k);
            assert(x != y);
            if x < y {
                assert(orders[x].client_order_id@ != orders[y].client_order_id@);
            } else {
                assert(orders[y].client_order_id@ != orders[x].client_order_id@);
            }
        }
    }
    assert forall|i: int| 0 <= i < actions.len() implies placed_by(
        #[trigger] actions[i],
        side,
        price,
    ) == 0 by {
        lemma_level_actions_are_local(side, r, a, from, i);
    }
    lemma_nothing_placed(actions, side, price);
}

/// A group after the actions of a list of prices.
proof fn lemma_prices(
    prices: Seq<i64>,
    orders: Seq<Order>,
    side: OrderSide,
    reference: Seq<Level>,
    actual: Seq<Level>,
    groups: OrderGroups,
    price: i64,
)
    requires
        sync::increasing(prices),
        distinct_ids(orders),
        known_at(orders, side, price),
        fits_at(reference, price),
        levels::valid_orders(orders),
        orders.len() <= u32::MAX,
        levels::find(actual, price) == levels::find(levels::order_levels(orders, side), price),
        forall|p: i64| #[trigger] groups.at(p) == sync::orders_at(orders, side, p),
    ensures
        ({
            let actions = sync::actions_for(prices, side, reference, actual, groups);
            let group = sync::orders_at(orders, side, price);
            let size = group_total(group_after_all(group, actions)) + placed_at(
                actions,
                side,
                price,
            );
            &&& prices.contains(price) ==> size == levels::size_at(reference, price)
            &&& !prices.contains(price) ==> group_after_all(group, actions) == group && placed_at(
                actions,
                side,
                price,
            ) == 0
        }),
    decreases prices.len(),
{
    let group = sync::orders_at(orders, side, price);
    let actions = sync::actions_for(prices, side, reference, actual, groups);
    if prices.len() > 0 {
        let head = prices.drop_last();
        let last = prices.last();
        assert(sync::increasing(head)) by {
            assert forall|i: int, j: int| 0 <= i < j < head.len() implies #[trigger] head[i]
                < #[trigger] head[j] by {
                assert(prices[i] < prices[j]);
            }
        }
        lemma_prices(head, orders, side, reference, actual, groups, price);
        let first = sync::actions_for(head, side, reference, actual, groups);
        let r = levels::find(reference, last);
        let a = levels::find(actual, last);
        assert(groups.at(last) == sync::orders_at(orders, side, last));
        let second = sync::level_actions(side, r, a, sync::orders_at(orders, side, last));
        assert(actions == first + second);
        lemma_group_concat(group, first, second);
        lemma_placed_concat(first, second, side, price);
        assert(prices.contains(last)) by {
            assert(prices[prices.len() - 1] == last);
        }
        assert(!head.contains(last)) by {
            if head.contains(last) {
                let i = choose|i: int| 0 <= i < head.len() && head[i] == last;
                assert(prices[i] < prices[prices.len() - 1]);
            }
        }
        if price == last {
            assert forall|k: int| 0 <= k < group.len() implies (#[trigger] group[k]).has_venue_id by {
                let i = lemma_member(orders, side, price, k);
                assert(orders[i].venue_order_id is Some);
            }
            lemma_total_of_group(orders, side, price);
            levels::law_order_levels_are_totals(orders, side);
            let all = levels::order_levels(orders, side);
            assert(levels::size_at(all, price) == levels::total_at(orders, side, price));
            assert(sync::size_of(a) == levels::size_at(all, price));
            if levels::has_price(reference, price) {
                let i = levels::position(reference, price);
                assert(0 <= i < reference.len() && reference[i].price.raw == price);
            }
            lemma_level_reaches_reference(side, price, r, a, group);
        } else {
            lemma_other_level(orders, side, reference, actual, price, last);
            if head.contains(price) {
                let i = choose|i: int| 0 <= i < head.len() && head[i] == price;
                assert(prices[i] == price);
            }
            if prices.contains(price) {
                let i = choose|i: int| 0 <= i < prices.len() && prices[i] == price;
                assert(head[i] == price);
            }
            // The group may have changed; its ids have not.
            lemma_ids_stay(group, first);
            let middle = group_after_all(group, first);
            assert(spares(second, middle)) by {
                assert forall|i: int, k: int|
                    0 <= i < second.len() && 0 <= k < middle.len() implies !touches(
                    #[trigger] second[i],
                    (#[trigger] middle[k]).client_order_id@,
                ) by {
                    assert(has_id(group, middle[k].client_order_id@));
                    let j = choose|j: int|
                        0 <= j < group.len() && (#[trigger] group[j]).client_order_id@
                            == middle[k].client_order_id@;
                    assert(!touches(second[i], group[j].client_order_id@));
                }
            }
            lemma_group_spared(middle, second);
        }
    }
}

/// An order of the group has the id.
spec fn has_id(group: Seq<LevelOrder>, id: Seq<char>) -> bool {
    exists|j: int| 0 <= j < group.len() && (#[trigger] group[j]).client_order_id@ == id
}

/// Every id of `after` is one of `group`.
spec fn ids_within(after: Seq<LevelOrder>, group: Seq<LevelOrder>) -> bool {
    forall|k: int| 0 <= k < after.len() ==> has_id(group, (#[trigger] after[k]).client_order_id@)
}

/// Actions add no ids to a group.
proof fn lemma_ids_stay(group: Seq<LevelOrder>, actions: Seq<ReconcileAction>)
    ensures
        ids_within(group_after_all(group, actions), group),
    decreases actions.len(),
{
    let after = group_after_all(group, actions);
    if actions.len() > 0 {
        let head = actions.drop_last();
        lemma_ids_stay(group, head);
        let before = group_after_all(group, head);
        lemma_one_action_ids(before, actions.last());
        assert forall|k: int| 0 <= k < after.len() implies has_id(
            group,
            (#[trigger] after[k]).client_order_id@,
        ) by {
            assert(has_id(before, after[k].client_order_id@));
            let b = choose|b: int|
                0 <= b < before.len() && (#[trigger] before[b]).client_order_id@
                    == after[k].client_order_id@;
            assert(has_id(group, before[b].client_order_id@));
        }
    } else {
        assert forall|k: int| 0 <= k < after.len() implies has_id(
            group,
            (#[trigger] after[k]).client_order_id@,
        ) by {
            assert(group[k] == after[k]);
        }
    }
}

proof fn lemma_one_action_ids(group: Seq<LevelOrder>, action: ReconcileAction)
    ensures
        ids_within(group_after(group, action), group),
    decreases group.len(),
{
    let after = group_after(group, action);
    if group.len() > 0 {
        let head = group.drop_last();
        lemma_one_action_ids(head, action);
        let left = group_after(head, action);
        assert forall|k: int| 0 <= k < after.len() implies has_id(
            group,
            (#[trigger] after[k]).client_order_id@,
        ) by {
            if action is Place {
                assert(group[k].client_order_id@ == after[k].client_order_id@);
            } else if k < left.len() {
                assert(after[k] == left[k]);
                assert(has_id(head, left[k].client_order_id@));
                let j = choose|j: int|
                    0 <= j < head.len() && (#[trigger] head[j]).client_order_id@
                        == left[k].client_order_id@;
                assert(group[j] == head[j]);
            } else {
                assert(group[group.len() - 1].client_order_id@ == after[k].client_order_id@);
            }
        }
    }
}

/// The actions of a side leave the reference size at a price where its own level is looked at.
proof fn lemma_side_reaches_reference(
    orders: Seq<Order>,
    side: OrderSide,
    reference: Seq<Level>,
    actual: Seq<Level>,
    groups: OrderGroups,
    price: i64,
)
    requires
        levels::valid_orders(orders),
        orders.len() <= u32::MAX,
        distinct_ids(orders),
        known_at(orders, side, price),
        fits_at(reference, price),
        levels::find(actual, price) == levels::find(levels::order_levels(orders, side), price),
        forall|p: i64| #[trigger] groups.at(p) == sync::orders_at(orders, side, p),
    ensures
        size_after(orders, sync::side_actions(side, reference, actual, groups), side, price)
            == levels::size_at(reference, price),
{
    let prices = sync::union_prices(reference, actual);
    let actions = sync::side_actions(side, reference, actual, groups);
    sync::lemma_union_exists(reference, actual);
    assert(sync::is_sorted_union(prices, reference, actual));
    lemma_prices(prices, orders, side, reference, actual, groups, price);
    lemma_groups_follow(orders, actions, side, price);
    lemma_total_of_group(resting_after_all(orders, actions), side, price);
    if !prices.contains(price) {
        let all = levels::order_levels(orders, side);
        lemma_total_of_group(orders, side, price);
        levels::law_order_levels_are_totals(orders, side);
        assert(!levels::has_price(actual, price));
        assert(levels::size_at(all, price) == levels::total_at(orders, side, price));
    }
}

/// Carried out in full, the actions of a side leave the reference size at every price.
///
/// The actions are those for the totals of all own orders of the side. At the price, each own order
/// is acknowledged by the venue, and one order can hold the reference size.
pub proof fn law_side_actions_reach_reference(
    orders: Seq<Order>,
    side: OrderSide,
    reference: Seq<Level>,
    groups: OrderGroups,
    price: i64,
)
    requires
        levels::valid_orders(orders),
        orders.len() <= u32::MAX,
        distinct_ids(orders),
        known_at(orders, side, price),
        fits_at(reference, price),
        forall|p: i64| #[trigger] groups.at(p) == sync::orders_at(orders, side, p),
    ensures
        size_after(
            orders,
            sync::side_actions(side, reference, levels::order_levels(orders, side), groups),
            side,
            price,
        ) == levels::size_at(reference, price),
{
    let actual = levels::order_levels(orders, side);
    lemma_side_reaches_reference(orders, side, reference, actual, groups, price);
}

/// The actions that are sent to the venue.
pub open spec fn sent_only(actions: Seq<ReconcileAction>) -> Seq<ReconcileAction>
    decreases actions.len(),
{
    if actions.len() == 0 {
        Seq::<ReconcileAction>::empty()
    } else if strategy::is_sent(actions.last()) {
        sent_only(actions.drop_last()).push(actions.last())
    } else {
        sent_only(actions.drop_last())
    }
}

/// The actions that are not sent change nothing.
proof fn lemma_sent_only(
    orders: Seq<Order>,
    actions: Seq<ReconcileAction>,
    side: OrderSide,
    price: i64,
)
    ensures
        resting_after_all(orders, sent_only(actions)) == resting_after_all(orders, actions),
        placed_at(sent_only(actions), side, price) == placed_at(actions, side, price),
    decreases actions.len(),
{
    if actions.len() > 0 {
        let sent = sent_only(actions.drop_last());
        lemma_sent_only(orders, actions.drop_last(), side, price);
        assert(sent.push(actions.last()).drop_last() =~= sent);
    }
}

/// The actions of a side that are sent leave the reference size at every price.
///
/// The actions are those for the totals of all own orders of the side. At the price, each own order
/// is acknowledged by the venue, and one order can hold the reference size.
pub proof fn law_sent_actions_reach_reference(
    orders: Seq<Order>,
    side: OrderSide,
    reference: Seq<Level>,
    groups: OrderGroups,
    price: i64,
)
    requires
        levels::valid_orders(orders),
        orders.len() <= u32::MAX,
        distinct_ids(orders),
        known_at(orders, side, price),
        fits_at(reference, price),
        forall|p: i64| #[trigger] groups.at(p) == sync::orders_at(orders, side, p),
    ensures
        size_after(
            orders,
            sent_only(
                sync::side_actions(side, reference, levels::order_levels(orders, side), groups),
            ),
            side,
            price,
        ) == levels::size_at(reference, price),
{
    let actual = levels::order_levels(orders, side);
    law_side_actions_reach_reference(orders, side, reference, groups, price);
    lemma_sent_only(orders, sync::side_actions(side, reference, actual, groups), side, price);
}

/// The actions of the other side leave the orders and the placed size of a side.
proof fn lemma_other_side(
    prices: Seq<i64>,
    orders: Seq<Order>,
    side: OrderSide,
    other: OrderSide,
    reference: Seq<Level>,
    actual: Seq<Level>,
    groups: OrderGroups,
    price: i64,
)
    requires
        distinct_ids(orders),
        side != other,
        forall|p: i64| #[trigger] groups.at(p) == sync::orders_at(orders, other, p),
    ensures
        ({
            let actions = sync::actions_for(prices, other, reference, actual, groups);
            &&& spares(actions, sync::orders_at(orders, side, price))
            &&& placed_at(actions, side, price) == 0
        }),
    decreases prices.len(),
{
    let here = sync::orders_at(orders, side, price);
    let actions = sync::actions_for(prices, other, reference, actual, groups);
    if prices.len() > 0 {
        lemma_other_side(
            prices.drop_last(),
            orders,
            side,
            other,
            reference,
            actual,
            groups,
            price,
        );
        let first = sync::actions_for(prices.drop_last(), other, reference, actual, groups);
        let p = prices.last();
        let from = sync::orders_at(orders, other, p);
        let r = levels::find(reference, p);
        let a = levels::find(actual, p);
        assert(groups.at(p) == from);
        let second = sync::level_actions(other, r, a, from);
        assert(actions == first + second);
        assert forall|i: int| 0 <= i < second.len() implies placed_by(
            #[trigger] second[i],
            side,
            price,
        ) == 0 by {
            lemma_placing_side(other, r, a, from, i);
        }
        lemma_nothing_placed(second, side, price);
        lemma_placed_concat(first, second, side, price);
        assert forall|i: int, k: int| 0 <= i < actions.len() && 0 <= k < here.len() implies !touches(
            #[trigger] actions[i],
            (#[trigger] here[k]).client_order_id@,
        ) by {
            if i < first.len() {
                assert(actions[i] == first[i]);
            } else {
                assert(actions[i] == second[i - first.len()]);
                lemma_level_actions_are_local(other, r, a, from, i - first.len());
                if touches(actions[i], here[k].client_order_id@) {
                    let j = choose|j: int|
                        0 <= j < from.len() && (#[trigger] from[j]).client_order_id@
                            == here[k].client_order_id@;
                    let x = lemma_member(orders, other, p, j);
                    let y = lemma_member(orders, side, price, k);
                    if x < y {
                        assert(orders[x].client_order_id@ != orders[y].client_order_id@);
                    } else if y < x {
                        assert(orders[y].client_order_id@ != orders[x].client_order_id@);
                    }
                }
            }
        }
    }
}

/// The orders that a level places are on its side.
proof fn lemma_placing_side(
    side: OrderSide,
    reference: Option<Level>,
    actual: Option<Level>,
    group: Seq<LevelOrder>,
    i: int,
)
    requires
        0 <= i < sync::level_actions(side, reference, actual, group).len(),
    ensures
        sync::level_actions(side, reference, actual, group)[i] matches ReconcileAction::Place {
            side: s,
            price,
            quantity,
        } ==> s == side,
{
    let known = sync::with_venue_id(group);
    let actions = sync::level_actions(side, reference, actual, group);
    if sync::size_of(actual) != 0 && sync::size_of(reference) != 0 && known.len() != 1 && i
        >= known.len() {
        let second = sync::placing(side, reference->Some_0);
        assert(actions[i] == second[i - known.len()]);
    }
}

/// The levels of a list that are better than a price.
pub open spec fn ahead_of(all: Seq<Level>, price: i64, bids: bool) -> Seq<Level>
    decreases all.len(),
{
    if all.len() == 0 {
        Seq::<Level>::empty()
    } else {
        let before = ahead_of(all.drop_last(), price, bids);
        if levels::better(all.last().price.raw as int, price as int, bids) {
            before.push(all.last())
        } else {
            before
        }
    }
}

proof fn lemma_ahead_of(all: Seq<Level>, price: i64, bids: bool)
    ensures
        ahead_of(all, price, bids).len() <= all.len(),
        levels::has_price(all, price) ==> ahead_of(all, price, bids).len() < all.len(),
        forall|x: Level|
            #![trigger ahead_of(all, price, bids).contains(x)]
            #![trigger all.contains(x)]
            all.contains(x) && levels::better(x.price.raw as int, price as int, bids)
                ==> ahead_of(all, price, bids).contains(x),
    decreases all.len(),
{
    let ahead = ahead_of(all, price, bids);
    if all.len() > 0 {
        let head = all.drop_last();
        let before = ahead_of(head, price, bids);
        lemma_ahead_of(head, price, bids);
        if levels::has_price(all, price) {
            let i = levels::position(all, price);
            assert(0 <= i < all.len() && all[i].price.raw == price);
            if i < head.len() {
                assert(head[i].price.raw == price);
            }
        }
        assert forall|x: Level|
            #![trigger ahead.contains(x)]
            all.contains(x) && levels::better(x.price.raw as int, price as int, bids)
            implies ahead.contains(x) by {
            let i = choose|i: int| 0 <= i < all.len() && all[i] == x;
            if i < head.len() {
                assert(head[i] == x);
                assert(head.contains(x));
                let k = choose|k: int| 0 <= k < before.len() && before[k] == x;
                assert(ahead[k] == x);
            } else {
                assert(ahead[before.len() as int] == x);
            }
        }
    }
}

/// A level with fewer than `depth` levels ahead of it is one of the best.
proof fn lemma_top_finds(top: Seq<Level>, all: Seq<Level>, depth: int, bids: bool, price: i64)
    requires
        levels::is_top(top, all, depth, bids),
        levels::distinct_prices(all),
        levels::has_price(all, price) ==> ahead_of(all, price, bids).len() < depth,
    ensures
        levels::find(top, price) == levels::find(all, price),
{
    if levels::has_price(top, price) {
        let i = levels::position(top, price);
        assert(0 <= i < top.len() && top[i].price.raw == price);
        assert(all.contains(top[i]));
        let j = choose|j: int| 0 <= j < all.len() && all[j] == top[i];
        assert(all[j].price.raw == price);
        levels::lemma_distinct_position(all, j);
    } else if levels::has_price(all, price) {
        let j = levels::position(all, price);
        assert(0 <= j < all.len() && all[j].price.raw == price);
        let ahead = ahead_of(all, price, bids);
        lemma_ahead_of(all, price, bids);
        assert(!top.contains(all[j])) by {
            if top.contains(all[j]) {
                let i = choose|i: int| 0 <= i < top.len() && top[i] == all[j];
                assert(top[i].price.raw == price);
            }
        }
        assert(top.no_duplicates()) by {
            assert forall|a: int, b: int|
                0 <= a < top.len() && 0 <= b < top.len() && a != b implies top[a] != top[b] by {
                if a < b {
                    assert(levels::better(
                        top[a].price.raw as int,
                        top[b].price.raw as int,
                        bids,
                    ));
                } else {
                    assert(levels::better(
                        top[b].price.raw as int,
                        top[a].price.raw as int,
                        bids,
                    ));
                }
            }
        }
        top.unique_seq_to_set();
        assert(top.to_set().subset_of(ahead.to_set())) by {
            assert forall|x: Level| #[trigger] top.to_set().contains(
                x,
            ) implies ahead.to_set().contains(x) by {
                let i = choose|i: int| 0 <= i < top.len() && top[i] == x;
                assert(all.contains(top[i]));
                assert(levels::better(top[i].price.raw as int, all[j].price.raw as int, bids));
                assert(ahead.contains(x));
            }
        }
        vstd::set_lib::lemma_len_subset(top.to_set(), ahead.to_set());
        ahead.lemma_cardinality_of_set();
        assert(false);
    }
}

/// The levels of one side of a snapshot.
pub open spec fn side_of(book: BookSnapshot, side: OrderSide) -> Seq<Level> {
    if side == OrderSide::Buy {
        book.bids.levels@
    } else {
        book.asks.levels@
    }
}

/// The strategy looks at the own level at a price, where there is one: fewer own levels than it
/// looks at are better.
pub open spec fn is_seen(
    config: LiquidityMakerConfig,
    orders: Seq<Order>,
    side: OrderSide,
    price: i64,
) -> bool {
    let own = levels::order_levels(orders, side);
    levels::has_price(own, price) ==> ahead_of(own, price, side == OrderSide::Buy).len()
        < strategy::depth_of(config)
}

/// Where the own orders of a side stand at no more prices than the strategy looks at, it looks at
/// all of them.
pub proof fn law_shallow_orders_are_seen(
    config: LiquidityMakerConfig,
    orders: Seq<Order>,
    side: OrderSide,
    price: i64,
)
    requires
        levels::order_levels(orders, side).len() <= strategy::depth_of(config),
    ensures
        is_seen(config, orders, side, price),
{
    lemma_ahead_of(levels::order_levels(orders, side), price, side == OrderSide::Buy);
}

/// The levels of one side of the reference book that a pair is reconciled by.
pub open spec fn reference_levels(
    config: LiquidityMakerConfig,
    view: PairView,
    side: OrderSide,
) -> Seq<Level> {
    let book = view.reference->Some_0;
    sync::first_levels(
        if side == OrderSide::Buy {
            book.bids@
        } else {
            book.asks@
        },
        strategy::depth_of(config),
    )
}

/// The actions of a reconcile: none where it does nothing.
pub open spec fn planned(r: Result<Vec<ReconcileAction>, SkipReason>) -> Seq<ReconcileAction> {
    match r {
        Ok(actions) => actions@,
        Err(_) => Seq::empty(),
    }
}

/// What is sent to reconcile a pair mirrors the reference: carried out, it leaves on both sides the
/// sizes of the first levels of the reference book, and nothing else.
///
/// The pair is not skipped. At the price, the own orders are acknowledged by the venue and the
/// strategy looks at their level, and one order can hold the reference size.
pub proof fn law_reconcile_mirrors_reference(
    config: LiquidityMakerConfig,
    view: PairView,
    r: Result<Vec<ReconcileAction>, SkipReason>,
    side: OrderSide,
    price: i64,
)
    requires
        view.valid(),
        strategy::skip_reason(config, view) is None,
        strategy::is_reconcile_result(config, view, r),
        distinct_ids(view.open_orders@),
        known_at(view.open_orders@, side, price),
        fits_at(reference_levels(config, view, side), price),
        is_seen(config, view.open_orders@, side, price),
        side == OrderSide::Buy || side == OrderSide::Sell,
    ensures
        size_after(view.open_orders@, sent_only(planned(r)), side, price) == levels::size_at(
            reference_levels(config, view, side),
            price,
        ),
{
    let (reference, actual, orders) = choose|
        reference: BookSnapshot,
        actual: BookSnapshot,
        orders: OrdersByLevel,
    |
        {
            &&& #[trigger] strategy::are_snapshots(config, view, reference, actual, orders)
            &&& if sync::same_levels(reference.bids.levels@, actual.bids.levels@)
                && sync::same_levels(reference.asks.levels@, actual.asks.levels@) {
                r == Err::<Vec<ReconcileAction>, SkipReason>(SkipReason::BooksMatch)
            } else {
                r matches Ok(actions) && actions@ == sync::reconcile_actions(
                    reference,
                    actual,
                    orders,
                )
            }
        };
    lemma_snapshots_mirror_reference(config, view, reference, actual, orders, side, price);
    if r is Err {
        law_matching_books_need_no_action(reference, actual, orders);
        assert(sync::reconcile_actions(reference, actual, orders) =~= planned(r));
    }
    lemma_sent_only(view.open_orders@, planned(r), side, price);
}

proof fn lemma_snapshots_mirror_reference(
    config: LiquidityMakerConfig,
    view: PairView,
    reference: BookSnapshot,
    actual: BookSnapshot,
    orders: OrdersByLevel,
    side: OrderSide,
    price: i64,
)
    requires
        view.valid(),
        view.reference is Some,
        strategy::are_snapshots(config, view, reference, actual, orders),
        distinct_ids(view.open_orders@),
        known_at(view.open_orders@, side, price),
        fits_at(side_of(reference, side), price),
        is_seen(config, view.open_orders@, side, price),
        side == OrderSide::Buy || side == OrderSide::Sell,
    ensures
        size_after(
            view.open_orders@,
            sync::reconcile_actions(reference, actual, orders),
            side,
            price,
        ) == levels::size_at(side_of(reference, side), price),
{
    let own = view.open_orders@;
    let depth = strategy::depth_of(config);
    let bids = actual.bids.levels@;
    let asks = actual.asks.levels@;
    levels::law_order_levels_are_totals(own, side);
    lemma_top_finds(
        side_of(actual, side),
        levels::order_levels(own, side),
        depth,
        side == OrderSide::Buy,
        price,
    );
    let buys = sync::side_actions(OrderSide::Buy, reference.bids.levels@, bids, orders.bids);
    let sells = sync::side_actions(OrderSide::Sell, reference.asks.levels@, asks, orders.asks);
    let all = sync::reconcile_actions(reference, actual, orders);
    assert(all == buys + sells);
    let group = sync::orders_at(own, side, price);
    lemma_group_concat(group, buys, sells);
    lemma_placed_concat(buys, sells, side, price);
    lemma_groups_follow(own, all, side, price);
    lemma_total_of_group(resting_after_all(own, all), side, price);
    if side == OrderSide::Buy {
        lemma_side_reaches_reference(
            own,
            side,
            reference.bids.levels@,
            bids,
            orders.bids,
            price,
        );
        lemma_groups_follow(own, buys, side, price);
        lemma_total_of_group(resting_after_all(own, buys), side, price);
        lemma_other_side(
            sync::union_prices(reference.asks.levels@, asks),
            own,
            side,
            OrderSide::Sell,
            reference.asks.levels@,
            asks,
            orders.asks,
            price,
        );
        lemma_ids_stay(group, buys);
        let middle = group_after_all(group, buys);
        lemma_spares_within(sells, group, middle);
        lemma_group_spared(middle, sells);
    } else {
        lemma_side_reaches_reference(
            own,
            side,
            reference.asks.levels@,
            asks,
            orders.asks,
            price,
        );
        lemma_groups_follow(own, sells, side, price);
        lemma_total_of_group(resting_after_all(own, sells), side, price);
        lemma_other_side(
            sync::union_prices(reference.bids.levels@, bids),
            own,
            side,
            OrderSide::Buy,
            reference.bids.levels@,
            bids,
            orders.bids,
            price,
        );
        lemma_group_spared(group, buys);
    }
}

/// Actions that spare a group spare what is left of it.
proof fn lemma_spares_within(
    actions: Seq<ReconcileAction>,
    group: Seq<LevelOrder>,
    left: Seq<LevelOrder>,
)
    requires
        spares(actions, group),
        ids_within(left, group),
    ensures
        spares(actions, left),
{
    assert forall|i: int, k: int| 0 <= i < actions.len() && 0 <= k < left.len() implies !touches(
        #[trigger] actions[i],
        (#[trigger] left[k]).client_order_id@,
    ) by {
        assert(has_id(group, left[k].client_order_id@));
        let j = choose|j: int|
            0 <= j < group.len() && (#[trigger] group[j]).client_order_id@
                == left[k].client_order_id@;
        assert(!touches(actions[i], group[j].client_order_id@));
    }
}

/// Books that match need no action.
pub proof fn law_matching_books_need_no_action(
    reference: BookSnapshot,
    actual: BookSnapshot,
    orders: OrdersByLevel,
)
    requires
        sync::same_levels(reference.bids.levels@, actual.bids.levels@),
        sync::same_levels(reference.asks.levels@, actual.asks.levels@),
    ensures
        sync::reconcile_actions(reference, actual, orders).len() == 0,
{
    lemma_no_action(
        sync::union_prices(reference.bids.levels@, actual.bids.levels@),
        OrderSide::Buy,
        reference.bids.levels@,
        actual.bids.levels@,
        orders.bids,
    );
    lemma_no_action(
        sync::union_prices(reference.asks.levels@, actual.asks.levels@),
        OrderSide::Sell,
        reference.asks.levels@,
        actual.asks.levels@,
        orders.asks,
    );
}

proof fn lemma_no_action(
    prices: Seq<i64>,
    side: OrderSide,
    reference: Seq<Level>,
    actual: Seq<Level>,
    orders: OrderGroups,
)
    requires
        sync::same_levels(reference, actual),
    ensures
        sync::actions_for(prices, side, reference, actual, orders).len() == 0,
    decreases prices.len(),
{
    if prices.len() > 0 {
        lemma_no_action(prices.drop_last(), side, reference, actual, orders);
        let p = prices.last();
        assert(levels::has_price(reference, p) <==> levels::has_price(actual, p));
        assert(levels::size_at(reference, p) == levels::size_at(actual, p));
    }
}

/// The levels of one side of the reference book.
pub open spec fn book_side(view: PairView, side: OrderSide) -> Seq<Level> {
    if side == OrderSide::Buy {
        view.reference->Some_0.bids@
    } else {
        view.reference->Some_0.asks@
    }
}

/// Orders at few prices are all looked at.
proof fn lemma_few_orders_are_seen(
    config: LiquidityMakerConfig,
    orders: Seq<Order>,
    side: OrderSide,
    price: i64,
)
    requires
        levels::valid_orders(orders),
        orders.len() <= u32::MAX,
        orders.len() <= config.depth,
    ensures
        is_seen(config, orders, side, price),
{
    levels::law_order_levels_are_totals(orders, side);
    law_shallow_orders_are_seen(config, orders, side, price);
}

/// The levels that a pair is reconciled by are the first of the book, `config.depth` of them and at
/// least one.
pub proof fn law_reference_levels_are_the_first(config: LiquidityMakerConfig, view: PairView, side: OrderSide)
    requires
        view.reference is Some,
    ensures
        ({
            let book = book_side(view, side);
            let depth = if config.depth == 0 {
                1int
            } else {
                config.depth as int
            };
            let kept = reference_levels(config, view, side);
            &&& kept.len() == if depth < book.len() {
                depth
            } else {
                book.len() as int
            }
            &&& forall|i: int| 0 <= i < kept.len() ==> #[trigger] kept[i] == book[i]
        }),
{
}

/// Each of the first `config.depth` levels of a side of the reference book, and of at least one, is
/// mirrored: what is sent leaves exactly its size at its price.
///
/// At the price, the own orders are acknowledged by the venue and their level is looked at, as it is
/// where there are no more own orders than levels to look at, and one order can hold the size.
pub proof fn law_each_level_is_mirrored(
    config: LiquidityMakerConfig,
    view: PairView,
    r: Result<Vec<ReconcileAction>, SkipReason>,
    side: OrderSide,
    i: int,
)
    requires
        view.valid(),
        config.trading_enabled,
        config.lightpool_enabled,
        view.reference is Some,
        view.has_strategy_id,
        view.inflight == 0,
        strategy::is_reconcile_result(config, view, r),
        distinct_ids(view.open_orders@),
        side == OrderSide::Buy || side == OrderSide::Sell,
        0 <= i < (if side == OrderSide::Buy {
            view.reference->Some_0.bids@
        } else {
            view.reference->Some_0.asks@
        }).len(),
        i < config.depth || i == 0,
        known_at(view.open_orders@, side, book_side(view, side)[i].price.raw),
        book_side(view, side)[i].size_raw <= QUANTITY_RAW_MAX,
        is_seen(config, view.open_orders@, side, book_side(view, side)[i].price.raw)
            || view.open_orders@.len() <= config.depth,
    ensures
        side == OrderSide::Buy ==> size_after(
            view.open_orders@,
            sent_only(planned(r)),
            side,
            view.reference->Some_0.bids@[i].price.raw,
        ) == view.reference->Some_0.bids@[i].size_raw,
        side == OrderSide::Sell ==> size_after(
            view.open_orders@,
            sent_only(planned(r)),
            side,
            view.reference->Some_0.asks@[i].price.raw,
        ) == view.reference->Some_0.asks@[i].size_raw,
{
    let book = book_side(view, side);
    let price = book[i].price.raw;
    let kept = reference_levels(config, view, side);
    law_reference_levels_are_the_first(config, view, side);
    if view.open_orders@.len() <= config.depth {
        lemma_few_orders_are_seen(config, view.open_orders@, side, price);
    }
    assert(kept[i] == book[i]);
    assert(levels::distinct_prices(kept)) by {
        assert forall|a: int, b: int| 0 <= a < b < kept.len() implies (
        #[trigger] kept[a]).price.raw != (#[trigger] kept[b]).price.raw by {
            assert(book[a].price.raw != book[b].price.raw);
        }
    }
    levels::lemma_distinct_position(kept, i);
    law_reconcile_mirrors_reference(config, view, r, side, price);
}

/// Nothing is left at a price that is none of the first `config.depth` levels of the side of the
/// reference book.
///
/// At the price, the own orders are acknowledged by the venue and their level is looked at, as it is
/// where there are no more own orders than levels to look at.
pub proof fn law_nothing_is_left_elsewhere(
    config: LiquidityMakerConfig,
    view: PairView,
    r: Result<Vec<ReconcileAction>, SkipReason>,
    side: OrderSide,
    price: i64,
)
    requires
        view.valid(),
        config.trading_enabled,
        config.lightpool_enabled,
        view.reference is Some,
        view.has_strategy_id,
        view.inflight == 0,
        strategy::is_reconcile_result(config, view, r),
        distinct_ids(view.open_orders@),
        side == OrderSide::Buy || side == OrderSide::Sell,
        forall|i: int|
            0 <= i < book_side(view, side).len() && (i < config.depth || i == 0) ==> (
            #[trigger] book_side(view, side)[i]).price.raw != price,
        known_at(view.open_orders@, side, price),
        is_seen(config, view.open_orders@, side, price) || view.open_orders@.len() <= config.depth,
    ensures
        size_after(view.open_orders@, sent_only(planned(r)), side, price) == 0,
{
    let kept = reference_levels(config, view, side);
    law_reference_levels_are_the_first(config, view, side);
    if view.open_orders@.len() <= config.depth {
        lemma_few_orders_are_seen(config, view.open_orders@, side, price);
    }
    if levels::has_price(kept, price) {
        let k = levels::position(kept, price);
        assert(kept[k].price.raw == price);
        assert(book_side(view, side)[k] == kept[k]);
    }
    law_reconcile_mirrors_reference(config, view, r, side, price);
}

/// Nothing is sent while trading or LightPool is off, there is no reference book or strategy id, or
/// own orders are on their way.
pub proof fn law_nothing_is_sent_when_idle(
    config: LiquidityMakerConfig,
    view: PairView,
    r: Result<Vec<ReconcileAction>, SkipReason>,
)
    requires
        strategy::is_reconcile_result(config, view, r),
        !config.trading_enabled || !config.lightpool_enabled || view.reference is None
            || !view.has_strategy_id || view.inflight != 0,
    ensures
        r is Err,
        sent_only(planned(r)).len() == 0,
{
}

/// Where an action of a side comes from.
proof fn lemma_action_origin(
    prices: Seq<i64>,
    side: OrderSide,
    reference: Seq<Level>,
    actual: Seq<Level>,
    groups: OrderGroups,
    i: int,
) -> (origin: (i64, int))
    requires
        0 <= i < sync::actions_for(prices, side, reference, actual, groups).len(),
    ensures
        ({
            let (p, k) = origin;
            let here = sync::level_actions(
                side,
                levels::find(reference, p),
                levels::find(actual, p),
                groups.at(p),
            );
            &&& 0 <= k < here.len()
            &&& here[k] == sync::actions_for(prices, side, reference, actual, groups)[i]
        }),
    decreases prices.len(),
{
    let first = sync::actions_for(prices.drop_last(), side, reference, actual, groups);
    if i < first.len() {
        lemma_action_origin(prices.drop_last(), side, reference, actual, groups, i)
    } else {
        (prices.last(), i - first.len())
    }
}

/// What an action of one level does: it places the reference size on the side, or it touches an
/// order of the level that the venue knows, and the sizes differ.
proof fn lemma_level_action(
    side: OrderSide,
    reference: Option<Level>,
    actual: Option<Level>,
    group: Seq<LevelOrder>,
    k: int,
)
    requires
        0 <= k < sync::level_actions(side, reference, actual, group).len(),
    ensures
        sync::size_of(reference) != sync::size_of(actual),
        match sync::level_actions(side, reference, actual, group)[k] {
            ReconcileAction::Place { side: s, price, quantity } => {
                &&& reference is Some
                &&& s == side
                &&& price == reference->Some_0.price
                &&& quantity.raw == reference->Some_0.size_raw
            },
            ReconcileAction::Cancel { client_order_id } => exists|j: int|
                0 <= j < group.len() && (#[trigger] group[j]).has_venue_id
                    && group[j].client_order_id == client_order_id,
            ReconcileAction::Modify { client_order_id, quantity } => {
                &&& reference is Some
                &&& quantity.raw == reference->Some_0.size_raw
                &&& exists|j: int|
                    0 <= j < group.len() && (#[trigger] group[j]).has_venue_id
                        && group[j].client_order_id == client_order_id
            },
        },
{
    let actions = sync::level_actions(side, reference, actual, group);
    let known = sync::with_venue_id(group);
    assert forall|n: int| 0 <= n < known.len() implies exists|j: int|
        0 <= j < group.len() && (#[trigger] group[j]).has_venue_id && group[j].client_order_id == (
        #[trigger] known[n]).client_order_id by {
        lemma_known_member(group, n);
    }
    if sync::size_of(actual) == 0 {
    } else if sync::size_of(reference) == 0 {
        assert(actions[k] == sync::cancels(known)[k]);
        assert(known[k].client_order_id == known[k].client_order_id);
    } else if known.len() == 1 {
        assert(known[0].client_order_id == known[0].client_order_id);
    } else if k < known.len() {
        assert(actions[k] == sync::cancels(known)[k]);
        assert(known[k].client_order_id == known[k].client_order_id);
    } else {
        assert(actions[k] == sync::placing(side, reference->Some_0)[k - known.len()]);
    }
}

/// The orders that the venue knows are orders of the group.
proof fn lemma_known_member(group: Seq<LevelOrder>, n: int)
    requires
        0 <= n < sync::with_venue_id(group).len(),
    ensures
        exists|j: int|
            0 <= j < group.len() && (#[trigger] group[j]).has_venue_id && group[j].client_order_id
                == sync::with_venue_id(group)[n].client_order_id,
    decreases group.len(),
{
    if group.len() > 0 {
        let head = group.drop_last();
        let before = sync::with_venue_id(head);
        if n < before.len() {
            lemma_known_member(head, n);
            let j = choose|j: int|
                0 <= j < head.len() && (#[trigger] head[j]).has_venue_id && head[j].client_order_id
                    == before[n].client_order_id;
            assert(group[j] == head[j]);
        } else {
            assert(group[group.len() - 1].has_venue_id);
        }
    }
}

/// The action is justified by a side of the reference book and the own orders: what it places is a
/// level of the side, price and size; what it cancels or changes is an own order of the side that
/// the venue knows, and a changed order gets the size of the level at its price.
pub open spec fn is_justified(
    action: ReconcileAction,
    side: OrderSide,
    levels: Seq<Level>,
    orders: Seq<Order>,
) -> bool {
    match action {
        ReconcileAction::Place { side: s, price, quantity } => s == side && exists|i: int|
            0 <= i < levels.len() && (#[trigger] levels[i]).price == price && levels[i].size_raw
                == quantity.raw,
        ReconcileAction::Cancel { client_order_id } => exists|j: int|
            0 <= j < orders.len() && (#[trigger] orders[j]).client_order_id == client_order_id
                && orders[j].side == side && orders[j].venue_order_id is Some,
        ReconcileAction::Modify { client_order_id, quantity } => exists|i: int, j: int|
            0 <= i < levels.len() && 0 <= j < orders.len() && (#[trigger] levels[i]).size_raw
                == quantity.raw && (#[trigger] orders[j]).client_order_id == client_order_id
                && orders[j].side == side && orders[j].venue_order_id is Some && orders[j].price
                is Some && orders[j].price->Some_0.raw == levels[i].price.raw,
    }
}

proof fn lemma_side_is_justified(
    orders: Seq<Order>,
    side: OrderSide,
    reference: Seq<Level>,
    actual: Seq<Level>,
    groups: OrderGroups,
    i: int,
)
    requires
        0 <= i < sync::side_actions(side, reference, actual, groups).len(),
        forall|p: i64| #[trigger] groups.at(p) == sync::orders_at(orders, side, p),
    ensures
        is_justified(
            sync::side_actions(side, reference, actual, groups)[i],
            side,
            reference,
            orders,
        ),
{
    let prices = sync::union_prices(reference, actual);
    let action = sync::side_actions(side, reference, actual, groups)[i];
    let (p, k) = lemma_action_origin(prices, side, reference, actual, groups, i);
    let group = sync::orders_at(orders, side, p);
    assert(groups.at(p) == group);
    let here = levels::find(reference, p);
    lemma_level_action(side, here, levels::find(actual, p), group, k);
    if here is Some {
        let n = levels::position(reference, p);
        assert(0 <= n < reference.len() && reference[n].price.raw == p);
        assert(here->Some_0 == reference[n]);
    }
    match action {
        ReconcileAction::Place { side: s, price, quantity } => {},
        ReconcileAction::Cancel { client_order_id } => {
            let j = choose|j: int|
                0 <= j < group.len() && (#[trigger] group[j]).has_venue_id
                    && group[j].client_order_id == client_order_id;
            sync::law_groups_hold_the_orders(orders, side, p);
            assert(group[j] == sync::orders_at(orders, side, p)[j]);
        },
        ReconcileAction::Modify { client_order_id, quantity } => {
            let j = choose|j: int|
                0 <= j < group.len() && (#[trigger] group[j]).has_venue_id
                    && group[j].client_order_id == client_order_id;
            sync::law_groups_hold_the_orders(orders, side, p);
            assert(group[j] == sync::orders_at(orders, side, p)[j]);
            let n = levels::position(reference, p);
            assert(reference[n].size_raw == quantity.raw);
        },
    }
}

/// Every action is justified: an order is placed only with price and size of one of the first
/// `config.depth` levels of its side, and only own orders that the venue knows are cancelled or
/// changed.
pub proof fn law_actions_are_justified(
    config: LiquidityMakerConfig,
    view: PairView,
    r: Result<Vec<ReconcileAction>, SkipReason>,
    i: int,
)
    requires
        view.valid(),
        strategy::is_reconcile_result(config, view, r),
        0 <= i < planned(r).len(),
    ensures
        is_justified(
            planned(r)[i],
            OrderSide::Buy,
            reference_levels(config, view, OrderSide::Buy),
            view.open_orders@,
        ) || is_justified(
            planned(r)[i],
            OrderSide::Sell,
            reference_levels(config, view, OrderSide::Sell),
            view.open_orders@,
        ),
{
    let (reference, actual, orders) = choose|
        reference: BookSnapshot,
        actual: BookSnapshot,
        orders: OrdersByLevel,
    |
        {
            &&& #[trigger] strategy::are_snapshots(config, view, reference, actual, orders)
            &&& if sync::same_levels(reference.bids.levels@, actual.bids.levels@)
                && sync::same_levels(reference.asks.levels@, actual.asks.levels@) {
                r == Err::<Vec<ReconcileAction>, SkipReason>(SkipReason::BooksMatch)
            } else {
                r matches Ok(actions) && actions@ == sync::reconcile_actions(
                    reference,
                    actual,
                    orders,
                )
            }
        };
    let own = view.open_orders@;
    let bids = reference.bids.levels@;
    let asks = reference.asks.levels@;
    let buys = sync::side_actions(OrderSide::Buy, bids, actual.bids.levels@, orders.bids);
    let sells = sync::side_actions(OrderSide::Sell, asks, actual.asks.levels@, orders.asks);
    assert(planned(r) == buys + sells);
    if i < buys.len() {
        lemma_side_is_justified(
            own,
            OrderSide::Buy,
            bids,
            actual.bids.levels@,
            orders.bids,
            i,
        );
    } else {
        lemma_side_is_justified(
            own,
            OrderSide::Sell,
            asks,
            actual.asks.levels@,
            orders.asks,
            i - buys.len(),
        );
    }
}

proof fn lemma_ahead_members(all: Seq<Level>, price: i64, bids: bool)
    requires
        levels::distinct_prices(all),
    ensures
        ahead_of(all, price, bids).no_duplicates(),
        forall|x: Level| #[trigger]
            ahead_of(all, price, bids).contains(x) ==> all.contains(x) && levels::better(
                x.price.raw as int,
                price as int,
                bids,
            ),
    decreases all.len(),
{
    if all.len() > 0 {
        let head = all.drop_last();
        let last = all.last();
        let before = ahead_of(head, price, bids);
        let ahead = ahead_of(all, price, bids);
        assert(levels::distinct_prices(head)) by {
            assert forall|i: int, j: int| 0 <= i < j < head.len() implies (
            #[trigger] head[i]).price.raw != (#[trigger] head[j]).price.raw by {
                assert(all[i].price.raw != all[j].price.raw);
            }
        }
        lemma_ahead_members(head, price, bids);
        assert(!before.contains(last)) by {
            if before.contains(last) {
                assert(head.contains(last));
                let i = choose|i: int| 0 <= i < head.len() && head[i] == last;
                assert(all[i].price.raw != all[all.len() - 1].price.raw);
            }
        }
        assert forall|x: Level| #[trigger] ahead.contains(x) implies all.contains(x)
            && levels::better(x.price.raw as int, price as int, bids) by {
            let k = choose|k: int| 0 <= k < ahead.len() && ahead[k] == x;
            if k < before.len() {
                assert(before[k] == x);
                assert(before.contains(x));
                let i = choose|i: int| 0 <= i < head.len() && head[i] == x;
                assert(all[i] == x);
            } else {
                assert(all[all.len() - 1] == x);
            }
        }
    }
}

/// A level with `depth` levels ahead of it is none of the best.
proof fn lemma_top_misses(top: Seq<Level>, all: Seq<Level>, depth: int, bids: bool, price: i64)
    requires
        levels::is_top(top, all, depth, bids),
        levels::distinct_prices(all),
        ahead_of(all, price, bids).len() >= depth,
    ensures
        !levels::has_price(top, price),
{
    if levels::has_price(top, price) {
        let i = levels::position(top, price);
        let mine = top[i];
        let ahead = ahead_of(all, price, bids);
        lemma_ahead_members(all, price, bids);
        let both = ahead.push(mine);
        assert(!ahead.contains(mine));
        assert(both.no_duplicates());
        assert forall|x: Level| #[trigger] both.to_set().contains(x) implies top.to_set().contains(
            x,
        ) by {
            let k = choose|k: int| 0 <= k < both.len() && both[k] == x;
            if k < ahead.len() {
                assert(ahead[k] == x);
                assert(ahead.contains(x));
                let j = choose|j: int| 0 <= j < all.len() && all[j] == x;
                if !top.contains(all[j]) {
                    assert(levels::better(
                        top[i].price.raw as int,
                        all[j].price.raw as int,
                        bids,
                    ));
                }
            } else {
                assert(top[i] == x);
            }
        }
        assert(both.to_set().subset_of(top.to_set()));
        vstd::set_lib::lemma_len_subset(both.to_set(), top.to_set());
        both.unique_seq_to_set();
        top.lemma_cardinality_of_set();
        assert(false);
    }
}

/// The actions of other prices of a side leave the orders at a price.
proof fn lemma_price_not_listed(
    prices: Seq<i64>,
    orders: Seq<Order>,
    side: OrderSide,
    reference: Seq<Level>,
    actual: Seq<Level>,
    groups: OrderGroups,
    price: i64,
)
    requires
        distinct_ids(orders),
        !prices.contains(price),
        forall|p: i64| #[trigger] groups.at(p) == sync::orders_at(orders, side, p),
    ensures
        ({
            let actions = sync::actions_for(prices, side, reference, actual, groups);
            &&& spares(actions, sync::orders_at(orders, side, price))
            &&& placed_at(actions, side, price) == 0
        }),
    decreases prices.len(),
{
    let here = sync::orders_at(orders, side, price);
    let actions = sync::actions_for(prices, side, reference, actual, groups);
    if prices.len() > 0 {
        let head = prices.drop_last();
        let p = prices.last();
        assert(!head.contains(price)) by {
            if head.contains(price) {
                let k = choose|k: int| 0 <= k < head.len() && head[k] == price;
                assert(prices[k] == price);
            }
        }
        assert(p != price) by {
            assert(prices[prices.len() - 1] == p);
        }
        lemma_price_not_listed(head, orders, side, reference, actual, groups, price);
        lemma_other_level(orders, side, reference, actual, price, p);
        assert(groups.at(p) == sync::orders_at(orders, side, p));
        let first = sync::actions_for(head, side, reference, actual, groups);
        let second = sync::level_actions(
            side,
            levels::find(reference, p),
            levels::find(actual, p),
            sync::orders_at(orders, side, p),
        );
        assert(actions == first + second);
        lemma_placed_concat(first, second, side, price);
        assert forall|i: int, k: int| 0 <= i < actions.len() && 0 <= k < here.len() implies !touches(
            #[trigger] actions[i],
            (#[trigger] here[k]).client_order_id@,
        ) by {
            if i < first.len() {
                assert(actions[i] == first[i]);
            } else {
                assert(actions[i] == second[i - first.len()]);
            }
        }
    }
}

/// Own orders behind the levels that the strategy looks at stay as they are, and nothing is placed
/// beside them: `config.depth` own levels, and at least one, are better than theirs, and the price is
/// none of the first levels of the side of the reference book.
pub proof fn law_deep_orders_are_left_alone(
    config: LiquidityMakerConfig,
    view: PairView,
    r: Result<Vec<ReconcileAction>, SkipReason>,
    side: OrderSide,
    price: i64,
)
    requires
        view.valid(),
        config.trading_enabled,
        config.lightpool_enabled,
        view.reference is Some,
        view.has_strategy_id,
        view.inflight == 0,
        strategy::is_reconcile_result(config, view, r),
        distinct_ids(view.open_orders@),
        side == OrderSide::Buy || side == OrderSide::Sell,
        forall|i: int|
            0 <= i < book_side(view, side).len() && (i < config.depth || i == 0) ==> (
            #[trigger] book_side(view, side)[i]).price.raw != price,
        ahead_of(
            levels::order_levels(view.open_orders@, side),
            price,
            side == OrderSide::Buy,
        ).len() >= (if config.depth == 0 {
            1int
        } else {
            config.depth as int
        }),
    ensures
        sync::orders_at(
            resting_after_all(view.open_orders@, sent_only(planned(r))),
            side,
            price,
        ) == sync::orders_at(view.open_orders@, side, price),
        size_after(view.open_orders@, sent_only(planned(r)), side, price) == levels::total_at(
            view.open_orders@,
            side,
            price,
        ),
{
    let (reference, actual, orders) = choose|
        reference: BookSnapshot,
        actual: BookSnapshot,
        orders: OrdersByLevel,
    |
        {
            &&& #[trigger] strategy::are_snapshots(config, view, reference, actual, orders)
            &&& if sync::same_levels(reference.bids.levels@, actual.bids.levels@)
                && sync::same_levels(reference.asks.levels@, actual.asks.levels@) {
                r == Err::<Vec<ReconcileAction>, SkipReason>(SkipReason::BooksMatch)
            } else {
                r matches Ok(actions) && actions@ == sync::reconcile_actions(
                    reference,
                    actual,
                    orders,
                )
            }
        };
    let own = view.open_orders@;
    let group = sync::orders_at(own, side, price);
    let kept = reference_levels(config, view, side);
    let bids = actual.bids.levels@;
    let asks = actual.asks.levels@;
    let buys = sync::side_actions(OrderSide::Buy, reference.bids.levels@, bids, orders.bids);
    let sells = sync::side_actions(OrderSide::Sell, reference.asks.levels@, asks, orders.asks);
    let all = sync::reconcile_actions(reference, actual, orders);
    let sent = sent_only(planned(r));
    lemma_sent_only(own, planned(r), side, price);
    lemma_total_of_group(own, side, price);
    lemma_total_of_group(resting_after_all(own, sent), side, price);
    if r is Ok {
        assert(all == buys + sells);
        levels::law_order_levels_are_totals(own, side);
        law_reference_levels_are_the_first(config, view, side);
        if levels::has_price(kept, price) {
            let k = levels::position(kept, price);
            assert(kept[k].price.raw == price);
            assert(book_side(view, side)[k] == kept[k]);
        }
        lemma_top_misses(
            side_of(actual, side),
            levels::order_levels(own, side),
            strategy::depth_of(config),
            side == OrderSide::Buy,
            price,
        );
        lemma_placed_concat(buys, sells, side, price);
        lemma_group_concat(group, buys, sells);
        lemma_groups_follow(own, all, side, price);
        sync::lemma_union_exists(reference.bids.levels@, bids);
        sync::lemma_union_exists(reference.asks.levels@, asks);
        let low = sync::union_prices(reference.bids.levels@, bids);
        let high = sync::union_prices(reference.asks.levels@, asks);
        assert(sync::is_sorted_union(low, reference.bids.levels@, bids));
        assert(sync::is_sorted_union(high, reference.asks.levels@, asks));
        if side == OrderSide::Buy {
            lemma_price_not_listed(
                low,
                own,
                side,
                reference.bids.levels@,
                bids,
                orders.bids,
                price,
            );
            lemma_other_side(
                high,
                own,
                side,
                OrderSide::Sell,
                reference.asks.levels@,
                asks,
                orders.asks,
                price,
            );
        } else {
            lemma_price_not_listed(
                high,
                own,
                side,
                reference.asks.levels@,
                asks,
                orders.asks,
                price,
            );
            lemma_other_side(
                low,
                own,
                side,
                OrderSide::Buy,
                reference.bids.levels@,
                bids,
                orders.bids,
                price,
            );
        }
        lemma_group_spared(group, buys);
        lemma_group_spared(group, sells);
    }
}

} // verus!
