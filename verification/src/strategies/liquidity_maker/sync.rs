//! Reconcile LightPool resting liquidity against Polymarket cache books using bot-owned orders.

use indexmap::IndexMap;
use vstd::prelude::*;

use crate::collections;
use crate::decimal;
use crate::decimal::Decimal;
use crate::fixed;
use crate::fixed::{Price, Quantity, FIXED_PRECISION, QUANTITY_RAW_MAX};
use crate::model::{Order, OrderSide};
use crate::strategies::liquidity_maker::levels;
use crate::strategies::liquidity_maker::levels::{Level, LevelMap};

verus! {

/// One side of a book: the size at each price.
#[derive(Debug)]
pub struct BookSideSnapshot {
    pub levels: LevelMap,
}

/// Both sides of a book.
#[derive(Debug)]
pub struct BookSnapshot {
    pub bids: BookSideSnapshot,
    pub asks: BookSideSnapshot,
}

/// The first `depth` of a list, or all of it.
pub open spec fn first_levels(book: Seq<Level>, depth: int) -> Seq<Level> {
    if depth < book.len() {
        book.take(depth)
    } else {
        book
    }
}

/// The side of the orders that rest as bids or asks.
pub open spec fn resting_side(bids: bool) -> OrderSide {
    if bids {
        OrderSide::Buy
    } else {
        OrderSide::Sell
    }
}

impl BookSideSnapshot {
    /// The best levels of a book side, which stands best first.
    pub fn from_book(book: &Vec<Level>, depth: usize) -> (r: BookSideSnapshot)
        requires
            levels::distinct_prices(book@),
            levels::all_valid(book@),
        ensures
            r.levels@ == first_levels(book@, depth as int),
            r.levels@.len() == if depth < book@.len() {
                depth as int
            } else {
                book@.len() as int
            },
            forall|i: int|
                0 <= i < book@.len() && i < depth ==> #[trigger] r.levels@[i] == book@[i],
    {
        let n: usize = if depth < book.len() {
            depth
        } else {
            book.len()
        };
        let mut kept: Vec<Level> = Vec::new();
        let mut i: usize = 0;
        while i < n
            invariant
                i <= n <= book.len(),
                kept@ == book@.take(i as int),
            decreases n - i,
        {
            kept.push(book[i]);
            i += 1;
        }
        assert(book@.take(book@.len() as int) =~= book@);
        BookSideSnapshot { levels: LevelMap::from_levels(kept) }
    }

    /// The totals of the own orders of a side, best levels only.
    pub fn from_orders(orders: &[Order], depth: usize, bids: bool) -> (r: BookSideSnapshot)
        requires
            levels::valid_orders(orders@),
            orders.len() <= u32::MAX,
        ensures
            levels::is_top(
                r.levels@,
                levels::order_levels(orders@, resting_side(bids)),
                depth as int,
                bids,
            ),
    {
        let side: OrderSide = if bids {
            OrderSide::Buy
        } else {
            OrderSide::Sell
        };
        let totals: LevelMap = levels::totals_from_orders(orders, side);
        BookSideSnapshot { levels: levels::trim_side_levels(&totals, depth, bids) }
    }
}

impl BookSnapshot {
    pub fn from_book(bids: &Vec<Level>, asks: &Vec<Level>, depth: usize) -> (r: BookSnapshot)
        requires
            levels::distinct_prices(bids@),
            levels::all_valid(bids@),
            levels::distinct_prices(asks@),
            levels::all_valid(asks@),
        ensures
            r.bids.levels@ == first_levels(bids@, depth as int),
            r.asks.levels@ == first_levels(asks@, depth as int),
            r.bids.levels@.len() == if depth < bids@.len() {
                depth as int
            } else {
                bids@.len() as int
            },
            forall|i: int|
                0 <= i < bids@.len() && i < depth ==> #[trigger] r.bids.levels@[i] == bids@[i],
            r.asks.levels@.len() == if depth < asks@.len() {
                depth as int
            } else {
                asks@.len() as int
            },
            forall|i: int|
                0 <= i < asks@.len() && i < depth ==> #[trigger] r.asks.levels@[i] == asks@[i],
    {
        BookSnapshot {
            bids: BookSideSnapshot::from_book(bids, depth),
            asks: BookSideSnapshot::from_book(asks, depth),
        }
    }

    pub fn from_open_orders(orders: &[Order], depth: usize) -> (r: BookSnapshot)
        requires
            levels::valid_orders(orders@),
            orders.len() <= u32::MAX,
        ensures
            levels::is_top(
                r.bids.levels@,
                levels::order_levels(orders@, OrderSide::Buy),
                depth as int,
                true,
            ),
            levels::is_top(
                r.asks.levels@,
                levels::order_levels(orders@, OrderSide::Sell),
                depth as int,
                false,
            ),
    {
        BookSnapshot {
            bids: BookSideSnapshot::from_orders(orders, depth, true),
            asks: BookSideSnapshot::from_orders(orders, depth, false),
        }
    }
}

/// Each price of `a` has the same size in `b`.
pub open spec fn included(a: Seq<Level>, b: Seq<Level>) -> bool {
    forall|price: i64| #[trigger]
        levels::has_price(a, price) ==> levels::has_price(b, price) && levels::size_at(a, price)
            == levels::size_at(b, price)
}

/// The same prices with the same sizes.
pub open spec fn same_levels(a: Seq<Level>, b: Seq<Level>) -> bool {
    included(a, b) && included(b, a)
}

fn side_included(a: &LevelMap, b: &LevelMap) -> (r: bool)
    ensures
        r == included(a@, b@),
{
    let list: &Vec<Level> = a.levels();
    let mut i: usize = 0;
    while i < list.len()
        invariant
            i <= list.len(),
            list@ == a@,
            levels::distinct_prices(a@),
            forall|k: int|
                0 <= k < i ==> levels::has_price(b@, (#[trigger] a@[k]).price.raw)
                    && levels::size_at(b@, a@[k].price.raw) == a@[k].size_raw,
        decreases list.len() - i,
    {
        let here: Level = list[i];
        let equal: bool = match b.get(here.price.raw) {
            Some(there) => there.size_raw == here.size_raw,
            None => false,
        };
        if !equal {
            proof {
                levels::lemma_distinct_position(a@, i as int);
                assert(levels::has_price(a@, here.price.raw));
            }
            return false;
        }
        i += 1;
    }
    proof {
        assert forall|price: i64| #[trigger] levels::has_price(a@, price) implies levels::has_price(
            b@,
            price,
        ) && levels::size_at(a@, price) == levels::size_at(b@, price) by {
            let k = levels::position(a@, price);
            assert(0 <= k < a@.len() && a@[k].price.raw == price);
        }
    }
    true
}

/// Whether two books have the same prices with the same sizes.
pub fn books_match(reference: &BookSnapshot, actual: &BookSnapshot) -> (r: bool)
    ensures
        r == (same_levels(reference.bids.levels@, actual.bids.levels@) && same_levels(
            reference.asks.levels@,
            actual.asks.levels@,
        )),
{
    side_included(&reference.bids.levels, &actual.bids.levels) && side_included(
        &actual.bids.levels,
        &reference.bids.levels,
    ) && side_included(&reference.asks.levels, &actual.asks.levels) && side_included(
        &actual.asks.levels,
        &reference.asks.levels,
    )
}

/// An own order at a level.
#[derive(Debug)]
pub struct LevelOrder {
    pub client_order_id: String,
    pub quantity: Quantity,
    pub has_venue_id: bool,
}

impl Clone for LevelOrder {
    fn clone(&self) -> (r: LevelOrder)
        ensures
            r == *self,
    {
        LevelOrder {
            client_order_id: self.client_order_id.clone(),
            quantity: self.quantity,
            has_venue_id: self.has_venue_id,
        }
    }
}

/// What reconciling does with an order.
#[derive(Debug)]
pub enum ReconcileAction {
    Place { side: OrderSide, price: Price, quantity: Quantity },
    Cancel { client_order_id: String },
    Modify { client_order_id: String, quantity: Quantity },
}

pub open spec fn level_order(order: Order) -> LevelOrder {
    LevelOrder {
        client_order_id: order.client_order_id,
        quantity: order.quantity,
        has_venue_id: order.venue_order_id is Some,
    }
}

/// The orders of a side at a price, in their order.
pub open spec fn orders_at(orders: Seq<Order>, side: OrderSide, price: i64) -> Seq<LevelOrder>
    decreases orders.len(),
{
    if orders.len() == 0 {
        Seq::<LevelOrder>::empty()
    } else {
        let before = orders_at(orders.drop_last(), side, price);
        let order = orders.last();
        if order.side == side && order.price is Some && order.price->Some_0.raw == price {
            before.push(level_order(order))
        } else {
            before
        }
    }
}

/// Position of a price in a list of prices.
pub open spec fn price_position(prices: Seq<i64>, price: i64) -> int {
    choose|i: int| 0 <= i < prices.len() && prices[i] == price
}

/// The index entries of a list of prices: each price with its position.
pub open spec fn price_slots_for(prices: Seq<i64>) -> Seq<(i64, u64)> {
    Seq::new(prices.len(), |i: int| (prices[i], i as u64))
}

/// Own orders of one side, found by price.
#[derive(Debug)]
pub struct OrderGroups {
    index: IndexMap<i64, u64>,
    prices: Vec<i64>,
    groups: Vec<Vec<LevelOrder>>,
}

impl OrderGroups {
    #[verifier::type_invariant]
    spec fn indexed(self) -> bool {
        &&& self.prices@.no_duplicates()
        &&& self.groups@.len() == self.prices@.len()
        &&& collections::price_slots(self.index) == price_slots_for(self.prices@)
    }

    /// The orders at a price.
    pub closed spec fn at(self, price: i64) -> Seq<LevelOrder> {
        if self.prices@.contains(price) {
            self.groups@[price_position(self.prices@, price)]@
        } else {
            Seq::<LevelOrder>::empty()
        }
    }

    /// The orders at a price.
    pub fn get(&self, price: i64) -> (r: Vec<LevelOrder>)
        ensures
            r@ == self.at(price),
    {
        proof {
            use_type_invariant(self);
            assert(self.prices@.len() == self.prices.len());
            lemma_price_slot(self.prices@, price);
        }
        match collections::price_index_get(&self.index, price) {
            Some(slot) => {
                let group: &Vec<LevelOrder> = &self.groups[slot as usize];
                copy_orders(group)
            },
            None => Vec::new(),
        }
    }

    /// The orders of a side, grouped by price.
    pub fn from_orders(orders: &[Order], side: OrderSide) -> (r: OrderGroups)
        ensures
            forall|price: i64| #[trigger] r.at(price) == orders_at(orders@, side, price),
    {
        let mut index: IndexMap<i64, u64> = collections::price_index_new();
        let mut prices: Vec<i64> = Vec::new();
        let mut groups: Vec<Vec<LevelOrder>> = Vec::new();
        let mut k: usize = 0;
        proof {
            assert(orders@.take(0) =~= Seq::<Order>::empty());
            assert(price_slots_for(prices@) =~= Seq::<(i64, u64)>::empty());
        }
        while k < orders.len()
            invariant
                k <= orders.len(),
                prices@.no_duplicates(),
                groups@.len() == prices@.len(),
                collections::price_slots(index) == price_slots_for(prices@),
                forall|i: int|
                    0 <= i < prices@.len() ==> (#[trigger] groups@[i])@ == orders_at(
                        orders@.take(k as int),
                        side,
                        prices@[i],
                    ),
                forall|price: i64|
                    !prices@.contains(price) ==> #[trigger] orders_at(
                        orders@.take(k as int),
                        side,
                        price,
                    ) == Seq::<LevelOrder>::empty(),
            decreases orders.len() - k,
        {
            let ghost done = orders@.take(k as int);
            let ghost next = orders@.take(k + 1);
            proof {
                assert(next.drop_last() =~= done);
                assert(next.last() == orders@[k as int]);
            }
            let order: &Order = &orders[k];
            let ghost old_prices = prices@;
            let ghost old_groups = groups@;
            if order.side == side && order.price.is_some() {
                let price: i64 = order.price.unwrap().raw;
                let entry: LevelOrder = LevelOrder {
                    client_order_id: order.client_order_id.clone(),
                    quantity: order.quantity,
                    has_venue_id: order.venue_order_id.is_some(),
                };
                assert(entry == level_order(*order));
                proof {
                    assert(prices@.len() == prices.len());
                    lemma_price_slot(prices@, price);
                }
                match collections::price_index_get(&index, price) {
                    Some(slot) => {
                        let i: usize = slot as usize;
                        groups[i].push(entry);
                        proof {
                            assert forall|j: int| 0 <= j < prices@.len() implies (
                            #[trigger] groups@[j])@ == orders_at(next, side, prices@[j]) by {
                                assert(old_groups[j]@ == orders_at(done, side, prices@[j]));
                                if j != i {
                                    assert(prices@[j] != price);
                                }
                            }
                            assert forall|p: i64| !prices@.contains(p) implies #[trigger] orders_at(
                                next,
                                side,
                                p,
                            ) == Seq::<LevelOrder>::empty() by {
                                assert(orders_at(done, side, p) == Seq::<LevelOrder>::empty());
                            }
                        }
                    },
                    None => {
                        collections::price_index_insert(&mut index, price, prices.len() as u64);
                        prices.push(price);
                        let mut group: Vec<LevelOrder> = Vec::new();
                        group.push(entry);
                        groups.push(group);
                        proof {
                            assert(price_slots_for(prices@) =~= price_slots_for(old_prices).push(
                                (price, old_prices.len() as u64),
                            ));
                            assert forall|j: int| 0 <= j < prices@.len() implies (
                            #[trigger] groups@[j])@ == orders_at(next, side, prices@[j]) by {
                                if j < old_prices.len() {
                                    assert(prices@[j] == old_prices[j]);
                                    assert(old_prices.contains(old_prices[j]));
                                    assert(old_groups[j]@ == orders_at(done, side, prices@[j]));
                                } else {
                                    assert(orders_at(done, side, price) == Seq::<
                                        LevelOrder,
                                    >::empty());
                                    assert(groups@[j]@ =~= orders_at(next, side, price));
                                }
                            }
                            assert forall|p: i64| !prices@.contains(p) implies #[trigger] orders_at(
                                next,
                                side,
                                p,
                            ) == Seq::<LevelOrder>::empty() by {
                                assert(prices@[old_prices.len() as int] == price);
                                if old_prices.contains(p) {
                                    let j = choose|j: int|
                                        0 <= j < old_prices.len() && old_prices[j] == p;
                                    assert(prices@[j] == p);
                                }
                                assert(orders_at(done, side, p) == Seq::<LevelOrder>::empty());
                            }
                        }
                    },
                }
            } else {
                proof {
                    assert forall|j: int| 0 <= j < prices@.len() implies (#[trigger] groups@[j])@
                        == orders_at(next, side, prices@[j]) by {
                        assert(old_groups[j]@ == orders_at(done, side, prices@[j]));
                    }
                    assert forall|p: i64| !prices@.contains(p) implies #[trigger] orders_at(
                        next,
                        side,
                        p,
                    ) == Seq::<LevelOrder>::empty() by {
                        assert(orders_at(done, side, p) == Seq::<LevelOrder>::empty());
                    }
                }
            }
            k += 1;
        }
        assert(orders@.take(orders@.len() as int) =~= orders@);
        OrderGroups { index, prices, groups }
    }
}

proof fn lemma_price_slot(prices: Seq<i64>, price: i64)
    requires
        prices.no_duplicates(),
        prices.len() <= usize::MAX,
    ensures
        collections::slot_of(price_slots_for(prices), price) == if prices.contains(price) {
            Some(price_position(prices, price) as u64)
        } else {
            None::<u64>
        },
        prices.contains(price) ==> 0 <= price_position(prices, price) < prices.len()
            && prices[price_position(prices, price)] == price,
{
    let slots = price_slots_for(prices);
    if prices.contains(price) {
        let i = price_position(prices, price);
        assert(0 <= i < prices.len() && prices[i] == price);
        assert(slots[i].0 == price);
        let j = choose|j: int| 0 <= j < slots.len() && #[trigger] slots[j].0 == price;
        assert(0 <= j < slots.len() && slots[j].0 == price);
        assert(prices[j] == price);
    } else if exists|j: int| 0 <= j < slots.len() && #[trigger] slots[j].0 == price {
        let j = choose|j: int| 0 <= j < slots.len() && #[trigger] slots[j].0 == price;
        assert(prices[j] == price);
    }
}

fn copy_orders(group: &Vec<LevelOrder>) -> (r: Vec<LevelOrder>)
    ensures
        r@ == group@,
{
    let mut r: Vec<LevelOrder> = Vec::new();
    let mut i: usize = 0;
    while i < group.len()
        invariant
            i <= group.len(),
            r@ == group@.take(i as int),
        decreases group.len() - i,
    {
        r.push(group[i].clone());
        i += 1;
    }
    r
}

/// Own orders of both sides, found by price.
#[derive(Debug)]
pub struct OrdersByLevel {
    pub bids: OrderGroups,
    pub asks: OrderGroups,
}

impl OrdersByLevel {
    pub fn from_open_orders(orders: &[Order]) -> (r: OrdersByLevel)
        ensures
            forall|price: i64| #[trigger]
                r.bids.at(price) == orders_at(orders@, OrderSide::Buy, price),
            forall|price: i64| #[trigger]
                r.asks.at(price) == orders_at(orders@, OrderSide::Sell, price),
    {
        OrdersByLevel {
            bids: OrderGroups::from_orders(orders, OrderSide::Buy),
            asks: OrderGroups::from_orders(orders, OrderSide::Sell),
        }
    }
}

/// Strictly increasing.
pub open spec fn increasing(prices: Seq<i64>) -> bool {
    forall|i: int, j: int| 0 <= i < j < prices.len() ==> #[trigger] prices[i] < #[trigger] prices[j]
}

/// The prices of either list, in increasing order.
pub open spec fn is_sorted_union(prices: Seq<i64>, a: Seq<Level>, b: Seq<Level>) -> bool {
    &&& increasing(prices)
    &&& forall|price: i64| #[trigger]
        prices.contains(price) <==> levels::has_price(a, price) || levels::has_price(b, price)
}

/// The prices of either list, in increasing order.
pub open spec fn union_prices(a: Seq<Level>, b: Seq<Level>) -> Seq<i64> {
    choose|prices: Seq<i64>| is_sorted_union(prices, a, b)
}

/// Increasing lists with the same prices are equal.
proof fn lemma_increasing_unique(s: Seq<i64>, t: Seq<i64>)
    requires
        increasing(s),
        increasing(t),
        forall|x: i64| #[trigger] s.contains(x) <==> t.contains(x),
    ensures
        s == t,
    decreases s.len(),
{
    if s.len() == 0 {
        if t.len() > 0 {
            assert(t.contains(t[0]));
            assert(s.contains(t[0]));
        }
        assert(s =~= t);
    } else {
        assert(s.contains(s[0]));
        assert(t.contains(s[0]));
        let j = choose|j: int| 0 <= j < t.len() && t[j] == s[0];
        assert(t.contains(t[0]));
        assert(s.contains(t[0]));
        let i = choose|i: int| 0 <= i < s.len() && s[i] == t[0];
        if i > 0 {
            assert(s[0] < s[i]);
            if j > 0 {
                assert(t[0] < t[j]);
            }
        }
        if j > 0 {
            assert(t[0] < t[j]);
        }
        assert(s[0] == t[0]);
        let s1 = s.skip(1);
        let t1 = t.skip(1);
        assert(increasing(s1)) by {
            assert forall|a: int, b: int| 0 <= a < b < s1.len() implies #[trigger] s1[a]
                < #[trigger] s1[b] by {
                assert(s[a + 1] < s[b + 1]);
            }
        }
        assert(increasing(t1)) by {
            assert forall|a: int, b: int| 0 <= a < b < t1.len() implies #[trigger] t1[a]
                < #[trigger] t1[b] by {
                assert(t[a + 1] < t[b + 1]);
            }
        }
        assert forall|x: i64| #[trigger] s1.contains(x) <==> t1.contains(x) by {
            if s1.contains(x) {
                let a = choose|a: int| 0 <= a < s1.len() && s1[a] == x;
                assert(s[a + 1] == x);
                assert(s[0] < s[a + 1]);
                assert(s.contains(x));
                let b = choose|b: int| 0 <= b < t.len() && t[b] == x;
                assert(t1[b - 1] == x);
            }
            if t1.contains(x) {
                let a = choose|a: int| 0 <= a < t1.len() && t1[a] == x;
                assert(t[a + 1] == x);
                assert(t[0] < t[a + 1]);
                assert(t.contains(x));
                assert(s.contains(x));
                let b = choose|b: int| 0 <= b < s.len() && s[b] == x;
                assert(s1[b - 1] == x);
            }
        }
        lemma_increasing_unique(s1, t1);
        assert(s =~= seq![s[0]] + s1);
        assert(t =~= seq![t[0]] + t1);
    }
}

/// There is an increasing list of the prices of two lists of levels.
pub proof fn lemma_union_exists(a: Seq<Level>, b: Seq<Level>)
    ensures
        is_sorted_union(union_prices(a, b), a, b),
    decreases a.len() + b.len(),
{
    if a.len() > 0 {
        let rest = a.drop_last();
        lemma_union_exists(rest, b);
        let prices = union_prices(rest, b);
        let p = a.last().price.raw;
        let more = lemma_insert_price(prices, p);
        assert(a.take(a.len() - 1) =~= rest && a.take(a.len() as int) =~= a);
        lemma_has_price_next(a, a.len() - 1);
        assert(is_sorted_union(more, a, b));
    } else if b.len() > 0 {
        let rest = b.drop_last();
        lemma_union_exists(a, rest);
        let prices = union_prices(a, rest);
        let p = b.last().price.raw;
        let more = lemma_insert_price(prices, p);
        assert(b.take(b.len() - 1) =~= rest && b.take(b.len() as int) =~= b);
        lemma_has_price_next(b, b.len() - 1);
        assert(is_sorted_union(more, a, b));
    } else {
        assert(is_sorted_union(Seq::<i64>::empty(), a, b));
    }
}

/// An increasing list with one more price.
proof fn lemma_insert_price(prices: Seq<i64>, price: i64) -> (more: Seq<i64>)
    requires
        increasing(prices),
    ensures
        increasing(more),
        forall|x: i64| #[trigger] more.contains(x) <==> prices.contains(x) || x == price,
    decreases prices.len(),
{
    if prices.len() == 0 {
        let more = seq![price];
        assert forall|x: i64| #[trigger] more.contains(x) <==> prices.contains(x) || x == price by {
            if x == price {
                assert(more[0] == x);
            }
        }
        more
    } else if prices.last() < price {
        let more = prices.push(price);
        assert forall|x: i64| #[trigger] more.contains(x) <==> prices.contains(x) || x == price by {
            if prices.contains(x) {
                let i = choose|i: int| 0 <= i < prices.len() && prices[i] == x;
                assert(more[i] == x);
            }
            assert(more[prices.len() as int] == price);
        }
        more
    } else if prices.last() == price {
        assert(prices[prices.len() - 1] == price);
        prices
    } else {
        let head = prices.drop_last();
        assert(increasing(head)) by {
            assert forall|i: int, j: int| 0 <= i < j < head.len() implies #[trigger] head[i]
                < #[trigger] head[j] by {
                assert(prices[i] < prices[j]);
            }
        }
        let inner = lemma_insert_price(head, price);
        let more = inner.push(prices.last());
        assert forall|i: int, j: int| 0 <= i < j < more.len() implies #[trigger] more[i]
            < #[trigger] more[j] by {
            if j == inner.len() {
                assert(inner.contains(inner[i]));
                if head.contains(inner[i]) {
                    let k = choose|k: int| 0 <= k < head.len() && head[k] == inner[i];
                    assert(prices[k] < prices[prices.len() - 1]);
                }
            } else {
                assert(inner[i] < inner[j]);
            }
        }
        assert forall|x: i64| #[trigger] more.contains(x) <==> prices.contains(x) || x == price by {
            if more.contains(x) {
                let i = choose|i: int| 0 <= i < more.len() && more[i] == x;
                if i < inner.len() {
                    assert(inner.contains(x)) by {
                        assert(inner[i] == x);
                    }
                    if head.contains(x) {
                        let k = choose|k: int| 0 <= k < head.len() && head[k] == x;
                        assert(prices[k] == x);
                    }
                } else {
                    assert(prices[prices.len() - 1] == x);
                }
            }
            if prices.contains(x) || x == price {
                if x == prices.last() {
                    assert(more[inner.len() as int] == x);
                } else {
                    if prices.contains(x) {
                        let k = choose|k: int| 0 <= k < prices.len() && prices[k] == x;
                        assert(head[k] == x);
                    }
                    assert(inner.contains(x));
                    let i = choose|i: int| 0 <= i < inner.len() && inner[i] == x;
                    assert(more[i] == x);
                }
            }
        }
        more
    }
}

/// Adds a price to an increasing list, where it is not in it yet.
fn insert_price(prices: &mut Vec<i64>, price: i64)
    requires
        increasing(old(prices)@),
    ensures
        increasing(final(prices)@),
        forall|x: i64| #[trigger]
            final(prices)@.contains(x) <==> old(prices)@.contains(x) || x == price,
{
    let mut i: usize = 0;
    while i < prices.len() && prices[i] < price
        invariant
            i <= prices.len(),
            prices@ == old(prices)@,
            increasing(prices@),
            forall|k: int| 0 <= k < i ==> #[trigger] prices@[k] < price,
        decreases prices.len() - i,
    {
        i += 1;
    }
    let ghost before = prices@;
    if i < prices.len() && prices[i] == price {
        assert(before[i as int] == price);
        return;
    }
    prices.insert(i, price);
    proof {
        let after = prices@;
        assert forall|a: int, b: int| 0 <= a < b < after.len() implies #[trigger] after[a]
            < #[trigger] after[b] by {
            let x = if a < i {
                a
            } else {
                a - 1
            };
            let y = if b < i {
                b
            } else {
                b - 1
            };
            if a != i {
                assert(after[a] == before[x]);
            }
            if b != i {
                assert(after[b] == before[y]);
            }
            if a == i && y > i {
                assert(before[i as int] < before[y]);
            }
        }
        assert forall|x: i64| #[trigger] after.contains(x) <==> before.contains(x) || x == price by {
            if after.contains(x) {
                let a = choose|a: int| 0 <= a < after.len() && after[a] == x;
                if a != i {
                    assert(before[if a < i {
                        a
                    } else {
                        a - 1
                    }] == x);
                }
            }
            if before.contains(x) {
                let a = choose|a: int| 0 <= a < before.len() && before[a] == x;
                assert(after[if a < i {
                    a
                } else {
                    a + 1
                }] == x);
            }
            assert(after[i as int] == price);
        }
    }
}

/// The prices of either side, in increasing order.
fn sorted_prices(a: &LevelMap, b: &LevelMap) -> (r: Vec<i64>)
    ensures
        r@ == union_prices(a@, b@),
        is_sorted_union(r@, a@, b@),
{
    let mut prices: Vec<i64> = Vec::new();
    let first: &Vec<Level> = a.levels();
    let mut i: usize = 0;
    while i < first.len()
        invariant
            i <= first.len(),
            first@ == a@,
            increasing(prices@),
            forall|x: i64| #[trigger]
                prices@.contains(x) <==> levels::has_price(a@.take(i as int), x),
        decreases first.len() - i,
    {
        insert_price(&mut prices, first[i].price.raw);
        proof {
            lemma_has_price_next(a@, i as int);
        }
        i += 1;
    }
    assert(a@.take(a@.len() as int) =~= a@);
    let second: &Vec<Level> = b.levels();
    let mut j: usize = 0;
    assert(forall|x: i64| !levels::has_price(b@.take(0), x));
    while j < second.len()
        invariant
            j <= second.len(),
            second@ == b@,
            increasing(prices@),
            forall|x: i64| #[trigger]
                prices@.contains(x) <==> levels::has_price(a@, x) || levels::has_price(
                    b@.take(j as int),
                    x,
                ),
        decreases second.len() - j,
    {
        insert_price(&mut prices, second[j].price.raw);
        proof {
            lemma_has_price_next(b@, j as int);
        }
        j += 1;
    }
    proof {
        assert(b@.take(b@.len() as int) =~= b@);
        assert(is_sorted_union(prices@, a@, b@));
        let chosen = union_prices(a@, b@);
        assert(is_sorted_union(chosen, a@, b@));
        lemma_increasing_unique(prices@, chosen);
    }
    prices
}

proof fn lemma_has_price_next(s: Seq<Level>, i: int)
    requires
        0 <= i < s.len(),
    ensures
        forall|x: i64| #[trigger]
            levels::has_price(s.take(i + 1), x) <==> levels::has_price(s.take(i), x) || x
                == s[i].price.raw,
{
    assert forall|x: i64| #[trigger] levels::has_price(s.take(i + 1), x) <==> levels::has_price(
        s.take(i),
        x,
    ) || x == s[i].price.raw by {
        if levels::has_price(s.take(i + 1), x) {
            let k = levels::position(s.take(i + 1), x);
            assert(s.take(i + 1)[k].price.raw == x);
            if k < i {
                assert(s.take(i)[k] == s.take(i + 1)[k]);
            }
        }
        if levels::has_price(s.take(i), x) {
            let k = levels::position(s.take(i), x);
            assert(s.take(i)[k].price.raw == x);
            assert(s.take(i + 1)[k] == s.take(i)[k]);
        }
        assert(s.take(i + 1)[i] == s[i]);
    }
}

/// The order quantity for a level's size, where one order can hold it.
pub open spec fn quantity_for(level: Level) -> Option<Quantity> {
    if level.size_raw <= QUANTITY_RAW_MAX {
        Some(Quantity { raw: level.size_raw as u64, precision: level.size_precision })
    } else {
        None
    }
}

/// The size of an optional level.
pub open spec fn size_of(level: Option<Level>) -> int {
    match level {
        Some(level) => level.size_raw as int,
        None => 0,
    }
}

/// The orders that the venue knows.
pub open spec fn with_venue_id(orders: Seq<LevelOrder>) -> Seq<LevelOrder>
    decreases orders.len(),
{
    if orders.len() == 0 {
        Seq::<LevelOrder>::empty()
    } else if orders.last().has_venue_id {
        with_venue_id(orders.drop_last()).push(orders.last())
    } else {
        with_venue_id(orders.drop_last())
    }
}

/// A cancel for each order.
pub open spec fn cancels(orders: Seq<LevelOrder>) -> Seq<ReconcileAction> {
    Seq::new(
        orders.len(),
        |i: int| ReconcileAction::Cancel { client_order_id: orders[i].client_order_id },
    )
}

/// A new order for a level's size, where one order can hold it.
pub open spec fn placing(side: OrderSide, level: Level) -> Seq<ReconcileAction> {
    match quantity_for(level) {
        Some(quantity) => seq![ReconcileAction::Place { side, price: level.price, quantity }],
        None => Seq::<ReconcileAction>::empty(),
    }
}

/// What brings one level from its actual to its reference size.
///
/// Equal sizes need nothing. A missing level is placed. A level that the reference lacks is
/// cancelled. Else a single order is modified, and several are cancelled and placed as one.
/// Only orders that the venue knows are modified or cancelled.
pub open spec fn level_actions(
    side: OrderSide,
    reference: Option<Level>,
    actual: Option<Level>,
    orders: Seq<LevelOrder>,
) -> Seq<ReconcileAction> {
    let known = with_venue_id(orders);
    if size_of(reference) == size_of(actual) {
        Seq::<ReconcileAction>::empty()
    } else if size_of(actual) == 0 {
        placing(side, reference->Some_0)
    } else if size_of(reference) == 0 {
        cancels(known)
    } else if known.len() == 1 {
        match quantity_for(reference->Some_0) {
            Some(quantity) => seq![
                ReconcileAction::Modify { client_order_id: known[0].client_order_id, quantity },
            ],
            None => Seq::<ReconcileAction>::empty(),
        }
    } else {
        cancels(known) + placing(side, reference->Some_0)
    }
}

/// The actions of a list of prices, one price after the other.
pub open spec fn actions_for(
    prices: Seq<i64>,
    side: OrderSide,
    reference: Seq<Level>,
    actual: Seq<Level>,
    orders: OrderGroups,
) -> Seq<ReconcileAction>
    decreases prices.len(),
{
    if prices.len() == 0 {
        Seq::<ReconcileAction>::empty()
    } else {
        let price = prices.last();
        actions_for(prices.drop_last(), side, reference, actual, orders) + level_actions(
            side,
            levels::find(reference, price),
            levels::find(actual, price),
            orders.at(price),
        )
    }
}

/// The actions of a side: those of its prices, in increasing order.
pub open spec fn side_actions(
    side: OrderSide,
    reference: Seq<Level>,
    actual: Seq<Level>,
    orders: OrderGroups,
) -> Seq<ReconcileAction> {
    actions_for(union_prices(reference, actual), side, reference, actual, orders)
}

/// The order quantity for a level's size, where one order can hold it.
fn level_quantity(level: &Level) -> (r: Option<Quantity>)
    requires
        level.valid(),
    ensures
        r == quantity_for(*level),
{
    let unit: i128 = decimal::power_of_ten((FIXED_PRECISION - level.size_precision) as u32);
    let raw: i128 = level.size_raw as i128;
    proof {
        fixed::lemma_exact_division(raw as int, unit as int);
        fixed::lemma_quotient_bound(raw as int, unit as int);
    }
    let size: Decimal = Decimal { mantissa: raw / unit, scale: level.size_precision as u32 };
    match Quantity::from_decimal(size) {
        Ok(quantity) => Some(quantity),
        Err(_) => None,
    }
}

fn push_cancels(orders: &Vec<LevelOrder>, actions: &mut Vec<ReconcileAction>)
    ensures
        final(actions)@ == old(actions)@ + cancels(with_venue_id(orders@)),
{
    let mut i: usize = 0;
    assert(orders@.take(0) =~= Seq::<LevelOrder>::empty());
    assert(actions@ =~= old(actions)@ + cancels(with_venue_id(orders@.take(0))));
    while i < orders.len()
        invariant
            i <= orders.len(),
            actions@ == old(actions)@ + cancels(with_venue_id(orders@.take(i as int))),
        decreases orders.len() - i,
    {
        proof {
            assert(orders@.take(i + 1).drop_last() =~= orders@.take(i as int));
            assert(orders@.take(i + 1).last() == orders@[i as int]);
        }
        if orders[i].has_venue_id {
            actions.push(
                ReconcileAction::Cancel { client_order_id: orders[i].client_order_id.clone() },
            );
            assert(actions@ =~= old(actions)@ + cancels(with_venue_id(orders@.take(i + 1))));
        }
        i += 1;
    }
    assert(orders@.take(orders@.len() as int) =~= orders@);
}

/// The orders that the venue knows.
fn actionable(orders: &Vec<LevelOrder>) -> (r: Vec<LevelOrder>)
    ensures
        r@ == with_venue_id(orders@),
{
    let mut r: Vec<LevelOrder> = Vec::new();
    let mut i: usize = 0;
    assert(orders@.take(0) =~= Seq::<LevelOrder>::empty());
    while i < orders.len()
        invariant
            i <= orders.len(),
            r@ == with_venue_id(orders@.take(i as int)),
        decreases orders.len() - i,
    {
        proof {
            assert(orders@.take(i + 1).drop_last() =~= orders@.take(i as int));
            assert(orders@.take(i + 1).last() == orders@[i as int]);
        }
        if orders[i].has_venue_id {
            r.push(orders[i].clone());
        }
        i += 1;
    }
    assert(orders@.take(orders@.len() as int) =~= orders@);
    r
}

/// Appends what brings one level from its actual to its reference size.
fn diff_level(
    side: OrderSide,
    reference: Option<Level>,
    actual: Option<Level>,
    orders: &Vec<LevelOrder>,
    actions: &mut Vec<ReconcileAction>,
)
    requires
        reference matches Some(level) ==> level.valid(),
        actual matches Some(level) ==> level.valid(),
    ensures
        final(actions)@ == old(actions)@ + level_actions(side, reference, actual, orders@),
{
    let ref_qty: u128 = match reference {
        Some(level) => level.size_raw,
        None => 0,
    };
    let act_qty: u128 = match actual {
        Some(level) => level.size_raw,
        None => 0,
    };
    assert(old(actions)@ + Seq::<ReconcileAction>::empty() =~= old(actions)@);
    if ref_qty == act_qty {
        return;
    }
    match reference {
        Some(level) => {
            let price: Price = match Price::from_decimal(level.price.as_decimal()) {
                Ok(price) => price,
                Err(_) => {
                    return;
                },
            };
            if act_qty == 0 {
                if let Some(quantity) = level_quantity(&level) {
                    actions.push(ReconcileAction::Place { side, price, quantity });
                    assert(actions@ =~= old(actions)@ + placing(side, level));
                }
                return;
            }
            if ref_qty == 0 {
                push_cancels(orders, actions);
                return;
            }
            let known: Vec<LevelOrder> = actionable(orders);
            if known.len() == 1 {
                if let Some(quantity) = level_quantity(&level) {
                    actions.push(
                        ReconcileAction::Modify {
                            client_order_id: known[0].client_order_id.clone(),
                            quantity,
                        },
                    );
                }
                return;
            }
            push_cancels(orders, actions);
            let ghost cancelled = actions@;
            if let Some(quantity) = level_quantity(&level) {
                actions.push(ReconcileAction::Place { side, price, quantity });
                assert(actions@ =~= cancelled + placing(side, level));
            }
            assert(actions@ =~= old(actions)@ + (cancels(with_venue_id(orders@)) + placing(
                side,
                level,
            )));
        },
        None => {
            push_cancels(orders, actions);
        },
    }
}

/// Appends what brings a side from its actual to its reference sizes.
pub fn diff_side(
    side: OrderSide,
    reference: &LevelMap,
    actual: &LevelMap,
    orders: &OrderGroups,
    actions: &mut Vec<ReconcileAction>,
)
    ensures
        final(actions)@ == old(actions)@ + side_actions(side, reference@, actual@, *orders),
{
    let prices: Vec<i64> = sorted_prices(reference, actual);
    let mut i: usize = 0;
    assert(prices@.take(0) =~= Seq::<i64>::empty());
    assert(actions@ =~= old(actions)@ + Seq::<ReconcileAction>::empty());
    while i < prices.len()
        invariant
            i <= prices.len(),
            actions@ == old(actions)@ + actions_for(
                prices@.take(i as int),
                side,
                reference@,
                actual@,
                *orders,
            ),
        decreases prices.len() - i,
    {
        let price: i64 = prices[i];
        let level_orders: Vec<LevelOrder> = orders.get(price);
        let ghost before = actions@;
        diff_level(side, reference.get(price), actual.get(price), &level_orders, actions);
        proof {
            let next = prices@.take(i + 1);
            assert(next.drop_last() =~= prices@.take(i as int));
            assert(next.last() == price);
            assert(actions@ =~= old(actions)@ + actions_for(
                next,
                side,
                reference@,
                actual@,
                *orders,
            ));
        }
        i += 1;
    }
    assert(prices@.take(prices@.len() as int) =~= prices@);
}

/// The actions for both sides of a book: first the bids, then the asks.
pub open spec fn reconcile_actions(
    reference: BookSnapshot,
    actual: BookSnapshot,
    orders: OrdersByLevel,
) -> Seq<ReconcileAction> {
    side_actions(OrderSide::Buy, reference.bids.levels@, actual.bids.levels@, orders.bids)
        + side_actions(OrderSide::Sell, reference.asks.levels@, actual.asks.levels@, orders.asks)
}

pub fn build_reconcile_actions(
    reference: &BookSnapshot,
    actual: &BookSnapshot,
    orders_by_level: &OrdersByLevel,
) -> (r: Vec<ReconcileAction>)
    ensures
        r@ == reconcile_actions(*reference, *actual, *orders_by_level),
{
    let mut actions: Vec<ReconcileAction> = Vec::new();
    diff_side(
        OrderSide::Buy,
        &reference.bids.levels,
        &actual.bids.levels,
        &orders_by_level.bids,
        &mut actions,
    );
    assert(actions@ =~= side_actions(
        OrderSide::Buy,
        reference.bids.levels@,
        actual.bids.levels@,
        orders_by_level.bids,
    ));
    diff_side(
        OrderSide::Sell,
        &reference.asks.levels,
        &actual.asks.levels,
        &orders_by_level.asks,
        &mut actions,
    );
    actions
}

/// What is kept of a book side are its best levels: all of them where there are at most `depth`,
/// else exactly `depth`, unchanged and in their order, and none that is left out is better than one
/// that is kept.
pub proof fn law_best_levels_are_kept(book: Seq<Level>, depth: nat, bids: bool)
    requires
        levels::best_first(book, bids),
    ensures
        book.len() <= depth ==> first_levels(book, depth as int) == book,
        book.len() > depth ==> first_levels(book, depth as int).len() == depth,
        forall|i: int|
            0 <= i < book.len() && i < depth ==> #[trigger] first_levels(book, depth as int)[i]
                == book[i],
        forall|i: int, j: int|
            0 <= i < first_levels(book, depth as int).len() && depth <= j < book.len() ==> {
                let kept = #[trigger] first_levels(book, depth as int)[i].price.raw;
                let left = #[trigger] book[j].price.raw;
                if bids {
                    kept > left
                } else {
                    kept < left
                }
            },
{
}

/// The orders at a price are those of the side at that price, each with its id and quantity, and
/// all of them.
pub proof fn law_groups_hold_the_orders(orders: Seq<Order>, side: OrderSide, price: i64)
    ensures
        forall|k: int|
            0 <= k < orders_at(orders, side, price).len() ==> exists|i: int|
                #![trigger orders[i]]
                0 <= i < orders.len() && orders[i].side == side && orders[i].price is Some
                    && orders[i].price->Some_0.raw == price && orders[i].client_order_id
                    == (#[trigger] orders_at(orders, side, price)[k]).client_order_id
                    && orders[i].quantity == orders_at(orders, side, price)[k].quantity
                    && orders[i].venue_order_id is Some == orders_at(
                    orders,
                    side,
                    price,
                )[k].has_venue_id,
        forall|i: int|
            0 <= i < orders.len() && (#[trigger] orders[i]).side == side && orders[i].price is Some
                && orders[i].price->Some_0.raw == price ==> exists|k: int|
                0 <= k < orders_at(orders, side, price).len() && (#[trigger] orders_at(
                    orders,
                    side,
                    price,
                )[k]).client_order_id == orders[i].client_order_id,
    decreases orders.len(),
{
    if orders.len() > 0 {
        let head = orders.drop_last();
        let before = orders_at(head, side, price);
        let all = orders_at(orders, side, price);
        law_groups_hold_the_orders(head, side, price);
        assert forall|k: int| 0 <= k < all.len() implies exists|i: int|
            #![trigger orders[i]]
            0 <= i < orders.len() && orders[i].side == side && orders[i].price is Some
                && orders[i].price->Some_0.raw == price && orders[i].client_order_id == (
            #[trigger] all[k]).client_order_id && orders[i].quantity == all[k].quantity
                && orders[i].venue_order_id is Some == all[k].has_venue_id by {
            if k < before.len() {
                assert(all[k] == before[k]);
                let i = choose|i: int|
                    #![trigger head[i]]
                    0 <= i < head.len() && head[i].side == side && head[i].price is Some
                        && head[i].price->Some_0.raw == price && head[i].client_order_id
                        == before[k].client_order_id && head[i].quantity == before[k].quantity
                        && head[i].venue_order_id is Some == before[k].has_venue_id;
                assert(orders[i] == head[i]);
            } else {
                assert(orders[orders.len() - 1] == orders.last());
            }
        }
        assert forall|i: int|
            0 <= i < orders.len() && (#[trigger] orders[i]).side == side && orders[i].price is Some
                && orders[i].price->Some_0.raw == price implies exists|k: int|
            0 <= k < all.len() && (#[trigger] all[k]).client_order_id
                == orders[i].client_order_id by {
            if i < head.len() {
                assert(head[i] == orders[i]);
                let k = choose|k: int|
                    0 <= k < before.len() && (#[trigger] before[k]).client_order_id
                        == head[i].client_order_id;
                assert(all[k] == before[k]);
            } else {
                assert(all[before.len() as int].client_order_id == orders[i].client_order_id);
            }
        }
    }
}

/// A level is brought to its size with as few actions as it takes: none where it has it, one order
/// where there is none yet, cancels alone where it is to go. A single order that the venue knows is
/// changed in place; several are cancelled and placed as one. Orders that the venue does not know
/// yet are left alone, whatever happens to the others.
pub proof fn law_levels_take_few_actions(
    side: OrderSide,
    reference: Option<Level>,
    actual: Option<Level>,
    orders: Seq<LevelOrder>,
)
    requires
        reference matches Some(level) ==> level.size_raw <= QUANTITY_RAW_MAX,
    ensures
        ({
            let actions = level_actions(side, reference, actual, orders);
            let known = orders.filter(|order: LevelOrder| order.has_venue_id);
            let wanted = match reference {
                Some(level) => level.size_raw,
                None => 0,
            };
            let there = match actual {
                Some(level) => level.size_raw,
                None => 0,
            };
            &&& wanted == there ==> actions.len() == 0
            &&& wanted > 0 && there == 0 ==> actions.len() == 1 && (
            actions[0] matches ReconcileAction::Place { side: s, price, quantity } && s == side
                && price == reference->Some_0.price && quantity.raw == wanted)
            &&& wanted == 0 && there > 0 ==> actions.len() == known.len() && forall|i: int|
                0 <= i < known.len() ==> (#[trigger] actions[i] matches ReconcileAction::Cancel {
                    client_order_id,
                } && client_order_id == known[i].client_order_id)
            &&& wanted > 0 && there > 0 && wanted != there && known.len() == 1 ==> actions.len()
                == 1 && (actions[0] matches ReconcileAction::Modify { client_order_id, quantity }
                && client_order_id == known[0].client_order_id && quantity.raw == wanted)
            &&& wanted > 0 && there > 0 && wanted != there && known.len() != 1 ==> {
                &&& actions.len() == known.len() + 1
                &&& forall|i: int|
                    0 <= i < known.len() ==> (#[trigger] actions[i]
                        matches ReconcileAction::Cancel { client_order_id } && client_order_id
                        == known[i].client_order_id)
                &&& actions.last() matches ReconcileAction::Place { side: s, price, quantity } && s
                    == side && price == reference->Some_0.price && quantity.raw == wanted
            }
        }),
{
    lemma_known_orders(orders);
    let known = orders.filter(|order: LevelOrder| order.has_venue_id);
    let actions = level_actions(side, reference, actual, orders);
    let first = cancels(known);
    if reference is Some {
        let second = placing(side, reference->Some_0);
        assert((first + second).last() == second[0]);
        assert(forall|i: int| 0 <= i < known.len() ==> #[trigger] (first + second)[i] == first[i]);
    }
}

proof fn lemma_known_orders(orders: Seq<LevelOrder>)
    ensures
        with_venue_id(orders) == orders.filter(|order: LevelOrder| order.has_venue_id),
    decreases orders.len(),
{
    reveal(Seq::filter);
    if orders.len() > 0 {
        lemma_known_orders(orders.drop_last());
    } else {
        assert(with_venue_id(orders) =~= orders);
    }
}

} // verus!
