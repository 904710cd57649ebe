//! Price levels of one side of a book: totals per price, found by price.

use indexmap::IndexMap;
use vstd::prelude::*;

use crate::collections;
use crate::decimal;
use crate::decimal::MAX_MANTISSA;
use crate::fixed;
use crate::fixed::{Price, Quantity, FIXED_PRECISION, QUANTITY_RAW_MAX};
use crate::model::{Order, OrderSide};

verus! {

/// A price and the total size at it, in raw units with `size_precision` places.
#[derive(Clone, Copy, Debug, PartialEq, Eq, Structural)]
pub struct Level {
    pub price: Price,
    pub size_raw: u128,
    pub size_precision: u8,
}

impl Level {
    /// The price is valid and the size a decimal number with its places.
    pub open spec fn valid(self) -> bool {
        &&& self.price.valid()
        &&& self.size_precision <= FIXED_PRECISION
        &&& self.size_raw <= MAX_MANTISSA
        &&& self.size_raw as int % fixed::raw_unit(self.size_precision as int) == 0
    }
}

pub open spec fn all_valid(levels: Seq<Level>) -> bool {
    forall|i: int| 0 <= i < levels.len() ==> (#[trigger] levels[i]).valid()
}

/// No price occurs twice.
pub open spec fn distinct_prices(levels: Seq<Level>) -> bool {
    forall|i: int, j: int|
        0 <= i < j < levels.len() ==> (#[trigger] levels[i]).price.raw != (
        #[trigger] levels[j]).price.raw
}

/// Some level has the price.
pub open spec fn has_price(levels: Seq<Level>, price: i64) -> bool {
    exists|i: int| 0 <= i < levels.len() && (#[trigger] levels[i]).price.raw == price
}

/// The position of a level with the price.
pub open spec fn position(levels: Seq<Level>, price: i64) -> int {
    choose|i: int| 0 <= i < levels.len() && (#[trigger] levels[i]).price.raw == price
}

/// The level with the price, where there is one.
pub open spec fn find(levels: Seq<Level>, price: i64) -> Option<Level> {
    if has_price(levels, price) {
        Some(levels[position(levels, price)])
    } else {
        None
    }
}

/// The size at the price: zero where no level has it.
pub open spec fn size_at(levels: Seq<Level>, price: i64) -> int {
    if has_price(levels, price) {
        levels[position(levels, price)].size_raw as int
    } else {
        0
    }
}

/// `a` stands before `b` in its side of the book.
pub open spec fn better(a: int, b: int, bids: bool) -> bool {
    if bids {
        a > b
    } else {
        a < b
    }
}

/// Best price first, no price twice.
pub open spec fn best_first(levels: Seq<Level>, bids: bool) -> bool {
    forall|i: int, j: int|
        0 <= i < j < levels.len() ==> better(
            (#[trigger] levels[i]).price.raw as int,
            (#[trigger] levels[j]).price.raw as int,
            bids,
        )
}

/// `top` holds the `depth` best levels of `all`, best first.
pub open spec fn is_top(top: Seq<Level>, all: Seq<Level>, depth: int, bids: bool) -> bool {
    &&& top.len() == if depth < all.len() {
        depth
    } else {
        all.len() as int
    }
    &&& best_first(top, bids)
    &&& forall|i: int| 0 <= i < top.len() ==> all.contains(#[trigger] top[i])
    &&& forall|i: int, j: int|
        0 <= i < top.len() && 0 <= j < all.len() && !top.contains(all[j]) ==> better(
            (#[trigger] top[i]).price.raw as int,
            (#[trigger] all[j]).price.raw as int,
            bids,
        )
}

/// The order counts toward the totals of a side.
pub open spec fn counts(order: Order, side: OrderSide) -> bool {
    order.side == side && order.price is Some && order.quantity.raw != 0
}

/// The levels with one more order: added at its price, or as a new last level.
pub open spec fn with_order(levels: Seq<Level>, order: Order, side: OrderSide) -> Seq<Level> {
    if !counts(order, side) {
        levels
    } else if has_price(levels, order.price->Some_0.raw) {
        let i = position(levels, order.price->Some_0.raw);
        levels.update(i, grown(levels[i], order.quantity))
    } else {
        levels.push(
            Level {
                price: order.price->Some_0,
                size_raw: order.quantity.raw as u128,
                size_precision: order.quantity.precision,
            },
        )
    }
}

/// A level with a quantity added: the finer precision of the two stays.
pub open spec fn grown(level: Level, quantity: Quantity) -> Level {
    Level {
        price: level.price,
        size_raw: (level.size_raw + quantity.raw) as u128,
        size_precision: if quantity.precision > level.size_precision {
            quantity.precision
        } else {
            level.size_precision
        },
    }
}

/// The totals of the orders of a side per price, in the order in which prices first occur.
pub open spec fn order_levels(orders: Seq<Order>, side: OrderSide) -> Seq<Level>
    decreases orders.len(),
{
    if orders.len() == 0 {
        Seq::<Level>::empty()
    } else {
        with_order(order_levels(orders.drop_last(), side), orders.last(), side)
    }
}

/// The sum of the quantities of a side's orders at a price.
pub open spec fn total_at(orders: Seq<Order>, side: OrderSide, price: i64) -> int
    decreases orders.len(),
{
    if orders.len() == 0 {
        0
    } else {
        let before = total_at(orders.drop_last(), side, price);
        let order = orders.last();
        if counts(order, side) && order.price->Some_0.raw == price {
            before + order.quantity.raw
        } else {
            before
        }
    }
}

pub open spec fn valid_orders(orders: Seq<Order>) -> bool {
    forall|i: int| 0 <= i < orders.len() ==> (#[trigger] orders[i]).valid()
}

pub proof fn lemma_distinct_position(levels: Seq<Level>, i: int)
    requires
        distinct_prices(levels),
        0 <= i < levels.len(),
    ensures
        has_price(levels, levels[i].price.raw),
        position(levels, levels[i].price.raw) == i,
{
    let p = position(levels, levels[i].price.raw);
    assert(levels[i].price.raw == levels[i].price.raw);
    assert(0 <= p < levels.len() && levels[p].price.raw == levels[i].price.raw);
    if p < i {
        assert(levels[p].price.raw != levels[i].price.raw);
    } else if i < p {
        assert(levels[i].price.raw != levels[p].price.raw);
    }
}

/// Units of finer places divide units of coarser places.
proof fn lemma_unit_divides(coarse: int, fine: int, n: int)
    requires
        0 <= coarse <= fine <= FIXED_PRECISION,
        n % fixed::raw_unit(coarse) == 0,
    ensures
        n % fixed::raw_unit(fine) == 0,
{
    let a = fixed::raw_unit(coarse);
    let b = fixed::raw_unit(fine);
    let k = decimal::pow10((fine - coarse) as nat);
    decimal::lemma_pow10_adds((fine - coarse) as nat, (FIXED_PRECISION - fine) as nat);
    decimal::lemma_pow10_positive((FIXED_PRECISION - fine) as nat);
    decimal::lemma_pow10_positive((FIXED_PRECISION - coarse) as nat);
    assert(a == k * b);
    let q = n / a;
    assert(n == a * q) by (nonlinear_arith)
        requires
            a > 0,
            n % a == 0,
            q == n / a,
    ;
    assert((k * b) * q == (k * q) * b) by (nonlinear_arith);
    assert(((k * q) * b) % b == 0) by (nonlinear_arith)
        requires
            b > 0,
    ;
}

proof fn lemma_grown_valid(level: Level, quantity: Quantity)
    requires
        level.valid(),
        quantity.valid(),
        level.size_raw + quantity.raw <= MAX_MANTISSA,
    ensures
        grown(level, quantity).valid(),
{
    let p = grown(level, quantity).size_precision as int;
    let unit = fixed::raw_unit(p);
    lemma_unit_divides(level.size_precision as int, p, level.size_raw as int);
    lemma_unit_divides(quantity.precision as int, p, quantity.raw as int);
    decimal::lemma_pow10_positive((FIXED_PRECISION - p) as nat);
    let a = level.size_raw as int;
    let b = quantity.raw as int;
    let x = a / unit;
    let y = b / unit;
    assert(a == unit * x && b == unit * y) by (nonlinear_arith)
        requires
            unit > 0,
            a % unit == 0,
            b % unit == 0,
            x == a / unit,
            y == b / unit,
    ;
    assert(unit * x + unit * y == (x + y) * unit) by (nonlinear_arith);
    assert(((x + y) * unit) % unit == 0) by (nonlinear_arith)
        requires
            unit > 0,
    ;
}

/// Levels built from orders: each price once, and the size at each price is the sum of the
/// quantities of the side's orders at it.
pub proof fn law_order_levels_are_totals(orders: Seq<Order>, side: OrderSide)
    requires
        valid_orders(orders),
        orders.len() <= u32::MAX,
    ensures
        distinct_prices(order_levels(orders, side)),
        all_valid(order_levels(orders, side)),
        order_levels(orders, side).len() <= orders.len(),
        forall|i: int|
            0 <= i < order_levels(orders, side).len() ==> 0 < (#[trigger] order_levels(
                orders,
                side,
            )[i]).size_raw <= orders.len() * QUANTITY_RAW_MAX,
        forall|price: i64| #[trigger]
            size_at(order_levels(orders, side), price) == total_at(orders, side, price),
    decreases orders.len(),
{
    let levels = order_levels(orders, side);
    if orders.len() == 0 {
        assert forall|price: i64| #[trigger] size_at(levels, price) == total_at(
            orders,
            side,
            price,
        ) by {}
    } else {
        let before = order_levels(orders.drop_last(), side);
        let order = orders.last();
        assert(order == orders[orders.len() - 1]);
        assert(valid_orders(orders.drop_last())) by {
            assert forall|i: int| 0 <= i < orders.drop_last().len() implies (
            #[trigger] orders.drop_last()[i]).valid() by {
                assert(orders.drop_last()[i] == orders[i]);
            }
        }
        law_order_levels_are_totals(orders.drop_last(), side);
        if counts(order, side) {
            let p = order.price->Some_0;
            if has_price(before, p.raw) {
                let i = position(before, p.raw);
                assert(0 <= i < before.len() && before[i].price.raw == p.raw);
                lemma_grown_valid(before[i], order.quantity);
                assert forall|price: i64| #[trigger] size_at(levels, price) == total_at(
                    orders,
                    side,
                    price,
                ) by {
                    assert(size_at(before, price) == total_at(orders.drop_last(), side, price));
                    if price == p.raw {
                        lemma_distinct_position(levels, i);
                    } else if has_price(before, price) {
                        let j = position(before, price);
                        assert(levels[j] == before[j]);
                        lemma_distinct_position(levels, j);
                    } else if has_price(levels, price) {
                        let j = position(levels, price);
                        assert(before[j].price.raw == price);
                    }
                }
            } else {
                let n = before.len() as int;
                assert(levels[n].price == p);
                assert(forall|i: int| 0 <= i < n ==> levels[i] == before[i]);
                assert(distinct_prices(levels)) by {
                    assert forall|i: int, j: int| 0 <= i < j < levels.len() implies (
                    #[trigger] levels[i]).price.raw != (#[trigger] levels[j]).price.raw by {
                        if j == n {
                            assert(levels[i] == before[i]);
                        } else {
                            assert(levels[i] == before[i] && levels[j] == before[j]);
                        }
                    }
                }
                assert forall|price: i64| #[trigger] size_at(levels, price) == total_at(
                    orders,
                    side,
                    price,
                ) by {
                    assert(size_at(before, price) == total_at(orders.drop_last(), side, price));
                    if price == p.raw {
                        lemma_distinct_position(levels, n);
                    } else if has_price(before, price) {
                        let j = position(before, price);
                        assert(levels[j] == before[j]);
                        lemma_distinct_position(levels, j);
                    } else if has_price(levels, price) {
                        let j = position(levels, price);
                        if j < n {
                            assert(before[j].price.raw == price);
                        }
                    }
                }
            }
        } else {
            assert forall|price: i64| #[trigger] size_at(levels, price) == total_at(
                orders,
                side,
                price,
            ) by {
                assert(size_at(before, price) == total_at(orders.drop_last(), side, price));
            }
        }
    }
}

/// The index entries of a list of levels: each price with its position.
pub open spec fn slots_for(levels: Seq<Level>) -> Seq<(i64, u64)> {
    Seq::new(levels.len(), |i: int| (levels[i].price.raw, i as u64))
}

/// Levels with an index from prices to positions.
#[derive(Debug)]
pub struct LevelMap {
    index: IndexMap<i64, u64>,
    levels: Vec<Level>,
}

impl View for LevelMap {
    type V = Seq<Level>;

    closed spec fn view(&self) -> Seq<Level> {
        self.levels@
    }
}

impl LevelMap {
    #[verifier::type_invariant]
    spec fn indexed(self) -> bool {
        &&& distinct_prices(self.levels@)
        &&& all_valid(self.levels@)
        &&& collections::price_slots(self.index) == slots_for(self.levels@)
    }

    /// The levels, each price once.
    pub fn from_levels(levels: Vec<Level>) -> (r: LevelMap)
        requires
            distinct_prices(levels@),
            all_valid(levels@),
        ensures
            r@ == levels@,
    {
        let mut index: IndexMap<i64, u64> = collections::price_index_new();
        let mut i: usize = 0;
        assert(slots_for(levels@.take(0)) =~= Seq::<(i64, u64)>::empty());
        while i < levels.len()
            invariant
                i <= levels.len(),
                distinct_prices(levels@),
                collections::price_slots(index) == slots_for(levels@.take(i as int)),
            decreases levels.len() - i,
        {
            proof {
                let slots = collections::price_slots(index);
                assert forall|j: int| 0 <= j < slots.len() implies #[trigger] slots[j].0
                    != levels@[i as int].price.raw by {
                    assert(slots[j].0 == levels@.take(i as int)[j].price.raw);
                    assert(levels@.take(i as int)[j] == levels@[j]);
                }
            }
            collections::price_index_insert(&mut index, levels[i].price.raw, i as u64);
            i += 1;
            assert(slots_for(levels@.take(i as int)) =~= slots_for(levels@.take(i - 1)).push(
                (levels@[i - 1].price.raw, (i - 1) as u64),
            ));
        }
        assert(levels@.take(levels@.len() as int) =~= levels@);
        LevelMap { index, levels }
    }

    /// The levels, in their order.
    pub fn levels(&self) -> (r: &Vec<Level>)
        ensures
            r@ == self@,
            distinct_prices(r@),
            all_valid(r@),
    {
        proof {
            use_type_invariant(self);
        }
        &self.levels
    }

    /// The level with a price, where there is one.
    pub fn get(&self, price: i64) -> (r: Option<Level>)
        ensures
            r == find(self@, price),
            r matches Some(level) ==> level.valid() && level.price.raw == price,
            distinct_prices(self@),
    {
        proof {
            use_type_invariant(self);
            assert(self.levels@.len() == self.levels.len());
            lemma_slot(self.levels@, price);
        }
        match collections::price_index_get(&self.index, price) {
            Some(slot) => Some(self.levels[slot as usize]),
            None => None,
        }
    }
}

/// The entry for a price in the index of a list of levels.
proof fn lemma_slot(levels: Seq<Level>, price: i64)
    requires
        distinct_prices(levels),
        levels.len() <= usize::MAX,
    ensures
        collections::slot_of(slots_for(levels), price) == if has_price(levels, price) {
            Some(position(levels, price) as u64)
        } else {
            None::<u64>
        },
        has_price(levels, price) ==> 0 <= position(levels, price) < levels.len()
            && levels[position(levels, price)].price.raw == price,
{
    let slots = slots_for(levels);
    if has_price(levels, price) {
        let i = position(levels, price);
        assert(slots[i].0 == price);
        let j = choose|j: int| 0 <= j < slots.len() && #[trigger] slots[j].0 == price;
        assert(0 <= j < slots.len() && slots[j].0 == price);
        lemma_distinct_position(levels, i);
        lemma_distinct_position(levels, j);
    } else if exists|j: int| 0 <= j < slots.len() && #[trigger] slots[j].0 == price {
        let j = choose|j: int| 0 <= j < slots.len() && #[trigger] slots[j].0 == price;
        assert(levels[j].price.raw == price);
    }
}

/// The totals of the orders of a side per price.
pub fn totals_from_orders(orders: &[Order], side: OrderSide) -> (r: LevelMap)
    requires
        valid_orders(orders@),
        orders.len() <= u32::MAX,
    ensures
        r@ == order_levels(orders@, side),
{
    let mut index: IndexMap<i64, u64> = collections::price_index_new();
    let mut levels: Vec<Level> = Vec::new();
    let mut k: usize = 0;
    assert(orders@.take(0) =~= Seq::<Order>::empty());
    assert(slots_for(levels@) =~= Seq::<(i64, u64)>::empty());
    while k < orders.len()
        invariant
            k <= orders.len() <= u32::MAX,
            valid_orders(orders@),
            levels@ == order_levels(orders@.take(k as int), side),
            collections::price_slots(index) == slots_for(levels@),
        decreases orders.len() - k,
    {
        let ghost done = orders@.take(k as int);
        proof {
            assert(valid_orders(done));
            law_order_levels_are_totals(done, side);
            assert(orders@.take(k + 1).drop_last() =~= done);
            assert(orders@.take(k + 1).last() == orders@[k as int]);
        }
        let order: &Order = &orders[k];
        if order.side == side && order.quantity.raw != 0 {
            if let Some(price) = order.price {
                proof {
                    lemma_slot(levels@, price.raw);
                }
                match collections::price_index_get(&index, price.raw) {
                    Some(slot) => {
                        let i: usize = slot as usize;
                        let ghost old_levels = levels@;
                        let level: Level = levels[i];
                        proof {
                            lemma_grown_valid(level, order.quantity);
                        }
                        let finer: u8 = if order.quantity.precision > level.size_precision {
                            order.quantity.precision
                        } else {
                            level.size_precision
                        };
                        levels.set(
                            i,
                            Level {
                                price: level.price,
                                size_raw: level.size_raw + order.quantity.raw as u128,
                                size_precision: finer,
                            },
                        );
                        assert(slots_for(levels@) =~= slots_for(old_levels));
                    },
                    None => {
                        let ghost old_levels = levels@;
                        collections::price_index_insert(&mut index, price.raw, levels.len() as u64);
                        levels.push(
                            Level {
                                price,
                                size_raw: order.quantity.raw as u128,
                                size_precision: order.quantity.precision,
                            },
                        );
                        assert(slots_for(levels@) =~= slots_for(old_levels).push(
                            (price.raw, old_levels.len() as u64),
                        ));
                    },
                }
            }
        }
        k += 1;
    }
    proof {
        assert(orders@.take(orders@.len() as int) =~= orders@);
        law_order_levels_are_totals(orders@, side);
    }
    LevelMap { index, levels }
}

/// Where `level` goes among levels that stand best first.
fn insertion_point(sorted: &Vec<Level>, level: &Level, bids: bool) -> (r: usize)
    requires
        best_first(sorted@, bids),
        !has_price(sorted@, level.price.raw),
    ensures
        r <= sorted.len(),
        forall|i: int|
            0 <= i < r ==> better(
                (#[trigger] sorted@[i]).price.raw as int,
                level.price.raw as int,
                bids,
            ),
        forall|i: int|
            r <= i < sorted.len() ==> better(
                level.price.raw as int,
                (#[trigger] sorted@[i]).price.raw as int,
                bids,
            ),
{
    let mut i: usize = 0;
    while i < sorted.len()
        invariant
            i <= sorted.len(),
            best_first(sorted@, bids),
            !has_price(sorted@, level.price.raw),
            forall|j: int|
                0 <= j < i ==> better(
                    (#[trigger] sorted@[j]).price.raw as int,
                    level.price.raw as int,
                    bids,
                ),
        decreases sorted.len() - i,
    {
        let here: i64 = sorted[i].price.raw;
        assert(sorted@[i as int].price.raw != level.price.raw);
        let level_first: bool = if bids {
            level.price.raw > here
        } else {
            level.price.raw < here
        };
        if level_first {
            return i;
        }
        i += 1;
    }
    i
}

/// Keeps the `depth` best levels of a side, best first.
pub fn trim_side_levels(levels: &LevelMap, depth: usize, bids: bool) -> (r: LevelMap)
    ensures
        is_top(r@, levels@, depth as int, bids),
        distinct_prices(levels@),
{
    let all: &Vec<Level> = levels.levels();
    let mut sorted: Vec<Level> = Vec::new();
    let mut k: usize = 0;
    while k < all.len()
        invariant
            k <= all.len(),
            all@ == levels@,
            distinct_prices(all@),
            all_valid(all@),
            sorted.len() == k,
            best_first(sorted@, bids),
            all_valid(sorted@),
            forall|i: int| 0 <= i < k ==> sorted@.contains(#[trigger] all@[i]),
            forall|i: int|
                0 <= i < k ==> exists|j: int| 0 <= j < k && #[trigger] sorted@[i] == all@[j],
        decreases all.len() - k,
    {
        let level: Level = all[k];
        proof {
            if has_price(sorted@, level.price.raw) {
                let i = position(sorted@, level.price.raw);
                assert(sorted@[i].price.raw == level.price.raw);
                let j = choose|j: int| 0 <= j < k && sorted@[i] == all@[j];
                assert(all@[j].price.raw != all@[k as int].price.raw);
            }
        }
        let at: usize = insertion_point(&sorted, &level, bids);
        let ghost before = sorted@;
        sorted.insert(at, level);
        proof {
            lemma_insertion(before, at as int, level, bids);
            assert forall|i: int| 0 <= i < k + 1 implies sorted@.contains(#[trigger] all@[i]) by {
                if i < k {
                    let j = choose|j: int| 0 <= j < before.len() && before[j] == all@[i];
                    assert(before.contains(all@[i]));
                    assert(sorted@[if j < at {
                        j
                    } else {
                        j + 1
                    }] == all@[i]);
                } else {
                    assert(sorted@[at as int] == all@[i]);
                }
            }
            assert forall|i: int| 0 <= i < k + 1 implies exists|j: int|
                0 <= j < k + 1 && #[trigger] sorted@[i] == all@[j] by {
                if i == at {
                    assert(sorted@[i] == all@[k as int]);
                } else {
                    let b = if i < at {
                        i
                    } else {
                        i - 1
                    };
                    assert(sorted@[i] == before[b]);
                    let j = choose|j: int| 0 <= j < k && before[b] == all@[j];
                    assert(sorted@[i] == all@[j]);
                }
            }
        }
        k += 1;
    }
    let ghost full = sorted@;
    if depth < sorted.len() {
        sorted.truncate(depth);
    }
    proof {
        let top = sorted@;
        assert(forall|i: int| 0 <= i < top.len() ==> top[i] == full[i]);
        assert(distinct_prices(top)) by {
            assert forall|i: int, j: int| 0 <= i < j < top.len() implies (
            #[trigger] top[i]).price.raw != (#[trigger] top[j]).price.raw by {
                assert(better(full[i].price.raw as int, full[j].price.raw as int, bids));
            }
        }
        assert forall|i: int| 0 <= i < top.len() implies all@.contains(#[trigger] top[i]) by {
            let j = choose|j: int| 0 <= j < k && full[i] == all@[j];
            assert(full[i] == top[i]);
            assert(all@[j] == top[i]);
        }
        assert forall|i: int, j: int|
            0 <= i < top.len() && 0 <= j < all@.len() && !top.contains(all@[j]) implies better(
            (#[trigger] top[i]).price.raw as int,
            (#[trigger] all@[j]).price.raw as int,
            bids,
        ) by {
            assert(full.contains(all@[j]));
            let q = choose|q: int| 0 <= q < full.len() && full[q] == all@[j];
            if q < top.len() {
                assert(top[q] == all@[j]);
            }
            assert(better(full[i].price.raw as int, full[q].price.raw as int, bids));
        }
    }
    LevelMap::from_levels(sorted)
}

/// Inserting a level between better and worse ones keeps the order.
proof fn lemma_insertion(before: Seq<Level>, at: int, level: Level, bids: bool)
    requires
        best_first(before, bids),
        0 <= at <= before.len(),
        level.valid(),
        all_valid(before),
        forall|i: int|
            0 <= i < at ==> better(
                (#[trigger] before[i]).price.raw as int,
                level.price.raw as int,
                bids,
            ),
        forall|i: int|
            at <= i < before.len() ==> better(
                level.price.raw as int,
                (#[trigger] before[i]).price.raw as int,
                bids,
            ),
    ensures
        best_first(before.insert(at, level), bids),
        all_valid(before.insert(at, level)),
{
    let after = before.insert(at, level);
    assert forall|i: int, j: int| 0 <= i < j < after.len() implies better(
        (#[trigger] after[i]).price.raw as int,
        (#[trigger] after[j]).price.raw as int,
        bids,
    ) by {
        let x = if i < at {
            i
        } else {
            i - 1
        };
        let y = if j < at {
            j
        } else {
            j - 1
        };
        if i != at && j != at {
            assert(after[i] == before[x] && after[j] == before[y]);
        } else if i == at {
            assert(after[j] == before[y]);
        } else {
            assert(after[i] == before[x]);
        }
    }
}

/// The total of a side at a price grows by the quantity of every order there, and by no other order.
pub proof fn law_totals_count_each_order(
    orders: Seq<Order>,
    order: Order,
    side: OrderSide,
    price: i64,
)
    ensures
        total_at(orders.push(order), side, price) == total_at(orders, side, price) + if order.side
            == side && (order.price matches Some(p) && p.raw == price) {
            order.quantity.raw as int
        } else {
            0
        },
        total_at(Seq::empty(), side, price) == 0,
{
    assert(orders.push(order).drop_last() =~= orders);
}

/// The best levels of a list: a level is left out only where `depth` are kept, all of them better.
pub proof fn law_top_keeps_the_best(
    top: Seq<Level>,
    all: Seq<Level>,
    depth: nat,
    bids: bool,
    j: int,
)
    requires
        is_top(top, all, depth as int, bids),
        0 <= j < all.len(),
        !top.contains(all[j]),
    ensures
        top.len() == depth,
        forall|i: int|
            0 <= i < top.len() ==> if bids {
                (#[trigger] top[i]).price.raw > all[j].price.raw
            } else {
                top[i].price.raw < all[j].price.raw
            },
{
    if top.len() < depth {
        assert(top.no_duplicates()) by {
            assert forall|a: int, b: int|
                0 <= a < top.len() && 0 <= b < top.len() && a != b implies top[a] != top[b] by {
                if a < b {
                    assert(better(top[a].price.raw as int, top[b].price.raw as int, bids));
                } else {
                    assert(better(top[b].price.raw as int, top[a].price.raw as int, bids));
                }
            }
        }
        top.unique_seq_to_set();
        let rest = all.remove(j);
        assert(top.to_set().subset_of(rest.to_set())) by {
            assert forall|x: Level| #[trigger] top.to_set().contains(x) implies rest.to_set().contains(
                x,
            ) by {
                let i = choose|i: int| 0 <= i < top.len() && top[i] == x;
                assert(all.contains(top[i]));
                let k = choose|k: int| 0 <= k < all.len() && all[k] == x;
                assert(k != j);
                assert(rest[if k < j {
                    k
                } else {
                    k - 1
                }] == x);
            }
        }
        vstd::set_lib::lemma_len_subset(top.to_set(), rest.to_set());
        rest.lemma_cardinality_of_set();
    }
    assert forall|i: int| 0 <= i < top.len() implies if bids {
        (#[trigger] top[i]).price.raw > all[j].price.raw
    } else {
        top[i].price.raw < all[j].price.raw
    } by {
        assert(better(top[i].price.raw as int, all[j].price.raw as int, bids));
    }
}

} // verus!
