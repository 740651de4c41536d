//! Operations that change an order book: insert, remove, update, cancel, clear.
use vstd::prelude::*;
use vstd::std_specs::hash::*;
use vstd::std_specs::iter::IteratorSpec;

use crate::orderbook::book::{
    better, book_view_wf, drop_entry, entry_ok, lemma_level_index, ids_distinct, level_ok, levels_sorted, located, side_ok, splits_at, has_level, level_index, push_entry, set_entry_qty, side_levels,
    with_side, BookView, OrderBook,
};
use crate::orderbook::price_level::{
    first_index, has_id, lemma_first_index, lemma_first_index_exists, lemma_qty_sum_at, lemma_qty_sum_nonneg,
    lemma_qty_sum_update, qty_sum, remove_id, set_qty, LevelView,
};
use crate::types::ids::OrderId;
use crate::types::order::{status_active, Order, OrderSide, OrderStatus, OrderType};
use crate::types::primitives::{Price, Quantity};

verus! {

broadcast use vstd::std_specs::hash::group_hash_axioms;

/// Why an order book operation failed.
#[derive(Debug, Clone, Copy, PartialEq, Eq, Structural)]
pub enum OrderBookError {
    /// An order with the same id already rests in the book.
    OrderAlreadyExists,
    /// No order with that id rests in the book.
    OrderNotFound,
    /// The order belongs to another market.
    WrongMarket,
    /// The total quantity of the price level would overflow.
    PriceLevelFull,
    /// Market orders cannot rest in the book.
    MarketOrderCannotRest,
    /// The order is not open or partially filled.
    OrderNotActive,
}

/// The human-readable text of an order book error.
pub open spec fn order_book_error_text(e: OrderBookError) -> Seq<char> {
    match e {
        OrderBookError::OrderAlreadyExists => "order already exists in book"@,
        OrderBookError::OrderNotFound => "order not found in book"@,
        OrderBookError::WrongMarket => "order belongs to different market"@,
        OrderBookError::PriceLevelFull => "price level quantity overflow"@,
        OrderBookError::MarketOrderCannotRest => "market orders cannot rest in book"@,
        OrderBookError::OrderNotActive => "order is not in active state"@,
    }
}

impl OrderBookError {
    /// The human-readable text of the error.
    pub fn message(&self) -> (r: String)
        ensures r@ == order_book_error_text(*self),
    {
        match self {
            OrderBookError::OrderAlreadyExists => "order already exists in book".to_owned(),
            OrderBookError::OrderNotFound => "order not found in book".to_owned(),
            OrderBookError::WrongMarket => "order belongs to different market".to_owned(),
            OrderBookError::PriceLevelFull => "price level quantity overflow".to_owned(),
            OrderBookError::MarketOrderCannotRest => "market orders cannot rest in book".to_owned(),
            OrderBookError::OrderNotActive => "order is not in active state".to_owned(),
        }
    }
}

/// The result of an order book operation.
pub type Result<T> = core::result::Result<T, OrderBookError>;

/// Where a price without a level goes among sorted levels: after every
/// better price, before every worse one.
pub open spec fn insert_index(levels: Seq<LevelView>, p: Price, side: OrderSide) -> int {
    choose|i: int| splits_at(levels, i, p, side)
}

/// The levels after appending entry `e` at price `p`: at the back of the
/// existing level, or in a new level at its sorted position.
pub open spec fn levels_with_entry(levels: Seq<LevelView>, side: OrderSide, p: Price, e: (OrderId, Quantity)) -> Seq<LevelView> {
    if has_level(levels, p) {
        push_entry(levels, level_index(levels, p), e)
    } else {
        levels.insert(insert_index(levels, p, side), LevelView { price: p, orders: seq![e] })
    }
}

/// The levels after removing order `id` from the level at `p`; a level left
/// empty disappears.
pub open spec fn levels_without(levels: Seq<LevelView>, p: Price, id: OrderId) -> Seq<LevelView> {
    if has_level(levels, p) {
        drop_entry(levels, level_index(levels, p), id)
    } else {
        levels
    }
}

/// The levels after setting the quantity of order `id` at `p` to `q`.
pub open spec fn levels_with_qty(levels: Seq<LevelView>, p: Price, id: OrderId, q: Quantity) -> Seq<LevelView> {
    if has_level(levels, p) {
        set_entry_qty(levels, level_index(levels, p), id, q)
    } else {
        levels
    }
}

/// The quantity already resting at price `p` of `side`.
pub open spec fn level_total(v: BookView, side: OrderSide, p: Price) -> int {
    if has_level(side_levels(v, side), p) {
        qty_sum(side_levels(v, side)[level_index(side_levels(v, side), p)].orders)
    } else {
        0
    }
}

/// Why inserting `o` fails, checked in this order; `None` when it succeeds.
pub open spec fn insert_error(v: BookView, o: Order) -> Option<OrderBookError> {
    if o.market_id != v.market_id {
        Some(OrderBookError::WrongMarket)
    } else if o.order_type == OrderType::Market {
        Some(OrderBookError::MarketOrderCannotRest)
    } else if !status_active(o.status) {
        Some(OrderBookError::OrderNotActive)
    } else if v.orders.contains_key(o.id.0) {
        Some(OrderBookError::OrderAlreadyExists)
    } else if level_total(v, o.side, o.price) + o.remaining_quantity.0 > u128::MAX {
        Some(OrderBookError::PriceLevelFull)
    } else {
        None
    }
}

/// The book after `o` is inserted: its remaining quantity goes to the back
/// of its price level and it is indexed by id.
pub open spec fn book_insert(v: BookView, o: Order) -> BookView {
    let levels = levels_with_entry(side_levels(v, o.side), o.side, o.price, (o.id, o.remaining_quantity));
    BookView { orders: v.orders.insert(o.id.0, o), ..with_side(v, o.side, levels) }
}

/// The book after the order with id `id` is removed from its level and from the index.
pub open spec fn book_remove(v: BookView, id: OrderId) -> BookView {
    let o = v.orders[id.0];
    let levels = levels_without(side_levels(v, o.side), o.price, id);
    BookView { orders: v.orders.remove(id.0), ..with_side(v, o.side, levels) }
}

/// The status of an order whose remaining quantity becomes `q`.
pub open spec fn status_after_update(o: Order, q: Quantity) -> OrderStatus {
    if q.0 == 0 {
        OrderStatus::Filled
    } else if q.0 < o.quantity.0 {
        OrderStatus::PartiallyFilled
    } else {
        o.status
    }
}

/// The book after the remaining quantity of order `id` becomes `q`, in its
/// level (keeping its place in the queue) and in the index.
pub open spec fn book_set_qty(v: BookView, id: OrderId, q: Quantity) -> BookView {
    let o = v.orders[id.0];
    let levels = levels_with_qty(side_levels(v, o.side), o.price, id, q);
    let o2 = Order { remaining_quantity: q, status: status_after_update(o, q), ..o };
    BookView { orders: v.orders.insert(id.0, o2), ..with_side(v, o.side, levels) }
}

/// Setting the remaining quantity of order `id` to `q` would overflow its level.
pub open spec fn set_qty_overflows(v: BookView, id: OrderId, q: Quantity) -> bool {
    let o = v.orders[id.0];
    level_total(v, o.side, o.price) - o.remaining_quantity.0 + q.0 > u128::MAX
}

/// The book after order `id` is marked cancelled in the index.
pub open spec fn book_cancel(v: BookView, id: OrderId) -> BookView {
    BookView { orders: v.orders.insert(id.0, Order { status: OrderStatus::Cancelled, ..v.orders[id.0] }), ..v }
}


// ---------------------------------------------------------------------------
// Lemmas on sorted levels
// ---------------------------------------------------------------------------

/// A price that no level holds has a split position.
proof fn lemma_split_point(levels: Seq<LevelView>, p: Price, side: OrderSide) -> (i: int)
    requires
        levels_sorted(levels, side),
        !has_level(levels, p),
    ensures
        splits_at(levels, i, p, side),
    decreases levels.len(),
{
    if levels.len() == 0 {
        0
    } else {
        let n: int = levels.len() as int;
        let init = levels.drop_last();
        assert(levels_sorted(init, side)) by {
            assert forall|a: int, b: int| 0 <= a < b < init.len() implies better(
                #[trigger] init[a].price,
                #[trigger] init[b].price,
                side,
            ) by {
                assert(init[a] == levels[a] && init[b] == levels[b]);
            }
        }
        assert(!has_level(init, p)) by {
            if has_level(init, p) {
                let w = choose|w: int| 0 <= w < init.len() && init[w].price == p;
                assert(levels[w].price == p);
            }
        }
        let k = lemma_split_point(init, p, side);
        if levels[n - 1].price == p {
            assert(has_level(levels, p));
        }
        if better(levels[n - 1].price, p, side) {
            assert forall|j: int| 0 <= j < n implies better(#[trigger] levels[j].price, p, side) by {
                if j < n - 1 {
                    assert(better(levels[j].price, levels[n - 1].price, side));
                }
            }
            n
        } else {
            assert forall|j: int| 0 <= j < k implies better(#[trigger] levels[j].price, p, side) by {
                assert(init[j] == levels[j]);
            }
            assert forall|j: int| k <= j < n implies better(p, #[trigger] levels[j].price, side) by {
                if j < n - 1 {
                    assert(init[j] == levels[j]);
                }
            }
            k
        }
    }
}

/// The split position is unique, so it is the insertion index.
pub(crate) proof fn lemma_insert_index(levels: Seq<LevelView>, p: Price, side: OrderSide, i: int)
    requires
        splits_at(levels, i, p, side),
    ensures
        insert_index(levels, p, side) == i,
{
    let k = insert_index(levels, p, side);
    assert(splits_at(levels, k, p, side));
    if k < i {
        assert(better(levels[k].price, p, side));
        assert(better(p, levels[k].price, side));
    } else if i < k {
        assert(better(levels[i].price, p, side));
        assert(better(p, levels[i].price, side));
    }
}

/// Inserting a level at its split position keeps the levels sorted.
proof fn lemma_insert_sorted(levels: Seq<LevelView>, side: OrderSide, i: int, l: LevelView)
    requires
        levels_sorted(levels, side),
        splits_at(levels, i, l.price, side),
    ensures
        levels_sorted(levels.insert(i, l), side),
{
    let n = levels.insert(i, l);
    assert forall|a: int, b: int| 0 <= a < b < n.len() implies better(#[trigger] n[a].price, #[trigger] n[b].price, side) by {
        if b < i {
            assert(n[a] == levels[a] && n[b] == levels[b]);
        } else if b == i {
            assert(n[a] == levels[a]);
        } else if a < i {
            assert(n[a] == levels[a] && n[b] == levels[b - 1]);
            assert(better(levels[a].price, l.price, side));
            assert(better(l.price, levels[b - 1].price, side));
        } else if a == i {
            assert(n[b] == levels[b - 1]);
        } else {
            assert(n[a] == levels[a - 1] && n[b] == levels[b - 1]);
        }
    }
}

/// An order found at position `i` of sorted levels is found by price.
proof fn lemma_found_at(levels: Seq<LevelView>, side: OrderSide, i: int, id: OrderId)
    requires
        levels_sorted(levels, side),
        0 <= i < levels.len(),
        has_id(levels[i].orders, id),
    ensures
        has_level(levels, levels[i].price),
        has_id(levels[level_index(levels, levels[i].price)].orders, id),
{
    lemma_level_index(levels, side, i);
}

/// Level consistency carries over to a book whose index agrees with the
/// old one on every key but `x`, for a level without an entry keyed `x`.
proof fn lemma_level_ok_transfer(v: BookView, v2: BookView, side: OrderSide, l: LevelView, x: u128)
    requires
        level_ok(v, side, l),
        forall|k: u128| #[trigger] v.orders.contains_key(k) && k != x ==> v2.orders.contains_key(k) && v2.orders[k] == v.orders[k],
        forall|j: int| 0 <= j < l.orders.len() ==> (#[trigger] l.orders[j]).0.0 != x,
    ensures
        level_ok(v2, side, l),
{
    assert forall|j: int| 0 <= j < l.orders.len() implies entry_ok(v2, side, l.price, #[trigger] l.orders[j]) by {
        assert(entry_ok(v, side, l.price, l.orders[j]));
    }
}

/// Appending an entry adds its quantity to the sum.
pub(crate) proof fn lemma_qty_sum_push(s: Seq<(OrderId, Quantity)>, e: (OrderId, Quantity))
    ensures
        qty_sum(s.push(e)) == qty_sum(s) + e.1.0,
{
    assert(s.push(e).drop_last() =~= s);
}

/// In a consistent book an entry keyed by an indexed order's id sits in the
/// level of that order's side at that order's price.
proof fn lemma_entry_home(v: BookView, side: OrderSide, j: int, t: int)
    requires
        book_view_wf(v),
        0 <= j < side_levels(v, side).len(),
        0 <= t < side_levels(v, side)[j].orders.len(),
    ensures
        v.orders.contains_key(side_levels(v, side)[j].orders[t].0.0),
        v.orders[side_levels(v, side)[j].orders[t].0.0].side == side,
        v.orders[side_levels(v, side)[j].orders[t].0.0].price == side_levels(v, side)[j].price,
        v.orders[side_levels(v, side)[j].orders[t].0.0].id == side_levels(v, side)[j].orders[t].0,
        j == level_index(side_levels(v, side), side_levels(v, side)[j].price),
{
    let l = side_levels(v, side)[j];
    assert(level_ok(v, side, l));
    assert(entry_ok(v, side, l.price, l.orders[t]));
    lemma_level_index(side_levels(v, side), side, j);
}


/// The levels of side `t` after an insert.
proof fn lemma_insert_levels(v: BookView, o: Order, t: OrderSide)
    ensures
        t != o.side ==> side_levels(book_insert(v, o), t) == side_levels(v, t),
        t == o.side ==> side_levels(book_insert(v, o), t) == levels_with_entry(
            side_levels(v, t),
            t,
            o.price,
            (o.id, o.remaining_quantity),
        ),
        book_insert(v, o).orders == v.orders.insert(o.id.0, o),
        book_insert(v, o).market_id == v.market_id,
{
}

/// Every entry of a consistent book is keyed by an indexed order.
proof fn lemma_entries_indexed(v: BookView, t: OrderSide, j: int)
    requires
        book_view_wf(v),
        0 <= j < side_levels(v, t).len(),
    ensures
        forall|q: int| 0 <= q < side_levels(v, t)[j].orders.len() ==> v.orders.contains_key(
            (#[trigger] side_levels(v, t)[j].orders[q]).0.0,
        ),
{
    let l = side_levels(v, t)[j];
    assert(level_ok(v, t, l));
    assert forall|q: int| 0 <= q < l.orders.len() implies v.orders.contains_key((#[trigger] l.orders[q]).0.0) by {
        assert(entry_ok(v, t, l.price, l.orders[q]));
    }
}

/// Inserting an order that passes the checks keeps each side consistent.
proof fn lemma_insert_side(v: BookView, o: Order, t: OrderSide)
    requires
        book_view_wf(v),
        insert_error(v, o) is None,
    ensures
        side_ok(book_insert(v, o), t),
{
    let v2 = book_insert(v, o);
    let x = o.id.0;
    let e = (o.id, o.remaining_quantity);
    let l = side_levels(v, t);
    lemma_insert_levels(v, o, t);
    let l2 = side_levels(v2, t);
    assert(side_ok(v, t));
    assert forall|k: u128| #[trigger] v.orders.contains_key(k) && k != x implies v2.orders.contains_key(k) && v2.orders[k]
        == v.orders[k] by {}
    if t != o.side {
        assert forall|j: int| 0 <= j < l2.len() implies level_ok(v2, t, #[trigger] l2[j]) by {
            lemma_entries_indexed(v, t, j);
            lemma_level_ok_transfer(v, v2, t, l[j], x);
        }
    } else if has_level(l, o.price) {
        let k = level_index(l, o.price);
        assert(l2 == push_entry(l, k, e));
        assert(levels_sorted(l2, t)) by {
            assert forall|a: int, b: int| 0 <= a < b < l2.len() implies better(#[trigger] l2[a].price, #[trigger] l2[b].price, t) by {
                assert(l2[a].price == l[a].price && l2[b].price == l[b].price);
            }
        }
        assert forall|j: int| 0 <= j < l2.len() implies level_ok(v2, t, #[trigger] l2[j]) by {
            lemma_entries_indexed(v, t, j);
            if j != k {
                lemma_level_ok_transfer(v, v2, t, l[j], x);
            } else {
                let old_q = l[k].orders;
                let new_q = old_q.push(e);
                assert(level_ok(v, t, l[k]));
                lemma_qty_sum_push(old_q, e);
                assert(level_total(v, t, o.price) == qty_sum(old_q));
                assert(ids_distinct(new_q)) by {
                    assert forall|a: int, b: int| 0 <= a < b < new_q.len() implies (#[trigger] new_q[a]).0 != (
                    #[trigger] new_q[b]).0 by {
                        if b == new_q.len() - 1 {
                            assert(v.orders.contains_key(old_q[a].0.0));
                        } else {
                            assert(new_q[a] == old_q[a] && new_q[b] == old_q[b]);
                        }
                    }
                }
                assert forall|q: int| 0 <= q < new_q.len() implies entry_ok(v2, t, l2[j].price, #[trigger] new_q[q]) by {
                    if q < old_q.len() {
                        assert(new_q[q] == old_q[q]);
                        assert(entry_ok(v, t, l[k].price, old_q[q]));
                    }
                }
            }
        }
    } else {
        let i = lemma_split_point(l, o.price, t);
        lemma_insert_index(l, o.price, t, i);
        let nl = LevelView { price: o.price, orders: seq![e] };
        assert(l2 == l.insert(i, nl));
        lemma_insert_sorted(l, t, i, nl);
        assert forall|j: int| 0 <= j < l2.len() implies level_ok(v2, t, #[trigger] l2[j]) by {
            if j < i {
                assert(l2[j] == l[j]);
                lemma_entries_indexed(v, t, j);
                lemma_level_ok_transfer(v, v2, t, l[j], x);
            } else if j > i {
                assert(l2[j] == l[j - 1]);
                lemma_entries_indexed(v, t, j - 1);
                lemma_level_ok_transfer(v, v2, t, l[j - 1], x);
            } else {
                assert(l2[j] == nl);
                assert(qty_sum(seq![e]) == e.1.0) by {
                    lemma_qty_sum_push(Seq::<(OrderId, Quantity)>::empty(), e);
                    assert(Seq::<(OrderId, Quantity)>::empty().push(e) =~= seq![e]);
                }
                assert(entry_ok(v2, t, o.price, nl.orders[0]));
            }
        }
    }
}

/// Inserting an order that passes the checks keeps the book consistent.
pub proof fn lemma_insert_keeps_wf(v: BookView, o: Order)
    requires
        book_view_wf(v),
        insert_error(v, o) is None,
    ensures
        book_view_wf(book_insert(v, o)),
{
    let v2 = book_insert(v, o);
    let x = o.id.0;
    let e = (o.id, o.remaining_quantity);
    lemma_insert_side(v, o, OrderSide::Buy);
    lemma_insert_side(v, o, OrderSide::Sell);
    lemma_insert_levels(v, o, OrderSide::Buy);
    lemma_insert_levels(v, o, OrderSide::Sell);
    assert forall|k: u128| #[trigger] v2.orders.contains_key(k) implies {
        &&& v2.orders[k].id.0 == k
        &&& v2.orders[k].market_id == v2.market_id
        &&& located(v2, v2.orders[k])
    } by {
        let w = v2.orders[k];
        let t = w.side;
        let l = side_levels(v, t);
        let l2 = side_levels(v2, t);
        lemma_insert_levels(v, o, t);
        assert(side_ok(v2, t));
        if k == x {
            assert(w == o);
            if has_level(l, o.price) {
                let kk = level_index(l, o.price);
                assert(l2[kk].orders.last() == e);
                assert(l2[kk].price == o.price);
                lemma_found_at(l2, t, kk, o.id);
            } else {
                let i = lemma_split_point(l, o.price, t);
                lemma_insert_index(l, o.price, t, i);
                assert(l2[i].orders[0] == e);
                assert(l2[i].price == o.price);
                lemma_found_at(l2, t, i, o.id);
            }
        } else {
            assert(v.orders.contains_key(k));
            assert(w == v.orders[k]);
            assert(located(v, w));
            let jw = level_index(l, w.price);
            let qw = choose|q: int| 0 <= q < l[jw].orders.len() && l[jw].orders[q].0 == w.id;
            if t != o.side {
                assert(l2 == l);
            } else if has_level(l, o.price) {
                let kk = level_index(l, o.price);
                assert(l2[jw].price == w.price);
                assert(l2[jw].orders[qw].0 == w.id);
                lemma_found_at(l2, t, jw, w.id);
            } else {
                let i = lemma_split_point(l, o.price, t);
                lemma_insert_index(l, o.price, t, i);
                let jw2 = if jw < i { jw } else { jw + 1 };
                assert(l2[jw2] == l[jw]);
                assert(l2[jw2].orders[qw].0 == w.id);
                lemma_found_at(l2, t, jw2, w.id);
            }
        }
    }
}


/// The levels of side `t` after a removal.
proof fn lemma_remove_levels(v: BookView, id: OrderId, t: OrderSide)
    ensures
        t != v.orders[id.0].side ==> side_levels(book_remove(v, id), t) == side_levels(v, t),
        t == v.orders[id.0].side ==> side_levels(book_remove(v, id), t) == levels_without(
            side_levels(v, t),
            v.orders[id.0].price,
            id,
        ),
        book_remove(v, id).orders == v.orders.remove(id.0),
        book_remove(v, id).market_id == v.market_id,
{
}

/// In a consistent book the only entry keyed by an indexed id is the first
/// entry with that id in the level of its order's side and price.
pub proof fn lemma_unique_entry(v: BookView, id: OrderId, t: OrderSide, j: int, q: int)
    requires
        book_view_wf(v),
        v.orders.contains_key(id.0),
        0 <= j < side_levels(v, t).len(),
        0 <= q < side_levels(v, t)[j].orders.len(),
        side_levels(v, t)[j].orders[q].0.0 == id.0,
    ensures
        t == v.orders[id.0].side,
        j == level_index(side_levels(v, t), v.orders[id.0].price),
        side_levels(v, t)[j].orders[q].0 == id,
        has_id(side_levels(v, t)[j].orders, id),
        q == first_index(side_levels(v, t)[j].orders, id),
{
    let l = side_levels(v, t)[j];
    lemma_entry_home(v, t, j, q);
    assert(level_ok(v, t, l));
    assert forall|a: int| 0 <= a < q implies l.orders[a].0 != id by {
        assert(ids_distinct(l.orders));
    }
    lemma_first_index(l.orders, id, q);
}

/// Removing an entry from a queue without repeated ids keeps them distinct.
proof fn lemma_distinct_remove(s: Seq<(OrderId, Quantity)>, i: int)
    requires
        ids_distinct(s),
        0 <= i < s.len(),
    ensures
        ids_distinct(s.remove(i)),
        forall|a: int| 0 <= a < s.remove(i).len() ==> (#[trigger] s.remove(i)[a]).0 != s[i].0,
{
    let r = s.remove(i);
    assert forall|a: int, b: int| 0 <= a < b < r.len() implies (#[trigger] r[a]).0 != (#[trigger] r[b]).0 by {
        let a2 = if a < i { a } else { a + 1 };
        let b2 = if b < i { b } else { b + 1 };
        assert(r[a] == s[a2] && r[b] == s[b2]);
    }
    assert forall|a: int| 0 <= a < r.len() implies (#[trigger] r[a]).0 != s[i].0 by {
        let a2 = if a < i { a } else { a + 1 };
        assert(r[a] == s[a2]);
    }
}

/// Removing an indexed order keeps each side consistent.
proof fn lemma_remove_side(v: BookView, id: OrderId, t: OrderSide)
    requires
        book_view_wf(v),
        v.orders.contains_key(id.0),
    ensures
        side_ok(book_remove(v, id), t),
{
    let v2 = book_remove(v, id);
    let x = id.0;
    let o = v.orders[x];
    let l = side_levels(v, t);
    lemma_remove_levels(v, id, t);
    let l2 = side_levels(v2, t);
    assert(side_ok(v, t));
    assert forall|k: u128| #[trigger] v.orders.contains_key(k) && k != x implies v2.orders.contains_key(k) && v2.orders[k]
        == v.orders[k] by {}
    if t != o.side {
        assert forall|j: int| 0 <= j < l2.len() implies level_ok(v2, t, #[trigger] l2[j]) by {
            assert forall|q: int| 0 <= q < l[j].orders.len() implies (#[trigger] l[j].orders[q]).0.0 != x by {
                if l[j].orders[q].0.0 == x {
                    lemma_unique_entry(v, id, t, j, q);
                }
            }
            lemma_level_ok_transfer(v, v2, t, l[j], x);
        }
    } else {
        assert(located(v, o));
        let kk = level_index(l, o.price);
        let s0 = l[kk].orders;
        let fi = first_index(s0, id);
        lemma_first_index_exists(s0, id);
        let rest = remove_id(s0, id);
        assert(rest == s0.remove(fi));
        assert(level_ok(v, t, l[kk]));
        lemma_distinct_remove(s0, fi);
        lemma_qty_sum_at(s0, fi);
        lemma_qty_sum_nonneg(rest);
        assert(l2 == drop_entry(l, kk, id));
        // levels other than kk keep no entry keyed x
        assert forall|j: int, q: int| 0 <= j < l.len() && j != kk && 0 <= q < l[j].orders.len() implies (
        #[trigger] l[j].orders[q]).0.0 != x by {
            if l[j].orders[q].0.0 == x {
                lemma_unique_entry(v, id, t, j, q);
            }
        }
        let new_level = LevelView { price: l[kk].price, orders: rest };
        if rest.len() > 0 {
            assert(level_ok(v2, t, new_level)) by {
                assert forall|q: int| 0 <= q < rest.len() implies entry_ok(v2, t, new_level.price, #[trigger] rest[q]) by {
                    let q2 = if q < fi { q } else { q + 1 };
                    assert(rest[q] == s0[q2]);
                    assert(entry_ok(v, t, l[kk].price, s0[q2]));
                    assert(s0[fi].0 == id);
                }
            }
        }
        assert(levels_sorted(l2, t)) by {
            assert forall|a: int, b: int| 0 <= a < b < l2.len() implies better(#[trigger] l2[a].price, #[trigger] l2[b].price, t) by {
                if rest.len() == 0 {
                    let a2 = if a < kk { a } else { a + 1 };
                    let b2 = if b < kk { b } else { b + 1 };
                    assert(l2[a] == l[a2] && l2[b] == l[b2]);
                } else {
                    assert(l2[a].price == l[a].price && l2[b].price == l[b].price);
                }
            }
        }
        assert forall|j: int| 0 <= j < l2.len() implies level_ok(v2, t, #[trigger] l2[j]) by {
            if rest.len() == 0 {
                let j2 = if j < kk { j } else { j + 1 };
                assert(l2[j] == l[j2]);
                assert forall|q: int| 0 <= q < l[j2].orders.len() implies (#[trigger] l[j2].orders[q]).0.0 != x by {}
                lemma_level_ok_transfer(v, v2, t, l[j2], x);
            } else if j != kk {
                assert(l2[j] == l[j]);
                assert forall|q: int| 0 <= q < l[j].orders.len() implies (#[trigger] l[j].orders[q]).0.0 != x by {}
                lemma_level_ok_transfer(v, v2, t, l[j], x);
            } else {
                assert(l2[j] == new_level);
            }
        }
    }
}

/// Removing an indexed order keeps the book consistent.
pub proof fn lemma_remove_keeps_wf(v: BookView, id: OrderId)
    requires
        book_view_wf(v),
        v.orders.contains_key(id.0),
    ensures
        book_view_wf(book_remove(v, id)),
{
    let v2 = book_remove(v, id);
    let x = id.0;
    let o = v.orders[x];
    lemma_remove_side(v, id, OrderSide::Buy);
    lemma_remove_side(v, id, OrderSide::Sell);
    lemma_remove_levels(v, id, OrderSide::Buy);
    lemma_remove_levels(v, id, OrderSide::Sell);
    assert forall|k: u128| #[trigger] v2.orders.contains_key(k) implies {
        &&& v2.orders[k].id.0 == k
        &&& v2.orders[k].market_id == v2.market_id
        &&& located(v2, v2.orders[k])
    } by {
        let w = v2.orders[k];
        let t = w.side;
        let l = side_levels(v, t);
        let l2 = side_levels(v2, t);
        lemma_remove_levels(v, id, t);
        assert(side_ok(v2, t));
        assert(v.orders.contains_key(k) && k != x);
        assert(w == v.orders[k]);
        assert(located(v, w));
        let jw = level_index(l, w.price);
        let qw = choose|q: int| 0 <= q < l[jw].orders.len() && l[jw].orders[q].0 == w.id;
        if t != o.side {
            assert(l2 == l);
        } else {
            assert(located(v, o));
            let kk = level_index(l, o.price);
            let s0 = l[kk].orders;
            lemma_first_index_exists(s0, id);
            let fi = first_index(s0, id);
            let rest = s0.remove(fi);
            assert(remove_id(s0, id) == rest);
            if jw == kk {
                assert(qw != fi);
                let q2 = if qw < fi { qw } else { qw - 1 };
                assert(rest[q2] == s0[qw]);
                assert(l2[kk].orders[q2].0 == w.id);
                assert(l2[kk].price == w.price);
                lemma_found_at(l2, t, kk, w.id);
            } else {
                let j2 = if rest.len() == 0 && jw > kk { jw - 1 } else { jw };
                assert(l2[j2] == l[jw]);
                assert(l2[j2].orders[qw].0 == w.id);
                lemma_found_at(l2, t, j2, w.id);
            }
        }
    }
}


/// The levels of side `t` after a quantity update.
proof fn lemma_set_qty_levels(v: BookView, id: OrderId, q: Quantity, t: OrderSide)
    ensures
        t != v.orders[id.0].side ==> side_levels(book_set_qty(v, id, q), t) == side_levels(v, t),
        t == v.orders[id.0].side ==> side_levels(book_set_qty(v, id, q), t) == levels_with_qty(
            side_levels(v, t),
            v.orders[id.0].price,
            id,
            q,
        ),
        book_set_qty(v, id, q).market_id == v.market_id,
{
}

/// Updating the remaining quantity of an indexed order, when its level
/// does not overflow, keeps each side consistent.
proof fn lemma_set_qty_side(v: BookView, id: OrderId, q: Quantity, t: OrderSide)
    requires
        book_view_wf(v),
        v.orders.contains_key(id.0),
        !set_qty_overflows(v, id, q),
    ensures
        side_ok(book_set_qty(v, id, q), t),
{
    let v2 = book_set_qty(v, id, q);
    let x = id.0;
    let o = v.orders[x];
    let l = side_levels(v, t);
    lemma_set_qty_levels(v, id, q, t);
    let l2 = side_levels(v2, t);
    assert(side_ok(v, t));
    assert forall|k: u128| #[trigger] v.orders.contains_key(k) && k != x implies v2.orders.contains_key(k) && v2.orders[k]
        == v.orders[k] by {}
    if t != o.side {
        assert forall|j: int| 0 <= j < l2.len() implies level_ok(v2, t, #[trigger] l2[j]) by {
            assert forall|a: int| 0 <= a < l[j].orders.len() implies (#[trigger] l[j].orders[a]).0.0 != x by {
                if l[j].orders[a].0.0 == x {
                    lemma_unique_entry(v, id, t, j, a);
                }
            }
            lemma_level_ok_transfer(v, v2, t, l[j], x);
        }
    } else {
        assert(located(v, o));
        let kk = level_index(l, o.price);
        let s0 = l[kk].orders;
        lemma_first_index_exists(s0, id);
        let fi = first_index(s0, id);
        let s1 = s0.update(fi, (id, q));
        assert(set_qty(s0, id, q) == s1);
        assert(level_ok(v, t, l[kk]));
        assert(entry_ok(v, t, l[kk].price, s0[fi]));
        assert(s0[fi].1 == o.remaining_quantity);
        lemma_qty_sum_update(s0, fi, (id, q));
        assert(level_total(v, t, o.price) == qty_sum(s0));
        assert(l2 == set_entry_qty(l, kk, id, q));
        assert(levels_sorted(l2, t)) by {
            assert forall|a: int, b: int| 0 <= a < b < l2.len() implies better(#[trigger] l2[a].price, #[trigger] l2[b].price, t) by {
                assert(l2[a].price == l[a].price && l2[b].price == l[b].price);
            }
        }
        assert forall|j: int| 0 <= j < l2.len() implies level_ok(v2, t, #[trigger] l2[j]) by {
            if j != kk {
                assert(l2[j] == l[j]);
                assert forall|a: int| 0 <= a < l[j].orders.len() implies (#[trigger] l[j].orders[a]).0.0 != x by {
                    if l[j].orders[a].0.0 == x {
                        lemma_unique_entry(v, id, t, j, a);
                    }
                }
                lemma_level_ok_transfer(v, v2, t, l[j], x);
            } else {
                assert(ids_distinct(s1)) by {
                    assert forall|a: int, b: int| 0 <= a < b < s1.len() implies (#[trigger] s1[a]).0 != (#[trigger] s1[b]).0 by {
                        assert(s1[a].0 == s0[a].0 && s1[b].0 == s0[b].0);
                    }
                }
                assert forall|a: int| 0 <= a < s1.len() implies entry_ok(v2, t, l2[j].price, #[trigger] s1[a]) by {
                    if a != fi {
                        assert(s1[a] == s0[a]);
                        assert(entry_ok(v, t, l[kk].price, s0[a]));
                        if s0[a].0.0 == x {
                            lemma_unique_entry(v, id, t, kk, a);
                        }
                    }
                }
            }
        }
    }
}

/// Updating the remaining quantity of an indexed order, when its level
/// does not overflow, keeps the book consistent.
pub proof fn lemma_set_qty_keeps_wf(v: BookView, id: OrderId, q: Quantity)
    requires
        book_view_wf(v),
        v.orders.contains_key(id.0),
        !set_qty_overflows(v, id, q),
    ensures
        book_view_wf(book_set_qty(v, id, q)),
{
    let v2 = book_set_qty(v, id, q);
    let x = id.0;
    let o = v.orders[x];
    lemma_set_qty_side(v, id, q, OrderSide::Buy);
    lemma_set_qty_side(v, id, q, OrderSide::Sell);
    assert forall|k: u128| #[trigger] v2.orders.contains_key(k) implies {
        &&& v2.orders[k].id.0 == k
        &&& v2.orders[k].market_id == v2.market_id
        &&& located(v2, v2.orders[k])
    } by {
        let w0 = v.orders[k];
        let w = v2.orders[k];
        assert(v.orders.contains_key(k));
        assert(w.id == w0.id && w.side == w0.side && w.price == w0.price);
        let t = w.side;
        let l = side_levels(v, t);
        lemma_set_qty_levels(v, id, q, t);
        let l2 = side_levels(v2, t);
        assert(side_ok(v2, t));
        assert(located(v, w0));
        let jw = level_index(l, w.price);
        let qw = choose|a: int| 0 <= a < l[jw].orders.len() && l[jw].orders[a].0 == w.id;
        if t != o.side {
            assert(l2 == l);
        } else {
            assert(located(v, o));
            let kk = level_index(l, o.price);
            let s0 = l[kk].orders;
            lemma_first_index_exists(s0, id);
            let fi = first_index(s0, id);
            assert(set_qty(s0, id, q) == s0.update(fi, (id, q)));
            assert(l2[jw].price == w.price);
            assert(l2[jw].orders[qw].0 == w.id);
            lemma_found_at(l2, t, jw, w.id);
        }
    }
}

/// Marking an indexed order cancelled keeps the book consistent.
pub proof fn lemma_cancel_keeps_wf(v: BookView, id: OrderId)
    requires
        book_view_wf(v),
        v.orders.contains_key(id.0),
    ensures
        book_view_wf(book_cancel(v, id)),
{
    let v2 = book_cancel(v, id);
    assert forall|t: OrderSide| #![auto] side_levels(v2, t) == side_levels(v, t) by {}
    assert forall|k: u128| #[trigger] v.orders.contains_key(k) implies v2.orders.contains_key(k) && v2.orders[k].id
        == v.orders[k].id && v2.orders[k].side == v.orders[k].side && v2.orders[k].price == v.orders[k].price
        && v2.orders[k].remaining_quantity == v.orders[k].remaining_quantity && v2.orders[k].market_id
        == v.orders[k].market_id by {}
    assert(v2.orders.dom() =~= v.orders.dom());
    assert forall|t: OrderSide| #![auto] side_ok(v2, t) by {
        assert(side_ok(v, t));
        let l = side_levels(v, t);
        assert forall|j: int| 0 <= j < l.len() implies level_ok(v2, t, #[trigger] l[j]) by {
            assert(level_ok(v, t, l[j]));
            assert forall|a: int| 0 <= a < l[j].orders.len() implies entry_ok(v2, t, l[j].price, #[trigger] l[j].orders[a]) by {
                assert(entry_ok(v, t, l[j].price, l[j].orders[a]));
            }
        }
    }
    assert forall|k: u128| #[trigger] v2.orders.contains_key(k) implies {
        &&& v2.orders[k].id.0 == k
        &&& v2.orders[k].market_id == v2.market_id
        &&& located(v2, v2.orders[k])
    } by {
        assert(v.orders.contains_key(k));
        assert(located(v, v.orders[k]));
    }
}


/// Inserting an order and then removing it gives back the book it was
/// inserted into.
pub proof fn lemma_insert_then_remove(v: BookView, o: Order)
    requires
        book_view_wf(v),
        insert_error(v, o) is None,
    ensures
        book_remove(book_insert(v, o), o.id) == v,
{
    let v2 = book_insert(v, o);
    let t = o.side;
    let x = o.id.0;
    let e = (o.id, o.remaining_quantity);
    let l = side_levels(v, t);
    lemma_insert_keeps_wf(v, o);
    lemma_insert_levels(v, o, t);
    let l2 = side_levels(v2, t);
    assert(v2.orders[x] == o);
    assert(side_ok(v, t));
    let l3 = levels_without(l2, o.price, o.id);
    if has_level(l, o.price) {
        let k = level_index(l, o.price);
        let s0 = l[k].orders;
        assert(level_ok(v, t, l[k]));
        lemma_entries_indexed(v, t, k);
        assert(l2[k].price == o.price);
        lemma_level_index(l2, t, k);
        let s1 = s0.push(e);
        assert forall|j: int| 0 <= j < s0.len() implies s1[j].0 != o.id by {
            assert(s1[j] == s0[j]);
            assert(v.orders.contains_key(s0[j].0.0));
        }
        lemma_first_index(s1, o.id, s0.len() as int);
        assert(remove_id(s1, o.id) =~= s0);
        assert(l3 =~= l);
    } else {
        let i = lemma_split_point(l, o.price, t);
        lemma_insert_index(l, o.price, t, i);
        assert(l2[i].price == o.price);
        lemma_level_index(l2, t, i);
        lemma_first_index(seq![e], o.id, 0);
        assert(remove_id(seq![e], o.id).len() == 0);
        assert(l3 =~= l);
    }
    let v3 = book_remove(v2, o.id);
    assert(v3.orders =~= v.orders);
    assert(v3.bids =~= v.bids);
    assert(v3.asks =~= v.asks);
}

/// Removing an order keeps the book's market.
pub proof fn lemma_remove_market(v: BookView, id: OrderId)
    ensures
        book_remove(v, id).market_id == v.market_id,
{
}

/// Updating an order keeps the book's market.
pub proof fn lemma_set_qty_market(v: BookView, id: OrderId, q: Quantity)
    ensures
        book_set_qty(v, id, q).market_id == v.market_id,
{
}

/// Inserting an order keeps the book's market.
pub proof fn lemma_insert_market(v: BookView, o: Order)
    ensures
        book_insert(v, o).market_id == v.market_id,
{
}

impl OrderBook {
    /// Inserts a resting limit order at the back of the queue at its price.
    ///
    /// Fails, changing nothing, when the order belongs to another market, is
    /// a market order, is not active, is already in the book, or would
    /// overflow the total quantity of its price level (checked in that order).
    pub fn insert_order(&mut self, order: Order) -> (r: Result<()>)
        requires
            old(self).wf(),
        ensures
            final(self).wf(),
            match insert_error(old(self)@, order) {
                Some(e) => r == Err::<(), OrderBookError>(e) && final(self)@ == old(self)@,
                None => r == Ok::<(), OrderBookError>(()) && final(self)@ == book_insert(old(self)@, order),
            },
    {
        if order.market_id.0 != self.market_id().0 {
            return Err(OrderBookError::WrongMarket);
        }
        if order.is_market() {
            return Err(OrderBookError::MarketOrderCannotRest);
        }
        if !order.status.is_active() {
            return Err(OrderBookError::OrderNotActive);
        }
        if self.contains_order(order.id) {
            return Err(OrderBookError::OrderAlreadyExists);
        }
        let ghost v = self@;
        let side = order.side;
        let price = order.price;
        let quantity = order.remaining_quantity;
        match self.find_level(side, price) {
            Some(i) => {
                if !self.push_at_level(side, i, order.id, quantity) {
                    return Err(OrderBookError::PriceLevelFull);
                }
            },
            None => {
                let i = self.insertion_point(side, price);
                proof { lemma_insert_index(side_levels(v, side), price, side, i as int); }
                self.insert_level_at(side, i, price, order.id, quantity);
            },
        }
        self.put_order(order);
        proof {
            lemma_insert_keeps_wf(v, order);
            assert(self@ == book_insert(v, order));
        }
        Ok(())
    }

    /// Removes an order from its price level (dropping the level when it is
    /// left empty) and from the index, and returns it.
    pub fn remove_order(&mut self, order_id: OrderId) -> (r: Result<Order>)
        requires
            old(self).wf(),
        ensures
            final(self).wf(),
            if old(self)@.orders.contains_key(order_id.0) {
                r == Ok::<Order, OrderBookError>(old(self)@.orders[order_id.0]) && final(self)@ == book_remove(old(self)@, order_id)
            } else {
                r == Err::<Order, OrderBookError>(OrderBookError::OrderNotFound) && final(self)@ == old(self)@
            },
    {
        let order = match self.get_order(order_id) {
            Some(o) => *o,
            None => return Err(OrderBookError::OrderNotFound),
        };
        let ghost v = self@;
        proof { assert(located(v, order)); }
        let i = match self.find_level(order.side, order.price) {
            Some(i) => i,
            None => return Err(OrderBookError::OrderNotFound),
        };
        self.remove_at_level(order.side, i, order_id);
        let _ = self.take_order(order_id);
        proof {
            lemma_remove_keeps_wf(v, order_id);
            assert(self@ == book_remove(v, order_id));
        }
        Ok(order)
    }

    /// Removes every order and level, and returns the orders that were indexed
    /// (in no particular order).
    pub fn clear(&mut self) -> (r: Vec<Order>)
        requires
            old(self).wf(),
        ensures
            final(self).wf(),
            final(self)@ == (BookView {
                market_id: old(self)@.market_id,
                bids: Seq::empty(),
                asks: Seq::empty(),
                orders: Map::empty(),
            }),
            r@.len() == old(self)@.orders.dom().len(),
            r@.to_set() == old(self)@.orders.values(),
    {
        self.take_all()
    }

    /// Sets the remaining quantity of an order, keeping its place in the
    /// queue, and returns the previous remaining quantity. The order becomes
    /// filled at zero and partially filled below its original quantity.
    ///
    /// Fails, changing nothing, when the order is not in the book or its
    /// level total would overflow.
    pub fn update_order_quantity(&mut self, order_id: OrderId, new_quantity: Quantity) -> (r: Result<Quantity>)
        requires
            old(self).wf(),
        ensures
            final(self).wf(),
            if !old(self)@.orders.contains_key(order_id.0) {
                r == Err::<Quantity, OrderBookError>(OrderBookError::OrderNotFound) && final(self)@ == old(self)@
            } else if set_qty_overflows(old(self)@, order_id, new_quantity) {
                r == Err::<Quantity, OrderBookError>(OrderBookError::PriceLevelFull) && final(self)@ == old(self)@
            } else {
                r == Ok::<Quantity, OrderBookError>(old(self)@.orders[order_id.0].remaining_quantity) && final(self)@
                    == book_set_qty(old(self)@, order_id, new_quantity)
            },
    {
        let order = match self.get_order(order_id) {
            Some(o) => *o,
            None => return Err(OrderBookError::OrderNotFound),
        };
        let ghost v = self@;
        proof { assert(located(v, order)); }
        let i = match self.find_level(order.side, order.price) {
            Some(i) => i,
            None => return Err(OrderBookError::OrderNotFound),
        };
        proof {
            let l = side_levels(v, order.side);
            let s0 = l[i as int].orders;
            lemma_first_index_exists(s0, order_id);
            let fi = first_index(s0, order_id);
            assert(level_ok(v, order.side, l[i as int]));
            assert(entry_ok(v, order.side, l[i as int].price, s0[fi]));
        }
        match self.set_qty_at_level(order.side, i, order_id, new_quantity) {
            Some(_) => {},
            None => return Err(OrderBookError::PriceLevelFull),
        }
        let status = if new_quantity.0 == 0 {
            OrderStatus::Filled
        } else if new_quantity.0 < order.quantity.0 {
            OrderStatus::PartiallyFilled
        } else {
            order.status
        };
        self.put_order(Order { remaining_quantity: new_quantity, status, ..order });
        proof {
            lemma_set_qty_keeps_wf(v, order_id, new_quantity);
            assert(self@ == book_set_qty(v, order_id, new_quantity));
        }
        Ok(order.remaining_quantity)
    }

    /// Marks an order cancelled; it stays in the book until removed.
    pub fn cancel_order(&mut self, order_id: OrderId) -> (r: Result<()>)
        requires
            old(self).wf(),
        ensures
            final(self).wf(),
            if old(self)@.orders.contains_key(order_id.0) {
                r == Ok::<(), OrderBookError>(()) && final(self)@ == book_cancel(old(self)@, order_id)
            } else {
                r == Err::<(), OrderBookError>(OrderBookError::OrderNotFound) && final(self)@ == old(self)@
            },
    {
        let order = match self.get_order(order_id) {
            Some(o) => *o,
            None => return Err(OrderBookError::OrderNotFound),
        };
        let ghost v = self@;
        self.put_order(Order { status: OrderStatus::Cancelled, ..order });
        proof {
            lemma_cancel_keeps_wf(v, order_id);
            assert(self@ == book_cancel(v, order_id));
        }
        Ok(())
    }
}

/// The number of resting orders: one more after an insertion, one less
/// after a removal, the same after a cancellation or a quantity update.
pub proof fn lemma_order_counts(v: BookView, o: Order, id: OrderId, q: Quantity)
    requires
        book_view_wf(v),
    ensures
        insert_error(v, o) is None ==> book_insert(v, o).orders.len() == v.orders.len() + 1,
        v.orders.contains_key(id.0) ==> book_remove(v, id).orders.len() == v.orders.len() - 1,
        v.orders.contains_key(id.0) ==> book_cancel(v, id).orders.len() == v.orders.len(),
        v.orders.contains_key(id.0) ==> book_set_qty(v, id, q).orders.len() == v.orders.len(),
{
    if v.orders.contains_key(id.0) {
        assert(v.orders.insert(id.0, v.orders[id.0]).dom() =~= v.orders.dom());
        assert(book_cancel(v, id).orders.dom() =~= v.orders.dom());
        assert(book_set_qty(v, id, q).orders.dom() =~= v.orders.dom());
    }
}

} // verus!
