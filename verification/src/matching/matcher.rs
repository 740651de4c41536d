//! Matching an incoming (taker) order against the resting orders of the
//! opposite side, best price first and oldest first within a price.
use vstd::prelude::*;

use crate::matching::result::MatchFill;
use crate::orderbook::book::{saturating_level_total, side_levels, BookView, OrderBook};
use crate::orderbook::price_level::{qty_sum, LevelView};
use crate::types::ids::{Address, OrderId};
use crate::types::order::{Order, OrderSide, OrderType};
use crate::types::primitives::{Price, Quantity, Timestamp};
use crate::types::trade::opposite_side;

verus! {

/// Two addresses are the same account.
pub open spec fn same_owner(a: Address, b: Address) -> bool {
    a.0@ == b.0@
}

/// An order on `side` at limit `limit` crosses the best opposite price `best`.
pub open spec fn crosses(side: OrderSide, limit: Price, best: Price) -> bool {
    match side {
        OrderSide::Buy => limit.0 >= best.0,
        OrderSide::Sell => limit.0 <= best.0,
    }
}

/// Whether an order on `side` at `price` would trade with the best resting
/// order of the opposite side.
pub open spec fn would_cross_spec(v: BookView, side: OrderSide, price: Price) -> bool {
    let opp = side_levels(v, opposite_side(side));
    opp.len() > 0 && crosses(side, price, opp[0].price)
}

/// A level at price `p` is within the limit `limit` of an order on `side`.
pub open spec fn within_limit(side: OrderSide, limit: Price, p: Price) -> bool {
    match side {
        OrderSide::Buy => p.0 <= limit.0,
        OrderSide::Sell => p.0 >= limit.0,
    }
}

/// The sum of the totals of the leading levels within the limit, clamped to
/// the maximum quantity whenever it would overflow.
pub open spec fn clamped_total_within(levels: Seq<LevelView>, side: OrderSide, limit: Price) -> int
    decreases levels.len(),
{
    if levels.len() == 0 {
        0
    } else {
        let acc = clamped_total_within(levels.drop_last(), side, limit);
        if !leading_within(levels.drop_last(), side, limit) || !within_limit(side, limit, levels.last().price) {
            acc
        } else if acc + qty_sum(levels.last().orders) <= u128::MAX {
            acc + qty_sum(levels.last().orders)
        } else {
            u128::MAX as int
        }
    }
}

/// Every level is within the limit.
pub open spec fn leading_within(levels: Seq<LevelView>, side: OrderSide, limit: Price) -> bool {
    forall|i: int| 0 <= i < levels.len() ==> within_limit(side, limit, #[trigger] levels[i].price)
}

/// Returns `true` when an order on `side` at `price` would trade immediately
/// with the best order of the opposite side.
pub fn would_cross(book: &OrderBook, side: OrderSide, price: Price) -> (r: bool)
    ensures
        r == would_cross_spec(book@, side, price),
{
    match side {
        OrderSide::Buy => match book.best_ask_price() {
            Some(best) => price.0 >= best.0,
            None => false,
        },
        OrderSide::Sell => match book.best_bid_price() {
            Some(best) => price.0 <= best.0,
            None => false,
        },
    }
}

/// The quantity an order on `side` limited at `price` could take: the
/// totals of the opposite levels up to the first one beyond the limit,
/// clamped to the maximum quantity.
pub fn available_quantity(book: &OrderBook, side: OrderSide, price: Price) -> (r: Quantity)
    requires
        book.wf(),
    ensures
        r.0 == clamped_total_within(side_levels(book@, opposite_side(side)), side, price),
{
    let opp = match side {
        OrderSide::Buy => OrderSide::Sell,
        OrderSide::Sell => OrderSide::Buy,
    };
    let ghost levels = side_levels(book@, opp);
    let n = book.level_count(opp);
    let mut total = Quantity::zero();
    let mut i: usize = 0;
    let mut inside = true;
    while i < n && inside
        invariant
            0 <= i <= n,
            n == levels.len(),
            levels == side_levels(book@, opp),
            book.wf(),
            inside == leading_within(levels.take(i as int), side, price),
            total.0 == clamped_total_within(levels.take(i as int), side, price),
        decreases n - i,
    {
        let level = book.level_at(opp, i);
        let p = level.price();
        let ok = match side {
            OrderSide::Buy => p.0 <= price.0,
            OrderSide::Sell => p.0 >= price.0,
        };
        proof {
            assert(levels.take(i as int + 1).drop_last() =~= levels.take(i as int));
            assert(levels.take(i as int + 1).last() == levels[i as int]);
            if ok {
                assert forall|k: int| 0 <= k < i + 1 implies within_limit(side, price, #[trigger] levels.take(i as int + 1)[k].price) by {
                    if k < i {
                        assert(levels.take(i as int + 1)[k] == levels.take(i as int)[k]);
                    }
                }
            } else {
                assert(!within_limit(side, price, levels.take(i as int + 1)[i as int].price));
            }
        }
        if ok {
            total = match total.checked_add(level.total_quantity()) {
                Some(t) => t,
                None => Quantity::max_value(),
            };
        }
        inside = ok;
        i = i + 1;
    }
    proof {
        lemma_clamped_total_rest(levels, side, price, i as int);
    }
    total
}

/// After the first level beyond the limit, later levels add nothing.
proof fn lemma_clamped_total_rest(levels: Seq<LevelView>, side: OrderSide, limit: Price, i: int)
    requires
        0 <= i <= levels.len(),
        i < levels.len() ==> !leading_within(levels.take(i), side, limit),
    ensures
        clamped_total_within(levels, side, limit) == clamped_total_within(levels.take(i), side, limit),
    decreases levels.len() - i,
{
    if i == levels.len() {
        assert(levels.take(i) =~= levels);
    } else {
        lemma_clamped_total_rest(levels, side, limit, i + 1);
        let t = levels.take(i + 1);
        assert(t.drop_last() =~= levels.take(i));
        assert(!leading_within(t, side, limit)) by {
            let k = choose|k: int| 0 <= k < i && !within_limit(side, limit, #[trigger] levels.take(i)[k].price);
            assert(t[k] == levels.take(i)[k]);
        }
    }
}

/// The quantity a market order on `side` could take: the total of the
/// opposite side (a level that would overflow the running sum is skipped).
pub fn available_quantity_market(book: &OrderBook, side: OrderSide) -> (r: Quantity)
    requires
        book.wf(),
    ensures
        r.0 == saturating_level_total(side_levels(book@, opposite_side(side))),
{
    match side {
        OrderSide::Buy => book.total_ask_quantity(),
        OrderSide::Sell => book.total_bid_quantity(),
    }
}

/// The state of a match as it walks the book.
pub ghost struct MatchState {
    /// The fills so far, in execution order.
    pub fills: Seq<MatchFill>,
    /// The quantity still to fill.
    pub remaining: Quantity,
    /// Makers that were filled completely.
    pub consumed: Seq<OrderId>,
    /// Makers that were filled in part, with what they have left.
    pub partials: Seq<(OrderId, Quantity)>,
    /// Matching has stopped.
    pub stopped: bool,
}

/// The state before any level is visited.
pub open spec fn start_state(max_quantity: Quantity) -> MatchState {
    MatchState { fills: Seq::empty(), remaining: max_quantity, consumed: Seq::empty(), partials: Seq::empty(), stopped: false }
}

/// A taker may trade at a level price: any price for a market order,
/// otherwise a price within its limit.
pub open spec fn price_ok(taker: Order, p: Price) -> bool {
    taker.order_type == OrderType::Market || within_limit(taker.side, taker.price, p)
}

/// One queue entry met by the taker: skipped when nothing remains, when the
/// index lacks the order, or when the maker is the taker's owner; otherwise
/// filled for the smaller of the two quantities.
pub open spec fn entry_step(v: BookView, taker: Order, price: Price, ts: Timestamp, st: MatchState, e: (OrderId, Quantity)) -> MatchState {
    if st.remaining.0 == 0 || !v.orders.contains_key(e.0.0) || same_owner(v.orders[e.0.0].owner, taker.owner) {
        st
    } else {
        let q = if st.remaining.0 <= e.1.0 { st.remaining } else { e.1 };
        let fill = MatchFill {
            maker_order_id: e.0,
            taker_order_id: taker.id,
            maker: v.orders[e.0.0].owner,
            taker: taker.owner,
            price,
            quantity: q,
            taker_side: taker.side,
            timestamp: ts,
        };
        MatchState {
            fills: st.fills.push(fill),
            remaining: Quantity((st.remaining.0 - q.0) as u128),
            consumed: if q.0 >= e.1.0 { st.consumed.push(e.0) } else { st.consumed },
            partials: if q.0 >= e.1.0 { st.partials } else { st.partials.push((e.0, Quantity((e.1.0 - q.0) as u128))) },
            stopped: st.stopped,
        }
    }
}

/// The state after meeting the entries of a queue in order.
pub open spec fn fold_entries(v: BookView, taker: Order, price: Price, ts: Timestamp, st: MatchState, s: Seq<(OrderId, Quantity)>) -> MatchState
    decreases s.len(),
{
    if s.len() == 0 {
        st
    } else {
        entry_step(v, taker, price, ts, fold_entries(v, taker, price, ts, st, s.drop_last()), s.last())
    }
}

/// One level met by the taker: matching stops when nothing remains or the
/// level is beyond the taker's limit; otherwise its queue is met in order.
pub open spec fn level_step(v: BookView, taker: Order, ts: Timestamp, st: MatchState, l: LevelView) -> MatchState {
    if st.stopped {
        st
    } else if st.remaining.0 == 0 || !price_ok(taker, l.price) {
        MatchState { stopped: true, ..st }
    } else {
        fold_entries(v, taker, l.price, ts, st, l.orders)
    }
}

/// The state after meeting the levels in order.
pub open spec fn fold_levels(v: BookView, taker: Order, ts: Timestamp, st: MatchState, levels: Seq<LevelView>) -> MatchState
    decreases levels.len(),
{
    if levels.len() == 0 {
        st
    } else {
        level_step(v, taker, ts, fold_levels(v, taker, ts, st, levels.drop_last()), levels.last())
    }
}

/// The outcome of matching `taker` for at most `max_quantity` against the
/// opposite side of the book.
pub open spec fn match_spec(v: BookView, taker: Order, max_quantity: Quantity, ts: Timestamp) -> MatchState {
    fold_levels(v, taker, ts, start_state(max_quantity), side_levels(v, opposite_side(taker.side)))
}

/// Entries met with nothing left to fill change nothing.
proof fn lemma_fold_entries_done(v: BookView, taker: Order, price: Price, ts: Timestamp, st: MatchState, s: Seq<(OrderId, Quantity)>)
    requires
        st.remaining.0 == 0,
    ensures
        fold_entries(v, taker, price, ts, st, s) == st,
    decreases s.len(),
{
    if s.len() > 0 {
        lemma_fold_entries_done(v, taker, price, ts, st, s.drop_last());
    }
}

/// Levels met after matching stopped change nothing.
proof fn lemma_fold_levels_stopped(v: BookView, taker: Order, ts: Timestamp, st: MatchState, levels: Seq<LevelView>)
    requires
        st.stopped,
    ensures
        fold_levels(v, taker, ts, st, levels) == st,
    decreases levels.len(),
{
    if levels.len() > 0 {
        lemma_fold_levels_stopped(v, taker, ts, st, levels.drop_last());
    }
}

/// Folding over a prefix and then the rest is folding over the whole.
proof fn lemma_fold_entries_prefix(
    v: BookView,
    taker: Order,
    price: Price,
    ts: Timestamp,
    st: MatchState,
    s: Seq<(OrderId, Quantity)>,
    j: int,
)
    requires
        0 <= j <= s.len(),
        fold_entries(v, taker, price, ts, st, s.take(j)).remaining.0 == 0,
    ensures
        fold_entries(v, taker, price, ts, st, s) == fold_entries(v, taker, price, ts, st, s.take(j)),
    decreases s.len() - j,
{
    if j == s.len() {
        assert(s.take(j) =~= s);
    } else {
        assert(s.take(j + 1).drop_last() =~= s.take(j));
        lemma_fold_entries_prefix(v, taker, price, ts, st, s, j + 1);
    }
}

/// Folding over a prefix and then the rest is folding over the whole.
proof fn lemma_fold_levels_prefix(v: BookView, taker: Order, ts: Timestamp, st: MatchState, levels: Seq<LevelView>, i: int)
    requires
        0 <= i <= levels.len(),
        fold_levels(v, taker, ts, st, levels.take(i)).stopped,
    ensures
        fold_levels(v, taker, ts, st, levels) == fold_levels(v, taker, ts, st, levels.take(i)),
    decreases levels.len() - i,
{
    if i == levels.len() {
        assert(levels.take(i) =~= levels);
    } else {
        assert(levels.take(i + 1).drop_last() =~= levels.take(i));
        lemma_fold_levels_prefix(v, taker, ts, st, levels, i + 1);
    }
}

/// The outcome of matching a taker against a book.
#[derive(Debug)]
pub struct MatchResult {
    /// The fills, in execution order.
    pub fills: Vec<MatchFill>,
    /// The quantity left unfilled.
    pub remaining_quantity: Quantity,
    /// Makers filled completely, to be removed from the book.
    pub consumed_orders: Vec<OrderId>,
    /// Makers filled in part, with their new remaining quantity.
    pub partial_fills: Vec<(OrderId, Quantity)>,
}

/// The result agrees with a match state.
pub open spec fn result_is(r: MatchResult, st: MatchState) -> bool {
    &&& r.fills@ == st.fills
    &&& r.remaining_quantity == st.remaining
    &&& r.consumed_orders@ == st.consumed
    &&& r.partial_fills@ == st.partials
}

/// Matches `taker_order` for at most `max_quantity` against the opposite
/// side of the book, without changing the book. Levels are met best price
/// first, and orders within a level oldest first; every fill is at the
/// maker's level price; a maker owned by the taker's owner is skipped.
pub fn match_order(book: &OrderBook, taker_order: &Order, max_quantity: Quantity, timestamp: Timestamp) -> (r: MatchResult)
    requires
        book.wf(),
    ensures
        result_is(r, match_spec(book@, *taker_order, max_quantity, timestamp)),
{
    let ghost v = book@;
    let ghost taker = *taker_order;
    let opp = match taker_order.side {
        OrderSide::Buy => OrderSide::Sell,
        OrderSide::Sell => OrderSide::Buy,
    };
    let ghost levels = side_levels(v, opp);
    let is_market = taker_order.is_market();
    let mut fills: Vec<MatchFill> = Vec::new();
    let mut remaining = max_quantity;
    let mut consumed_orders: Vec<OrderId> = Vec::new();
    let mut partial_fills: Vec<(OrderId, Quantity)> = Vec::new();
    let mut stopped = false;
    let n = book.level_count(opp);
    let mut i: usize = 0;
    assert(levels.take(0) =~= Seq::<LevelView>::empty());
    while i < n && !stopped
        invariant
            0 <= i <= n,
            n == levels.len(),
            v == book@,
            taker == *taker_order,
            levels == side_levels(v, opposite_side(taker.side)),
            opp == opposite_side(taker.side),
            is_market == (taker.order_type == OrderType::Market),
            book.wf(),
            (MatchState { fills: fills@, remaining, consumed: consumed_orders@, partials: partial_fills@, stopped })
                == fold_levels(v, taker, timestamp, start_state(max_quantity), levels.take(i as int)),
        decreases n - i,
    {
        let level = book.level_at(opp, i);
        let level_price = level.price();
        let ghost before = MatchState { fills: fills@, remaining, consumed: consumed_orders@, partials: partial_fills@, stopped };
        proof {
            assert(levels.take(i as int + 1).drop_last() =~= levels.take(i as int));
            assert(levels.take(i as int + 1).last() == levels[i as int]);
        }
        let ok = is_market || match taker_order.side {
            OrderSide::Buy => level_price.0 <= taker_order.price.0,
            OrderSide::Sell => level_price.0 >= taker_order.price.0,
        };
        if remaining.0 == 0 || !ok {
            stopped = true;
        } else {
            let entries = level.order_vec();
            let m = entries.len();
            let mut j: usize = 0;
            assert(entries@.take(0) =~= Seq::<(OrderId, Quantity)>::empty());
            while j < m && remaining.0 > 0
                invariant
                    0 <= j <= m,
                    m == entries@.len(),
                    0 <= i < n,
                    n == levels.len(),
                    entries@ == levels[i as int].orders,
                    level_price == levels[i as int].price,
                    v == book@,
                    taker == *taker_order,
                    book.wf(),
                    !stopped,
                    (MatchState { fills: fills@, remaining, consumed: consumed_orders@, partials: partial_fills@, stopped })
                        == fold_entries(v, taker, level_price, timestamp, before, entries@.take(j as int)),
                decreases m - j,
            {
                let (maker_id, maker_quantity) = entries[j];
                proof {
                    assert(entries@.take(j as int + 1).drop_last() =~= entries@.take(j as int));
                    assert(entries@.take(j as int + 1).last() == entries@[j as int]);
                }
                match book.get_order(maker_id) {
                    None => {},
                    Some(maker) => {
                        if !(maker.owner == taker_order.owner) {
                            let fill_qty = remaining.min(maker_quantity);
                            fills.push(
                                MatchFill::new(
                                    maker_id,
                                    taker_order.id,
                                    maker.owner,
                                    taker_order.owner,
                                    level_price,
                                    fill_qty,
                                    taker_order.side,
                                    timestamp,
                                ),
                            );
                            remaining = Quantity(remaining.0 - fill_qty.0);
                            if fill_qty.0 >= maker_quantity.0 {
                                consumed_orders.push(maker_id);
                            } else {
                                partial_fills.push((maker_id, Quantity(maker_quantity.0 - fill_qty.0)));
                            }
                        }
                    },
                }
                j = j + 1;
            }
            proof {
                if j < m {
                    lemma_fold_entries_prefix(v, taker, level_price, timestamp, before, entries@, j as int);
                } else {
                    assert(entries@.take(m as int) =~= entries@);
                }
            }
        }
        i = i + 1;
    }
    proof {
        if i < n {
            lemma_fold_levels_prefix(v, taker, timestamp, start_state(max_quantity), levels, i as int);
        } else {
            assert(levels.take(n as int) =~= levels);
        }
    }
    MatchResult { fills, remaining_quantity: remaining, consumed_orders, partial_fills }
}


// ---------------------------------------------------------------------------
// What every match guarantees
// ---------------------------------------------------------------------------

/// The total quantity of fills.
pub open spec fn fill_total(fills: Seq<MatchFill>) -> int
    decreases fills.len(),
{
    if fills.len() == 0 {
        0
    } else {
        fill_total(fills.drop_last()) + fills.last().quantity.0
    }
}

/// Some entry before position `(i, j)` of the levels (earlier level, or the
/// same level and earlier in its queue) has id `id`.
pub open spec fn seen_before(levels: Seq<LevelView>, i: int, j: int, id: OrderId) -> bool {
    exists|a: int, b: int|
        #![trigger levels[a].orders[b]]
        0 <= a < levels.len() && 0 <= b < levels[a].orders.len() && (a < i || (a == i && b < j)) && levels[a].orders[b].0
            == id
}

/// The price `p` is the price of one of the first `i + 1` levels.
pub open spec fn level_price_upto(levels: Seq<LevelView>, i: int, p: Price) -> bool {
    exists|a: int| 0 <= a <= i && a < levels.len() && #[trigger] levels[a].price == p
}

/// No order id occurs twice.
pub open spec fn ids_unique(s: Seq<OrderId>) -> bool {
    forall|x: int, y: int| 0 <= x < y < s.len() ==> s[x] != s[y]
}

/// The maker ids of fills.
pub open spec fn fill_makers(fills: Seq<MatchFill>) -> Seq<OrderId> {
    fills.map_values(|f: MatchFill| f.maker_order_id)
}

/// The ids of partially filled makers.
pub open spec fn partial_ids(partials: Seq<(OrderId, Quantity)>) -> Seq<OrderId> {
    partials.map_values(|p: (OrderId, Quantity)| p.0)
}

/// A fill of `taker` that the book allows: right taker fields, a maker of
/// another owner that rests in the book, and a price within the taker's limit.
pub open spec fn fill_ok(v: BookView, taker: Order, ts: Timestamp, f: MatchFill) -> bool {
    &&& f.taker_order_id == taker.id
    &&& f.taker == taker.owner
    &&& f.taker_side == taker.side
    &&& f.timestamp == ts
    &&& !same_owner(f.maker, f.taker)
    &&& price_ok(taker, f.price)
    &&& v.orders.contains_key(f.maker_order_id.0)
    &&& v.orders[f.maker_order_id.0].id == f.maker_order_id
    &&& f.maker == v.orders[f.maker_order_id.0].owner
    &&& f.quantity.0 <= v.orders[f.maker_order_id.0].remaining_quantity.0
}

/// Completely filled makers can be removed and partially filled ones
/// updated: all rest in the book, no id occurs twice or in both lists, and
/// a partial fill leaves the maker less than it had.
pub open spec fn removals_ok(v: BookView, consumed: Seq<OrderId>, partials: Seq<(OrderId, Quantity)>) -> bool {
    &&& ids_unique(consumed)
    &&& ids_unique(partial_ids(partials))
    &&& forall|x: int, y: int| 0 <= x < consumed.len() && 0 <= y < partials.len() ==> #[trigger] consumed[x] != (#[trigger] partials[y]).0
    &&& forall|x: int| 0 <= x < consumed.len() ==> v.orders.contains_key((#[trigger] consumed[x]).0) && v.orders[consumed[x].0].id == consumed[x]
    &&& forall|y: int|
        0 <= y < partials.len() ==> v.orders.contains_key((#[trigger] partials[y]).0.0) && v.orders[partials[y].0.0].id
            == partials[y].0 && partials[y].1.0 < v.orders[partials[y].0.0].remaining_quantity.0
}

/// Where a resting order stands on its side: the position of its level
/// (best first) and its place in that level's queue (oldest first).
pub open spec fn maker_position(v: BookView, side: OrderSide, id: OrderId) -> (int, int) {
    let a = crate::orderbook::book::level_index(side_levels(v, side), v.orders[id.0].price);
    (a, crate::orderbook::price_level::first_index(side_levels(v, side)[a].orders, id))
}

/// Position `p` comes before position `q`: an earlier level, or the same
/// level and earlier in its queue.
pub open spec fn before_position(p: (int, int), q: (int, int)) -> bool {
    p.0 < q.0 || (p.0 == q.0 && p.1 < q.1)
}

/// What holds of a match state at position `(i, j)` of the opposite levels.
pub open spec fn walk_inv(
    v: BookView,
    taker: Order,
    ts: Timestamp,
    max_quantity: Quantity,
    levels: Seq<LevelView>,
    i: int,
    j: int,
    st: MatchState,
) -> bool {
    &&& st.remaining.0 + fill_total(st.fills) == max_quantity.0
    &&& forall|x: int| 0 <= x < st.fills.len() ==> fill_ok(v, taker, ts, #[trigger] st.fills[x])
    &&& forall|x: int| 0 <= x < st.fills.len() ==> seen_before(levels, i, j, (#[trigger] st.fills[x]).maker_order_id)
    &&& forall|x: int| 0 <= x < st.fills.len() ==> level_price_upto(levels, i, (#[trigger] st.fills[x]).price)
    &&& ids_unique(fill_makers(st.fills))
    &&& forall|x: int, y: int|
        0 <= x < y < st.fills.len() ==> (#[trigger] st.fills[x]).price == (#[trigger] st.fills[y]).price || crate::orderbook::book::better(
            st.fills[x].price,
            st.fills[y].price,
            opposite_side(taker.side),
        )
    &&& forall|x: int, y: int|
        0 <= x < y < st.fills.len() ==> before_position(
            maker_position(v, opposite_side(taker.side), (#[trigger] st.fills[x]).maker_order_id),
            maker_position(v, opposite_side(taker.side), (#[trigger] st.fills[y]).maker_order_id),
        )
    &&& forall|x: int| 0 <= x < st.consumed.len() ==> seen_before(levels, i, j, #[trigger] st.consumed[x])
    &&& forall|y: int| 0 <= y < st.partials.len() ==> seen_before(levels, i, j, (#[trigger] st.partials[y]).0)
    &&& removals_ok(v, st.consumed, st.partials)
}

/// The fill total grows by the quantity of an appended fill.
proof fn lemma_fill_total_push(fills: Seq<MatchFill>, f: MatchFill)
    ensures
        fill_total(fills.push(f)) == fill_total(fills) + f.quantity.0,
{
    assert(fills.push(f).drop_last() =~= fills);
}

/// A fill total is never negative.
proof fn lemma_fill_total_nonneg(fills: Seq<MatchFill>)
    ensures
        fill_total(fills) >= 0,
    decreases fills.len(),
{
    if fills.len() > 0 {
        lemma_fill_total_nonneg(fills.drop_last());
    }
}

/// The entry at a position of a consistent book's side was not met before it.
proof fn lemma_not_seen(v: BookView, side: OrderSide, i: int, j: int)
    requires
        crate::orderbook::book::book_view_wf(v),
        0 <= i < side_levels(v, side).len(),
        0 <= j < side_levels(v, side)[i].orders.len(),
    ensures
        !seen_before(side_levels(v, side), i, j, side_levels(v, side)[i].orders[j].0),
        v.orders.contains_key(side_levels(v, side)[i].orders[j].0.0),
        v.orders[side_levels(v, side)[i].orders[j].0.0].id == side_levels(v, side)[i].orders[j].0,
        v.orders[side_levels(v, side)[i].orders[j].0.0].remaining_quantity == side_levels(v, side)[i].orders[j].1,
{
    let levels = side_levels(v, side);
    let e = levels[i].orders[j];
    assert(crate::orderbook::book::side_ok(v, side));
    assert(crate::orderbook::book::level_ok(v, side, levels[i]));
    assert(crate::orderbook::book::entry_ok(v, side, levels[i].price, e));
    crate::orderbook::ops::lemma_unique_entry(v, e.0, side, i, j);
    if seen_before(levels, i, j, e.0) {
        let (a, b) = choose|a: int, b: int|
            #![trigger levels[a].orders[b]]
            0 <= a < levels.len() && 0 <= b < levels[a].orders.len() && (a < i || (a == i && b < j)) && levels[a].orders[b].0
                == e.0;
        crate::orderbook::ops::lemma_unique_entry(v, e.0, side, a, b);
    }
}

/// Meeting one entry keeps the walk invariant, one position further.
proof fn lemma_entry_step_inv(
    v: BookView,
    taker: Order,
    ts: Timestamp,
    max_quantity: Quantity,
    i: int,
    j: int,
    st: MatchState,
)
    requires
        crate::orderbook::book::book_view_wf(v),
        0 <= i < side_levels(v, opposite_side(taker.side)).len(),
        0 <= j < side_levels(v, opposite_side(taker.side))[i].orders.len(),
        price_ok(taker, side_levels(v, opposite_side(taker.side))[i].price),
        walk_inv(v, taker, ts, max_quantity, side_levels(v, opposite_side(taker.side)), i, j, st),
    ensures
        walk_inv(
            v,
            taker,
            ts,
            max_quantity,
            side_levels(v, opposite_side(taker.side)),
            i,
            j + 1,
            entry_step(
                v,
                taker,
                side_levels(v, opposite_side(taker.side))[i].price,
                ts,
                st,
                side_levels(v, opposite_side(taker.side))[i].orders[j],
            ),
        ),
{
    let side = opposite_side(taker.side);
    let levels = side_levels(v, side);
    let e = levels[i].orders[j];
    let p = levels[i].price;
    let st2 = entry_step(v, taker, p, ts, st, e);
    lemma_not_seen(v, side, i, j);
    assert forall|id: OrderId| seen_before(levels, i, j, id) implies seen_before(levels, i, j + 1, id) by {
        let (a, b) = choose|a: int, b: int|
            #![trigger levels[a].orders[b]]
            0 <= a < levels.len() && 0 <= b < levels[a].orders.len() && (a < i || (a == i && b < j)) && levels[a].orders[b].0
                == id;
        assert(levels[a].orders[b].0 == id);
    }
    assert(seen_before(levels, i, j + 1, e.0)) by {
        assert(levels[i].orders[j].0 == e.0);
    }
    assert(level_price_upto(levels, i, p)) by {
        assert(levels[i].price == p);
    }
    if st.remaining.0 == 0 || !v.orders.contains_key(e.0.0) || same_owner(v.orders[e.0.0].owner, taker.owner) {
        assert(st2 == st);
    } else {
        let q = if st.remaining.0 <= e.1.0 { st.remaining } else { e.1 };
        let f = st2.fills.last();
        assert(st2.fills == st.fills.push(f));
        lemma_fill_total_push(st.fills, f);
        assert(fill_ok(v, taker, ts, f));
        assert forall|x: int| 0 <= x < st2.fills.len() implies fill_ok(v, taker, ts, #[trigger] st2.fills[x]) by {
            if x < st.fills.len() {
                assert(st2.fills[x] == st.fills[x]);
            }
        }
        assert forall|x: int| 0 <= x < st2.fills.len() implies seen_before(levels, i, j + 1, (#[trigger] st2.fills[x]).maker_order_id) by {
            if x < st.fills.len() {
                assert(st2.fills[x] == st.fills[x]);
            }
        }
        assert forall|x: int| 0 <= x < st2.fills.len() implies level_price_upto(levels, i, (#[trigger] st2.fills[x]).price) by {
            if x < st.fills.len() {
                assert(st2.fills[x] == st.fills[x]);
            }
        }
        assert(ids_unique(fill_makers(st2.fills))) by {
            assert forall|x: int, y: int| 0 <= x < y < fill_makers(st2.fills).len() implies fill_makers(st2.fills)[x]
                != fill_makers(st2.fills)[y] by {
                if y == st.fills.len() {
                    assert(fill_makers(st2.fills)[x] == st.fills[x].maker_order_id);
                    assert(seen_before(levels, i, j, st.fills[x].maker_order_id));
                } else {
                    assert(fill_makers(st2.fills)[x] == fill_makers(st.fills)[x]);
                    assert(fill_makers(st2.fills)[y] == fill_makers(st.fills)[y]);
                }
            }
        }
        assert forall|x: int, y: int| 0 <= x < y < st2.fills.len() implies (#[trigger] st2.fills[x]).price == (
        #[trigger] st2.fills[y]).price || crate::orderbook::book::better(st2.fills[x].price, st2.fills[y].price, side) by {
            assert(st2.fills[x] == st.fills[x]);
            if y == st.fills.len() {
                let a = choose|a: int| 0 <= a <= i && a < levels.len() && #[trigger] levels[a].price == st.fills[x].price;
                assert(crate::orderbook::book::side_ok(v, side));
                if a < i {
                    assert(crate::orderbook::book::better(levels[a].price, levels[i].price, side));
                }
            } else {
                assert(st2.fills[y] == st.fills[y]);
            }
        }
        assert forall|x: int, y: int| 0 <= x < y < st2.fills.len() implies before_position(
            maker_position(v, side, (#[trigger] st2.fills[x]).maker_order_id),
            maker_position(v, side, (#[trigger] st2.fills[y]).maker_order_id),
        ) by {
            assert(st2.fills[x] == st.fills[x]);
            if y == st.fills.len() {
                crate::orderbook::ops::lemma_unique_entry(v, e.0, side, i, j);
                let id = st.fills[x].maker_order_id;
                assert(seen_before(levels, i, j, id));
                let (a, b) = choose|a: int, b: int|
                    #![trigger levels[a].orders[b]]
                    0 <= a < levels.len() && 0 <= b < levels[a].orders.len() && (a < i || (a == i && b < j))
                        && levels[a].orders[b].0 == id;
                crate::orderbook::ops::lemma_unique_entry(v, id, side, a, b);
            } else {
                assert(st2.fills[y] == st.fills[y]);
            }
        }
        assert forall|x: int| 0 <= x < st2.consumed.len() implies seen_before(levels, i, j + 1, #[trigger] st2.consumed[x]) by {
            if x < st.consumed.len() {
                assert(st2.consumed[x] == st.consumed[x]);
            }
        }
        assert forall|y: int| 0 <= y < st2.partials.len() implies seen_before(levels, i, j + 1, (#[trigger] st2.partials[y]).0) by {
            if y < st.partials.len() {
                assert(st2.partials[y] == st.partials[y]);
            }
        }
        assert(removals_ok(v, st2.consumed, st2.partials)) by {
            if q.0 >= e.1.0 {
                assert(st2.partials == st.partials);
                assert forall|x: int, y: int| 0 <= x < y < st2.consumed.len() implies st2.consumed[x] != st2.consumed[y] by {
                    if y == st.consumed.len() {
                        assert(st2.consumed[x] == st.consumed[x]);
                        assert(seen_before(levels, i, j, st.consumed[x]));
                    } else {
                        assert(st2.consumed[x] == st.consumed[x] && st2.consumed[y] == st.consumed[y]);
                    }
                }
                assert forall|x: int, y: int| 0 <= x < st2.consumed.len() && 0 <= y < st2.partials.len() implies #[trigger] st2.consumed[x]
                    != (#[trigger] st2.partials[y]).0 by {
                    if x == st.consumed.len() {
                        assert(seen_before(levels, i, j, st.partials[y].0));
                    } else {
                        assert(st2.consumed[x] == st.consumed[x]);
                    }
                }
                assert forall|x: int| 0 <= x < st2.consumed.len() implies v.orders.contains_key((#[trigger] st2.consumed[x]).0)
                    && v.orders[st2.consumed[x].0].id == st2.consumed[x] by {
                    if x < st.consumed.len() {
                        assert(st2.consumed[x] == st.consumed[x]);
                    }
                }
            } else {
                assert(st2.consumed == st.consumed);
                let pid = partial_ids(st2.partials);
                assert forall|x: int, y: int| 0 <= x < y < pid.len() implies pid[x] != pid[y] by {
                    if y == st.partials.len() {
                        assert(pid[x] == st.partials[x].0);
                        assert(seen_before(levels, i, j, st.partials[x].0));
                    } else {
                        assert(pid[x] == partial_ids(st.partials)[x] && pid[y] == partial_ids(st.partials)[y]);
                    }
                }
                assert forall|x: int, y: int| 0 <= x < st2.consumed.len() && 0 <= y < st2.partials.len() implies #[trigger] st2.consumed[x]
                    != (#[trigger] st2.partials[y]).0 by {
                    if y == st.partials.len() {
                        assert(seen_before(levels, i, j, st.consumed[x]));
                    } else {
                        assert(st2.partials[y] == st.partials[y]);
                    }
                }
                assert forall|y: int| 0 <= y < st2.partials.len() implies v.orders.contains_key((#[trigger] st2.partials[y]).0.0)
                    && v.orders[st2.partials[y].0.0].id == st2.partials[y].0 && st2.partials[y].1.0
                    < v.orders[st2.partials[y].0.0].remaining_quantity.0 by {
                    if y < st.partials.len() {
                        assert(st2.partials[y] == st.partials[y]);
                    }
                }
            }
        }
    }
}


/// Meeting the first `k` entries of level `i` keeps the walk invariant.
proof fn lemma_fold_entries_inv(
    v: BookView,
    taker: Order,
    ts: Timestamp,
    max_quantity: Quantity,
    i: int,
    st: MatchState,
    k: int,
)
    requires
        crate::orderbook::book::book_view_wf(v),
        0 <= i < side_levels(v, opposite_side(taker.side)).len(),
        0 <= k <= side_levels(v, opposite_side(taker.side))[i].orders.len(),
        price_ok(taker, side_levels(v, opposite_side(taker.side))[i].price),
        walk_inv(v, taker, ts, max_quantity, side_levels(v, opposite_side(taker.side)), i, 0, st),
    ensures
        walk_inv(
            v,
            taker,
            ts,
            max_quantity,
            side_levels(v, opposite_side(taker.side)),
            i,
            k,
            fold_entries(
                v,
                taker,
                side_levels(v, opposite_side(taker.side))[i].price,
                ts,
                st,
                side_levels(v, opposite_side(taker.side))[i].orders.take(k),
            ),
        ),
    decreases k,
{
    let levels = side_levels(v, opposite_side(taker.side));
    let s = levels[i].orders;
    if k == 0 {
        assert(s.take(0) =~= Seq::<(OrderId, Quantity)>::empty());
    } else {
        lemma_fold_entries_inv(v, taker, ts, max_quantity, i, st, k - 1);
        assert(s.take(k).drop_last() =~= s.take(k - 1));
        assert(s.take(k).last() == s[k - 1]);
        lemma_entry_step_inv(v, taker, ts, max_quantity, i, k - 1, fold_entries(v, taker, levels[i].price, ts, st, s.take(k - 1)));
    }
}

/// Moving past level `i` keeps the walk invariant.
proof fn lemma_advance_level(
    v: BookView,
    taker: Order,
    ts: Timestamp,
    max_quantity: Quantity,
    levels: Seq<LevelView>,
    i: int,
    j: int,
    st: MatchState,
)
    requires
        walk_inv(v, taker, ts, max_quantity, levels, i, j, st),
    ensures
        walk_inv(v, taker, ts, max_quantity, levels, i + 1, 0, st),
{
    assert forall|id: OrderId| seen_before(levels, i, j, id) implies seen_before(levels, i + 1, 0, id) by {
        let (a, b) = choose|a: int, b: int|
            #![trigger levels[a].orders[b]]
            0 <= a < levels.len() && 0 <= b < levels[a].orders.len() && (a < i || (a == i && b < j)) && levels[a].orders[b].0
                == id;
        assert(levels[a].orders[b].0 == id);
    }
    assert forall|p: Price| level_price_upto(levels, i, p) implies level_price_upto(levels, i + 1, p) by {
        let a = choose|a: int| 0 <= a <= i && a < levels.len() && #[trigger] levels[a].price == p;
        assert(levels[a].price == p);
    }
}

/// Meeting the first `k` levels keeps the walk invariant.
proof fn lemma_fold_levels_inv(v: BookView, taker: Order, ts: Timestamp, max_quantity: Quantity, k: int)
    requires
        crate::orderbook::book::book_view_wf(v),
        0 <= k <= side_levels(v, opposite_side(taker.side)).len(),
    ensures
        walk_inv(
            v,
            taker,
            ts,
            max_quantity,
            side_levels(v, opposite_side(taker.side)),
            k,
            0,
            fold_levels(v, taker, ts, start_state(max_quantity), side_levels(v, opposite_side(taker.side)).take(k)),
        ),
    decreases k,
{
    let levels = side_levels(v, opposite_side(taker.side));
    if k == 0 {
        assert(levels.take(0) =~= Seq::<LevelView>::empty());
        assert(fill_makers(Seq::<MatchFill>::empty()) =~= Seq::<OrderId>::empty());
        assert(partial_ids(Seq::<(OrderId, Quantity)>::empty()) =~= Seq::<OrderId>::empty());
    } else {
        lemma_fold_levels_inv(v, taker, ts, max_quantity, k - 1);
        let st = fold_levels(v, taker, ts, start_state(max_quantity), levels.take(k - 1));
        assert(levels.take(k).drop_last() =~= levels.take(k - 1));
        assert(levels.take(k).last() == levels[k - 1]);
        let l = levels[k - 1];
        if st.stopped || st.remaining.0 == 0 || !price_ok(taker, l.price) {
            lemma_advance_level(v, taker, ts, max_quantity, levels, k - 1, 0, st);
        } else {
            lemma_fold_entries_inv(v, taker, ts, max_quantity, k - 1, st, l.orders.len() as int);
            assert(l.orders.take(l.orders.len() as int) =~= l.orders);
            lemma_advance_level(
                v,
                taker,
                ts,
                max_quantity,
                levels,
                k - 1,
                l.orders.len() as int,
                fold_entries(v, taker, l.price, ts, st, l.orders),
            );
        }
    }
}

/// What every match against a consistent book guarantees:
/// - the filled quantity plus the remaining quantity is the quantity asked for;
/// - every fill is the taker's, at the price of a level of the opposite side
///   that is within the taker's limit (any level for a market order), with a
///   maker of another owner that rests in the book, for no more than the
///   maker has left (no self-trade);
/// - no maker is filled twice;
/// - fill prices never get better for the taker as matching proceeds
///   (best price first), and makers are filled in book order: a maker at a
///   better level, or earlier in the same level's queue, is filled first
///   (price-time priority);
/// - the completely and partially filled makers can be removed and updated.
pub proof fn lemma_match_guarantees(v: BookView, taker: Order, max_quantity: Quantity, ts: Timestamp)
    requires
        crate::orderbook::book::book_view_wf(v),
    ensures
        ({
            let st = match_spec(v, taker, max_quantity, ts);
            let levels = side_levels(v, opposite_side(taker.side));
            &&& st.remaining.0 + fill_total(st.fills) == max_quantity.0
            &&& st.remaining.0 <= max_quantity.0
            &&& forall|x: int| 0 <= x < st.fills.len() ==> fill_ok(v, taker, ts, #[trigger] st.fills[x])
            &&& forall|x: int|
                0 <= x < st.fills.len() ==> exists|a: int| 0 <= a < levels.len() && #[trigger] levels[a].price == (
                #[trigger] st.fills[x]).price
            &&& ids_unique(fill_makers(st.fills))
            &&& forall|x: int, y: int|
                0 <= x < y < st.fills.len() ==> (#[trigger] st.fills[x]).price == (#[trigger] st.fills[y]).price
                    || crate::orderbook::book::better(st.fills[x].price, st.fills[y].price, opposite_side(taker.side))
            &&& forall|x: int, y: int|
                0 <= x < y < st.fills.len() ==> before_position(
                    maker_position(v, opposite_side(taker.side), (#[trigger] st.fills[x]).maker_order_id),
                    maker_position(v, opposite_side(taker.side), (#[trigger] st.fills[y]).maker_order_id),
                )
            &&& removals_ok(v, st.consumed, st.partials)
        }),
{
    let levels = side_levels(v, opposite_side(taker.side));
    lemma_fold_levels_inv(v, taker, ts, max_quantity, levels.len() as int);
    assert(levels.take(levels.len() as int) =~= levels);
    let st = match_spec(v, taker, max_quantity, ts);
    lemma_fill_total_nonneg(st.fills);
    assert forall|x: int| 0 <= x < st.fills.len() implies exists|a: int| 0 <= a < levels.len() && #[trigger] levels[a].price
        == (#[trigger] st.fills[x]).price by {
        assert(level_price_upto(levels, levels.len() as int, st.fills[x].price));
    }
}

/// A queue entry that a taker with quantity left trades with: an indexed
/// order of another owner.
pub open spec fn eligible(v: BookView, taker: Order, e: (OrderId, Quantity)) -> bool {
    &&& v.orders.contains_key(e.0.0)
    &&& !same_owner(v.orders[e.0.0].owner, taker.owner)
}

/// Meeting a queue never raises the quantity left and keeps every completely
/// filled maker; if quantity is still left afterwards, every eligible entry
/// of the queue was filled completely.
proof fn lemma_fold_entries_exhausts(
    v: BookView,
    taker: Order,
    price: Price,
    ts: Timestamp,
    st: MatchState,
    s: Seq<(OrderId, Quantity)>,
)
    ensures
        ({
            let r = fold_entries(v, taker, price, ts, st, s);
            &&& r.remaining.0 <= st.remaining.0
            &&& r.stopped == st.stopped
            &&& forall|id: OrderId| st.consumed.contains(id) ==> #[trigger] r.consumed.contains(id)
            &&& r.remaining.0 > 0 ==> r.partials == st.partials
            &&& r.remaining.0 > 0 ==> forall|b: int|
                0 <= b < s.len() && eligible(v, taker, #[trigger] s[b]) ==> r.consumed.contains(s[b].0)
        }),
    decreases s.len(),
{
    if s.len() > 0 {
        let pre = s.drop_last();
        lemma_fold_entries_exhausts(v, taker, price, ts, st, pre);
        let mid = fold_entries(v, taker, price, ts, st, pre);
        let e = s.last();
        let r = fold_entries(v, taker, price, ts, st, s);
        assert(r == entry_step(v, taker, price, ts, mid, e));
        let skipped = mid.remaining.0 == 0 || !v.orders.contains_key(e.0.0) || same_owner(
            v.orders[e.0.0].owner,
            taker.owner,
        );
        assert forall|id: OrderId| mid.consumed.contains(id) implies r.consumed.contains(id) by {
            let k = choose|k: int| 0 <= k < mid.consumed.len() && mid.consumed[k] == id;
            if !skipped {
                let q = if mid.remaining.0 <= e.1.0 { mid.remaining } else { e.1 };
                if q.0 >= e.1.0 {
                    assert(r.consumed[k] == id);
                }
            }
        }
        if r.remaining.0 > 0 {
            assert forall|b: int| 0 <= b < s.len() && eligible(v, taker, #[trigger] s[b]) implies r.consumed.contains(
                s[b].0,
            ) by {
                if b < s.len() - 1 {
                    assert(pre[b] == s[b]);
                    assert(mid.consumed.contains(s[b].0));
                } else {
                    assert(!skipped);
                    assert(!(mid.remaining.0 <= e.1.0));
                    assert(r.consumed[mid.consumed.len() as int] == e.0);
                }
            }
        }
    }
}

/// Meeting levels never raises the quantity left and keeps every completely
/// filled maker; matching stops only when nothing is left or a level is
/// beyond the taker's limit; and if quantity is still left afterwards, every
/// eligible entry of every level within the limit was filled completely.
proof fn lemma_fold_levels_exhausts(v: BookView, taker: Order, ts: Timestamp, st: MatchState, levels: Seq<LevelView>)
    requires
        !st.stopped,
        forall|a: int, b: int|
            #![trigger levels[a], levels[b]]
            0 <= b < a < levels.len() && price_ok(taker, levels[a].price) ==> price_ok(taker, levels[b].price),
    ensures
        ({
            let r = fold_levels(v, taker, ts, st, levels);
            &&& r.remaining.0 <= st.remaining.0
            &&& forall|id: OrderId| st.consumed.contains(id) ==> #[trigger] r.consumed.contains(id)
            &&& r.remaining.0 > 0 ==> r.partials == st.partials
            &&& r.stopped ==> (r.remaining.0 == 0 || exists|a: int|
                0 <= a < levels.len() && !price_ok(taker, #[trigger] levels[a].price))
            &&& r.remaining.0 > 0 ==> forall|a: int, b: int|
                0 <= a < levels.len() && 0 <= b < levels[a].orders.len() && price_ok(taker, levels[a].price)
                    && eligible(v, taker, #[trigger] levels[a].orders[b]) ==> r.consumed.contains(levels[a].orders[b].0)
        }),
    decreases levels.len(),
{
    if levels.len() > 0 {
        let pre = levels.drop_last();
        let n = levels.len() - 1;
        assert forall|a: int, b: int|
            #![trigger pre[a], pre[b]]
            0 <= b < a < pre.len() && price_ok(taker, pre[a].price) implies price_ok(taker, pre[b].price) by {
            assert(pre[a] == levels[a] && pre[b] == levels[b]);
        }
        lemma_fold_levels_exhausts(v, taker, ts, st, pre);
        let mid = fold_levels(v, taker, ts, st, pre);
        let l = levels.last();
        let r = fold_levels(v, taker, ts, st, levels);
        assert(r == level_step(v, taker, ts, mid, l));
        if !mid.stopped && mid.remaining.0 != 0 && price_ok(taker, l.price) {
            lemma_fold_entries_exhausts(v, taker, l.price, ts, mid, l.orders);
        }
        if r.stopped && r.remaining.0 != 0 {
            if mid.stopped {
                let a = choose|a: int| 0 <= a < pre.len() && !price_ok(taker, #[trigger] pre[a].price);
                assert(levels[a] == pre[a]);
            } else {
                assert(!price_ok(taker, levels[n].price));
            }
        }
        if r.remaining.0 > 0 {
            assert forall|a: int, b: int|
                0 <= a < levels.len() && 0 <= b < levels[a].orders.len() && price_ok(taker, levels[a].price)
                    && eligible(v, taker, #[trigger] levels[a].orders[b]) implies r.consumed.contains(
                levels[a].orders[b].0,
            ) by {
                if a < n {
                    assert(pre[a] == levels[a]);
                    assert(mid.consumed.contains(levels[a].orders[b].0));
                } else {
                    if mid.stopped {
                        let c = choose|c: int| 0 <= c < pre.len() && !price_ok(taker, #[trigger] pre[c].price);
                        assert(pre[c] == levels[c]);
                        assert(price_ok(taker, levels[c].price));
                    }
                }
            }
        }
    }
}

/// The matcher takes all it may: when quantity is left after matching, no
/// maker was filled in part, and every resting order of the opposite side at
/// a price the taker accepts and of another owner was filled completely (and
/// is listed for removal).
pub proof fn lemma_match_takes_all_it_may(v: BookView, taker: Order, max_quantity: Quantity, ts: Timestamp)
    requires
        crate::orderbook::book::book_view_wf(v),
    ensures
        ({
            let st = match_spec(v, taker, max_quantity, ts);
            let levels = side_levels(v, opposite_side(taker.side));
            &&& st.remaining.0 > 0 ==> st.partials.len() == 0
            &&& st.remaining.0 > 0 ==> forall|a: int, b: int|
                0 <= a < levels.len() && 0 <= b < levels[a].orders.len() && price_ok(taker, levels[a].price)
                    && !same_owner(v.orders[(#[trigger] levels[a].orders[b]).0.0].owner, taker.owner)
                    ==> st.consumed.contains(levels[a].orders[b].0)
        }),
{
    let opp = opposite_side(taker.side);
    let levels = side_levels(v, opp);
    assert(crate::orderbook::book::side_ok(v, opp));
    assert forall|a: int, b: int|
        #![trigger levels[a], levels[b]]
        0 <= b < a < levels.len() && price_ok(taker, levels[a].price) implies price_ok(taker, levels[b].price) by {
        assert(crate::orderbook::book::better(levels[b].price, levels[a].price, opp));
    }
    lemma_fold_levels_exhausts(v, taker, ts, start_state(max_quantity), levels);
    let st = match_spec(v, taker, max_quantity, ts);
    if st.remaining.0 > 0 {
        assert forall|a: int, b: int|
            0 <= a < levels.len() && 0 <= b < levels[a].orders.len() && price_ok(taker, levels[a].price)
                && !same_owner(v.orders[(#[trigger] levels[a].orders[b]).0.0].owner, taker.owner) implies st.consumed.contains(
            levels[a].orders[b].0,
        ) by {
            assert(crate::orderbook::book::level_ok(v, opp, levels[a]));
            assert(crate::orderbook::book::entry_ok(v, opp, levels[a].price, levels[a].orders[b]));
            assert(eligible(v, taker, levels[a].orders[b]));
        }
    }
}

/// The total quantity of the levels whose price an order on `side` limited
/// at `limit` accepts, wherever they stand.
pub open spec fn crossing_total(levels: Seq<LevelView>, side: OrderSide, limit: Price) -> int
    decreases levels.len(),
{
    if levels.len() == 0 {
        0
    } else {
        crossing_total(levels.drop_last(), side, limit) + if within_limit(side, limit, levels.last().price) {
            qty_sum(levels.last().orders)
        } else {
            0
        }
    }
}

/// The total quantity of all levels.
pub open spec fn levels_total(levels: Seq<LevelView>) -> int
    decreases levels.len(),
{
    if levels.len() == 0 {
        0
    } else {
        levels_total(levels.drop_last()) + qty_sum(levels.last().orders)
    }
}

/// The smaller of an amount and the largest quantity.
pub open spec fn capped(x: int) -> int {
    if x <= u128::MAX {
        x
    } else {
        u128::MAX as int
    }
}

/// On levels in the opposite side's priority order, the clamped running total
/// is the capped total of every level within the limit; that total is no
/// more than the total of all levels.
proof fn lemma_clamped_is_capped(levels: Seq<LevelView>, side: OrderSide, limit: Price)
    requires
        crate::orderbook::book::levels_sorted(levels, opposite_side(side)),
    ensures
        clamped_total_within(levels, side, limit) == capped(crossing_total(levels, side, limit)),
        0 <= crossing_total(levels, side, limit) <= levels_total(levels),
    decreases levels.len(),
{
    if levels.len() > 0 {
        let pre = levels.drop_last();
        let last = levels.last();
        assert forall|i: int, j: int| 0 <= i < j < pre.len() implies crate::orderbook::book::better(
            #[trigger] pre[i].price,
            #[trigger] pre[j].price,
            opposite_side(side),
        ) by {
            assert(pre[i] == levels[i] && pre[j] == levels[j]);
        }
        lemma_clamped_is_capped(pre, side, limit);
        crate::orderbook::price_level::lemma_qty_sum_nonneg(last.orders);
        if within_limit(side, limit, last.price) {
            assert forall|i: int| 0 <= i < pre.len() implies within_limit(side, limit, #[trigger] pre[i].price) by {
                assert(pre[i] == levels[i]);
                assert(crate::orderbook::book::better(levels[i].price, levels[levels.len() - 1].price, opposite_side(side)));
            }
        }
    }
}

/// Accepting more prices never lowers the crossing total.
proof fn lemma_crossing_total_monotone(levels: Seq<LevelView>, side: OrderSide, p1: Price, p2: Price)
    requires
        side == OrderSide::Buy ==> p1.0 <= p2.0,
        side == OrderSide::Sell ==> p1.0 >= p2.0,
    ensures
        crossing_total(levels, side, p1) <= crossing_total(levels, side, p2),
    decreases levels.len(),
{
    if levels.len() > 0 {
        lemma_crossing_total_monotone(levels.drop_last(), side, p1, p2);
        crate::orderbook::price_level::lemma_qty_sum_nonneg(levels.last().orders);
    }
}

/// With no overflow on the way, the saturating total of the levels is their total.
proof fn lemma_saturating_is_total(levels: Seq<LevelView>)
    requires
        levels_total(levels) <= u128::MAX,
    ensures
        saturating_level_total(levels) == levels_total(levels),
        levels_total(levels) >= 0,
    decreases levels.len(),
{
    if levels.len() > 0 {
        crate::orderbook::price_level::lemma_qty_sum_nonneg(levels.last().orders);
        lemma_levels_total_nonneg(levels.drop_last());
        lemma_saturating_is_total(levels.drop_last());
    }
}

proof fn lemma_levels_total_nonneg(levels: Seq<LevelView>)
    ensures
        levels_total(levels) >= 0,
    decreases levels.len(),
{
    if levels.len() > 0 {
        crate::orderbook::price_level::lemma_qty_sum_nonneg(levels.last().orders);
        lemma_levels_total_nonneg(levels.drop_last());
    }
}

/// What an order could take from a consistent book: for a limit order, the
/// total of every opposite level within its limit, capped at the largest
/// quantity, which never shrinks as the limit accepts more prices; for a
/// market order, when the opposite side's total does not overflow, that
/// total, which is at least what any limit order could take.
pub proof fn lemma_available_quantity_law(v: BookView, side: OrderSide, p1: Price, p2: Price)
    requires
        crate::orderbook::book::book_view_wf(v),
    ensures
        ({
            let levels = side_levels(v, opposite_side(side));
            &&& clamped_total_within(levels, side, p1) == capped(crossing_total(levels, side, p1))
            &&& (side == OrderSide::Buy && p1.0 <= p2.0) || (side == OrderSide::Sell && p1.0 >= p2.0)
                ==> clamped_total_within(levels, side, p1) <= clamped_total_within(levels, side, p2)
            &&& levels_total(levels) <= u128::MAX ==> saturating_level_total(levels) == levels_total(levels)
                && clamped_total_within(levels, side, p1) <= saturating_level_total(levels)
        }),
{
    let opp = opposite_side(side);
    let levels = side_levels(v, opp);
    assert(crate::orderbook::book::side_ok(v, opp));
    lemma_clamped_is_capped(levels, side, p1);
    lemma_clamped_is_capped(levels, side, p2);
    if (side == OrderSide::Buy && p1.0 <= p2.0) || (side == OrderSide::Sell && p1.0 >= p2.0) {
        lemma_crossing_total_monotone(levels, side, p1, p2);
    }
    if levels_total(levels) <= u128::MAX {
        lemma_saturating_is_total(levels);
    }
}

} // verus!
