//! Snapshots of an order book: every resting order, level by level in queue
//! order, from which the book can be rebuilt; and aggregated (L2) summaries.
use vstd::prelude::*;
use vstd::string::*;

use crate::orderbook::book::{
    better, book_view_wf, entry_ok, has_level, lemma_level_index, level_index, level_ok, levels_sorted, located,
    side_levels, side_ok, splits_at, with_side, BookView, OrderBook,
};
use crate::orderbook::ops::{
    book_insert, insert_error, lemma_insert_index, lemma_qty_sum_push, lemma_unique_entry, level_total, levels_with_entry,
    order_book_error_text, OrderBookError,
};
use crate::orderbook::price_level::{lemma_qty_sum_concat, lemma_qty_sum_nonneg, qty_sum, LevelView};
use crate::types::ids::{MarketId, OrderId};
use crate::types::order::{status_active, Order, OrderSide, OrderType};
use crate::types::primitives::{Price, Quantity};

verus! {

/// The orders of one price level, oldest first.
#[derive(Debug, Clone, PartialEq, Eq)]
pub struct PriceLevelSnapshot {
    /// The price of the level.
    pub price: Price,
    /// The orders at the level, oldest first.
    pub orders: Vec<Order>,
}

impl PriceLevelSnapshot {
    /// A level snapshot of the given orders.
    pub fn new(price: Price, orders: Vec<Order>) -> (r: PriceLevelSnapshot)
        ensures
            r.price == price,
            r.orders@ == orders@,
    {
        PriceLevelSnapshot { price, orders }
    }

    /// Returns `true` when the level holds no order.
    pub fn is_empty(&self) -> (r: bool)
        ensures
            r == (self.orders@.len() == 0),
    {
        self.orders.len() == 0
    }

    /// The number of orders at the level.
    pub fn order_count(&self) -> (r: usize)
        ensures
            r == self.orders@.len(),
    {
        self.orders.len()
    }
}

/// The orders of a level as the index holds them, oldest first.
pub open spec fn level_orders(v: BookView, l: LevelView) -> Seq<Order> {
    l.orders.map_values(|e: (OrderId, Quantity)| v.orders[e.0.0])
}

/// Level snapshots that list the levels of a book, in the same order.
pub open spec fn snapshots_of(v: BookView, levels: Seq<LevelView>, snaps: Seq<PriceLevelSnapshot>) -> bool {
    &&& snaps.len() == levels.len()
    &&& forall|i: int|
        0 <= i < levels.len() ==> (#[trigger] snaps[i]).price == levels[i].price && snaps[i].orders@ == level_orders(
            v,
            levels[i],
        )
}

/// All orders of a sequence of level snapshots, level after level.
pub open spec fn snapshot_orders(levels: Seq<PriceLevelSnapshot>) -> Seq<Order>
    decreases levels.len(),
{
    if levels.len() == 0 {
        Seq::empty()
    } else {
        snapshot_orders(levels.drop_last()) + levels.last().orders@
    }
}

/// The book after inserting the orders one after the other, or the first
/// error an insertion meets.
pub open spec fn insert_all(v: BookView, s: Seq<Order>) -> Result<BookView, OrderBookError>
    decreases s.len(),
{
    if s.len() == 0 {
        Ok(v)
    } else {
        match insert_all(v, s.drop_last()) {
            Err(e) => Err(e),
            Ok(v1) => match insert_error(v1, s.last()) {
                Some(e) => Err(e),
                None => Ok(book_insert(v1, s.last())),
            },
        }
    }
}

/// The empty book of a market.
pub open spec fn empty_book(m: MarketId) -> BookView {
    BookView { market_id: m, bids: Seq::empty(), asks: Seq::empty(), orders: Map::empty() }
}

/// What rebuilding a book from a snapshot gives: the book after inserting
/// every bid order and then every ask order, or the text of the first failure.
pub open spec fn rebuild(s: OrderBookSnapshot) -> Result<BookView, Seq<char>> {
    match insert_all(empty_book(s.market_id), snapshot_orders(s.bids@)) {
        Err(e) => Err("failed to insert bid order: "@ + order_book_error_text(e)),
        Ok(v1) => match insert_all(v1, snapshot_orders(s.asks@)) {
            Err(e) => Err("failed to insert ask order: "@ + order_book_error_text(e)),
            Ok(v2) => Ok(v2),
        },
    }
}

/// The number of orders over a sequence of level snapshots.
pub open spec fn snapshot_count(levels: Seq<PriceLevelSnapshot>) -> nat
    decreases levels.len(),
{
    if levels.len() == 0 {
        0
    } else {
        snapshot_count(levels.drop_last()) + levels.last().orders@.len()
    }
}

/// The orders of the first levels and then of one more level.
proof fn lemma_snapshot_orders_take(levels: Seq<PriceLevelSnapshot>, i: int)
    requires
        0 <= i < levels.len(),
    ensures
        snapshot_orders(levels.take(i + 1)) == snapshot_orders(levels.take(i)) + levels[i].orders@,
        snapshot_count(levels.take(i + 1)) == snapshot_count(levels.take(i)) + levels[i].orders@.len(),
{
    assert(levels.take(i + 1).drop_last() =~= levels.take(i));
}

/// Inserting one more order extends the insertions before it.
proof fn lemma_insert_all_push(v: BookView, s: Seq<Order>, o: Order)
    ensures
        insert_all(v, s.push(o)) == match insert_all(v, s) {
            Err(e) => Err(e),
            Ok(v1) => match insert_error(v1, o) {
                Some(e) => Err(e),
                None => Ok(book_insert(v1, o)),
            },
        },
{
    assert(s.push(o).drop_last() =~= s);
}

/// Once an insertion fails, inserting more orders gives the same failure.
proof fn lemma_insert_all_err(v: BookView, a: Seq<Order>, b: Seq<Order>, e: OrderBookError)
    requires
        insert_all(v, a) == Err::<BookView, OrderBookError>(e),
    ensures
        insert_all(v, a + b) == Err::<BookView, OrderBookError>(e),
    decreases b.len(),
{
    if b.len() == 0 {
        assert(a + b =~= a);
    } else {
        lemma_insert_all_err(v, a, b.drop_last(), e);
        assert((a + b).drop_last() =~= a + b.drop_last());
    }
}

/// Insertions that succeed one after the other succeed together.
proof fn lemma_insert_all_concat(v: BookView, a: Seq<Order>, b: Seq<Order>, v1: BookView)
    requires
        insert_all(v, a) == Ok::<BookView, OrderBookError>(v1),
    ensures
        insert_all(v, a + b) == insert_all(v1, b),
    decreases b.len(),
{
    if b.len() == 0 {
        assert(a + b =~= a);
    } else {
        lemma_insert_all_concat(v, a, b.drop_last(), v1);
        assert((a + b).drop_last() =~= a + b.drop_last());
    }
}

/// Every order of a book, level by level in queue order, for both sides.
#[derive(Debug, Clone, PartialEq, Eq)]
pub struct OrderBookSnapshot {
    /// The market of the book.
    pub market_id: MarketId,
    /// Bid levels, best (highest price) first.
    pub bids: Vec<PriceLevelSnapshot>,
    /// Ask levels, best (lowest price) first.
    pub asks: Vec<PriceLevelSnapshot>,
}

impl OrderBookSnapshot {
    fn capture_side(book: &OrderBook, side: OrderSide) -> (r: Vec<PriceLevelSnapshot>)
        requires
            book.wf(),
        ensures
            snapshots_of(book@, side_levels(book@, side), r@),
    {
        let ghost levels = side_levels(book@, side);
        let mut out: Vec<PriceLevelSnapshot> = Vec::new();
        let n = book.level_count(side);
        let mut i: usize = 0;
        while i < n
            invariant
                0 <= i <= n,
                n == levels.len(),
                levels == side_levels(book@, side),
                book.wf(),
                out@.len() == i,
                forall|k: int|
                    0 <= k < i ==> (#[trigger] out@[k]).price == levels[k].price && out@[k].orders@ == level_orders(
                        book@,
                        levels[k],
                    ),
            decreases n - i,
        {
            let level = book.level_at(side, i);
            let entries = level.order_vec();
            let mut orders: Vec<Order> = Vec::new();
            let m = entries.len();
            let mut j: usize = 0;
            while j < m
                invariant
                    0 <= j <= m,
                    m == entries@.len(),
                    entries@ == levels[i as int].orders,
                    0 <= i < levels.len(),
                    levels == side_levels(book@, side),
                    book.wf(),
                    orders@ =~= entries@.take(j as int).map_values(|e: (OrderId, Quantity)| book@.orders[e.0.0]),
                decreases m - j,
            {
                let id = entries[j].0;
                proof {
                    assert(level_ok(book@, side, levels[i as int]));
                    assert(entry_ok(book@, side, levels[i as int].price, entries@[j as int]));
                }
                match book.get_order(id) {
                    Some(o) => orders.push(*o),
                    None => {},
                }
                j = j + 1;
            }
            proof {
                assert(entries@.take(m as int) =~= entries@);
            }
            out.push(PriceLevelSnapshot { price: level.price(), orders });
            i = i + 1;
        }
        out
    }

    /// The snapshot of a book: its levels in priority order, each with the
    /// indexed orders of its queue, oldest first.
    pub fn from_book(book: &OrderBook) -> (r: OrderBookSnapshot)
        requires
            book.wf(),
        ensures
            r.market_id == book@.market_id,
            snapshots_of(book@, book@.bids, r.bids@),
            snapshots_of(book@, book@.asks, r.asks@),
    {
        let bids = Self::capture_side(book, OrderSide::Buy);
        let asks = Self::capture_side(book, OrderSide::Sell);
        OrderBookSnapshot { market_id: book.market_id(), bids, asks }
    }

    fn restore_side(book: &mut OrderBook, levels: &Vec<PriceLevelSnapshot>, bid: bool) -> (r: Result<(), String>)
        requires
            old(book).wf(),
        ensures
            final(book).wf(),
            match insert_all(old(book)@, snapshot_orders(levels@)) {
                Ok(v) => r is Ok && final(book)@ == v,
                Err(e) => r matches Err(m) && m@ == (if bid {
                    "failed to insert bid order: "@
                } else {
                    "failed to insert ask order: "@
                }) + order_book_error_text(e),
            },
    {
        let ghost v0 = book@;
        let n = levels.len();
        let mut i: usize = 0;
        assert(levels@.take(0) =~= Seq::<PriceLevelSnapshot>::empty());
        while i < n
            invariant
                0 <= i <= n,
                n == levels@.len(),
                book.wf(),
                v0 == old(book)@,
                insert_all(v0, snapshot_orders(levels@.take(i as int))) == Ok::<BookView, OrderBookError>(book@),
            decreases n - i,
        {
            let level = &levels[i];
            let m = level.orders.len();
            let mut j: usize = 0;
            proof {
                assert(snapshot_orders(levels@.take(i as int)) + level.orders@.take(0) =~= snapshot_orders(levels@.take(i as int)));
            }
            while j < m
                invariant
                    0 <= j <= m,
                    0 <= i < n,
                    n == levels@.len(),
                    m == level.orders@.len(),
                    *level == levels@[i as int],
                    book.wf(),
                    v0 == old(book)@,
                    insert_all(v0, snapshot_orders(levels@.take(i as int)) + level.orders@.take(j as int)) == Ok::<
                        BookView,
                        OrderBookError,
                    >(book@),
                decreases m - j,
            {
                let order = level.orders[j];
                let ghost prefix = snapshot_orders(levels@.take(i as int)) + level.orders@.take(j as int);
                proof {
                    assert(snapshot_orders(levels@.take(i as int)) + level.orders@.take(j as int + 1) =~= prefix.push(order));
                    lemma_insert_all_push(v0, prefix, order);
                }
                match book.insert_order(order) {
                    Ok(()) => {},
                    Err(e) => {
                        proof {
                            lemma_snapshot_orders_take(levels@, i as int);
                            let rest = level.orders@.skip(j as int + 1) + snapshot_orders(levels@).skip(
                                snapshot_orders(levels@.take(i as int + 1)).len() as int,
                            );
                            lemma_snapshot_orders_prefix(levels@, i as int + 1);
                            assert(prefix.push(order) + rest =~= snapshot_orders(levels@));
                            lemma_insert_all_err(v0, prefix.push(order), rest, e);
                        }
                        let mut msg = if bid {
                            "failed to insert bid order: ".to_owned()
                        } else {
                            "failed to insert ask order: ".to_owned()
                        };
                        let text = e.message();
                        msg.append(text.as_str());
                        return Err(msg);
                    },
                }
                j = j + 1;
            }
            proof {
                lemma_snapshot_orders_take(levels@, i as int);
                assert(level.orders@.take(m as int) =~= level.orders@);
            }
            i = i + 1;
        }
        proof {
            assert(levels@.take(n as int) =~= levels@);
        }
        Ok(())
    }

    /// Rebuilds a book by inserting every bid order and then every ask order,
    /// level by level in queue order. Fails with the text of the first
    /// insertion that fails.
    pub fn to_book(&self) -> (r: Result<OrderBook, String>)
        ensures
            match rebuild(*self) {
                Ok(v) => r matches Ok(b) && b.wf() && b@ == v,
                Err(m) => r matches Err(s) && s@ == m,
            },
    {
        let mut book = OrderBook::new(self.market_id);
        assert(book@ == empty_book(self.market_id));
        match Self::restore_side(&mut book, &self.bids, true) {
            Ok(()) => {},
            Err(m) => return Err(m),
        }
        match Self::restore_side(&mut book, &self.asks, false) {
            Ok(()) => {},
            Err(m) => return Err(m),
        }
        Ok(book)
    }

    /// Returns `true` when the snapshot has no level on either side.
    pub fn is_empty(&self) -> (r: bool)
        ensures
            r == (self.bids@.len() == 0 && self.asks@.len() == 0),
    {
        self.bids.len() == 0 && self.asks.len() == 0
    }

    fn count_side(levels: &Vec<PriceLevelSnapshot>) -> (r: usize)
        requires
            snapshot_count(levels@) <= usize::MAX,
        ensures
            r == snapshot_count(levels@),
    {
        let n = levels.len();
        let mut total: usize = 0;
        let mut i: usize = 0;
        assert(levels@.take(0) =~= Seq::<PriceLevelSnapshot>::empty());
        while i < n
            invariant
                0 <= i <= n,
                n == levels@.len(),
                snapshot_count(levels@) <= usize::MAX,
                total == snapshot_count(levels@.take(i as int)),
            decreases n - i,
        {
            proof {
                lemma_snapshot_orders_take(levels@, i as int);
                lemma_snapshot_count_prefix(levels@, i as int + 1);
            }
            total = total + levels[i].orders.len();
            i = i + 1;
        }
        assert(levels@.take(n as int) =~= levels@);
        total
    }

    /// The number of orders in the snapshot.
    pub fn order_count(&self) -> (r: usize)
        requires
            snapshot_count(self.bids@) + snapshot_count(self.asks@) <= usize::MAX,
        ensures
            r == snapshot_count(self.bids@) + snapshot_count(self.asks@),
    {
        Self::count_side(&self.bids) + Self::count_side(&self.asks)
    }

    /// The number of bid levels.
    pub fn bid_level_count(&self) -> (r: usize)
        ensures
            r == self.bids@.len(),
    {
        self.bids.len()
    }

    /// The number of ask levels.
    pub fn ask_level_count(&self) -> (r: usize)
        ensures
            r == self.asks@.len(),
    {
        self.asks.len()
    }

    /// The price of the first bid level, if any.
    pub fn best_bid_price(&self) -> (r: Option<Price>)
        ensures
            r == if self.bids@.len() == 0 { None } else { Some(self.bids@[0].price) },
    {
        if self.bids.len() == 0 {
            None
        } else {
            Some(self.bids[0].price)
        }
    }

    /// The price of the first ask level, if any.
    pub fn best_ask_price(&self) -> (r: Option<Price>)
        ensures
            r == if self.asks@.len() == 0 { None } else { Some(self.asks@[0].price) },
    {
        if self.asks.len() == 0 {
            None
        } else {
            Some(self.asks[0].price)
        }
    }
}

/// The orders of the first levels are a prefix of all the orders.
proof fn lemma_snapshot_orders_prefix(levels: Seq<PriceLevelSnapshot>, i: int)
    requires
        0 <= i <= levels.len(),
    ensures
        snapshot_orders(levels.take(i)).len() <= snapshot_orders(levels).len(),
        snapshot_orders(levels) == snapshot_orders(levels.take(i)) + snapshot_orders(levels).skip(
            snapshot_orders(levels.take(i)).len() as int,
        ),
    decreases levels.len() - i,
{
    if i == levels.len() {
        assert(levels.take(i) =~= levels);
        assert(snapshot_orders(levels).skip(snapshot_orders(levels).len() as int) =~= Seq::<Order>::empty());
        assert(snapshot_orders(levels) + Seq::<Order>::empty() =~= snapshot_orders(levels));
    } else {
        lemma_snapshot_orders_prefix(levels, i + 1);
        lemma_snapshot_orders_take(levels, i);
        let a = snapshot_orders(levels.take(i));
        let b = snapshot_orders(levels.take(i + 1));
        let all = snapshot_orders(levels);
        assert(all == b + all.skip(b.len() as int));
        assert(all =~= a + all.skip(a.len() as int));
    }
}

/// The number of orders of the first levels is at most the total.
proof fn lemma_snapshot_count_prefix(levels: Seq<PriceLevelSnapshot>, i: int)
    requires
        0 <= i <= levels.len(),
    ensures
        snapshot_count(levels.take(i)) <= snapshot_count(levels),
    decreases levels.len() - i,
{
    if i == levels.len() {
        assert(levels.take(i) =~= levels);
    } else {
        lemma_snapshot_count_prefix(levels, i + 1);
        lemma_snapshot_orders_take(levels, i);
    }
}

/// The sum of the remaining quantities of orders, skipping an order whose
/// quantity would overflow the running sum.
pub open spec fn skip_overflow_total(s: Seq<Order>) -> int
    decreases s.len(),
{
    if s.len() == 0 {
        0
    } else {
        let acc = skip_overflow_total(s.drop_last());
        if acc + s.last().remaining_quantity.0 <= u128::MAX {
            acc + s.last().remaining_quantity.0
        } else {
            acc
        }
    }
}

/// One aggregated price level: its price, total quantity and order count.
#[derive(Debug, Clone, Copy, PartialEq, Eq)]
pub struct L2Level {
    /// The price of the level.
    pub price: Price,
    /// The total quantity at the level.
    pub quantity: Quantity,
    /// The number of orders at the level.
    pub order_count: usize,
}

/// A book aggregated by price, as market data feeds show it.
#[derive(Debug, Clone, PartialEq, Eq)]
pub struct L2BookSummary {
    /// The market of the book.
    pub market_id: MarketId,
    /// Bid levels, best (highest price) first.
    pub bids: Vec<L2Level>,
    /// Ask levels, best (lowest price) first.
    pub asks: Vec<L2Level>,
}

/// How many levels a depth limit keeps of `n`.
pub open spec fn depth(n: int, max_levels: Option<usize>) -> int {
    match max_levels {
        Some(m) => if m < n { m as int } else { n },
        None => n,
    }
}

/// Aggregated levels that summarise the first `depth` levels of a book.
pub open spec fn summarises(levels: Seq<LevelView>, max_levels: Option<usize>, out: Seq<L2Level>) -> bool {
    &&& out.len() == depth(levels.len() as int, max_levels)
    &&& forall|i: int|
        0 <= i < out.len() ==> (#[trigger] out[i]).price == levels[i].price && out[i].quantity.0 == qty_sum(
            levels[i].orders,
        ) && out[i].order_count == levels[i].orders.len()
}

/// Aggregated levels that summarise the first `depth` level snapshots.
pub open spec fn summarises_snapshots(levels: Seq<PriceLevelSnapshot>, max_levels: Option<usize>, out: Seq<L2Level>) -> bool {
    &&& out.len() == depth(levels.len() as int, max_levels)
    &&& forall|i: int|
        0 <= i < out.len() ==> (#[trigger] out[i]).price == levels[i].price && out[i].quantity.0
            == skip_overflow_total(levels[i].orders@) && out[i].order_count == levels[i].orders@.len()
}

impl L2BookSummary {
    fn summarise_side(book: &OrderBook, side: OrderSide, max_levels: Option<usize>) -> (r: Vec<L2Level>)
        requires
            book.wf(),
        ensures
            summarises(side_levels(book@, side), max_levels, r@),
    {
        let ghost levels = side_levels(book@, side);
        let n = book.level_count(side);
        let limit = match max_levels {
            Some(m) => if m < n { m } else { n },
            None => n,
        };
        let mut out: Vec<L2Level> = Vec::new();
        let mut i: usize = 0;
        while i < limit
            invariant
                0 <= i <= limit,
                limit <= n,
                n == levels.len(),
                limit == depth(n as int, max_levels),
                levels == side_levels(book@, side),
                book.wf(),
                out@.len() == i,
                forall|k: int|
                    0 <= k < i ==> (#[trigger] out@[k]).price == levels[k].price && out@[k].quantity.0 == qty_sum(
                        levels[k].orders,
                    ) && out@[k].order_count == levels[k].orders.len(),
            decreases limit - i,
        {
            let level = book.level_at(side, i);
            out.push(L2Level { price: level.price(), quantity: level.total_quantity(), order_count: level.order_count() });
            i = i + 1;
        }
        out
    }

    /// The aggregated levels of a book, at most `max_levels` per side when given.
    pub fn from_book(book: &OrderBook, max_levels: Option<usize>) -> (r: L2BookSummary)
        requires
            book.wf(),
        ensures
            r.market_id == book@.market_id,
            summarises(book@.bids, max_levels, r.bids@),
            summarises(book@.asks, max_levels, r.asks@),
    {
        let bids = Self::summarise_side(book, OrderSide::Buy, max_levels);
        let asks = Self::summarise_side(book, OrderSide::Sell, max_levels);
        L2BookSummary { market_id: book.market_id(), bids, asks }
    }

    fn level_total(orders: &Vec<Order>) -> (r: Quantity)
        ensures
            r.0 == skip_overflow_total(orders@),
    {
        let mut acc = Quantity::zero();
        let n = orders.len();
        let mut i: usize = 0;
        while i < n
            invariant
                0 <= i <= n,
                n == orders@.len(),
                acc.0 == skip_overflow_total(orders@.take(i as int)),
            decreases n - i,
        {
            proof {
                assert(orders@.take(i as int + 1).drop_last() =~= orders@.take(i as int));
            }
            acc = match acc.checked_add(orders[i].remaining_quantity) {
                Some(s) => s,
                None => acc,
            };
            i = i + 1;
        }
        assert(orders@.take(n as int) =~= orders@);
        acc
    }

    fn summarise_snapshots(levels: &Vec<PriceLevelSnapshot>, max_levels: Option<usize>) -> (r: Vec<L2Level>)
        ensures
            summarises_snapshots(levels@, max_levels, r@),
    {
        let n = levels.len();
        let limit = match max_levels {
            Some(m) => if m < n { m } else { n },
            None => n,
        };
        let mut out: Vec<L2Level> = Vec::new();
        let mut i: usize = 0;
        while i < limit
            invariant
                0 <= i <= limit,
                limit <= n,
                n == levels@.len(),
                limit == depth(n as int, max_levels),
                out@.len() == i,
                forall|k: int|
                    0 <= k < i ==> (#[trigger] out@[k]).price == levels@[k].price && out@[k].quantity.0
                        == skip_overflow_total(levels@[k].orders@) && out@[k].order_count == levels@[k].orders@.len(),
            decreases limit - i,
        {
            let level = &levels[i];
            let quantity = Self::level_total(&level.orders);
            out.push(L2Level { price: level.price, quantity, order_count: level.orders.len() });
            i = i + 1;
        }
        out
    }

    /// The aggregated levels of a snapshot, at most `max_levels` per side when
    /// given. A level's quantity sums its orders' remaining quantities,
    /// skipping one that would overflow the sum.
    pub fn from_snapshot(snapshot: &OrderBookSnapshot, max_levels: Option<usize>) -> (r: L2BookSummary)
        ensures
            r.market_id == snapshot.market_id,
            summarises_snapshots(snapshot.bids@, max_levels, r.bids@),
            summarises_snapshots(snapshot.asks@, max_levels, r.asks@),
    {
        let bids = Self::summarise_snapshots(&snapshot.bids, max_levels);
        let asks = Self::summarise_snapshots(&snapshot.asks, max_levels);
        L2BookSummary { market_id: snapshot.market_id, bids, asks }
    }
}


// ---------------------------------------------------------------------------
// Rebuilding a book from its snapshot gives the book back
// ---------------------------------------------------------------------------

/// Some entry before position `(i, j)` of the levels has key `k`.
pub open spec fn seen_key(levels: Seq<LevelView>, i: int, j: int, k: u128) -> bool {
    exists|a: int, b: int|
        #![trigger levels[a].orders[b]]
        0 <= a < levels.len() && 0 <= b < levels[a].orders.len() && (a < i || (a == i && b < j)) && levels[a].orders[b].0.0
            == k
}

/// The first `i` levels, and the first `j` entries of level `i` as a level of its own.
pub open spec fn prefix_levels(levels: Seq<LevelView>, i: int, j: int) -> Seq<LevelView> {
    if j == 0 {
        levels.take(i)
    } else {
        levels.take(i).push(LevelView { price: levels[i].price, orders: levels[i].orders.take(j) })
    }
}

/// The book rebuilt from `w` after the entries of side `t` of `v` before
/// position `(i, j)` are inserted.
pub open spec fn phase_view(v: BookView, w: BookView, t: OrderSide, i: int, j: int) -> BookView {
    let levels = side_levels(v, t);
    BookView {
        orders: Map::new(|k: u128| w.orders.contains_key(k) || seen_key(levels, i, j, k), |k: u128| v.orders[k]),
        ..with_side(w, t, prefix_levels(levels, i, j))
    }
}

/// A book every order of which can be inserted again: active limit orders.
pub open spec fn reinsertable(v: BookView) -> bool {
    forall|k: u128|
        #[trigger] v.orders.contains_key(k) ==> status_active(v.orders[k].status) && v.orders[k].order_type
            == OrderType::Limit
}

/// The start of a rebuilding phase for side `t`: the same market, no level
/// of side `t` yet, and only orders of `v` of the other side.
pub open spec fn phase_start(v: BookView, w: BookView, t: OrderSide) -> bool {
    &&& w.market_id == v.market_id
    &&& side_levels(w, t).len() == 0
    &&& forall|k: u128|
        #[trigger] w.orders.contains_key(k) ==> v.orders.contains_key(k) && w.orders[k] == v.orders[k] && v.orders[k].side
            != t
}

/// A prefix of a queue sums to no more than the queue.
proof fn lemma_qty_sum_take(s: Seq<(OrderId, Quantity)>, k: int)
    requires
        0 <= k <= s.len(),
    ensures
        qty_sum(s.take(k)) <= qty_sum(s),
{
    lemma_qty_sum_concat(s.take(k), s.skip(k));
    assert(s.take(k) + s.skip(k) =~= s);
    lemma_qty_sum_nonneg(s.skip(k));
}

/// Inserting the next entry of a rebuilding phase succeeds and moves the
/// phase one entry on.
proof fn lemma_phase_step(v: BookView, w: BookView, t: OrderSide, i: int, j: int)
    requires
        book_view_wf(v),
        reinsertable(v),
        phase_start(v, w, t),
        0 <= i < side_levels(v, t).len(),
        0 <= j < side_levels(v, t)[i].orders.len(),
    ensures
        insert_error(phase_view(v, w, t, i, j), v.orders[side_levels(v, t)[i].orders[j].0.0]) is None,
        book_insert(phase_view(v, w, t, i, j), v.orders[side_levels(v, t)[i].orders[j].0.0]) == phase_view(
            v,
            w,
            t,
            i,
            j + 1,
        ),
{
    let levels = side_levels(v, t);
    let e = levels[i].orders[j];
    let k = e.0.0;
    let o = v.orders[k];
    let p = phase_view(v, w, t, i, j);
    let pre = prefix_levels(levels, i, j);
    lemma_unique_entry(v, e.0, t, i, j);
    assert(side_ok(v, t));
    assert(level_ok(v, t, levels[i]));
    assert(entry_ok(v, t, levels[i].price, e));
    assert(o.id == e.0 && o.side == t && o.price == levels[i].price && o.remaining_quantity == e.1);
    assert(reinsertable(v) ==> status_active(o.status));
    // the key is new
    assert(!seen_key(levels, i, j, k)) by {
        if seen_key(levels, i, j, k) {
            let (a, b) = choose|a: int, b: int|
                #![trigger levels[a].orders[b]]
                0 <= a < levels.len() && 0 <= b < levels[a].orders.len() && (a < i || (a == i && b < j))
                    && levels[a].orders[b].0.0 == k;
            lemma_unique_entry(v, e.0, t, a, b);
        }
    }
    assert(!w.orders.contains_key(k));
    assert(!p.orders.contains_key(o.id.0));
    assert(side_levels(p, t) == pre);
    // the prefix levels are sorted and the level of the entry is the last one (if any)
    assert(levels_sorted(pre, t)) by {
        assert forall|a: int, b: int| 0 <= a < b < pre.len() implies better(#[trigger] pre[a].price, #[trigger] pre[b].price, t) by {
            assert(pre[a].price == levels[a].price && pre[b].price == levels[b].price);
        }
    }
    let e2 = (o.id, o.remaining_quantity);
    assert(e2 == e);
    if j > 0 {
        lemma_level_index(pre, t, i);
        assert(pre[i].price == o.price);
        lemma_qty_sum_push(levels[i].orders.take(j), e);
        assert(levels[i].orders.take(j).push(e) =~= levels[i].orders.take(j + 1));
        lemma_qty_sum_take(levels[i].orders, j + 1);
        assert(level_total(p, t, o.price) == qty_sum(levels[i].orders.take(j)));
        assert(levels_with_entry(pre, t, o.price, e) =~= prefix_levels(levels, i, j + 1));
    } else {
        assert(!has_level(pre, o.price)) by {
            if has_level(pre, o.price) {
                let a = choose|a: int| 0 <= a < pre.len() && pre[a].price == o.price;
                assert(better(levels[a].price, levels[i].price, t));
            }
        }
        assert(splits_at(pre, i, o.price, t)) by {
            assert forall|a: int| 0 <= a < i implies better(#[trigger] pre[a].price, o.price, t) by {
                assert(pre[a] == levels[a]);
            }
        }
        lemma_insert_index(pre, o.price, t, i);
        assert(levels[i].orders.take(1) =~= seq![e]);
        assert(levels_with_entry(pre, t, o.price, e) =~= prefix_levels(levels, i, 1));
    }
    assert(insert_error(p, o) is None);
    let q = book_insert(p, o);
    let target = phase_view(v, w, t, i, j + 1);
    assert(q.orders =~= target.orders) by {
        assert forall|kk: u128| seen_key(levels, i, j + 1, kk) <==> (seen_key(levels, i, j, kk) || kk == k) by {
            if seen_key(levels, i, j + 1, kk) {
                let (a, b) = choose|a: int, b: int|
                    #![trigger levels[a].orders[b]]
                    0 <= a < levels.len() && 0 <= b < levels[a].orders.len() && (a < i || (a == i && b < j + 1))
                        && levels[a].orders[b].0.0 == kk;
                if !(a == i && b == j) {
                    assert(levels[a].orders[b].0.0 == kk);
                }
            }
            if seen_key(levels, i, j, kk) {
                let (a, b) = choose|a: int, b: int|
                    #![trigger levels[a].orders[b]]
                    0 <= a < levels.len() && 0 <= b < levels[a].orders.len() && (a < i || (a == i && b < j))
                        && levels[a].orders[b].0.0 == kk;
                assert(levels[a].orders[b].0.0 == kk);
            }
            if kk == k {
                assert(levels[i].orders[j].0.0 == kk);
            }
        }
    }
    assert(q.bids =~= target.bids);
    assert(q.asks =~= target.asks);
}

/// Moving from the end of level `i` to the start of level `i + 1` does not
/// change the rebuilt book.
proof fn lemma_phase_next_level(v: BookView, w: BookView, t: OrderSide, i: int)
    requires
        book_view_wf(v),
        0 <= i < side_levels(v, t).len(),
    ensures
        phase_view(v, w, t, i, side_levels(v, t)[i].orders.len() as int) == phase_view(v, w, t, i + 1, 0),
{
    let levels = side_levels(v, t);
    let n = levels[i].orders.len() as int;
    let a0 = phase_view(v, w, t, i, n);
    let b0 = phase_view(v, w, t, i + 1, 0);
    assert(side_ok(v, t));
    assert(level_ok(v, t, levels[i]));
    assert(levels[i].orders.take(n) =~= levels[i].orders);
    assert(prefix_levels(levels, i, n) =~= levels.take(i + 1));
    assert forall|kk: u128| seen_key(levels, i, n, kk) <==> seen_key(levels, i + 1, 0, kk) by {
        if seen_key(levels, i, n, kk) {
            let (a, b) = choose|a: int, b: int|
                #![trigger levels[a].orders[b]]
                0 <= a < levels.len() && 0 <= b < levels[a].orders.len() && (a < i || (a == i && b < n))
                    && levels[a].orders[b].0.0 == kk;
            assert(levels[a].orders[b].0.0 == kk);
        }
        if seen_key(levels, i + 1, 0, kk) {
            let (a, b) = choose|a: int, b: int|
                #![trigger levels[a].orders[b]]
                0 <= a < levels.len() && 0 <= b < levels[a].orders.len() && (a < i + 1 || (a == i + 1 && b < 0))
                    && levels[a].orders[b].0.0 == kk;
            assert(levels[a].orders[b].0.0 == kk);
        }
    }
    assert(a0.orders =~= b0.orders);
    assert(a0.bids =~= b0.bids);
    assert(a0.asks =~= b0.asks);
}

/// Inserting the orders of the first `i` level snapshots, then the first `j`
/// orders of level `i`, rebuilds the matching prefix of side `t`.
proof fn lemma_phase(v: BookView, w: BookView, t: OrderSide, snaps: Seq<PriceLevelSnapshot>, i: int, j: int)
    requires
        book_view_wf(v),
        reinsertable(v),
        phase_start(v, w, t),
        snapshots_of(v, side_levels(v, t), snaps),
        0 <= i <= snaps.len(),
        i < snaps.len() ==> 0 <= j <= snaps[i].orders@.len(),
        i == snaps.len() ==> j == 0,
    ensures
        insert_all(w, snapshot_orders(snaps.take(i)) + (if i < snaps.len() { snaps[i].orders@.take(j) } else { Seq::empty() }))
            == Ok::<BookView, OrderBookError>(phase_view(v, w, t, i, j)),
    decreases i, j,
{
    let levels = side_levels(v, t);
    if j > 0 {
        lemma_phase(v, w, t, snaps, i, j - 1);
        let prefix = snapshot_orders(snaps.take(i)) + snaps[i].orders@.take(j - 1);
        let o = snaps[i].orders@[j - 1];
        assert(snaps[i].orders@ == level_orders(v, levels[i]));
        assert(o == v.orders[levels[i].orders[j - 1].0.0]);
        lemma_insert_all_push(w, prefix, o);
        lemma_phase_step(v, w, t, i, j - 1);
        assert(snapshot_orders(snaps.take(i)) + snaps[i].orders@.take(j) =~= prefix.push(o));
    } else if i > 0 {
        let n = snaps[i - 1].orders@.len() as int;
        lemma_phase(v, w, t, snaps, i - 1, n);
        lemma_phase_next_level(v, w, t, i - 1);
        assert(snaps[i - 1].orders@ == level_orders(v, levels[i - 1]));
        assert(n == levels[i - 1].orders.len());
        lemma_snapshot_orders_take(snaps, i - 1);
        assert(snaps[i - 1].orders@.take(n) =~= snaps[i - 1].orders@);
        assert(snapshot_orders(snaps.take(i)) + Seq::<Order>::empty() =~= snapshot_orders(snaps.take(i)));
        if i < snaps.len() {
            assert(snaps[i].orders@.take(0) =~= Seq::<Order>::empty());
        }
    } else {
        assert(snaps.take(0) =~= Seq::<PriceLevelSnapshot>::empty());
        assert(snapshot_orders(snaps.take(0)) + (if 0 < snaps.len() { snaps[0].orders@.take(0) } else { Seq::empty() }) =~= Seq::<Order>::empty());
        let p = phase_view(v, w, t, 0, 0);
        assert(prefix_levels(levels, 0, 0) =~= Seq::<LevelView>::empty());
        assert(p.orders =~= w.orders) by {
            assert forall|kk: u128| !seen_key(levels, 0, 0, kk) by {}
        }
        assert(p.bids =~= w.bids);
        assert(p.asks =~= w.asks);
    }
}

/// Rebuilding a consistent book from its snapshot gives back the same book
/// (levels in the same order, each queue in the same order, the same
/// orders), provided every order in it is an active limit order, as
/// inserting requires.
pub proof fn lemma_snapshot_round_trip(v: BookView, s: OrderBookSnapshot)
    requires
        book_view_wf(v),
        reinsertable(v),
        s.market_id == v.market_id,
        snapshots_of(v, v.bids, s.bids@),
        snapshots_of(v, v.asks, s.asks@),
    ensures
        rebuild(s) == Ok::<BookView, Seq<char>>(v),
{
    let w0 = empty_book(v.market_id);
    assert(phase_start(v, w0, OrderSide::Buy));
    let nb = s.bids@.len() as int;
    lemma_phase(v, w0, OrderSide::Buy, s.bids@, nb, 0);
    assert(s.bids@.take(nb) =~= s.bids@);
    assert(snapshot_orders(s.bids@) + Seq::<Order>::empty() =~= snapshot_orders(s.bids@));
    let w1 = phase_view(v, w0, OrderSide::Buy, nb, 0);
    assert(w1.bids =~= v.bids) by {
        assert(prefix_levels(v.bids, nb, 0) =~= v.bids);
    }
    assert(phase_start(v, w1, OrderSide::Sell)) by {
        assert forall|k: u128| #[trigger] w1.orders.contains_key(k) implies v.orders.contains_key(k) && w1.orders[k]
            == v.orders[k] && v.orders[k].side != OrderSide::Sell by {
            let (a, b) = choose|a: int, b: int|
                #![trigger v.bids[a].orders[b]]
                0 <= a < v.bids.len() && 0 <= b < v.bids[a].orders.len() && (a < nb || (a == nb && b < 0))
                    && v.bids[a].orders[b].0.0 == k;
            lemma_entry_side(v, OrderSide::Buy, a, b);
        }
    }
    let na = s.asks@.len() as int;
    lemma_phase(v, w1, OrderSide::Sell, s.asks@, na, 0);
    assert(s.asks@.take(na) =~= s.asks@);
    assert(snapshot_orders(s.asks@) + Seq::<Order>::empty() =~= snapshot_orders(s.asks@));
    let w2 = phase_view(v, w1, OrderSide::Sell, na, 0);
    assert(w2.asks =~= v.asks) by {
        assert(prefix_levels(v.asks, na, 0) =~= v.asks);
    }
    assert(w2.orders =~= v.orders) by {
        assert forall|k: u128| w2.orders.contains_key(k) <==> v.orders.contains_key(k) by {
            if v.orders.contains_key(k) {
                let o = v.orders[k];
                assert(located(v, o));
                let l = side_levels(v, o.side);
                let a = level_index(l, o.price);
                let b = choose|b: int| 0 <= b < l[a].orders.len() && l[a].orders[b].0 == o.id;
                assert(l[a].orders[b].0.0 == k);
                if o.side == OrderSide::Buy {
                    assert(seen_key(v.bids, nb, 0, k));
                } else {
                    assert(seen_key(v.asks, na, 0, k));
                }
            }
            if w2.orders.contains_key(k) && !w1.orders.contains_key(k) {
                let (a, b) = choose|a: int, b: int|
                    #![trigger v.asks[a].orders[b]]
                    0 <= a < v.asks.len() && 0 <= b < v.asks[a].orders.len() && (a < na || (a == na && b < 0))
                        && v.asks[a].orders[b].0.0 == k;
                lemma_entry_side(v, OrderSide::Sell, a, b);
            }
        }
    }
    assert(w2 == v);
}

/// In a consistent book every entry is keyed by an indexed order of its side.
proof fn lemma_entry_side(v: BookView, side: OrderSide, j: int, q: int)
    requires
        book_view_wf(v),
        0 <= j < side_levels(v, side).len(),
        0 <= q < side_levels(v, side)[j].orders.len(),
    ensures
        v.orders.contains_key(side_levels(v, side)[j].orders[q].0.0),
        v.orders[side_levels(v, side)[j].orders[q].0.0].side == side,
{
    let l = side_levels(v, side)[j];
    assert(side_ok(v, side));
    assert(level_ok(v, side, l));
    assert(entry_ok(v, side, l.price, l.orders[q]));
}

/// Summing the remaining quantities of the indexed orders of a queue gives
/// the queue's total, which never overflows on the way.
proof fn lemma_level_orders_total(v: BookView, side: OrderSide, price: Price, s: Seq<(OrderId, Quantity)>)
    requires
        qty_sum(s) <= u128::MAX,
        forall|j: int| 0 <= j < s.len() ==> entry_ok(v, side, price, #[trigger] s[j]),
    ensures
        skip_overflow_total(s.map_values(|e: (OrderId, Quantity)| v.orders[e.0.0])) == qty_sum(s),
    decreases s.len(),
{
    if s.len() > 0 {
        let pre = s.drop_last();
        lemma_qty_sum_nonneg(pre);
        assert forall|j: int| 0 <= j < pre.len() implies entry_ok(v, side, price, #[trigger] pre[j]) by {
            assert(pre[j] == s[j]);
        }
        lemma_level_orders_total(v, side, price, pre);
        let m = s.map_values(|e: (OrderId, Quantity)| v.orders[e.0.0]);
        assert(m.drop_last() =~= pre.map_values(|e: (OrderId, Quantity)| v.orders[e.0.0]));
        assert(entry_ok(v, side, price, s[s.len() - 1]));
    }
}

/// Summarising the snapshot of a side of a consistent book gives the same
/// aggregated levels as summarising that side of the book itself.
pub proof fn lemma_summary_of_snapshot(
    v: BookView,
    side: OrderSide,
    snaps: Seq<PriceLevelSnapshot>,
    max_levels: Option<usize>,
    out: Seq<L2Level>,
)
    requires
        book_view_wf(v),
        snapshots_of(v, side_levels(v, side), snaps),
    ensures
        summarises_snapshots(snaps, max_levels, out) <==> summarises(side_levels(v, side), max_levels, out),
{
    let levels = side_levels(v, side);
    assert(side_ok(v, side));
    assert forall|i: int| 0 <= i < levels.len() implies skip_overflow_total((#[trigger] snaps[i]).orders@) == qty_sum(
        levels[i].orders,
    ) && snaps[i].orders@.len() == levels[i].orders.len() by {
        assert(level_ok(v, side, levels[i]));
        lemma_level_orders_total(v, side, levels[i].price, levels[i].orders);
    }
}

} // verus!
