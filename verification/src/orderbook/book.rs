//! The order book of one market: bid and ask price levels and an index of
//! the resting orders.
use std::collections::HashMap;

use vstd::prelude::*;
use vstd::std_specs::hash::*;
use vstd::std_specs::iter::IteratorSpec;

use crate::orderbook::price_level::{first_index, has_id, qty_sum, remove_id, set_qty, LevelView, PriceLevel};
use crate::types::ids::{MarketId, OrderId};
use crate::types::order::{Order, OrderSide};
use crate::types::primitives::{Price, Quantity};

verus! {

broadcast use vstd::std_specs::hash::group_hash_axioms;

/// The abstract state of an order book.
pub ghost struct BookView {
    /// The market of the book.
    pub market_id: MarketId,
    /// Bid levels, best (highest price) first.
    pub bids: Seq<LevelView>,
    /// Ask levels, best (lowest price) first.
    pub asks: Seq<LevelView>,
    /// The resting orders, keyed by the raw value of their id.
    pub orders: Map<u128, Order>,
}

/// `a` has priority over `b` on `side`: higher for bids, lower for asks.
pub open spec fn better(a: Price, b: Price, side: OrderSide) -> bool {
    match side {
        OrderSide::Buy => a.0 > b.0,
        OrderSide::Sell => a.0 < b.0,
    }
}

/// Levels strictly in priority order (so no price occurs twice).
pub open spec fn levels_sorted(levels: Seq<LevelView>, side: OrderSide) -> bool {
    forall|i: int, j: int|
        0 <= i < j < levels.len() ==> better(#[trigger] levels[i].price, #[trigger] levels[j].price, side)
}

/// `true` when some level has price `p`.
pub open spec fn has_level(levels: Seq<LevelView>, p: Price) -> bool {
    exists|i: int| 0 <= i < levels.len() && levels[i].price == p
}

/// The position of the level with price `p`.
pub open spec fn level_index(levels: Seq<LevelView>, p: Price) -> int {
    choose|i: int| 0 <= i < levels.len() && levels[i].price == p
}

/// The levels of one side.
pub open spec fn side_levels(v: BookView, side: OrderSide) -> Seq<LevelView> {
    match side {
        OrderSide::Buy => v.bids,
        OrderSide::Sell => v.asks,
    }
}

/// The book with the levels of one side replaced.
pub open spec fn with_side(v: BookView, side: OrderSide, levels: Seq<LevelView>) -> BookView {
    match side {
        OrderSide::Buy => BookView { bids: levels, ..v },
        OrderSide::Sell => BookView { asks: levels, ..v },
    }
}

/// A queue entry agrees with the indexed order: same id, side, price and
/// remaining quantity.
pub open spec fn entry_ok(v: BookView, side: OrderSide, price: Price, e: (OrderId, Quantity)) -> bool {
    &&& v.orders.contains_key(e.0.0)
    &&& v.orders[e.0.0].id == e.0
    &&& v.orders[e.0.0].side == side
    &&& v.orders[e.0.0].price == price
    &&& v.orders[e.0.0].remaining_quantity == e.1
}

/// No order id occurs twice in a queue.
pub open spec fn ids_distinct(s: Seq<(OrderId, Quantity)>) -> bool {
    forall|i: int, j: int| 0 <= i < j < s.len() ==> (#[trigger] s[i]).0 != (#[trigger] s[j]).0
}

/// A level is non-empty, its total fits in 128 bits, no id occurs twice and
/// every entry agrees with the index.
pub open spec fn level_ok(v: BookView, side: OrderSide, l: LevelView) -> bool {
    &&& l.orders.len() > 0
    &&& qty_sum(l.orders) <= u128::MAX
    &&& ids_distinct(l.orders)
    &&& forall|j: int| 0 <= j < l.orders.len() ==> entry_ok(v, side, l.price, #[trigger] l.orders[j])
}

/// The levels of a side are in priority order and each of them is consistent.
pub open spec fn side_ok(v: BookView, side: OrderSide) -> bool {
    &&& levels_sorted(side_levels(v, side), side)
    &&& forall|i: int|
        0 <= i < side_levels(v, side).len() ==> level_ok(v, side, #[trigger] side_levels(v, side)[i])
}

/// An indexed order rests in the level of its side at its price.
pub open spec fn located(v: BookView, o: Order) -> bool {
    &&& has_level(side_levels(v, o.side), o.price)
    &&& has_id(side_levels(v, o.side)[level_index(side_levels(v, o.side), o.price)].orders, o.id)
}

/// The consistency of a book: finitely many indexed orders, both sides
/// ordered and consistent, and every indexed order is keyed by its id,
/// belongs to the market and rests in the book.
pub open spec fn book_view_wf(v: BookView) -> bool {
    &&& v.orders.dom().finite()
    &&& side_ok(v, OrderSide::Buy)
    &&& side_ok(v, OrderSide::Sell)
    &&& forall|k: u128|
        #[trigger] v.orders.contains_key(k) ==> {
            &&& v.orders[k].id.0 == k
            &&& v.orders[k].market_id == v.market_id
            &&& located(v, v.orders[k])
        }
}

/// The sum of the level totals, saturating at the maximum after each level.
pub open spec fn saturating_level_total(levels: Seq<LevelView>) -> int
    decreases levels.len(),
{
    if levels.len() == 0 {
        0
    } else {
        let acc = saturating_level_total(levels.drop_last());
        if acc + qty_sum(levels.last().orders) <= u128::MAX {
            acc + qty_sum(levels.last().orders)
        } else {
            acc
        }
    }
}

/// A level position is unique in sorted levels.
pub proof fn lemma_level_index(levels: Seq<LevelView>, side: OrderSide, i: int)
    requires
        levels_sorted(levels, side),
        0 <= i < levels.len(),
    ensures
        has_level(levels, levels[i].price),
        level_index(levels, levels[i].price) == i,
{
    let k = level_index(levels, levels[i].price);
    if k < i {
        assert(better(levels[k].price, levels[i].price, side));
    } else if i < k {
        assert(better(levels[i].price, levels[k].price, side));
    }
}

/// Calls `HashMap::get_mut`: a mutable reference to the value under `key`,
/// if there is one. Claimed: it is the value stored under `key`, and the map
/// afterwards holds under `key` whatever the reference was left holding; with
/// no such key the result is `None` and the map is unchanged.
#[verifier::external_body]
fn index_get_mut(map: &mut HashMap<u128, Order>, key: u128) -> (r: Option<&mut Order>)
    ensures
        !old(map)@.contains_key(key) ==> r is None && final(map)@ == old(map)@,
        old(map)@.contains_key(key) ==> (r matches Some(o) && *o == old(map)@[key] && final(map)@ == old(map)@.insert(key, *final(o))),
{
    map.get_mut(&key)
}

/// Replacing one level and then viewing is viewing and then replacing.
proof fn lemma_update_view(levels: Seq<PriceLevel>, i: int)
    requires
        0 <= i < levels.len(),
    ensures
        forall|x: PriceLevel| (#[trigger] levels.update(i, x)).map_values(|l: PriceLevel| l@) == levels.map_values(
            |l: PriceLevel| l@,
        ).update(i, x@),
{
    assert forall|x: PriceLevel| (#[trigger] levels.update(i, x)).map_values(|l: PriceLevel| l@) == levels.map_values(
        |l: PriceLevel| l@,
    ).update(i, x@) by {
        assert(levels.update(i, x).map_values(|l: PriceLevel| l@) =~= levels.map_values(|l: PriceLevel| l@).update(i, x@));
    }
}

/// The order book of one market.
#[derive(Debug, Clone)]
pub struct OrderBook {
    market_id: MarketId,
    bids: Vec<PriceLevel>,
    asks: Vec<PriceLevel>,
    orders: HashMap<u128, Order>,
}

impl View for OrderBook {
    type V = BookView;

    closed spec fn view(&self) -> BookView {
        BookView {
            market_id: self.market_id,
            bids: self.bids@.map_values(|l: PriceLevel| l@),
            asks: self.asks@.map_values(|l: PriceLevel| l@),
            orders: self.orders@,
        }
    }
}

impl OrderBook {
    /// Internal consistency of the representation.
    pub closed spec fn inv(&self) -> bool {
        &&& forall|i: int| 0 <= i < self.bids@.len() ==> (#[trigger] self.bids@[i]).wf()
        &&& forall|i: int| 0 <= i < self.asks@.len() ==> (#[trigger] self.asks@[i]).wf()
    }

    /// A consistent book.
    pub open spec fn wf(&self) -> bool {
        &&& self.inv()
        &&& book_view_wf(self@)
    }

    pub(crate) closed spec fn side_vec(&self, side: OrderSide) -> Seq<PriceLevel> {
        match side {
            OrderSide::Buy => self.bids@,
            OrderSide::Sell => self.asks@,
        }
    }

    /// An empty book for `market_id`.
    pub fn new(market_id: MarketId) -> (r: OrderBook)
        ensures
            r.wf(),
            r@ == (BookView {
                market_id,
                bids: Seq::empty(),
                asks: Seq::empty(),
                orders: Map::empty(),
            }),
    {
        let r = OrderBook { market_id, bids: Vec::new(), asks: Vec::new(), orders: HashMap::new() };
        assert(r@.bids =~= Seq::<LevelView>::empty());
        assert(r@.asks =~= Seq::<LevelView>::empty());
        r
    }

    /// An empty book for `market_id` with room for `capacity` orders.
    pub fn with_capacity(market_id: MarketId, capacity: usize) -> (r: OrderBook)
        ensures
            r.wf(),
            r@ == (BookView {
                market_id,
                bids: Seq::empty(),
                asks: Seq::empty(),
                orders: Map::empty(),
            }),
    {
        let r = OrderBook {
            market_id,
            bids: Vec::new(),
            asks: Vec::new(),
            orders: HashMap::with_capacity(capacity),
        };
        assert(r@.bids =~= Seq::<LevelView>::empty());
        assert(r@.asks =~= Seq::<LevelView>::empty());
        r
    }

    /// The market of the book.
    pub fn market_id(&self) -> (r: MarketId)
        ensures r == self@.market_id,
    {
        self.market_id
    }

    /// Returns `true` when no order rests in the book.
    pub fn is_empty(&self) -> (r: bool)
        ensures r == self@.orders.is_empty(),
    {
        self.orders.is_empty()
    }

    /// The number of resting orders.
    pub fn order_count(&self) -> (r: usize)
        ensures r == self@.orders.len(),
    {
        self.orders.len()
    }

    /// The number of bid levels.
    pub fn bid_level_count(&self) -> (r: usize)
        ensures r == self@.bids.len(),
    {
        self.bids.len()
    }

    /// The number of ask levels.
    pub fn ask_level_count(&self) -> (r: usize)
        ensures r == self@.asks.len(),
    {
        self.asks.len()
    }

    /// The best (highest) bid price, if there is a bid.
    pub fn best_bid_price(&self) -> (r: Option<Price>)
        ensures r == if self@.bids.len() == 0 { None } else { Some(self@.bids[0].price) },
    {
        if self.bids.len() == 0 {
            None
        } else {
            Some(self.bids[0].price())
        }
    }

    /// The best (lowest) ask price, if there is an ask.
    pub fn best_ask_price(&self) -> (r: Option<Price>)
        ensures r == if self@.asks.len() == 0 { None } else { Some(self@.asks[0].price) },
    {
        if self.asks.len() == 0 {
            None
        } else {
            Some(self.asks[0].price())
        }
    }

    /// The best bid level, if any.
    pub fn best_bid_level(&self) -> (r: Option<&PriceLevel>)
        requires
            self.wf(),
        ensures
            self@.bids.len() == 0 ==> r is None,
            self@.bids.len() > 0 ==> (r matches Some(l) && l@ == self@.bids[0] && l.wf()),
    {
        if self.bids.len() == 0 {
            None
        } else {
            Some(&self.bids[0])
        }
    }

    /// The best ask level, if any.
    pub fn best_ask_level(&self) -> (r: Option<&PriceLevel>)
        requires
            self.wf(),
        ensures
            self@.asks.len() == 0 ==> r is None,
            self@.asks.len() > 0 ==> (r matches Some(l) && l@ == self@.asks[0] && l.wf()),
    {
        if self.asks.len() == 0 {
            None
        } else {
            Some(&self.asks[0])
        }
    }

    /// The best bid level, for changing it in place. The book reflects the
    /// level as the caller leaves it.
    pub fn best_bid_level_mut(&mut self) -> (r: Option<&mut PriceLevel>)
        ensures
            old(self)@.bids.len() == 0 ==> r is None && final(self)@ == old(self)@ && final(self).inv() == old(self).inv(),
            old(self)@.bids.len() > 0 ==> (r matches Some(l) && l@ == old(self)@.bids[0] && (old(self).inv() ==> l.wf())
                && final(self)@ == (BookView { bids: old(self)@.bids.update(0, final(l)@), ..old(self)@ })
                && (old(self).inv() && final(l).wf() ==> final(self).inv())),
    {
        if self.bids.len() == 0 {
            None
        } else {
            proof { lemma_update_view(self.bids@, 0); }
            Some(&mut self.bids[0])
        }
    }

    /// The best ask level, for changing it in place. The book reflects the
    /// level as the caller leaves it.
    pub fn best_ask_level_mut(&mut self) -> (r: Option<&mut PriceLevel>)
        ensures
            old(self)@.asks.len() == 0 ==> r is None && final(self)@ == old(self)@ && final(self).inv() == old(self).inv(),
            old(self)@.asks.len() > 0 ==> (r matches Some(l) && l@ == old(self)@.asks[0] && (old(self).inv() ==> l.wf())
                && final(self)@ == (BookView { asks: old(self)@.asks.update(0, final(l)@), ..old(self)@ })
                && (old(self).inv() && final(l).wf() ==> final(self).inv())),
    {
        if self.asks.len() == 0 {
            None
        } else {
            proof { lemma_update_view(self.asks@, 0); }
            Some(&mut self.asks[0])
        }
    }

    /// Best ask minus best bid, when both exist and the difference is not negative.
    pub fn spread(&self) -> (r: Option<Price>)
        ensures
            r == if self@.bids.len() == 0 || self@.asks.len() == 0 || self@.asks[0].price.0
                < self@.bids[0].price.0 {
                None
            } else {
                Some(Price((self@.asks[0].price.0 - self@.bids[0].price.0) as u128))
            },
    {
        let bid = match self.best_bid_price() {
            Some(b) => b,
            None => return None,
        };
        let ask = match self.best_ask_price() {
            Some(a) => a,
            None => return None,
        };
        ask.checked_sub(bid)
    }

    /// The average of the best bid and the best ask (rounded down), when
    /// both exist and their sum does not overflow.
    pub fn mid_price(&self) -> (r: Option<Price>)
        ensures
            r == if self@.bids.len() == 0 || self@.asks.len() == 0 || self@.bids[0].price.0
                + self@.asks[0].price.0 > u128::MAX {
                None
            } else {
                Some(Price(((self@.bids[0].price.0 + self@.asks[0].price.0) / 2) as u128))
            },
    {
        let bid = match self.best_bid_price() {
            Some(b) => b,
            None => return None,
        };
        let ask = match self.best_ask_price() {
            Some(a) => a,
            None => return None,
        };
        let sum = match bid.checked_add(ask) {
            Some(s) => s,
            None => return None,
        };
        sum.checked_div_scalar(2)
    }

    /// Finds the level of `side` at `price`.
    pub(crate) fn find_level(&self, side: OrderSide, price: Price) -> (r: Option<usize>)
        requires
            self.wf(),
        ensures
            r is Some <==> has_level(side_levels(self@, side), price),
            r matches Some(i) ==> i < side_levels(self@, side).len() && i == level_index(
                side_levels(self@, side),
                price,
            ) && side_levels(self@, side)[i as int].price == price,
    {
        let levels = match side {
            OrderSide::Buy => &self.bids,
            OrderSide::Sell => &self.asks,
        };
        let n = levels.len();
        let mut i: usize = 0;
        while i < n
            invariant
                0 <= i <= n,
                n == levels@.len(),
                self.wf(),
                levels@.map_values(|l: PriceLevel| l@) == side_levels(self@, side),
                forall|j: int| 0 <= j < i ==> side_levels(self@, side)[j].price != price,
            decreases n - i,
        {
            if levels[i].price() == price {
                proof { lemma_level_index(side_levels(self@, side), side, i as int); }
                return Some(i);
            }
            i = i + 1;
        }
        None
    }

    /// The bid level at `price`, if any.
    pub fn bid_level(&self, price: Price) -> (r: Option<&PriceLevel>)
        requires
            self.wf(),
        ensures
            r is Some <==> has_level(self@.bids, price),
            r matches Some(l) ==> l@ == self@.bids[level_index(self@.bids, price)] && l.wf(),
    {
        match self.find_level(OrderSide::Buy, price) {
            Some(i) => Some(&self.bids[i]),
            None => None,
        }
    }

    /// The ask level at `price`, if any.
    pub fn ask_level(&self, price: Price) -> (r: Option<&PriceLevel>)
        requires
            self.wf(),
        ensures
            r is Some <==> has_level(self@.asks, price),
            r matches Some(l) ==> l@ == self@.asks[level_index(self@.asks, price)] && l.wf(),
    {
        match self.find_level(OrderSide::Sell, price) {
            Some(i) => Some(&self.asks[i]),
            None => None,
        }
    }

    /// The bid level at `price`, for changing it in place. The book reflects
    /// the level as the caller leaves it.
    pub fn bid_level_mut(&mut self, price: Price) -> (r: Option<&mut PriceLevel>)
        requires
            old(self).wf(),
        ensures
            !has_level(old(self)@.bids, price) ==> r is None && final(self)@ == old(self)@ && final(self).inv(),
            has_level(old(self)@.bids, price) ==> (r matches Some(l) && l@ == old(self)@.bids[level_index(old(self)@.bids, price)] && l.wf()
                && final(self)@ == (BookView { bids: old(self)@.bids.update(level_index(old(self)@.bids, price), final(l)@), ..old(self)@ })
                && (final(l).wf() ==> final(self).inv())),
    {
        match self.find_level(OrderSide::Buy, price) {
            Some(i) => {
                proof { lemma_update_view(self.bids@, i as int); }
                Some(&mut self.bids[i])
            },
            None => None,
        }
    }

    /// The ask level at `price`, for changing it in place. The book reflects
    /// the level as the caller leaves it.
    pub fn ask_level_mut(&mut self, price: Price) -> (r: Option<&mut PriceLevel>)
        requires
            old(self).wf(),
        ensures
            !has_level(old(self)@.asks, price) ==> r is None && final(self)@ == old(self)@ && final(self).inv(),
            has_level(old(self)@.asks, price) ==> (r matches Some(l) && l@ == old(self)@.asks[level_index(old(self)@.asks, price)] && l.wf()
                && final(self)@ == (BookView { asks: old(self)@.asks.update(level_index(old(self)@.asks, price), final(l)@), ..old(self)@ })
                && (final(l).wf() ==> final(self).inv())),
    {
        match self.find_level(OrderSide::Sell, price) {
            Some(i) => {
                proof { lemma_update_view(self.asks@, i as int); }
                Some(&mut self.asks[i])
            },
            None => None,
        }
    }

    /// The level of `side` at `price`, if any.
    pub fn level(&self, side: OrderSide, price: Price) -> (r: Option<&PriceLevel>)
        requires
            self.wf(),
        ensures
            r is Some <==> has_level(side_levels(self@, side), price),
            r matches Some(l) ==> l@ == side_levels(self@, side)[level_index(side_levels(self@, side), price)]
                && l.wf(),
    {
        match side {
            OrderSide::Buy => self.bid_level(price),
            OrderSide::Sell => self.ask_level(price),
        }
    }

    /// The resting order with the given id, if any.
    pub fn get_order(&self, order_id: OrderId) -> (r: Option<&Order>)
        ensures
            r is Some <==> self@.orders.contains_key(order_id.0),
            r matches Some(o) ==> *o == self@.orders[order_id.0],
    {
        self.orders.get(&order_id.0)
    }

    /// The resting order with the given id, for changing it in place. The
    /// index reflects the order as the caller leaves it; the levels do not
    /// change.
    pub fn get_order_mut(&mut self, order_id: OrderId) -> (r: Option<&mut Order>)
        requires
            old(self).inv(),
        ensures
            final(self).inv(),
            !old(self)@.orders.contains_key(order_id.0) ==> r is None && final(self)@ == old(self)@,
            old(self)@.orders.contains_key(order_id.0) ==> (r matches Some(o) && *o == old(self)@.orders[order_id.0]
                && final(self)@ == (BookView { orders: old(self)@.orders.insert(order_id.0, *final(o)), ..old(self)@ })
                && (old(self).wf() && keeps_place(*o, *final(o)) ==> final(self).wf())),
    {
        let ghost v = self@;
        let r = index_get_mut(&mut self.orders, order_id.0);
        proof {
            if v.orders.contains_key(order_id.0) && book_view_wf(v) {
                lemma_replace_keeps_wf(v, order_id.0);
            }
        }
        r
    }

    /// Returns `true` when an order with the given id rests in the book.
    pub fn contains_order(&self, order_id: OrderId) -> (r: bool)
        ensures
            r == self@.orders.contains_key(order_id.0),
    {
        self.orders.contains_key(&order_id.0)
    }

    /// The number of levels of a side.
    pub(crate) fn level_count(&self, side: OrderSide) -> (r: usize)
        ensures
            r == side_levels(self@, side).len(),
    {
        match side {
            OrderSide::Buy => self.bids.len(),
            OrderSide::Sell => self.asks.len(),
        }
    }

    /// The level of a side at a position.
    pub(crate) fn level_at(&self, side: OrderSide, i: usize) -> (r: &PriceLevel)
        requires
            self.wf(),
            i < side_levels(self@, side).len(),
        ensures
            r@ == side_levels(self@, side)[i as int],
            r.wf(),
    {
        match side {
            OrderSide::Buy => &self.bids[i],
            OrderSide::Sell => &self.asks[i],
        }
    }

    /// The bid levels, best (highest price) first.
    pub fn bid_levels(&self) -> (r: std::slice::Iter<'_, PriceLevel>)
        requires
            self.wf(),
        ensures
            r.remaining().len() == self@.bids.len(),
            forall|i: int| 0 <= i < self@.bids.len() ==> #[trigger] r.remaining()[i]@ == self@.bids[i]
                && r.remaining()[i].wf(),
    {
        let r = self.bids.iter();
        proof {
            assert(r.remaining().len() == self@.bids.len());
        }
        r
    }

    /// The ask levels, best (lowest price) first.
    pub fn ask_levels(&self) -> (r: std::slice::Iter<'_, PriceLevel>)
        requires
            self.wf(),
        ensures
            r.remaining().len() == self@.asks.len(),
            forall|i: int| 0 <= i < self@.asks.len() ==> #[trigger] r.remaining()[i]@ == self@.asks[i]
                && r.remaining()[i].wf(),
    {
        self.asks.iter()
    }

    /// The resting orders, in no particular order.
    pub fn orders(&self) -> (r: std::collections::hash_map::Values<'_, u128, Order>)
        ensures
            r.remaining().len() == self@.orders.dom().len(),
            r.remaining().unref().to_set() == self@.orders.values(),
    {
        self.orders.values()
    }

    /// The bid levels with their prices, best (highest price) first.
    pub fn bids(&self) -> (r: Vec<(Price, &PriceLevel)>)
        requires
            self.wf(),
        ensures
            r@.len() == self@.bids.len(),
            forall|i: int| 0 <= i < self@.bids.len() ==> (#[trigger] r@[i]).0 == self@.bids[i].price
                && r@[i].1@ == self@.bids[i] && r@[i].1.wf(),
    {
        let mut out: Vec<(Price, &PriceLevel)> = Vec::new();
        let mut i: usize = 0;
        while i < self.bids.len()
            invariant
                0 <= i <= self.bids@.len(),
                self.inv(),
                out@.len() == i,
                forall|j: int| 0 <= j < i ==> (#[trigger] out@[j]).0 == self@.bids[j].price
                    && out@[j].1@ == self@.bids[j] && out@[j].1.wf(),
            decreases self.bids@.len() - i,
        {
            out.push((self.bids[i].price(), &self.bids[i]));
            i = i + 1;
        }
        out
    }

    /// The ask levels with their prices, best (lowest price) first.
    pub fn asks(&self) -> (r: Vec<(Price, &PriceLevel)>)
        requires
            self.wf(),
        ensures
            r@.len() == self@.asks.len(),
            forall|i: int| 0 <= i < self@.asks.len() ==> (#[trigger] r@[i]).0 == self@.asks[i].price
                && r@[i].1@ == self@.asks[i] && r@[i].1.wf(),
    {
        let mut out: Vec<(Price, &PriceLevel)> = Vec::new();
        let mut i: usize = 0;
        while i < self.asks.len()
            invariant
                0 <= i <= self.asks@.len(),
                self.inv(),
                out@.len() == i,
                forall|j: int| 0 <= j < i ==> (#[trigger] out@[j]).0 == self@.asks[j].price
                    && out@[j].1@ == self@.asks[j] && out@[j].1.wf(),
            decreases self.asks@.len() - i,
        {
            out.push((self.asks[i].price(), &self.asks[i]));
            i = i + 1;
        }
        out
    }

    /// The best bid price; the same as `best_bid_price`.
    pub fn best_bid(&self) -> (r: Option<Price>)
        ensures r == if self@.bids.len() == 0 { None } else { Some(self@.bids[0].price) },
    {
        self.best_bid_price()
    }

    /// The best ask price; the same as `best_ask_price`.
    pub fn best_ask(&self) -> (r: Option<Price>)
        ensures r == if self@.asks.len() == 0 { None } else { Some(self@.asks[0].price) },
    {
        self.best_ask_price()
    }

    fn side_total(&self, side: OrderSide) -> (r: Quantity)
        requires
            self.wf(),
        ensures
            r.0 == saturating_level_total(side_levels(self@, side)),
    {
        let n = self.level_count(side);
        let mut acc = Quantity::zero();
        let mut i: usize = 0;
        while i < n
            invariant
                0 <= i <= n,
                n == side_levels(self@, side).len(),
                self.wf(),
                acc.0 == saturating_level_total(side_levels(self@, side).take(i as int)),
            decreases n - i,
        {
            let level = self.level_at(side, i);
            let t = level.total_quantity();
            proof {
                assert(side_levels(self@, side).take(i as int + 1).drop_last() =~= side_levels(self@, side).take(i as int));
            }
            acc = match acc.checked_add(t) {
                Some(s) => s,
                None => acc,
            };
            i = i + 1;
        }
        assert(side_levels(self@, side).take(n as int) =~= side_levels(self@, side));
        acc
    }

    /// The total bid quantity over all levels (a level that would overflow
    /// the running sum is skipped).
    pub fn total_bid_quantity(&self) -> (r: Quantity)
        requires
            self.wf(),
        ensures
            r.0 == saturating_level_total(self@.bids),
    {
        self.side_total(OrderSide::Buy)
    }

    /// The total ask quantity over all levels (a level that would overflow
    /// the running sum is skipped).
    pub fn total_ask_quantity(&self) -> (r: Quantity)
        requires
            self.wf(),
        ensures
            r.0 == saturating_level_total(self@.asks),
    {
        self.side_total(OrderSide::Sell)
    }
}


/// The levels with the order `e` appended to the queue of the level at `i`.
pub open spec fn push_entry(levels: Seq<LevelView>, i: int, e: (OrderId, Quantity)) -> Seq<LevelView> {
    levels.update(i, LevelView { price: levels[i].price, orders: levels[i].orders.push(e) })
}

/// The levels without the first order `id` of the level at `i`; a level
/// left empty disappears.
pub open spec fn drop_entry(levels: Seq<LevelView>, i: int, id: OrderId) -> Seq<LevelView> {
    let rest = remove_id(levels[i].orders, id);
    if rest.len() == 0 {
        levels.remove(i)
    } else {
        levels.update(i, LevelView { price: levels[i].price, orders: rest })
    }
}

/// The levels with the quantity of the first order `id` of the level at `i` replaced.
pub open spec fn set_entry_qty(levels: Seq<LevelView>, i: int, id: OrderId, q: Quantity) -> Seq<LevelView> {
    levels.update(i, LevelView { price: levels[i].price, orders: set_qty(levels[i].orders, id, q) })
}

/// Position `i` splits the levels around price `p`: every level before it
/// is better than `p`, every level from it on is worse.
pub open spec fn splits_at(levels: Seq<LevelView>, i: int, p: Price, side: OrderSide) -> bool {
    &&& 0 <= i <= levels.len()
    &&& forall|j: int| 0 <= j < i ==> better(#[trigger] levels[j].price, p, side)
    &&& forall|j: int| i <= j < levels.len() ==> better(p, #[trigger] levels[j].price, side)
}

/// `a` has priority over `b` on `side`.
pub fn is_better(a: Price, b: Price, side: OrderSide) -> (r: bool)
    ensures
        r == better(a, b, side),
{
    match side {
        OrderSide::Buy => a.0 > b.0,
        OrderSide::Sell => a.0 < b.0,
    }
}

impl OrderBook {
    /// The position at which a level at `price`, which the side lacks, belongs.
    pub(crate) fn insertion_point(&self, side: OrderSide, price: Price) -> (r: usize)
        requires
            self.wf(),
            !has_level(side_levels(self@, side), price),
        ensures
            splits_at(side_levels(self@, side), r as int, price, side),
    {
        let n = self.level_count(side);
        let mut i: usize = 0;
        while i < n
            invariant
                0 <= i <= n,
                n == side_levels(self@, side).len(),
                self.wf(),
                !has_level(side_levels(self@, side), price),
                forall|j: int| 0 <= j < i ==> better(#[trigger] side_levels(self@, side)[j].price, price, side),
            decreases n - i,
        {
            let level = self.level_at(side, i);
            if !is_better(level.price(), price, side) {
                let ghost levels = side_levels(self@, side);
                proof {
                    if levels[i as int].price == price {
                        assert(has_level(levels, price));
                    }
                }
                assert forall|j: int| i <= j < levels.len() implies better(price, #[trigger] levels[j].price, side) by {
                    if j > i {
                        assert(better(levels[i as int].price, levels[j].price, side));
                    }
                }
                return i;
            }
            i = i + 1;
        }
        i
    }

    /// Appends an order at the back of the level of `side` at position `i`.
    /// Returns `false`, and changes nothing, when the level total would overflow.
    pub(crate) fn push_at_level(&mut self, side: OrderSide, i: usize, order_id: OrderId, quantity: Quantity) -> (r: bool)
        requires
            old(self).inv(),
            i < side_levels(old(self)@, side).len(),
        ensures
            final(self).inv(),
            r == (qty_sum(side_levels(old(self)@, side)[i as int].orders) + quantity.0 <= u128::MAX),
            final(self)@ == if r {
                with_side(old(self)@, side, push_entry(side_levels(old(self)@, side), i as int, (order_id, quantity)))
            } else {
                old(self)@
            },
    {
        let ghost before = self@;
        match side {
            OrderSide::Buy => {
                let r = self.bids[i].push_back(order_id, quantity);
                assert(self@.bids =~= if r { push_entry(before.bids, i as int, (order_id, quantity)) } else { before.bids });
                r
            },
            OrderSide::Sell => {
                let r = self.asks[i].push_back(order_id, quantity);
                assert(self@.asks =~= if r { push_entry(before.asks, i as int, (order_id, quantity)) } else { before.asks });
                r
            },
        }
    }

    /// Inserts at position `i` of `side` a new level at `price` holding one order.
    pub(crate) fn insert_level_at(&mut self, side: OrderSide, i: usize, price: Price, order_id: OrderId, quantity: Quantity)
        requires
            old(self).inv(),
            i <= side_levels(old(self)@, side).len(),
        ensures
            final(self).inv(),
            final(self)@ == with_side(
                old(self)@,
                side,
                side_levels(old(self)@, side).insert(i as int, LevelView { price, orders: seq![(order_id, quantity)] }),
            ),
    {
        let ghost before = self@;
        let mut level = PriceLevel::new(price);
        let pushed = level.push_back(order_id, quantity);
        assert(pushed);
        assert(level@.orders =~= seq![(order_id, quantity)]);
        match side {
            OrderSide::Buy => {
                self.bids.insert(i, level);
                assert(self@.bids =~= before.bids.insert(i as int, level@));
            },
            OrderSide::Sell => {
                self.asks.insert(i, level);
                assert(self@.asks =~= before.asks.insert(i as int, level@));
            },
        }
    }

    /// Removes the first order `order_id` from the level of `side` at
    /// position `i`, and the level too when it is left empty.
    pub(crate) fn remove_at_level(&mut self, side: OrderSide, i: usize, order_id: OrderId)
        requires
            old(self).inv(),
            i < side_levels(old(self)@, side).len(),
        ensures
            final(self).inv(),
            final(self)@ == with_side(old(self)@, side, drop_entry(side_levels(old(self)@, side), i as int, order_id)),
    {
        let ghost before = self@;
        match side {
            OrderSide::Buy => {
                self.bids[i].remove(order_id);
                if self.bids[i].is_empty() {
                    self.bids.remove(i);
                }
                assert(self@.bids =~= drop_entry(before.bids, i as int, order_id));
            },
            OrderSide::Sell => {
                self.asks[i].remove(order_id);
                if self.asks[i].is_empty() {
                    self.asks.remove(i);
                }
                assert(self@.asks =~= drop_entry(before.asks, i as int, order_id));
            },
        }
    }

    /// Replaces the quantity of the first order `order_id` of the level of
    /// `side` at position `i`, and returns the old quantity; `None`, with no
    /// change, when the level holds no such order or its total would overflow.
    pub(crate) fn set_qty_at_level(&mut self, side: OrderSide, i: usize, order_id: OrderId, quantity: Quantity) -> (r: Option<Quantity>)
        requires
            old(self).inv(),
            i < side_levels(old(self)@, side).len(),
        ensures
            final(self).inv(),
            ({
                let s = side_levels(old(self)@, side)[i as int].orders;
                if has_id(s, order_id) && qty_sum(s) - s[first_index(s, order_id)].1.0 + quantity.0 <= u128::MAX {
                    &&& r == Some(s[first_index(s, order_id)].1)
                    &&& final(self)@ == with_side(old(self)@, side, set_entry_qty(side_levels(old(self)@, side), i as int, order_id, quantity))
                } else {
                    &&& r is None
                    &&& final(self)@ == old(self)@
                }
            }),
    {
        let ghost before = self@;
        match side {
            OrderSide::Buy => {
                let r = self.bids[i].update_quantity(order_id, quantity);
                assert(self@.bids =~= if r is Some { set_entry_qty(before.bids, i as int, order_id, quantity) } else { before.bids });
                r
            },
            OrderSide::Sell => {
                let r = self.asks[i].update_quantity(order_id, quantity);
                assert(self@.asks =~= if r is Some { set_entry_qty(before.asks, i as int, order_id, quantity) } else { before.asks });
                r
            },
        }
    }

    /// Indexes `order` by its id, replacing any order with the same id.
    pub(crate) fn put_order(&mut self, order: Order)
        requires
            old(self).inv(),
        ensures
            final(self).inv(),
            final(self)@ == (BookView { orders: old(self)@.orders.insert(order.id.0, order), ..old(self)@ }),
    {
        self.orders.insert(order.id.0, order);
    }

    /// Removes the order with id `order_id` from the index and returns it.
    pub(crate) fn take_order(&mut self, order_id: OrderId) -> (r: Option<Order>)
        requires
            old(self).inv(),
        ensures
            final(self).inv(),
            r == if old(self)@.orders.contains_key(order_id.0) { Some(old(self)@.orders[order_id.0]) } else { None::<Order> },
            final(self)@ == (BookView { orders: old(self)@.orders.remove(order_id.0), ..old(self)@ }),
    {
        self.orders.remove(&order_id.0)
    }

    /// The indexed orders, in no particular order.
    pub(crate) fn order_list(&self) -> (r: Vec<Order>)
        ensures
            r@.len() == self@.orders.dom().len(),
            r@.to_set() == self@.orders.values(),
    {
        let mut out: Vec<Order> = Vec::new();
        let ghost all = spec_values_iter(&self.orders).remaining();
        let ghost mut n: int = 0;
        for o in it: self.orders.values()
            invariant
                it.seq() == all,
                n == it.index(),
                out@ == all.take(n).unref(),
        {
            out.push(*o);
            proof {
                assert(all.take(n + 1).unref() =~= all.take(n).unref().push(*all[n]));
                n = n + 1;
            }
        }
        assert(out@ =~= all.unref());
        out
    }

    /// Empties both sides and the index, and returns the indexed orders.
    pub(crate) fn take_all(&mut self) -> (r: Vec<Order>)
        requires
            old(self).inv(),
        ensures
            final(self).inv(),
            final(self)@ == (BookView {
                market_id: old(self)@.market_id,
                bids: Seq::empty(),
                asks: Seq::empty(),
                orders: Map::empty(),
            }),
            r@.len() == old(self)@.orders.dom().len(),
            r@.to_set() == old(self)@.orders.values(),
    {
        let mut out: Vec<Order> = Vec::new();
        let ghost all = spec_values_iter(&self.orders).remaining();
        let ghost mut n: int = 0;
        for o in it: self.orders.values()
            invariant
                it.seq() == all,
                n == it.index(),
                out@ == all.take(n).unref(),
        {
            out.push(*o);
            proof {
                assert(all.take(n + 1).unref() =~= all.take(n).unref().push(*all[n]));
                n = n + 1;
            }
        }
        assert(out@ =~= all.unref());
        self.bids.clear();
        self.asks.clear();
        self.orders.clear();
        assert(self@.bids =~= Seq::<LevelView>::empty());
        assert(self@.asks =~= Seq::<LevelView>::empty());
        out
    }
}

/// An order keeps its place in the book: the same id, market, side, price
/// and remaining quantity (its status and the rest may differ).
pub open spec fn keeps_place(a: Order, b: Order) -> bool {
    &&& a.id == b.id
    &&& a.market_id == b.market_id
    &&& a.side == b.side
    &&& a.price == b.price
    &&& a.remaining_quantity == b.remaining_quantity
}

/// Replacing an indexed order by one that keeps its place keeps a book consistent.
proof fn lemma_replace_keeps_wf(v: BookView, k: u128)
    requires
        book_view_wf(v),
        v.orders.contains_key(k),
    ensures
        forall|o2: Order|
            keeps_place(v.orders[k], o2) ==> #[trigger] book_view_wf(BookView { orders: v.orders.insert(k, o2), ..v }),
{
    assert forall|o2: Order| keeps_place(v.orders[k], o2) implies #[trigger] book_view_wf(
        BookView { orders: v.orders.insert(k, o2), ..v },
    ) by {
        let w = BookView { orders: v.orders.insert(k, o2), ..v };
        assert forall|t: OrderSide| side_ok(w, t) by {
            assert(side_ok(v, t));
            let l = side_levels(v, t);
            assert(side_levels(w, t) == l);
            assert forall|i: int| 0 <= i < l.len() implies level_ok(w, t, #[trigger] l[i]) by {
                assert(level_ok(v, t, l[i]));
                assert forall|j: int| 0 <= j < l[i].orders.len() implies entry_ok(w, t, l[i].price, #[trigger] l[i].orders[j]) by {
                    assert(entry_ok(v, t, l[i].price, l[i].orders[j]));
                }
            }
        }
        assert(side_ok(w, OrderSide::Buy));
        assert(side_ok(w, OrderSide::Sell));
        assert forall|x: u128| #[trigger] w.orders.contains_key(x) implies {
            &&& w.orders[x].id.0 == x
            &&& w.orders[x].market_id == w.market_id
            &&& located(w, w.orders[x])
        } by {
            assert(v.orders.contains_key(x));
            assert(located(v, v.orders[x]));
        }
    }
}

} // verus!
