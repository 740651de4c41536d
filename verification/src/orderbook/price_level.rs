//! A price level: the FIFO queue of resting orders at one price.
use std::collections::VecDeque;

use vstd::prelude::*;
use vstd::std_specs::iter::IteratorSpec;

use crate::types::ids::OrderId;
use crate::types::primitives::{Price, Quantity};

verus! {

/// The abstract content of a price level: its price and its orders with
/// their quantities, oldest first.
pub ghost struct LevelView {
    /// The price of every order at this level.
    pub price: Price,
    /// The orders, front (oldest) to back (newest).
    pub orders: Seq<(OrderId, Quantity)>,
}

/// The sum of the quantities of a queue.
pub open spec fn qty_sum(s: Seq<(OrderId, Quantity)>) -> int
    decreases s.len(),
{
    if s.len() == 0 {
        0
    } else {
        qty_sum(s.drop_last()) + s.last().1.0
    }
}

/// The sum over a concatenation is the sum of the sums.
pub proof fn lemma_qty_sum_concat(a: Seq<(OrderId, Quantity)>, b: Seq<(OrderId, Quantity)>)
    ensures
        qty_sum(a + b) == qty_sum(a) + qty_sum(b),
    decreases b.len(),
{
    if b.len() == 0 {
        assert(a + b =~= a);
    } else {
        lemma_qty_sum_concat(a, b.drop_last());
        assert((a + b).drop_last() =~= a + b.drop_last());
    }
}

/// Sums are never negative.
pub proof fn lemma_qty_sum_nonneg(s: Seq<(OrderId, Quantity)>)
    ensures
        qty_sum(s) >= 0,
    decreases s.len(),
{
    if s.len() > 0 {
        lemma_qty_sum_nonneg(s.drop_last());
    }
}

/// The sum splits around any position.
pub proof fn lemma_qty_sum_at(s: Seq<(OrderId, Quantity)>, i: int)
    requires
        0 <= i < s.len(),
    ensures
        qty_sum(s) == qty_sum(s.take(i)) + s[i].1.0 + qty_sum(s.skip(i + 1)),
        qty_sum(s.remove(i)) == qty_sum(s) - s[i].1.0,
        qty_sum(s) >= s[i].1.0,
{
    assert(s =~= s.take(i) + (seq![s[i]] + s.skip(i + 1)));
    lemma_qty_sum_concat(s.take(i), seq![s[i]] + s.skip(i + 1));
    lemma_qty_sum_concat(seq![s[i]], s.skip(i + 1));
    assert(qty_sum(seq![s[i]]) == s[i].1.0) by {
        reveal_with_fuel(qty_sum, 2);
        assert(seq![s[i]].drop_last() =~= Seq::<(OrderId, Quantity)>::empty());
    }
    assert(s.remove(i) =~= s.take(i) + s.skip(i + 1));
    lemma_qty_sum_concat(s.take(i), s.skip(i + 1));
    lemma_qty_sum_nonneg(s.take(i));
    lemma_qty_sum_nonneg(s.skip(i + 1));
}

/// Replacing one entry changes the sum by the difference of the quantities.
pub proof fn lemma_qty_sum_update(s: Seq<(OrderId, Quantity)>, i: int, e: (OrderId, Quantity))
    requires
        0 <= i < s.len(),
    ensures
        qty_sum(s.update(i, e)) == qty_sum(s) - s[i].1.0 + e.1.0,
{
    lemma_qty_sum_at(s, i);
    lemma_qty_sum_at(s.update(i, e), i);
    assert(s.update(i, e).take(i) =~= s.take(i));
    assert(s.update(i, e).skip(i + 1) =~= s.skip(i + 1));
}

/// `true` when some order of the queue has id `id`.
pub open spec fn has_id(s: Seq<(OrderId, Quantity)>, id: OrderId) -> bool {
    exists|k: int| 0 <= k < s.len() && s[k].0 == id
}

/// The position of the first order with id `id`.
pub open spec fn first_index(s: Seq<(OrderId, Quantity)>, id: OrderId) -> int {
    choose|k: int| 0 <= k < s.len() && s[k].0 == id && (forall|j: int| 0 <= j < k ==> s[j].0 != id)
}

/// A first position is unique.
pub proof fn lemma_first_index(s: Seq<(OrderId, Quantity)>, id: OrderId, k: int)
    requires
        0 <= k < s.len(),
        s[k].0 == id,
        forall|j: int| 0 <= j < k ==> s[j].0 != id,
    ensures
        first_index(s, id) == k,
        has_id(s, id),
{
    let f = first_index(s, id);
    assert(0 <= f < s.len() && s[f].0 == id && (forall|j: int| 0 <= j < f ==> s[j].0 != id));
    if f < k {
        assert(s[f].0 != id);
    } else if k < f {
        assert(s[k].0 != id);
    }
}

/// When an id occurs, its first position exists: it holds the id and no
/// earlier position does.
pub proof fn lemma_first_index_exists(s: Seq<(OrderId, Quantity)>, id: OrderId)
    requires
        has_id(s, id),
    ensures
        0 <= first_index(s, id) < s.len(),
        s[first_index(s, id)].0 == id,
        forall|j: int| 0 <= j < first_index(s, id) ==> s[j].0 != id,
    decreases s.len(),
{
    if s[0].0 == id {
        lemma_first_index(s, id, 0);
    } else {
        let t = s.drop_first();
        let k = choose|k: int| 0 <= k < s.len() && s[k].0 == id;
        assert(t[k - 1].0 == id);
        lemma_first_index_exists(t, id);
        let f = first_index(t, id);
        assert forall|j: int| 0 <= j < f + 1 implies s[j].0 != id by {
            if j > 0 {
                assert(s[j] == t[j - 1]);
            }
        }
        lemma_first_index(s, id, f + 1);
    }
}

/// The queue without the first order with id `id` (unchanged if there is none).
pub open spec fn remove_id(s: Seq<(OrderId, Quantity)>, id: OrderId) -> Seq<(OrderId, Quantity)> {
    if has_id(s, id) {
        s.remove(first_index(s, id))
    } else {
        s
    }
}

/// The queue with the quantity of the first order with id `id` replaced.
pub open spec fn set_qty(s: Seq<(OrderId, Quantity)>, id: OrderId, q: Quantity) -> Seq<(OrderId, Quantity)> {
    if has_id(s, id) {
        s.update(first_index(s, id), (id, q))
    } else {
        s
    }
}

/// All orders at one price, oldest first, with their quantities and their total.
#[derive(Debug, Clone, PartialEq, Eq)]
pub struct PriceLevel {
    price: Price,
    order_ids: VecDeque<OrderId>,
    quantities: VecDeque<Quantity>,
    total_quantity: Quantity,
}

impl View for PriceLevel {
    type V = LevelView;

    closed spec fn view(&self) -> LevelView {
        LevelView {
            price: self.price,
            orders: Seq::new(
                self.order_ids@.len(),
                |i: int| (self.order_ids@[i], self.quantities@[i]),
            ),
        }
    }
}

impl PriceLevel {
    /// Internal consistency: one quantity per order and a total that is the sum.
    pub closed spec fn wf(&self) -> bool {
        &&& self.order_ids@.len() == self.quantities@.len()
        &&& self.total_quantity.0 == qty_sum(self@.orders)
    }

    /// An empty level at `price`.
    pub fn new(price: Price) -> (r: PriceLevel)
        ensures
            r.wf(),
            r@ == (LevelView { price, orders: Seq::empty() }),
    {
        let r = PriceLevel {
            price,
            order_ids: VecDeque::new(),
            quantities: VecDeque::new(),
            total_quantity: Quantity::zero(),
        };
        assert(r@.orders =~= Seq::<(OrderId, Quantity)>::empty());
        r
    }

    /// An empty level at `price` with room for `capacity` orders.
    pub fn with_capacity(price: Price, capacity: usize) -> (r: PriceLevel)
        ensures
            r.wf(),
            r@ == (LevelView { price, orders: Seq::empty() }),
    {
        let r = PriceLevel {
            price,
            order_ids: VecDeque::with_capacity(capacity),
            quantities: VecDeque::with_capacity(capacity),
            total_quantity: Quantity::zero(),
        };
        assert(r@.orders =~= Seq::<(OrderId, Quantity)>::empty());
        r
    }

    /// The price of the level.
    pub fn price(&self) -> (r: Price)
        ensures r == self@.price,
    {
        self.price
    }

    /// The sum of the quantities at the level.
    pub fn total_quantity(&self) -> (r: Quantity)
        requires
            self.wf(),
        ensures
            r.0 == qty_sum(self@.orders),
    {
        self.total_quantity
    }

    /// The number of orders at the level.
    pub fn order_count(&self) -> (r: usize)
        requires
            self.wf(),
        ensures
            r == self@.orders.len(),
    {
        self.order_ids.len()
    }

    /// Returns `true` when no order rests at the level.
    pub fn is_empty(&self) -> (r: bool)
        requires
            self.wf(),
        ensures
            r == (self@.orders.len() == 0),
    {
        self.order_ids.len() == 0
    }

    /// Appends an order at the back. Returns `false`, and changes nothing,
    /// when the total would overflow.
    pub fn push_back(&mut self, order_id: OrderId, quantity: Quantity) -> (r: bool)
        requires
            old(self).wf(),
        ensures
            final(self).wf(),
            r == (qty_sum(old(self)@.orders) + quantity.0 <= u128::MAX),
            final(self)@ == if r {
                LevelView { price: old(self)@.price, orders: old(self)@.orders.push((order_id, quantity)) }
            } else {
                old(self)@
            },
    {
        match self.total_quantity.checked_add(quantity) {
            Some(new_total) => {
                let ghost before = self@.orders;
                self.order_ids.push_back(order_id);
                self.quantities.push_back(quantity);
                self.total_quantity = new_total;
                assert(self@.orders =~= before.push((order_id, quantity)));
                assert(self@.orders.drop_last() =~= before);
                true
            },
            None => false,
        }
    }

    /// Removes and returns the oldest order; `None` when the level is empty.
    pub fn pop_front(&mut self) -> (r: Option<(OrderId, Quantity)>)
        requires
            old(self).wf(),
        ensures
            final(self).wf(),
            old(self)@.orders.len() == 0 ==> r is None && final(self)@ == old(self)@,
            old(self)@.orders.len() > 0 ==> r == Some(old(self)@.orders[0]) && final(self)@ == (
            LevelView { price: old(self)@.price, orders: old(self)@.orders.drop_first() }),
    {
        if self.order_ids.len() == 0 {
            return None;
        }
        let ghost before = self@.orders;
        proof { lemma_qty_sum_at(before, 0); }
        let order_id = self.order_ids.pop_front().unwrap();
        let quantity = self.quantities.pop_front().unwrap();
        self.total_quantity = Quantity(self.total_quantity.0 - quantity.0);
        assert(self@.orders =~= before.drop_first());
        assert(before.remove(0) =~= before.drop_first());
        Some((order_id, quantity))
    }

    /// The oldest order, without removing it.
    pub fn front(&self) -> (r: Option<(OrderId, Quantity)>)
        requires
            self.wf(),
        ensures
            r == if self@.orders.len() == 0 { None } else { Some(self@.orders[0]) },
    {
        if self.order_ids.len() == 0 {
            return None;
        }
        Some((self.order_ids[0], self.quantities[0]))
    }

    fn position(&self, order_id: OrderId) -> (r: Option<usize>)
        requires
            self.wf(),
        ensures
            r is None ==> !has_id(self@.orders, order_id),
            r matches Some(k) ==> k < self@.orders.len() && k == first_index(self@.orders, order_id)
                && has_id(self@.orders, order_id) && self@.orders[k as int].0 == order_id,
    {
        let n = self.order_ids.len();
        let mut i: usize = 0;
        while i < n
            invariant
                0 <= i <= n,
                n == self@.orders.len(),
                self.wf(),
                forall|j: int| 0 <= j < i ==> self@.orders[j].0 != order_id,
            decreases n - i,
        {
            if self.order_ids[i] == order_id {
                proof { lemma_first_index(self@.orders, order_id, i as int); }
                return Some(i);
            }
            i = i + 1;
        }
        None
    }

    /// Removes the first order with the given id and returns its quantity;
    /// `None` (and no change) when the level holds no such order.
    #[verifier::rlimit(40)]
    pub fn remove(&mut self, order_id: OrderId) -> (r: Option<Quantity>)
        requires
            old(self).wf(),
        ensures
            final(self).wf(),
            final(self)@ == (LevelView { price: old(self)@.price, orders: remove_id(old(self)@.orders, order_id) }),
            r == if has_id(old(self)@.orders, order_id) {
                Some(old(self)@.orders[first_index(old(self)@.orders, order_id)].1)
            } else {
                None::<Quantity>
            },
    {
        let index = match self.position(order_id) {
            Some(i) => i,
            None => {
                assert(self@.orders =~= remove_id(self@.orders, order_id));
                return None;
            },
        };
        let ghost before = self@.orders;
        proof { lemma_qty_sum_at(before, index as int); }
        self.order_ids.remove(index);
        let quantity = self.quantities.remove(index).unwrap();
        self.total_quantity = Quantity(self.total_quantity.0 - quantity.0);
        assert(self@.orders =~= before.remove(index as int));
        Some(quantity)
    }

    /// Replaces the quantity of the first order with the given id and returns
    /// the old quantity. Returns `None`, and changes nothing, when the order is
    /// absent or the new total would overflow.
    #[verifier::rlimit(60)]
    pub fn update_quantity(&mut self, order_id: OrderId, new_quantity: Quantity) -> (r: Option<Quantity>)
        requires
            old(self).wf(),
        ensures
            final(self).wf(),
            ({
                let s = old(self)@.orders;
                if has_id(s, order_id) && qty_sum(s) - s[first_index(s, order_id)].1.0 + new_quantity.0
                    <= u128::MAX {
                    &&& r == Some(s[first_index(s, order_id)].1)
                    &&& final(self)@ == (LevelView { price: old(self)@.price, orders: set_qty(s, order_id, new_quantity) })
                } else {
                    &&& r is None
                    &&& final(self)@ == old(self)@
                }
            }),
    {
        let index = match self.position(order_id) {
            Some(i) => i,
            None => return None,
        };
        let ghost before = self@.orders;
        let old_quantity = self.quantities[index];
        assert(before[index as int].1 == old_quantity);
        assert(qty_sum(before) >= old_quantity.0) by {
            lemma_qty_sum_at(before, index as int);
        }
        let rest = Quantity(self.total_quantity.0 - old_quantity.0);
        match rest.checked_add(new_quantity) {
            Some(new_total) => {
                let ghost before_q = self.quantities@;
                self.quantities.remove(index);
                self.quantities.insert(index, new_quantity);
                assert(self.quantities@ =~= before_q.update(index as int, new_quantity));
                self.total_quantity = new_total;
                assert(self@.orders =~= before.update(index as int, (order_id, new_quantity)));
                assert(qty_sum(self@.orders) == new_total.0) by {
                    lemma_qty_sum_update(before, index as int, (order_id, new_quantity));
                }
                Some(old_quantity)
            },
            None => None,
        }
    }

    /// The order ids, oldest first.
    pub fn order_ids(&self) -> (r: std::vec::IntoIter<OrderId>)
        requires
            self.wf(),
        ensures
            r.remaining() == self@.orders.map_values(|e: (OrderId, Quantity)| e.0),
    {
        let mut out: Vec<OrderId> = Vec::new();
        let n = self.order_ids.len();
        let mut i: usize = 0;
        while i < n
            invariant
                0 <= i <= n,
                n == self@.orders.len(),
                self.wf(),
                out@ =~= self@.orders.take(i as int).map_values(|e: (OrderId, Quantity)| e.0),
            decreases n - i,
        {
            out.push(self.order_ids[i]);
            i = i + 1;
        }
        assert(self@.orders.take(n as int) =~= self@.orders);
        out.into_iter()
    }

    /// The orders with their quantities, oldest first.
    pub fn orders(&self) -> (r: std::vec::IntoIter<(OrderId, Quantity)>)
        requires
            self.wf(),
        ensures
            r.remaining() == self@.orders,
    {
        let out = self.order_vec();
        out.into_iter()
    }

    /// The orders with their quantities, oldest first, as a vector.
    pub fn order_vec(&self) -> (r: Vec<(OrderId, Quantity)>)
        requires
            self.wf(),
        ensures
            r@ == self@.orders,
    {
        let mut out: Vec<(OrderId, Quantity)> = Vec::new();
        let n = self.order_ids.len();
        let mut i: usize = 0;
        while i < n
            invariant
                0 <= i <= n,
                n == self@.orders.len(),
                self.wf(),
                out@ =~= self@.orders.take(i as int),
            decreases n - i,
        {
            out.push((self.order_ids[i], self.quantities[i]));
            i = i + 1;
        }
        out
    }

    /// Returns `true` when an order with the given id rests at the level.
    pub fn contains(&self, order_id: OrderId) -> (r: bool)
        requires
            self.wf(),
        ensures
            r == has_id(self@.orders, order_id),
    {
        self.position(order_id).is_some()
    }

    /// The quantity of the first order with the given id, if any.
    pub fn get_quantity(&self, order_id: OrderId) -> (r: Option<Quantity>)
        requires
            self.wf(),
        ensures
            r == if has_id(self@.orders, order_id) {
                Some(self@.orders[first_index(self@.orders, order_id)].1)
            } else {
                None::<Quantity>
            },
    {
        match self.position(order_id) {
            Some(i) => Some(self.quantities[i]),
            None => None,
        }
    }
}

} // verus!
