//! The interactive session: its state, the commands a user types, and how
//! prices and quantities are shown.
use vstd::prelude::*;
use vstd::string::*;

use crate::matching::engine::MatchingEngine;
use crate::matching::result::{CancelResult, MatchFill, MatchResult};
use crate::orderbook::book::{BookView, OrderBook};
use crate::types::ids::{pack_id, Address, MarketId, OrderId};
use crate::types::order::{Order, OrderSide, TimeInForce};
use crate::types::primitives::{Nonce, Price, Quantity, Timestamp, SCALE};
use crate::types::text::{decimal, padded, push_decimal, push_padded};

verus! {

/// The text of an amount with up to four decimals: the whole part alone
/// when there is no fraction, otherwise the whole part, a point and the
/// first four decimals.
pub open spec fn short_amount(v: nat) -> Seq<char> {
    let whole = v / (SCALE as nat);
    let frac = v % (SCALE as nat);
    if frac == 0 {
        decimal(whole)
    } else {
        decimal(whole) + seq!['.'] + padded(frac / 100_000_000_000_000, 4)
    }
}

fn format_amount(v: u128) -> (r: String)
    ensures
        r@ == short_amount(v as nat),
{
    let whole = v / SCALE;
    let frac = v % SCALE;
    let mut s = String::new();
    push_decimal(&mut s, whole);
    if frac != 0 {
        proof { reveal_strlit("."); }
        s.append(".");
        push_padded(&mut s, frac / 100_000_000_000_000, 4);
    }
    assert(s@ =~= short_amount(v as nat));
    s
}

/// A price with up to four decimals, such as `"100"` or `"100.5000"`.
pub fn format_price(price: Price) -> (r: String)
    ensures
        r@ == short_amount(price.0 as nat),
{
    format_amount(price.as_scaled())
}

/// A quantity with up to four decimals, such as `"10"` or `"0.2500"`.
pub fn format_quantity(qty: Quantity) -> (r: String)
    ensures
        r@ == short_amount(qty.0 as nat),
{
    format_amount(qty.as_scaled())
}

/// The last `n` elements of `s` (all of them when there are fewer).
pub open spec fn keep_last<A>(s: Seq<A>, n: nat) -> Seq<A> {
    if s.len() > n {
        s.skip(s.len() - n)
    } else {
        s
    }
}

/// The state of an interactive session: one book, the engine, counters for
/// order numbers and nonces, the user, and the recent trades.
pub struct DemoState {
    /// The order book of the session's market.
    pub book: OrderBook,
    /// The matching engine.
    pub engine: MatchingEngine,
    /// The sequence number of the next order.
    pub next_seq: u64,
    /// The next nonce.
    pub next_nonce: u64,
    /// The session's market.
    pub market_id: MarketId,
    /// The user placing orders.
    pub user_address: Address,
    /// The most recent fills, oldest first.
    pub recent_trades: Vec<MatchFill>,
    /// How many fills are kept.
    pub max_trade_history: usize,
}

impl DemoState {
    /// The book is consistent and belongs to the session's market.
    pub open spec fn wf(&self) -> bool {
        &&& self.book.wf()
        &&& self.book@.market_id == self.market_id
    }

    /// A fresh session on market 1 for the user whose address bytes are all
    /// `0xDE`, keeping the last 100 fills.
    pub fn new() -> (r: DemoState)
        ensures
            r.wf(),
            r.book@ == (BookView { market_id: MarketId(1), bids: Seq::empty(), asks: Seq::empty(), orders: Map::empty() }),
            r.next_seq == 1,
            r.next_nonce == 1,
            r.market_id == MarketId(1),
            r.user_address.0@ == Seq::new(20, |i: int| 0xDEu8),
            r.recent_trades@ == Seq::<MatchFill>::empty(),
            r.max_trade_history == 100,
    {
        let market_id = MarketId::new(1);
        let user_address = Address::new([0xDEu8; 20]);
        assert(user_address.0@ =~= Seq::new(20, |i: int| 0xDEu8));
        DemoState {
            book: OrderBook::new(market_id),
            engine: MatchingEngine::new(),
            next_seq: 1,
            next_nonce: 1,
            market_id,
            user_address,
            recent_trades: Vec::new(),
            max_trade_history: 100,
        }
    }

    /// The id of the next order; the sequence number advances.
    pub fn next_order_id(&mut self) -> (r: OrderId)
        requires
            old(self).next_seq < u64::MAX,
        ensures
            r.0 == pack_id(old(self).market_id.0, old(self).next_seq),
            final(self).next_seq == old(self).next_seq + 1,
            final(self).book == old(self).book,
            final(self).next_nonce == old(self).next_nonce,
            final(self).market_id == old(self).market_id,
            final(self).user_address == old(self).user_address,
            final(self).recent_trades@ == old(self).recent_trades@,
            final(self).max_trade_history == old(self).max_trade_history,
    {
        let id = OrderId::new(self.market_id, self.next_seq);
        self.next_seq = self.next_seq + 1;
        id
    }

    /// The next nonce; the counter advances.
    pub fn next_nonce(&mut self) -> (r: Nonce)
        requires
            old(self).next_nonce < u64::MAX,
        ensures
            r.0 == old(self).next_nonce,
            final(self).next_nonce == old(self).next_nonce + 1,
            final(self).book == old(self).book,
            final(self).next_seq == old(self).next_seq,
            final(self).market_id == old(self).market_id,
            final(self).user_address == old(self).user_address,
            final(self).recent_trades@ == old(self).recent_trades@,
            final(self).max_trade_history == old(self).max_trade_history,
    {
        let n = Nonce::new(self.next_nonce);
        self.next_nonce = self.next_nonce + 1;
        n
    }

    /// The session's clock: a thousand milliseconds per nonce issued.
    pub fn now(&self) -> (r: Timestamp)
        requires
            self.next_nonce * 1000 <= u64::MAX,
        ensures
            r.0 == self.next_nonce * 1000,
    {
        Timestamp::from_millis(self.next_nonce * 1000)
    }

    /// Appends fills to the recent trades, keeping only the most recent ones.
    pub fn record_fills(&mut self, fills: &[MatchFill])
        ensures
            final(self).recent_trades@ == keep_last(
                old(self).recent_trades@ + fills@,
                old(self).max_trade_history as nat,
            ),
            final(self).book == old(self).book,
            final(self).next_seq == old(self).next_seq,
            final(self).next_nonce == old(self).next_nonce,
            final(self).market_id == old(self).market_id,
            final(self).user_address == old(self).user_address,
            final(self).max_trade_history == old(self).max_trade_history,
    {
        let ghost all = self.recent_trades@ + fills@;
        let mut i: usize = 0;
        while i < fills.len()
            invariant
                0 <= i <= fills@.len(),
                all == old(self).recent_trades@ + fills@,
                self.recent_trades@ == old(self).recent_trades@ + fills@.take(i as int),
                self.book == old(self).book,
                self.next_seq == old(self).next_seq,
                self.next_nonce == old(self).next_nonce,
                self.market_id == old(self).market_id,
                self.user_address == old(self).user_address,
                self.max_trade_history == old(self).max_trade_history,
            decreases fills@.len() - i,
        {
            self.recent_trades.push(fills[i]);
            assert(fills@.take(i as int + 1) =~= fills@.take(i as int).push(fills@[i as int]));
            i = i + 1;
        }
        assert(fills@.take(fills@.len() as int) =~= fills@);
        let ghost mut dropped: int = 0;
        while self.recent_trades.len() > self.max_trade_history
            invariant
                0 <= dropped <= all.len(),
                self.recent_trades@ == all.skip(dropped),
                dropped > 0 ==> all.len() - dropped >= self.max_trade_history,
                self.book == old(self).book,
                self.next_seq == old(self).next_seq,
                self.next_nonce == old(self).next_nonce,
                self.market_id == old(self).market_id,
                self.user_address == old(self).user_address,
                self.max_trade_history == old(self).max_trade_history,
            decreases self.recent_trades@.len(),
        {
            self.recent_trades.remove(0);
            proof {
                assert(all.skip(dropped + 1) =~= all.skip(dropped).drop_first());
                dropped = dropped + 1;
            }
        }
        assert(self.recent_trades@ =~= keep_last(all, self.max_trade_history as nat));
    }

    /// Places a limit order of the session's user: whole `price`, whole
    /// `quantity`, the next order id and nonce, and the session's clock.
    /// Returns the order and what placing it gave; fills are recorded.
    pub fn place_limit(&mut self, side: OrderSide, price: u64, quantity: u64, time_in_force: TimeInForce) -> (r: (
        Order,
        MatchResult,
    ))
        requires
            old(self).wf(),
            old(self).next_seq < u64::MAX,
            old(self).next_nonce < u64::MAX,
            (old(self).next_nonce + 1) * 1000 <= u64::MAX,
        ensures
            final(self).wf(),
            r.0 == (Order {
                id: OrderId(pack_id(old(self).market_id.0, old(self).next_seq) as u128),
                market_id: old(self).market_id,
                owner: old(self).user_address,
                side,
                order_type: crate::types::order::OrderType::Limit,
                time_in_force,
                price: Price((price * SCALE) as u128),
                quantity: Quantity((quantity * SCALE) as u128),
                remaining_quantity: Quantity((quantity * SCALE) as u128),
                status: crate::types::order::OrderStatus::Open,
                nonce: Nonce(old(self).next_nonce),
                created_at: Timestamp(((old(self).next_nonce + 1) * 1000) as u64),
            }),
            crate::matching::engine::result_is(r.1, crate::matching::engine::place_spec(old(self).book@, r.0).0),
            final(self).book@ == crate::matching::engine::place_spec(old(self).book@, r.0).1,
            final(self).next_seq == old(self).next_seq + 1,
            final(self).next_nonce == old(self).next_nonce + 1,
            final(self).recent_trades@ == (match r.1 {
                Ok(rep) => keep_last(old(self).recent_trades@ + rep.fills@, old(self).max_trade_history as nat),
                Err(_) => old(self).recent_trades@,
            }),
            final(self).market_id == old(self).market_id,
            final(self).user_address == old(self).user_address,
            final(self).max_trade_history == old(self).max_trade_history,
    {
        let order_id = self.next_order_id();
        let nonce = self.next_nonce();
        let now = self.now();
        let order = Order::new_limit(
            order_id,
            self.market_id,
            self.user_address,
            side,
            time_in_force,
            Price::from_whole(price),
            Quantity::from_whole(quantity),
            nonce,
            now,
        );
        let ghost before = self.book@;
        let result = self.engine.place_order(&mut self.book, order);
        proof { crate::matching::engine::lemma_place_keeps_market(before, order); }
        if let Ok(report) = &result {
            self.record_fills(report.fills.as_slice());
        }
        (order, result)
    }

    /// Places a market order of the session's user for whole `quantity`,
    /// with the next order id and nonce and the session's clock. Returns the
    /// order and what placing it gave; fills are recorded.
    pub fn place_market(&mut self, side: OrderSide, quantity: u64) -> (r: (Order, MatchResult))
        requires
            old(self).wf(),
            old(self).next_seq < u64::MAX,
            old(self).next_nonce < u64::MAX,
            (old(self).next_nonce + 1) * 1000 <= u64::MAX,
        ensures
            final(self).wf(),
            r.0 == (Order {
                id: OrderId(pack_id(old(self).market_id.0, old(self).next_seq) as u128),
                market_id: old(self).market_id,
                owner: old(self).user_address,
                side,
                order_type: crate::types::order::OrderType::Market,
                time_in_force: TimeInForce::ImmediateOrCancel,
                price: Price(0),
                quantity: Quantity((quantity * SCALE) as u128),
                remaining_quantity: Quantity((quantity * SCALE) as u128),
                status: crate::types::order::OrderStatus::Open,
                nonce: Nonce(old(self).next_nonce),
                created_at: Timestamp(((old(self).next_nonce + 1) * 1000) as u64),
            }),
            crate::matching::engine::result_is(r.1, crate::matching::engine::place_spec(old(self).book@, r.0).0),
            final(self).book@ == crate::matching::engine::place_spec(old(self).book@, r.0).1,
            final(self).next_seq == old(self).next_seq + 1,
            final(self).next_nonce == old(self).next_nonce + 1,
            final(self).recent_trades@ == (match r.1 {
                Ok(rep) => keep_last(old(self).recent_trades@ + rep.fills@, old(self).max_trade_history as nat),
                Err(_) => old(self).recent_trades@,
            }),
            final(self).market_id == old(self).market_id,
            final(self).user_address == old(self).user_address,
            final(self).max_trade_history == old(self).max_trade_history,
    {
        let order_id = self.next_order_id();
        let nonce = self.next_nonce();
        let now = self.now();
        let order = Order::new_market(
            order_id,
            self.market_id,
            self.user_address,
            side,
            Quantity::from_whole(quantity),
            nonce,
            now,
        );
        let ghost before = self.book@;
        let result = self.engine.place_order(&mut self.book, order);
        proof { crate::matching::engine::lemma_place_keeps_market(before, order); }
        if let Ok(report) = &result {
            self.record_fills(report.fills.as_slice());
        }
        (order, result)
    }

    /// Cancels the session's order with sequence number `sequence`.
    pub fn cancel(&mut self, sequence: u64) -> (r: CancelResult)
        requires
            old(self).wf(),
        ensures
            final(self).wf(),
            final(self).next_seq == old(self).next_seq,
            final(self).next_nonce == old(self).next_nonce,
            final(self).recent_trades@ == old(self).recent_trades@,
            final(self).market_id == old(self).market_id,
            final(self).user_address == old(self).user_address,
            final(self).max_trade_history == old(self).max_trade_history,
            r == crate::matching::engine::cancel_spec(old(self).book@, OrderId(pack_id(old(self).market_id.0, sequence) as u128)).0,
            final(self).book@ == crate::matching::engine::cancel_spec(
                old(self).book@,
                OrderId(pack_id(old(self).market_id.0, sequence) as u128),
            ).1,
    {
        let order_id = OrderId::new(self.market_id, sequence);
        let r = self.engine.cancel_order(&mut self.book, order_id);
        proof { crate::orderbook::ops::lemma_remove_market(old(self).book@, order_id); }
        r
    }
}

/// The sequence number of an order: the lower 64 bits of its id.
pub open spec fn sequence_of(o: Order) -> int {
    o.id.0 as int % crate::types::ids::two_pow_64()
}

/// The resting orders of a book sorted by sequence number (oldest first).
pub fn orders_by_sequence(book: &OrderBook) -> (r: Vec<Order>)
    ensures
        r@.len() == book@.orders.dom().len(),
        r@.to_set() == book@.orders.values(),
        forall|a: int, b: int| 0 <= a < b < r@.len() ==> sequence_of(#[trigger] r@[a]) <= sequence_of(#[trigger] r@[b]),
{
    let input = book.order_list();
    let mut out: Vec<Order> = Vec::new();
    let mut k: usize = 0;
    while k < input.len()
        invariant
            0 <= k <= input@.len(),
            out@.len() == k,
            forall|x: Order| out@.contains(x) <==> input@.take(k as int).contains(x),
            forall|a: int, b: int| 0 <= a < b < out@.len() ==> sequence_of(#[trigger] out@[a]) <= sequence_of(#[trigger] out@[b]),
        decreases input@.len() - k,
    {
        let o = input[k];
        let key = o.id.sequence();
        let mut p: usize = 0;
        while p < out.len() && out[p].id.sequence() <= key
            invariant
                0 <= p <= out@.len(),
                forall|a: int| 0 <= a < p ==> sequence_of(#[trigger] out@[a]) <= key,
                key == sequence_of(o),
            decreases out@.len() - p,
        {
            p = p + 1;
        }
        let ghost before = out@;
        out.insert(p, o);
        proof {
            assert(input@.take(k as int + 1) =~= input@.take(k as int).push(o));
            assert forall|x: Order| out@.contains(x) <==> input@.take(k as int + 1).contains(x) by {
                let t0 = input@.take(k as int);
                let t1 = input@.take(k as int + 1);
                if out@.contains(x) {
                    let i = choose|i: int| 0 <= i < out@.len() && out@[i] == x;
                    if i == p {
                        assert(t1[k as int] == o);
                    } else {
                        if i < p {
                            assert(before[i] == x);
                        } else {
                            assert(before[i - 1] == x);
                        }
                        assert(before.contains(x));
                        assert(t0.contains(x));
                        let j = choose|j: int| 0 <= j < t0.len() && t0[j] == x;
                        assert(t1[j] == x);
                    }
                }
                if input@.take(k as int + 1).contains(x) {
                    if x == o {
                        assert(out@[p as int] == o);
                    } else {
                        assert(input@.take(k as int).contains(x));
                        assert(before.contains(x));
                        let i = choose|i: int| 0 <= i < before.len() && before[i] == x;
                        if i < p {
                            assert(out@[i] == x);
                        } else {
                            assert(out@[i + 1] == x);
                        }
                    }
                }
            }
            assert forall|a: int, b: int| 0 <= a < b < out@.len() implies sequence_of(#[trigger] out@[a]) <= sequence_of(
                #[trigger] out@[b],
            ) by {
                if a < p && b < p {
                    assert(out@[a] == before[a] && out@[b] == before[b]);
                } else if a < p && b == p {
                    assert(out@[a] == before[a]);
                } else if a < p {
                    assert(out@[a] == before[a] && out@[b] == before[b - 1]);
                } else if a == p {
                    assert(out@[b] == before[b - 1]);
                    assert(sequence_of(before[p as int]) > key);
                    if b - 1 > p {
                        assert(sequence_of(before[p as int]) <= sequence_of(before[b - 1]));
                    }
                } else {
                    assert(out@[a] == before[a - 1] && out@[b] == before[b - 1]);
                }
            }
        }
        k = k + 1;
    }
    proof {
        assert(input@.take(input@.len() as int) =~= input@);
        assert(out@.to_set() =~= input@.to_set()) by {
            assert forall|x: Order| out@.to_set().contains(x) <==> input@.to_set().contains(x) by {
                assert(out@.contains(x) <==> input@.contains(x));
            }
        }
    }
    out
}

} // verus!
