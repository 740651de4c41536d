//! The matching engine: places orders according to their time in force and
//! applies the resulting fills to the book.
use vstd::prelude::*;

use crate::matching::error::MatchingError;
use crate::matching::matcher::{
    available_quantity, available_quantity_market, clamped_total_within, fill_total, lemma_match_guarantees,
    lemma_match_takes_all_it_may, same_owner, within_limit,
    match_order, match_spec, removals_ok, would_cross, would_cross_spec, MatchResult as MatchOutput, MatchState,
};
use crate::matching::result::{CancelOutcome, CancelResult, ExecutionReport, MatchFill, MatchOutcome, MatchResult};
use crate::orderbook::book::{
    book_view_wf, has_level, level_index, level_ok, located, saturating_level_total, side_levels, BookView, OrderBook,
};
use crate::orderbook::ops::{
    book_insert, book_remove, book_set_qty, insert_error, lemma_remove_keeps_wf, lemma_set_qty_keeps_wf,
    level_total, order_book_error_text, set_qty_overflows, OrderBookError,
};
use crate::types::ids::OrderId;
use crate::types::order::{status_terminal, Order, OrderSide, OrderStatus, OrderType, TimeInForce};
use crate::types::primitives::{Quantity, Timestamp};
use crate::types::trade::opposite_side;

verus! {

/// The book after removing the given orders one after the other.
pub open spec fn remove_all(v: BookView, ids: Seq<OrderId>) -> BookView
    decreases ids.len(),
{
    if ids.len() == 0 {
        v
    } else {
        book_remove(remove_all(v, ids.drop_last()), ids.last())
    }
}

/// The book after setting the given remaining quantities one after the other.
pub open spec fn set_all(v: BookView, ps: Seq<(OrderId, Quantity)>) -> BookView
    decreases ps.len(),
{
    if ps.len() == 0 {
        v
    } else {
        let w = set_all(v, ps.drop_last());
        book_set_qty(w, ps.last().0, ps.last().1)
    }
}

/// The book after a match: completely filled makers removed, partially
/// filled makers left with what they have left.
pub open spec fn apply_match(v: BookView, st: MatchState) -> BookView {
    set_all(remove_all(v, st.consumed), st.partials)
}

/// The abstract content of an execution report.
pub ghost struct ReportView {
    /// The order as it ended up.
    pub order: Order,
    /// The fills.
    pub fills: Seq<MatchFill>,
    /// The quantity filled.
    pub filled: Quantity,
    /// The quantity left.
    pub remaining: Quantity,
    /// How the order ended up.
    pub outcome: MatchOutcome,
    /// When the order was processed.
    pub timestamp: Timestamp,
}

/// The abstract content of a matching error.
pub ghost enum ErrorView {
    /// The order belongs to another market.
    WrongMarket(OrderId),
    /// The order is already in the book.
    AlreadyExists(OrderId),
    /// A market order was post-only.
    MarketPostOnly,
    /// A post-only order would cross.
    WouldCross,
    /// A fill-or-kill order could not be filled: requested and available.
    NotFilled(Quantity, Quantity),
    /// An order book operation failed.
    Book(OrderBookError),
}

/// The report has the given content.
pub open spec fn report_is(r: ExecutionReport, rv: ReportView) -> bool {
    &&& r.order == rv.order
    &&& r.fills@ == rv.fills
    &&& r.filled_quantity == rv.filled
    &&& r.remaining_quantity == rv.remaining
    &&& r.outcome == rv.outcome
    &&& r.timestamp == rv.timestamp
}

/// The error has the given content.
pub open spec fn error_is(e: MatchingError, ev: ErrorView) -> bool {
    match ev {
        ErrorView::WrongMarket(id) => e == MatchingError::WrongMarket { order_id: id },
        ErrorView::AlreadyExists(id) => e == MatchingError::OrderAlreadyExists { order_id: id },
        ErrorView::MarketPostOnly => e == MatchingError::MarketOrderPostOnly,
        ErrorView::WouldCross => e == MatchingError::PostOnlyWouldCross,
        ErrorView::NotFilled(q, a) => e == MatchingError::FillOrKillNotFilled { requested: q, available: a },
        ErrorView::Book(be) => e matches MatchingError::OrderBookError { message } && message@ == order_book_error_text(be),
    }
}

/// The result of placing an order has the given content.
pub open spec fn result_is(r: MatchResult, rv: Result<ReportView, ErrorView>) -> bool {
    match rv {
        Ok(report) => r matches Ok(x) && report_is(x, report),
        Err(ev) => r matches Err(x) && error_is(x, ev),
    }
}

/// A report with the given parts.
pub open spec fn report(order: Order, fills: Seq<MatchFill>, filled: Quantity, remaining: Quantity, outcome: MatchOutcome) -> ReportView {
    ReportView { order, fills, filled, remaining, outcome, timestamp: order.created_at }
}

/// Inserting `o` after the fills: the report and book on success, or the
/// book error with the book as the fills left it.
pub open spec fn rest_after(v1: BookView, o: Order, r: ReportView) -> (Result<ReportView, ErrorView>, BookView) {
    match insert_error(v1, o) {
        Some(e) => (Err(ErrorView::Book(e)), v1),
        None => (Ok(r), book_insert(v1, o)),
    }
}

/// Immediate-or-cancel: fill what can be filled at once and cancel the rest;
/// an order that gets no fill at all expires.
pub open spec fn ioc_spec(v: BookView, order: Order) -> (Result<ReportView, ErrorView>, BookView) {
    let st = match_spec(v, order, order.remaining_quantity, order.created_at);
    let v1 = apply_match(v, st);
    let filled = Quantity((order.remaining_quantity.0 - st.remaining.0) as u128);
    let (status, outcome) = if st.remaining.0 == 0 && st.fills.len() > 0 {
        (OrderStatus::Filled, MatchOutcome::Filled)
    } else if st.fills.len() > 0 {
        (OrderStatus::Cancelled, MatchOutcome::PartiallyFilledCancelled)
    } else {
        (OrderStatus::Expired, MatchOutcome::Cancelled)
    };
    let o = Order { remaining_quantity: st.remaining, status, ..order };
    (Ok(report(o, st.fills, filled, st.remaining, outcome)), v1)
}

/// Good-til-cancelled: fill what can be filled at once, rest the remainder
/// in the book. A market order is treated as immediate-or-cancel.
pub open spec fn gtc_spec(v: BookView, order: Order) -> (Result<ReportView, ErrorView>, BookView) {
    if order.order_type == OrderType::Market {
        ioc_spec(v, order)
    } else {
        let st = match_spec(v, order, order.remaining_quantity, order.created_at);
        let v1 = apply_match(v, st);
        let filled = Quantity((order.remaining_quantity.0 - st.remaining.0) as u128);
        if st.remaining.0 == 0 {
            let o = Order { remaining_quantity: st.remaining, status: OrderStatus::Filled, ..order };
            (Ok(report(o, st.fills, filled, st.remaining, MatchOutcome::Filled)), v1)
        } else if st.fills.len() > 0 {
            let o = Order { remaining_quantity: st.remaining, status: OrderStatus::PartiallyFilled, ..order };
            rest_after(v1, o, report(o, st.fills, filled, st.remaining, MatchOutcome::PartiallyFilledResting))
        } else {
            let o = Order { remaining_quantity: st.remaining, ..order };
            rest_after(v1, o, report(o, st.fills, filled, st.remaining, MatchOutcome::Resting))
        }
    }
}

/// The quantity a fill-or-kill order could take before matching.
pub open spec fn fok_available(v: BookView, order: Order) -> int {
    if order.order_type == OrderType::Market {
        saturating_level_total(side_levels(v, opposite_side(order.side)))
    } else {
        clamped_total_within(side_levels(v, opposite_side(order.side)), order.side, order.price)
    }
}

/// Fill-or-kill: fill completely at once, or fail and leave the book as it was.
pub open spec fn fok_spec(v: BookView, order: Order) -> (Result<ReportView, ErrorView>, BookView) {
    let required = order.remaining_quantity;
    let available = fok_available(v, order);
    if available < required.0 {
        (Err(ErrorView::NotFilled(required, Quantity(available as u128))), v)
    } else {
        let st = match_spec(v, order, required, order.created_at);
        if st.remaining.0 != 0 {
            (Err(ErrorView::NotFilled(required, Quantity((required.0 - st.remaining.0) as u128))), v)
        } else {
            let o = Order { remaining_quantity: Quantity(0), status: OrderStatus::Filled, ..order };
            (Ok(report(o, st.fills, required, Quantity(0), MatchOutcome::Filled)), apply_match(v, st))
        }
    }
}

/// Post-only: rest in the book without trading, or fail when it would cross.
pub open spec fn post_only_spec(v: BookView, order: Order) -> (Result<ReportView, ErrorView>, BookView) {
    if order.order_type == OrderType::Market {
        (Err(ErrorView::MarketPostOnly), v)
    } else if would_cross_spec(v, order.side, order.price) {
        (Err(ErrorView::WouldCross), v)
    } else {
        rest_after(v, order, report(order, Seq::empty(), Quantity(0), order.remaining_quantity, MatchOutcome::Resting))
    }
}

/// Placing an order: checked for market and duplicates, then handled by its
/// time in force. The result, and the book afterwards.
pub open spec fn place_spec(v: BookView, order: Order) -> (Result<ReportView, ErrorView>, BookView) {
    if order.market_id != v.market_id {
        (Err(ErrorView::WrongMarket(order.id)), v)
    } else if v.orders.contains_key(order.id.0) {
        (Err(ErrorView::AlreadyExists(order.id)), v)
    } else {
        match order.time_in_force {
            TimeInForce::GoodTilCancelled => gtc_spec(v, order),
            TimeInForce::ImmediateOrCancel => ioc_spec(v, order),
            TimeInForce::FillOrKill => fok_spec(v, order),
            TimeInForce::PostOnly => post_only_spec(v, order),
        }
    }
}

/// An order that passed the checks of `place_spec` for `v`.
pub open spec fn placeable(v: BookView, order: Order) -> bool {
    order.market_id == v.market_id && !v.orders.contains_key(order.id.0)
}

/// Cancelling an order: the report, and the book afterwards. A missing order
/// is reported not found; a terminal one is reported and left in place;
/// otherwise the order leaves the book and is reported cancelled with the
/// quantity it had left.
pub open spec fn cancel_spec(v: BookView, order_id: OrderId) -> (CancelResult, BookView) {
    if !v.orders.contains_key(order_id.0) {
        (
            CancelResult { order_id, outcome: CancelOutcome::NotFound, order: None, cancelled_quantity: Quantity(0) },
            v,
        )
    } else if status_terminal(v.orders[order_id.0].status) {
        (
            CancelResult {
                order_id,
                outcome: CancelOutcome::AlreadyTerminal,
                order: Some(v.orders[order_id.0]),
                cancelled_quantity: Quantity(0),
            },
            v,
        )
    } else {
        (
            CancelResult {
                order_id,
                outcome: CancelOutcome::Cancelled,
                order: Some(Order { status: OrderStatus::Cancelled, ..v.orders[order_id.0] }),
                cancelled_quantity: v.orders[order_id.0].remaining_quantity,
            },
            book_remove(v, order_id),
        )
    }
}

/// Updating a rested order to no more than it has cannot overflow its level.
proof fn lemma_no_overflow(w: BookView, id: OrderId, q: Quantity)
    requires
        book_view_wf(w),
        w.orders.contains_key(id.0),
        q.0 <= w.orders[id.0].remaining_quantity.0,
    ensures
        !set_qty_overflows(w, id, q),
{
    let o = w.orders[id.0];
    assert(located(w, o));
    let l = side_levels(w, o.side);
    let k = level_index(l, o.price);
    assert(crate::orderbook::book::side_ok(w, o.side));
    assert(level_ok(w, o.side, l[k]));
    assert(level_total(w, o.side, o.price) == crate::orderbook::price_level::qty_sum(l[k].orders));
}

/// The matching engine. It holds no state: every call works on the book it is given.
#[derive(Debug, Clone, Copy, Default)]
pub struct MatchingEngine {
    _private: (),
}

impl MatchingEngine {
    /// A matching engine.
    pub fn new() -> (r: MatchingEngine) {
        MatchingEngine { _private: () }
    }

    /// Places an order: rejects an order of another market or one already in
    /// the book, then matches and rests it according to its time in force.
    /// The book stays consistent, and ends up as `place_spec` says.
    pub fn place_order(&self, book: &mut OrderBook, order: Order) -> (r: MatchResult)
        requires
            old(book).wf(),
        ensures
            final(book).wf(),
            result_is(r, place_spec(old(book)@, order).0),
            final(book)@ == place_spec(old(book)@, order).1,
    {
        if order.market_id.0 != book.market_id().0 {
            return Err(MatchingError::WrongMarket { order_id: order.id });
        }
        if book.contains_order(order.id) {
            return Err(MatchingError::OrderAlreadyExists { order_id: order.id });
        }
        match order.time_in_force {
            TimeInForce::GoodTilCancelled => Self::place_gtc(book, order),
            TimeInForce::ImmediateOrCancel => Self::place_ioc(book, order),
            TimeInForce::FillOrKill => Self::place_fok(book, order),
            TimeInForce::PostOnly => Self::place_post_only(book, order),
        }
    }

    /// Cancels a resting order: removes it from the book and reports it as
    /// cancelled with the quantity it had left. An order that is missing is
    /// reported not found, one that is already terminal is left in place.
    pub fn cancel_order(&self, book: &mut OrderBook, order_id: OrderId) -> (r: CancelResult)
        requires
            old(book).wf(),
        ensures
            final(book).wf(),
            r == cancel_spec(old(book)@, order_id).0,
            final(book)@ == cancel_spec(old(book)@, order_id).1,
    {
        let order = match book.get_order(order_id) {
            Some(o) => *o,
            None => return CancelResult::not_found(order_id),
        };
        if order.status.is_terminal() {
            return CancelResult::already_terminal(order_id, order);
        }
        let cancelled_quantity = order.remaining_quantity;
        match book.remove_order(order_id) {
            Ok(removed) => {
                let removed = Order { status: OrderStatus::Cancelled, ..removed };
                CancelResult::cancelled(order_id, removed, cancelled_quantity)
            },
            Err(_) => CancelResult::not_found(order_id),
        }
    }

    fn place_gtc(book: &mut OrderBook, order: Order) -> (r: MatchResult)
        requires
            old(book).wf(),
            placeable(old(book)@, order),
        ensures
            final(book).wf(),
            result_is(r, gtc_spec(old(book)@, order).0),
            final(book)@ == gtc_spec(old(book)@, order).1,
    {
        let timestamp = order.created_at;
        if order.is_market() {
            return Self::place_ioc(book, order);
        }
        let ghost v = book@;
        let result = match_order(book, &order, order.remaining_quantity, timestamp);
        proof {
            lemma_match_guarantees(v, order, order.remaining_quantity, timestamp);
            lemma_apply_steps_ok(v, match_spec(v, order, order.remaining_quantity, timestamp));
        }
        match Self::apply_match_result(book, &result) {
            Ok(()) => {},
            Err(e) => return Err(e),
        }
        let filled_quantity = Quantity(order.remaining_quantity.0 - result.remaining_quantity.0);
        let remaining = result.remaining_quantity;
        if remaining.0 == 0 {
            let done = Order { remaining_quantity: remaining, status: OrderStatus::Filled, ..order };
            Ok(ExecutionReport::new(done, result.fills, filled_quantity, remaining, MatchOutcome::Filled, timestamp))
        } else if result.fills.len() > 0 {
            let resting = Order { remaining_quantity: remaining, status: OrderStatus::PartiallyFilled, ..order };
            match book.insert_order(resting) {
                Ok(()) => {},
                Err(e) => return Err(MatchingError::from_book_error(e)),
            }
            Ok(
                ExecutionReport::new(
                    resting,
                    result.fills,
                    filled_quantity,
                    remaining,
                    MatchOutcome::PartiallyFilledResting,
                    timestamp,
                ),
            )
        } else {
            let resting = Order { remaining_quantity: remaining, ..order };
            match book.insert_order(resting) {
                Ok(()) => {},
                Err(e) => return Err(MatchingError::from_book_error(e)),
            }
            Ok(ExecutionReport::new(resting, result.fills, filled_quantity, remaining, MatchOutcome::Resting, timestamp))
        }
    }

    fn place_ioc(book: &mut OrderBook, order: Order) -> (r: MatchResult)
        requires
            old(book).wf(),
            placeable(old(book)@, order),
        ensures
            final(book).wf(),
            result_is(r, ioc_spec(old(book)@, order).0),
            final(book)@ == ioc_spec(old(book)@, order).1,
    {
        let timestamp = order.created_at;
        let ghost v = book@;
        let result = match_order(book, &order, order.remaining_quantity, timestamp);
        proof {
            lemma_match_guarantees(v, order, order.remaining_quantity, timestamp);
            lemma_apply_steps_ok(v, match_spec(v, order, order.remaining_quantity, timestamp));
        }
        match Self::apply_match_result(book, &result) {
            Ok(()) => {},
            Err(e) => return Err(e),
        }
        let filled_quantity = Quantity(order.remaining_quantity.0 - result.remaining_quantity.0);
        let remaining = result.remaining_quantity;
        let (status, outcome) = if remaining.0 == 0 && result.fills.len() > 0 {
            (OrderStatus::Filled, MatchOutcome::Filled)
        } else if result.fills.len() > 0 {
            (OrderStatus::Cancelled, MatchOutcome::PartiallyFilledCancelled)
        } else {
            (OrderStatus::Expired, MatchOutcome::Cancelled)
        };
        let done = Order { remaining_quantity: remaining, status, ..order };
        Ok(ExecutionReport::new(done, result.fills, filled_quantity, remaining, outcome, timestamp))
    }

    fn place_fok(book: &mut OrderBook, order: Order) -> (r: MatchResult)
        requires
            old(book).wf(),
            placeable(old(book)@, order),
        ensures
            final(book).wf(),
            result_is(r, fok_spec(old(book)@, order).0),
            final(book)@ == fok_spec(old(book)@, order).1,
    {
        let timestamp = order.created_at;
        let required = order.remaining_quantity;
        let available = if order.is_market() {
            available_quantity_market(book, order.side)
        } else {
            available_quantity(book, order.side, order.price)
        };
        if available.0 < required.0 {
            return Err(MatchingError::FillOrKillNotFilled { requested: required, available });
        }
        let ghost v = book@;
        let result = match_order(book, &order, required, timestamp);
        proof {
            lemma_match_guarantees(v, order, required, timestamp);
            lemma_apply_steps_ok(v, match_spec(v, order, required, timestamp));
        }
        if result.remaining_quantity.0 != 0 {
            return Err(
                MatchingError::FillOrKillNotFilled {
                    requested: required,
                    available: Quantity(required.0 - result.remaining_quantity.0),
                },
            );
        }
        match Self::apply_match_result(book, &result) {
            Ok(()) => {},
            Err(e) => return Err(e),
        }
        let done = Order { remaining_quantity: Quantity::zero(), status: OrderStatus::Filled, ..order };
        Ok(ExecutionReport::new(done, result.fills, required, Quantity::zero(), MatchOutcome::Filled, timestamp))
    }

    fn place_post_only(book: &mut OrderBook, order: Order) -> (r: MatchResult)
        requires
            old(book).wf(),
            placeable(old(book)@, order),
        ensures
            final(book).wf(),
            result_is(r, post_only_spec(old(book)@, order).0),
            final(book)@ == post_only_spec(old(book)@, order).1,
    {
        let timestamp = order.created_at;
        if order.is_market() {
            return Err(MatchingError::MarketOrderPostOnly);
        }
        if would_cross(book, order.side, order.price) {
            return Err(MatchingError::PostOnlyWouldCross);
        }
        match book.insert_order(order) {
            Ok(()) => {},
            Err(e) => return Err(MatchingError::from_book_error(e)),
        }
        Ok(ExecutionReport::new(order, Vec::new(), Quantity::zero(), order.remaining_quantity, MatchOutcome::Resting, timestamp))
    }

    /// Removes the completely filled makers, one after the other, and then
    /// sets the quantities of the partially filled ones, stopping at the first
    /// step the book refuses (a missing order, or a level total that would
    /// overflow); the steps before it stay done. With the lists a match
    /// produced, no step is refused.
    fn apply_match_result(book: &mut OrderBook, result: &MatchOutput) -> (r: Result<(), MatchingError>)
        requires
            old(book).wf(),
        ensures
            final(book).wf(),
            final(book)@ == apply_steps(old(book)@, result.consumed_orders@, result.partial_fills@).1,
            apply_steps(old(book)@, result.consumed_orders@, result.partial_fills@).0 matches Some(be) ==> (r matches Err(
                x,
            ) && error_is(x, ErrorView::Book(be))),
            apply_steps(old(book)@, result.consumed_orders@, result.partial_fills@).0 is None ==> r is Ok,
    {
        let ghost v0 = book@;
        let ghost consumed = result.consumed_orders@;
        let ghost partials = result.partial_fills@;
        let n = result.consumed_orders.len();
        let mut k: usize = 0;
        assert(consumed.take(0) =~= Seq::<OrderId>::empty());
        while k < n
            invariant
                0 <= k <= n,
                n == consumed.len(),
                consumed == result.consumed_orders@,
                partials == result.partial_fills@,
                book.wf(),
                v0 == old(book)@,
                remove_steps(v0, consumed.take(k as int)) == (None::<OrderBookError>, book@),
            decreases n - k,
        {
            let id = result.consumed_orders[k];
            proof {
                assert(consumed.take(k as int + 1).drop_last() =~= consumed.take(k as int));
                assert(consumed.take(k as int + 1).last() == id);
            }
            match book.remove_order(id) {
                Ok(_) => {},
                Err(e) => {
                    proof {
                        assert(remove_steps(v0, consumed.take(k as int + 1)) == (Some(e), book@));
                        lemma_remove_steps_stop(v0, consumed, k as int + 1);
                        assert(apply_steps(v0, consumed, partials) == (Some(e), book@));
                    }
                    return Err(MatchingError::from_book_error(e));
                },
            }
            k = k + 1;
        }
        proof {
            assert(consumed.take(n as int) =~= consumed);
        }
        let ghost v1 = book@;
        let m = result.partial_fills.len();
        let mut j: usize = 0;
        assert(partials.take(0) =~= Seq::<(OrderId, Quantity)>::empty());
        while j < m
            invariant
                0 <= j <= m,
                m == partials.len(),
                partials == result.partial_fills@,
                consumed == result.consumed_orders@,
                book.wf(),
                v0 == old(book)@,
                remove_steps(v0, consumed) == (None::<OrderBookError>, v1),
                set_steps(v1, partials.take(j as int)) == (None::<OrderBookError>, book@),
            decreases m - j,
        {
            let (id, q) = result.partial_fills[j];
            proof {
                assert(partials[j as int] == (id, q));
                assert(partials.take(j as int + 1).drop_last() =~= partials.take(j as int));
                assert(partials.take(j as int + 1).last() == (id, q));
            }
            match book.update_order_quantity(id, q) {
                Ok(_) => {},
                Err(e) => {
                    proof {
                        assert(set_steps(v1, partials.take(j as int + 1)) == (Some(e), book@));
                        lemma_set_steps_stop(v1, partials, j as int + 1);
                        assert(apply_steps(v0, consumed, partials) == (Some(e), book@));
                    }
                    return Err(MatchingError::from_book_error(e));
                },
            }
            j = j + 1;
        }
        proof {
            assert(partials.take(m as int) =~= partials);
        }
        Ok(())
    }
}

/// Removing the orders one after the other: the first refusal (a missing
/// order) and the book as the steps before it left it.
pub open spec fn remove_steps(v: BookView, ids: Seq<OrderId>) -> (Option<OrderBookError>, BookView)
    decreases ids.len(),
{
    if ids.len() == 0 {
        (None, v)
    } else {
        let (e, w) = remove_steps(v, ids.drop_last());
        if e is Some {
            (e, w)
        } else if !w.orders.contains_key(ids.last().0) {
            (Some(OrderBookError::OrderNotFound), w)
        } else {
            (None, book_remove(w, ids.last()))
        }
    }
}

/// Setting the quantities one after the other: the first refusal (a missing
/// order, or a level total that would overflow) and the book as the steps
/// before it left it.
pub open spec fn set_steps(v: BookView, ps: Seq<(OrderId, Quantity)>) -> (Option<OrderBookError>, BookView)
    decreases ps.len(),
{
    if ps.len() == 0 {
        (None, v)
    } else {
        let (e, w) = set_steps(v, ps.drop_last());
        let (id, q) = ps.last();
        if e is Some {
            (e, w)
        } else if !w.orders.contains_key(id.0) {
            (Some(OrderBookError::OrderNotFound), w)
        } else if set_qty_overflows(w, id, q) {
            (Some(OrderBookError::PriceLevelFull), w)
        } else {
            (None, book_set_qty(w, id, q))
        }
    }
}

/// Applying match lists to a book: removals first, then quantity updates.
pub open spec fn apply_steps(v: BookView, consumed: Seq<OrderId>, partials: Seq<(OrderId, Quantity)>) -> (
    Option<OrderBookError>,
    BookView,
) {
    let (e, w) = remove_steps(v, consumed);
    if e is Some {
        (e, w)
    } else {
        set_steps(w, partials)
    }
}

/// Once a removal is refused, later ones change nothing.
proof fn lemma_remove_steps_stop(v: BookView, ids: Seq<OrderId>, i: int)
    requires
        0 <= i <= ids.len(),
        remove_steps(v, ids.take(i)).0 is Some,
    ensures
        remove_steps(v, ids) == remove_steps(v, ids.take(i)),
    decreases ids.len() - i,
{
    if i == ids.len() {
        assert(ids.take(i) =~= ids);
    } else {
        assert(ids.take(i + 1).drop_last() =~= ids.take(i));
        lemma_remove_steps_stop(v, ids, i + 1);
    }
}

/// Once a quantity update is refused, later ones change nothing.
proof fn lemma_set_steps_stop(v: BookView, ps: Seq<(OrderId, Quantity)>, i: int)
    requires
        0 <= i <= ps.len(),
        set_steps(v, ps.take(i)).0 is Some,
    ensures
        set_steps(v, ps) == set_steps(v, ps.take(i)),
    decreases ps.len() - i,
{
    if i == ps.len() {
        assert(ps.take(i) =~= ps);
    } else {
        assert(ps.take(i + 1).drop_last() =~= ps.take(i));
        lemma_set_steps_stop(v, ps, i + 1);
    }
}

/// Removing distinct orders that are all in a consistent book is never
/// refused, and keeps the book consistent.
proof fn lemma_remove_steps_ok(v: BookView, ids: Seq<OrderId>)
    requires
        book_view_wf(v),
        crate::matching::matcher::ids_unique(ids),
        forall|x: int| 0 <= x < ids.len() ==> v.orders.contains_key((#[trigger] ids[x]).0),
    ensures
        remove_steps(v, ids) == (None::<OrderBookError>, remove_all(v, ids)),
        book_view_wf(remove_all(v, ids)),
    decreases ids.len(),
{
    if ids.len() > 0 {
        let pre = ids.drop_last();
        assert forall|x: int| 0 <= x < pre.len() implies v.orders.contains_key((#[trigger] pre[x]).0) by {
            assert(pre[x] == ids[x]);
        }
        assert forall|x: int, y: int| 0 <= x < y < pre.len() implies pre[x] != pre[y] by {
            assert(pre[x] == ids[x] && pre[y] == ids[y]);
        }
        lemma_remove_steps_ok(v, pre);
        lemma_remove_all_orders(v, pre);
        let last = ids.last();
        assert forall|i: int| 0 <= i < pre.len() implies (#[trigger] pre[i]).0 != last.0 by {
            assert(pre[i] == ids[i]);
            assert(ids[i] != ids[ids.len() - 1]);
        }
        assert(v.orders.contains_key(ids[ids.len() - 1].0));
        assert(remove_all(v, pre).orders.contains_key(last.0));
        lemma_remove_keeps_wf(remove_all(v, pre), last);
    }
}

/// Setting, for distinct orders of a consistent book, quantities no larger
/// than they have is never refused, keeps the book consistent, and leaves
/// every other order as it was.
proof fn lemma_set_steps_ok(w: BookView, ps: Seq<(OrderId, Quantity)>)
    requires
        book_view_wf(w),
        crate::matching::matcher::ids_unique(crate::matching::matcher::partial_ids(ps)),
        forall|y: int|
            0 <= y < ps.len() ==> w.orders.contains_key((#[trigger] ps[y]).0.0) && ps[y].1.0
                <= w.orders[ps[y].0.0].remaining_quantity.0,
    ensures
        set_steps(w, ps) == (None::<OrderBookError>, set_all(w, ps)),
        book_view_wf(set_all(w, ps)),
        forall|k: u128|
            #[trigger] w.orders.contains_key(k) && (forall|y: int| 0 <= y < ps.len() ==> (#[trigger] ps[y]).0.0 != k)
                ==> set_all(w, ps).orders.contains_key(k) && set_all(w, ps).orders[k] == w.orders[k],
    decreases ps.len(),
{
    if ps.len() > 0 {
        let pre = ps.drop_last();
        let pid = crate::matching::matcher::partial_ids(ps);
        let pid2 = crate::matching::matcher::partial_ids(pre);
        assert forall|x: int, y: int| 0 <= x < y < pid2.len() implies pid2[x] != pid2[y] by {
            assert(pid2[x] == pid[x] && pid2[y] == pid[y]);
        }
        assert forall|y: int|
            0 <= y < pre.len() implies w.orders.contains_key((#[trigger] pre[y]).0.0) && pre[y].1.0
                <= w.orders[pre[y].0.0].remaining_quantity.0 by {
            assert(pre[y] == ps[y]);
        }
        lemma_set_steps_ok(w, pre);
        let u = set_all(w, pre);
        let (id, q) = ps.last();
        assert forall|y: int| 0 <= y < pre.len() implies (#[trigger] pre[y]).0.0 != id.0 by {
            assert(pre[y] == ps[y]);
            assert(pid[y] == ps[y].0 && pid[ps.len() - 1] == id);
            assert(pid[y] != pid[ps.len() - 1]);
        }
        assert(w.orders.contains_key(ps[ps.len() - 1].0.0));
        assert(u.orders.contains_key(id.0) && u.orders[id.0] == w.orders[id.0]);
        lemma_no_overflow(u, id, q);
        lemma_set_qty_keeps_wf(u, id, q);
        assert forall|k: u128|
            #[trigger] w.orders.contains_key(k) && (forall|y: int| 0 <= y < ps.len() ==> (#[trigger] ps[y]).0.0 != k)
            implies set_all(w, ps).orders.contains_key(k) && set_all(w, ps).orders[k] == w.orders[k] by {
            assert forall|y: int| 0 <= y < pre.len() implies (#[trigger] pre[y]).0.0 != k by {
                assert(pre[y] == ps[y]);
            }
            assert(ps[ps.len() - 1].0.0 != k);
        }
    }
}

/// The lists of a match against a consistent book are applied without a
/// refusal, and give the book `apply_match` describes.
proof fn lemma_apply_steps_ok(v: BookView, st: MatchState)
    requires
        book_view_wf(v),
        removals_ok(v, st.consumed, st.partials),
    ensures
        apply_steps(v, st.consumed, st.partials) == (None::<OrderBookError>, apply_match(v, st)),
        book_view_wf(apply_match(v, st)),
{
    lemma_remove_steps_ok(v, st.consumed);
    lemma_remove_all_orders(v, st.consumed);
    let u = remove_all(v, st.consumed);
    assert forall|y: int|
        0 <= y < st.partials.len() implies u.orders.contains_key((#[trigger] st.partials[y]).0.0) && st.partials[y].1.0
            <= u.orders[st.partials[y].0.0].remaining_quantity.0 by {
        let k = st.partials[y].0.0;
        assert forall|x: int| 0 <= x < st.consumed.len() implies (#[trigger] st.consumed[x]).0 != k by {
            assert(st.consumed[x] != st.partials[y].0);
        }
    }
    lemma_set_steps_ok(u, st.partials);
}


// ---------------------------------------------------------------------------
// What placing an order guarantees
// ---------------------------------------------------------------------------

/// Removing orders only takes keys out of the index.
proof fn lemma_remove_all_keys(v: BookView, ids: Seq<OrderId>)
    ensures
        remove_all(v, ids).orders.dom().subset_of(v.orders.dom()),
    decreases ids.len(),
{
    if ids.len() > 0 {
        lemma_remove_all_keys(v, ids.drop_last());
    }
}

/// Setting quantities only touches the keys of the updated orders.
proof fn lemma_set_all_keys(v: BookView, ps: Seq<(OrderId, Quantity)>)
    ensures
        forall|k: u128| #[trigger] set_all(v, ps).orders.contains_key(k) ==> v.orders.contains_key(k) || exists|y: int|
            0 <= y < ps.len() && (#[trigger] ps[y]).0.0 == k,
    decreases ps.len(),
{
    if ps.len() > 0 {
        lemma_set_all_keys(v, ps.drop_last());
        let w = set_all(v, ps.drop_last());
        assert forall|k: u128| #[trigger] set_all(v, ps).orders.contains_key(k) implies v.orders.contains_key(k) || exists|y: int|
            0 <= y < ps.len() && (#[trigger] ps[y]).0.0 == k by {
            if k == ps.last().0.0 {
                assert(ps[ps.len() - 1].0.0 == k);
            } else {
                assert(w.orders.contains_key(k));
                if !v.orders.contains_key(k) {
                    let y = choose|y: int| 0 <= y < ps.drop_last().len() && (#[trigger] ps.drop_last()[y]).0.0 == k;
                    assert(ps[y] == ps.drop_last()[y]);
                }
            }
        }
    }
}

/// After a match is applied, the index holds no key it did not hold before.
proof fn lemma_apply_match_keys(v: BookView, st: MatchState)
    requires
        removals_ok(v, st.consumed, st.partials),
    ensures
        apply_match(v, st).orders.dom().subset_of(v.orders.dom()),
{
    lemma_remove_all_keys(v, st.consumed);
    lemma_set_all_keys(remove_all(v, st.consumed), st.partials);
    assert forall|k: u128| #[trigger] apply_match(v, st).orders.contains_key(k) implies v.orders.contains_key(k) by {
        if !remove_all(v, st.consumed).orders.contains_key(k) {
            let y = choose|y: int| 0 <= y < st.partials.len() && (#[trigger] st.partials[y]).0.0 == k;
            assert(v.orders.contains_key(st.partials[y].0.0));
        }
    }
}

/// A fill-or-kill order is all or nothing: it is either filled completely,
/// its fills adding up to its quantity, or it fails and the book is left as
/// it was.
pub proof fn lemma_fill_or_kill_all_or_nothing(v: BookView, order: Order)
    requires
        book_view_wf(v),
        order.time_in_force == TimeInForce::FillOrKill,
    ensures
        match place_spec(v, order).0 {
            Ok(rep) => rep.outcome == MatchOutcome::Filled && rep.filled == order.remaining_quantity && rep.remaining.0 == 0
                && fill_total(rep.fills) == order.remaining_quantity.0,
            Err(_) => place_spec(v, order).1 == v,
        },
{
    lemma_match_guarantees(v, order, order.remaining_quantity, order.created_at);
}

/// An immediate-or-cancel order, or a market order placed good-til-cancelled,
/// never rests in the book.
pub proof fn lemma_immediate_never_rests(v: BookView, order: Order)
    requires
        book_view_wf(v),
        order.time_in_force == TimeInForce::ImmediateOrCancel || (order.time_in_force == TimeInForce::GoodTilCancelled
            && order.order_type == OrderType::Market),
        placeable(v, order),
    ensures
        !place_spec(v, order).1.orders.contains_key(order.id.0),
        place_spec(v, order).0 is Ok,
{
    lemma_match_guarantees(v, order, order.remaining_quantity, order.created_at);
    lemma_apply_match_keys(v, match_spec(v, order, order.remaining_quantity, order.created_at));
}

/// A post-only order never trades: when it is accepted it has no fills, it
/// would not have crossed, and the book is the old book with the order added.
pub proof fn lemma_post_only_never_trades(v: BookView, order: Order)
    requires
        order.time_in_force == TimeInForce::PostOnly,
    ensures
        place_spec(v, order).0 is Ok ==> ({
            let rep = place_spec(v, order).0->Ok_0;
            &&& rep.fills.len() == 0
            &&& rep.filled.0 == 0
            &&& rep.outcome == MatchOutcome::Resting
            &&& !would_cross_spec(v, order.side, order.price)
            &&& place_spec(v, order).1 == book_insert(v, order)
        }),
        place_spec(v, order).0 is Err ==> place_spec(v, order).1 == v,
{
}

/// Every accepted order accounts for its quantity: what was filled is the sum
/// of its fills, and filled plus remaining is the quantity it came with.
pub proof fn lemma_placed_quantity_conserved(v: BookView, order: Order)
    requires
        book_view_wf(v),
    ensures
        place_spec(v, order).0 is Ok ==> ({
            let rep = place_spec(v, order).0->Ok_0;
            &&& rep.filled.0 == fill_total(rep.fills)
            &&& rep.filled.0 + rep.remaining.0 == order.remaining_quantity.0
        }),
{
    lemma_match_guarantees(v, order, order.remaining_quantity, order.created_at);
    assert(fill_total(Seq::<MatchFill>::empty()) == 0);
}

/// A good-til-cancelled limit order that is not filled completely rests in
/// the book with the quantity it has left.
pub proof fn lemma_good_til_cancelled_rests(v: BookView, order: Order)
    requires
        book_view_wf(v),
        order.time_in_force == TimeInForce::GoodTilCancelled,
        order.order_type == OrderType::Limit,
    ensures
        place_spec(v, order).0 is Ok && place_spec(v, order).0->Ok_0.remaining.0 > 0 ==> {
            let rep = place_spec(v, order).0->Ok_0;
            &&& place_spec(v, order).1.orders.contains_key(order.id.0)
            &&& place_spec(v, order).1.orders[order.id.0] == rep.order
            &&& rep.order.remaining_quantity == rep.remaining
        },
{
}


/// After removing orders, the index holds only orders it held before,
/// unchanged, and none of the removed ones.
proof fn lemma_remove_all_orders(v: BookView, ids: Seq<OrderId>)
    ensures
        forall|k: u128|
            #[trigger] remove_all(v, ids).orders.contains_key(k) ==> {
                &&& v.orders.contains_key(k)
                &&& remove_all(v, ids).orders[k] == v.orders[k]
                &&& forall|i: int| 0 <= i < ids.len() ==> (#[trigger] ids[i]).0 != k
            },
        forall|k: u128|
            #[trigger] v.orders.contains_key(k) && (forall|i: int| 0 <= i < ids.len() ==> (#[trigger] ids[i]).0 != k)
                ==> remove_all(v, ids).orders.contains_key(k),
    decreases ids.len(),
{
    if ids.len() > 0 {
        let pre = ids.drop_last();
        lemma_remove_all_orders(v, pre);
        assert forall|k: u128|
            #[trigger] v.orders.contains_key(k) && (forall|i: int| 0 <= i < ids.len() ==> (#[trigger] ids[i]).0 != k)
            implies remove_all(v, ids).orders.contains_key(k) by {
            assert forall|i: int| 0 <= i < pre.len() implies (#[trigger] pre[i]).0 != k by {
                assert(pre[i] == ids[i]);
            }
            assert(ids[ids.len() - 1].0 != k);
        }
        assert forall|k: u128| #[trigger] remove_all(v, ids).orders.contains_key(k) implies {
            &&& v.orders.contains_key(k)
            &&& remove_all(v, ids).orders[k] == v.orders[k]
            &&& forall|i: int| 0 <= i < ids.len() ==> (#[trigger] ids[i]).0 != k
        } by {
            assert(remove_all(v, pre).orders.contains_key(k));
            assert forall|i: int| 0 <= i < ids.len() implies (#[trigger] ids[i]).0 != k by {
                if i < ids.len() - 1 {
                    assert(pre[i] == ids[i]);
                }
            }
        }
    }
}

/// A good-til-cancelled limit order that is left resting crosses only orders
/// of its own owner: every order on the opposite side at a price it accepts
/// belongs to the same owner (the matcher skips those and takes all others).
pub proof fn lemma_resting_order_crosses_only_own(v: BookView, order: Order)
    requires
        book_view_wf(v),
        order.time_in_force == TimeInForce::GoodTilCancelled,
        order.order_type == OrderType::Limit,
    ensures
        place_spec(v, order).0 is Ok && place_spec(v, order).0->Ok_0.remaining.0 > 0 ==> {
            let w = place_spec(v, order).1;
            forall|k: u128|
                #[trigger] w.orders.contains_key(k) && w.orders[k].side == opposite_side(order.side) && within_limit(
                    order.side,
                    order.price,
                    w.orders[k].price,
                ) ==> same_owner(w.orders[k].owner, order.owner)
        },
{
    let st = match_spec(v, order, order.remaining_quantity, order.created_at);
    if placeable(v, order) && place_spec(v, order).0 is Ok && place_spec(v, order).0->Ok_0.remaining.0 > 0 {
        lemma_match_takes_all_it_may(v, order, order.remaining_quantity, order.created_at);
        lemma_remove_all_orders(v, st.consumed);
        assert(st.partials =~= Seq::<(OrderId, Quantity)>::empty());
        let v1 = apply_match(v, st);
        assert(v1 == remove_all(v, st.consumed));
        let w = place_spec(v, order).1;
        let opp = opposite_side(order.side);
        let levels = side_levels(v, opp);
        assert forall|k: u128|
            #[trigger] w.orders.contains_key(k) && w.orders[k].side == opp && within_limit(
                order.side,
                order.price,
                w.orders[k].price,
            ) implies same_owner(w.orders[k].owner, order.owner) by {
            assert(k != order.id.0);
            assert(v1.orders.contains_key(k));
            let x = v.orders[k];
            assert(w.orders[k] == x);
            assert(located(v, x));
            let a = level_index(levels, x.price);
            let b = choose|b: int| 0 <= b < levels[a].orders.len() && levels[a].orders[b].0 == x.id;
            assert(levels[a].orders[b].0 == x.id);
            assert(x.id.0 == k);
            if !same_owner(x.owner, order.owner) {
                assert(st.consumed.contains(levels[a].orders[b].0));
                let i = choose|i: int| 0 <= i < st.consumed.len() && st.consumed[i] == x.id;
                assert(st.consumed[i].0 == k);
            }
        }
    }
}

/// Every order indexed in `w` is indexed in `v`, on the same side, at the
/// same price, for the same owner.
spec fn orders_within(w: BookView, v: BookView) -> bool {
    forall|k: u128|
        #[trigger] w.orders.contains_key(k) ==> {
            &&& v.orders.contains_key(k)
            &&& w.orders[k].side == v.orders[k].side
            &&& w.orders[k].price == v.orders[k].price
            &&& w.orders[k].owner == v.orders[k].owner
        }
}

/// Setting quantities of indexed orders keeps the index's keys, and each
/// order's side, price and owner.
proof fn lemma_set_all_orders(w: BookView, ps: Seq<(OrderId, Quantity)>)
    requires
        forall|i: int| 0 <= i < ps.len() ==> w.orders.contains_key((#[trigger] ps[i]).0.0),
    ensures
        orders_within(set_all(w, ps), w),
        forall|k: u128| #[trigger] w.orders.contains_key(k) ==> set_all(w, ps).orders.contains_key(k),
    decreases ps.len(),
{
    if ps.len() > 0 {
        let pre = ps.drop_last();
        assert forall|i: int| 0 <= i < pre.len() implies w.orders.contains_key((#[trigger] pre[i]).0.0) by {
            assert(pre[i] == ps[i]);
        }
        lemma_set_all_orders(w, pre);
        let u = set_all(w, pre);
        assert(u.orders.contains_key(ps.last().0.0));
    }
}

/// Applying a match to the book only removes orders and changes quantities.
proof fn lemma_apply_match_within(v: BookView, st: MatchState)
    requires
        removals_ok(v, st.consumed, st.partials),
    ensures
        orders_within(apply_match(v, st), v),
{
    lemma_remove_all_orders(v, st.consumed);
    let u = remove_all(v, st.consumed);
    assert forall|y: int| 0 <= y < st.partials.len() implies u.orders.contains_key((#[trigger] st.partials[y]).0.0) by {
        let k = st.partials[y].0.0;
        assert forall|x: int| 0 <= x < st.consumed.len() implies (#[trigger] st.consumed[x]).0 != k by {
            assert(st.consumed[x] != st.partials[y].0);
        }
    }
    lemma_set_all_orders(u, st.partials);
}

/// No bid reaches an ask: every indexed buy order is priced strictly below
/// every indexed sell order.
pub open spec fn uncrossed(v: BookView) -> bool {
    forall|i: u128, j: u128|
        #[trigger] v.orders.contains_key(i) && #[trigger] v.orders.contains_key(j) && v.orders[i].side == OrderSide::Buy
            && v.orders[j].side == OrderSide::Sell ==> v.orders[i].price.0 < v.orders[j].price.0
}

/// In a consistent uncrossed book the best bid is below the best ask.
pub proof fn lemma_uncrossed_best_prices(v: BookView)
    requires
        book_view_wf(v),
        uncrossed(v),
    ensures
        v.bids.len() > 0 && v.asks.len() > 0 ==> v.bids[0].price.0 < v.asks[0].price.0,
{
    if v.bids.len() > 0 && v.asks.len() > 0 {
        assert(level_ok(v, OrderSide::Buy, side_levels(v, OrderSide::Buy)[0]));
        assert(level_ok(v, OrderSide::Sell, side_levels(v, OrderSide::Sell)[0]));
        let b = v.bids[0].orders[0];
        let a = v.asks[0].orders[0];
        assert(crate::orderbook::book::entry_ok(v, OrderSide::Buy, v.bids[0].price, b));
        assert(crate::orderbook::book::entry_ok(v, OrderSide::Sell, v.asks[0].price, a));
        assert(v.orders.contains_key(b.0.0) && v.orders.contains_key(a.0.0));
    }
}

/// The owner of `order` has no order on the opposite side at a price the
/// order accepts.
pub open spec fn no_own_crossing(v: BookView, order: Order) -> bool {
    forall|k: u128|
        #[trigger] v.orders.contains_key(k) && v.orders[k].side == opposite_side(order.side) && within_limit(
            order.side,
            order.price,
            v.orders[k].price,
        ) ==> !same_owner(v.orders[k].owner, order.owner)
}

/// A book whose index is within an uncrossed book is uncrossed.
proof fn lemma_within_uncrossed(w: BookView, v: BookView)
    requires
        uncrossed(v),
        orders_within(w, v),
    ensures
        uncrossed(w),
{
    assert forall|i: u128, j: u128|
        #[trigger] w.orders.contains_key(i) && #[trigger] w.orders.contains_key(j) && w.orders[i].side == OrderSide::Buy
            && w.orders[j].side == OrderSide::Sell implies w.orders[i].price.0 < w.orders[j].price.0 by {
        assert(v.orders.contains_key(i) && v.orders.contains_key(j));
    }
}

/// Adding order `o` to an uncrossed book keeps it uncrossed when no order of
/// the other side is at a price `o` accepts.
proof fn lemma_insert_uncrossed(v: BookView, o: Order)
    requires
        uncrossed(v),
        forall|k: u128|
            #[trigger] v.orders.contains_key(k) && v.orders[k].side == opposite_side(o.side) ==> !within_limit(
                o.side,
                o.price,
                v.orders[k].price,
            ),
    ensures
        uncrossed(book_insert(v, o)),
{
    let w = book_insert(v, o);
    assert forall|i: u128, j: u128|
        #[trigger] w.orders.contains_key(i) && #[trigger] w.orders.contains_key(j) && w.orders[i].side == OrderSide::Buy
            && w.orders[j].side == OrderSide::Sell implies w.orders[i].price.0 < w.orders[j].price.0 by {
        if i == o.id.0 {
            assert(v.orders.contains_key(j));
        } else if j == o.id.0 {
            assert(v.orders.contains_key(i));
        } else {
            assert(v.orders.contains_key(i) && v.orders.contains_key(j));
        }
    }
}

/// Placing an order keeps an uncrossed book uncrossed, provided the order's
/// owner has no order on the other side at a price it accepts (such orders
/// are skipped by the matcher, so the order could rest across them).
pub proof fn lemma_place_keeps_uncrossed(v: BookView, order: Order)
    requires
        book_view_wf(v),
        uncrossed(v),
        no_own_crossing(v, order),
    ensures
        uncrossed(place_spec(v, order).1),
{
    let st = match_spec(v, order, order.remaining_quantity, order.created_at);
    let w = place_spec(v, order).1;
    if placeable(v, order) {
        lemma_match_guarantees(v, order, order.remaining_quantity, order.created_at);
        lemma_apply_match_within(v, st);
        let v1 = apply_match(v, st);
        lemma_within_uncrossed(v1, v);
        let required = order.remaining_quantity;
        match order.time_in_force {
            TimeInForce::PostOnly => {
                if order.order_type != OrderType::Market && !would_cross_spec(v, order.side, order.price) {
                    let opp = opposite_side(order.side);
                    let levels = side_levels(v, opp);
                    assert(crate::orderbook::book::side_ok(v, opp));
                    assert forall|k: u128|
                        #[trigger] v.orders.contains_key(k) && v.orders[k].side == opposite_side(order.side) implies !within_limit(
                            order.side,
                            order.price,
                            v.orders[k].price,
                        ) by {
                        let x = v.orders[k];
                        assert(located(v, x));
                        let a = level_index(levels, x.price);
                        if a > 0 {
                            assert(crate::orderbook::book::better(levels[0].price, levels[a].price, opp));
                        }
                    }
                    lemma_insert_uncrossed(v, order);
                }
            },
            TimeInForce::FillOrKill => {},
            TimeInForce::ImmediateOrCancel => {},
            TimeInForce::GoodTilCancelled => {
                if order.order_type != OrderType::Market && st.remaining.0 != 0 {
                    let o = if st.fills.len() > 0 {
                        Order { remaining_quantity: st.remaining, status: OrderStatus::PartiallyFilled, ..order }
                    } else {
                        Order { remaining_quantity: st.remaining, ..order }
                    };
                    if insert_error(v1, o).is_none() {
                        lemma_resting_order_crosses_only_own(v, order);
                        lemma_remove_all_orders(v, st.consumed);
                        assert forall|k: u128|
                            #[trigger] v1.orders.contains_key(k) && v1.orders[k].side == opposite_side(o.side) implies !within_limit(
                                o.side,
                                o.price,
                                v1.orders[k].price,
                            ) by {
                            assert(k != order.id.0);
                            assert(w.orders[k] == v1.orders[k]);
                            assert(w.orders.contains_key(k));
                            assert(v.orders.contains_key(k));
                        }
                        lemma_insert_uncrossed(v1, o);
                    }
                }
            },
        }
    }
}

/// Cancelling an order keeps an uncrossed book uncrossed.
pub proof fn lemma_cancel_keeps_uncrossed(v: BookView, order_id: OrderId)
    requires
        uncrossed(v),
    ensures
        uncrossed(cancel_spec(v, order_id).1),
{
    let w = cancel_spec(v, order_id).1;
    assert(orders_within(w, v));
    lemma_within_uncrossed(w, v);
}

/// Removing and updating orders keeps the book's market.
proof fn lemma_apply_keeps_market(v: BookView, st: MatchState)
    ensures
        apply_match(v, st).market_id == v.market_id,
{
    lemma_remove_all_market(v, st.consumed);
    lemma_set_all_market(remove_all(v, st.consumed), st.partials);
}

proof fn lemma_remove_all_market(v: BookView, ids: Seq<OrderId>)
    ensures
        remove_all(v, ids).market_id == v.market_id,
    decreases ids.len(),
{
    if ids.len() > 0 {
        lemma_remove_all_market(v, ids.drop_last());
        crate::orderbook::ops::lemma_remove_market(remove_all(v, ids.drop_last()), ids.last());
    }
}

proof fn lemma_set_all_market(v: BookView, ps: Seq<(OrderId, Quantity)>)
    ensures
        set_all(v, ps).market_id == v.market_id,
    decreases ps.len(),
{
    if ps.len() > 0 {
        lemma_set_all_market(v, ps.drop_last());
        let w = set_all(v, ps.drop_last());
        crate::orderbook::ops::lemma_set_qty_market(w, ps.last().0, ps.last().1);
    }
}

/// Placing an order never changes the book's market.
pub proof fn lemma_place_keeps_market(v: BookView, order: Order)
    ensures
        place_spec(v, order).1.market_id == v.market_id,
{
    let st = match_spec(v, order, order.remaining_quantity, order.created_at);
    lemma_apply_keeps_market(v, st);
    crate::orderbook::ops::lemma_insert_market(v, order);
    crate::orderbook::ops::lemma_insert_market(apply_match(v, st), Order { remaining_quantity: st.remaining, status: OrderStatus::PartiallyFilled, ..order });
    crate::orderbook::ops::lemma_insert_market(apply_match(v, st), Order { remaining_quantity: st.remaining, ..order });
}

} // verus!
