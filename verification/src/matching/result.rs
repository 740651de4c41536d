//! What matching produces: fills, outcomes, execution and cancel reports.
use vstd::prelude::*;

use crate::matching::error::MatchingError;
use crate::matching::matcher::fill_total;
use crate::types::ids::{Address, OrderId};
use crate::types::order::{Order, OrderSide};
use crate::types::primitives::{Price, Quantity, Timestamp, SCALE};

verus! {

/// One fill between the taker and a resting maker order.
#[derive(Debug, Clone, Copy, PartialEq, Eq)]
pub struct MatchFill {
    /// The resting order.
    pub maker_order_id: OrderId,
    /// The incoming order.
    pub taker_order_id: OrderId,
    /// The owner of the resting order.
    pub maker: Address,
    /// The owner of the incoming order.
    pub taker: Address,
    /// The execution price: the price of the maker's level.
    pub price: Price,
    /// The quantity filled.
    pub quantity: Quantity,
    /// The side of the incoming order.
    pub taker_side: OrderSide,
    /// When the fill happened.
    pub timestamp: Timestamp,
}

impl MatchFill {
    /// A fill with the given parts.
    pub fn new(
        maker_order_id: OrderId,
        taker_order_id: OrderId,
        maker: Address,
        taker: Address,
        price: Price,
        quantity: Quantity,
        taker_side: OrderSide,
        timestamp: Timestamp,
    ) -> (r: MatchFill)
        ensures
            r == (MatchFill { maker_order_id, taker_order_id, maker, taker, price, quantity, taker_side, timestamp }),
    {
        MatchFill { maker_order_id, taker_order_id, maker, taker, price, quantity, taker_side, timestamp }
    }

    /// The notional value `quantity * price / SCALE`; `None` on overflow.
    pub fn notional(&self) -> (r: Option<Quantity>)
        ensures
            r is Some <==> self.quantity.0 * self.price.0 <= u128::MAX,
            r matches Some(v) ==> v.0 == (self.quantity.0 * self.price.0) / (SCALE as int),
    {
        self.quantity.checked_mul_price(self.price)
    }
}

/// How an incoming order ended up.
#[derive(Debug, Clone, Copy, PartialEq, Eq, Structural)]
pub enum MatchOutcome {
    /// Completely filled.
    Filled,
    /// Partly filled; the rest rests in the book.
    PartiallyFilledResting,
    /// Partly filled; the rest was cancelled.
    PartiallyFilledCancelled,
    /// Not filled; rests in the book.
    Resting,
    /// Not filled and cancelled.
    Cancelled,
    /// Rejected: a post-only order would have crossed.
    RejectedPostOnly,
    /// Rejected: a fill-or-kill order could not be filled completely.
    RejectedFillOrKill,
}

impl MatchOutcome {
    /// Returns `true` when some quantity was filled.
    pub fn has_fills(self) -> (r: bool)
        ensures
            r == (self is Filled || self is PartiallyFilledResting || self is PartiallyFilledCancelled),
    {
        match self {
            MatchOutcome::Filled | MatchOutcome::PartiallyFilledResting | MatchOutcome::PartiallyFilledCancelled => true,
            _ => false,
        }
    }

    /// Returns `true` when the order rests in the book.
    pub fn is_resting(self) -> (r: bool)
        ensures
            r == (self is PartiallyFilledResting || self is Resting),
    {
        match self {
            MatchOutcome::PartiallyFilledResting | MatchOutcome::Resting => true,
            _ => false,
        }
    }

    /// Returns `true` when the order was rejected.
    pub fn is_rejected(self) -> (r: bool)
        ensures
            r == (self is RejectedPostOnly || self is RejectedFillOrKill),
    {
        match self {
            MatchOutcome::RejectedPostOnly | MatchOutcome::RejectedFillOrKill => true,
            _ => false,
        }
    }

    /// Returns `true` when nothing more can happen to the order.
    pub fn is_terminal(self) -> (r: bool)
        ensures
            r == !(self is PartiallyFilledResting || self is Resting),
    {
        match self {
            MatchOutcome::PartiallyFilledResting | MatchOutcome::Resting => false,
            _ => true,
        }
    }
}

/// The running sums of an average price: the notional sum and the quantity
/// sum, or `None` once a step overflows.
pub open spec fn average_sums(fills: Seq<MatchFill>) -> Option<(int, int)>
    decreases fills.len(),
{
    if fills.len() == 0 {
        Some((0, 0))
    } else {
        match average_sums(fills.drop_last()) {
            None => None,
            Some(acc) => {
                let f = fills.last();
                let term = if f.quantity.0 * f.price.0 <= u128::MAX {
                    Some((f.quantity.0 * f.price.0) / (SCALE as int))
                } else if f.price.0 * (f.quantity.0 / SCALE) <= u128::MAX {
                    Some(f.price.0 * (f.quantity.0 / SCALE))
                } else {
                    None
                };
                match term {
                    None => None,
                    Some(x) => if acc.0 + x > u128::MAX || acc.1 + f.quantity.0 > u128::MAX {
                        None
                    } else {
                        Some((acc.0 + x, acc.1 + f.quantity.0))
                    },
                }
            },
        }
    }
}

/// The quantity-weighted average price of fills, when no step overflows.
pub open spec fn average_of(fills: Seq<MatchFill>) -> Option<Price> {
    if fills.len() == 0 {
        None
    } else {
        match average_sums(fills) {
            None => None,
            Some(s) => if s.1 == 0 || s.0 * SCALE > u128::MAX {
                None
            } else {
                Some(Price(((s.0 * SCALE) / s.1) as u128))
            },
        }
    }
}

/// The report of placing one order.
#[derive(Debug, Clone, PartialEq, Eq)]
pub struct ExecutionReport {
    /// The order as it ended up.
    pub order: Order,
    /// The fills, in execution order.
    pub fills: Vec<MatchFill>,
    /// The quantity filled.
    pub filled_quantity: Quantity,
    /// The quantity left unfilled.
    pub remaining_quantity: Quantity,
    /// How the order ended up.
    pub outcome: MatchOutcome,
    /// When the order was processed.
    pub timestamp: Timestamp,
}

impl ExecutionReport {
    /// A report with the given parts.
    pub fn new(
        order: Order,
        fills: Vec<MatchFill>,
        filled_quantity: Quantity,
        remaining_quantity: Quantity,
        outcome: MatchOutcome,
        timestamp: Timestamp,
    ) -> (r: ExecutionReport)
        ensures
            r.order == order,
            r.fills@ == fills@,
            r.filled_quantity == filled_quantity,
            r.remaining_quantity == remaining_quantity,
            r.outcome == outcome,
            r.timestamp == timestamp,
    {
        ExecutionReport { order, fills, filled_quantity, remaining_quantity, outcome, timestamp }
    }

    /// The number of fills.
    pub fn fill_count(&self) -> (r: usize)
        ensures
            r == self.fills@.len(),
    {
        self.fills.len()
    }

    /// Returns `true` when there is at least one fill.
    pub fn has_fills(&self) -> (r: bool)
        ensures
            r == (self.fills@.len() > 0),
    {
        self.fills.len() > 0
    }

    /// Returns `true` when the order was completely filled.
    pub fn is_fully_filled(&self) -> (r: bool)
        ensures
            r == (self.outcome == MatchOutcome::Filled),
    {
        self.outcome == MatchOutcome::Filled
    }

    /// Returns `true` when the order rests in the book.
    pub fn is_resting(&self) -> (r: bool)
        ensures
            r == (self.outcome is PartiallyFilledResting || self.outcome is Resting),
    {
        self.outcome.is_resting()
    }

    /// The quantity-weighted average fill price. A fill whose notional
    /// overflows counts its price times its whole quantity; `None` when there
    /// is no fill, the quantities sum to zero, or a sum overflows.
    pub fn average_price(&self) -> (r: Option<Price>)
        ensures
            r == average_of(self.fills@),
    {
        if self.fills.len() == 0 {
            return None;
        }
        let mut weighted: u128 = 0;
        let mut total: u128 = 0;
        let n = self.fills.len();
        let mut i: usize = 0;
        while i < n
            invariant
                0 <= i <= n,
                n == self.fills@.len(),
                average_sums(self.fills@.take(i as int)) == Some((weighted as int, total as int)),
            decreases n - i,
        {
            let fill = self.fills[i];
            proof {
                assert(self.fills@.take(i as int + 1).drop_last() =~= self.fills@.take(i as int));
            }
            let term = match fill.quantity.checked_mul_price(fill.price) {
                Some(notional) => notional.0,
                None => {
                    let whole = fill.quantity.0 / SCALE;
                    match fill.price.0.checked_mul(whole) {
                        Some(p) => p,
                        None => {
                            proof { lemma_average_sums_none(self.fills@, i as int + 1); }
                            return None;
                        },
                    }
                },
            };
            weighted = match weighted.checked_add(term) {
                Some(w) => w,
                None => {
                    proof { lemma_average_sums_none(self.fills@, i as int + 1); }
                    return None;
                },
            };
            total = match total.checked_add(fill.quantity.0) {
                Some(t) => t,
                None => {
                    proof { lemma_average_sums_none(self.fills@, i as int + 1); }
                    return None;
                },
            };
            i = i + 1;
        }
        proof {
            assert(self.fills@.take(n as int) =~= self.fills@);
        }
        if total == 0 {
            return None;
        }
        let scaled = match weighted.checked_mul(SCALE) {
            Some(s) => s,
            None => return None,
        };
        Some(Price::from_scaled(scaled / total))
    }
}

/// The notional of a fill in scaled units: its quantity times its price,
/// scaled back once.
pub open spec fn fill_notional(f: MatchFill) -> int {
    (f.quantity.0 * f.price.0) / (SCALE as int)
}

/// The total notional of fills.
pub open spec fn notional_total(fills: Seq<MatchFill>) -> int
    decreases fills.len(),
{
    if fills.len() == 0 {
        0
    } else {
        notional_total(fills.drop_last()) + fill_notional(fills.last())
    }
}

proof fn lemma_totals_nonneg(fills: Seq<MatchFill>)
    ensures
        notional_total(fills) >= 0,
        fill_total(fills) >= 0,
    decreases fills.len(),
{
    if fills.len() > 0 {
        lemma_totals_nonneg(fills.drop_last());
        let f = fills.last();
        assert(f.quantity.0 * f.price.0 >= 0) by (nonlinear_arith);
    }
}

/// The average price weights each fill by its quantity: when every fill's
/// notional, the total notional and the total quantity fit, the running sums
/// are the total notional and the total quantity of the fills, and the
/// average of non-empty fills with some quantity is the total notional over
/// the total quantity (in scaled units), whenever that quotient's scaling fits.
pub proof fn lemma_average_price_weights_by_quantity(fills: Seq<MatchFill>)
    requires
        forall|i: int| 0 <= i < fills.len() ==> (#[trigger] fills[i]).quantity.0 * fills[i].price.0 <= u128::MAX,
        notional_total(fills) <= u128::MAX,
        fill_total(fills) <= u128::MAX,
    ensures
        average_sums(fills) == Some((notional_total(fills), fill_total(fills))),
        fills.len() > 0 && fill_total(fills) > 0 && notional_total(fills) * SCALE <= u128::MAX ==> average_of(fills)
            == Some(Price(((notional_total(fills) * SCALE) / fill_total(fills)) as u128)),
    decreases fills.len(),
{
    if fills.len() > 0 {
        let pre = fills.drop_last();
        let f = fills.last();
        lemma_totals_nonneg(pre);
        assert(f.quantity.0 * f.price.0 >= 0) by (nonlinear_arith);
        assert(fill_notional(f) >= 0) by (nonlinear_arith)
            requires f.quantity.0 * f.price.0 >= 0;
        assert forall|i: int| 0 <= i < pre.len() implies (#[trigger] pre[i]).quantity.0 * pre[i].price.0 <= u128::MAX by {
            assert(pre[i] == fills[i]);
        }
        lemma_average_price_weights_by_quantity(pre);
        assert(fills[fills.len() - 1] == f);
    }
}

/// Once the running sums overflow, they stay overflowed.
proof fn lemma_average_sums_none(fills: Seq<MatchFill>, i: int)
    requires
        0 <= i <= fills.len(),
        average_sums(fills.take(i)) is None,
    ensures
        average_sums(fills) is None,
    decreases fills.len() - i,
{
    if i < fills.len() {
        assert(fills.take(i + 1).drop_last() =~= fills.take(i));
        lemma_average_sums_none(fills, i + 1);
    } else {
        assert(fills.take(i) =~= fills);
    }
}

/// An order as it is placed: id, price, quantity, side and time.
#[derive(Debug, Clone, Copy, PartialEq, Eq)]
pub struct OrderPlacement {
    /// The order.
    pub order_id: OrderId,
    /// Its limit price.
    pub price: Price,
    /// Its quantity.
    pub quantity: Quantity,
    /// Its side.
    pub side: OrderSide,
    /// When it was placed.
    pub timestamp: Timestamp,
}

/// The result of placing an order: a report, or why it failed.
pub type MatchResult = Result<ExecutionReport, MatchingError>;

/// How a cancel request ended.
#[derive(Debug, Clone, Copy, PartialEq, Eq, Structural)]
pub enum CancelOutcome {
    /// The order was cancelled.
    Cancelled,
    /// The order was already filled, cancelled or expired.
    AlreadyTerminal,
    /// No such order.
    NotFound,
}

/// The report of a cancel request.
#[derive(Debug, Clone, PartialEq, Eq)]
pub struct CancelResult {
    /// The order the request named.
    pub order_id: OrderId,
    /// How the request ended.
    pub outcome: CancelOutcome,
    /// The order, when it was found.
    pub order: Option<Order>,
    /// The quantity that was cancelled.
    pub cancelled_quantity: Quantity,
}

impl CancelResult {
    /// A successful cancellation.
    pub fn cancelled(order_id: OrderId, order: Order, cancelled_quantity: Quantity) -> (r: CancelResult)
        ensures
            r == (CancelResult { order_id, outcome: CancelOutcome::Cancelled, order: Some(order), cancelled_quantity }),
    {
        CancelResult { order_id, outcome: CancelOutcome::Cancelled, order: Some(order), cancelled_quantity }
    }

    /// A request for an order that was already terminal.
    pub fn already_terminal(order_id: OrderId, order: Order) -> (r: CancelResult)
        ensures
            r == (CancelResult {
                order_id,
                outcome: CancelOutcome::AlreadyTerminal,
                order: Some(order),
                cancelled_quantity: Quantity(0),
            }),
    {
        CancelResult { order_id, outcome: CancelOutcome::AlreadyTerminal, order: Some(order), cancelled_quantity: Quantity::zero() }
    }

    /// A request for an order that does not exist.
    pub fn not_found(order_id: OrderId) -> (r: CancelResult)
        ensures
            r == (CancelResult {
                order_id,
                outcome: CancelOutcome::NotFound,
                order: None,
                cancelled_quantity: Quantity(0),
            }),
    {
        CancelResult { order_id, outcome: CancelOutcome::NotFound, order: None, cancelled_quantity: Quantity::zero() }
    }

    /// Returns `true` when the order was cancelled.
    pub fn is_cancelled(&self) -> (r: bool)
        ensures
            r == (self.outcome == CancelOutcome::Cancelled),
    {
        self.outcome == CancelOutcome::Cancelled
    }
}

} // verus!
