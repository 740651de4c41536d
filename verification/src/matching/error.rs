//! Why matching an order failed.
use vstd::prelude::*;
use vstd::string::*;

use crate::types::ids::order_id_text;
use crate::types::text::{fixed_point, push_fixed_point};

use crate::orderbook::ops::{order_book_error_text, OrderBookError};
use crate::types::ids::OrderId;
use crate::types::primitives::Quantity;

verus! {

/// Why placing or matching an order failed.
#[derive(Debug, Clone, PartialEq, Eq)]
pub enum MatchingError {
    /// The order is not in the book.
    OrderNotFound {
        /// The missing order.
        order_id: OrderId,
    },
    /// An order with the same id already rests in the book.
    OrderAlreadyExists {
        /// The duplicate order.
        order_id: OrderId,
    },
    /// The order belongs to another market.
    WrongMarket {
        /// The misrouted order.
        order_id: OrderId,
    },
    /// A market order cannot be post-only.
    MarketOrderPostOnly,
    /// A post-only order would have crossed the spread.
    PostOnlyWouldCross,
    /// A fill-or-kill order could not be filled completely.
    FillOrKillNotFilled {
        /// The quantity the order asked for.
        requested: Quantity,
        /// The quantity that could have been filled.
        available: Quantity,
    },
    /// A trade with the taker's own order was skipped.
    SelfTradeSkipped,
    /// An order book operation failed.
    OrderBookError {
        /// The text of the order book error.
        message: String,
    },
    /// An arithmetic overflow occurred.
    Overflow,
}

impl MatchingError {
    /// The matching error that carries the text of an order book error.
    pub fn from_book_error(err: OrderBookError) -> (r: MatchingError)
        ensures
            r matches MatchingError::OrderBookError { message } && message@ == order_book_error_text(err),
    {
        MatchingError::OrderBookError { message: err.message() }
    }
}

impl From<OrderBookError> for MatchingError {
    fn from(err: OrderBookError) -> (r: MatchingError)
        ensures
            r matches MatchingError::OrderBookError { message } && message@ == order_book_error_text(err),
    {
        MatchingError::from_book_error(err)
    }
}

/// The contract of `from` states the result; the trait-level specification
/// makes no claim.
impl vstd::std_specs::convert::FromSpecImpl<OrderBookError> for MatchingError {
    open spec fn obeys_from_spec() -> bool {
        false
    }

    open spec fn from_spec(v: OrderBookError) -> MatchingError {
        MatchingError::OrderBookError { message: arbitrary() }
    }
}


/// The text of a matching error.
pub open spec fn matching_error_text(e: MatchingError) -> Seq<char> {
    match e {
        MatchingError::OrderNotFound { order_id } => "order not found: "@ + order_id_text(order_id),
        MatchingError::OrderAlreadyExists { order_id } => "order already exists: "@ + order_id_text(order_id),
        MatchingError::WrongMarket { order_id } => "order belongs to different market: "@ + order_id_text(order_id),
        MatchingError::MarketOrderPostOnly => "market orders cannot use PostOnly time-in-force"@,
        MatchingError::PostOnlyWouldCross => "post-only order would have crossed the spread"@,
        MatchingError::FillOrKillNotFilled { requested, available } => "fill-or-kill order could not be filled: requested "@
            + fixed_point(requested.0 as nat) + ", available "@ + fixed_point(available.0 as nat),
        MatchingError::SelfTradeSkipped => "self-trade was skipped"@,
        MatchingError::OrderBookError { message } => "order book error: "@ + message@,
        MatchingError::Overflow => "arithmetic overflow during matching"@,
    }
}

impl MatchingError {
    /// The text of the error.
    pub fn message(&self) -> (r: String)
        ensures
            r@ == matching_error_text(*self),
    {
        match self {
            MatchingError::OrderNotFound { order_id } => {
                let mut s = "order not found: ".to_owned();
                s.append(order_id.to_display_string().as_str());
                s
            },
            MatchingError::OrderAlreadyExists { order_id } => {
                let mut s = "order already exists: ".to_owned();
                s.append(order_id.to_display_string().as_str());
                s
            },
            MatchingError::WrongMarket { order_id } => {
                let mut s = "order belongs to different market: ".to_owned();
                s.append(order_id.to_display_string().as_str());
                s
            },
            MatchingError::MarketOrderPostOnly => "market orders cannot use PostOnly time-in-force".to_owned(),
            MatchingError::PostOnlyWouldCross => "post-only order would have crossed the spread".to_owned(),
            MatchingError::FillOrKillNotFilled { requested, available } => {
                let mut s = "fill-or-kill order could not be filled: requested ".to_owned();
                push_fixed_point(&mut s, requested.0);
                s.append(", available ");
                push_fixed_point(&mut s, available.0);
                s
            },
            MatchingError::SelfTradeSkipped => "self-trade was skipped".to_owned(),
            MatchingError::OrderBookError { message } => {
                let mut s = "order book error: ".to_owned();
                s.append(message.as_str());
                s
            },
            MatchingError::Overflow => "arithmetic overflow during matching".to_owned(),
        }
    }
}

} // verus!
