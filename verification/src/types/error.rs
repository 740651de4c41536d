//! The engine-wide error type.
use vstd::prelude::*;
use vstd::std_specs::convert::IntoSpec;
use vstd::string::*;

use crate::types::ids::{market_id_text, order_id_text};

use crate::types::account::AccountError;
use crate::types::ids::{MarketId, OrderId};

verus! {

/// Every error condition of order processing, matching and settlement.
#[derive(Debug, Clone, PartialEq, Eq)]
pub enum EngineError {
    /// Order quantity is zero or below the minimum.
    InvalidQuantity,
    /// Order price is zero or invalid for a limit order.
    InvalidPrice,
    /// Price does not conform to the tick size.
    InvalidTickSize,
    /// Quantity does not conform to the lot size.
    InvalidLotSize,
    /// Order value below the market minimum.
    OrderValueTooSmall,
    /// Order size above the market maximum.
    OrderSizeTooLarge,
    /// A market order carries a price.
    MarketOrderWithPrice,
    /// A limit order lacks a price.
    LimitOrderWithoutPrice,
    /// Account not found.
    AccountNotFound,
    /// Not enough available balance.
    InsufficientBalance,
    /// Not enough locked balance.
    InsufficientLockedBalance,
    /// Nonce too low.
    InvalidNonce,
    /// Market not found.
    MarketNotFound {
        /// The market.
        market_id: MarketId,
    },
    /// Market not accepting new orders.
    MarketNotActive {
        /// The market.
        market_id: MarketId,
    },
    /// Market halted.
    MarketHalted {
        /// The market.
        market_id: MarketId,
    },
    /// Market closed.
    MarketClosed {
        /// The market.
        market_id: MarketId,
    },
    /// Order not found.
    OrderNotFound {
        /// The order.
        order_id: OrderId,
    },
    /// Order already terminal.
    OrderNotActive {
        /// The order.
        order_id: OrderId,
    },
    /// The caller does not own the order.
    NotOrderOwner,
    /// Duplicate order id.
    DuplicateOrderId {
        /// The order.
        order_id: OrderId,
    },
    /// Maker and taker are the same owner.
    SelfTrade,
    /// A post-only order would cross the spread.
    PostOnlyWouldCross,
    /// A fill-or-kill order could not be filled completely.
    FillOrKillNotFilled,
    /// Arithmetic overflow.
    Overflow,
    /// Internal error.
    InternalError {
        /// Description.
        message: String,
    },
    /// Serialization error.
    SerializationError {
        /// Description.
        message: String,
    },
}

/// The validation errors: mistakes in the order itself.
pub open spec fn is_validation(e: EngineError) -> bool {
    ||| e is InvalidQuantity
    ||| e is InvalidPrice
    ||| e is InvalidTickSize
    ||| e is InvalidLotSize
    ||| e is OrderValueTooSmall
    ||| e is OrderSizeTooLarge
    ||| e is MarketOrderWithPrice
    ||| e is LimitOrderWithoutPrice
}

/// The account errors.
pub open spec fn is_account(e: EngineError) -> bool {
    ||| e is AccountNotFound
    ||| e is InsufficientBalance
    ||| e is InsufficientLockedBalance
    ||| e is InvalidNonce
}

/// The market errors.
pub open spec fn is_market(e: EngineError) -> bool {
    ||| e is MarketNotFound
    ||| e is MarketNotActive
    ||| e is MarketHalted
    ||| e is MarketClosed
}

/// The internal (system) errors.
pub open spec fn is_internal(e: EngineError) -> bool {
    ||| e is Overflow
    ||| e is InternalError
    ||| e is SerializationError
}

/// No error belongs to two of the categories.
pub proof fn lemma_error_categories_disjoint(e: EngineError)
    ensures
        !(is_validation(e) && is_account(e)),
        !(is_validation(e) && is_market(e)),
        !(is_validation(e) && is_internal(e)),
        !(is_account(e) && is_market(e)),
        !(is_account(e) && is_internal(e)),
        !(is_market(e) && is_internal(e)),
{
}

impl EngineError {
    /// An internal error with the given message.
    pub fn internal<S: Into<String>>(message: S) -> (r: EngineError)
        ensures
            r is InternalError,
            S::obeys_into_spec() ==> r == (EngineError::InternalError { message: message.into_spec() }),
    {
        EngineError::InternalError { message: message.into() }
    }

    /// A serialization error with the given message.
    pub fn serialization<S: Into<String>>(message: S) -> (r: EngineError)
        ensures
            r is SerializationError,
            S::obeys_into_spec() ==> r == (EngineError::SerializationError { message: message.into_spec() }),
    {
        EngineError::SerializationError { message: message.into() }
    }

    /// Returns `true` for the validation errors.
    pub fn is_validation_error(&self) -> (r: bool)
        ensures r == is_validation(*self),
    {
        matches!(
            self,
            EngineError::InvalidQuantity | EngineError::InvalidPrice | EngineError::InvalidTickSize
                | EngineError::InvalidLotSize | EngineError::OrderValueTooSmall
                | EngineError::OrderSizeTooLarge | EngineError::MarketOrderWithPrice
                | EngineError::LimitOrderWithoutPrice
        )
    }

    /// Returns `true` for the account errors.
    pub fn is_account_error(&self) -> (r: bool)
        ensures r == is_account(*self),
    {
        matches!(
            self,
            EngineError::AccountNotFound | EngineError::InsufficientBalance
                | EngineError::InsufficientLockedBalance | EngineError::InvalidNonce
        )
    }

    /// Returns `true` for the market errors.
    pub fn is_market_error(&self) -> (r: bool)
        ensures r == is_market(*self),
    {
        matches!(
            self,
            EngineError::MarketNotFound { .. } | EngineError::MarketNotActive { .. }
                | EngineError::MarketHalted { .. } | EngineError::MarketClosed { .. }
        )
    }

    /// Returns `true` for the internal errors.
    pub fn is_internal_error(&self) -> (r: bool)
        ensures r == is_internal(*self),
    {
        matches!(
            self,
            EngineError::Overflow | EngineError::InternalError { .. }
                | EngineError::SerializationError { .. }
        )
    }

    /// No error is retryable: the caller has to fix the request.
    pub fn is_retryable(&self) -> (r: bool)
        ensures !r,
    {
        false
    }
}

/// The engine error that an account error stands for.
pub open spec fn engine_error_of(err: AccountError) -> EngineError {
    match err {
        AccountError::InsufficientBalance => EngineError::InsufficientBalance,
        AccountError::InsufficientLockedBalance => EngineError::InsufficientLockedBalance,
        AccountError::BalanceOverflow => EngineError::Overflow,
        AccountError::InvalidNonce => EngineError::InvalidNonce,
    }
}

impl From<AccountError> for EngineError {
    fn from(err: AccountError) -> (r: EngineError) {
        match err {
            AccountError::InsufficientBalance => EngineError::InsufficientBalance,
            AccountError::InsufficientLockedBalance => EngineError::InsufficientLockedBalance,
            AccountError::BalanceOverflow => EngineError::Overflow,
            AccountError::InvalidNonce => EngineError::InvalidNonce,
        }
    }
}

impl vstd::std_specs::convert::FromSpecImpl<AccountError> for EngineError {
    open spec fn obeys_from_spec() -> bool {
        true
    }

    open spec fn from_spec(v: AccountError) -> EngineError {
        engine_error_of(v)
    }
}

/// The result of an engine operation.
pub type EngineResult<T> = Result<T, EngineError>;


/// The text of an engine error.
pub open spec fn engine_error_text(e: EngineError) -> Seq<char> {
    match e {
        EngineError::InvalidQuantity => "invalid order quantity"@,
        EngineError::InvalidPrice => "invalid order price"@,
        EngineError::InvalidTickSize => "price does not conform to tick size"@,
        EngineError::InvalidLotSize => "quantity does not conform to lot size"@,
        EngineError::OrderValueTooSmall => "order value below minimum"@,
        EngineError::OrderSizeTooLarge => "order size exceeds maximum"@,
        EngineError::MarketOrderWithPrice => "market order should not have price"@,
        EngineError::LimitOrderWithoutPrice => "limit order requires price"@,
        EngineError::AccountNotFound => "account not found"@,
        EngineError::InsufficientBalance => "insufficient available balance"@,
        EngineError::InsufficientLockedBalance => "insufficient locked balance"@,
        EngineError::InvalidNonce => "invalid nonce"@,
        EngineError::NotOrderOwner => "not the order owner"@,
        EngineError::SelfTrade => "self-trade not allowed"@,
        EngineError::PostOnlyWouldCross => "post-only order would cross spread"@,
        EngineError::FillOrKillNotFilled => "fill-or-kill order could not be filled"@,
        EngineError::Overflow => "arithmetic overflow"@,
        EngineError::MarketNotFound { market_id } => "market "@ + market_id_text(market_id) + " not found"@,
        EngineError::MarketNotActive { market_id } => "market "@ + market_id_text(market_id) + " is not active"@,
        EngineError::MarketHalted { market_id } => "market "@ + market_id_text(market_id) + " is halted"@,
        EngineError::MarketClosed { market_id } => "market "@ + market_id_text(market_id) + " is closed"@,
        EngineError::OrderNotFound { order_id } => "order "@ + order_id_text(order_id) + " not found"@,
        EngineError::OrderNotActive { order_id } => "order "@ + order_id_text(order_id) + " is not active"@,
        EngineError::DuplicateOrderId { order_id } => "duplicate order id "@ + order_id_text(order_id),
        EngineError::InternalError { message } => "internal error: "@ + message@,
        EngineError::SerializationError { message } => "serialization error: "@ + message@,
    }
}

impl EngineError {
    /// The text of the error.
    pub fn message(&self) -> (r: String)
        ensures
            r@ == engine_error_text(*self),
    {
        match self {
            EngineError::InvalidQuantity => "invalid order quantity".to_owned(),
            EngineError::InvalidPrice => "invalid order price".to_owned(),
            EngineError::InvalidTickSize => "price does not conform to tick size".to_owned(),
            EngineError::InvalidLotSize => "quantity does not conform to lot size".to_owned(),
            EngineError::OrderValueTooSmall => "order value below minimum".to_owned(),
            EngineError::OrderSizeTooLarge => "order size exceeds maximum".to_owned(),
            EngineError::MarketOrderWithPrice => "market order should not have price".to_owned(),
            EngineError::LimitOrderWithoutPrice => "limit order requires price".to_owned(),
            EngineError::AccountNotFound => "account not found".to_owned(),
            EngineError::InsufficientBalance => "insufficient available balance".to_owned(),
            EngineError::InsufficientLockedBalance => "insufficient locked balance".to_owned(),
            EngineError::InvalidNonce => "invalid nonce".to_owned(),
            EngineError::NotOrderOwner => "not the order owner".to_owned(),
            EngineError::SelfTrade => "self-trade not allowed".to_owned(),
            EngineError::PostOnlyWouldCross => "post-only order would cross spread".to_owned(),
            EngineError::FillOrKillNotFilled => "fill-or-kill order could not be filled".to_owned(),
            EngineError::Overflow => "arithmetic overflow".to_owned(),
            EngineError::MarketNotFound { market_id } => {
                let mut s = "market ".to_owned();
                s.append(market_id.to_display_string().as_str());
                s.append(" not found");
                s
            },
            EngineError::MarketNotActive { market_id } => {
                let mut s = "market ".to_owned();
                s.append(market_id.to_display_string().as_str());
                s.append(" is not active");
                s
            },
            EngineError::MarketHalted { market_id } => {
                let mut s = "market ".to_owned();
                s.append(market_id.to_display_string().as_str());
                s.append(" is halted");
                s
            },
            EngineError::MarketClosed { market_id } => {
                let mut s = "market ".to_owned();
                s.append(market_id.to_display_string().as_str());
                s.append(" is closed");
                s
            },
            EngineError::OrderNotFound { order_id } => {
                let mut s = "order ".to_owned();
                s.append(order_id.to_display_string().as_str());
                s.append(" not found");
                s
            },
            EngineError::OrderNotActive { order_id } => {
                let mut s = "order ".to_owned();
                s.append(order_id.to_display_string().as_str());
                s.append(" is not active");
                s
            },
            EngineError::DuplicateOrderId { order_id } => {
                let mut s = "duplicate order id ".to_owned();
                s.append(order_id.to_display_string().as_str());
                s
            },
            EngineError::InternalError { message } => {
                let mut s = "internal error: ".to_owned();
                s.append(message.as_str());
                s
            },
            EngineError::SerializationError { message } => {
                let mut s = "serialization error: ".to_owned();
                s.append(message.as_str());
                s
            },
        }
    }
}

} // verus!
