#![allow(unused_imports)]
use trading::matching::matcher::{available_quantity, available_quantity_market, match_order, would_cross};
use trading::orderbook::ops::Result as BookResult;
use trading::{
    Account, AccountError, Address, AddressParseError, Balance, CancelOutcome, CancelResult, EngineError, EngineResult,
    ExecutionReport, FeeConfig, Fill, FillRole, L2BookSummary, L2Level, MarketConfig, MarketId, MarketStatus, MatchFill,
    MatchOutcome, MatchResult, MatchingEngine, MatchingError, Nonce, Order, OrderBook, OrderBookError, OrderBookSnapshot,
    OrderId, OrderPlacement, OrderSide, OrderStatus, OrderType, PriceLevel, PriceLevelSnapshot, Price, Quantity,
    TimeInForce, Timestamp, Trade, TradeId, DECIMALS, SCALE,
};


    #[test]
    fn test_is_validation_error() {
        assert!(EngineError::InvalidQuantity.is_validation_error());
        assert!(EngineError::InvalidPrice.is_validation_error());
        assert!(EngineError::InvalidTickSize.is_validation_error());
        assert!(!EngineError::InsufficientBalance.is_validation_error());
        assert!(!EngineError::SelfTrade.is_validation_error());
    }

    #[test]
    fn test_is_account_error() {
        assert!(EngineError::InsufficientBalance.is_account_error());
        assert!(EngineError::InvalidNonce.is_account_error());
        assert!(!EngineError::InvalidQuantity.is_account_error());
    }

    #[test]
    fn test_is_market_error() {
        let market_id = MarketId::new(1);
        assert!(EngineError::MarketNotFound { market_id }.is_market_error());
        assert!(EngineError::MarketHalted { market_id }.is_market_error());
        assert!(!EngineError::InvalidQuantity.is_market_error());
    }

    #[test]
    fn test_is_internal_error() {
        assert!(EngineError::Overflow.is_internal_error());
        assert!(EngineError::internal("test").is_internal_error());
        assert!(EngineError::serialization("test").is_internal_error());
        assert!(!EngineError::InvalidQuantity.is_internal_error());
    }

    #[test]
    fn error_test_display() {
        assert_eq!(
            EngineError::InvalidQuantity.message(),
            "invalid order quantity"
        );
        assert_eq!(
            EngineError::MarketNotFound {
                market_id: MarketId::new(42)
            }
            .message(),
            "market Market(42) not found"
        );
        assert_eq!(
            EngineError::internal("oops").message(),
            "internal error: oops"
        );
    }

    #[test]
    fn test_from_account_error() {
        let err: EngineError = AccountError::InsufficientBalance.into();
        assert_eq!(err, EngineError::InsufficientBalance);

        let err: EngineError = AccountError::BalanceOverflow.into();
        assert_eq!(err, EngineError::Overflow);
    }


    

    #[test]
    fn test_result_type_alias() {
        fn returns_result(fail: bool) -> EngineResult<u32> {
            if fail {
                Err(EngineError::InvalidQuantity)
            } else {
                Ok(42)
            }
        }

        assert_eq!(returns_result(false).unwrap(), 42);
        assert!(returns_result(true).is_err());
    }

