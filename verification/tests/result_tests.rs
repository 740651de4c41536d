#![allow(unused_imports)]
use trading::matching::matcher::{available_quantity, available_quantity_market, match_order, would_cross};
use trading::orderbook::ops::Result as BookResult;
use trading::{
    Account, AccountError, Address, AddressParseError, Balance, CancelOutcome, CancelResult, EngineError, EngineResult,
    ExecutionReport, FeeConfig, Fill, FillRole, L2BookSummary, L2Level, MarketConfig, MarketId, MarketStatus, MatchFill,
    MatchOutcome, MatchResult, MatchingEngine, MatchingError, Nonce, Order, OrderBook, OrderBookError, OrderBookSnapshot,
    OrderId, OrderPlacement, OrderSide, OrderStatus, OrderType, PriceLevel, PriceLevelSnapshot, Price, Quantity,
    TimeInForce, Timestamp, Trade, TradeId, DECIMALS, SCALE,
};


    fn make_order() -> Order {
        Order::new_limit(
            OrderId::new(MarketId::new(1), 1),
            MarketId::new(1),
            Address::zero(),
            OrderSide::Buy,
            TimeInForce::GoodTilCancelled,
            Price::from_whole(10), // Use smaller values
            Quantity::from_whole(10),
            Nonce::new(1),
            Timestamp::from_millis(1000),
        )
    }

    #[test]
    fn match_fill_notional() {
        let fill = MatchFill::new(
            OrderId::new(MarketId::new(1), 1),
            OrderId::new(MarketId::new(1), 2),
            Address::zero(),
            Address::zero(),
            Price::from_whole(2), // Use smaller values to avoid overflow
            Quantity::from_whole(5),
            OrderSide::Buy,
            Timestamp::from_millis(1000),
        );

        // 2 * 5 = 10
        let notional = fill.notional().unwrap();
        assert_eq!(notional, Quantity::from_whole(10));
    }

    #[test]
    fn match_outcome_has_fills() {
        assert!(MatchOutcome::Filled.has_fills());
        assert!(MatchOutcome::PartiallyFilledResting.has_fills());
        assert!(MatchOutcome::PartiallyFilledCancelled.has_fills());
        assert!(!MatchOutcome::Resting.has_fills());
        assert!(!MatchOutcome::Cancelled.has_fills());
        assert!(!MatchOutcome::RejectedPostOnly.has_fills());
        assert!(!MatchOutcome::RejectedFillOrKill.has_fills());
    }

    #[test]
    fn match_outcome_is_resting() {
        assert!(!MatchOutcome::Filled.is_resting());
        assert!(MatchOutcome::PartiallyFilledResting.is_resting());
        assert!(!MatchOutcome::PartiallyFilledCancelled.is_resting());
        assert!(MatchOutcome::Resting.is_resting());
        assert!(!MatchOutcome::Cancelled.is_resting());
    }

    #[test]
    fn match_outcome_is_rejected() {
        assert!(!MatchOutcome::Filled.is_rejected());
        assert!(MatchOutcome::RejectedPostOnly.is_rejected());
        assert!(MatchOutcome::RejectedFillOrKill.is_rejected());
    }

    #[test]
    fn execution_report_average_price_single_fill() {
        let order = make_order();
        let fills = vec![MatchFill::new(
            OrderId::new(MarketId::new(1), 1),
            OrderId::new(MarketId::new(1), 2),
            Address::zero(),
            Address::zero(),
            Price::from_whole(10), // Use smaller values to avoid overflow
            Quantity::from_whole(10),
            OrderSide::Buy,
            Timestamp::from_millis(1000),
        )];

        let report = ExecutionReport::new(
            order,
            fills,
            Quantity::from_whole(10),
            Quantity::zero(),
            MatchOutcome::Filled,
            Timestamp::from_millis(1000),
        );

        assert_eq!(report.average_price(), Some(Price::from_whole(10)));
    }

    #[test]
    fn execution_report_average_price_multiple_fills() {
        let order = make_order();
        let fills = vec![
            MatchFill::new(
                OrderId::new(MarketId::new(1), 1),
                OrderId::new(MarketId::new(1), 3),
                Address::zero(),
                Address::zero(),
                Price::from_whole(10), // 5 @ 10 = 50
                Quantity::from_whole(5),
                OrderSide::Buy,
                Timestamp::from_millis(1000),
            ),
            MatchFill::new(
                OrderId::new(MarketId::new(1), 2),
                OrderId::new(MarketId::new(1), 3),
                Address::zero(),
                Address::zero(),
                Price::from_whole(12), // 5 @ 12 = 60
                Quantity::from_whole(5),
                OrderSide::Buy,
                Timestamp::from_millis(1000),
            ),
        ];

        // Total: 10 qty, 110 notional -> avg = 11
        let report = ExecutionReport::new(
            order,
            fills,
            Quantity::from_whole(10),
            Quantity::zero(),
            MatchOutcome::Filled,
            Timestamp::from_millis(1000),
        );

        assert_eq!(report.average_price(), Some(Price::from_whole(11)));
    }

    #[test]
    fn execution_report_no_fills() {
        let order = make_order();
        let report = ExecutionReport::new(
            order,
            vec![],
            Quantity::zero(),
            Quantity::from_whole(10),
            MatchOutcome::Resting,
            Timestamp::from_millis(1000),
        );

        assert!(!report.has_fills());
        assert_eq!(report.average_price(), None);
    }

    #[test]
    fn cancel_result_success() {
        let order = make_order();
        let result = CancelResult::cancelled(order.id, order, Quantity::from_whole(10));

        assert!(result.is_cancelled());
        assert_eq!(result.cancelled_quantity, Quantity::from_whole(10));
    }

    #[test]
    fn cancel_result_not_found() {
        let order_id = OrderId::new(MarketId::new(1), 999);
        let result = CancelResult::not_found(order_id);

        assert!(!result.is_cancelled());
        assert_eq!(result.outcome, CancelOutcome::NotFound);
        assert!(result.order.is_none());
    }

