#![allow(unused_imports)]
use trading::matching::matcher::{available_quantity, available_quantity_market, match_order, would_cross};
use trading::orderbook::ops::Result as BookResult;
use trading::{
    Account, AccountError, Address, AddressParseError, Balance, CancelOutcome, CancelResult, EngineError, EngineResult,
    ExecutionReport, FeeConfig, Fill, FillRole, L2BookSummary, L2Level, MarketConfig, MarketId, MarketStatus, MatchFill,
    MatchOutcome, MatchResult, MatchingEngine, MatchingError, Nonce, Order, OrderBook, OrderBookError, OrderBookSnapshot,
    OrderId, OrderPlacement, OrderSide, OrderStatus, OrderType, PriceLevel, PriceLevelSnapshot, Price, Quantity,
    TimeInForce, Timestamp, Trade, TradeId, DECIMALS, SCALE,
};


    fn market_id() -> MarketId {
        MarketId::new(1)
    }

    fn maker_address() -> Address {
        Address::new([1u8; 20])
    }

    fn taker_address() -> Address {
        Address::new([2u8; 20])
    }

    fn make_limit_order(
        seq: u64,
        side: OrderSide,
        price: u64,
        qty: u64,
        tif: TimeInForce,
        owner: Address,
    ) -> Order {
        Order::new_limit(
            OrderId::new(market_id(), seq),
            market_id(),
            owner,
            side,
            tif,
            Price::from_whole(price),
            Quantity::from_whole(qty),
            Nonce::new(seq),
            Timestamp::from_millis(seq * 1000),
        )
    }

    fn make_market_order(seq: u64, side: OrderSide, qty: u64, owner: Address) -> Order {
        Order::new_market(
            OrderId::new(market_id(), seq),
            market_id(),
            owner,
            side,
            Quantity::from_whole(qty),
            Nonce::new(seq),
            Timestamp::from_millis(seq * 1000),
        )
    }

    // =========================================================================
    // GTC Tests
    // =========================================================================

    #[test]
    fn gtc_resting_order_no_match() {
        let mut book = OrderBook::new(market_id());
        let engine = MatchingEngine::new();

        let sell = make_limit_order(
            1,
            OrderSide::Sell,
            100,
            10,
            TimeInForce::GoodTilCancelled,
            maker_address(),
        );
        let result = engine.place_order(&mut book, sell).unwrap();

        assert_eq!(result.outcome, MatchOutcome::Resting);
        assert!(result.fills.is_empty());
        assert_eq!(result.remaining_quantity, Quantity::from_whole(10));
        assert_eq!(book.order_count(), 1);
    }

    #[test]
    fn gtc_full_fill_single_order() {
        let mut book = OrderBook::new(market_id());
        let engine = MatchingEngine::new();

        // Place resting sell
        let sell = make_limit_order(
            1,
            OrderSide::Sell,
            100,
            10,
            TimeInForce::GoodTilCancelled,
            maker_address(),
        );
        engine.place_order(&mut book, sell).unwrap();

        // Place crossing buy
        let buy = make_limit_order(
            2,
            OrderSide::Buy,
            100,
            10,
            TimeInForce::GoodTilCancelled,
            taker_address(),
        );
        let result = engine.place_order(&mut book, buy).unwrap();

        assert_eq!(result.outcome, MatchOutcome::Filled);
        assert_eq!(result.fills.len(), 1);
        assert_eq!(result.filled_quantity, Quantity::from_whole(10));
        assert_eq!(result.remaining_quantity, Quantity::zero());
        assert_eq!(book.order_count(), 0); // Both orders consumed
    }

    #[test]
    fn gtc_partial_fill_resting() {
        let mut book = OrderBook::new(market_id());
        let engine = MatchingEngine::new();

        // Place resting sell for 5
        let sell = make_limit_order(
            1,
            OrderSide::Sell,
            100,
            5,
            TimeInForce::GoodTilCancelled,
            maker_address(),
        );
        engine.place_order(&mut book, sell).unwrap();

        // Place crossing buy for 10 - should fill 5, rest 5
        let buy = make_limit_order(
            2,
            OrderSide::Buy,
            100,
            10,
            TimeInForce::GoodTilCancelled,
            taker_address(),
        );
        let result = engine.place_order(&mut book, buy).unwrap();

        assert_eq!(result.outcome, MatchOutcome::PartiallyFilledResting);
        assert_eq!(result.fills.len(), 1);
        assert_eq!(result.filled_quantity, Quantity::from_whole(5));
        assert_eq!(result.remaining_quantity, Quantity::from_whole(5));
        assert_eq!(book.order_count(), 1); // Buy order resting
    }

    #[test]
    fn gtc_multi_level_fill() {
        let mut book = OrderBook::new(market_id());
        let engine = MatchingEngine::new();

        // Place multiple resting sells at different prices
        let sell1 = make_limit_order(
            1,
            OrderSide::Sell,
            100,
            5,
            TimeInForce::GoodTilCancelled,
            maker_address(),
        );
        let sell2 = make_limit_order(
            2,
            OrderSide::Sell,
            101,
            5,
            TimeInForce::GoodTilCancelled,
            maker_address(),
        );
        engine.place_order(&mut book, sell1).unwrap();
        engine.place_order(&mut book, sell2).unwrap();

        // Buy 10 at 101 - should fill both levels
        let buy = make_limit_order(
            3,
            OrderSide::Buy,
            101,
            10,
            TimeInForce::GoodTilCancelled,
            taker_address(),
        );
        let result = engine.place_order(&mut book, buy).unwrap();

        assert_eq!(result.outcome, MatchOutcome::Filled);
        assert_eq!(result.fills.len(), 2);
        assert_eq!(result.filled_quantity, Quantity::from_whole(10));

        // First fill at 100, second at 101
        assert_eq!(result.fills[0].price, Price::from_whole(100));
        assert_eq!(result.fills[1].price, Price::from_whole(101));
    }

    #[test]
    fn gtc_non_crossing_order() {
        let mut book = OrderBook::new(market_id());
        let engine = MatchingEngine::new();

        // Place resting sell at 100
        let sell = make_limit_order(
            1,
            OrderSide::Sell,
            100,
            10,
            TimeInForce::GoodTilCancelled,
            maker_address(),
        );
        engine.place_order(&mut book, sell).unwrap();

        // Place buy at 99 - should not cross
        let buy = make_limit_order(
            2,
            OrderSide::Buy,
            99,
            10,
            TimeInForce::GoodTilCancelled,
            taker_address(),
        );
        let result = engine.place_order(&mut book, buy).unwrap();

        assert_eq!(result.outcome, MatchOutcome::Resting);
        assert!(result.fills.is_empty());
        assert_eq!(book.order_count(), 2);
    }

    // =========================================================================
    // IOC Tests
    // =========================================================================

    #[test]
    fn ioc_full_fill() {
        let mut book = OrderBook::new(market_id());
        let engine = MatchingEngine::new();

        // Place resting sell
        let sell = make_limit_order(
            1,
            OrderSide::Sell,
            100,
            10,
            TimeInForce::GoodTilCancelled,
            maker_address(),
        );
        engine.place_order(&mut book, sell).unwrap();

        // IOC buy that fully fills
        let buy = make_limit_order(
            2,
            OrderSide::Buy,
            100,
            10,
            TimeInForce::ImmediateOrCancel,
            taker_address(),
        );
        let result = engine.place_order(&mut book, buy).unwrap();

        assert_eq!(result.outcome, MatchOutcome::Filled);
        assert_eq!(result.fills.len(), 1);
        assert_eq!(book.order_count(), 0);
    }

    #[test]
    fn ioc_partial_fill_cancelled() {
        let mut book = OrderBook::new(market_id());
        let engine = MatchingEngine::new();

        // Place resting sell for 5
        let sell = make_limit_order(
            1,
            OrderSide::Sell,
            100,
            5,
            TimeInForce::GoodTilCancelled,
            maker_address(),
        );
        engine.place_order(&mut book, sell).unwrap();

        // IOC buy for 10 - fills 5, cancels 5
        let buy = make_limit_order(
            2,
            OrderSide::Buy,
            100,
            10,
            TimeInForce::ImmediateOrCancel,
            taker_address(),
        );
        let result = engine.place_order(&mut book, buy).unwrap();

        assert_eq!(result.outcome, MatchOutcome::PartiallyFilledCancelled);
        assert_eq!(result.fills.len(), 1);
        assert_eq!(result.filled_quantity, Quantity::from_whole(5));
        assert_eq!(result.remaining_quantity, Quantity::from_whole(5));
        assert_eq!(book.order_count(), 0); // IOC doesn't rest
    }

    #[test]
    fn ioc_no_fill_cancelled() {
        let mut book = OrderBook::new(market_id());
        let engine = MatchingEngine::new();

        // Place resting sell at 100
        let sell = make_limit_order(
            1,
            OrderSide::Sell,
            100,
            10,
            TimeInForce::GoodTilCancelled,
            maker_address(),
        );
        engine.place_order(&mut book, sell).unwrap();

        // IOC buy at 99 - no cross, cancelled
        let buy = make_limit_order(
            2,
            OrderSide::Buy,
            99,
            10,
            TimeInForce::ImmediateOrCancel,
            taker_address(),
        );
        let result = engine.place_order(&mut book, buy).unwrap();

        assert_eq!(result.outcome, MatchOutcome::Cancelled);
        assert!(result.fills.is_empty());
        assert_eq!(book.order_count(), 1); // Only the sell remains
    }

    // =========================================================================
    // FOK Tests
    // =========================================================================

    #[test]
    fn fok_full_fill() {
        let mut book = OrderBook::new(market_id());
        let engine = MatchingEngine::new();

        // Place resting sell
        let sell = make_limit_order(
            1,
            OrderSide::Sell,
            100,
            10,
            TimeInForce::GoodTilCancelled,
            maker_address(),
        );
        engine.place_order(&mut book, sell).unwrap();

        // FOK buy that can fill
        let buy = make_limit_order(
            2,
            OrderSide::Buy,
            100,
            10,
            TimeInForce::FillOrKill,
            taker_address(),
        );
        let result = engine.place_order(&mut book, buy).unwrap();

        assert_eq!(result.outcome, MatchOutcome::Filled);
        assert_eq!(result.fills.len(), 1);
        assert_eq!(book.order_count(), 0);
    }

    #[test]
    fn fok_not_enough_liquidity() {
        let mut book = OrderBook::new(market_id());
        let engine = MatchingEngine::new();

        // Place resting sell for 5
        let sell = make_limit_order(
            1,
            OrderSide::Sell,
            100,
            5,
            TimeInForce::GoodTilCancelled,
            maker_address(),
        );
        engine.place_order(&mut book, sell).unwrap();

        // FOK buy for 10 - not enough liquidity
        let buy = make_limit_order(
            2,
            OrderSide::Buy,
            100,
            10,
            TimeInForce::FillOrKill,
            taker_address(),
        );
        let result = engine.place_order(&mut book, buy);

        assert!(matches!(
            result,
            Err(MatchingError::FillOrKillNotFilled { .. })
        ));
        assert_eq!(book.order_count(), 1); // Sell still resting
    }

    #[test]
    fn fok_no_cross_rejected() {
        let mut book = OrderBook::new(market_id());
        let engine = MatchingEngine::new();

        // Place resting sell at 100
        let sell = make_limit_order(
            1,
            OrderSide::Sell,
            100,
            10,
            TimeInForce::GoodTilCancelled,
            maker_address(),
        );
        engine.place_order(&mut book, sell).unwrap();

        // FOK buy at 99 - can't fill
        let buy = make_limit_order(
            2,
            OrderSide::Buy,
            99,
            10,
            TimeInForce::FillOrKill,
            taker_address(),
        );
        let result = engine.place_order(&mut book, buy);

        assert!(matches!(
            result,
            Err(MatchingError::FillOrKillNotFilled { .. })
        ));
    }

    // =========================================================================
    // PostOnly Tests
    // =========================================================================

    #[test]
    fn post_only_resting() {
        let mut book = OrderBook::new(market_id());
        let engine = MatchingEngine::new();

        // Place resting sell at 100
        let sell = make_limit_order(
            1,
            OrderSide::Sell,
            100,
            10,
            TimeInForce::GoodTilCancelled,
            maker_address(),
        );
        engine.place_order(&mut book, sell).unwrap();

        // PostOnly buy at 99 - doesn't cross, rests
        let buy = make_limit_order(
            2,
            OrderSide::Buy,
            99,
            10,
            TimeInForce::PostOnly,
            taker_address(),
        );
        let result = engine.place_order(&mut book, buy).unwrap();

        assert_eq!(result.outcome, MatchOutcome::Resting);
        assert!(result.fills.is_empty());
        assert_eq!(book.order_count(), 2);
    }

    #[test]
    fn post_only_would_cross_rejected() {
        let mut book = OrderBook::new(market_id());
        let engine = MatchingEngine::new();

        // Place resting sell at 100
        let sell = make_limit_order(
            1,
            OrderSide::Sell,
            100,
            10,
            TimeInForce::GoodTilCancelled,
            maker_address(),
        );
        engine.place_order(&mut book, sell).unwrap();

        // PostOnly buy at 100 - would cross, rejected
        let buy = make_limit_order(
            2,
            OrderSide::Buy,
            100,
            10,
            TimeInForce::PostOnly,
            taker_address(),
        );
        let result = engine.place_order(&mut book, buy);

        assert!(matches!(result, Err(MatchingError::PostOnlyWouldCross)));
        assert_eq!(book.order_count(), 1); // Only sell remains
    }

    // =========================================================================
    // Market Order Tests
    // =========================================================================

    #[test]
    fn market_order_full_fill() {
        let mut book = OrderBook::new(market_id());
        let engine = MatchingEngine::new();

        // Place resting sells
        let sell1 = make_limit_order(
            1,
            OrderSide::Sell,
            100,
            5,
            TimeInForce::GoodTilCancelled,
            maker_address(),
        );
        let sell2 = make_limit_order(
            2,
            OrderSide::Sell,
            101,
            5,
            TimeInForce::GoodTilCancelled,
            maker_address(),
        );
        engine.place_order(&mut book, sell1).unwrap();
        engine.place_order(&mut book, sell2).unwrap();

        // Market buy for 10
        let buy = make_market_order(3, OrderSide::Buy, 10, taker_address());
        let result = engine.place_order(&mut book, buy).unwrap();

        assert_eq!(result.outcome, MatchOutcome::Filled);
        assert_eq!(result.fills.len(), 2);
        assert_eq!(result.filled_quantity, Quantity::from_whole(10));
        assert_eq!(book.order_count(), 0);
    }

    #[test]
    fn market_order_partial_fill() {
        let mut book = OrderBook::new(market_id());
        let engine = MatchingEngine::new();

        // Place resting sell for 5
        let sell = make_limit_order(
            1,
            OrderSide::Sell,
            100,
            5,
            TimeInForce::GoodTilCancelled,
            maker_address(),
        );
        engine.place_order(&mut book, sell).unwrap();

        // Market buy for 10 - only 5 available
        let buy = make_market_order(2, OrderSide::Buy, 10, taker_address());
        let result = engine.place_order(&mut book, buy).unwrap();

        // Market orders don't rest, remainder is cancelled
        assert_eq!(result.outcome, MatchOutcome::PartiallyFilledCancelled);
        assert_eq!(result.filled_quantity, Quantity::from_whole(5));
        assert_eq!(result.remaining_quantity, Quantity::from_whole(5));
    }

    #[test]
    fn market_order_no_liquidity() {
        let mut book = OrderBook::new(market_id());
        let engine = MatchingEngine::new();

        // Market buy with no asks
        let buy = make_market_order(1, OrderSide::Buy, 10, taker_address());
        let result = engine.place_order(&mut book, buy).unwrap();

        assert_eq!(result.outcome, MatchOutcome::Cancelled);
        assert!(result.fills.is_empty());
    }

    // =========================================================================
    // Cancel Tests
    // =========================================================================

    #[test]
    fn cancel_resting_order() {
        let mut book = OrderBook::new(market_id());
        let engine = MatchingEngine::new();

        let sell = make_limit_order(
            1,
            OrderSide::Sell,
            100,
            10,
            TimeInForce::GoodTilCancelled,
            maker_address(),
        );
        engine.place_order(&mut book, sell).unwrap();

        let result = engine.cancel_order(&mut book, OrderId::new(market_id(), 1));

        assert!(result.is_cancelled());
        assert_eq!(result.cancelled_quantity, Quantity::from_whole(10));
        assert_eq!(book.order_count(), 0);
    }

    #[test]
    fn cancel_not_found() {
        let mut book = OrderBook::new(market_id());
        let engine = MatchingEngine::new();

        let result = engine.cancel_order(&mut book, OrderId::new(market_id(), 999));

        assert_eq!(result.outcome, CancelOutcome::NotFound);
    }

    // =========================================================================
    // Self-Trade Prevention Tests
    // =========================================================================

    #[test]
    fn self_trade_prevention_skips_own_orders() {
        let mut book = OrderBook::new(market_id());
        let engine = MatchingEngine::new();

        // Place sell and buy from same owner
        let sell = make_limit_order(
            1,
            OrderSide::Sell,
            100,
            10,
            TimeInForce::GoodTilCancelled,
            maker_address(),
        );
        engine.place_order(&mut book, sell).unwrap();

        // Same owner tries to buy
        let buy = make_limit_order(
            2,
            OrderSide::Buy,
            100,
            10,
            TimeInForce::GoodTilCancelled,
            maker_address(),
        );
        let result = engine.place_order(&mut book, buy).unwrap();

        // No fills, both orders rest
        assert!(result.fills.is_empty());
        assert_eq!(result.outcome, MatchOutcome::Resting);
        assert_eq!(book.order_count(), 2);
    }

    #[test]
    fn self_trade_prevention_matches_other_orders() {
        let mut book = OrderBook::new(market_id());
        let engine = MatchingEngine::new();

        // Place sells from two owners
        let sell1 = make_limit_order(
            1,
            OrderSide::Sell,
            100,
            5,
            TimeInForce::GoodTilCancelled,
            maker_address(),
        );
        let sell2 = make_limit_order(
            2,
            OrderSide::Sell,
            100,
            5,
            TimeInForce::GoodTilCancelled,
            taker_address(),
        );
        engine.place_order(&mut book, sell1).unwrap();
        engine.place_order(&mut book, sell2).unwrap();

        // Maker buys - should skip own sell, match taker's sell
        let buy = make_limit_order(
            3,
            OrderSide::Buy,
            100,
            10,
            TimeInForce::GoodTilCancelled,
            maker_address(),
        );
        let result = engine.place_order(&mut book, buy).unwrap();

        assert_eq!(result.fills.len(), 1);
        assert_eq!(result.filled_quantity, Quantity::from_whole(5));
        assert_eq!(result.outcome, MatchOutcome::PartiallyFilledResting);

        // maker_address sell (seq 1) still in book
        // taker_address sell (seq 2) consumed
        // maker_address buy (seq 3) partially resting
        assert_eq!(book.order_count(), 2);
    }

    // =========================================================================
    // Error Cases
    // =========================================================================

    #[test]
    fn wrong_market_rejected() {
        let mut book = OrderBook::new(market_id());
        let engine = MatchingEngine::new();

        let wrong_market = MarketId::new(999);
        let order = Order::new_limit(
            OrderId::new(wrong_market, 1),
            wrong_market,
            maker_address(),
            OrderSide::Sell,
            TimeInForce::GoodTilCancelled,
            Price::from_whole(100),
            Quantity::from_whole(10),
            Nonce::new(1),
            Timestamp::from_millis(1000),
        );

        let result = engine.place_order(&mut book, order);
        assert!(matches!(result, Err(MatchingError::WrongMarket { .. })));
    }

    #[test]
    fn duplicate_order_rejected() {
        let mut book = OrderBook::new(market_id());
        let engine = MatchingEngine::new();

        let sell = make_limit_order(
            1,
            OrderSide::Sell,
            100,
            10,
            TimeInForce::GoodTilCancelled,
            maker_address(),
        );
        engine.place_order(&mut book, sell).unwrap();

        // Try to place same order again
        let sell2 = make_limit_order(
            1,
            OrderSide::Sell,
            100,
            10,
            TimeInForce::GoodTilCancelled,
            maker_address(),
        );
        let result = engine.place_order(&mut book, sell2);

        assert!(matches!(
            result,
            Err(MatchingError::OrderAlreadyExists { .. })
        ));
    }

