#![allow(unused_imports)]
use trading::matching::matcher::{available_quantity, available_quantity_market, match_order, would_cross};
use trading::orderbook::ops::Result as BookResult;
use trading::{
    Account, AccountError, Address, AddressParseError, Balance, CancelOutcome, CancelResult, EngineError, EngineResult,
    ExecutionReport, FeeConfig, Fill, FillRole, L2BookSummary, L2Level, MarketConfig, MarketId, MarketStatus, MatchFill,
    MatchOutcome, MatchResult, MatchingEngine, MatchingError, Nonce, Order, OrderBook, OrderBookError, OrderBookSnapshot,
    OrderId, OrderPlacement, OrderSide, OrderStatus, OrderType, PriceLevel, PriceLevelSnapshot, Price, Quantity,
    TimeInForce, Timestamp, Trade, TradeId, DECIMALS, SCALE,
};


    fn test_address(seed: u8) -> Address {
        Address::new([seed; 20])
    }

    fn test_market_id() -> MarketId {
        MarketId::new(1)
    }

    fn test_order_id(seq: u64) -> OrderId {
        OrderId::new(test_market_id(), seq)
    }

    fn test_trade_id(seq: u64) -> TradeId {
        TradeId::new(test_market_id(), seq)
    }



        #[test]
        fn test_new_and_components() {
            let market = MarketId::new(42);
            let id = TradeId::new(market, 12345);

            assert_eq!(id.market_id(), market);
            assert_eq!(id.sequence(), 12345);
        }

        #[test]
        fn trade_test_display() {
            let id = TradeId::new(MarketId::new(1), 100);
            assert_eq!(id.to_display_string(), "T1-100");
        }

        #[test]
        fn trade_test_ordering() {
            let t1 = TradeId::new(MarketId::new(1), 1);
            let t2 = TradeId::new(MarketId::new(1), 2);
            assert!(t1 < t2);
        }

        
    



        #[test]
        fn test_is_maker_taker() {
            assert!(FillRole::Maker.is_maker());
            assert!(!FillRole::Maker.is_taker());
            assert!(FillRole::Taker.is_taker());
            assert!(!FillRole::Taker.is_maker());
        }

        #[test]
        fn trade_test_display_2() {
            assert_eq!(FillRole::Maker.to_display_string(), "Maker");
            assert_eq!(FillRole::Taker.to_display_string(), "Taker");
        }
    



        #[test]
        fn test_new_fill() {
            let fill = Fill::new(
                test_trade_id(1),
                test_order_id(10),
                test_address(1),
                test_order_id(20),
                FillRole::Taker,
                OrderSide::Buy,
                Price::from_whole(100),
                Quantity::from_whole(5),
                Quantity::from_scaled(SCALE / 100), // 0.01 fee
                false,
                Timestamp::from_millis(1000),
            );

            assert!(fill.is_taker());
            assert!(!fill.is_maker());
            assert_eq!(fill.side, OrderSide::Buy);
        }

        #[test]
        fn trade_test_notional() {
            // Use values that won't overflow when multiplied
            // Price = SCALE (representing 1.0)
            // Quantity = 5 * SCALE (representing 5.0)
            // Notional = (5 * SCALE * SCALE) / SCALE = 5 * SCALE
            let fill = Fill::new(
                test_trade_id(1),
                test_order_id(10),
                test_address(1),
                test_order_id(20),
                FillRole::Taker,
                OrderSide::Buy,
                Price::from_scaled(SCALE),        // Price = 1.0
                Quantity::from_scaled(5 * SCALE), // Quantity = 5.0
                Quantity::zero(),
                false,
                Timestamp::from_millis(1000),
            );

            let notional = fill.notional().unwrap();
            assert_eq!(notional, Quantity::from_scaled(5 * SCALE)); // 1.0 * 5.0 = 5.0
        }

        #[test]
        fn test_display_with_fee() {
            let fill = Fill::new(
                test_trade_id(1),
                test_order_id(10),
                test_address(1),
                test_order_id(20),
                FillRole::Taker,
                OrderSide::Buy,
                Price::from_whole(100),
                Quantity::from_whole(5),
                Quantity::from_scaled(SCALE / 10), // 0.1 fee
                false,
                Timestamp::from_millis(1000),
            );

            let display = fill.to_display_string();
            assert!(display.contains("Taker"));
            assert!(display.contains("Buy"));
        }

        #[test]
        fn test_display_with_rebate() {
            let fill = Fill::new(
                test_trade_id(1),
                test_order_id(10),
                test_address(1),
                test_order_id(20),
                FillRole::Maker,
                OrderSide::Sell,
                Price::from_whole(100),
                Quantity::from_whole(5),
                Quantity::from_scaled(SCALE / 100), // 0.01 rebate
                true,
                Timestamp::from_millis(1000),
            );

            let display = fill.to_display_string();
            assert!(display.contains("Maker"));
            assert!(display.contains("-")); // Rebate shown as negative
        }

        
    



        fn sample_trade() -> Trade {
            Trade::new(
                test_trade_id(1),
                test_market_id(),
                test_order_id(100),                 // maker
                test_order_id(200),                 // taker
                test_address(1),                    // maker address
                test_address(2),                    // taker address
                Price::from_scaled(2 * SCALE),      // Price = 2.0
                Quantity::from_scaled(10 * SCALE),  // Quantity = 10.0
                OrderSide::Buy,                     // taker is buying
                Quantity::from_scaled(SCALE / 100), // 0.01 maker rebate
                true,                               // is rebate
                Quantity::from_scaled(SCALE / 10),  // 0.1 taker fee
                Timestamp::from_millis(1700000000000),
            )
        }

        #[test]
        fn test_maker_side() {
            let trade = sample_trade();
            assert_eq!(trade.taker_side, OrderSide::Buy);
            assert_eq!(trade.maker_side(), OrderSide::Sell);
        }

        #[test]
        fn test_notional() {
            let trade = sample_trade();
            let notional = trade.notional().unwrap();
            assert_eq!(notional, Quantity::from_scaled(20 * SCALE)); // 2.0 * 10.0 = 20.0
        }

        #[test]
        fn test_to_fills() {
            let trade = sample_trade();
            let (maker_fill, taker_fill) = trade.to_fills();

            // Verify maker fill
            assert_eq!(maker_fill.order_id, trade.maker_order_id);
            assert_eq!(maker_fill.owner, trade.maker);
            assert_eq!(maker_fill.role, FillRole::Maker);
            assert_eq!(maker_fill.side, OrderSide::Sell); // Opposite of taker
            assert!(maker_fill.is_rebate);

            // Verify taker fill
            assert_eq!(taker_fill.order_id, trade.taker_order_id);
            assert_eq!(taker_fill.owner, trade.taker);
            assert_eq!(taker_fill.role, FillRole::Taker);
            assert_eq!(taker_fill.side, OrderSide::Buy);
            assert!(!taker_fill.is_rebate);

            // Both should reference the same trade
            assert_eq!(maker_fill.trade_id, taker_fill.trade_id);
            assert_eq!(maker_fill.price, taker_fill.price);
            assert_eq!(maker_fill.quantity, taker_fill.quantity);
        }

        #[test]
        fn trade_test_display_3() {
            let trade = sample_trade();
            let display = trade.to_display_string();
            assert!(display.contains("Trade("));
            assert!(display.contains("Buy"));
        }

        
    

