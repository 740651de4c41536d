#![allow(unused_imports)]
use trading::matching::matcher::{available_quantity, available_quantity_market, match_order, would_cross};
use trading::orderbook::ops::Result as BookResult;
use trading::{
    Account, AccountError, Address, AddressParseError, Balance, CancelOutcome, CancelResult, EngineError, EngineResult,
    ExecutionReport, FeeConfig, Fill, FillRole, L2BookSummary, L2Level, MarketConfig, MarketId, MarketStatus, MatchFill,
    MatchOutcome, MatchResult, MatchingEngine, MatchingError, Nonce, Order, OrderBook, OrderBookError, OrderBookSnapshot,
    OrderId, OrderPlacement, OrderSide, OrderStatus, OrderType, PriceLevel, PriceLevelSnapshot, Price, Quantity,
    TimeInForce, Timestamp, Trade, TradeId, DECIMALS, SCALE,
};


    fn test_address(seed: u8) -> Address {
        Address::new([seed; 20])
    }



        #[test]
        fn test_accepts_new_orders() {
            assert!(MarketStatus::Active.accepts_new_orders());
            assert!(!MarketStatus::Halted.accepts_new_orders());
            assert!(!MarketStatus::CancelOnly.accepts_new_orders());
            assert!(!MarketStatus::Closed.accepts_new_orders());
        }

        #[test]
        fn test_allows_cancellations() {
            assert!(MarketStatus::Active.allows_cancellations());
            assert!(MarketStatus::Halted.allows_cancellations());
            assert!(MarketStatus::CancelOnly.allows_cancellations());
            assert!(!MarketStatus::Closed.allows_cancellations());
        }

        #[test]
        fn test_allows_matching() {
            assert!(MarketStatus::Active.allows_matching());
            assert!(!MarketStatus::Halted.allows_matching());
            assert!(!MarketStatus::CancelOnly.allows_matching());
            assert!(!MarketStatus::Closed.allows_matching());
        }

        #[test]
        fn market_test_display() {
            assert_eq!(MarketStatus::Active.to_display_string(), "Active");
            assert_eq!(MarketStatus::Halted.to_display_string(), "Halted");
        }

        
    



        #[test]
        fn market_test_default() {
            let fees = FeeConfig::default();
            assert_eq!(fees.maker_fee_bps, -2);
            assert_eq!(fees.taker_fee_bps, 10);
            assert!(fees.maker_has_rebate());
        }

        #[test]
        fn test_calculate_taker_fee() {
            let fees = FeeConfig::default();
            let notional = Quantity::from_whole(10000); // $10,000

            let fee = fees.calculate_taker_fee(notional);
            // 10 bps = 0.1% = $10
            assert_eq!(fee, Quantity::from_whole(10));
        }

        #[test]
        fn test_calculate_maker_fee() {
            let fees = FeeConfig::default();
            let notional = Quantity::from_whole(10000); // $10,000

            let (fee, is_rebate) = fees.calculate_maker_fee(notional);
            // -2 bps = -0.02% = $2 rebate
            assert_eq!(fee, Quantity::from_whole(2));
            assert!(is_rebate);
        }

        #[test]
        fn test_calculate_maker_fee_positive() {
            let fees = FeeConfig::new(5, 10); // Both positive
            let notional = Quantity::from_whole(10000);

            let (fee, is_rebate) = fees.calculate_maker_fee(notional);
            // 5 bps = 0.05% = $5
            assert_eq!(fee, Quantity::from_whole(5));
            assert!(!is_rebate);
        }

        #[test]
        fn market_test_display_2() {
            let fees = FeeConfig::default();
            assert_eq!(fees.to_display_string(), "maker=-2bps, taker=10bps");
        }
    



        fn sample_market() -> MarketConfig {
            MarketConfig::new(
                MarketId::new(1),
                "ETH/USDC".to_string(),
                test_address(1),
                test_address(2),
            )
        }

        #[test]
        fn market_test_new() {
            let market = sample_market();
            assert_eq!(market.id, MarketId::new(1));
            assert_eq!(market.symbol, "ETH/USDC");
            assert_eq!(market.status, MarketStatus::Active);
            assert!(market.accepts_new_orders());
        }

        #[test]
        fn test_builders() {
            let market = sample_market()
                .with_fees(FeeConfig::new(-5, 15))
                .with_tick_size(Price::from_scaled(SCALE / 100)) // 0.01
                .with_lot_size(Quantity::from_scaled(SCALE / 1000)) // 0.001
                .with_min_order_value(Quantity::from_whole(10))
                .with_max_order_size(Quantity::from_whole(1000))
                .with_decimals(18, 6);

            assert_eq!(market.fees.maker_fee_bps, -5);
            assert_eq!(market.fees.taker_fee_bps, 15);
            assert_eq!(market.base_decimals, 18);
            assert_eq!(market.quote_decimals, 6);
        }

        #[test]
        fn test_is_valid_price() {
            let market = sample_market().with_tick_size(Price::from_whole(1)); // Tick = 1.0

            assert!(market.is_valid_price(Price::from_whole(100)));
            assert!(market.is_valid_price(Price::from_whole(1)));
            assert!(!market.is_valid_price(Price::from_scaled(SCALE + SCALE / 2)));
            // 1.5
        }

        #[test]
        fn test_is_valid_quantity() {
            let market = sample_market().with_lot_size(Quantity::from_scaled(SCALE / 10)); // Lot = 0.1

            assert!(market.is_valid_quantity(Quantity::from_whole(1)));
            assert!(market.is_valid_quantity(Quantity::from_scaled(SCALE / 10))); // 0.1
            assert!(!market.is_valid_quantity(Quantity::from_scaled(SCALE / 20)));
            // 0.05
        }

        #[test]
        fn test_round_price_down() {
            let market = sample_market().with_tick_size(Price::from_whole(10)); // Tick = 10

            let price = Price::from_whole(123);
            let rounded = market.round_price_down(price);
            assert_eq!(rounded, Price::from_whole(120));
        }

        #[test]
        fn test_round_quantity_down() {
            let market = sample_market().with_lot_size(Quantity::from_scaled(SCALE / 10)); // Lot = 0.1

            let qty = Quantity::from_scaled(SCALE / 4); // 0.25
            let rounded = market.round_quantity_down(qty);
            assert_eq!(rounded, Quantity::from_scaled(2 * SCALE / 10)); // 0.2
        }

        #[test]
        fn market_test_display_3() {
            let market = sample_market();
            let display = market.to_display_string();
            assert!(display.contains("ETH/USDC"));
            assert!(display.contains("Active"));
        }

        
    

