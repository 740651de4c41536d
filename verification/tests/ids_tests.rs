#![allow(unused_imports)]
use trading::matching::matcher::{available_quantity, available_quantity_market, match_order, would_cross};
use trading::orderbook::ops::Result as BookResult;
use trading::{
    Account, AccountError, Address, AddressParseError, Balance, CancelOutcome, CancelResult, EngineError, EngineResult,
    ExecutionReport, FeeConfig, Fill, FillRole, L2BookSummary, L2Level, MarketConfig, MarketId, MarketStatus, MatchFill,
    MatchOutcome, MatchResult, MatchingEngine, MatchingError, Nonce, Order, OrderBook, OrderBookError, OrderBookSnapshot,
    OrderId, OrderPlacement, OrderSide, OrderStatus, OrderType, PriceLevel, PriceLevelSnapshot, Price, Quantity,
    TimeInForce, Timestamp, Trade, TradeId, DECIMALS, SCALE,
};




        #[test]
        fn test_new_and_as_u64() {
            let market = MarketId::new(42);
            assert_eq!(market.as_u64(), 42);
        }

        #[test]
        fn ids_test_default() {
            let market = MarketId::default();
            assert_eq!(market.as_u64(), 0);
        }

        #[test]
        fn ids_test_from_u64() {
            let market: MarketId = 123.into();
            assert_eq!(market.as_u64(), 123);
        }

        #[test]
        fn ids_test_display() {
            let market = MarketId::new(5);
            assert_eq!(market.to_display_string(), "Market(5)");
        }

        #[test]
        fn ids_test_ordering() {
            let m1 = MarketId::new(1);
            let m2 = MarketId::new(2);
            assert!(m1 < m2);
        }

        
    



        #[test]
        fn test_new_and_extract() {
            let market = MarketId::new(7);
            let order = OrderId::new(market, 999);

            assert_eq!(order.market_id(), market);
            assert_eq!(order.sequence(), 999);
        }

        #[test]
        fn test_from_raw() {
            let market = MarketId::new(7);
            let order = OrderId::new(market, 999);
            let raw = order.as_u128();

            let reconstructed = OrderId::from_raw(raw);
            assert_eq!(reconstructed, order);
            assert_eq!(reconstructed.market_id(), market);
            assert_eq!(reconstructed.sequence(), 999);
        }

        #[test]
        fn test_encoding_independence() {
            // Different markets with same sequence should be different
            let o1 = OrderId::new(MarketId::new(1), 100);
            let o2 = OrderId::new(MarketId::new(2), 100);
            assert_ne!(o1, o2);

            // Same market with different sequences should be different
            let o3 = OrderId::new(MarketId::new(1), 101);
            assert_ne!(o1, o3);
        }

        #[test]
        fn test_max_values() {
            let market = MarketId::new(u64::MAX);
            let order = OrderId::new(market, u64::MAX);

            assert_eq!(order.market_id().as_u64(), u64::MAX);
            assert_eq!(order.sequence(), u64::MAX);
        }

        #[test]
        fn ids_test_display_2() {
            let order = OrderId::new(MarketId::new(3), 42);
            assert_eq!(order.to_display_string(), "Order(3-42)");
        }

        
    



        #[test]
        fn test_zero_address() {
            let zero = Address::zero();
            assert!(zero.is_zero());
            assert_eq!(zero.as_bytes(), &[0u8; 20]);
        }

        #[test]
        fn test_from_bytes() {
            let bytes = [1u8; 20];
            let addr = Address::new(bytes);
            assert_eq!(addr.as_bytes(), &bytes);
            assert!(!addr.is_zero());
        }

        #[test]
        fn test_from_hex_with_prefix() {
            let hex = "0x742d35Cc6634C0532925a3b844Bc9e7595f0bE01";
            let addr = Address::from_hex(hex).unwrap();
            assert!(!addr.is_zero());

            // Round-trip
            let hex_out = addr.to_hex();
            let addr2 = Address::from_hex(&hex_out).unwrap();
            assert_eq!(addr, addr2);
        }

        #[test]
        fn test_from_hex_without_prefix() {
            let hex = "742d35Cc6634C0532925a3b844Bc9e7595f0bE01";
            let addr = Address::from_hex(hex).unwrap();
            assert!(!addr.is_zero());
        }

        #[test]
        fn test_from_hex_uppercase_prefix() {
            let hex = "0X742d35Cc6634C0532925a3b844Bc9e7595f0bE01";
            let addr = Address::from_hex(hex).unwrap();
            assert!(!addr.is_zero());
        }

        #[test]
        fn test_from_hex_invalid_length() {
            let result = Address::from_hex("0x1234");
            assert!(matches!(
                result,
                Err(AddressParseError::InvalidLength {
                    expected: 40,
                    actual: 4
                })
            ));
        }

        #[test]
        fn test_from_hex_invalid_chars() {
            let result = Address::from_hex("0xGGGGGGGGGGGGGGGGGGGGGGGGGGGGGGGGGGGGGGGG");
            assert!(matches!(result, Err(AddressParseError::InvalidHex(_))));
        }

        #[test]
        fn test_display_shortened() {
            let addr = Address::from_hex("0x742d35Cc6634C0532925a3b844Bc9e7595f0bE01").unwrap();
            let display = addr.to_display_string();
            assert!(display.starts_with("0x742d"));
            assert!(display.ends_with("be01")); // hex encode produces lowercase
            assert!(display.contains("..."));
        }

        #[test]
        fn test_try_from_str() {
            let addr: Address = "0x742d35Cc6634C0532925a3b844Bc9e7595f0bE01"
                .try_into()
                .unwrap();
            assert!(!addr.is_zero());
        }

        
    

