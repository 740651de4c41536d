#![allow(unused_imports)]
use trading::matching::matcher::{available_quantity, available_quantity_market, match_order, would_cross};
use trading::orderbook::ops::Result as BookResult;
use trading::{
    Account, AccountError, Address, AddressParseError, Balance, CancelOutcome, CancelResult, EngineError, EngineResult,
    ExecutionReport, FeeConfig, Fill, FillRole, L2BookSummary, L2Level, MarketConfig, MarketId, MarketStatus, MatchFill,
    MatchOutcome, MatchResult, MatchingEngine, MatchingError, Nonce, Order, OrderBook, OrderBookError, OrderBookSnapshot,
    OrderId, OrderPlacement, OrderSide, OrderStatus, OrderType, PriceLevel, PriceLevelSnapshot, Price, Quantity,
    TimeInForce, Timestamp, Trade, TradeId, DECIMALS, SCALE,
};




        #[test]
        fn primitives_test_zero() {
            assert!(Price::zero().is_zero());
            assert_eq!(Price::zero().as_scaled(), 0);
        }

        #[test]
        fn primitives_test_from_whole() {
            let price = Price::from_whole(100);
            assert_eq!(price.as_scaled(), 100 * SCALE);
        }

        #[test]
        fn test_from_scaled() {
            let price = Price::from_scaled(SCALE / 2); // 0.5
            assert_eq!(price.as_scaled(), SCALE / 2);
        }

        #[test]
        fn test_try_from_whole_overflow() {
            // This should overflow
            let result = Price::try_from_whole(u128::MAX);
            assert!(result.is_none());
        }

        #[test]
        fn test_checked_add() {
            let p1 = Price::from_whole(100);
            let p2 = Price::from_whole(50);
            let sum = p1.checked_add(p2).unwrap();
            assert_eq!(sum, Price::from_whole(150));
        }

        #[test]
        fn test_checked_add_overflow() {
            let result = Price::max_value().checked_add(Price::from_scaled(1));
            assert!(result.is_none());
        }

        #[test]
        fn test_checked_sub() {
            let p1 = Price::from_whole(100);
            let p2 = Price::from_whole(30);
            let diff = p1.checked_sub(p2).unwrap();
            assert_eq!(diff, Price::from_whole(70));
        }

        #[test]
        fn test_checked_sub_underflow() {
            let p1 = Price::from_whole(10);
            let p2 = Price::from_whole(20);
            assert!(p1.checked_sub(p2).is_none());
        }

        #[test]
        fn test_checked_mul_scalar() {
            let price = Price::from_whole(50);
            let doubled = price.checked_mul_scalar(2).unwrap();
            assert_eq!(doubled, Price::from_whole(100));
        }

        #[test]
        fn test_checked_div_scalar() {
            let price = Price::from_whole(100);
            let halved = price.checked_div_scalar(2).unwrap();
            assert_eq!(halved, Price::from_whole(50));
        }

        #[test]
        fn test_checked_div_by_zero() {
            let price = Price::from_whole(100);
            assert!(price.checked_div_scalar(0).is_none());
        }

        #[test]
        fn test_saturating_add() {
            let result = Price::max_value().saturating_add(Price::from_scaled(1));
            assert_eq!(result, Price::max_value());
        }

        #[test]
        fn test_saturating_sub() {
            let result = Price::zero().saturating_sub(Price::from_scaled(1));
            assert_eq!(result, Price::zero());
        }

        #[test]
        fn test_min_max() {
            let p1 = Price::from_whole(100);
            let p2 = Price::from_whole(200);

            assert_eq!(p1.min(p2), p1);
            assert_eq!(p1.max(p2), p2);
        }

        #[test]
        fn primitives_test_ordering() {
            let p1 = Price::from_whole(100);
            let p2 = Price::from_whole(200);
            assert!(p1 < p2);
        }

        #[test]
        fn test_display_whole() {
            let price = Price::from_whole(100);
            assert_eq!(price.to_display_string(), "100.0");
        }

        #[test]
        fn test_display_fractional() {
            let price = Price::from_scaled(SCALE + SCALE / 2); // 1.5
            assert_eq!(price.to_display_string(), "1.5");
        }

        #[test]
        fn test_display_small_fraction() {
            let price = Price::from_scaled(SCALE / 4); // 0.25
            assert_eq!(price.to_display_string(), "0.25");
        }

        
    



        #[test]
        fn primitives_test_zero_2() {
            assert!(Quantity::zero().is_zero());
        }

        #[test]
        fn primitives_test_from_whole_2() {
            let qty = Quantity::from_whole(1000);
            assert_eq!(qty.as_scaled(), 1000 * SCALE);
        }

        #[test]
        fn test_checked_mul_price() {
            // 10 tokens * price of 2.0 = 20 (in quote currency)
            let qty = Quantity::from_whole(10);
            let price = Price::from_whole(2);
            let notional = qty.checked_mul_price(price).unwrap();
            assert_eq!(notional, Quantity::from_whole(20));
        }

        #[test]
        fn test_checked_mul_price_fractional() {
            // 10 tokens * price of 1.5 = 15
            let qty = Quantity::from_whole(10);
            let price = Price::from_scaled(SCALE + SCALE / 2); // 1.5
            let notional = qty.checked_mul_price(price).unwrap();
            assert_eq!(notional, Quantity::from_whole(15));
        }

        
    



        #[test]
        fn test_from_millis() {
            let ts = Timestamp::from_millis(1_700_000_000_000);
            assert_eq!(ts.as_millis(), 1_700_000_000_000);
        }

        #[test]
        fn test_from_secs() {
            let ts = Timestamp::from_secs(1_700_000_000);
            assert_eq!(ts.as_secs(), 1_700_000_000);
            assert_eq!(ts.as_millis(), 1_700_000_000_000);
        }

        #[test]
        fn primitives_test_ordering_2() {
            let t1 = Timestamp::from_millis(1000);
            let t2 = Timestamp::from_millis(2000);

            assert!(t1.is_before(t2));
            assert!(t2.is_after(t1));
            assert!(t1 < t2);
        }

        #[test]
        fn test_checked_add_millis() {
            let ts = Timestamp::from_millis(1000);
            let later = ts.checked_add_millis(500).unwrap();
            assert_eq!(later.as_millis(), 1500);
        }

        
    



        #[test]
        fn test_new_and_next() {
            let nonce = Nonce::new(5);
            assert_eq!(nonce.as_u64(), 5);
            assert_eq!(nonce.next().as_u64(), 6);
        }

        #[test]
        fn test_is_valid() {
            let nonce = Nonce::new(10);
            assert!(nonce.is_valid(Nonce::new(10))); // equal is valid
            assert!(nonce.is_valid(Nonce::new(5))); // greater is valid
            assert!(!nonce.is_valid(Nonce::new(15))); // less is invalid
        }

        #[test]
        fn test_checked_next_overflow() {
            let nonce = Nonce::new(u64::MAX);
            assert!(nonce.checked_next().is_none());
        }

        #[test]
        fn primitives_test_from_u64() {
            let nonce: Nonce = 42.into();
            assert_eq!(nonce.as_u64(), 42);
        }

        
    

