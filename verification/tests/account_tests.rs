#![allow(unused_imports)]
use trading::matching::matcher::{available_quantity, available_quantity_market, match_order, would_cross};
use trading::orderbook::ops::Result as BookResult;
use trading::{
    Account, AccountError, Address, AddressParseError, Balance, CancelOutcome, CancelResult, EngineError, EngineResult,
    ExecutionReport, FeeConfig, Fill, FillRole, L2BookSummary, L2Level, MarketConfig, MarketId, MarketStatus, MatchFill,
    MatchOutcome, MatchResult, MatchingEngine, MatchingError, Nonce, Order, OrderBook, OrderBookError, OrderBookSnapshot,
    OrderId, OrderPlacement, OrderSide, OrderStatus, OrderType, PriceLevel, PriceLevelSnapshot, Price, Quantity,
    TimeInForce, Timestamp, Trade, TradeId, DECIMALS, SCALE,
};


    fn test_address(seed: u8) -> Address {
        Address::new([seed; 20])
    }



        #[test]
        fn account_test_new() {
            let balance = Balance::new(Quantity::from_whole(100));
            assert_eq!(balance.available, Quantity::from_whole(100));
            assert_eq!(balance.locked, Quantity::zero());
            assert_eq!(balance.total(), Quantity::from_whole(100));
        }

        #[test]
        fn account_test_zero() {
            let balance = Balance::zero();
            assert!(balance.is_zero());
            assert_eq!(balance.total(), Quantity::zero());
        }

        #[test]
        fn test_deposit() {
            let balance = Balance::new(Quantity::from_whole(100));
            let new_balance = balance.deposit(Quantity::from_whole(50)).unwrap();
            assert_eq!(new_balance.available, Quantity::from_whole(150));
        }

        #[test]
        fn test_withdraw() {
            let balance = Balance::new(Quantity::from_whole(100));
            let new_balance = balance.withdraw(Quantity::from_whole(30)).unwrap();
            assert_eq!(new_balance.available, Quantity::from_whole(70));
        }

        #[test]
        fn test_withdraw_insufficient() {
            let balance = Balance::new(Quantity::from_whole(100));
            assert!(balance.withdraw(Quantity::from_whole(150)).is_none());
        }

        #[test]
        fn test_lock() {
            let balance = Balance::new(Quantity::from_whole(100));
            let new_balance = balance.lock(Quantity::from_whole(40)).unwrap();
            assert_eq!(new_balance.available, Quantity::from_whole(60));
            assert_eq!(new_balance.locked, Quantity::from_whole(40));
            assert_eq!(new_balance.total(), Quantity::from_whole(100));
        }

        #[test]
        fn test_lock_insufficient() {
            let balance = Balance::new(Quantity::from_whole(100));
            assert!(balance.lock(Quantity::from_whole(150)).is_none());
        }

        #[test]
        fn test_unlock() {
            let balance = Balance {
                available: Quantity::from_whole(60),
                locked: Quantity::from_whole(40),
            };
            let new_balance = balance.unlock(Quantity::from_whole(20)).unwrap();
            assert_eq!(new_balance.available, Quantity::from_whole(80));
            assert_eq!(new_balance.locked, Quantity::from_whole(20));
        }

        #[test]
        fn account_test_consume_locked() {
            let balance = Balance {
                available: Quantity::from_whole(60),
                locked: Quantity::from_whole(40),
            };
            let new_balance = balance.consume_locked(Quantity::from_whole(40)).unwrap();
            assert_eq!(new_balance.available, Quantity::from_whole(60));
            assert_eq!(new_balance.locked, Quantity::zero());
            assert_eq!(new_balance.total(), Quantity::from_whole(60));
        }

        #[test]
        fn test_can_lock() {
            let balance = Balance::new(Quantity::from_whole(100));
            assert!(balance.can_lock(Quantity::from_whole(50)));
            assert!(balance.can_lock(Quantity::from_whole(100)));
            assert!(!balance.can_lock(Quantity::from_whole(150)));
        }

        
    



        #[test]
        fn account_test_new_2() {
            let owner = test_address(1);
            let account = Account::new(owner);
            assert_eq!(account.owner, owner);
            assert_eq!(account.nonce, Nonce::new(0));
            assert_eq!(account.token_count(), 0);
        }

        #[test]
        fn test_deposit_and_withdraw() {
            let owner = test_address(1);
            let token = test_address(10);
            let mut account = Account::new(owner);

            account.deposit(token, Quantity::from_whole(100)).unwrap();
            assert_eq!(account.available_balance(token), Quantity::from_whole(100));

            account.withdraw(token, Quantity::from_whole(30)).unwrap();
            assert_eq!(account.available_balance(token), Quantity::from_whole(70));
        }

        #[test]
        fn test_lock_and_unlock() {
            let owner = test_address(1);
            let token = test_address(10);
            let mut account = Account::new(owner);

            account.deposit(token, Quantity::from_whole(100)).unwrap();
            account.lock(token, Quantity::from_whole(40)).unwrap();

            assert_eq!(account.available_balance(token), Quantity::from_whole(60));
            assert_eq!(account.locked_balance(token), Quantity::from_whole(40));

            account.unlock(token, Quantity::from_whole(20)).unwrap();
            assert_eq!(account.available_balance(token), Quantity::from_whole(80));
            assert_eq!(account.locked_balance(token), Quantity::from_whole(20));
        }

        #[test]
        fn account_test_consume_locked_2() {
            let owner = test_address(1);
            let token = test_address(10);
            let mut account = Account::new(owner);

            account.deposit(token, Quantity::from_whole(100)).unwrap();
            account.lock(token, Quantity::from_whole(40)).unwrap();
            account
                .consume_locked(token, Quantity::from_whole(40))
                .unwrap();

            assert_eq!(account.available_balance(token), Quantity::from_whole(60));
            assert_eq!(account.locked_balance(token), Quantity::zero());
            assert_eq!(account.total_balance(token), Quantity::from_whole(60));
        }

        #[test]
        fn test_nonce_management() {
            let owner = test_address(1);
            let mut account = Account::new(owner);

            assert!(account.is_valid_nonce(Nonce::new(0)));
            assert!(account.is_valid_nonce(Nonce::new(1)));

            account.increment_nonce();
            assert!(!account.is_valid_nonce(Nonce::new(0)));
            assert!(account.is_valid_nonce(Nonce::new(1)));
        }

        #[test]
        fn test_multiple_tokens() {
            let owner = test_address(1);
            let token1 = test_address(10);
            let token2 = test_address(20);
            let mut account = Account::new(owner);

            account.deposit(token1, Quantity::from_whole(100)).unwrap();
            account.deposit(token2, Quantity::from_whole(200)).unwrap();

            assert_eq!(account.token_count(), 2);
            assert_eq!(account.available_balance(token1), Quantity::from_whole(100));
            assert_eq!(account.available_balance(token2), Quantity::from_whole(200));
        }

        #[test]
        fn test_withdraw_all_removes_token() {
            let owner = test_address(1);
            let token = test_address(10);
            let mut account = Account::new(owner);

            account.deposit(token, Quantity::from_whole(100)).unwrap();
            assert_eq!(account.token_count(), 1);

            account.withdraw(token, Quantity::from_whole(100)).unwrap();
            assert_eq!(account.token_count(), 0);
        }

        #[test]
        fn test_insufficient_balance_error() {
            let owner = test_address(1);
            let token = test_address(10);
            let mut account = Account::new(owner);

            account.deposit(token, Quantity::from_whole(100)).unwrap();
            let result = account.withdraw(token, Quantity::from_whole(150));
            assert_eq!(result, Err(AccountError::InsufficientBalance));
        }

        
    



        #[test]
        fn account_test_display() {
            assert_eq!(
                AccountError::InsufficientBalance.message(),
                "insufficient available balance"
            );
            assert_eq!(
                AccountError::BalanceOverflow.message(),
                "balance overflow"
            );
        }

    

