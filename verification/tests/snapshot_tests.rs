#![allow(unused_imports)]
use trading::matching::matcher::{available_quantity, available_quantity_market, match_order, would_cross};
use trading::orderbook::ops::Result as BookResult;
use trading::{
    Account, AccountError, Address, AddressParseError, Balance, CancelOutcome, CancelResult, EngineError, EngineResult,
    ExecutionReport, FeeConfig, Fill, FillRole, L2BookSummary, L2Level, MarketConfig, MarketId, MarketStatus, MatchFill,
    MatchOutcome, MatchResult, MatchingEngine, MatchingError, Nonce, Order, OrderBook, OrderBookError, OrderBookSnapshot,
    OrderId, OrderPlacement, OrderSide, OrderStatus, OrderType, PriceLevel, PriceLevelSnapshot, Price, Quantity,
    TimeInForce, Timestamp, Trade, TradeId, DECIMALS, SCALE,
};


    fn market_id() -> MarketId {
        MarketId::new(1)
    }

    fn make_buy_order(seq: u64, price: u64, qty: u64) -> Order {
        Order::new_limit(
            OrderId::new(market_id(), seq),
            market_id(),
            Address::zero(),
            OrderSide::Buy,
            TimeInForce::GoodTilCancelled,
            Price::from_whole(price),
            Quantity::from_whole(qty),
            Nonce::new(seq),
            Timestamp::from_millis(seq * 1000),
        )
    }

    fn make_sell_order(seq: u64, price: u64, qty: u64) -> Order {
        Order::new_limit(
            OrderId::new(market_id(), seq),
            market_id(),
            Address::zero(),
            OrderSide::Sell,
            TimeInForce::GoodTilCancelled,
            Price::from_whole(price),
            Quantity::from_whole(qty),
            Nonce::new(seq),
            Timestamp::from_millis(seq * 1000),
        )
    }

    fn setup_book() -> OrderBook {
        let mut book = OrderBook::new(market_id());

        // Add bids at prices 100, 99, 98
        book.insert_order(make_buy_order(1, 100, 10)).unwrap();
        book.insert_order(make_buy_order(2, 100, 20)).unwrap(); // Same price
        book.insert_order(make_buy_order(3, 99, 15)).unwrap();
        book.insert_order(make_buy_order(4, 98, 25)).unwrap();

        // Add asks at prices 101, 102, 103
        book.insert_order(make_sell_order(5, 101, 10)).unwrap();
        book.insert_order(make_sell_order(6, 102, 20)).unwrap();
        book.insert_order(make_sell_order(7, 102, 30)).unwrap(); // Same price
        book.insert_order(make_sell_order(8, 103, 25)).unwrap();

        book
    }

    // =========================================================================
    // Snapshot Creation Tests
    // =========================================================================

    #[test]
    fn snapshot_empty_book() {
        let book = OrderBook::new(market_id());
        let snapshot = OrderBookSnapshot::from_book(&book);

        assert_eq!(snapshot.market_id, market_id());
        assert!(snapshot.is_empty());
        assert_eq!(snapshot.order_count(), 0);
    }

    #[test]
    fn snapshot_captures_all_orders() {
        let book = setup_book();
        let snapshot = OrderBookSnapshot::from_book(&book);

        assert_eq!(snapshot.order_count(), 8);
        assert_eq!(snapshot.bid_level_count(), 3);
        assert_eq!(snapshot.ask_level_count(), 3);
    }

    #[test]
    fn snapshot_preserves_price_ordering() {
        let book = setup_book();
        let snapshot = OrderBookSnapshot::from_book(&book);

        // Bids should be descending
        let bid_prices: Vec<u128> = snapshot.bids.iter().map(|l| l.price.as_scaled()).collect();
        assert_eq!(
            bid_prices,
            vec![
                Price::from_whole(100).as_scaled(),
                Price::from_whole(99).as_scaled(),
                Price::from_whole(98).as_scaled(),
            ]
        );

        // Asks should be ascending
        let ask_prices: Vec<u128> = snapshot.asks.iter().map(|l| l.price.as_scaled()).collect();
        assert_eq!(
            ask_prices,
            vec![
                Price::from_whole(101).as_scaled(),
                Price::from_whole(102).as_scaled(),
                Price::from_whole(103).as_scaled(),
            ]
        );
    }

    #[test]
    fn snapshot_preserves_fifo_within_level() {
        let book = setup_book();
        let snapshot = OrderBookSnapshot::from_book(&book);

        // At price 100, orders 1 and 2 should be in FIFO order
        let level_100 = &snapshot.bids[0];
        assert_eq!(level_100.orders.len(), 2);
        assert_eq!(level_100.orders[0].id, OrderId::new(market_id(), 1));
        assert_eq!(level_100.orders[1].id, OrderId::new(market_id(), 2));
    }

    // =========================================================================
    // Snapshot Restoration Tests
    // =========================================================================

    #[test]
    fn snapshot_round_trip() {
        let original = setup_book();
        let snapshot = OrderBookSnapshot::from_book(&original);
        let restored = snapshot.to_book().unwrap();

        // Same number of orders
        assert_eq!(restored.order_count(), original.order_count());
        assert_eq!(restored.bid_level_count(), original.bid_level_count());
        assert_eq!(restored.ask_level_count(), original.ask_level_count());

        // Same best prices
        assert_eq!(restored.best_bid_price(), original.best_bid_price());
        assert_eq!(restored.best_ask_price(), original.best_ask_price());

        // Same total quantities
        assert_eq!(restored.total_bid_quantity(), original.total_bid_quantity());
        assert_eq!(restored.total_ask_quantity(), original.total_ask_quantity());
    }

    #[test]
    fn snapshot_round_trip_preserves_orders() {
        let original = setup_book();
        let snapshot = OrderBookSnapshot::from_book(&original);
        let restored = snapshot.to_book().unwrap();

        // Check each order exists and matches
        for order in original.orders() {
            let restored_order = restored.get_order(order.id).expect("order should exist");
            assert_eq!(restored_order.id, order.id);
            assert_eq!(restored_order.price, order.price);
            assert_eq!(restored_order.quantity, order.quantity);
            assert_eq!(restored_order.side, order.side);
        }
    }

    // =========================================================================
    // Serialization Tests
    // =========================================================================

    

    

    // =========================================================================
    // L2 Summary Tests
    // =========================================================================

    #[test]
    fn l2_summary_from_book() {
        let book = setup_book();
        let summary = L2BookSummary::from_book(&book, None);

        assert_eq!(summary.market_id, market_id());
        assert_eq!(summary.bids.len(), 3);
        assert_eq!(summary.asks.len(), 3);

        // Check aggregated quantities at price 100 (orders 1: 10 + order 2: 20 = 30)
        assert_eq!(summary.bids[0].price, Price::from_whole(100));
        assert_eq!(summary.bids[0].quantity, Quantity::from_whole(30));
        assert_eq!(summary.bids[0].order_count, 2);

        // Check aggregated quantities at price 102 (orders 6: 20 + order 7: 30 = 50)
        assert_eq!(summary.asks[1].price, Price::from_whole(102));
        assert_eq!(summary.asks[1].quantity, Quantity::from_whole(50));
        assert_eq!(summary.asks[1].order_count, 2);
    }

    #[test]
    fn l2_summary_with_depth_limit() {
        let book = setup_book();
        let summary = L2BookSummary::from_book(&book, Some(2));

        assert_eq!(summary.bids.len(), 2);
        assert_eq!(summary.asks.len(), 2);

        // Should only have best 2 levels
        assert_eq!(summary.bids[0].price, Price::from_whole(100));
        assert_eq!(summary.bids[1].price, Price::from_whole(99));

        assert_eq!(summary.asks[0].price, Price::from_whole(101));
        assert_eq!(summary.asks[1].price, Price::from_whole(102));
    }

    #[test]
    fn l2_summary_from_snapshot() {
        let book = setup_book();
        let snapshot = OrderBookSnapshot::from_book(&book);
        let summary = L2BookSummary::from_snapshot(&snapshot, None);

        assert_eq!(summary.bids.len(), 3);
        assert_eq!(summary.asks.len(), 3);

        // Same aggregation as from_book
        assert_eq!(summary.bids[0].quantity, Quantity::from_whole(30));
    }

    // =========================================================================
    // Best Price Tests
    // =========================================================================

    #[test]
    fn snapshot_best_prices() {
        let book = setup_book();
        let snapshot = OrderBookSnapshot::from_book(&book);

        assert_eq!(snapshot.best_bid_price(), Some(Price::from_whole(100)));
        assert_eq!(snapshot.best_ask_price(), Some(Price::from_whole(101)));
    }

    #[test]
    fn snapshot_best_prices_empty() {
        let book = OrderBook::new(market_id());
        let snapshot = OrderBookSnapshot::from_book(&book);

        assert_eq!(snapshot.best_bid_price(), None);
        assert_eq!(snapshot.best_ask_price(), None);
    }

    // =========================================================================
    // PriceLevelSnapshot Tests
    // =========================================================================

    #[test]
    fn price_level_snapshot_new() {
        let orders = vec![make_buy_order(1, 100, 10), make_buy_order(2, 100, 20)];
        let snapshot = PriceLevelSnapshot::new(Price::from_whole(100), orders);

        assert_eq!(snapshot.price, Price::from_whole(100));
        assert_eq!(snapshot.order_count(), 2);
        assert!(!snapshot.is_empty());
    }

    #[test]
    fn price_level_snapshot_empty() {
        let snapshot = PriceLevelSnapshot::new(Price::from_whole(100), vec![]);

        assert!(snapshot.is_empty());
        assert_eq!(snapshot.order_count(), 0);
    }

