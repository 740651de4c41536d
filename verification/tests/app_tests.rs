use trading::demo::session::DemoState;
use trading::demo::workload::{alternating_order, generate_resting_orders, generate_taker_orders};
use trading::{
    Address, MarketId, MatchingEngine, Nonce, Order, OrderBook, OrderId, OrderSide, Price, Quantity, TimeInForce,
    Timestamp,
};

#[test]
fn test_generate_resting_orders() {
    let market_id = MarketId::new(1);
    let orders = generate_resting_orders(market_id, 100, 10, 1000, OrderSide::Sell);
    assert_eq!(orders.len(), 100);

    assert_eq!(orders[0].side, OrderSide::Sell);
    assert_eq!(orders[0].price, Price::from_whole(1000));
}

#[test]
fn test_generate_taker_orders() {
    let market_id = MarketId::new(1);
    let orders = generate_taker_orders(market_id, 50, 100, 1000, OrderSide::Buy);
    assert_eq!(orders.len(), 50);
    assert_eq!(orders[0].id.sequence(), 100);
    assert_eq!(orders[0].side, OrderSide::Buy);
    assert_eq!(orders[0].time_in_force, TimeInForce::ImmediateOrCancel);
}

#[test]
fn smoke_test_place_order() {
    let market_id = MarketId::new(1);
    let mut book = OrderBook::new(market_id);
    let engine = MatchingEngine::new();

    let order = Order::new_limit(
        OrderId::new(market_id, 1),
        market_id,
        Address::new([1u8; 20]),
        OrderSide::Sell,
        TimeInForce::GoodTilCancelled,
        Price::from_whole(100),
        Quantity::from_whole(10),
        Nonce::new(1),
        Timestamp::from_millis(1000),
    );

    let result = engine.place_order(&mut book, order);
    assert!(result.is_ok());
    assert_eq!(book.order_count(), 1);
    assert_eq!(book.best_ask_price(), Some(Price::from_whole(100)));
}

#[test]
fn smoke_test_matching() {
    let market_id = MarketId::new(1);
    let mut book = OrderBook::new(market_id);
    let engine = MatchingEngine::new();

    let sell = Order::new_limit(
        OrderId::new(market_id, 1),
        market_id,
        Address::new([1u8; 20]),
        OrderSide::Sell,
        TimeInForce::GoodTilCancelled,
        Price::from_whole(100),
        Quantity::from_whole(10),
        Nonce::new(1),
        Timestamp::from_millis(1000),
    );
    engine.place_order(&mut book, sell).unwrap();

    let buy = Order::new_limit(
        OrderId::new(market_id, 2),
        market_id,
        Address::new([2u8; 20]),
        OrderSide::Buy,
        TimeInForce::GoodTilCancelled,
        Price::from_whole(100),
        Quantity::from_whole(5),
        Nonce::new(1),
        Timestamp::from_millis(2000),
    );
    let result = engine.place_order(&mut book, buy).unwrap();

    assert!(result.has_fills());
    assert_eq!(result.fills.len(), 1);
    assert_eq!(result.fills[0].quantity, Quantity::from_whole(5));
}

#[test]
fn alternating_orders_trade_one_unit_each() {
    let market_id = MarketId::new(1);
    let first = alternating_order(market_id, 0, 1000);
    let second = alternating_order(market_id, 1, 1000);
    assert_eq!(first.side, OrderSide::Sell);
    assert_eq!(second.side, OrderSide::Buy);
    assert_eq!(first.id, OrderId::new(market_id, 1));
    assert_eq!(second.id, OrderId::new(market_id, 2));
    assert_eq!(first.owner, Address::new([10; 20]));
    assert_eq!(second.owner, Address::new([11; 20]));
    assert_eq!(second.created_at, Timestamp::from_millis(2000));
    assert_eq!(second.price, Price::from_whole(1000));
    let mut book = OrderBook::new(market_id);
    let engine = MatchingEngine::new();
    engine.place_order(&mut book, first).unwrap();
    let report = engine.place_order(&mut book, second).unwrap();
    assert_eq!(report.fills.len(), 1);
    assert!(book.is_empty());
}

#[test]
fn session_keeps_its_settings_and_records_fills() {
    let mut state = DemoState::new();
    let address = state.user_address;
    let market_id = state.market_id;
    let maker = Order::new_limit(
        OrderId::new(market_id, 1000),
        market_id,
        Address::new([7; 20]),
        OrderSide::Sell,
        TimeInForce::GoodTilCancelled,
        Price::from_whole(100),
        Quantity::from_whole(2),
        Nonce::new(1000),
        Timestamp::from_millis(1),
    );
    state.book.insert_order(maker).unwrap();
    let (_, first) = state.place_limit(OrderSide::Buy, 100, 1, TimeInForce::GoodTilCancelled);
    assert_eq!(first.unwrap().fills.len(), 1);
    assert_eq!(state.recent_trades.len(), 1);
    let (_, failed) = state.place_limit(OrderSide::Buy, 100, 1, TimeInForce::PostOnly);
    assert!(failed.is_err());
    assert_eq!(state.recent_trades.len(), 1);
    let _ = state.cancel(1);
    assert_eq!(state.recent_trades.len(), 1);
    assert_eq!(state.user_address, address);
    assert_eq!(state.market_id, market_id);
    assert_eq!(state.max_trade_history, 100);
}
