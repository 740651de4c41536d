//! Synthetic order flow: resting orders spread over price levels, and
//! crossing taker orders.
use vstd::prelude::*;

use crate::types::ids::{pack_id, Address, MarketId, OrderId};
use crate::types::order::{Order, OrderSide, OrderStatus, OrderType, TimeInForce};
use crate::types::primitives::{Nonce, Price, Quantity, Timestamp, SCALE};

verus! {

/// The owner byte of generated order number `seq`: owners vary over 200 addresses.
pub open spec fn owner_byte(seq: u64) -> u8 {
    ((seq % 200) + 10) as u8
}

/// A generated limit order: number `seq`, one unit at whole price `price`,
/// owned by the address whose bytes are all `owner_byte(seq)`.
pub open spec fn is_generated(o: Order, market_id: MarketId, seq: u64, side: OrderSide, tif: TimeInForce, price: u64) -> bool {
    is_generated_for(o, market_id, seq, owner_byte(seq), side, tif, price)
}

/// A generated limit order: number `seq`, one unit at whole price `price`,
/// owned by the address whose bytes are all `byte`.
pub open spec fn is_generated_for(
    o: Order,
    market_id: MarketId,
    seq: u64,
    byte: u8,
    side: OrderSide,
    tif: TimeInForce,
    price: u64,
) -> bool {
    &&& o.owner.0@ == Seq::new(20, |j: int| byte)
    &&& o == Order {
        id: OrderId(pack_id(market_id.0, seq) as u128),
        market_id,
        owner: o.owner,
        side,
        order_type: OrderType::Limit,
        time_in_force: tif,
        price: Price((price * SCALE) as u128),
        quantity: Quantity(SCALE),
        remaining_quantity: Quantity(SCALE),
        status: OrderStatus::Open,
        nonce: Nonce(seq),
        created_at: Timestamp((seq * 1000) as u64),
    }
}

/// The whole price of level `level`: rising from the base for asks,
/// falling from it for bids.
pub open spec fn level_price(base_price: u64, level: int, side: OrderSide) -> int {
    if side == OrderSide::Sell {
        base_price + level
    } else {
        base_price - level
    }
}

fn generated(market_id: MarketId, seq: u64, side: OrderSide, tif: TimeInForce, price: u64) -> (r: Order)
    requires
        seq * 1000 <= u64::MAX,
    ensures
        is_generated(r, market_id, seq, side, tif, price),
{
    let byte: u8 = ((seq % 200) + 10) as u8;
    generated_for(market_id, seq, byte, side, tif, price)
}

fn generated_for(market_id: MarketId, seq: u64, byte: u8, side: OrderSide, tif: TimeInForce, price: u64) -> (r: Order)
    requires
        seq * 1000 <= u64::MAX,
    ensures
        is_generated_for(r, market_id, seq, byte, side, tif, price),
{
    let owner = Address::new([byte; 20]);
    let r = Order::new_limit(
        OrderId::new(market_id, seq),
        market_id,
        owner,
        side,
        tif,
        Price::from_whole(price),
        Quantity::from_whole(1),
        Nonce::new(seq),
        Timestamp::from_millis(seq * 1000),
    );
    assert(owner.0@ =~= Seq::new(20, |j: int| byte));
    r
}

/// Order `i` of an alternating flow at one price: a sell at even positions
/// and a buy at odd ones, numbered `i + 1`, one unit, good-til-cancelled,
/// owned by the address whose bytes are all `owner_byte(i)`.
pub fn alternating_order(market_id: MarketId, i: u64, price: u64) -> (r: Order)
    requires
        (i + 1) * 1000 <= u64::MAX,
    ensures
        is_generated_for(
            r,
            market_id,
            (i + 1) as u64,
            owner_byte(i),
            if i % 2 == 0 { OrderSide::Sell } else { OrderSide::Buy },
            TimeInForce::GoodTilCancelled,
            price,
        ),
{
    let side = if i % 2 == 0 { OrderSide::Sell } else { OrderSide::Buy };
    let byte: u8 = ((i % 200) + 10) as u8;
    generated_for(market_id, i + 1, byte, side, TimeInForce::GoodTilCancelled, price)
}

/// Good-til-cancelled orders of one unit each, `count / price_levels` at
/// each of `price_levels` levels, numbered from 1 level by level; owners
/// vary with the order number.
pub fn generate_resting_orders(
    market_id: MarketId,
    count: usize,
    price_levels: usize,
    base_price: u64,
    side: OrderSide,
) -> (r: Vec<Order>)
    requires
        price_levels > 0,
        (count / price_levels) * price_levels * 1000 <= u64::MAX,
        side == OrderSide::Sell ==> base_price + price_levels - 1 <= u64::MAX,
        side == OrderSide::Buy ==> base_price >= price_levels - 1,
    ensures
        r@.len() == (count / price_levels) * price_levels,
        forall|k: int|
            0 <= k < r@.len() ==> is_generated(
                #[trigger] r@[k],
                market_id,
                (k + 1) as u64,
                side,
                TimeInForce::GoodTilCancelled,
                level_price(base_price, k / (count / price_levels) as int, side) as u64,
            ),
{
    let per_level = count / price_levels;
    let mut orders: Vec<Order> = Vec::new();
    let mut level: usize = 0;
    assert(per_level * price_levels <= count) by (nonlinear_arith)
        requires per_level == count / price_levels, price_levels > 0;
    while level < price_levels
        invariant
            0 <= level <= price_levels,
            per_level == count / price_levels,
            per_level * price_levels <= count,
            price_levels > 0,
            per_level * price_levels * 1000 <= u64::MAX,
            side == OrderSide::Sell ==> base_price + price_levels - 1 <= u64::MAX,
            side == OrderSide::Buy ==> base_price >= price_levels - 1,
            orders@.len() == level * per_level,
            forall|k: int|
                0 <= k < orders@.len() ==> is_generated(
                    #[trigger] orders@[k],
                    market_id,
                    (k + 1) as u64,
                    side,
                    TimeInForce::GoodTilCancelled,
                    level_price(base_price, k / per_level as int, side) as u64,
                ),
        decreases price_levels - level,
    {
        let price = if side == OrderSide::Sell {
            base_price + level as u64
        } else {
            base_price - level as u64
        };
        let mut i: usize = 0;
        assert((level + 1) * per_level <= price_levels * per_level) by (nonlinear_arith)
            requires level < price_levels;
        while i < per_level
            invariant
                0 <= i <= per_level,
                0 <= level < price_levels,
                per_level == count / price_levels,
                per_level * price_levels <= count,
                (level + 1) * per_level <= price_levels * per_level,
                per_level * price_levels * 1000 <= u64::MAX,
                price == level_price(base_price, level as int, side),
                orders@.len() == level * per_level + i,
                forall|k: int|
                    0 <= k < orders@.len() ==> is_generated(
                        #[trigger] orders@[k],
                        market_id,
                        (k + 1) as u64,
                        side,
                        TimeInForce::GoodTilCancelled,
                        level_price(base_price, k / per_level as int, side) as u64,
                    ),
            decreases per_level - i,
        {
            proof {
                assert(level * per_level + i + 1 <= (level + 1) * per_level) by (nonlinear_arith)
                    requires i < per_level;
                assert(price_levels * per_level == per_level * price_levels) by (nonlinear_arith);
            }
            let seq = (level * per_level + i + 1) as u64;
            let order = generated(market_id, seq, side, TimeInForce::GoodTilCancelled, price);
            proof {
                let k = level * per_level + i;
                assert(k / per_level as int == level) by (nonlinear_arith)
                    requires k == level * per_level + i, 0 <= i < per_level;
            }
            orders.push(order);
            i = i + 1;
        }
        assert((level + 1) * per_level == level * per_level + per_level) by (nonlinear_arith);
        level = level + 1;
    }
    assert(price_levels * per_level == per_level * price_levels) by (nonlinear_arith);
    orders
}

/// Immediate-or-cancel orders of one unit each at whole price `price`,
/// numbered from `start_seq`; owners vary with the order number.
pub fn generate_taker_orders(market_id: MarketId, count: usize, start_seq: u64, price: u64, side: OrderSide) -> (r: Vec<
    Order,
>)
    requires
        count > 0 ==> (start_seq + count - 1) * 1000 <= u64::MAX,
    ensures
        r@.len() == count,
        forall|k: int|
            0 <= k < count ==> is_generated(
                #[trigger] r@[k],
                market_id,
                (start_seq + k) as u64,
                side,
                TimeInForce::ImmediateOrCancel,
                price,
            ),
{
    let mut orders: Vec<Order> = Vec::new();
    let mut i: usize = 0;
    while i < count
        invariant
            0 <= i <= count,
            count > 0 ==> (start_seq + count - 1) * 1000 <= u64::MAX,
            orders@.len() == i,
            forall|k: int|
                0 <= k < i ==> is_generated(
                    #[trigger] orders@[k],
                    market_id,
                    (start_seq + k) as u64,
                    side,
                    TimeInForce::ImmediateOrCancel,
                    price,
                ),
        decreases count - i,
    {
        let seq = start_seq + i as u64;
        orders.push(generated(market_id, seq, side, TimeInForce::ImmediateOrCancel, price));
        i = i + 1;
    }
    orders
}

} // verus!
