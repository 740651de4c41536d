//! Orders: side, type, time in force, status and the order record itself.
use vstd::prelude::*;
use vstd::string::*;

use crate::types::ids::order_id_text;
use crate::types::text::{fixed_point, push_fixed_point};

use crate::types::ids::{Address, MarketId, OrderId};
use crate::types::primitives::{Nonce, Price, Quantity, Timestamp};

verus! {

/// The side of an order.
#[derive(Debug, Clone, Copy, PartialEq, Eq, Hash, Structural)]
pub enum OrderSide {
    /// A buy order (bid); it matches against asks.
    Buy,
    /// A sell order (ask); it matches against bids.
    Sell,
}

impl OrderSide {
    /// The other side.
    pub fn opposite(self) -> (r: OrderSide)
        ensures r != self,
    {
        match self {
            OrderSide::Buy => OrderSide::Sell,
            OrderSide::Sell => OrderSide::Buy,
        }
    }

    /// Returns `true` for `Buy`.
    pub fn is_buy(self) -> (r: bool)
        ensures r == (self == OrderSide::Buy),
    {
        matches!(self, OrderSide::Buy)
    }

    /// Returns `true` for `Sell`.
    pub fn is_sell(self) -> (r: bool)
        ensures r == (self == OrderSide::Sell),
    {
        matches!(self, OrderSide::Sell)
    }
}

/// The type of an order.
#[derive(Debug, Clone, Copy, PartialEq, Eq, Hash, Structural)]
pub enum OrderType {
    /// A limit order with a price bound.
    Limit,
    /// A market order that takes the best available prices.
    Market,
}

impl OrderType {
    /// Returns `true` for `Limit`.
    pub fn is_limit(self) -> (r: bool)
        ensures r == (self == OrderType::Limit),
    {
        matches!(self, OrderType::Limit)
    }

    /// Returns `true` for `Market`.
    pub fn is_market(self) -> (r: bool)
        ensures r == (self == OrderType::Market),
    {
        matches!(self, OrderType::Market)
    }
}

/// The execution policy of an order.
#[derive(Debug, Clone, Copy, PartialEq, Eq, Hash, Default, Structural)]
pub enum TimeInForce {
    /// Stays active until filled or cancelled.
    #[default]
    GoodTilCancelled,
    /// Executes what it can at once, the rest is cancelled.
    ImmediateOrCancel,
    /// Executes completely at once or not at all.
    FillOrKill,
    /// Only adds liquidity; rejected if it would cross.
    PostOnly,
}

impl TimeInForce {
    /// Returns `true` for good-til-cancelled.
    pub fn is_gtc(self) -> (r: bool)
        ensures r == (self == TimeInForce::GoodTilCancelled),
    {
        matches!(self, TimeInForce::GoodTilCancelled)
    }

    /// Returns `true` for the policies whose orders can rest in the book (GTC and post-only).
    pub fn can_rest(self) -> (r: bool)
        ensures r == (self == TimeInForce::GoodTilCancelled || self == TimeInForce::PostOnly),
    {
        matches!(self, TimeInForce::GoodTilCancelled | TimeInForce::PostOnly)
    }

    /// Returns `true` unless the policy is fill-or-kill.
    pub fn allows_partial_fill(self) -> (r: bool)
        ensures r == (self != TimeInForce::FillOrKill),
    {
        !matches!(self, TimeInForce::FillOrKill)
    }

    /// Returns `true` for post-only.
    pub fn is_post_only(self) -> (r: bool)
        ensures r == (self == TimeInForce::PostOnly),
    {
        matches!(self, TimeInForce::PostOnly)
    }
}

/// The state of an order.
#[derive(Debug, Clone, Copy, PartialEq, Eq, Hash, Structural)]
pub enum OrderStatus {
    /// Active, nothing filled yet.
    Open,
    /// Active, part of it filled.
    PartiallyFilled,
    /// Completely filled.
    Filled,
    /// Cancelled.
    Cancelled,
    /// Expired without being filled.
    Expired,
    /// Rejected.
    Rejected,
}

/// An order status is active when the order is open or partially filled.
pub open spec fn status_active(s: OrderStatus) -> bool {
    s == OrderStatus::Open || s == OrderStatus::PartiallyFilled
}

/// An order status is terminal when no further change can happen to the order.
pub open spec fn status_terminal(s: OrderStatus) -> bool {
    s == OrderStatus::Filled || s == OrderStatus::Cancelled || s == OrderStatus::Expired || s
        == OrderStatus::Rejected
}

impl OrderStatus {
    /// Returns `true` for `Open` and `PartiallyFilled`.
    pub fn is_active(self) -> (r: bool)
        ensures r == status_active(self),
    {
        matches!(self, OrderStatus::Open | OrderStatus::PartiallyFilled)
    }

    /// Returns `true` for `Filled`, `Cancelled`, `Expired` and `Rejected`.
    pub fn is_terminal(self) -> (r: bool)
        ensures r == status_terminal(self),
    {
        matches!(
            self,
            OrderStatus::Filled | OrderStatus::Cancelled | OrderStatus::Expired
                | OrderStatus::Rejected
        )
    }

    /// Returns `true` for `PartiallyFilled` and `Filled`.
    pub fn has_fills(self) -> (r: bool)
        ensures r == (self == OrderStatus::PartiallyFilled || self == OrderStatus::Filled),
    {
        matches!(self, OrderStatus::PartiallyFilled | OrderStatus::Filled)
    }
}

/// Every status is either active or terminal, never both.
pub proof fn lemma_status_active_xor_terminal(s: OrderStatus)
    ensures
        status_active(s) != status_terminal(s),
{
}

/// An order.
#[derive(Debug, Clone, Copy, PartialEq, Eq)]
pub struct Order {
    /// The order id (market id and sequence number).
    pub id: OrderId,
    /// The market the order is placed in.
    pub market_id: MarketId,
    /// The address that placed the order.
    pub owner: Address,
    /// Buy or sell.
    pub side: OrderSide,
    /// Limit or market.
    pub order_type: OrderType,
    /// Execution policy.
    pub time_in_force: TimeInForce,
    /// Limit price (zero for market orders).
    pub price: Price,
    /// Original quantity.
    pub quantity: Quantity,
    /// Quantity not yet filled.
    pub remaining_quantity: Quantity,
    /// Current status.
    pub status: OrderStatus,
    /// The owner's nonce.
    pub nonce: Nonce,
    /// Creation time.
    pub created_at: Timestamp,
}

/// The filled part of an order (zero if more remains than was ordered).
pub open spec fn filled_of(o: Order) -> int {
    if o.remaining_quantity.0 <= o.quantity.0 {
        o.quantity.0 - o.remaining_quantity.0
    } else {
        0
    }
}

impl Order {
    /// Creates an open limit order whose whole quantity remains.
    pub fn new_limit(
        id: OrderId,
        market_id: MarketId,
        owner: Address,
        side: OrderSide,
        time_in_force: TimeInForce,
        price: Price,
        quantity: Quantity,
        nonce: Nonce,
        created_at: Timestamp,
    ) -> (r: Order)
        ensures
            r == (Order {
                id,
                market_id,
                owner,
                side,
                order_type: OrderType::Limit,
                time_in_force,
                price,
                quantity,
                remaining_quantity: quantity,
                status: OrderStatus::Open,
                nonce,
                created_at,
            }),
    {
        Order {
            id,
            market_id,
            owner,
            side,
            order_type: OrderType::Limit,
            time_in_force,
            price,
            quantity,
            remaining_quantity: quantity,
            status: OrderStatus::Open,
            nonce,
            created_at,
        }
    }

    /// Creates an open market order: immediate-or-cancel, price zero.
    pub fn new_market(
        id: OrderId,
        market_id: MarketId,
        owner: Address,
        side: OrderSide,
        quantity: Quantity,
        nonce: Nonce,
        created_at: Timestamp,
    ) -> (r: Order)
        ensures
            r == (Order {
                id,
                market_id,
                owner,
                side,
                order_type: OrderType::Market,
                time_in_force: TimeInForce::ImmediateOrCancel,
                price: Price(0),
                quantity,
                remaining_quantity: quantity,
                status: OrderStatus::Open,
                nonce,
                created_at,
            }),
    {
        Order {
            id,
            market_id,
            owner,
            side,
            order_type: OrderType::Market,
            time_in_force: TimeInForce::ImmediateOrCancel,
            price: Price(0),
            quantity,
            remaining_quantity: quantity,
            status: OrderStatus::Open,
            nonce,
            created_at,
        }
    }

    /// Returns `true` for a buy order.
    pub fn is_buy(&self) -> (r: bool)
        ensures r == (self.side == OrderSide::Buy),
    {
        self.side.is_buy()
    }

    /// Returns `true` for a sell order.
    pub fn is_sell(&self) -> (r: bool)
        ensures r == (self.side == OrderSide::Sell),
    {
        self.side.is_sell()
    }

    /// Returns `true` for a limit order.
    pub fn is_limit(&self) -> (r: bool)
        ensures r == (self.order_type == OrderType::Limit),
    {
        self.order_type.is_limit()
    }

    /// Returns `true` for a market order.
    pub fn is_market(&self) -> (r: bool)
        ensures r == (self.order_type == OrderType::Market),
    {
        self.order_type.is_market()
    }

    /// Returns `true` while the order is open or partially filled.
    pub fn is_active(&self) -> (r: bool)
        ensures r == status_active(self.status),
    {
        self.status.is_active()
    }

    /// Returns `true` once the order is completely filled.
    pub fn is_filled(&self) -> (r: bool)
        ensures r == (self.status == OrderStatus::Filled),
    {
        matches!(self.status, OrderStatus::Filled)
    }

    /// The filled quantity: original minus remaining, or zero if that would be negative.
    pub fn filled_quantity(&self) -> (r: Quantity)
        ensures r.0 == filled_of(*self),
    {
        match self.quantity.checked_sub(self.remaining_quantity) {
            Some(q) => q,
            None => Quantity::zero(),
        }
    }

    /// The filled share in whole percent, rounded down (0 when the original
    /// quantity is zero). The ratio is computed without forming the product
    /// `filled * 100`, so every order has one.
    pub fn fill_percentage(&self) -> (r: u8)
        ensures
            r == if self.quantity.0 == 0 { 0 } else { (filled_of(*self) * 100) / (self.quantity.0 as int) },
            r <= 100,
    {
        if self.quantity.is_zero() {
            return 0;
        }
        let filled = self.filled_quantity().as_scaled();
        let total = self.quantity.as_scaled();
        // Long division of 100 * filled by total: add `filled` a hundred times,
        // carrying a whole `total` into the result whenever the remainder
        // reaches it.
        let mut acc: u128 = 0;
        let mut r: u8 = 0;
        let mut i: u8 = 0;
        while i < 100
            invariant
                0 < total,
                filled <= total,
                i <= 100,
                r <= i,
                acc < total,
                acc + (r as int) * (total as int) == (i as int) * (filled as int),
            decreases 100 - i,
        {
            if acc >= total - filled {
                assert((r as int + 1) * (total as int) == (r as int) * (total as int) + total) by (nonlinear_arith);
                acc = acc - (total - filled);
                r = r + 1;
            } else {
                acc = acc + filled;
            }
            assert((i as int + 1) * (filled as int) == (i as int) * (filled as int) + filled) by (nonlinear_arith);
            i = i + 1;
        }
        assert((r as int) == (100 * (filled as int)) / (total as int)) by (nonlinear_arith)
            requires
                acc + (r as int) * (total as int) == 100 * (filled as int),
                0 <= acc < total,
                r >= 0,
        {
            vstd::arithmetic::div_mod::lemma_fundamental_div_mod_converse(
                100 * (filled as int),
                total as int,
                r as int,
                acc as int,
            );
        }
        r
    }

    /// Records a fill: the remaining quantity drops by `fill_quantity` and the
    /// status becomes `Filled` (nothing remains) or `PartiallyFilled`.
    pub fn apply_fill(&mut self, fill_quantity: Quantity)
        requires fill_quantity.0 <= old(self).remaining_quantity.0,
        ensures
            *final(self) == (Order {
                remaining_quantity: Quantity((old(self).remaining_quantity.0 - fill_quantity.0) as u128),
                status: if old(self).remaining_quantity.0 == fill_quantity.0 {
                    OrderStatus::Filled
                } else {
                    OrderStatus::PartiallyFilled
                },
                ..*old(self)
            }),
    {
        self.remaining_quantity = Quantity(self.remaining_quantity.0 - fill_quantity.0);
        self.status = if self.remaining_quantity.is_zero() {
            OrderStatus::Filled
        } else {
            OrderStatus::PartiallyFilled
        };
    }

    /// Cancels an order that is not yet in a terminal state.
    pub fn cancel(&mut self)
        requires !status_terminal(old(self).status),
        ensures *final(self) == (Order { status: OrderStatus::Cancelled, ..*old(self) }),
    {
        self.status = OrderStatus::Cancelled;
    }

    /// Marks the order expired unless it is already in a terminal state.
    pub fn expire(&mut self)
        ensures
            *final(self) == if status_terminal(old(self).status) {
                *old(self)
            } else {
                Order { status: OrderStatus::Expired, ..*old(self) }
            },
    {
        if !self.status.is_terminal() {
            self.status = OrderStatus::Expired;
        }
    }
}


/// The name of a side.
pub open spec fn side_text(s: OrderSide) -> Seq<char> {
    match s {
        OrderSide::Buy => "Buy"@,
        OrderSide::Sell => "Sell"@,
    }
}

/// The name of an order type.
pub open spec fn order_type_text(t: OrderType) -> Seq<char> {
    match t {
        OrderType::Limit => "Limit"@,
        OrderType::Market => "Market"@,
    }
}

/// The short name of a time in force.
pub open spec fn time_in_force_text(t: TimeInForce) -> Seq<char> {
    match t {
        TimeInForce::GoodTilCancelled => "GTC"@,
        TimeInForce::ImmediateOrCancel => "IOC"@,
        TimeInForce::FillOrKill => "FOK"@,
        TimeInForce::PostOnly => "PostOnly"@,
    }
}

/// The name of an order status.
pub open spec fn status_text(s: OrderStatus) -> Seq<char> {
    match s {
        OrderStatus::Open => "Open"@,
        OrderStatus::PartiallyFilled => "PartiallyFilled"@,
        OrderStatus::Filled => "Filled"@,
        OrderStatus::Cancelled => "Cancelled"@,
        OrderStatus::Expired => "Expired"@,
        OrderStatus::Rejected => "Rejected"@,
    }
}

/// The text of an order: id, side, type, time in force, price, filled and
/// ordered quantity, and status.
pub open spec fn order_text(o: Order) -> Seq<char> {
    "Order("@ + order_id_text(o.id) + " "@ + side_text(o.side) + " "@ + order_type_text(o.order_type) + " "@
        + time_in_force_text(o.time_in_force) + " @ "@ + fixed_point(o.price.0 as nat) + " ["@ + fixed_point(
        filled_of(o) as nat,
    ) + "/"@ + fixed_point(o.quantity.0 as nat) + "] "@ + status_text(o.status) + ")"@
}

impl OrderSide {
    /// The name of the side.
    pub fn to_display_string(&self) -> (r: String)
        ensures
            r@ == side_text(*self),
    {
        match self {
            OrderSide::Buy => "Buy".to_owned(),
            OrderSide::Sell => "Sell".to_owned(),
        }
    }
}

impl OrderType {
    /// The name of the order type.
    pub fn to_display_string(&self) -> (r: String)
        ensures
            r@ == order_type_text(*self),
    {
        match self {
            OrderType::Limit => "Limit".to_owned(),
            OrderType::Market => "Market".to_owned(),
        }
    }
}

impl TimeInForce {
    /// The short name of the time in force.
    pub fn to_display_string(&self) -> (r: String)
        ensures
            r@ == time_in_force_text(*self),
    {
        match self {
            TimeInForce::GoodTilCancelled => "GTC".to_owned(),
            TimeInForce::ImmediateOrCancel => "IOC".to_owned(),
            TimeInForce::FillOrKill => "FOK".to_owned(),
            TimeInForce::PostOnly => "PostOnly".to_owned(),
        }
    }
}

impl OrderStatus {
    /// The name of the status.
    pub fn to_display_string(&self) -> (r: String)
        ensures
            r@ == status_text(*self),
    {
        match self {
            OrderStatus::Open => "Open".to_owned(),
            OrderStatus::PartiallyFilled => "PartiallyFilled".to_owned(),
            OrderStatus::Filled => "Filled".to_owned(),
            OrderStatus::Cancelled => "Cancelled".to_owned(),
            OrderStatus::Expired => "Expired".to_owned(),
            OrderStatus::Rejected => "Rejected".to_owned(),
        }
    }
}

impl Order {
    /// The text of the order, such as
    /// `"Order(Order(1-1) Buy Limit GTC @ 100.0 [0.0/10.0] Open)"`.
    pub fn to_display_string(&self) -> (r: String)
        ensures
            r@ == order_text(*self),
    {
        let mut s = "Order(".to_owned();
        s.append(self.id.to_display_string().as_str());
        s.append(" ");
        s.append(self.side.to_display_string().as_str());
        s.append(" ");
        s.append(self.order_type.to_display_string().as_str());
        s.append(" ");
        s.append(self.time_in_force.to_display_string().as_str());
        s.append(" @ ");
        push_fixed_point(&mut s, self.price.0);
        s.append(" [");
        push_fixed_point(&mut s, self.filled_quantity().0);
        s.append("/");
        push_fixed_point(&mut s, self.quantity.0);
        s.append("] ");
        s.append(self.status.to_display_string().as_str());
        s.append(")");
        s
    }
}

} // verus!
