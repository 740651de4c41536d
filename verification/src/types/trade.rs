//! Executed trades and the per-order fills derived from them.
use vstd::prelude::*;
use vstd::string::*;

use crate::types::ids::order_id_text;
use crate::types::order::side_text;
use crate::types::text::{decimal, fixed_point, push_decimal, push_fixed_point};

use crate::types::ids::{lemma_pack_bits, lemma_unpack_bits, pack_id, two_pow_64};
use crate::types::ids::{Address, MarketId, OrderId};
use crate::types::order::OrderSide;
use crate::types::primitives::{Price, Quantity, Timestamp};

verus! {

/// A trade identifier: market id in the upper 64 bits, sequence number in the lower 64 bits.
#[derive(Debug, Clone, Copy, PartialEq, Eq, PartialOrd, Ord, Hash, Structural)]
pub struct TradeId(pub u128);

impl TradeId {
    /// Packs a market id and a sequence number.
    pub fn new(market_id: MarketId, sequence: u64) -> (r: TradeId)
        ensures r.0 == pack_id(market_id.0, sequence),
    {
        proof { lemma_pack_bits(market_id.0, sequence); }
        TradeId(((market_id.0 as u128) << 64u128) | (sequence as u128))
    }

    /// The market id held in the upper 64 bits.
    pub fn market_id(self) -> (r: MarketId)
        ensures r.0 as int == self.0 as int / two_pow_64(),
    {
        proof { lemma_unpack_bits(self.0); }
        MarketId((self.0 >> 64u128) as u64)
    }

    /// The sequence number held in the lower 64 bits.
    pub fn sequence(self) -> (r: u64)
        ensures r as int == self.0 as int % two_pow_64(),
    {
        proof { lemma_unpack_bits(self.0); }
        self.0 as u64
    }

    /// Returns the raw 128-bit value.
    pub fn as_u128(self) -> (r: u128)
        ensures r == self.0,
    {
        self.0
    }
}

/// The role of a party in a fill.
#[derive(Debug, Clone, Copy, PartialEq, Eq, Hash, Structural)]
pub enum FillRole {
    /// The resting order that provided liquidity.
    Maker,
    /// The incoming order that took liquidity.
    Taker,
}

impl FillRole {
    /// Returns `true` for `Maker`.
    pub fn is_maker(self) -> (r: bool)
        ensures r == (self == FillRole::Maker),
    {
        matches!(self, FillRole::Maker)
    }

    /// Returns `true` for `Taker`.
    pub fn is_taker(self) -> (r: bool)
        ensures r == (self == FillRole::Taker),
    {
        matches!(self, FillRole::Taker)
    }
}

/// One side of a trade, from a single order's point of view.
#[derive(Debug, Clone, Copy, PartialEq, Eq)]
pub struct Fill {
    /// The trade this fill belongs to.
    pub trade_id: TradeId,
    /// The order that received the fill.
    pub order_id: OrderId,
    /// The owner of that order.
    pub owner: Address,
    /// The order on the other side.
    pub counterparty_order_id: OrderId,
    /// Maker or taker.
    pub role: FillRole,
    /// The side of the order that received the fill.
    pub side: OrderSide,
    /// Execution price.
    pub price: Price,
    /// Filled quantity.
    pub quantity: Quantity,
    /// Fee charged, or rebate received when `is_rebate`.
    pub fee: Quantity,
    /// `true` when `fee` is paid to the order's owner.
    pub is_rebate: bool,
    /// Execution time.
    pub timestamp: Timestamp,
}

impl Fill {
    /// Creates a fill from its fields.
    pub fn new(
        trade_id: TradeId,
        order_id: OrderId,
        owner: Address,
        counterparty_order_id: OrderId,
        role: FillRole,
        side: OrderSide,
        price: Price,
        quantity: Quantity,
        fee: Quantity,
        is_rebate: bool,
        timestamp: Timestamp,
    ) -> (r: Fill)
        ensures
            r == (Fill {
                trade_id,
                order_id,
                owner,
                counterparty_order_id,
                role,
                side,
                price,
                quantity,
                fee,
                is_rebate,
                timestamp,
            }),
    {
        Fill {
            trade_id,
            order_id,
            owner,
            counterparty_order_id,
            role,
            side,
            price,
            quantity,
            fee,
            is_rebate,
            timestamp,
        }
    }

    /// Notional value `quantity * price / SCALE`; `None` on overflow.
    pub fn notional(&self) -> (r: Option<Quantity>)
        ensures
            r is Some <==> self.quantity.0 * self.price.0 <= u128::MAX,
            r matches Some(v) ==> v.0 == (self.quantity.0 * self.price.0) / (crate::types::primitives::SCALE as int),
    {
        self.quantity.checked_mul_price(self.price)
    }

    /// Returns `true` for a maker fill.
    pub fn is_maker(&self) -> (r: bool)
        ensures r == (self.role == FillRole::Maker),
    {
        self.role.is_maker()
    }

    /// Returns `true` for a taker fill.
    pub fn is_taker(&self) -> (r: bool)
        ensures r == (self.role == FillRole::Taker),
    {
        self.role.is_taker()
    }
}

/// A match between a resting maker order and an incoming taker order.
#[derive(Debug, Clone, Copy, PartialEq, Eq)]
pub struct Trade {
    /// Trade id.
    pub id: TradeId,
    /// Market of the trade.
    pub market_id: MarketId,
    /// The resting order.
    pub maker_order_id: OrderId,
    /// The incoming order.
    pub taker_order_id: OrderId,
    /// Owner of the maker order.
    pub maker: Address,
    /// Owner of the taker order.
    pub taker: Address,
    /// Execution price (the maker's price).
    pub price: Price,
    /// Traded quantity.
    pub quantity: Quantity,
    /// Side of the taker.
    pub taker_side: OrderSide,
    /// Fee paid by (or rebate paid to) the maker.
    pub maker_fee: Quantity,
    /// `true` when `maker_fee` is a rebate.
    pub maker_is_rebate: bool,
    /// Fee paid by the taker.
    pub taker_fee: Quantity,
    /// Execution time.
    pub timestamp: Timestamp,
}

/// The side opposite to `s`.
pub open spec fn opposite_side(s: OrderSide) -> OrderSide {
    match s {
        OrderSide::Buy => OrderSide::Sell,
        OrderSide::Sell => OrderSide::Buy,
    }
}

impl Trade {
    /// Creates a trade from its fields.
    pub fn new(
        id: TradeId,
        market_id: MarketId,
        maker_order_id: OrderId,
        taker_order_id: OrderId,
        maker: Address,
        taker: Address,
        price: Price,
        quantity: Quantity,
        taker_side: OrderSide,
        maker_fee: Quantity,
        maker_is_rebate: bool,
        taker_fee: Quantity,
        timestamp: Timestamp,
    ) -> (r: Trade)
        ensures
            r == (Trade {
                id,
                market_id,
                maker_order_id,
                taker_order_id,
                maker,
                taker,
                price,
                quantity,
                taker_side,
                maker_fee,
                maker_is_rebate,
                taker_fee,
                timestamp,
            }),
    {
        Trade {
            id,
            market_id,
            maker_order_id,
            taker_order_id,
            maker,
            taker,
            price,
            quantity,
            taker_side,
            maker_fee,
            maker_is_rebate,
            taker_fee,
            timestamp,
        }
    }

    /// Notional value `quantity * price / SCALE`; `None` on overflow.
    pub fn notional(&self) -> (r: Option<Quantity>)
        ensures
            r is Some <==> self.quantity.0 * self.price.0 <= u128::MAX,
            r matches Some(v) ==> v.0 == (self.quantity.0 * self.price.0) / (crate::types::primitives::SCALE as int),
    {
        self.quantity.checked_mul_price(self.price)
    }

    /// The maker's side: the opposite of the taker's.
    pub fn maker_side(&self) -> (r: OrderSide)
        ensures r == opposite_side(self.taker_side),
    {
        self.taker_side.opposite()
    }

    /// The maker's fill and the taker's fill of this trade. Both carry the
    /// trade's id, price, quantity and time; the taker never gets a rebate.
    pub fn to_fills(&self) -> (r: (Fill, Fill))
        ensures
            r.0 == (Fill {
                trade_id: self.id,
                order_id: self.maker_order_id,
                owner: self.maker,
                counterparty_order_id: self.taker_order_id,
                role: FillRole::Maker,
                side: opposite_side(self.taker_side),
                price: self.price,
                quantity: self.quantity,
                fee: self.maker_fee,
                is_rebate: self.maker_is_rebate,
                timestamp: self.timestamp,
            }),
            r.1 == (Fill {
                trade_id: self.id,
                order_id: self.taker_order_id,
                owner: self.taker,
                counterparty_order_id: self.maker_order_id,
                role: FillRole::Taker,
                side: self.taker_side,
                price: self.price,
                quantity: self.quantity,
                fee: self.taker_fee,
                is_rebate: false,
                timestamp: self.timestamp,
            }),
    {
        let maker_fill = Fill::new(
            self.id,
            self.maker_order_id,
            self.maker,
            self.taker_order_id,
            FillRole::Maker,
            self.maker_side(),
            self.price,
            self.quantity,
            self.maker_fee,
            self.maker_is_rebate,
            self.timestamp,
        );
        let taker_fill = Fill::new(
            self.id,
            self.taker_order_id,
            self.taker,
            self.maker_order_id,
            FillRole::Taker,
            self.taker_side,
            self.price,
            self.quantity,
            self.taker_fee,
            false,
            self.timestamp,
        );
        (maker_fill, taker_fill)
    }
}


/// The text of a trade id: `T`, its market, a dash and its sequence number.
pub open spec fn trade_id_text(id: TradeId) -> Seq<char> {
    "T"@ + decimal((id.0 as int / two_pow_64()) as nat) + "-"@ + decimal((id.0 as int % two_pow_64()) as nat)
}

/// The name of a fill role.
pub open spec fn role_text(r: FillRole) -> Seq<char> {
    match r {
        FillRole::Maker => "Maker"@,
        FillRole::Taker => "Taker"@,
    }
}

/// The text of a fill: trade, role, side, quantity, price and fee, a rebate
/// with a minus sign and a fee with a plus sign.
pub open spec fn fill_text(f: Fill) -> Seq<char> {
    "Fill("@ + trade_id_text(f.trade_id) + " "@ + role_text(f.role) + " "@ + side_text(f.side) + " "@ + fixed_point(
        f.quantity.0 as nat,
    ) + " @ "@ + fixed_point(f.price.0 as nat) + " fee="@ + (if f.is_rebate {
        "-"@
    } else {
        "+"@
    }) + fixed_point(f.fee.0 as nat) + ")"@
}

/// The text of a trade: id, taker side, quantity, price and both orders.
pub open spec fn trade_text(t: Trade) -> Seq<char> {
    "Trade("@ + trade_id_text(t.id) + " "@ + side_text(t.taker_side) + " "@ + fixed_point(t.quantity.0 as nat) + " @ "@
        + fixed_point(t.price.0 as nat) + " maker="@ + order_id_text(t.maker_order_id) + " taker="@ + order_id_text(
        t.taker_order_id,
    ) + ")"@
}

impl TradeId {
    /// The text of the trade id, such as `"T1-100"`.
    pub fn to_display_string(&self) -> (r: String)
        ensures
            r@ == trade_id_text(*self),
    {
        let mut s = "T".to_owned();
        push_decimal(&mut s, self.market_id().0 as u128);
        s.append("-");
        push_decimal(&mut s, self.sequence() as u128);
        s
    }
}

impl FillRole {
    /// The name of the role.
    pub fn to_display_string(&self) -> (r: String)
        ensures
            r@ == role_text(*self),
    {
        match self {
            FillRole::Maker => "Maker".to_owned(),
            FillRole::Taker => "Taker".to_owned(),
        }
    }
}

impl Fill {
    /// The text of the fill.
    pub fn to_display_string(&self) -> (r: String)
        ensures
            r@ == fill_text(*self),
    {
        let mut s = "Fill(".to_owned();
        s.append(self.trade_id.to_display_string().as_str());
        s.append(" ");
        s.append(self.role.to_display_string().as_str());
        s.append(" ");
        s.append(self.side.to_display_string().as_str());
        s.append(" ");
        push_fixed_point(&mut s, self.quantity.0);
        s.append(" @ ");
        push_fixed_point(&mut s, self.price.0);
        s.append(" fee=");
        if self.is_rebate {
            s.append("-");
        } else {
            s.append("+");
        }
        push_fixed_point(&mut s, self.fee.0);
        s.append(")");
        s
    }
}

impl Trade {
    /// The text of the trade.
    pub fn to_display_string(&self) -> (r: String)
        ensures
            r@ == trade_text(*self),
    {
        let mut s = "Trade(".to_owned();
        s.append(self.id.to_display_string().as_str());
        s.append(" ");
        s.append(self.taker_side.to_display_string().as_str());
        s.append(" ");
        push_fixed_point(&mut s, self.quantity.0);
        s.append(" @ ");
        push_fixed_point(&mut s, self.price.0);
        s.append(" maker=");
        s.append(self.maker_order_id.to_display_string().as_str());
        s.append(" taker=");
        s.append(self.taker_order_id.to_display_string().as_str());
        s.append(")");
        s
    }
}

} // verus!
