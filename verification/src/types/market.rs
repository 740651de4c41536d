//! Market configuration: status, fee schedule and size constraints.
use vstd::prelude::*;
use vstd::string::*;

use crate::types::ids::market_id_text;
use crate::types::text::{push_signed, signed_decimal};

use crate::types::ids::{Address, MarketId};
use crate::types::primitives::{Price, Quantity};

verus! {

/// One basis point (0.01%).
pub const BASIS_POINT: i32 = 1;

/// Default maker fee in basis points (a 2 bp rebate).
pub const DEFAULT_MAKER_FEE_BPS: i32 = -2;

/// Default taker fee in basis points.
pub const DEFAULT_TAKER_FEE_BPS: i32 = 10;

/// The status of a market.
#[derive(Debug, Clone, Copy, PartialEq, Eq, Hash, Default, Structural)]
pub enum MarketStatus {
    /// Accepting and matching orders.
    #[default]
    Active,
    /// Temporarily halted: no new orders, no matching.
    Halted,
    /// Only cancellations are accepted.
    CancelOnly,
    /// Closed for good.
    Closed,
}

impl MarketStatus {
    /// Only an active market accepts new orders.
    pub fn accepts_new_orders(self) -> (r: bool)
        ensures r == (self == MarketStatus::Active),
    {
        matches!(self, MarketStatus::Active)
    }

    /// Every status but `Closed` allows cancellations.
    pub fn allows_cancellations(self) -> (r: bool)
        ensures r == (self != MarketStatus::Closed),
    {
        matches!(self, MarketStatus::Active | MarketStatus::Halted | MarketStatus::CancelOnly)
    }

    /// Only an active market matches orders.
    pub fn allows_matching(self) -> (r: bool)
        ensures r == (self == MarketStatus::Active),
    {
        matches!(self, MarketStatus::Active)
    }

    /// Returns `true` for `Closed`.
    pub fn is_closed(self) -> (r: bool)
        ensures r == (self == MarketStatus::Closed),
    {
        matches!(self, MarketStatus::Closed)
    }
}

/// The absolute value of a fee in basis points.
pub open spec fn bps_magnitude(bps: i32) -> nat {
    if bps < 0 {
        (-bps) as nat
    } else {
        bps as nat
    }
}

/// The fee on a notional value at `bps` basis points, rounded down; zero when
/// the product `notional * bps` does not fit in 128 bits.
pub open spec fn fee_amount(notional: u128, bps: nat) -> int {
    if notional * bps <= u128::MAX {
        (notional * bps) / 10000
    } else {
        0
    }
}

/// The fee schedule of a market, in basis points (negative: rebate).
#[derive(Debug, Clone, Copy, PartialEq, Eq, Structural)]
pub struct FeeConfig {
    /// Maker fee (negative for a rebate).
    pub maker_fee_bps: i32,
    /// Taker fee.
    pub taker_fee_bps: i32,
}

fn unsigned_magnitude(bps: i32) -> (r: u32)
    ensures r == bps_magnitude(bps),
{
    if bps < 0 {
        (-(bps as i64)) as u32
    } else {
        bps as u32
    }
}

impl FeeConfig {
    /// Creates a fee schedule.
    pub fn new(maker_fee_bps: i32, taker_fee_bps: i32) -> (r: FeeConfig)
        ensures r == (FeeConfig { maker_fee_bps, taker_fee_bps }),
    {
        FeeConfig { maker_fee_bps, taker_fee_bps }
    }

    /// The default schedule: a 2 bp maker rebate and a 10 bp taker fee.
    pub fn default_config() -> (r: FeeConfig)
        ensures r == (FeeConfig { maker_fee_bps: DEFAULT_MAKER_FEE_BPS, taker_fee_bps: DEFAULT_TAKER_FEE_BPS }),
    {
        FeeConfig::new(DEFAULT_MAKER_FEE_BPS, DEFAULT_TAKER_FEE_BPS)
    }

    /// Returns `true` when the maker fee is negative.
    pub fn maker_has_rebate(self) -> (r: bool)
        ensures r == (self.maker_fee_bps < 0),
    {
        self.maker_fee_bps < 0
    }

    /// The maker's fee or rebate on a notional value, and whether it is a rebate.
    pub fn calculate_maker_fee(self, notional: Quantity) -> (r: (Quantity, bool))
        ensures
            r.0.0 == fee_amount(notional.0, bps_magnitude(self.maker_fee_bps)),
            r.1 == (self.maker_fee_bps < 0),
    {
        let bps_abs = unsigned_magnitude(self.maker_fee_bps);
        let fee = FeeConfig::calculate_fee_amount(notional, bps_abs);
        (fee, self.maker_fee_bps < 0)
    }

    /// The taker's fee on a notional value.
    pub fn calculate_taker_fee(self, notional: Quantity) -> (r: Quantity)
        ensures r.0 == fee_amount(notional.0, bps_magnitude(self.taker_fee_bps)),
    {
        let bps_abs = unsigned_magnitude(self.taker_fee_bps);
        FeeConfig::calculate_fee_amount(notional, bps_abs)
    }

    fn calculate_fee_amount(notional: Quantity, bps: u32) -> (r: Quantity)
        ensures r.0 == fee_amount(notional.0, bps as nat),
    {
        let scaled = notional.as_scaled();
        let fee_scaled: u128 = match scaled.checked_mul(bps as u128) {
            Some(v) => v / 10000,
            None => 0,
        };
        Quantity::from_scaled(fee_scaled)
    }
}

impl Default for FeeConfig {
    fn default() -> (r: FeeConfig)
        ensures r == (FeeConfig { maker_fee_bps: DEFAULT_MAKER_FEE_BPS, taker_fee_bps: DEFAULT_TAKER_FEE_BPS }),
    {
        FeeConfig::default_config()
    }
}

/// The full configuration of a market.
#[derive(Debug, Clone, PartialEq, Eq)]
pub struct MarketConfig {
    /// Market id.
    pub id: MarketId,
    /// Symbol such as `ETH/USDC`.
    pub symbol: String,
    /// Base token contract.
    pub base_token: Address,
    /// Quote token contract.
    pub quote_token: Address,
    /// Fee schedule.
    pub fees: FeeConfig,
    /// Current status.
    pub status: MarketStatus,
    /// Prices must be multiples of this (zero: no constraint).
    pub tick_size: Price,
    /// Quantities must be multiples of this (zero: no constraint).
    pub lot_size: Quantity,
    /// Minimum order value in quote currency.
    pub min_order_value: Quantity,
    /// Maximum order size in base currency (zero: no limit).
    pub max_order_size: Quantity,
    /// Decimals of the base token.
    pub base_decimals: u8,
    /// Decimals of the quote token.
    pub quote_decimals: u8,
}

/// `value` is a multiple of `step`, or `step` is zero.
pub open spec fn conforms(value: u128, step: u128) -> bool {
    step == 0 || value % step == 0
}

/// `value` rounded down to a multiple of `step` (unchanged when `step` is zero).
pub open spec fn round_down(value: u128, step: u128) -> int {
    if step == 0 {
        value as int
    } else {
        (value / step) * step
    }
}

impl MarketConfig {
    /// A market with the default fees, active status, the smallest tick and
    /// lot sizes, no minimum value, no maximum size and 18 decimals on both tokens.
    pub fn new(id: MarketId, symbol: String, base_token: Address, quote_token: Address) -> (r: MarketConfig)
        ensures
            r.id == id,
            r.symbol == symbol,
            r.base_token == base_token,
            r.quote_token == quote_token,
            r.fees == (FeeConfig { maker_fee_bps: DEFAULT_MAKER_FEE_BPS, taker_fee_bps: DEFAULT_TAKER_FEE_BPS }),
            r.status == MarketStatus::Active,
            r.tick_size.0 == 1,
            r.lot_size.0 == 1,
            r.min_order_value.0 == 0,
            r.max_order_size.0 == 0,
            r.base_decimals == 18,
            r.quote_decimals == 18,
    {
        MarketConfig {
            id,
            symbol,
            base_token,
            quote_token,
            fees: FeeConfig::default_config(),
            status: MarketStatus::Active,
            tick_size: Price::from_scaled(1),
            lot_size: Quantity::from_scaled(1),
            min_order_value: Quantity::zero(),
            max_order_size: Quantity::zero(),
            base_decimals: 18,
            quote_decimals: 18,
        }
    }

    /// Replaces the fee schedule.
    pub fn with_fees(self, fees: FeeConfig) -> (r: MarketConfig)
        ensures r == (MarketConfig { fees, ..self }),
    {
        let mut c = self;
        c.fees = fees;
        c
    }

    /// Replaces the status.
    pub fn with_status(self, status: MarketStatus) -> (r: MarketConfig)
        ensures r == (MarketConfig { status, ..self }),
    {
        let mut c = self;
        c.status = status;
        c
    }

    /// Replaces the tick size.
    pub fn with_tick_size(self, tick_size: Price) -> (r: MarketConfig)
        ensures r == (MarketConfig { tick_size, ..self }),
    {
        let mut c = self;
        c.tick_size = tick_size;
        c
    }

    /// Replaces the lot size.
    pub fn with_lot_size(self, lot_size: Quantity) -> (r: MarketConfig)
        ensures r == (MarketConfig { lot_size, ..self }),
    {
        let mut c = self;
        c.lot_size = lot_size;
        c
    }

    /// Replaces the minimum order value.
    pub fn with_min_order_value(self, min_value: Quantity) -> (r: MarketConfig)
        ensures r == (MarketConfig { min_order_value: min_value, ..self }),
    {
        let mut c = self;
        c.min_order_value = min_value;
        c
    }

    /// Replaces the maximum order size.
    pub fn with_max_order_size(self, max_size: Quantity) -> (r: MarketConfig)
        ensures r == (MarketConfig { max_order_size: max_size, ..self }),
    {
        let mut c = self;
        c.max_order_size = max_size;
        c
    }

    /// Replaces the token decimals.
    pub fn with_decimals(self, base: u8, quote: u8) -> (r: MarketConfig)
        ensures r == (MarketConfig { base_decimals: base, quote_decimals: quote, ..self }),
    {
        let mut c = self;
        c.base_decimals = base;
        c.quote_decimals = quote;
        c
    }

    /// Returns `true` when the market status accepts new orders.
    pub fn accepts_new_orders(&self) -> (r: bool)
        ensures r == (self.status == MarketStatus::Active),
    {
        self.status.accepts_new_orders()
    }

    /// Returns `true` when the market status allows matching.
    pub fn allows_matching(&self) -> (r: bool)
        ensures r == (self.status == MarketStatus::Active),
    {
        self.status.allows_matching()
    }

    /// Returns `true` when the price is a multiple of the tick size (or the tick size is zero).
    pub fn is_valid_price(&self, price: Price) -> (r: bool)
        ensures r == conforms(price.0, self.tick_size.0),
    {
        if self.tick_size.is_zero() {
            return true;
        }
        price.as_scaled().is_multiple_of(self.tick_size.as_scaled())
    }

    /// Returns `true` when the quantity is a multiple of the lot size (or the lot size is zero).
    pub fn is_valid_quantity(&self, quantity: Quantity) -> (r: bool)
        ensures r == conforms(quantity.0, self.lot_size.0),
    {
        if self.lot_size.is_zero() {
            return true;
        }
        quantity.as_scaled().is_multiple_of(self.lot_size.as_scaled())
    }

    /// Rounds a price down to a multiple of the tick size.
    pub fn round_price_down(&self, price: Price) -> (r: Price)
        ensures r.0 == round_down(price.0, self.tick_size.0),
    {
        if self.tick_size.is_zero() {
            return price;
        }
        let tick = self.tick_size.as_scaled();
        let q = price.as_scaled() / tick;
        assert(q * tick <= price.0) by (nonlinear_arith)
            requires q == price.0 / tick, tick > 0;
        Price::from_scaled(q * tick)
    }

    /// Rounds a quantity down to a multiple of the lot size.
    pub fn round_quantity_down(&self, quantity: Quantity) -> (r: Quantity)
        ensures r.0 == round_down(quantity.0, self.lot_size.0),
    {
        if self.lot_size.is_zero() {
            return quantity;
        }
        let lot = self.lot_size.as_scaled();
        let q = quantity.as_scaled() / lot;
        assert(q * lot <= quantity.0) by (nonlinear_arith)
            requires q == quantity.0 / lot, lot > 0;
        Quantity::from_scaled(q * lot)
    }
}

/// Rounding down is idempotent and always yields a value that conforms to the
/// step and does not exceed the input.
pub proof fn lemma_round_down_conforms(value: u128, step: u128)
    ensures
        0 <= round_down(value, step) <= value,
        conforms(round_down(value, step) as u128, step),
        round_down(round_down(value, step) as u128, step) == round_down(value, step),
        conforms(value, step) ==> round_down(value, step) == value,
{
    if step != 0 {
        let q = value / step;
        assert(0 <= q * step <= value) by (nonlinear_arith)
            requires q == value / step, step > 0;
        assert((q * step) % (step as int) == 0) by (nonlinear_arith)
            requires step > 0, q >= 0;
        assert((q * step) / (step as int) == q) by (nonlinear_arith)
            requires step > 0, q >= 0;
        assert(value % step == 0 ==> q * step == value) by (nonlinear_arith)
            requires q == value / step, step > 0;
    }
}


/// The name of a market status.
pub open spec fn market_status_text(s: MarketStatus) -> Seq<char> {
    match s {
        MarketStatus::Active => "Active"@,
        MarketStatus::Halted => "Halted"@,
        MarketStatus::CancelOnly => "CancelOnly"@,
        MarketStatus::Closed => "Closed"@,
    }
}

/// The text of a fee configuration, such as `"maker=-2bps, taker=10bps"`.
pub open spec fn fee_config_text(f: FeeConfig) -> Seq<char> {
    "maker="@ + signed_decimal(f.maker_fee_bps as int) + "bps, taker="@ + signed_decimal(f.taker_fee_bps as int)
        + "bps"@
}

impl MarketStatus {
    /// The name of the status.
    pub fn to_display_string(&self) -> (r: String)
        ensures
            r@ == market_status_text(*self),
    {
        match self {
            MarketStatus::Active => "Active".to_owned(),
            MarketStatus::Halted => "Halted".to_owned(),
            MarketStatus::CancelOnly => "CancelOnly".to_owned(),
            MarketStatus::Closed => "Closed".to_owned(),
        }
    }
}

impl FeeConfig {
    /// The text of the fees, such as `"maker=-2bps, taker=10bps"`.
    pub fn to_display_string(&self) -> (r: String)
        ensures
            r@ == fee_config_text(*self),
    {
        let mut s = "maker=".to_owned();
        push_signed(&mut s, self.maker_fee_bps);
        s.append("bps, taker=");
        push_signed(&mut s, self.taker_fee_bps);
        s.append("bps");
        s
    }
}

impl MarketConfig {
    /// The text of the market: symbol, id and status, such as
    /// `"Market(ETH/USDC [Market(1)] Active)"`.
    pub fn to_display_string(&self) -> (r: String)
        ensures
            r@ == "Market("@ + self.symbol@ + " ["@ + market_id_text(self.id) + "] "@ + market_status_text(self.status)
                + ")"@,
    {
        let mut s = "Market(".to_owned();
        s.append(self.symbol.as_str());
        s.append(" [");
        s.append(self.id.to_display_string().as_str());
        s.append("] ");
        s.append(self.status.to_display_string().as_str());
        s.append(")");
        s
    }
}

} // verus!
