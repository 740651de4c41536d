//! Fixed-point numbers (`Price`, `Quantity`), timestamps and nonces.
use vstd::prelude::*;
use vstd::string::*;

use crate::types::text::{decimal, fixed_point, push_decimal, push_fixed_point};

verus! {

/// Number of decimal places of the fixed-point representation.
pub const DECIMALS: u32 = 18;

/// The scaling factor of the fixed-point representation (10^18).
pub const SCALE: u128 = 1_000_000_000_000_000_000;

/// A fixed-point price with 18 decimal places, stored scaled by `SCALE`.
#[derive(Debug, Clone, Copy, PartialEq, Eq, PartialOrd, Ord, Hash, Default, Structural)]
pub struct Price(pub u128);

impl Price {
    /// The zero value.
    pub fn zero() -> (r: Price)
        ensures r.0 == 0,
    {
        Price(0)
    }

    /// The largest representable value.
    pub fn max_value() -> (r: Price)
        ensures r.0 == u128::MAX,
    {
        Price(u128::MAX)
    }

    /// Creates a value from an already scaled integer.
    pub fn from_scaled(scaled: u128) -> (r: Price)
        ensures r.0 == scaled,
    {
        Price(scaled)
    }

    /// Creates a value from a whole number of units (never overflows: `u64::MAX * SCALE` fits).
    pub fn from_whole(whole: u64) -> (r: Price)
        ensures r.0 == whole as int * SCALE as int,
    {
        assert(whole as int * SCALE as int <= u128::MAX) by (nonlinear_arith)
            requires whole <= u64::MAX;
        Price(whole as u128 * SCALE)
    }

    /// Creates a value from a whole number, or `None` when scaling overflows.
    pub fn try_from_whole(whole: u128) -> (r: Option<Price>)
        ensures
            r is Some <==> whole as int * SCALE as int <= u128::MAX,
            r matches Some(v) ==> v.0 == whole as int * SCALE as int,
    {
        match whole.checked_mul(SCALE) {
            Some(scaled) => Some(Price(scaled)),
            None => None,
        }
    }

    /// Returns the scaled integer.
    pub fn as_scaled(self) -> (r: u128)
        ensures r == self.0,
    {
        self.0
    }

    /// Returns `true` if the value is zero.
    pub fn is_zero(self) -> (r: bool)
        ensures r == (self.0 == 0),
    {
        self.0 == 0
    }

    /// Checked addition; `None` on overflow.
    pub fn checked_add(self, other: Price) -> (r: Option<Price>)
        ensures
            r is Some <==> self.0 + other.0 <= u128::MAX,
            r matches Some(v) ==> v.0 == self.0 + other.0,
    {
        match self.0.checked_add(other.0) {
            Some(v) => Some(Price(v)),
            None => None,
        }
    }

    /// Checked subtraction; `None` on underflow.
    pub fn checked_sub(self, other: Price) -> (r: Option<Price>)
        ensures
            r is Some <==> other.0 <= self.0,
            r matches Some(v) ==> v.0 == self.0 - other.0,
    {
        match self.0.checked_sub(other.0) {
            Some(v) => Some(Price(v)),
            None => None,
        }
    }

    /// Checked multiplication by an integer; `None` on overflow.
    pub fn checked_mul_scalar(self, scalar: u64) -> (r: Option<Price>)
        ensures
            r is Some <==> self.0 * scalar <= u128::MAX,
            r matches Some(v) ==> v.0 == self.0 * scalar,
    {
        match self.0.checked_mul(scalar as u128) {
            Some(v) => Some(Price(v)),
            None => None,
        }
    }

    /// Checked division by an integer; `None` if the divisor is zero.
    pub fn checked_div_scalar(self, divisor: u64) -> (r: Option<Price>)
        ensures
            r is Some <==> divisor != 0,
            r matches Some(v) ==> v.0 == self.0 / (divisor as u128),
    {
        if divisor == 0 {
            return None;
        }
        Some(Price(self.0 / divisor as u128))
    }

    /// Saturating addition; clamps to the maximum on overflow.
    pub fn saturating_add(self, other: Price) -> (r: Price)
        ensures r.0 == if self.0 + other.0 > u128::MAX { u128::MAX as int } else { self.0 + other.0 },
    {
        Price(self.0.saturating_add(other.0))
    }

    /// Saturating subtraction; clamps to zero on underflow.
    pub fn saturating_sub(self, other: Price) -> (r: Price)
        ensures r.0 == if self.0 < other.0 { 0 } else { self.0 - other.0 },
    {
        Price(self.0.saturating_sub(other.0))
    }

    /// The smaller of two values (the first one on ties).
    pub fn min(self, other: Price) -> (r: Price)
        ensures r == if self.0 <= other.0 { self } else { other },
    {
        if self.0 <= other.0 {
            self
        } else {
            other
        }
    }

    /// The larger of two values (the first one on ties).
    pub fn max(self, other: Price) -> (r: Price)
        ensures r == if self.0 >= other.0 { self } else { other },
    {
        if self.0 >= other.0 {
            self
        } else {
            other
        }
    }
}

/// A fixed-point quantity with 18 decimal places, stored scaled by `SCALE`.
#[derive(Debug, Clone, Copy, PartialEq, Eq, PartialOrd, Ord, Hash, Default, Structural)]
pub struct Quantity(pub u128);

impl Quantity {
    /// The zero value.
    pub fn zero() -> (r: Quantity)
        ensures r.0 == 0,
    {
        Quantity(0)
    }

    /// The largest representable value.
    pub fn max_value() -> (r: Quantity)
        ensures r.0 == u128::MAX,
    {
        Quantity(u128::MAX)
    }

    /// Creates a value from an already scaled integer.
    pub fn from_scaled(scaled: u128) -> (r: Quantity)
        ensures r.0 == scaled,
    {
        Quantity(scaled)
    }

    /// Creates a value from a whole number of units (never overflows: `u64::MAX * SCALE` fits).
    pub fn from_whole(whole: u64) -> (r: Quantity)
        ensures r.0 == whole as int * SCALE as int,
    {
        assert(whole as int * SCALE as int <= u128::MAX) by (nonlinear_arith)
            requires whole <= u64::MAX;
        Quantity(whole as u128 * SCALE)
    }

    /// Creates a value from a whole number, or `None` when scaling overflows.
    pub fn try_from_whole(whole: u128) -> (r: Option<Quantity>)
        ensures
            r is Some <==> whole as int * SCALE as int <= u128::MAX,
            r matches Some(v) ==> v.0 == whole as int * SCALE as int,
    {
        match whole.checked_mul(SCALE) {
            Some(scaled) => Some(Quantity(scaled)),
            None => None,
        }
    }

    /// Returns the scaled integer.
    pub fn as_scaled(self) -> (r: u128)
        ensures r == self.0,
    {
        self.0
    }

    /// Returns `true` if the value is zero.
    pub fn is_zero(self) -> (r: bool)
        ensures r == (self.0 == 0),
    {
        self.0 == 0
    }

    /// Checked addition; `None` on overflow.
    pub fn checked_add(self, other: Quantity) -> (r: Option<Quantity>)
        ensures
            r is Some <==> self.0 + other.0 <= u128::MAX,
            r matches Some(v) ==> v.0 == self.0 + other.0,
    {
        match self.0.checked_add(other.0) {
            Some(v) => Some(Quantity(v)),
            None => None,
        }
    }

    /// Checked subtraction; `None` on underflow.
    pub fn checked_sub(self, other: Quantity) -> (r: Option<Quantity>)
        ensures
            r is Some <==> other.0 <= self.0,
            r matches Some(v) ==> v.0 == self.0 - other.0,
    {
        match self.0.checked_sub(other.0) {
            Some(v) => Some(Quantity(v)),
            None => None,
        }
    }

    /// Checked multiplication by an integer; `None` on overflow.
    pub fn checked_mul_scalar(self, scalar: u64) -> (r: Option<Quantity>)
        ensures
            r is Some <==> self.0 * scalar <= u128::MAX,
            r matches Some(v) ==> v.0 == self.0 * scalar,
    {
        match self.0.checked_mul(scalar as u128) {
            Some(v) => Some(Quantity(v)),
            None => None,
        }
    }

    /// Checked division by an integer; `None` if the divisor is zero.
    pub fn checked_div_scalar(self, divisor: u64) -> (r: Option<Quantity>)
        ensures
            r is Some <==> divisor != 0,
            r matches Some(v) ==> v.0 == self.0 / (divisor as u128),
    {
        if divisor == 0 {
            return None;
        }
        Some(Quantity(self.0 / divisor as u128))
    }

    /// Notional value `quantity * price / SCALE`; `None` when the product overflows.
    pub fn checked_mul_price(self, price: Price) -> (r: Option<Quantity>)
        ensures
            r is Some <==> self.0 * price.0 <= u128::MAX,
            r matches Some(v) ==> v.0 == (self.0 * price.0) / (SCALE as int),
    {
        match self.0.checked_mul(price.as_scaled()) {
            Some(product) => Some(Quantity(product / SCALE)),
            None => None,
        }
    }

    /// Saturating addition; clamps to the maximum on overflow.
    pub fn saturating_add(self, other: Quantity) -> (r: Quantity)
        ensures r.0 == if self.0 + other.0 > u128::MAX { u128::MAX as int } else { self.0 + other.0 },
    {
        Quantity(self.0.saturating_add(other.0))
    }

    /// Saturating subtraction; clamps to zero on underflow.
    pub fn saturating_sub(self, other: Quantity) -> (r: Quantity)
        ensures r.0 == if self.0 < other.0 { 0 } else { self.0 - other.0 },
    {
        Quantity(self.0.saturating_sub(other.0))
    }

    /// The smaller of two values (the first one on ties).
    pub fn min(self, other: Quantity) -> (r: Quantity)
        ensures r == if self.0 <= other.0 { self } else { other },
    {
        if self.0 <= other.0 {
            self
        } else {
            other
        }
    }

    /// The larger of two values (the first one on ties).
    pub fn max(self, other: Quantity) -> (r: Quantity)
        ensures r == if self.0 >= other.0 { self } else { other },
    {
        if self.0 >= other.0 {
            self
        } else {
            other
        }
    }
}

/// A Unix timestamp in milliseconds.
#[derive(Debug, Clone, Copy, PartialEq, Eq, PartialOrd, Ord, Hash, Default, Structural)]
pub struct Timestamp(pub u64);

impl Timestamp {
    /// Creates a timestamp from milliseconds since the epoch.
    pub fn from_millis(millis: u64) -> (r: Timestamp)
        ensures r.0 == millis,
    {
        Timestamp(millis)
    }

    /// Creates a timestamp from seconds since the epoch.
    pub fn from_secs(secs: u64) -> (r: Timestamp)
        requires secs * 1000 <= u64::MAX,
        ensures r.0 == secs * 1000,
    {
        Timestamp(secs * 1000)
    }

    /// Returns the timestamp in milliseconds.
    pub fn as_millis(self) -> (r: u64)
        ensures r == self.0,
    {
        self.0
    }

    /// Returns the timestamp in whole seconds (truncated).
    pub fn as_secs(self) -> (r: u64)
        ensures r == self.0 / 1000,
    {
        self.0 / 1000
    }

    /// Returns `true` if this timestamp is strictly before `other`.
    pub fn is_before(self, other: Timestamp) -> (r: bool)
        ensures r == (self.0 < other.0),
    {
        self.0 < other.0
    }

    /// Returns `true` if this timestamp is strictly after `other`.
    pub fn is_after(self, other: Timestamp) -> (r: bool)
        ensures r == (self.0 > other.0),
    {
        self.0 > other.0
    }

    /// Adds milliseconds; `None` on overflow.
    pub fn checked_add_millis(self, millis: u64) -> (r: Option<Timestamp>)
        ensures
            r is Some <==> self.0 + millis <= u64::MAX,
            r matches Some(t) ==> t.0 == self.0 + millis,
    {
        match self.0.checked_add(millis) {
            Some(v) => Some(Timestamp(v)),
            None => None,
        }
    }

    /// Difference of two timestamps, clamped at zero.
    pub fn saturating_sub(self, other: Timestamp) -> (r: Timestamp)
        ensures r.0 == if self.0 < other.0 { 0 } else { self.0 - other.0 },
    {
        Timestamp(self.0.saturating_sub(other.0))
    }
}

/// A per-account counter that protects against replayed orders.
#[derive(Debug, Clone, Copy, PartialEq, Eq, PartialOrd, Ord, Hash, Default, Structural)]
pub struct Nonce(pub u64);

impl Nonce {
    /// Creates a nonce with the given value.
    pub fn new(value: u64) -> (r: Nonce)
        ensures r.0 == value,
    {
        Nonce(value)
    }

    /// Returns the raw value.
    pub fn as_u64(self) -> (r: u64)
        ensures r == self.0,
    {
        self.0
    }

    /// The following nonce.
    pub fn next(self) -> (r: Nonce)
        requires self.0 < u64::MAX,
        ensures r.0 == self.0 + 1,
    {
        Nonce(self.0 + 1)
    }

    /// The following nonce, or `None` on overflow.
    pub fn checked_next(self) -> (r: Option<Nonce>)
        ensures
            r is Some <==> self.0 < u64::MAX,
            r matches Some(n) ==> n.0 == self.0 + 1,
    {
        match self.0.checked_add(1) {
            Some(v) => Some(Nonce(v)),
            None => None,
        }
    }

    /// A nonce is valid when it is at least the expected minimum.
    pub fn is_valid(self, expected_min: Nonce) -> (r: bool)
        ensures r == (self.0 >= expected_min.0),
    {
        self.0 >= expected_min.0
    }
}

impl From<u64> for Nonce {
    fn from(value: u64) -> (r: Nonce) {
        Nonce(value)
    }
}

impl vstd::std_specs::convert::FromSpecImpl<u64> for Nonce {
    open spec fn obeys_from_spec() -> bool {
        true
    }

    open spec fn from_spec(v: u64) -> Nonce {
        Nonce(v)
    }
}


impl Price {
    /// The text of the price: whole part, a point and the decimals without
    /// trailing zeros (`"100.0"`, `"1.5"`).
    pub fn to_display_string(&self) -> (r: String)
        ensures
            r@ == fixed_point(self.0 as nat),
    {
        let mut s = String::new();
        push_fixed_point(&mut s, self.0);
        s
    }
}

impl Quantity {
    /// The text of the quantity: whole part, a point and the decimals without
    /// trailing zeros (`"10.0"`, `"0.25"`).
    pub fn to_display_string(&self) -> (r: String)
        ensures
            r@ == fixed_point(self.0 as nat),
    {
        let mut s = String::new();
        push_fixed_point(&mut s, self.0);
        s
    }
}

/// The text of a timestamp: its milliseconds followed by `ms`.
pub open spec fn timestamp_text(t: Timestamp) -> Seq<char> {
    decimal(t.0 as nat) + "ms"@
}

impl Timestamp {
    /// The text of the timestamp, such as `"1000ms"`.
    pub fn to_display_string(&self) -> (r: String)
        ensures
            r@ == timestamp_text(*self),
    {
        let mut s = String::new();
        push_decimal(&mut s, self.0 as u128);
        s.append("ms");
        s
    }
}

impl Nonce {
    /// The text of the nonce: its value.
    pub fn to_display_string(&self) -> (r: String)
        ensures
            r@ == decimal(self.0 as nat),
    {
        let mut s = String::new();
        push_decimal(&mut s, self.0 as u128);
        s
    }
}

} // verus!
