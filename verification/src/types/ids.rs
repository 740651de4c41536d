//! Identifiers: markets, orders and Ethereum addresses.
use vstd::prelude::*;
use vstd::string::*;
use crate::types::text::{decimal, push_decimal};

use crate::types::hex_codec::{
    all_hex_digits, hex_decode, hex_decoding, hex_encode, hex_encoding, hex_error_message,
    hex_digit_value, hex_error_text, is_first_non_hex, HexDecodeError,
};

verus! {

/// 2^64, the factor that shifts a market id into the upper half of a 128-bit id.
pub open spec fn two_pow_64() -> int {
    0x1_0000_0000_0000_0000
}

/// The 128-bit value that packs a market id (upper 64 bits) and a sequence
/// number (lower 64 bits).
pub open spec fn pack_id(market: u64, sequence: u64) -> int {
    market as int * two_pow_64() + sequence as int
}

/// Identifies a trading market.
#[derive(Debug, Clone, Copy, PartialEq, Eq, PartialOrd, Ord, Hash, Default, Structural)]
pub struct MarketId(pub u64);

impl MarketId {
    /// Creates a market id from its raw value.
    pub fn new(id: u64) -> (r: MarketId)
        ensures r.0 == id,
    {
        MarketId(id)
    }

    /// Returns the raw value.
    pub fn as_u64(self) -> (r: u64)
        ensures r == self.0,
    {
        self.0
    }
}

impl From<u64> for MarketId {
    fn from(id: u64) -> (r: MarketId) {
        MarketId(id)
    }
}

impl vstd::std_specs::convert::FromSpecImpl<u64> for MarketId {
    open spec fn obeys_from_spec() -> bool {
        true
    }

    open spec fn from_spec(v: u64) -> MarketId {
        MarketId(v)
    }
}

pub(crate) proof fn lemma_pack_bits(m: u64, s: u64)
    ensures
        ((m as u128) << 64u128) | (s as u128) == pack_id(m, s),
{
    assert(((m as u128) << 64u128) | (s as u128) == (m as u128) * 0x1_0000_0000_0000_0000u128 + (s as u128))
        by (bit_vector);
}

pub(crate) proof fn lemma_unpack_bits(x: u128)
    ensures
        (x >> 64u128) as u64 == x as int / two_pow_64(),
        x as u64 == x as int % two_pow_64(),
{
    assert((x >> 64u128) as u64 == x / 0x1_0000_0000_0000_0000u128) by (bit_vector);
    assert(x as u64 == x % 0x1_0000_0000_0000_0000u128) by (bit_vector);
}

/// A globally unique order identifier: market id in the upper 64 bits, a
/// per-market sequence number in the lower 64 bits.
#[derive(Debug, Clone, Copy, PartialEq, Eq, PartialOrd, Ord, Hash, Default, Structural)]
pub struct OrderId(pub u128);

impl OrderId {
    /// Packs a market id and a sequence number.
    pub fn new(market_id: MarketId, sequence: u64) -> (r: OrderId)
        ensures r.0 == pack_id(market_id.0, sequence),
    {
        proof { lemma_pack_bits(market_id.0, sequence); }
        OrderId(((market_id.0 as u128) << 64u128) | (sequence as u128))
    }

    /// Wraps a raw 128-bit value.
    pub fn from_raw(raw: u128) -> (r: OrderId)
        ensures r.0 == raw,
    {
        OrderId(raw)
    }

    /// Returns the raw 128-bit value.
    pub fn as_u128(self) -> (r: u128)
        ensures r == self.0,
    {
        self.0
    }

    /// The market id held in the upper 64 bits.
    pub fn market_id(self) -> (r: MarketId)
        ensures r.0 as int == self.0 as int / two_pow_64(),
    {
        proof { lemma_unpack_bits(self.0); }
        MarketId((self.0 >> 64u128) as u64)
    }

    /// The sequence number held in the lower 64 bits.
    pub fn sequence(self) -> (r: u64)
        ensures r as int == self.0 as int % two_pow_64(),
    {
        proof { lemma_unpack_bits(self.0); }
        self.0 as u64
    }
}

/// Packing and unpacking an order id are inverse: the market id and the
/// sequence number that went in come back out, and distinct pairs give
/// distinct ids.
pub proof fn lemma_order_id_roundtrip(market: u64, sequence: u64, market2: u64, sequence2: u64)
    ensures
        pack_id(market, sequence) / two_pow_64() == market,
        pack_id(market, sequence) % two_pow_64() == sequence,
        0 <= pack_id(market, sequence) <= u128::MAX,
        (pack_id(market, sequence) == pack_id(market2, sequence2)) <==> (market == market2
            && sequence == sequence2),
{
    let b = two_pow_64();
    assert(pack_id(market, sequence) / b == market && pack_id(market, sequence) % b == sequence)
        by (nonlinear_arith)
        requires 0 <= sequence < b, b == 0x1_0000_0000_0000_0000int, 0 <= market;
    assert(pack_id(market2, sequence2) / b == market2 && pack_id(market2, sequence2) % b == sequence2)
        by (nonlinear_arith)
        requires 0 <= sequence2 < b, b == 0x1_0000_0000_0000_0000int, 0 <= market2;
    assert(pack_id(market, sequence) <= u128::MAX) by (nonlinear_arith)
        requires market < b, sequence < b, b == 0x1_0000_0000_0000_0000int;
}

/// A 20-byte Ethereum address.
#[derive(Debug, Clone, Copy, Eq, PartialOrd, Ord, Hash, Default)]
pub struct Address(pub [u8; 20]);

impl PartialEq for Address {
    fn eq(&self, other: &Address) -> (r: bool) {
        let mut i: usize = 0;
        while i < 20
            invariant
                0 <= i <= 20,
                forall|j: int| 0 <= j < i ==> self.0@[j] == other.0@[j],
            decreases 20 - i,
        {
            if self.0[i] != other.0[i] {
                return false;
            }
            i = i + 1;
        }
        assert(self.0@ =~= other.0@);
        true
    }
}

impl vstd::std_specs::cmp::PartialEqSpecImpl for Address {
    open spec fn obeys_eq_spec() -> bool {
        true
    }

    open spec fn eq_spec(&self, other: &Address) -> bool {
        self.0@ == other.0@
    }
}


/// The part of an address string that follows an optional `0x` or `0X` prefix.
pub open spec fn strip_hex_prefix(text: Seq<u8>) -> Seq<u8> {
    if text.len() >= 2 && text[0] == 48u8 && (text[1] == 120u8 || text[1] == 88u8) {
        text.skip(2)
    } else {
        text
    }
}

impl Address {
    /// The length of an address in bytes.
    pub const LENGTH: usize = 20;

    /// Creates an address from its 20 bytes.
    pub fn new(bytes: [u8; 20]) -> (r: Address)
        ensures r.0 == bytes,
    {
        Address(bytes)
    }

    /// The zero address.
    pub fn zero() -> (r: Address)
        ensures forall|i: int| 0 <= i < 20 ==> r.0@[i] == 0u8,
    {
        Address([0u8; 20])
    }

    /// Returns `true` if every byte is zero.
    pub fn is_zero(&self) -> (r: bool)
        ensures r == (forall|i: int| 0 <= i < 20 ==> self.0@[i] == 0u8),
    {
        let mut i: usize = 0;
        while i < 20
            invariant
                0 <= i <= 20,
                forall|j: int| 0 <= j < i ==> self.0@[j] == 0u8,
            decreases 20 - i,
        {
            if self.0[i] != 0 {
                return false;
            }
            i = i + 1;
        }
        true
    }

    /// Returns the 20 bytes.
    pub fn as_bytes(&self) -> (r: &[u8; 20])
        ensures *r == self.0,
    {
        &self.0
    }

    /// Parses 40 hexadecimal digits, optionally preceded by `0x` or `0X`.
    pub fn from_hex(s: &str) -> (r: Result<Address, AddressParseError>)
        ensures
            parses_as_address(s.spec_bytes(), r),
    {
        let bytes = s.as_bytes();
        let n = bytes.len();
        let start: usize = if n >= 2 && bytes[0] == 48u8 && (bytes[1] == 120u8 || bytes[1] == 88u8) {
            2
        } else {
            0
        };
        let mut body: Vec<u8> = Vec::new();
        let mut i: usize = start;
        while i < n
            invariant
                start <= i <= n,
                n == bytes@.len(),
                body@ =~= bytes@.subrange(start as int, i as int),
            decreases n - i,
        {
            body.push(bytes[i]);
            i = i + 1;
        }
        proof {
            assert(body@ =~= strip_hex_prefix(s.spec_bytes()));
        }
        if body.len() != 40 {
            return Err(AddressParseError::InvalidLength { expected: 40, actual: body.len() });
        }
        match hex_decode(body.as_slice()) {
            Err(e) => {
                let message = hex_error_message(&e);
                proof {
                    assert forall|k: int| #[trigger] is_first_non_hex(body@, k) implies e
                        == (HexDecodeError::InvalidHexCharacter {
                        c: body@[k] as char,
                        index: k as usize,
                    }) by {
                        let idx = e->index as int;
                        assert(is_first_non_hex(body@, idx));
                        if k < idx {
                            assert(hex_digit_value(body@[k]) >= 0);
                        } else if idx < k {
                            assert(hex_digit_value(body@[idx]) >= 0);
                        }
                    }
                }
                Err(AddressParseError::InvalidHex(message))
            },
            Ok(decoded) => {
                let mut arr = [0u8; 20];
                let mut k: usize = 0;
                while k < 20
                    invariant
                        0 <= k <= 20,
                        decoded@.len() == 20,
                        forall|j: int| 0 <= j < k ==> arr@[j] == decoded@[j],
                    decreases 20 - k,
                {
                    arr[k] = decoded[k];
                    k = k + 1;
                }
                assert(arr@ =~= decoded@);
                Ok(Address(arr))
            },
        }
    }

    /// Formats the address as `0x` followed by 40 lowercase hexadecimal digits.
    pub fn to_hex(&self) -> (r: String)
        ensures r@ == seq!['0', 'x'] + hex_encoding(self.0@),
    {
        let mut out = "0x".to_owned();
        proof { reveal_strlit("0x"); }
        let digits = hex_encode(self.0.as_slice());
        out.append(digits.as_str());
        out
    }
}

impl From<[u8; 20]> for Address {
    fn from(bytes: [u8; 20]) -> (r: Address) {
        Address(bytes)
    }
}

impl vstd::std_specs::convert::FromSpecImpl<[u8; 20]> for Address {
    open spec fn obeys_from_spec() -> bool {
        true
    }

    open spec fn from_spec(v: [u8; 20]) -> Address {
        Address(v)
    }
}

impl<'a> TryFrom<&'a str> for Address {
    type Error = AddressParseError;

    fn try_from(s: &'a str) -> (r: Result<Address, AddressParseError>)
        ensures
            parses_as_address(s.spec_bytes(), r),
    {
        Address::from_hex(s)
    }
}

/// Conversion from text goes through [`Address::from_hex`]; the contract of
/// `try_from` states the result, the trait-level specification makes no claim.
impl<'a> vstd::std_specs::convert::TryFromSpecImpl<&'a str> for Address {
    open spec fn obeys_try_from_spec() -> bool {
        false
    }

    open spec fn try_from_spec(v: &'a str) -> Result<Address, AddressParseError> {
        arbitrary()
    }
}

/// Why a string could not be parsed as an address.
#[derive(Debug, Clone, PartialEq, Eq)]
pub enum AddressParseError {
    /// The text (without prefix) does not hold exactly 40 characters.
    InvalidLength {
        /// The expected number of hexadecimal digits.
        expected: usize,
        /// The number of characters found.
        actual: usize,
    },
    /// The text holds a character that is not a hexadecimal digit.
    InvalidHex(String),
}


/// What parsing `text` as an address gives: the length error when the text
/// without its `0x`/`0X` prefix is not 40 characters long; the message of the
/// first byte that is not a hexadecimal digit; otherwise the 20 bytes the
/// digits denote.
pub open spec fn parses_as_address(text: Seq<u8>, r: Result<Address, AddressParseError>) -> bool {
    let body = strip_hex_prefix(text);
    &&& body.len() != 40 ==> r == Err::<Address, AddressParseError>(
        AddressParseError::InvalidLength { expected: 40, actual: body.len() as usize },
    )
    &&& body.len() == 40 && !all_hex_digits(body) ==> (r matches Err(
        AddressParseError::InvalidHex(m),
    ) && forall|k: int| #[trigger]
        is_first_non_hex(body, k) ==> m@ == hex_error_text(
            HexDecodeError::InvalidHexCharacter { c: body[k] as char, index: k as usize },
        ))
    &&& body.len() == 40 && all_hex_digits(body) ==> r is Ok && r->Ok_0.0@
        == hex_decoding(body)

}

/// The text of a market id, such as `"Market(5)"`.
pub open spec fn market_id_text(m: MarketId) -> Seq<char> {
    "Market("@ + decimal(m.0 as nat) + ")"@
}

/// The text of an order id: its market and sequence number, such as `"Order(3-42)"`.
pub open spec fn order_id_text(id: OrderId) -> Seq<char> {
    "Order("@ + decimal((id.0 as int / two_pow_64()) as nat) + "-"@ + decimal((id.0 as int % two_pow_64()) as nat) + ")"@
}

/// The shortened text of an address: `0x`, its first four and last four
/// hexadecimal digits, with `...` between them.
pub open spec fn address_text(a: Address) -> Seq<char> {
    "0x"@ + hex_encoding(a.0@).subrange(0, 4) + "..."@ + hex_encoding(a.0@).subrange(36, 40)
}

impl MarketId {
    /// The text of the market id, such as `"Market(5)"`.
    pub fn to_display_string(&self) -> (r: String)
        ensures
            r@ == market_id_text(*self),
    {
        let mut s = "Market(".to_owned();
        push_decimal(&mut s, self.0 as u128);
        s.append(")");
        s
    }
}

impl OrderId {
    /// The text of the order id, such as `"Order(3-42)"`.
    pub fn to_display_string(&self) -> (r: String)
        ensures
            r@ == order_id_text(*self),
    {
        let mut s = "Order(".to_owned();
        push_decimal(&mut s, self.market_id().0 as u128);
        s.append("-");
        push_decimal(&mut s, self.sequence() as u128);
        s.append(")");
        s
    }
}

impl Address {
    /// The shortened text of the address, such as `"0x1234...5678"`.
    pub fn to_display_string(&self) -> (r: String)
        ensures
            r@ == address_text(*self),
    {
        let hex = hex_encode(&self.0);
        let mut s = "0x".to_owned();
        s.append(hex.as_str().substring_char(0, 4));
        s.append("...");
        s.append(hex.as_str().substring_char(36, 40));
        s
    }
}

} // verus!
