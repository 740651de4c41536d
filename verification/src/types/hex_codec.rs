//! Hexadecimal text, through the `hex` crate.
use vstd::prelude::*;
use crate::types::text::decimal;

verus! {

/// The value of an ASCII hexadecimal digit (either case), or -1 for any other byte.
pub open spec fn hex_digit_value(c: u8) -> int {
    if 48 <= c <= 57 {
        c - 48
    } else if 97 <= c <= 102 {
        c - 97 + 10
    } else if 65 <= c <= 70 {
        c - 65 + 10
    } else {
        -1
    }
}

/// The lowercase hexadecimal digit for a value below 16.
pub open spec fn hex_digit_char(v: int) -> char {
    if v < 10 {
        (48 + v) as char
    } else {
        (97 + v - 10) as char
    }
}

/// Lowercase hexadecimal text of a byte string, two digits per byte, high nibble first.
pub open spec fn hex_encoding(bytes: Seq<u8>) -> Seq<char> {
    Seq::new(
        2 * bytes.len(),
        |i: int|
            if i % 2 == 0 {
                hex_digit_char(bytes[i / 2] as int / 16)
            } else {
                hex_digit_char(bytes[i / 2] as int % 16)
            },
    )
}

/// `true` when every byte of `text` is a hexadecimal digit.
pub open spec fn all_hex_digits(text: Seq<u8>) -> bool {
    forall|i: int| 0 <= i < text.len() ==> hex_digit_value(#[trigger] text[i]) >= 0
}

/// The bytes that an even-length string of hexadecimal digits denotes.
pub open spec fn hex_decoding(text: Seq<u8>) -> Seq<u8> {
    Seq::new(
        text.len() / 2,
        |i: int| (hex_digit_value(text[2 * i]) * 16 + hex_digit_value(text[2 * i + 1])) as u8,
    )
}

/// `true` when `index` is the position of the first byte of `text` that is
/// not a hexadecimal digit.
pub open spec fn is_first_non_hex(text: Seq<u8>, index: int) -> bool {
    &&& 0 <= index < text.len()
    &&& hex_digit_value(text[index]) < 0
    &&& forall|j: int| 0 <= j < index ==> hex_digit_value(#[trigger] text[j]) >= 0
}

/// Why hexadecimal text could not be decoded.
#[derive(Debug, Clone, Copy, PartialEq, Eq, Structural)]
pub enum HexDecodeError {
    /// A byte that is not a hexadecimal digit, and its position.
    InvalidHexCharacter { c: char, index: usize },
    /// The text holds an odd number of digits.
    OddLength,
    /// The text does not fit the fixed-size output it was decoded into.
    InvalidStringLength,
}

/// Calls `hex::decode` and hands its error over as a [`HexDecodeError`], one
/// variant for each variant of `hex::FromHexError`. Its source rejects an odd
/// length first; otherwise it decodes pair by pair, each pair's first digit
/// before its second, so the error names the first byte that is not one of
/// `0-9`, `a-f`, `A-F`, as the character with that byte's code, and its
/// position. Each pair of digits becomes one byte, high nibble first.
#[verifier::external_body]
pub(crate) fn hex_decode(text: &[u8]) -> (r: Result<Vec<u8>, HexDecodeError>)
    ensures
        r is Ok <==> (text@.len() % 2 == 0 && all_hex_digits(text@)),
        r matches Ok(bytes) ==> bytes@ == hex_decoding(text@),
        r matches Err(e) ==> (text@.len() % 2 != 0 ==> e == HexDecodeError::OddLength),
        r matches Err(e) ==> (text@.len() % 2 == 0 ==> (e matches HexDecodeError::InvalidHexCharacter {
            c,
            index,
        } && is_first_non_hex(text@, index as int) && c == text@[index as int] as char)),
{
    match hex::decode(text) {
        Ok(bytes) => Ok(bytes),
        Err(hex::FromHexError::InvalidHexCharacter { c, index }) => Err(
            HexDecodeError::InvalidHexCharacter { c, index },
        ),
        Err(hex::FromHexError::OddLength) => Err(HexDecodeError::OddLength),
        Err(hex::FromHexError::InvalidStringLength) => Err(HexDecodeError::InvalidStringLength),
    }
}

/// The message that `hex::FromHexError` displays for an error.
pub uninterp spec fn hex_error_text(e: HexDecodeError) -> Seq<char>;

/// `true` for the printable ASCII characters other than the quote `'` and the
/// backslash, which `{:?}` shows unescaped between single quotes.
pub open spec fn shown_plainly(c: char) -> bool {
    &&& ' ' <= c <= '~'
    &&& c != '\''
    &&& c != '\\'
}

/// The message for an invalid character that is shown plainly.
pub open spec fn invalid_character_text(c: char, index: usize) -> Seq<char> {
    "Invalid character '"@ + seq![c] + "' at position "@ + decimal(index as nat)
}

/// Calls `Display::fmt` of `hex::FromHexError` (through `to_string`) on the
/// error's `hex::FromHexError` form. Its source writes `Invalid character {c:?}
/// at position {index}`, `Odd number of digits` or `Invalid string length`; how
/// `{:?}` escapes a character that is not shown plainly is left to the name
/// `hex_error_text`.
#[verifier::external_body]
pub(crate) fn hex_error_message(e: &HexDecodeError) -> (r: String)
    ensures
        r@ == hex_error_text(*e),
        *e is OddLength ==> r@ == "Odd number of digits"@,
        *e is InvalidStringLength ==> r@ == "Invalid string length"@,
        *e matches HexDecodeError::InvalidHexCharacter { c, index } ==> (shown_plainly(c) ==> r@
            == invalid_character_text(c, index)),
{
    let err = match *e {
        HexDecodeError::InvalidHexCharacter { c, index } => hex::FromHexError::InvalidHexCharacter { c, index },
        HexDecodeError::OddLength => hex::FromHexError::OddLength,
        HexDecodeError::InvalidStringLength => hex::FromHexError::InvalidStringLength,
    };
    err.to_string()
}

/// Calls `hex::encode`. Its source writes each byte as two lowercase
/// hexadecimal digits, high nibble first.
#[verifier::external_body]
pub(crate) fn hex_encode(bytes: &[u8]) -> (r: String)
    ensures r@ == hex_encoding(bytes@),
{
    hex::encode(bytes)
}

} // verus!
