//! Bytes as hexadecimal text, and back.

use hex::FromHexError;
use vstd::prelude::*;
use vstd::string::StringSliceAdditionalSpecFns;

verus! {

/// The lower-case hexadecimal digit of a number below sixteen.
pub open spec fn hex_digit(n: u8) -> char {
    if n < 10 {
        (0x30 + n) as char
    } else {
        (0x57 + n) as char
    }
}

/// Bytes in lower-case hexadecimal, two digits to a byte, the high one first.
pub open spec fn hex_of(data: Seq<u8>) -> Seq<char>
    decreases data.len(),
{
    if data.len() == 0 {
        seq![]
    } else {
        hex_of(data.drop_last()) + seq![hex_digit(data.last() / 16), hex_digit(data.last() % 16)]
    }
}

/// Writes bytes in hexadecimal with `hex::encode`. The contract claims lower-case digits, two to a
/// byte.
#[verifier::external_body]
pub(crate) fn encode_hex(data: &[u8]) -> (r: String)
    ensures
        r@ == hex_of(data@),
{
    hex::encode(data)
}

/// The number that a hexadecimal digit of either case stands for.
pub open spec fn hex_digit_value(c: u8) -> Option<u8> {
    if 0x30 <= c <= 0x39 {
        Some((c - 0x30) as u8)
    } else if 0x41 <= c <= 0x46 {
        Some((c - 0x41 + 10) as u8)
    } else if 0x61 <= c <= 0x66 {
        Some((c - 0x61 + 10) as u8)
    } else {
        None
    }
}

/// Why a text is not bytes in hexadecimal.
#[derive(Clone, Copy, Debug, PartialEq, Eq)]
pub enum HexFault {
    /// A byte of the text, at the given position, is no hexadecimal digit.
    InvalidHexCharacter { c: char, index: usize },
    /// A digit is left over.
    OddLength,
    /// The text does not fill a buffer of fixed size.
    InvalidStringLength,
}

/// Every byte of the text is a hexadecimal digit.
pub open spec fn all_hex_digits(text: Seq<u8>) -> bool {
    forall|i: int| 0 <= i < text.len() ==> hex_digit_value(#[trigger] text[i]) is Some
}

/// The bytes that pairs of hexadecimal digits stand for.
pub open spec fn hex_value(text: Seq<u8>) -> Seq<u8> {
    Seq::new(
        text.len() / 2,
        |i: int|
            (hex_digit_value(text[2 * i])->0 * 16 + hex_digit_value(text[2 * i + 1])->0) as u8,
    )
}

/// `fault` is why a text is not bytes in hexadecimal: an odd length goes before a wrong character,
/// and of the wrong characters the first is named.
pub open spec fn is_hex_fault(text: Seq<u8>, fault: HexFault) -> bool {
    match fault {
        HexFault::OddLength => text.len() % 2 != 0,
        HexFault::InvalidHexCharacter { c, index } => {
            &&& text.len() % 2 == 0
            &&& index < text.len()
            &&& hex_digit_value(text[index as int]) is None
            &&& c == text[index as int] as char
            &&& all_hex_digits(text.take(index as int))
        },
        HexFault::InvalidStringLength => false,
    }
}

/// Reads bytes in hexadecimal with `hex::decode`. The contract claims that it succeeds exactly on
/// texts of an even number of hexadecimal digits, of either case, and what it hands out or reports.
#[verifier::external_body]
pub(crate) fn decode_hex(text: &str) -> (r: Result<Vec<u8>, HexFault>)
    ensures
        match r {
            Ok(data) => text.spec_bytes().len() % 2 == 0 && all_hex_digits(text.spec_bytes()) && data@
                == hex_value(text.spec_bytes()),
            Err(fault) => is_hex_fault(text.spec_bytes(), fault),
        },
{
    match hex::decode(text) {
        Ok(data) => Ok(data),
        Err(FromHexError::InvalidHexCharacter { c, index }) => {
            Err(HexFault::InvalidHexCharacter { c, index })
        },
        Err(FromHexError::OddLength) => Err(HexFault::OddLength),
        Err(FromHexError::InvalidStringLength) => Err(HexFault::InvalidStringLength),
    }
}

/// Every byte becomes two digits, in place, the one for its sixteens first.
pub proof fn law_bytes_become_two_digits_each(data: Seq<u8>, i: int)
    requires
        0 <= i < data.len(),
    ensures
        hex_of(data).len() == 2 * data.len(),
        hex_of(data)[2 * i] == "0123456789abcdef"@[data[i] as int / 16],
        hex_of(data)[2 * i + 1] == "0123456789abcdef"@[data[i] as int % 16],
    decreases data.len(),
{
    reveal_with_fuel(hex_of, 2);
    reveal_strlit("0123456789abcdef");
    let shorter = data.drop_last();
    if shorter.len() > 0 {
        law_bytes_become_two_digits_each(
            shorter,
            if i < shorter.len() {
                i
            } else {
                0
            },
        );
    }
}

/// A digit of either case stands for its place among the sixteen, and nothing else is a digit.
pub proof fn law_digits_stand_for_their_places(c: u8, place: u8)
    ensures
        hex_digit_value(c) == Some(place) <==> place < 16 && ("0123456789abcdef"@[place as int]
            == c as char || "0123456789ABCDEF"@[place as int] == c as char),
{
    reveal_strlit("0123456789abcdef");
    reveal_strlit("0123456789ABCDEF");
}

} // verus!
