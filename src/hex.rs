use rustc_serialize::hex::{FromHex, FromHexError, ToHex};
use vstd::prelude::*;

verus! {

/// Errors that can occur when decoding a `XorName` from a string.
#[derive(Clone, Copy, Debug, PartialEq, Eq, Structural)]
pub enum XorNameFromHexError {
    /// The given invalid hex character occurred at the given position.
    InvalidCharacter(char, usize),
    /// The hex string did not encode `XOR_NAME_LEN` bytes.
    InvalidLength,
}

/// The lowercase hex digit for a value below 16.
pub open spec fn hex_char(n: int) -> char {
    seq!['0', '1', '2', '3', '4', '5', '6', '7', '8', '9', 'a', 'b', 'c', 'd', 'e', 'f'][n]
}

/// Lowercase hex text of `b`: two digits per byte, high half first.
pub open spec fn hex_of(b: Seq<u8>) -> Seq<char> {
    Seq::new(
        2 * b.len(),
        |i: int|
            if i % 2 == 0 {
                hex_char(b[i / 2] as int / 16)
            } else {
                hex_char(b[i / 2] as int % 16)
            },
    )
}

/// The value of a hex digit of either case, or -1 for any other character.
pub open spec fn hex_value(c: char) -> int {
    if '0' <= c <= '9' {
        c as int - '0' as int
    } else if 'a' <= c <= 'f' {
        c as int - 'a' as int + 10
    } else if 'A' <= c <= 'F' {
        c as int - 'A' as int + 10
    } else {
        -1
    }
}

/// The whitespace that hex decoding skips.
pub open spec fn is_hex_space(c: char) -> bool {
    c == ' ' || c == '\r' || c == '\n' || c == '\t'
}

/// A character that makes hex decoding fail.
pub open spec fn is_bad_hex_char(c: char) -> bool {
    hex_value(c) < 0 && !is_hex_space(c)
}

/// `i` is the first position of `s` that holds a bad character.
pub open spec fn first_bad_hex_char(s: Seq<char>, i: int) -> bool {
    &&& 0 <= i < s.len()
    &&& is_bad_hex_char(s[i])
    &&& forall|j: int| 0 <= j < i ==> !is_bad_hex_char(s[j])
}

/// The hex digits of `s`, whitespace left out.
pub open spec fn hex_digits(s: Seq<char>) -> Seq<char> {
    s.filter(|c: char| hex_value(c) >= 0)
}

/// The bytes that a sequence of hex digits of even length encodes, read in pairs.
pub open spec fn bytes_of_digits(d: Seq<char>) -> Seq<u8> {
    Seq::new(d.len() / 2, |k: int| (16 * hex_value(d[2 * k]) + hex_value(d[2 * k + 1])) as u8)
}

/// Hex decoding of text: the first bad character fails it, with its position;
/// else an odd number of digits fails it; else it gives the bytes that the
/// digits encode, whitespace skipped.
pub open spec fn hex_decoding(s: Seq<char>) -> Result<Seq<u8>, XorNameFromHexError> {
    if exists|i: int| 0 <= i < s.len() && is_bad_hex_char(s[i]) {
        let i = choose|i: int| first_bad_hex_char(s, i);
        Err(XorNameFromHexError::InvalidCharacter(s[i], i as usize))
    } else if hex_digits(s).len() % 2 == 1 {
        Err(XorNameFromHexError::InvalidLength)
    } else {
        Ok(bytes_of_digits(hex_digits(s)))
    }
}

/// `i` is the first position of `s` that holds anything but a hex digit.
pub open spec fn first_non_hex_digit_at(s: Seq<char>, i: int) -> bool {
    &&& 0 <= i < s.len()
    &&& hex_value(s[i]) < 0
    &&& forall|j: int| 0 <= j < i ==> hex_value(s[j]) >= 0
}

/// Hex decoding of a name. The first character that is not a hex digit,
/// whitespace included, fails it with that character and its position; else
/// the digits decode as `hex_decoding` says, and any byte count but 64 is an
/// invalid length.
pub open spec fn name_decoding(s: Seq<char>) -> Result<Seq<u8>, XorNameFromHexError> {
    if exists|i: int| 0 <= i < s.len() && hex_value(s[i]) < 0 {
        let i = choose|i: int| first_non_hex_digit_at(s, i);
        Err(XorNameFromHexError::InvalidCharacter(s[i], i as usize))
    } else {
        match hex_decoding(s) {
            Ok(b) => if b.len() == 64 {
                Ok(b)
            } else {
                Err(XorNameFromHexError::InvalidLength)
            },
            Err(e) => Err(e),
        }
    }
}

/// Whether `c` is a hex digit of either case.
pub fn is_hex_digit(c: char) -> (r: bool)
    ensures
        r == (hex_value(c) >= 0),
{
    ('0' <= c && c <= '9') || ('a' <= c && c <= 'f') || ('A' <= c && c <= 'F')
}

/// The position of the first character of `s` that is not a hex digit, if any.
pub fn first_non_hex_digit(s: &str) -> (r: Option<usize>)
    ensures
        match r {
            Some(p) => first_non_hex_digit_at(s@, p as int),
            None => forall|i: int| 0 <= i < s@.len() ==> hex_value(#[trigger] s@[i]) >= 0,
        },
{
    let n = s.unicode_len();
    let mut i: usize = 0;
    while i < n
        invariant
            0 <= i <= n,
            n == s@.len(),
            forall|j: int| 0 <= j < i ==> hex_value(#[trigger] s@[j]) >= 0,
        decreases n - i,
    {
        if !is_hex_digit(s.get_char(i)) {
            return Some(i);
        }
        i += 1;
    }
    None
}

/// Relies on rustc_serialize's `ToHex for [u8]`: two lowercase digits per
/// byte, high half first.
#[verifier::external_body]
pub(crate) fn encode_hex(b: &[u8]) -> (r: String)
    ensures
        r@ == hex_of(b@),
{
    b.to_hex()
}

/// Relies on rustc_serialize's `FromHex for str`: it skips spaces, tabs, CR and
/// LF, reports the first other non-digit with its byte index (every character
/// before it is ASCII, so that is also its character index), rejects an odd
/// number of digits, and otherwise pairs the digits into bytes.
#[verifier::external_body]
pub(crate) fn decode_hex(s: &str) -> (r: Result<Vec<u8>, XorNameFromHexError>)
    ensures
        match r {
            Ok(v) => hex_decoding(s@) == Ok::<Seq<u8>, XorNameFromHexError>(v@),
            Err(e) => hex_decoding(s@) == Err::<Seq<u8>, XorNameFromHexError>(e),
        },
{
    match s.from_hex() {
        Ok(v) => Ok(v),
        Err(FromHexError::InvalidHexCharacter(c, p)) => Err(
            XorNameFromHexError::InvalidCharacter(c, p),
        ),
        Err(FromHexError::InvalidHexLength) => Err(XorNameFromHexError::InvalidLength),
    }
}

} // verus!
