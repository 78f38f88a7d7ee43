//! Reading a 32-byte value written as hexadecimal text.

use vstd::prelude::*;
use vstd::string::StringSliceAdditionalSpecFns;

verus! {

/// Why hexadecimal text does not decode (the cases `hex::FromHexError` names).
#[derive(Debug, PartialEq, Eq, Clone, Copy)]
pub enum HexError {
    /// The character at `index` is not one of `0-9`, `a-f`, `A-F`.
    InvalidHexCharacter { c: char, index: usize },
    /// The text has an odd number of digits.
    OddLength,
    /// The text does not fit a fixed-size target.
    InvalidStringLength,
}

/// Why text is not a 32-byte value in hexadecimal.
#[derive(Debug, PartialEq, Eq, Clone, Copy)]
pub enum Hex32Error {
    /// The text is not hexadecimal.
    Hex(HexError),
    /// The text decodes, but not to 32 bytes.
    NotThirtyTwoBytes,
}

/// The value of a hexadecimal digit (either case), if `c` is one.
pub open spec fn hex_digit_value(c: u8) -> Option<u8> {
    if 0x30 <= c <= 0x39 {
        Some((c - 0x30) as u8)
    } else if 0x61 <= c <= 0x66 {
        Some((c - 0x61 + 10) as u8)
    } else if 0x41 <= c <= 0x46 {
        Some((c - 0x41 + 10) as u8)
    } else {
        None
    }
}

/// Whether every character of `s` is a hexadecimal digit.
pub open spec fn all_hex_digits(s: Seq<u8>) -> bool {
    forall|i: int| 0 <= i < s.len() ==> (#[trigger] hex_digit_value(s[i])) is Some
}

/// The position of the first character of `s` that is not a hexadecimal digit.
pub open spec fn first_non_hex(s: Seq<u8>, j: int) -> bool {
    &&& 0 <= j < s.len()
    &&& hex_digit_value(s[j]) is None
    &&& forall|i: int| 0 <= i < j ==> (#[trigger] hex_digit_value(s[i])) is Some
}

/// The bytes that hexadecimal text `s` (of even length, all digits) stands
/// for, two digits per byte, high digit first.
pub open spec fn spec_hex_decoded(s: Seq<u8>) -> Seq<u8> {
    Seq::new(
        s.len() / 2,
        |i: int|
            (hex_digit_value(s[2 * i]).unwrap() * 16 + hex_digit_value(s[2 * i + 1]).unwrap()) as u8,
    )
}

/// What `hex::decode` returns for `s`: `OddLength` for text of odd length,
/// else the first non-digit with its position, else the decoded bytes.
pub open spec fn spec_hex_decode(s: Seq<u8>) -> Result<Seq<u8>, HexError> {
    if s.len() % 2 == 1 {
        Err(HexError::OddLength)
    } else if all_hex_digits(s) {
        Ok(spec_hex_decoded(s))
    } else {
        let j = choose|j: int| first_non_hex(s, j);
        Err(HexError::InvalidHexCharacter { c: s[j] as char, index: j as usize })
    }
}

/// Calls `hex::decode` on `text`, converting its error variant for variant.
/// Claims what the crate's source does: odd-length text gives `OddLength`;
/// otherwise the digit pairs are read in order and the first character that
/// is not a hexadecimal digit gives `InvalidHexCharacter` with that character
/// (its byte as a `char`) and position; otherwise the bytes, high digit first.
#[verifier::external_body]
fn hex_decode(text: &[u8]) -> (r: Result<Vec<u8>, HexError>)
    ensures
        match (r, spec_hex_decode(text@)) {
            (Ok(v), Ok(d)) => v@ == d,
            (Err(e), Err(d)) => e == d,
            _ => false,
        },
{
    match hex::decode(text) {
        Ok(v) => Ok(v),
        Err(hex::FromHexError::InvalidHexCharacter { c, index }) => Err(
            HexError::InvalidHexCharacter { c, index },
        ),
        Err(hex::FromHexError::OddLength) => Err(HexError::OddLength),
        Err(hex::FromHexError::InvalidStringLength) => Err(HexError::InvalidStringLength),
    }
}

/// Whether `c` has the Unicode `White_Space` property (what
/// `char::is_whitespace` tests).
pub open spec fn is_white_space(c: char) -> bool {
    let u = c as u32;
    (0x09 <= u <= 0x0d) || u == 0x20 || u == 0x85 || u == 0xa0 || u == 0x1680 || (0x2000 <= u
        <= 0x200a) || u == 0x2028 || u == 0x2029 || u == 0x202f || u == 0x205f || u == 0x3000
}

/// `s` without its leading white space.
pub open spec fn trim_start_chars(s: Seq<char>) -> Seq<char>
    decreases s.len(),
{
    if s.len() > 0 && is_white_space(s[0]) {
        trim_start_chars(s.drop_first())
    } else {
        s
    }
}

/// `s` without its trailing white space.
pub open spec fn trim_end_chars(s: Seq<char>) -> Seq<char>
    decreases s.len(),
{
    if s.len() > 0 && is_white_space(s.last()) {
        trim_end_chars(s.drop_last())
    } else {
        s
    }
}

/// `s` without its leading and trailing white space.
pub open spec fn trim_chars(s: Seq<char>) -> Seq<char> {
    trim_end_chars(trim_start_chars(s))
}

/// Calls `str::trim`, which returns the text without its leading and
/// trailing characters of the Unicode `White_Space` property.
#[verifier::external_body]
fn str_trim(text: &str) -> (t: &str)
    ensures
        t@ == trim_chars(text@),
{
    text.trim()
}

/// The bytes written as hexadecimal text (either case, no prefix).
pub fn hex_bytes(text: &str) -> (r: Result<Vec<u8>, HexError>)
    ensures
        match (r, spec_hex_decode(text.spec_bytes())) {
            (Ok(v), Ok(d)) => v@ == d,
            (Err(e), Err(d)) => e == d,
            _ => false,
        },
{
    hex_decode(text.as_bytes())
}

/// A 32-byte value written as hexadecimal text (either case, no prefix),
/// surrounded by any white space.
pub fn hex32(text: &str) -> (r: Result<[u8; 32], Hex32Error>)
    ensures
        match spec_hex_decode(vstd::utf8::encode_utf8(trim_chars(text@))) {
            Ok(d) => if d.len() == 32 {
                r matches Ok(h) && h@ == d
            } else {
                r == Err::<[u8; 32], Hex32Error>(Hex32Error::NotThirtyTwoBytes)
            },
            Err(e) => r == Err::<[u8; 32], Hex32Error>(Hex32Error::Hex(e)),
        },
{
    let trimmed = str_trim(text);
    let v = match hex_bytes(trimmed) {
        Ok(v) => v,
        Err(e) => return Err(Hex32Error::Hex(e)),
    };
    if v.len() != 32 {
        return Err(Hex32Error::NotThirtyTwoBytes);
    }
    let mut out = [0u8; 32];
    let mut i: usize = 0;
    while i < 32
        invariant
            v@.len() == 32,
            i <= 32,
            out@.len() == 32,
            forall|j: int| 0 <= j < i ==> out@[j] == v@[j],
        decreases 32 - i,
    {
        out.set(i, v[i]);
        i = i + 1;
    }
    assert(out@ =~= v@);
    Ok(out)
}

} // verus!
