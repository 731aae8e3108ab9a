use vstd::prelude::*;

use crate::error::HexDecodeError;

verus! {

/// `b` is the ASCII code of a hex digit (`0-9`, `A-F`, `a-f`).
pub open spec fn is_hex_digit(b: u8) -> bool {
    (48 <= b && b <= 57) || (65 <= b && b <= 70) || (97 <= b && b <= 102)
}

/// The numeric value of the hex digit with ASCII code `b`.
pub open spec fn hex_digit_value(b: u8) -> u8
    recommends
        is_hex_digit(b),
{
    if 48 <= b && b <= 57 {
        (b - 48) as u8
    } else if 65 <= b && b <= 70 {
        (b - 55) as u8
    } else {
        (b - 87) as u8
    }
}

/// Every byte of `s` is a hex digit.
pub open spec fn all_hex_digits(s: Seq<u8>) -> bool {
    forall|i: int| 0 <= i < s.len() ==> is_hex_digit(s[i])
}

/// `s` is a well-formed hex encoding: even length, hex digits throughout.
pub open spec fn hex_well_formed(s: Seq<u8>) -> bool {
    s.len() % 2 == 0 && all_hex_digits(s)
}

/// The bytes that the hex digits of `s` encode, two digits per byte,
/// high nibble first.
pub open spec fn hex_bytes(s: Seq<u8>) -> Seq<u8> {
    Seq::new(
        s.len() / 2,
        |i: int| (hex_digit_value(s[2 * i]) * 16 + hex_digit_value(s[2 * i + 1])) as u8,
    )
}

/// How `hex_decode` reports malformed input: an odd length before anything
/// else, otherwise the least position that does not hold a hex digit.
pub open spec fn hex_decode_err_spec(s: Seq<u8>, e: HexDecodeError) -> bool {
    if s.len() % 2 != 0 {
        e == HexDecodeError::OddLength
    } else {
        e matches HexDecodeError::InvalidHexCharacter { index } && index < s.len()
            && !is_hex_digit(s[index as int]) && (forall|j: int|
            0 <= j < index ==> is_hex_digit(s[j]))
    }
}

/// The ASCII code of the lowercase hex digit for the nibble `v`.
pub open spec fn hex_char_of_nibble(v: u8) -> u8
    recommends
        v < 16,
{
    if v < 10 {
        (48 + v) as u8
    } else {
        (87 + v) as u8
    }
}

/// Emit the nibble `v` as a lowercase hex digit.
pub fn hex_nibble_char(v: u8) -> (r: u8)
    requires
        v < 16,
    ensures
        r == hex_char_of_nibble(v),
        is_hex_digit(r),
{
    if v < 10 {
        48 + v
    } else {
        87 + v
    }
}

fn hex_digit_val(b: u8) -> (r: Option<u8>)
    ensures
        r is Some <==> is_hex_digit(b),
        r matches Some(v) ==> v == hex_digit_value(b) && v < 16,
{
    if 48 <= b && b <= 57 {
        Some(b - 48)
    } else if 65 <= b && b <= 70 {
        Some(b - 55)
    } else if 97 <= b && b <= 102 {
        Some(b - 87)
    } else {
        None
    }
}

/// Decode a hex-encoded byte string.
///
/// Succeeds exactly on well-formed input; an odd length is reported before
/// any digit is inspected, and otherwise the least non-digit position is
/// reported.
pub fn hex_decode(s: &[u8]) -> (r: Result<Vec<u8>, HexDecodeError>)
    ensures
        r is Ok <==> hex_well_formed(s@),
        r matches Ok(v) ==> v@ == hex_bytes(s@),
        r matches Err(e) ==> hex_decode_err_spec(s@, e),
{
    let n: usize = s.len();
    if n % 2 != 0 {
        return Err(HexDecodeError::OddLength);
    }
    let mut out: Vec<u8> = Vec::new();
    let mut i: usize = 0;
    while i < n
        invariant
            n == s@.len(),
            n % 2 == 0,
            i % 2 == 0,
            i <= n,
            out@.len() == i / 2,
            forall|j: int| 0 <= j < i ==> is_hex_digit(s@[j]),
            forall|k: int| 0 <= k < i / 2 ==> out@[k] == (hex_digit_value(s@[2 * k]) * 16
                + hex_digit_value(s@[2 * k + 1])) as u8,
        decreases n - i,
    {
        let hi = match hex_digit_val(s[i]) {
            Some(v) => v,
            None => {
                return Err(HexDecodeError::InvalidHexCharacter { index: i });
            },
        };
        let lo = match hex_digit_val(s[i + 1]) {
            Some(v) => v,
            None => {
                return Err(HexDecodeError::InvalidHexCharacter { index: i + 1 });
            },
        };
        out.push(hi * 16 + lo);
        i = i + 2;
    }
    proof {
        assert(out@ =~= hex_bytes(s@));
    }
    Ok(out)
}

} // verus!
