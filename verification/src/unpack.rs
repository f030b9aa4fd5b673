//! Little-endian integers and UTF-8 text, read from raw bytes.
//!
//! The integer decoders take arrays of exactly the width they decode, so
//! they have no failure case. The text decoder accepts any bytes and fails
//! on those that are not well-formed UTF-8.

use vstd::arithmetic::power::pow;
use vstd::prelude::*;
use vstd::utf8::decode_utf8;
use vstd::utf8::encode_utf8;
use vstd::utf8::encode_utf8_decode_utf8;
use vstd::utf8::valid_utf8;

verus! {

/// Why a run of bytes could not be decoded.
#[derive(Clone, Copy, Debug, PartialEq, Eq, Structural)]
pub enum DecodeError {
    /// The bytes are not well-formed UTF-8.
    InvalidTextEncoding,
}

/// The number that `bytes` spells in base 256 with the lowest digit first:
/// the sum of `bytes[i] * 256^i` over every index `i`.
pub open spec fn le_value(bytes: Seq<u8>) -> int
    decreases bytes.len(),
{
    if bytes.len() == 0 {
        0
    } else {
        le_value(bytes.drop_last()) + bytes.last() * pow(256, (bytes.len() - 1) as nat)
    }
}

/// The powers of 256 up to the eighth.
pub proof fn lemma_pow256_values()
    ensures
        pow(256, 0) == 1,
        pow(256, 1) == 0x100,
        pow(256, 2) == 0x1_0000,
        pow(256, 3) == 0x100_0000,
        pow(256, 4) == 0x1_0000_0000,
        pow(256, 5) == 0x100_0000_0000,
        pow(256, 6) == 0x1_0000_0000_0000,
        pow(256, 7) == 0x100_0000_0000_0000,
        pow(256, 8) == 0x1_0000_0000_0000_0000,
{
    reveal_with_fuel(pow, 9);
}

/// A little-endian number of `n` bytes is at least 0 and below `256^n`.
pub proof fn lemma_le_value_bound(bytes: Seq<u8>)
    ensures
        0 <= le_value(bytes) < pow(256, bytes.len()),
    decreases bytes.len(),
{
    reveal(pow);
    if bytes.len() > 0 {
        lemma_le_value_bound(bytes.drop_last());
        let digit = bytes.last() as int;
        let weight = pow(256, (bytes.len() - 1) as nat);
        assert(digit * weight <= 255 * weight) by (nonlinear_arith)
            requires
                0 <= digit <= 255,
                0 <= weight,
        ;
    }
}

/// `le_value` of two bytes, written out.
pub proof fn lemma_le_value_of_two(bytes: Seq<u8>)
    requires
        bytes.len() == 2,
    ensures
        le_value(bytes) == bytes[0] + bytes[1] * 0x100,
{
    reveal_with_fuel(le_value, 3);
    lemma_pow256_values();
}

/// `le_value` of eight bytes, written out.
pub proof fn lemma_le_value_of_eight(bytes: Seq<u8>)
    requires
        bytes.len() == 8,
    ensures
        le_value(bytes) == bytes[0] + bytes[1] * 0x100 + bytes[2] * 0x1_0000 + bytes[3]
            * 0x100_0000 + bytes[4] * 0x1_0000_0000 + bytes[5] * 0x100_0000_0000 + bytes[6]
            * 0x1_0000_0000_0000 + bytes[7] * 0x100_0000_0000_0000,
{
    reveal_with_fuel(le_value, 9);
    lemma_pow256_values();
}

/// In 64 bits, shifting a byte left by `8 * i` bits multiplies it by `256^i`,
/// for each of the eight positions.
pub proof fn lemma_shift_scales_u64(byte: u8, i: usize)
    requires
        i < 8,
    ensures
        (byte as u64) << (8 * i) == byte * pow(256, i as nat),
{
    lemma_pow256_values();
    let wide = byte as u64;
    assert(wide << 0usize == wide * 1) by (bit_vector);
    assert(wide << 8usize == wide * 0x100) by (bit_vector)
        requires
            wide < 0x100,
    ;
    assert(wide << 16usize == wide * 0x1_0000) by (bit_vector)
        requires
            wide < 0x100,
    ;
    assert(wide << 24usize == wide * 0x100_0000) by (bit_vector)
        requires
            wide < 0x100,
    ;
    assert(wide << 32usize == wide * 0x1_0000_0000) by (bit_vector)
        requires
            wide < 0x100,
    ;
    assert(wide << 40usize == wide * 0x100_0000_0000) by (bit_vector)
        requires
            wide < 0x100,
    ;
    assert(wide << 48usize == wide * 0x1_0000_0000_0000) by (bit_vector)
        requires
            wide < 0x100,
    ;
    assert(wide << 56usize == wide * 0x100_0000_0000_0000) by (bit_vector)
        requires
            wide < 0x100,
    ;
}

/// In 16 bits, shifting a byte left by `8 * i` bits multiplies it by `256^i`,
/// for both positions.
pub proof fn lemma_shift_scales_u16(byte: u8, i: usize)
    requires
        i < 2,
    ensures
        (byte as u16) << (8 * i) == byte * pow(256, i as nat),
{
    lemma_pow256_values();
    let wide = byte as u16;
    assert(wide << 0usize == wide * 1) by (bit_vector);
    assert(wide << 8usize == wide * 0x100) by (bit_vector)
        requires
            wide < 0x100,
    ;
}

/// Reads eight bytes as an unsigned 64-bit integer, lowest byte first.
///
/// Every array of eight bytes is accepted; the result is the sum of
/// `arr[i] * 256^i` over the eight indices.
pub fn as_u64_le(arr: &[u8; 8]) -> (value: u64)
    ensures
        value == le_value(arr@),
        value == arr[0] + arr[1] * 0x100 + arr[2] * 0x1_0000 + arr[3] * 0x100_0000 + arr[4]
            * 0x1_0000_0000 + arr[5] * 0x100_0000_0000 + arr[6] * 0x1_0000_0000_0000 + arr[7]
            * 0x100_0000_0000_0000,
{
    let mut value: u64 = 0;
    let mut i: usize = 0;
    while i < 8
        invariant
            i <= 8,
            value == le_value(arr@.take(i as int)),
        decreases 8 - i,
    {
        let term: u64 = (arr[i] as u64) << (8 * i);
        proof {
            let seen = arr@.take(i as int + 1);
            assert(seen.drop_last() == arr@.take(i as int));
            lemma_shift_scales_u64(arr[i as int], i);
            lemma_le_value_bound(seen);
            lemma_pow256_values();
        }
        value = value + term;
        i = i + 1;
    }
    proof {
        assert(arr@.take(8) == arr@);
        lemma_le_value_of_eight(arr@);
    }
    value
}

/// Reads two bytes as an unsigned 16-bit integer, lowest byte first.
///
/// Every array of two bytes is accepted; the result is `arr[0] + arr[1] * 256`,
/// which is also `arr[0] | arr[1] << 8`.
pub fn as_u16_le(arr: &[u8; 2]) -> (value: u16)
    ensures
        value == le_value(arr@),
        value == arr[0] + arr[1] * 256,
        value == (arr[0] as u16) | ((arr[1] as u16) << 8),
{
    let mut value: u16 = 0;
    let mut i: usize = 0;
    while i < 2
        invariant
            i <= 2,
            value == le_value(arr@.take(i as int)),
        decreases 2 - i,
    {
        let term: u16 = (arr[i] as u16) << (8 * i);
        proof {
            let seen = arr@.take(i as int + 1);
            assert(seen.drop_last() == arr@.take(i as int));
            lemma_shift_scales_u16(arr[i as int], i);
            lemma_le_value_bound(seen);
            lemma_pow256_values();
        }
        value = value + term;
        i = i + 1;
    }
    proof {
        assert(arr@.take(2) == arr@);
        lemma_le_value_of_two(arr@);
        let low = arr[0] as u16;
        let high = arr[1] as u16;
        assert(low | (high << 8) == low + high * 256) by (bit_vector)
            requires
                low < 0x100,
                high < 0x100,
        ;
    }
    value
}

/// The error of `core::str::from_utf8`. It is only told apart from success;
/// nothing it holds is read.
#[verifier::external_type_specification]
#[verifier::external_body]
pub struct ExUtf8Error(core::str::Utf8Error);

/// `core::str::from_utf8` succeeds on exactly the byte sequences that are
/// well-formed UTF-8. Where it succeeds, the string slice it returns lies
/// over the bytes it was given, so encoding its characters gives those bytes
/// back.
pub assume_specification[ core::str::from_utf8 ](v: &[u8]) -> (res: Result<
    &str,
    core::str::Utf8Error,
>)
    ensures
        res is Ok <==> valid_utf8(v@),
        res matches Ok(s) ==> encode_utf8(s@) == v@,
;

/// Reads bytes as UTF-8 text. The text borrows from `arr`; nothing is copied.
///
/// Succeeds exactly on well-formed UTF-8, the empty input included, with the
/// characters that the bytes encode. Any other input gives
/// `InvalidTextEncoding`, whatever made it malformed and wherever.
pub fn as_str(arr: &[u8]) -> (res: Result<&str, DecodeError>)
    ensures
        valid_utf8(arr@) ==> (res matches Ok(s) && s@ == decode_utf8(arr@) && encode_utf8(s@)
            == arr@),
        !valid_utf8(arr@) ==> res matches Err(DecodeError::InvalidTextEncoding),
{
    match core::str::from_utf8(arr) {
        Ok(s) => {
            proof {
                encode_utf8_decode_utf8(s@);
            }
            Ok(s)
        },
        Err(_) => Err(DecodeError::InvalidTextEncoding),
    }
}

/// Decoding keeps no state: two calls of `as_u64_le` on equal bytes return
/// equal numbers.
pub proof fn lemma_as_u64_le_deterministic(a: &[u8; 8], b: &[u8; 8], x: u64, y: u64)
    requires
        a@ == b@,
        call_ensures(as_u64_le, (a,), x),
        call_ensures(as_u64_le, (b,), y),
    ensures
        x == y,
{
}

/// Two calls of `as_u16_le` on equal bytes return equal numbers.
pub proof fn lemma_as_u16_le_deterministic(a: &[u8; 2], b: &[u8; 2], x: u16, y: u16)
    requires
        a@ == b@,
        call_ensures(as_u16_le, (a,), x),
        call_ensures(as_u16_le, (b,), y),
    ensures
        x == y,
{
}

/// Two calls of `as_str` on equal bytes either both succeed, with the same
/// text, or both fail, with the same error.
pub proof fn lemma_as_str_deterministic(
    a: &[u8],
    b: &[u8],
    x: Result<&str, DecodeError>,
    y: Result<&str, DecodeError>,
)
    requires
        a@ == b@,
        call_ensures(as_str, (a,), x),
        call_ensures(as_str, (b,), y),
    ensures
        match (x, y) {
            (Ok(s), Ok(t)) => s@ == t@,
            (Err(e), Err(f)) => e == f,
            _ => false,
        },
{
}

} // verus!
