//! The entry points for each supported integer type: 16, 32 and 64 bits,
//! unsigned and signed.
//!
//! An unsigned number is widened and handed to the codec as it is. A signed
//! number goes through the zigzag transform on its way in and comes back
//! through it on its way out. Decoding narrows the 128-bit accumulator to
//! the type by a plain cast, so a number that is too large for the type wraps
//! round.

use crate::codec::{decode, decode_spec, encode, encode_spec};
use crate::codec_laws::{lemma_decode_encode, lemma_encode_len_max, lemma_encode_len_monotonic};
use crate::narrow::{lemma_narrow_unsigned, lemma_narrow_unzigzag, wrap_signed, wrap_unsigned};
use crate::zigzag::{lemma_zigzag_by_magnitude, unzigzag, unzigzag_spec, zigzag, zigzag_spec};
use vstd::prelude::*;

verus! {

/// An integer type that is written as a variable-length byte sequence.
///
/// Signed types go through the zigzag transform first, so that a negative
/// number close to zero is as short as a positive one.
pub trait VarIntEncode {
    /// The bytes that stand for `self`.
    spec fn to_varint_spec(&self) -> Seq<u8>;

    /// Encodes `self`.
    fn to_varint(&self) -> (out: Vec<u8>)
        ensures
            out@ == self.to_varint_spec(),
    ;
}

/// An integer type that is read from a variable-length byte sequence.
///
/// A number that does not fit the type is not refused: it wraps round, as a
/// cast to the type does. Bytes that end before the number does are not
/// refused either: the groups that are there make up the result.
pub trait VarIntDecode: Sized {
    /// The number that `data` stands for, cut to the width of the type.
    spec fn from_varint_spec(data: Seq<u8>) -> Self;

    /// Decodes the number at the start of `data`.
    fn from_varint(data: &[u8]) -> (value: Self)
        ensures
            value == Self::from_varint_spec(data@),
    ;
}

impl VarIntEncode for u16 {
    open spec fn to_varint_spec(&self) -> Seq<u8> {
        encode_spec(*self as nat)
    }

    fn to_varint(&self) -> (out: Vec<u8>)
        ensures
            1 <= out@.len() <= 3,
    {
        proof {
            lemma_encode_len_max(*self as nat);
        }
        encode(*self as u128)
    }
}

impl VarIntDecode for u16 {
    open spec fn from_varint_spec(data: Seq<u8>) -> u16 {
        wrap_unsigned(decode_spec(data) as int, 0x1_0000) as u16
    }

    fn from_varint(data: &[u8]) -> (value: u16) {
        let wide: u128 = decode(data);
        let value: u16 = #[verifier::truncate] (wide as u16);
        proof {
            assert(value == wide % 0x1_0000) by (bit_vector)
                requires
                    value == wide as u16,
            ;
            lemma_narrow_unsigned(decode_spec(data@), 0x1_0000);
        }
        value
    }
}

impl VarIntEncode for u32 {
    open spec fn to_varint_spec(&self) -> Seq<u8> {
        encode_spec(*self as nat)
    }

    fn to_varint(&self) -> (out: Vec<u8>)
        ensures
            1 <= out@.len() <= 5,
    {
        proof {
            lemma_encode_len_max(*self as nat);
        }
        encode(*self as u128)
    }
}

impl VarIntDecode for u32 {
    open spec fn from_varint_spec(data: Seq<u8>) -> u32 {
        wrap_unsigned(decode_spec(data) as int, 0x1_0000_0000) as u32
    }

    fn from_varint(data: &[u8]) -> (value: u32) {
        let wide: u128 = decode(data);
        let value: u32 = #[verifier::truncate] (wide as u32);
        proof {
            assert(value == wide % 0x1_0000_0000) by (bit_vector)
                requires
                    value == wide as u32,
            ;
            lemma_narrow_unsigned(decode_spec(data@), 0x1_0000_0000);
        }
        value
    }
}

impl VarIntEncode for u64 {
    open spec fn to_varint_spec(&self) -> Seq<u8> {
        encode_spec(*self as nat)
    }

    fn to_varint(&self) -> (out: Vec<u8>)
        ensures
            1 <= out@.len() <= 10,
    {
        proof {
            lemma_encode_len_max(*self as nat);
        }
        encode(*self as u128)
    }
}

impl VarIntDecode for u64 {
    open spec fn from_varint_spec(data: Seq<u8>) -> u64 {
        wrap_unsigned(decode_spec(data) as int, 0x1_0000_0000_0000_0000) as u64
    }

    fn from_varint(data: &[u8]) -> (value: u64) {
        let wide: u128 = decode(data);
        let value: u64 = #[verifier::truncate] (wide as u64);
        proof {
            assert(value == wide % 0x1_0000_0000_0000_0000) by (bit_vector)
                requires
                    value == wide as u64,
            ;
            lemma_narrow_unsigned(decode_spec(data@), 0x1_0000_0000_0000_0000);
        }
        value
    }
}

impl VarIntEncode for i16 {
    open spec fn to_varint_spec(&self) -> Seq<u8> {
        encode_spec(zigzag_spec(*self as int))
    }

    fn to_varint(&self) -> (out: Vec<u8>)
        ensures
            1 <= out@.len() <= 3,
    {
        proof {
            lemma_encode_len_max(zigzag_spec(*self as int));
        }
        encode(zigzag(*self as i64))
    }
}

impl VarIntDecode for i16 {
    open spec fn from_varint_spec(data: Seq<u8>) -> i16 {
        wrap_signed(unzigzag_spec(decode_spec(data) as int), 0x1_0000) as i16
    }

    fn from_varint(data: &[u8]) -> (value: i16) {
        let wide: i128 = unzigzag(decode(data));
        let value: i16 = #[verifier::truncate] (wide as i16);
        proof {
            assert((wide - value) % 0x1_0000 == 0) by (bit_vector)
                requires
                    value == wide as i16,
            ;
            lemma_narrow_unzigzag(decode_spec(data@), 0x1_0000);
        }
        value
    }
}

impl VarIntEncode for i32 {
    open spec fn to_varint_spec(&self) -> Seq<u8> {
        encode_spec(zigzag_spec(*self as int))
    }

    fn to_varint(&self) -> (out: Vec<u8>)
        ensures
            1 <= out@.len() <= 5,
    {
        proof {
            lemma_encode_len_max(zigzag_spec(*self as int));
        }
        encode(zigzag(*self as i64))
    }
}

impl VarIntDecode for i32 {
    open spec fn from_varint_spec(data: Seq<u8>) -> i32 {
        wrap_signed(unzigzag_spec(decode_spec(data) as int), 0x1_0000_0000) as i32
    }

    fn from_varint(data: &[u8]) -> (value: i32) {
        let wide: i128 = unzigzag(decode(data));
        let value: i32 = #[verifier::truncate] (wide as i32);
        proof {
            assert((wide - value) % 0x1_0000_0000 == 0) by (bit_vector)
                requires
                    value == wide as i32,
            ;
            lemma_narrow_unzigzag(decode_spec(data@), 0x1_0000_0000);
        }
        value
    }
}

impl VarIntEncode for i64 {
    open spec fn to_varint_spec(&self) -> Seq<u8> {
        encode_spec(zigzag_spec(*self as int))
    }

    fn to_varint(&self) -> (out: Vec<u8>)
        ensures
            1 <= out@.len() <= 10,
    {
        proof {
            lemma_encode_len_max(zigzag_spec(*self as int));
        }
        encode(zigzag(*self))
    }
}

impl VarIntDecode for i64 {
    open spec fn from_varint_spec(data: Seq<u8>) -> i64 {
        wrap_signed(unzigzag_spec(decode_spec(data) as int), 0x1_0000_0000_0000_0000) as i64
    }

    fn from_varint(data: &[u8]) -> (value: i64) {
        let wide: i128 = unzigzag(decode(data));
        let value: i64 = #[verifier::truncate] (wide as i64);
        proof {
            assert((wide - value) % 0x1_0000_0000_0000_0000 == 0) by (bit_vector)
                requires
                    value == wide as i64,
            ;
            lemma_narrow_unzigzag(decode_spec(data@), 0x1_0000_0000_0000_0000);
        }
        value
    }
}

/// Decoding the bytes of a `u16` gives it back.
pub proof fn lemma_round_trip_u16(value: u16)
    ensures
        u16::from_varint_spec(value.to_varint_spec()) == value,
{
    lemma_decode_encode(value as nat);
}

/// Decoding the bytes of a `u32` gives it back.
pub proof fn lemma_round_trip_u32(value: u32)
    ensures
        u32::from_varint_spec(value.to_varint_spec()) == value,
{
    lemma_decode_encode(value as nat);
}

/// Decoding the bytes of a `u64` gives it back.
pub proof fn lemma_round_trip_u64(value: u64)
    ensures
        u64::from_varint_spec(value.to_varint_spec()) == value,
{
    lemma_decode_encode(value as nat);
}

/// Decoding the bytes of an `i16` gives it back.
pub proof fn lemma_round_trip_i16(value: i16)
    ensures
        i16::from_varint_spec(value.to_varint_spec()) == value,
{
    lemma_decode_encode(zigzag_spec(value as int));
}

/// Decoding the bytes of an `i32` gives it back.
pub proof fn lemma_round_trip_i32(value: i32)
    ensures
        i32::from_varint_spec(value.to_varint_spec()) == value,
{
    lemma_decode_encode(zigzag_spec(value as int));
}

/// Decoding the bytes of an `i64` gives it back.
pub proof fn lemma_round_trip_i64(value: i64)
    ensures
        i64::from_varint_spec(value.to_varint_spec()) == value,
{
    lemma_decode_encode(zigzag_spec(value as int));
}

/// Of two signed numbers, the one further from zero never takes fewer
/// bytes, whatever the signs of the two.
pub proof fn lemma_signed_len_monotonic(nearer: int, further: int)
    requires
        vstd::math::abs(nearer) < vstd::math::abs(further),
    ensures
        encode_spec(zigzag_spec(nearer)).len() <= encode_spec(zigzag_spec(further)).len(),
{
    lemma_zigzag_by_magnitude(nearer, further);
    lemma_encode_len_monotonic(zigzag_spec(nearer), zigzag_spec(further));
}

} // verus!
