//! What holds of the unsigned codec, whatever the number and whatever the
//! bytes.

use crate::codec::{accumulator_modulus, decode_spec, encode_spec, is_terminated};
use vstd::arithmetic::power::pow;
use vstd::prelude::*;

verus! {

/// Decoding the bytes of a number gives the number back.
pub proof fn lemma_decode_encode(value: nat)
    ensures
        decode_spec(encode_spec(value)) == value,
    decreases value,
{
    if value >= 128 {
        let first: u8 = (value % 128 + 128) as u8;
        let rest: Seq<u8> = encode_spec(value / 128);
        lemma_decode_encode(value / 128);
        assert((seq![first] + rest)[0] == first);
        assert((seq![first] + rest).drop_first() == rest);
    }
}

/// Different numbers have different bytes.
pub proof fn lemma_encode_injective(first: nat, second: nat)
    requires
        encode_spec(first) == encode_spec(second),
    ensures
        first == second,
{
    lemma_decode_encode(first);
    lemma_decode_encode(second);
}

/// Decoding the bytes of a `u128` gives it back: nothing of it is cut off.
pub proof fn lemma_round_trip_u128(value: u128)
    ensures
        decode_spec(encode_spec(value as nat)) % accumulator_modulus() == value,
{
    lemma_decode_encode(value as nat);
}

/// The bytes of a number are never empty. The last of them has no
/// continuation bit and each of the others has it, so a number ends exactly
/// where its bytes end.
pub proof fn lemma_encode_shape(value: nat)
    ensures
        encode_spec(value).len() >= 1,
        encode_spec(value).last() < 128,
        forall|i: int| 0 <= i < encode_spec(value).len() - 1 ==> encode_spec(value)[i] >= 128,
        is_terminated(encode_spec(value)),
    decreases value,
{
    let bytes: Seq<u8> = encode_spec(value);
    if value >= 128 {
        let first: u8 = (value % 128 + 128) as u8;
        let rest: Seq<u8> = encode_spec(value / 128);
        lemma_encode_shape(value / 128);
        assert forall|i: int| 0 <= i < bytes.len() - 1 implies bytes[i] >= 128 by {
            if i > 0 {
                assert(bytes[i] == rest[i - 1]);
            }
        }
    }
}

/// Zero and every other number below 128 take one byte, the number itself.
pub proof fn lemma_encode_small(value: nat)
    requires
        value < 128,
    ensures
        encode_spec(value) == seq![value as u8],
{
}

/// A larger number never takes fewer bytes than a smaller one.
pub proof fn lemma_encode_len_monotonic(smaller: nat, larger: nat)
    requires
        smaller <= larger,
    ensures
        encode_spec(smaller).len() <= encode_spec(larger).len(),
    decreases larger,
{
    if smaller >= 128 {
        lemma_encode_len_monotonic(smaller / 128, larger / 128);
    }
}

/// A number takes at most `count` bytes exactly if it is below 128 to the
/// power `count`: one byte more for each power of 128 that it reaches.
pub proof fn lemma_encode_len_bound(value: nat, count: nat)
    requires
        count >= 1,
    ensures
        encode_spec(value).len() <= count <==> value < pow(128, count),
    decreases count,
{
    reveal(pow);
    assert(pow(128, 1) == 128) by {
        assert(pow(128, 0) == 1);
    }
    if count > 1 {
        let below: nat = (count - 1) as nat;
        lemma_encode_len_bound(value / 128, below);
    }
}

/// Numbers of 16, 32, 64 and 128 bits take at most 3, 5, 10 and 19 bytes.
pub proof fn lemma_encode_len_max(value: nat)
    ensures
        value <= u16::MAX ==> encode_spec(value).len() <= 3,
        value <= u32::MAX ==> encode_spec(value).len() <= 5,
        value <= u64::MAX ==> encode_spec(value).len() <= 10,
        value <= u128::MAX ==> encode_spec(value).len() <= 19,
{
    reveal_with_fuel(pow, 20);
    lemma_encode_len_bound(value, 3);
    lemma_encode_len_bound(value, 5);
    lemma_encode_len_bound(value, 10);
    lemma_encode_len_bound(value, 19);
}

/// Bytes stand for a number below 128 to the power of their count.
pub proof fn lemma_decode_bound(bytes: Seq<u8>)
    ensures
        decode_spec(bytes) < pow(128, bytes.len()),
    decreases bytes.len(),
{
    reveal(pow);
    if bytes.len() > 0 {
        lemma_decode_bound(bytes.drop_first());
    }
}

/// Up to eighteen bytes stand for a number that fits into 128 bits, so
/// nothing of it is cut off.
pub proof fn lemma_decode_fits(bytes: Seq<u8>)
    requires
        bytes.len() <= 18,
    ensures
        decode_spec(bytes) % accumulator_modulus() == decode_spec(bytes),
{
    lemma_decode_bound(bytes);
    vstd::arithmetic::power::lemma_pow_increases(128, bytes.len(), 18);
    assert(pow(128, 18) < accumulator_modulus()) by {
        reveal_with_fuel(pow, 19);
    }
}

/// Once a number has ended, the bytes behind it change nothing.
pub proof fn lemma_trailing_bytes_ignored(bytes: Seq<u8>, extra: Seq<u8>)
    requires
        is_terminated(bytes),
    ensures
        decode_spec(bytes + extra) == decode_spec(bytes),
    decreases bytes.len(),
{
    let end: int = choose|i: int| 0 <= i < bytes.len() && #[trigger] bytes[i] < 128;
    if bytes[0] >= 128 {
        assert(bytes.drop_first()[end - 1] == bytes[end]);
        assert((bytes + extra).drop_first() == bytes.drop_first() + extra);
        lemma_trailing_bytes_ignored(bytes.drop_first(), extra);
    }
}

/// Bytes that end before the number does stand for the groups that are
/// there: no bytes for zero, and a lone byte for its low seven bits.
pub proof fn lemma_decode_short(byte: u8)
    ensures
        decode_spec(Seq::<u8>::empty()) == 0,
        decode_spec(seq![byte]) == byte % 128,
{
    assert(decode_spec(seq![byte].drop_first()) == 0);
}

} // verus!
