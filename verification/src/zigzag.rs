//! The zigzag transform: signed numbers onto unsigned ones, so that numbers
//! close to zero, of either sign, become small.

use crate::codec::accumulator_modulus;
use vstd::prelude::*;

verus! {

/// Where the transform puts `value`: 0, -1, 1, -2, 2, ... go to
/// 0, 1, 2, 3, 4, ...
pub open spec fn zigzag_spec(value: int) -> nat {
    if value >= 0 {
        (2 * value) as nat
    } else {
        (-2 * value - 1) as nat
    }
}

/// The number that the transform puts at `folded`: half of an even number,
/// and of an odd one minus its half, rounded down, minus one. Nothing is put
/// at a place below zero; for such a `folded` this is what the same shift and
/// exclusive or make of it in a signed accumulator.
pub open spec fn unzigzag_spec(folded: int) -> int {
    if folded % 2 == 0 {
        folded / 2
    } else {
        -(folded / 2) - 1
    }
}

/// The signed number that has the 128 bits of `bits`.
pub open spec fn as_signed(bits: u128) -> int {
    if bits <= i128::MAX {
        bits as int
    } else {
        bits - accumulator_modulus()
    }
}

/// Maps a signed number to the unsigned number that is encoded for it.
pub fn zigzag(value: i64) -> (folded: u128)
    ensures
        folded == zigzag_spec(value as int),
{
    let wide: i128 = value as i128;
    let mixed: i128 = (wide << 1) ^ (wide >> 127);
    assert(mixed == if value >= 0 {
        2 * value
    } else {
        -2 * value - 1
    }) by (bit_vector)
        requires
            wide == value as i128,
            mixed == (wide << 1) ^ (wide >> 127),
    ;
    mixed as u128
}

/// Maps an unsigned number back to the signed number that it was encoded
/// for. The 128 bits are taken for a signed number first, so a `folded` with
/// the top bit set counts as one below zero.
pub fn unzigzag(folded: u128) -> (value: i128)
    ensures
        value == unzigzag_spec(as_signed(folded)),
        folded <= i128::MAX ==> value == unzigzag_spec(folded as int),
{
    let wide: i128 = #[verifier::truncate] (folded as i128);
    let odd: i128 = wide & 1;
    assert(wide == if folded <= 0x7fff_ffff_ffff_ffff_ffff_ffff_ffff_ffff {
        folded as int
    } else {
        folded - 0x1_0000_0000_0000_0000_0000_0000_0000_0000
    }) by (bit_vector)
        requires
            wide == folded as i128,
    ;
    assert(odd == wide % 2 && (wide >> 1) == wide / 2) by (bit_vector)
        requires
            odd == wide & 1,
    ;
    let half: i128 = wide >> 1;
    let mask: i128 = -odd;
    let value: i128 = half ^ mask;
    assert(value == if odd == 0 {
        half as int
    } else {
        -half - 1
    }) by (bit_vector)
        requires
            odd == 0 || odd == 1,
            mask == -odd,
            value == half ^ mask,
    ;
    value
}

/// The transform loses nothing: mapping back gives the number.
pub proof fn lemma_unzigzag_zigzag(value: int)
    ensures
        unzigzag_spec(zigzag_spec(value) as int) == value,
{
}

/// Every unsigned number is the image of a signed one: the one that mapping
/// back gives.
pub proof fn lemma_zigzag_unzigzag(folded: nat)
    ensures
        zigzag_spec(unzigzag_spec(folded as int)) == folded,
{
}

/// A number further from zero is put at a larger place, whatever the signs
/// of the two.
pub proof fn lemma_zigzag_by_magnitude(nearer: int, further: int)
    requires
        vstd::math::abs(nearer) < vstd::math::abs(further),
    ensures
        zigzag_spec(nearer) < zigzag_spec(further),
{
}

} // verus!
