//! Narrowing the 128-bit accumulator to a supported width: what the cast
//! keeps, as arithmetic on the number that the bytes stand for.

use crate::codec::accumulator_modulus;
use crate::zigzag::{as_signed, unzigzag_spec};
use vstd::arithmetic::div_mod::lemma_mod_multiples_vanish;
use vstd::prelude::*;

verus! {

/// The value from zero up to, but not including, `modulus` that differs from
/// `value` by a multiple of `modulus`: what an unsigned integer of that size
/// keeps of `value`.
pub open spec fn wrap_unsigned(value: int, modulus: int) -> int {
    value % modulus
}

/// The value from minus half of `modulus` up to, but not including, half of
/// `modulus` that differs from `value` by a multiple of `modulus`: what a
/// signed integer of that size keeps of `value`.
pub open spec fn wrap_signed(value: int, modulus: int) -> int {
    let low: int = value % modulus;
    if 2 * low < modulus {
        low
    } else {
        low - modulus
    }
}

/// Whether `modulus` is two to the power 16, 32 or 64: the size of a
/// supported type.
pub open spec fn is_supported_modulus(modulus: int) -> bool {
    modulus == 0x1_0000 || modulus == 0x1_0000_0000 || modulus == 0x1_0000_0000_0000_0000
}

/// Two to the power 127: half of what the accumulator counts to.
spec fn accumulator_half() -> int {
    0x8000_0000_0000_0000_0000_0000_0000_0000int
}

/// Two to the power 127, and so two to the power 128, is a multiple of each
/// supported modulus.
proof fn lemma_modulus_divides(modulus: int)
    requires
        is_supported_modulus(modulus),
    ensures
        accumulator_half() == modulus * (accumulator_half() / modulus),
        accumulator_modulus() == modulus * (accumulator_modulus() as int / modulus),
{
}

/// Cutting a number to 128 bits first does not change what a supported
/// unsigned width keeps of it.
pub proof fn lemma_narrow_unsigned(value: nat, modulus: int)
    requires
        is_supported_modulus(modulus),
    ensures
        wrap_unsigned((value % accumulator_modulus()) as int, modulus) == wrap_unsigned(
            value as int,
            modulus,
        ),
{
    // What is cut off is a multiple of two to the power 128, and that power
    // is a multiple of the modulus.
    let whole: int = accumulator_modulus() as int;
    let low: int = value as int % whole;
    let times: int = (whole / modulus) * (value as int / whole);
    lemma_modulus_divides(modulus);
    assert(value == modulus * times + low) by (nonlinear_arith)
        requires
            value == whole * (value as int / whole) + low,
            whole == modulus * (whole / modulus),
            times == (whole / modulus) * (value as int / whole),
    ;
    lemma_mod_multiples_vanish(times, low, modulus);
}

/// Cutting a number to 128 bits first, and taking those bits for a signed
/// number, does not change what a supported signed width keeps of the number
/// that the zigzag transform maps back to.
pub proof fn lemma_narrow_unzigzag(value: nat, modulus: int)
    requires
        is_supported_modulus(modulus),
    ensures
        wrap_signed(
            unzigzag_spec(as_signed((value % accumulator_modulus()) as u128)),
            modulus,
        ) == wrap_signed(unzigzag_spec(value as int), modulus),
{
    let bits: int = as_signed((value % accumulator_modulus()) as u128);
    // The number and the signed reading of its low 128 bits differ by a
    // multiple of two to the power 128, so what they are mapped back to
    // differs by a multiple of two to the power 127, up or down.
    let turns: int = (value - bits) / (accumulator_modulus() as int);
    assert(value == bits + accumulator_modulus() * turns);
    let half: int = accumulator_half();
    let steps: int = if value % 2 == 0 {
        turns
    } else {
        -turns
    };
    assert(unzigzag_spec(value as int) == unzigzag_spec(bits) + half * steps);
    // That power is a multiple of the modulus.
    let times: int = (half / modulus) * steps;
    lemma_modulus_divides(modulus);
    assert(half * steps == modulus * times) by (nonlinear_arith)
        requires
            half == modulus * (half / modulus),
            times == (half / modulus) * steps,
    ;
    lemma_mod_multiples_vanish(times, unzigzag_spec(bits), modulus);
}

} // verus!
