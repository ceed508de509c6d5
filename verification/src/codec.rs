//! The unsigned codec: seven-bit groups, least significant first, each byte
//! but the last of a number marked with a continuation bit.

use crate::codec_laws::{lemma_decode_fits, lemma_encode_len_max};
use vstd::prelude::*;

verus! {

/// The bytes that stand for `value`: its base-128 digits, least significant
/// first, each but the last with the continuation bit set.
pub open spec fn encode_spec(value: nat) -> Seq<u8>
    decreases value,
{
    if value < 128 {
        seq![value as u8]
    } else {
        seq![(value % 128 + 128) as u8] + encode_spec(value / 128)
    }
}

/// The number that `bytes` stands for, however large. Reading stops after the
/// first byte without a continuation bit, or where the bytes end.
pub open spec fn decode_spec(bytes: Seq<u8>) -> nat
    decreases bytes.len(),
{
    if bytes.len() == 0 {
        0
    } else if bytes[0] < 128 {
        bytes[0] as nat
    } else {
        (bytes[0] - 128) as nat + 128 * decode_spec(bytes.drop_first())
    }
}

/// Two to the power 128: one more than the largest value of the accumulator
/// that `decode` collects the groups in.
pub open spec fn accumulator_modulus() -> nat {
    0x1_0000_0000_0000_0000_0000_0000_0000_0000nat
}

/// Whether some byte of `bytes` has no continuation bit, so that a number
/// ends within `bytes`.
pub open spec fn is_terminated(bytes: Seq<u8>) -> bool {
    exists|i: int| 0 <= i < bytes.len() && #[trigger] bytes[i] < 128
}

/// Encodes `value` as a variable-length byte sequence.
pub fn encode(value: u128) -> (out: Vec<u8>)
    ensures
        out@ == encode_spec(value as nat),
        1 <= out@.len() <= 19,
        value < 128 ==> out@ == seq![value as u8],
{
    proof {
        lemma_encode_len_max(value as nat);
    }
    let mut rest: u128 = value;
    let mut output: Vec<u8> = Vec::with_capacity(8);
    while rest > 127
        invariant
            encode_spec(value as nat) == output@ + encode_spec(rest as nat),
        decreases rest,
    {
        let byte: u8 = (#[verifier::truncate] (rest as u8) & 127) | 0x80;
        assert(byte == rest % 128 + 128 && rest >> 7 == rest / 128) by (bit_vector)
            requires
                byte == ((rest as u8) & 127) | 0x80,
        ;
        assert(output@.push(byte) + encode_spec((rest / 128) as nat) == output@ + encode_spec(
            rest as nat,
        ));
        output.push(byte);
        rest >>= 7;
    }
    let last: u8 = #[verifier::truncate] (rest as u8) & 127;
    assert(last == rest) by (bit_vector)
        requires
            rest <= 127,
            last == (rest as u8) & 127,
    ;
    assert(output@.push(last) == output@ + encode_spec(rest as nat));
    output.push(last);
    output
}

/// Decodes the number at the start of `data`.
///
/// Bytes after the first one without a continuation bit are not read. Where
/// every byte has the bit set, the groups that are there make up the result.
/// Groups that reach beyond the 128 bits of the accumulator are cut off.
pub fn decode(data: &[u8]) -> (value: u128)
    ensures
        value == decode_spec(data@) % accumulator_modulus(),
        data@.len() <= 18 ==> value == decode_spec(data@),
{
    proof {
        if data@.len() <= 18 {
            lemma_decode_fits(data@);
        }
    }
    let mut output: u128 = 0;
    let mut i: usize = 0;
    let mut shift: u32 = 0;
    assert(1u128 << 0u32 == 1) by (bit_vector);
    assert(data@.skip(0) == data@);
    while i < data.len() && shift < 128
        invariant_except_break
            i <= data.len(),
            shift == 7 * i,
            shift < 128 ==> output < (1u128 << shift),
            shift < 128 ==> decode_spec(data@) == output + (1u128 << shift) * decode_spec(
                data@.skip(i as int),
            ),
            shift >= 128 || i == data.len() ==> output == decode_spec(data@)
                % accumulator_modulus(),
        ensures
            output == decode_spec(data@) % accumulator_modulus(),
        decreases data.len() - i,
    {
        let byte: u8 = data[i];
        let group: u128 = (byte & 0x7f) as u128;
        let ghost before: u128 = output;
        output |= group << shift;
        proof {
            let tail: Seq<u8> = data@.skip(i as int);
            let weight: int = (1u128 << shift) as int;
            let more: nat = if byte < 128 {
                0
            } else {
                decode_spec(data@.skip(i + 1))
            };
            // What is still to be read stands for this group, and for 128
            // times what follows it where the byte says that more follows.
            assert(tail[0] == byte);
            assert(tail.drop_first() == data@.skip(i + 1));
            assert(group == byte % 128 && (byte & 0x80 != 0x80) == (byte < 128)) by (bit_vector)
                requires
                    group == (byte & 0x7f) as u128,
            ;
            assert(weight * decode_spec(tail) == weight * group + (128 * weight) * more)
                by (nonlinear_arith)
                requires
                    decode_spec(tail) == group + 128 * more,
            ;
            lemma_group_into_accumulator(before, group, shift);
            if shift == 126 {
                // The last group that reaches into the accumulator: its top
                // five bits, and all that follows, are cut off.
                let modulus: int = accumulator_modulus() as int;
                assert(weight * group + (128 * weight) * more == weight * (group % 4) + modulus
                    * (group / 4 + 32 * more)) by (nonlinear_arith)
                    requires
                        modulus == 4 * weight,
                ;
                lemma_multiples_vanish(
                    decode_spec(data@),
                    output as nat,
                    (group / 4 + 32 * more) as nat,
                );
            } else if byte < 128 || i + 1 == data.len() {
                // The number ends here, or the bytes do.
                lemma_multiples_vanish(decode_spec(data@), output as nat, 0);
            }
        }
        if byte & 0x80 != 0x80 {
            break ;
        }
        i += 1;
        shift += 7;
    }
    output
}

/// A number that is `low` plus a multiple of two to the power 128, with `low`
/// below that power, leaves `low` when it is cut to 128 bits.
proof fn lemma_multiples_vanish(value: nat, low: nat, multiple: nat)
    requires
        value == low + accumulator_modulus() * multiple,
        low < accumulator_modulus(),
    ensures
        value % accumulator_modulus() == low,
{
    let modulus: int = accumulator_modulus() as int;
    assert(value == multiple * modulus + low) by (nonlinear_arith)
        requires
            value == low + modulus * multiple,
    ;
    vstd::arithmetic::div_mod::lemma_fundamental_div_mod_converse(
        value as int,
        modulus,
        multiple as int,
        low as int,
    );
}

/// What one step of `decode` does to the accumulator. Below bit 126 the new
/// group lands above everything collected so far and fits whole; at bit 126
/// only its two low bits fit.
proof fn lemma_group_into_accumulator(before: u128, group: u128, shift: u32)
    requires
        shift <= 119 || shift == 126,
        before < (1u128 << shift),
        group < 128,
    ensures
        shift <= 119 ==> (before | (group << shift)) == before + (1u128 << shift) * group,
        shift <= 119 ==> (before | (group << shift)) < (1u128 << ((shift + 7) as u32)),
        shift <= 119 ==> (1u128 << ((shift + 7) as u32)) == 128 * (1u128 << shift),
        shift == 126 ==> (1u128 << shift) == 0x4000_0000_0000_0000_0000_0000_0000_0000,
        shift == 126 ==> (before | (group << shift)) == before + (group % 4)
            * 0x4000_0000_0000_0000_0000_0000_0000_0000,
{
    if shift <= 119 {
        assert((before | (group << shift)) == before + (1u128 << shift) * group && (before | (group
            << shift)) < (1u128 << ((shift + 7) as u32)) && (1u128 << ((shift + 7) as u32)) == 128
            * (1u128 << shift)) by (bit_vector)
            requires
                shift <= 119,
                before < (1u128 << shift),
                group < 128,
        ;
    } else {
        assert((1u128 << shift) == 0x4000_0000_0000_0000_0000_0000_0000_0000 && (before | (group
            << shift)) == before + (group % 4) * 0x4000_0000_0000_0000_0000_0000_0000_0000)
            by (bit_vector)
            requires
                shift == 126,
                before < (1u128 << shift),
                group < 128,
        ;
    }
}

} // verus!
