//! Variable-length encoding of fixed-width integers.
//!
//! An unsigned integer is written as a sequence of bytes, seven bits at a
//! time, least significant group first. The high bit of each byte says
//! whether another byte follows. Signed integers are first mapped onto the
//! unsigned ones by the zigzag transform, so that values close to zero, of
//! either sign, take few bytes.
//!
//! [`VarIntEncode`] and [`VarIntDecode`] are implemented for `u16`, `u32`,
//! `u64`, `i16`, `i32` and `i64`; [`encode`] and [`decode`] work on `u128`.
//! So `300u32.to_varint()` is `[172, 2]` and `(-300i32).to_varint()` is
//! `[215, 4]`, and `from_varint` reads both back.
//!
//! Nothing here fails. A decoder does not refuse bytes that end before the
//! number does, nor a number that is too large for the type: it returns what
//! the groups that are there make up, cut to the width of the type. A caller
//! that needs more has to frame the bytes and check the range itself.
//!
//! Every function states what it returns over [`codec::encode_spec`] and
//! [`codec::decode_spec`], which say in arithmetic what the bytes of a number
//! are and what number bytes stand for.

pub mod codec;
pub mod codec_laws;
pub mod narrow;
pub mod traits;
pub mod zigzag;

pub use codec::{decode, encode};
pub use traits::{VarIntDecode, VarIntEncode};
