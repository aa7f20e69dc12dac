//! The xorshift64* generator that the samplers draw their coins from.

use vstd::prelude::*;

verus! {

/// The multiplier of the xorshift64* output.
pub const XORSHIFT_MULTIPLIER: u64 = 0x2545_F491_4F6C_DD1D;

/// One xorshift step of the state: shifts by 12 right, 25 left, 27 right.
pub open spec fn xorshift(x: u64) -> u64 {
    let a = x ^ (x >> 12u64);
    let b = a ^ (a << 25u64);
    b ^ (b >> 27u64)
}

/// The scrambled output of a state: the state times the multiplier,
/// wrapped to 64 bits.
pub open spec fn scramble(x: u64) -> u64 {
    ((x as nat * XORSHIFT_MULTIPLIER as nat) % 0x1_0000_0000_0000_0000) as u64
}

/// Advances `state` by one step and returns the high 32 bits of the
/// scrambled new state.
pub fn random_u32(state: &mut u64) -> (r: u32)
    ensures
        *final(state) == xorshift(*old(state)),
        r == scramble(xorshift(*old(state))) / 0x1_0000_0000,
{
    let x = *state;
    let a = x ^ (x >> 12);
    let b = a ^ (a << 25);
    let c = b ^ (b >> 27);
    *state = c;
    let m = c.wrapping_mul(XORSHIFT_MULTIPLIER);
    assert(m >> 32u64 == m / 0x1_0000_0000) by (bit_vector);
    (m >> 32) as u32
}

/// A coin of 24 random bits: the top 24 bits of `random_u32`. Divided by
/// 2^24 it is a float in `[0, 1)`.
pub fn random_bits24(state: &mut u64) -> (r: u32)
    ensures
        *final(state) == xorshift(*old(state)),
        r == (scramble(xorshift(*old(state))) / 0x1_0000_0000) / 256,
        r < 0x100_0000,
{
    let v = random_u32(state);
    assert(v >> 8u32 == v / 256 && v / 256 < 0x100_0000) by (bit_vector);
    v >> 8
}

} // verus!
