//! Ordering of `f32` values carried as their IEEE-754 bit patterns.
//!
//! Vocabulary scores are only ever compared with `>`; this module gives that
//! comparison on the raw bits, so that no floating-point value enters the
//! verified code.

use vstd::prelude::*;

verus! {

/// Bits of `f32::NEG_INFINITY`.
pub const NEG_INFINITY_BITS: u32 = 0xff80_0000;

/// Bits of `-1e10_f32`.
pub const MINUS_1E10_BITS: u32 = 0xd015_02f9;

/// The bits without the sign bit.
pub open spec fn magnitude(bits: u32) -> int {
    (bits % 0x8000_0000) as int
}

/// Whether the sign bit is set.
pub open spec fn sign_set(bits: u32) -> bool {
    bits >= 0x8000_0000
}

/// A NaN has every exponent bit set and a non-zero mantissa.
pub open spec fn is_nan(bits: u32) -> bool {
    magnitude(bits) > 0x7f80_0000
}

/// A key whose integer order is the order of the (non-NaN) floats:
/// both zeros map to 0.
pub open spec fn order_key(bits: u32) -> int {
    if sign_set(bits) {
        -magnitude(bits)
    } else {
        magnitude(bits)
    }
}

/// `a > b` for the floats with bit patterns `a` and `b`.
pub open spec fn spec_f32_gt(a: u32, b: u32) -> bool {
    !is_nan(a) && !is_nan(b) && order_key(a) > order_key(b)
}

/// `f32::from_bits(a) > f32::from_bits(b)`.
pub fn f32_gt(a: u32, b: u32) -> (r: bool)
    ensures
        r == spec_f32_gt(a, b),
{
    let ma = a % 0x8000_0000;
    let mb = b % 0x8000_0000;
    if ma > 0x7f80_0000 || mb > 0x7f80_0000 {
        return false;
    }
    let a_neg = a >= 0x8000_0000;
    let b_neg = b >= 0x8000_0000;
    if !a_neg && !b_neg {
        ma > mb
    } else if a_neg && b_neg {
        ma < mb
    } else if !a_neg {
        // a >= +0, b <= -0: greater unless both are zeros
        ma > 0 || mb > 0
    } else {
        false
    }
}

/// `>` on float bit patterns is a strict order on the non-NaN values:
/// irreflexive and transitive.
pub proof fn f32_gt_is_strict_order(a: u32, b: u32, c: u32)
    ensures
        !spec_f32_gt(a, a),
        spec_f32_gt(a, b) && spec_f32_gt(b, c) ==> spec_f32_gt(a, c),
        spec_f32_gt(a, b) ==> !spec_f32_gt(b, a),
{
}

} // verus!
