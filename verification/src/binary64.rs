//! The IEEE 754 binary64 encoding, read as plain integers.
//!
//! A value is carried by its 64-bit pattern: one sign bit, an 11-bit biased
//! exponent and a 52-bit fraction. This module names the parts of that
//! encoding and the two orders that the toolkit compares values by:
//!
//! - the numeric order of non-NaN values, in which `-0` and `+0` are equal;
//! - the total order of `totalOrder` (IEEE 754 §5.10), which orders every
//!   bit pattern, NaNs included, and tells `-0` from `+0`.

use vstd::prelude::*;
use crate::value::{exponent_field, fraction_field, lemma_finite_iff_exponent_not_all_ones};

verus! {

/// The sign bit.
pub const SIGN_BIT: u64 = 0x8000_0000_0000_0000;

/// The bit pattern of positive infinity: every exponent bit set, no fraction.
pub const INFINITY_BITS: u64 = 0x7ff0_0000_0000_0000;

/// The bit pattern of `1.0`.
pub const ONE_BITS: u64 = 0x3ff0_0000_0000_0000;

/// The weight of the lowest exponent bit: `2^52`.
pub const EXPONENT_UNIT: u64 = 0x0010_0000_0000_0000;

/// Whether the sign bit is set.
pub open spec fn is_negative(bits: u64) -> bool {
    bits >= SIGN_BIT
}

/// The pattern with its sign bit cleared: the encoding of `|x|`.
pub open spec fn magnitude(bits: u64) -> u64 {
    if is_negative(bits) {
        (bits - SIGN_BIT) as u64
    } else {
        bits
    }
}

/// Whether the pattern encodes a NaN: all exponent bits set and a nonzero fraction.
pub open spec fn is_nan(bits: u64) -> bool {
    magnitude(bits) > INFINITY_BITS
}

/// Whether the pattern encodes a finite value (neither infinite nor NaN).
pub open spec fn is_finite(bits: u64) -> bool {
    magnitude(bits) < INFINITY_BITS
}

/// Position of a non-NaN value in the numeric order.
///
/// For non-NaN patterns, binary64 comparison `a < b` holds exactly when
/// `ordinal(a) < ordinal(b)`; `-0` and `+0` share the ordinal `0`.
pub open spec fn ordinal(bits: u64) -> int {
    if is_negative(bits) {
        -(magnitude(bits) as int)
    } else {
        magnitude(bits) as int
    }
}

/// Position of a pattern in the IEEE 754 total order (`totalOrder`), which is
/// the order of Rust's `total_cmp` on binary64 values.
pub open spec fn total_key(bits: u64) -> int {
    if is_negative(bits) {
        -(magnitude(bits) as int) - 1
    } else {
        magnitude(bits) as int
    }
}

/// `a` comes no later than `b` in the total order.
pub open spec fn total_le(a: u64, b: u64) -> bool {
    total_key(a) <= total_key(b)
}

/// Returns the encoding of `|x|`: the pattern with its sign bit cleared.
pub fn abs_bits(bits: u64) -> (m: u64)
    ensures
        m == magnitude(bits),
{
    if bits >= SIGN_BIT {
        bits - SIGN_BIT
    } else {
        bits
    }
}

/// Returns whether the pattern encodes a NaN.
pub fn is_nan_bits(bits: u64) -> (r: bool)
    ensures
        r == is_nan(bits),
        r == (exponent_field(bits) == 2047 && fraction_field(bits) != 0),
{
    proof {
        lemma_finite_iff_exponent_not_all_ones(bits);
    }
    abs_bits(bits) > INFINITY_BITS
}

/// Returns whether the pattern encodes a finite value.
pub fn is_finite_bits(bits: u64) -> (r: bool)
    ensures
        r == is_finite(bits),
        r == (exponent_field(bits) != 2047),
{
    proof {
        lemma_finite_iff_exponent_not_all_ones(bits);
    }
    abs_bits(bits) < INFINITY_BITS
}

/// Returns the position of a pattern in the numeric order (see [`ordinal`]).
pub fn ordinal_of(bits: u64) -> (r: i64)
    ensures
        r as int == ordinal(bits),
{
    let m = abs_bits(bits);
    if bits >= SIGN_BIT {
        -(m as i64)
    } else {
        m as i64
    }
}

/// Returns the position of a pattern in the total order (see [`total_key`]).
pub fn total_key_of(bits: u64) -> (r: i64)
    ensures
        r as int == total_key(bits),
{
    let m = abs_bits(bits);
    if bits >= SIGN_BIT {
        -(m as i64) - 1
    } else {
        m as i64
    }
}

/// Distinct patterns have distinct places in the total order.
pub proof fn lemma_total_key_injective(a: u64, b: u64)
    ensures
        total_key(a) == total_key(b) ==> a == b,
{
}

} // verus!
