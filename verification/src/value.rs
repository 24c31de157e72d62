//! The number that a binary64 pattern stands for, decoded field by field.
//!
//! A pattern is split into its sign bit, its 11-bit biased exponent `e` and
//! its 52-bit fraction `f` by division and remainder. A finite pattern stands
//! for `±f · 2^-1074` when `e = 0` (zero and the subnormals) and for
//! `±(2^52 + f) · 2^(e - 1075)` otherwise. Multiplied by `2^1074` every finite
//! value is an integer, [`scaled_value`], so the laws below compare the
//! toolkit's orders and predicates against exact values.

use vstd::prelude::*;
use vstd::arithmetic::div_mod::{lemma_fundamental_div_mod, lemma_fundamental_div_mod_converse};
use vstd::arithmetic::power2::{lemma_pow2_pos, lemma_pow2_strictly_increases, lemma_pow2_unfold, pow2};
use crate::binary64::{is_finite, is_nan, is_negative, magnitude, ordinal, INFINITY_BITS, SIGN_BIT};

verus! {

/// The sign bit, as `0` or `1`.
pub open spec fn sign_field(bits: u64) -> int {
    (bits / 0x8000_0000_0000_0000u64) as int
}

/// The biased exponent: bits 52 to 62.
pub open spec fn exponent_field(bits: u64) -> int {
    ((bits / 0x10_0000_0000_0000u64) % 2048) as int
}

/// The fraction: bits 0 to 51.
pub open spec fn fraction_field(bits: u64) -> int {
    (bits % 0x10_0000_0000_0000u64) as int
}

/// `|x| · 2^1074` for the value with exponent field `e` and fraction `f`.
pub open spec fn scaled_abs(e: int, f: int) -> int {
    if e <= 0 {
        f
    } else {
        (0x10_0000_0000_0000 + f) * pow2((e - 1) as nat)
    }
}

/// `x · 2^1074`: the exact value of a finite pattern, scaled to an integer.
pub open spec fn scaled_value(bits: u64) -> int {
    let a = scaled_abs(exponent_field(bits), fraction_field(bits));
    if sign_field(bits) == 1 {
        -a
    } else {
        a
    }
}

/// The pattern of negative infinity.
pub open spec fn negative_infinity() -> u64 {
    (SIGN_BIT + INFINITY_BITS) as u64
}

/// The fields read off the pattern are those of its magnitude, and the sign
/// field is the sign bit.
proof fn lemma_fields_of_magnitude(bits: u64)
    ensures
        sign_field(bits) == (if is_negative(bits) { 1int } else { 0int }),
        exponent_field(bits) == magnitude(bits) as int / 0x10_0000_0000_0000,
        fraction_field(bits) == magnitude(bits) as int % 0x10_0000_0000_0000,
{
    let u: int = 0x10_0000_0000_0000;
    let m: int = magnitude(bits) as int;
    lemma_fundamental_div_mod(m, u);
    let q = m / u;
    let r = m % u;
    assert(0 <= q < 2048);
    if is_negative(bits) {
        assert(bits as int == (2048 + q) * u + r) by (nonlinear_arith)
            requires
                m == u * q + r,
                bits as int == 0x8000_0000_0000_0000 + m,
                u == 0x10_0000_0000_0000,
        ;
        lemma_fundamental_div_mod_converse(bits as int, u, 2048 + q, r);
        lemma_fundamental_div_mod_converse(2048 + q, 2048, 1, q);
    } else {
        assert((bits / 0x10_0000_0000_0000u64) as int == q);
        lemma_fundamental_div_mod_converse(q, 2048, 0, q);
    }
}

/// Larger magnitudes encode larger absolute values: the encoding of `|x|` is
/// strictly increasing.
proof fn lemma_scaled_abs_increases(m1: int, m2: int)
    requires
        0 <= m1 < m2 < 0x8000_0000_0000_0000,
    ensures
        scaled_abs(m1 / 0x10_0000_0000_0000, m1 % 0x10_0000_0000_0000)
            < scaled_abs(m2 / 0x10_0000_0000_0000, m2 % 0x10_0000_0000_0000),
{
    let u: int = 0x10_0000_0000_0000;
    lemma_fundamental_div_mod(m1, u);
    lemma_fundamental_div_mod(m2, u);
    let e1 = m1 / u;
    let f1 = m1 % u;
    let e2 = m2 / u;
    let f2 = m2 % u;
    assert(e1 <= e2);
    if e1 == e2 {
        assert(f1 < f2);
        if e1 > 0 {
            let p = pow2((e1 - 1) as nat);
            lemma_pow2_pos((e1 - 1) as nat);
            assert((u + f1) * p < (u + f2) * p) by (nonlinear_arith)
                requires
                    f1 < f2,
                    p > 0,
            ;
        }
    } else {
        let p2 = pow2((e2 - 1) as nat);
        lemma_pow2_pos((e2 - 1) as nat);
        if e1 == 0 {
            assert(f1 < (u + f2) * p2) by (nonlinear_arith)
                requires
                    0 <= f1 < u,
                    f2 >= 0,
                    p2 >= 1,
            ;
        } else {
            let p1 = pow2((e1 - 1) as nat);
            lemma_pow2_pos((e1 - 1) as nat);
            lemma_pow2_unfold(e1 as nat);
            if e1 < e2 - 1 {
                lemma_pow2_strictly_increases(e1 as nat, (e2 - 1) as nat);
            }
            assert(2 * p1 <= p2);
            assert((u + f1) * p1 < (u + f2) * p2) by (nonlinear_arith)
                requires
                    0 <= f1 < u,
                    f2 >= 0,
                    p1 > 0,
                    2 * p1 <= p2,
            ;
        }
    }
}

/// The scaled absolute value of a pattern, through its magnitude.
proof fn lemma_scaled_abs_of(bits: u64)
    ensures
        scaled_abs(exponent_field(bits), fraction_field(bits)) == scaled_abs(
            magnitude(bits) as int / 0x10_0000_0000_0000,
            magnitude(bits) as int % 0x10_0000_0000_0000,
        ),
        scaled_value(bits) == (if is_negative(bits) {
            -scaled_abs(exponent_field(bits), fraction_field(bits))
        } else {
            scaled_abs(exponent_field(bits), fraction_field(bits))
        }),
        magnitude(bits) == 0 <==> scaled_abs(exponent_field(bits), fraction_field(bits)) == 0,
        scaled_abs(exponent_field(bits), fraction_field(bits)) >= 0,
{
    lemma_fields_of_magnitude(bits);
    let m = magnitude(bits) as int;
    if m > 0 {
        lemma_scaled_abs_increases(0, m);
    }
}

/// The magnitude orders absolute values, for every pair of patterns.
proof fn lemma_magnitude_orders_abs(a: u64, b: u64)
    ensures
        magnitude(a) < magnitude(b) <==> scaled_abs(exponent_field(a), fraction_field(a))
            < scaled_abs(exponent_field(b), fraction_field(b)),
        magnitude(a) == magnitude(b) <==> scaled_abs(exponent_field(a), fraction_field(a))
            == scaled_abs(exponent_field(b), fraction_field(b)),
{
    lemma_scaled_abs_of(a);
    lemma_scaled_abs_of(b);
    let ma = magnitude(a) as int;
    let mb = magnitude(b) as int;
    if ma < mb {
        lemma_scaled_abs_increases(ma, mb);
    } else if mb < ma {
        lemma_scaled_abs_increases(mb, ma);
    }
}

/// The ordinal orders the patterns as their decoded values, for every pair.
proof fn lemma_ordinal_orders_all(a: u64, b: u64)
    ensures
        ordinal(a) < ordinal(b) <==> scaled_value(a) < scaled_value(b),
        ordinal(a) == ordinal(b) <==> scaled_value(a) == scaled_value(b),
{
    lemma_scaled_abs_of(a);
    lemma_scaled_abs_of(b);
    lemma_magnitude_orders_abs(a, b);
}

/// A pattern is finite exactly when its exponent field is not all ones, and
/// a NaN exactly when the exponent field is all ones and the fraction is not
/// zero.
pub proof fn lemma_finite_iff_exponent_not_all_ones(bits: u64)
    ensures
        is_finite(bits) <==> exponent_field(bits) != 2047,
        is_nan(bits) <==> (exponent_field(bits) == 2047 && fraction_field(bits) != 0),
{
    lemma_fields_of_magnitude(bits);
    let m = magnitude(bits) as int;
    lemma_fundamental_div_mod(m, 0x10_0000_0000_0000);
}

/// The numeric order of finite values is the order of the numbers they stand
/// for: `ordinal(a) < ordinal(b)` exactly when `a < b`, and equal ordinals
/// exactly when `a == b` (so `-0` and `+0` share one).
pub proof fn lemma_ordinal_orders_values(a: u64, b: u64)
    requires
        exponent_field(a) != 2047,
        exponent_field(b) != 2047,
    ensures
        ordinal(a) < ordinal(b) <==> scaled_value(a) < scaled_value(b),
        ordinal(a) == ordinal(b) <==> scaled_value(a) == scaled_value(b),
{
    lemma_ordinal_orders_all(a, b);
}

/// Negative infinity lies below and positive infinity above every finite
/// value in the numeric order.
pub proof fn lemma_infinities_bound_the_order(a: u64)
    requires
        exponent_field(a) != 2047,
    ensures
        ordinal(negative_infinity()) < ordinal(a) < ordinal(INFINITY_BITS),
{
    lemma_finite_iff_exponent_not_all_ones(a);
}

/// The order of magnitudes is the order of absolute values: `|a| < |b|`
/// exactly when `magnitude(a) < magnitude(b)`.
pub proof fn lemma_magnitude_orders_absolute_values(a: u64, b: u64)
    requires
        exponent_field(a) != 2047,
        exponent_field(b) != 2047,
    ensures
        magnitude(a) < magnitude(b) <==> abs_scaled(a) < abs_scaled(b),
        magnitude(a) == magnitude(b) <==> abs_scaled(a) == abs_scaled(b),
{
    lemma_scaled_abs_of(a);
    lemma_scaled_abs_of(b);
    lemma_magnitude_orders_abs(a, b);
}

/// `|x| · 2^1074` for a finite pattern.
pub open spec fn abs_scaled(bits: u64) -> int {
    let v = scaled_value(bits);
    if v < 0 {
        -v
    } else {
        v
    }
}

} // verus!
