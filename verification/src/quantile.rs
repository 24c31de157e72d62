//! Input checks for Type 7 quantiles.
//!
//! A quantile is defined for a nonempty sample of finite values and a finite
//! probability in the closed interval `[0, 1]`. The sample is then copied and
//! sorted by [`crate::ordering::sorted_by_total_order`].

use vstd::prelude::*;
use crate::binary64::{
    is_finite, is_finite_bits, ordinal, ordinal_of, EXPONENT_UNIT, ONE_BITS, SIGN_BIT,
};
use crate::extrema::all_finite_numbers;
use crate::value::{
    exponent_field, lemma_finite_iff_exponent_not_all_ones, lemma_ordinal_orders_values,
    scaled_value,
};

verus! {

/// Every value of `s` is finite.
pub open spec fn all_finite(s: Seq<u64>) -> bool {
    forall|k: int| 0 <= k < s.len() ==> is_finite(#[trigger] s[k])
}

/// A sample is finite exactly when no value has an all-ones exponent field.
pub proof fn lemma_all_finite_is_no_exponent_all_ones(s: Seq<u64>)
    ensures
        all_finite(s) <==> all_finite_numbers(s),
{
    assert forall|k: int| 0 <= k < s.len() implies (is_finite(#[trigger] s[k]) <==> exponent_field(
        s[k],
    ) != 2047) by {
        lemma_finite_iff_exponent_not_all_ones(s[k]);
    }
}

/// `p` encodes a finite probability in `[0, 1]`; `-0` counts as `0`.
pub open spec fn is_probability(p: u64) -> bool {
    is_finite(p) && 0 <= ordinal(p) <= ordinal(ONE_BITS)
}

/// Returns whether a sample is nonempty and holds only finite values.
pub fn is_valid_sample(xs: &[u64]) -> (valid: bool)
    ensures
        valid == (xs@.len() > 0 && all_finite(xs@)),
        valid == (xs@.len() > 0 && all_finite_numbers(xs@)),
{
    proof {
        lemma_all_finite_is_no_exponent_all_ones(xs@);
    }
    if xs.len() == 0 {
        return false;
    }
    let mut i: usize = 0;
    while i < xs.len()
        invariant
            i <= xs.len(),
            forall|k: int| 0 <= k < i ==> is_finite(#[trigger] xs@[k]),
        decreases xs.len() - i,
    {
        if !is_finite_bits(xs[i]) {
            return false;
        }
        i = i + 1;
    }
    true
}

/// Returns whether `p` is a finite probability in the closed interval `[0, 1]`.
pub fn is_valid_probability(p: u64) -> (valid: bool)
    ensures
        valid == is_probability(p),
        valid == (p <= ONE_BITS || p == SIGN_BIT),
{
    proof {
        lemma_probabilities_are_the_unit_interval(p);
    }
    let position = ordinal_of(p);
    is_finite_bits(p) && 0 <= position && position <= ordinal_of(ONE_BITS)
}

/// The index of the sorted observation that a Type 7 quantile returns
/// without interpolation: the only observation of a singleton, the minimum for
/// `p = 0` (either sign) and the maximum for `p = 1`.
pub open spec fn type7_endpoint_index(n: nat, p: u64) -> Option<nat> {
    if n == 1 || ordinal(p) == 0 {
        Some(0)
    } else if p == ONE_BITS {
        Some((n - 1) as nat)
    } else {
        None
    }
}

/// Returns the index of the sorted observation that a Type 7 quantile of `n`
/// observations at probability `p` returns without interpolation, or `None`
/// when the quantile lies strictly inside the sample and is interpolated.
pub fn type7_endpoint(n: usize, p: u64) -> (index: Option<usize>)
    requires
        n > 0,
        is_probability(p),
    ensures
        index matches Some(i) ==> i < n,
        index is Some <==> type7_endpoint_index(n as nat, p) is Some,
        index matches Some(i) ==> type7_endpoint_index(n as nat, p) == Some(i as nat),
        index matches Some(i) ==> (n - 1) * scaled_value(p) == i * scaled_value(ONE_BITS),
        index is None ==> n >= 2 && 0 < scaled_value(p) < scaled_value(ONE_BITS),
{
    proof {
        lemma_probabilities_are_the_unit_interval(p);
        lemma_type7_endpoint_is_exact_position(n as nat, p);
    }
    if n == 1 || ordinal_of(p) == 0 {
        Some(0)
    } else if p == ONE_BITS {
        Some(n - 1)
    } else {
        None
    }
}

/// The probabilities are exactly the finite numbers of the closed interval
/// `[0, 1]`: as patterns, every pattern from `+0` up to that of `1.0`, and `-0`.
pub proof fn lemma_probabilities_are_the_unit_interval(p: u64)
    ensures
        is_probability(p) <==> (exponent_field(p) != 2047 && 0 <= scaled_value(p) <= scaled_value(
            ONE_BITS,
        )),
        is_probability(p) <==> (p <= ONE_BITS || p == SIGN_BIT),
{
    lemma_finite_iff_exponent_not_all_ones(p);
    lemma_finite_iff_exponent_not_all_ones(ONE_BITS);
    lemma_finite_iff_exponent_not_all_ones(0);
    if exponent_field(p) != 2047 {
        lemma_ordinal_orders_values(p, ONE_BITS);
        lemma_ordinal_orders_values(0, p);
    }
}

/// A Type 7 quantile of `n` observations at probability `p` sits at the
/// position `h = (n - 1) · p` of the sorted sample. An endpoint index is an
/// observation exactly at that position; when there is none, the sample has at
/// least two observations and `p` lies strictly between `0` and `1`.
pub proof fn lemma_type7_endpoint_is_exact_position(n: nat, p: u64)
    requires
        n > 0,
        exponent_field(p) != 2047,
        0 <= scaled_value(p) <= scaled_value(ONE_BITS),
    ensures
        type7_endpoint_index(n, p) matches Some(i) ==> i < n && (n - 1) * scaled_value(p) == i
            * scaled_value(ONE_BITS),
        type7_endpoint_index(n, p) is None ==> n >= 2 && 0 < scaled_value(p) < scaled_value(
            ONE_BITS,
        ),
{
    lemma_probabilities_are_the_unit_interval(p);
    lemma_finite_iff_exponent_not_all_ones(ONE_BITS);
    lemma_finite_iff_exponent_not_all_ones(0);
    lemma_ordinal_orders_values(p, 0);
    lemma_ordinal_orders_values(p, ONE_BITS);
    let s = scaled_value(p);
    let one = scaled_value(ONE_BITS);
    if n == 1 || ordinal(p) == 0 {
        assert((n - 1) * s == 0 * one) by (nonlinear_arith)
            requires
                n == 1 || s == 0,
        ;
    } else if p == ONE_BITS {
        assert((n - 1) * s == (n - 1) * one);
    }
}

/// The smallest positive normal value, `2^-1022`, has the same pattern as the
/// weight of the lowest exponent bit.
pub open spec fn min_positive_ordinal() -> int {
    EXPONENT_UNIT as int
}

/// Whether interpolating between `a <= b` needs the weighted form
/// `a·(1 - t) + t·b` rather than `a + t·(b - a)`: exactly when the endpoints
/// straddle zero, so that `b - a` adds magnitudes and may overflow, and do not
/// both lie within `±MIN_POSITIVE`, where `b - a` is exact.
pub open spec fn needs_weighted_form(a: u64, b: u64) -> bool {
    &&& ordinal(a) <= 0 && ordinal(b) >= 0
    &&& (ordinal(a) < -min_positive_ordinal() || ordinal(b) > min_positive_ordinal())
}

/// Returns whether interpolation between the sorted finite endpoints `a` and
/// `b` uses the weighted form (see [`needs_weighted_form`]).
pub fn interpolates_by_weights(a: u64, b: u64) -> (weighted: bool)
    requires
        is_finite(a),
        is_finite(b),
    ensures
        weighted == needs_weighted_form(a, b),
{
    let lower = ordinal_of(a);
    let upper = ordinal_of(b);
    let tiny = EXPONENT_UNIT as i64;
    lower <= 0 && upper >= 0 && (lower < -tiny || upper > tiny)
}

} // verus!
