//! Power-of-two scaling units for centred deviations.
//!
//! Moment statistics divide each observation by a power-of-two unit before
//! centring, which keeps the centring arithmetic in a small range without
//! adding rounding. This module chooses that unit and decides whether a
//! sample can be centred at all.

use vstd::prelude::*;
use crate::binary64::{
    abs_bits, is_finite, is_finite_bits, is_negative, magnitude, ordinal, ordinal_of, EXPONENT_UNIT,
    ONE_BITS,
};
use crate::extrema::{has_number, is_greatest_magnitude, max_abs};
use crate::quantile::{all_finite, lemma_all_finite_is_no_exponent_all_ones};
use crate::extrema::all_finite_numbers;

verus! {

/// `u` is a power of two.
pub open spec fn is_power_of_two(u: nat) -> bool
    decreases u,
{
    if u <= 1 {
        u == 1
    } else {
        u % 2 == 0 && is_power_of_two(u / 2)
    }
}

/// The unit that [`power_of_two_unit`] chooses for a finite, nonnegative value.
///
/// - zero (either sign) has the unit `1.0`;
/// - a normal value `2^e · (1 + f)` has the unit `2^e`: the same exponent
///   field with the fraction cleared;
/// - a subnormal value `k · 2^-1074` has the unit `2^j · 2^-1074` for the
///   largest power of two `2^j <= k`, which is encoded by the pattern `2^j`.
///
/// In each case the unit is the largest power of two no greater than the value,
/// or one for zero.
pub open spec fn is_unit_of(bits: u64, unit: u64) -> bool {
    let m = magnitude(bits);
    if m == 0 {
        unit == ONE_BITS
    } else if m >= EXPONENT_UNIT {
        unit == m - m % EXPONENT_UNIT
    } else {
        is_power_of_two(unit as nat) && unit <= m < 2 * unit
    }
}

proof fn lemma_double_power_of_two(u: nat)
    requires
        is_power_of_two(u),
    ensures
        is_power_of_two(2 * u),
    decreases u,
{
    assert((2 * u) / 2 == u);
}

/// Returns the largest power of two no greater than a positive `x`, or one
/// when `x` is zero.
///
/// For positive `x`, dividing by the returned unit gives a value in `[1, 2)`,
/// and the unit is represented exactly, also when `x` is subnormal. `x` must
/// be finite and nonnegative (`-0` counts as zero).
pub fn power_of_two_unit(bits: u64) -> (unit: u64)
    requires
        is_finite(bits),
        !is_negative(bits) || magnitude(bits) == 0,
    ensures
        is_unit_of(bits, unit),
        is_finite(unit),
        !is_negative(unit),
        unit > 0,
{
    let m = abs_bits(bits);
    if m == 0 {
        return ONE_BITS;
    }
    if m >= EXPONENT_UNIT {
        // Normal value: keep the exponent field, clear the fraction.
        return m - m % EXPONENT_UNIT;
    }
    // Subnormal value: every fraction bit stands for a power of two directly.
    let mut unit: u64 = 1;
    while unit <= m / 2
        invariant
            0 < m < EXPONENT_UNIT,
            1 <= unit <= m,
            is_power_of_two(unit as nat),
        decreases m - unit,
    {
        proof {
            lemma_double_power_of_two(unit as nat);
        }
        unit = unit * 2;
    }
    unit
}

/// Returns the scaling unit of a sample and whether it is constant, or `None`
/// when the sample is empty or holds a non-finite value.
///
/// The unit is the [`power_of_two_unit`] of the largest magnitude in the
/// sample, so an all-zero sample has the unit one. The sample is constant when
/// every value equals the first (`-0` equals `+0`).
pub fn centering_unit(xs: &[u64]) -> (plan: Option<(u64, bool)>)
    ensures
        plan is None <==> (xs@.len() == 0 || !all_finite(xs@)),
        plan is None <==> (xs@.len() == 0 || !all_finite_numbers(xs@)),
        plan matches Some((unit, constant)) ==> {
            &&& exists|m: u64| is_greatest_magnitude(xs@, m) && is_unit_of(m, unit)
            &&& unit > 0 && is_finite(unit) && !is_negative(unit)
            &&& constant == forall|k: int|
                0 <= k < xs@.len() ==> ordinal(#[trigger] xs@[k]) == ordinal(xs@[0])
        },
{
    proof {
        lemma_all_finite_is_no_exponent_all_ones(xs@);
    }
    if xs.len() == 0 {
        return None;
    }
    let first = ordinal_of(xs[0]);
    let mut constant = true;
    let mut i: usize = 0;
    while i < xs.len()
        invariant
            0 < xs.len(),
            i <= xs.len(),
            first as int == ordinal(xs@[0]),
            all_finite(xs@) <==> all_finite_numbers(xs@),
            forall|k: int| 0 <= k < i ==> is_finite(#[trigger] xs@[k]),
            constant == forall|k: int| 0 <= k < i ==> ordinal(#[trigger] xs@[k]) == ordinal(xs@[0]),
        decreases xs.len() - i,
    {
        if !is_finite_bits(xs[i]) {
            return None;
        }
        let same = ordinal_of(xs[i]) == first;
        proof {
            if constant && !same {
                assert(!(ordinal(xs@[i as int]) == ordinal(xs@[0])));
            }
        }
        constant = constant && same;
        i = i + 1;
    }
    proof {
        assert(has_number(xs@)) by {
            assert(is_finite(xs@[0]));
        }
    }
    let largest = max_abs(xs);
    let unit = power_of_two_unit(largest);
    Some((unit, constant))
}

} // verus!
