//! Decisions that the moment statistics take before any arithmetic.

use vstd::prelude::*;
use crate::binary64::{is_finite, is_finite_bits, ordinal, ordinal_of};
use crate::value::{
    exponent_field, lemma_finite_iff_exponent_not_all_ones, lemma_ordinal_orders_values,
    scaled_value,
};

verus! {

/// Every value of `s` equals its first value, which is finite (`-0` equals `+0`).
pub open spec fn is_finite_constant(s: Seq<u64>) -> bool {
    &&& s.len() > 0
    &&& is_finite(s[0])
    &&& forall|k: int| 0 <= k < s.len() ==> ordinal(#[trigger] s[k]) == ordinal(s[0])
}

/// Every value of `s` is finite and stands for the same number as the first.
pub open spec fn all_same_finite_number(s: Seq<u64>) -> bool {
    forall|k: int|
        0 <= k < s.len() ==> exponent_field(#[trigger] s[k]) != 2047 && scaled_value(s[k])
            == scaled_value(s[0])
}

/// A sample is a finite constant exactly when it is nonempty and all of its
/// values are finite numbers equal to its first value.
pub proof fn lemma_finite_constant_is_one_finite_number(s: Seq<u64>)
    ensures
        is_finite_constant(s) <==> (s.len() > 0 && all_same_finite_number(s)),
{
    if s.len() > 0 {
        lemma_finite_iff_exponent_not_all_ones(s[0]);
        assert forall|k: int| 0 <= k < s.len() && is_finite(s[0]) implies (ordinal(#[trigger] s[k])
            == ordinal(s[0]) <==> (exponent_field(s[k]) != 2047 && scaled_value(s[k])
            == scaled_value(s[0]))) by {
            lemma_finite_iff_exponent_not_all_ones(s[k]);
            if exponent_field(s[k]) != 2047 {
                lemma_ordinal_orders_values(s[k], s[0]);
            }
        }
        if all_same_finite_number(s) {
            assert(exponent_field(s[0]) != 2047);
        }
    }
}

/// Returns the first value of a finite constant sample, which is then the
/// sample's mean exactly, or `None` for any other sample.
pub fn finite_constant(xs: &[u64]) -> (constant: Option<u64>)
    ensures
        constant is Some <==> is_finite_constant(xs@),
        constant matches Some(c) ==> c == xs@[0],
        constant is Some <==> (xs@.len() > 0 && all_same_finite_number(xs@)),
{
    proof {
        lemma_finite_constant_is_one_finite_number(xs@);
    }
    if xs.len() == 0 || !is_finite_bits(xs[0]) {
        return None;
    }
    let first = ordinal_of(xs[0]);
    let mut i: usize = 1;
    while i < xs.len()
        invariant
            1 <= i <= xs.len(),
            first as int == ordinal(xs@[0]),
            forall|k: int| 0 <= k < i ==> ordinal(#[trigger] xs@[k]) == ordinal(xs@[0]),
        decreases xs.len() - i,
    {
        if ordinal_of(xs[i]) != first {
            proof {
                assert(ordinal(xs@[i as int]) != ordinal(xs@[0]));
                lemma_finite_constant_is_one_finite_number(xs@);
            }
            return None;
        }
        i = i + 1;
    }
    Some(xs[0])
}

} // verus!
