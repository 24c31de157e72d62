//! Sorting binary64 patterns by the IEEE 754 total order.
//!
//! Quantiles are read off a sorted copy of the sample. The copy is ordered by
//! `totalOrder` (Rust's `total_cmp`), under which distinct patterns never tie,
//! so the sorted copy depends only on which values the sample holds and how
//! often, never on the order in which they were given.

use vstd::prelude::*;
use vstd::relations::{sorted_by, total_ordering};
use crate::binary64::{is_nan, ordinal, total_key, total_key_of, total_le, lemma_total_key_injective};
use crate::extrema::{is_greatest_value, is_least_value};
use crate::quantile::all_finite;
use crate::extrema::all_finite_numbers;
use crate::value::{
    exponent_field, lemma_finite_iff_exponent_not_all_ones, lemma_ordinal_orders_values, scaled_value,
};

verus! {

broadcast use vstd::seq_lib::group_to_multiset_ensures;

/// The total order as a relation on patterns.
pub open spec fn total_order() -> spec_fn(u64, u64) -> bool {
    |a: u64, b: u64| total_le(a, b)
}

/// `s` is sorted ascending by the IEEE 754 total order.
pub open spec fn is_total_sorted(s: Seq<u64>) -> bool {
    sorted_by(s, total_order())
}

/// The IEEE 754 total order is a total order on bit patterns.
pub proof fn lemma_total_order_is_total()
    ensures
        total_ordering(total_order()),
{
    assert forall|a: u64, b: u64|
        #[trigger] total_order()(a, b) && #[trigger] total_order()(b, a) implies a == b by {
        lemma_total_key_injective(a, b);
    }
}

/// Returns a copy of `xs` sorted ascending by the IEEE 754 total order.
///
/// The result holds the same patterns as `xs`, each as often, and is sorted.
pub fn sorted_by_total_order(xs: &[u64]) -> (sorted: Vec<u64>)
    ensures
        sorted@.to_multiset() == xs@.to_multiset(),
        is_total_sorted(sorted@),
        all_finite_numbers(xs@) ==> forall|i: int, j: int|
            0 <= i <= j < sorted@.len() ==> scaled_value(#[trigger] sorted@[i]) <= scaled_value(
                #[trigger] sorted@[j],
            ),
{
    let n = xs.len();
    let mut v: Vec<u64> = Vec::new();
    let mut k: usize = 0;
    while k < n
        invariant
            k <= n,
            n == xs.len(),
            v@ == xs@.subrange(0, k as int),
        decreases n - k,
    {
        v.push(xs[k]);
        k = k + 1;
        assert(v@ == xs@.subrange(0, k as int));
    }
    assert(v@ == xs@);
    let ghost input = v@;

    let mut i: usize = 0;
    while i < n
        invariant
            i <= n,
            v.len() == n,
            v@.to_multiset() == input.to_multiset(),
            forall|a: int, b: int| 0 <= a < b < i && b < n ==> total_key(v@[a]) <= total_key(v@[b]),
        decreases n - i,
    {
        let mut j: usize = i;
        while j > 0 && total_key_of(v[j - 1]) > total_key_of(v[j])
            invariant
                0 <= j <= i < n,
                v.len() == n,
                v@.to_multiset() == input.to_multiset(),
                forall|a: int, b: int|
                    0 <= a < b <= i && a != j && b != j ==> total_key(v@[a]) <= total_key(v@[b]),
                forall|b: int| j < b <= i ==> total_key(v@[j as int]) <= total_key(v@[b]),
                forall|a: int, b: int|
                    0 <= a < j && j < b <= i ==> total_key(v@[a]) <= total_key(v@[b]),
            decreases j,
        {
            let lower = v[j - 1];
            let upper = v[j];
            let ghost before = v@;
            v.set(j - 1, upper);
            v.set(j, lower);
            proof {
                assert(v@ == before.update(j - 1, upper).update(j as int, lower));
                assert(before.update(j - 1, upper).to_multiset()
                    == before.to_multiset().insert(upper).remove(lower));
            }
            j = j - 1;
        }
        i = i + 1;
    }
    proof {
        lemma_total_order_is_total();
        if all_finite_numbers(xs@) {
            assert forall|k: int| 0 <= k < v@.len() implies exponent_field(
                #[trigger] v@[k],
            ) != 2047 by {
                assert(v@.to_multiset().count(v@[k]) > 0);
                assert(xs@.contains(v@[k]));
            }
            lemma_total_sorted_ascends_in_value(v@);
        }
    }
    v
}

/// Sorting ignores the order of the input: two samples that hold the same
/// values, each as often, have the same sorted copy.
pub proof fn lemma_sorted_copy_ignores_input_order(
    xs: Seq<u64>,
    ys: Seq<u64>,
    sorted_xs: Seq<u64>,
    sorted_ys: Seq<u64>,
)
    requires
        xs.to_multiset() == ys.to_multiset(),
        sorted_xs.to_multiset() == xs.to_multiset(),
        sorted_ys.to_multiset() == ys.to_multiset(),
        is_total_sorted(sorted_xs),
        is_total_sorted(sorted_ys),
    ensures
        sorted_xs == sorted_ys,
{
    lemma_total_order_is_total();
    vstd::seq_lib::lemma_sorted_unique(sorted_xs, sorted_ys, total_order());
}

/// A sequence of finite values that is sorted by the total order ascends in
/// value: no value is greater than a later one.
pub proof fn lemma_total_sorted_ascends_in_value(s: Seq<u64>)
    requires
        is_total_sorted(s),
        all_finite_numbers(s),
    ensures
        forall|i: int, j: int|
            0 <= i <= j < s.len() ==> scaled_value(#[trigger] s[i]) <= scaled_value(#[trigger] s[j]),
{
    assert forall|i: int, j: int| 0 <= i <= j < s.len() implies scaled_value(#[trigger] s[i])
        <= scaled_value(#[trigger] s[j]) by {
        if i < j {
            assert(total_order()(s[i], s[j]));
            lemma_finite_iff_exponent_not_all_ones(s[i]);
            lemma_finite_iff_exponent_not_all_ones(s[j]);
            lemma_total_order_refines_numeric_order(s[i], s[j]);
            lemma_ordinal_orders_values(s[j], s[i]);
        }
    }
}

/// Among non-NaN values the total order agrees with the numeric order.
pub proof fn lemma_total_order_refines_numeric_order(a: u64, b: u64)
    requires
        !is_nan(a),
        !is_nan(b),
        total_key(a) <= total_key(b),
    ensures
        ordinal(a) <= ordinal(b),
{
}

/// The ends of the sorted copy of a nonempty finite sample are its bounds: the
/// first value is a least value and the last a greatest value of the sample,
/// which is why the 0-quantile is the minimum and the 1-quantile the maximum.
pub proof fn lemma_sorted_copy_ends_are_sample_bounds(xs: Seq<u64>, sorted: Seq<u64>)
    requires
        xs.len() > 0,
        all_finite(xs),
        sorted.to_multiset() == xs.to_multiset(),
        is_total_sorted(sorted),
    ensures
        is_least_value(xs, sorted[0]),
        is_greatest_value(xs, sorted[sorted.len() - 1]),
{
    broadcast use vstd::seq_lib::group_seq_properties;
    vstd::seq_lib::to_multiset_len(sorted);
    vstd::seq_lib::to_multiset_len(xs);
    assert(sorted.len() == xs.len());
    let last = sorted.len() - 1;
    assert(sorted.to_multiset().count(sorted[0]) > 0);
    assert(xs.contains(sorted[0]));
    assert(sorted.to_multiset().count(sorted[last]) > 0);
    assert(xs.contains(sorted[last]));
    let i0 = choose|i: int| 0 <= i < xs.len() && xs[i] == sorted[0];
    let i1 = choose|i: int| 0 <= i < xs.len() && xs[i] == sorted[last];
    assert(!is_nan(xs[i0]));
    assert(!is_nan(xs[i1]));
    assert forall|k: int| 0 <= k < xs.len() && !is_nan(#[trigger] xs[k]) implies ordinal(sorted[0])
        <= ordinal(xs[k]) && ordinal(xs[k]) <= ordinal(sorted[last]) by {
        assert(xs.to_multiset().count(xs[k]) > 0);
        assert(sorted.contains(xs[k]));
        let j = choose|j: int| 0 <= j < sorted.len() && sorted[j] == xs[k];
        if j > 0 {
            assert(total_order()(sorted[0], sorted[j]));
        }
        if j < last {
            assert(total_order()(sorted[j], sorted[last]));
        }
    }
}

} // verus!
