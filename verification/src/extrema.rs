//! Extremum operations over samples of binary64 values.
//!
//! Values are given by their bit patterns. NaN values are ignored when a
//! non-NaN value is present. Index-returning operations choose the first
//! occurrence when values tie.

use vstd::prelude::*;
use crate::binary64::{abs_bits, is_nan, is_nan_bits, magnitude, ordinal, ordinal_of};
use crate::value::{
    abs_scaled, exponent_field, lemma_finite_iff_exponent_not_all_ones,
    lemma_magnitude_orders_absolute_values, lemma_ordinal_orders_values, scaled_value,
};

verus! {

/// Whether some value of `s` is not NaN.
pub open spec fn has_number(s: Seq<u64>) -> bool {
    exists|k: int| 0 <= k < s.len() && !is_nan(#[trigger] s[k])
}

/// The numeric position of `|x|`.
pub open spec fn abs_ordinal(bits: u64) -> int {
    magnitude(bits) as int
}

/// `i` is the first index of a greatest non-NaN value of `s` under `key`.
pub open spec fn is_first_greatest(s: Seq<u64>, i: int, key: spec_fn(u64) -> int) -> bool {
    &&& 0 <= i < s.len()
    &&& !is_nan(s[i])
    &&& forall|k: int| 0 <= k < s.len() && !is_nan(#[trigger] s[k]) ==> key(s[k]) <= key(s[i])
    &&& forall|k: int| 0 <= k < i && !is_nan(#[trigger] s[k]) ==> key(s[k]) < key(s[i])
}

/// `i` is the first index of a least non-NaN value of `s` under `key`.
pub open spec fn is_first_least(s: Seq<u64>, i: int, key: spec_fn(u64) -> int) -> bool {
    &&& 0 <= i < s.len()
    &&& !is_nan(s[i])
    &&& forall|k: int| 0 <= k < s.len() && !is_nan(#[trigger] s[k]) ==> key(s[i]) <= key(s[k])
    &&& forall|k: int| 0 <= k < i && !is_nan(#[trigger] s[k]) ==> key(s[i]) < key(s[k])
}

/// Every value of `s` is finite.
pub open spec fn all_finite_numbers(s: Seq<u64>) -> bool {
    forall|k: int| 0 <= k < s.len() ==> exponent_field(#[trigger] s[k]) != 2047
}

/// The key that an index search compares by: the numeric position, or that of
/// the absolute value.
pub open spec fn search_key(by_abs: bool) -> spec_fn(u64) -> int {
    if by_abs {
        |b: u64| abs_ordinal(b)
    } else {
        |b: u64| ordinal(b)
    }
}

/// The number that an index search compares: the value, or its absolute value
/// (both scaled by `2^1074`).
pub open spec fn searched_number(by_abs: bool) -> spec_fn(u64) -> int {
    if by_abs {
        |b: u64| abs_scaled(b)
    } else {
        |b: u64| scaled_value(b)
    }
}

/// The order of [`abs_ordinal`] is the order of absolute values of finite
/// numbers: `|a| < |b|` exactly when `abs_ordinal(a) < abs_ordinal(b)`.
pub proof fn lemma_abs_ordinal_orders_absolute_values(a: u64, b: u64)
    requires
        exponent_field(a) != 2047,
        exponent_field(b) != 2047,
    ensures
        abs_ordinal(a) < abs_ordinal(b) <==> abs_scaled(a) < abs_scaled(b),
        abs_ordinal(a) == abs_ordinal(b) <==> abs_scaled(a) == abs_scaled(b),
{
    lemma_magnitude_orders_absolute_values(a, b);
}

/// On two finite values, a search key and the number it stands for agree.
proof fn lemma_key_agrees_with_number(by_abs: bool, a: u64, b: u64)
    requires
        exponent_field(a) != 2047,
        exponent_field(b) != 2047,
    ensures
        !is_nan(a),
        (search_key(by_abs))(a) < (search_key(by_abs))(b) <==> (searched_number(by_abs))(a) < (
        searched_number(by_abs))(b),
        (search_key(by_abs))(a) <= (search_key(by_abs))(b) <==> (searched_number(by_abs))(a) <= (
        searched_number(by_abs))(b),
{
    lemma_finite_iff_exponent_not_all_ones(a);
    if by_abs {
        lemma_abs_ordinal_orders_absolute_values(a, b);
    } else {
        lemma_ordinal_orders_values(a, b);
    }
}

/// In a sample of finite values, the first extremum by a search key is the
/// first extremum of the numbers themselves.
proof fn lemma_first_extremum_of_numbers(s: Seq<u64>, i: int, by_abs: bool, greatest: bool)
    requires
        all_finite_numbers(s),
        s.len() > 0,
        is_first_extremum(s, i, search_key(by_abs), greatest),
    ensures
        greatest ==> is_first_greatest(s, i, searched_number(by_abs)),
        !greatest ==> is_first_least(s, i, searched_number(by_abs)),
{
    lemma_finite_iff_exponent_not_all_ones(s[0]);
    assert(has_number(s)) by {
        assert(!is_nan(s[0]));
    }
    assert forall|k: int| 0 <= k < s.len() implies {
        &&& !is_nan(s[k])
        &&& (search_key(by_abs))(s[k]) < (search_key(by_abs))(s[i]) <==> (searched_number(by_abs))(
            s[k],
        ) < (searched_number(by_abs))(s[i])
        &&& (search_key(by_abs))(s[k]) <= (search_key(by_abs))(s[i]) <==> (searched_number(by_abs))(
            s[k],
        ) <= (searched_number(by_abs))(s[i])
        &&& (search_key(by_abs))(s[i]) < (search_key(by_abs))(s[k]) <==> (searched_number(by_abs))(
            s[i],
        ) < (searched_number(by_abs))(s[k])
        &&& (search_key(by_abs))(s[i]) <= (search_key(by_abs))(s[k]) <==> (searched_number(by_abs))(
            s[i],
        ) <= (searched_number(by_abs))(s[k])
    } by {
        lemma_key_agrees_with_number(by_abs, s[k], s[i]);
        lemma_key_agrees_with_number(by_abs, s[i], s[k]);
    }
}

/// The outcome of an index search: the first extremum when a number is
/// present, otherwise the first index.
pub open spec fn is_first_extremum(
    s: Seq<u64>,
    i: int,
    key: spec_fn(u64) -> int,
    greatest: bool,
) -> bool {
    if has_number(s) {
        if greatest {
            is_first_greatest(s, i, key)
        } else {
            is_first_least(s, i, key)
        }
    } else {
        i == 0
    }
}

/// The index search shared by the four index operations. `by_abs` compares
/// magnitudes; `greatest` looks for a maximum rather than a minimum.
fn first_extremum(xs: &[u64], by_abs: bool, greatest: bool) -> (index: usize)
    requires
        xs.len() > 0,
    ensures
        index < xs.len(),
        is_first_extremum(
            xs@,
            index as int,
            if by_abs { |b: u64| abs_ordinal(b) } else { |b: u64| ordinal(b) },
            greatest,
        ),
        all_finite_numbers(xs@) ==> if greatest {
            is_first_greatest(xs@, index as int, searched_number(by_abs))
        } else {
            is_first_least(xs@, index as int, searched_number(by_abs))
        },
{
    let ghost key: spec_fn(u64) -> int = if by_abs {
        |b: u64| abs_ordinal(b)
    } else {
        |b: u64| ordinal(b)
    };
    let n = xs.len();
    let mut index: usize = 0;
    let mut best: u64 = if by_abs { abs_bits(xs[0]) } else { xs[0] };
    let mut best_key: i64 = ordinal_of(best);
    let mut i: usize = 1;
    proof {
        assert(xs@.subrange(0, 1)[0] == xs@[0]);
    }
    while i < n
        invariant
            n == xs.len(),
            1 <= i <= n,
            index < i,
            best == (if by_abs { magnitude(xs@[index as int]) } else { xs@[index as int] }),
            best_key as int == ordinal(best),
            key == (if by_abs { |b: u64| abs_ordinal(b) } else { |b: u64| ordinal(b) }),
            is_first_extremum(xs@.subrange(0, i as int), index as int, key, greatest),
        decreases n - i,
    {
        let x = xs[i];
        let candidate = if by_abs { abs_bits(x) } else { x };
        let candidate_key = ordinal_of(candidate);
        let best_is_nan = is_nan_bits(best);
        let candidate_is_nan = is_nan_bits(candidate);
        let beats = if greatest {
            candidate_key > best_key
        } else {
            candidate_key < best_key
        };
        let ghost prefix = xs@.subrange(0, i as int);
        let ghost next = xs@.subrange(0, i + 1);
        proof {
            assert(next == prefix.push(x));
            assert(key(x) == ordinal(candidate));
            assert(is_nan(candidate) == is_nan(x));
            assert(key(xs@[index as int]) == ordinal(best));
            assert(is_nan(best) == is_nan(xs@[index as int]));
            assert(forall|k: int| 0 <= k < i ==> #[trigger] next[k] == prefix[k]);
            if has_number(prefix) {
                assert(has_number(next)) by {
                    let w = choose|k: int| 0 <= k < prefix.len() && !is_nan(#[trigger] prefix[k]);
                    assert(!is_nan(next[w]));
                }
            }
            if !has_number(prefix) {
                assert(forall|k: int| 0 <= k < i ==> is_nan(#[trigger] prefix[k]));
            }
        }
        if (best_is_nan && !candidate_is_nan) || (!best_is_nan && !candidate_is_nan && beats) {
            index = i;
            best = candidate;
            best_key = candidate_key;
        }
        i = i + 1;
        proof {
            if !has_number(next) {
                assert(is_nan(next[i - 1]));
            }
        }
    }
    proof {
        assert(xs@.subrange(0, n as int) == xs@);
        if all_finite_numbers(xs@) {
            lemma_first_extremum_of_numbers(xs@, index as int, by_abs, greatest);
        }
    }
    index
}

/// Returns the index of the maximum value.
///
/// NaN values are ignored when a numeric value is present. If all values are
/// NaN, returns the first index. Ties are resolved in favor of the first
/// occurrence. `xs` must not be empty.
pub fn argmax(xs: &[u64]) -> (index: usize)
    requires
        xs.len() > 0,
    ensures
        index < xs.len(),
        has_number(xs@) ==> is_first_greatest(xs@, index as int, |b: u64| ordinal(b)),
        !has_number(xs@) ==> index == 0,
        all_finite_numbers(xs@) ==> is_first_greatest(xs@, index as int, |b: u64| scaled_value(b)),
{
    first_extremum(xs, false, true)
}

/// Returns the index of the minimum value.
///
/// NaN values are ignored when a numeric value is present. If all values are
/// NaN, returns the first index. Ties are resolved in favor of the first
/// occurrence. `xs` must not be empty.
pub fn argmin(xs: &[u64]) -> (index: usize)
    requires
        xs.len() > 0,
    ensures
        index < xs.len(),
        has_number(xs@) ==> is_first_least(xs@, index as int, |b: u64| ordinal(b)),
        !has_number(xs@) ==> index == 0,
        all_finite_numbers(xs@) ==> is_first_least(xs@, index as int, |b: u64| scaled_value(b)),
{
    first_extremum(xs, false, false)
}

/// Returns the index of the maximum absolute value.
///
/// NaN values are ignored when a numeric value is present. If all values are
/// NaN, returns the first index. Ties are resolved in favor of the first
/// occurrence. `xs` must not be empty.
pub fn argmax_abs(xs: &[u64]) -> (index: usize)
    requires
        xs.len() > 0,
    ensures
        index < xs.len(),
        has_number(xs@) ==> is_first_greatest(xs@, index as int, |b: u64| abs_ordinal(b)),
        !has_number(xs@) ==> index == 0,
        all_finite_numbers(xs@) ==> is_first_greatest(xs@, index as int, |b: u64| abs_scaled(b)),
{
    first_extremum(xs, true, true)
}

/// Returns the index of the minimum absolute value.
///
/// NaN values are ignored when a numeric value is present. If all values are
/// NaN, returns the first index. Ties are resolved in favor of the first
/// occurrence. `xs` must not be empty.
pub fn argmin_abs(xs: &[u64]) -> (index: usize)
    requires
        xs.len() > 0,
    ensures
        index < xs.len(),
        has_number(xs@) ==> is_first_least(xs@, index as int, |b: u64| abs_ordinal(b)),
        !has_number(xs@) ==> index == 0,
        all_finite_numbers(xs@) ==> is_first_least(xs@, index as int, |b: u64| abs_scaled(b)),
{
    first_extremum(xs, true, false)
}

/// `m` is a greatest magnitude of the non-NaN values of `s`, taken from `s`.
pub open spec fn is_greatest_magnitude(s: Seq<u64>, m: u64) -> bool {
    &&& !is_nan(m)
    &&& exists|i: int| 0 <= i < s.len() && m == magnitude(#[trigger] s[i])
    &&& forall|k: int| 0 <= k < s.len() && !is_nan(#[trigger] s[k]) ==> magnitude(s[k]) <= m
}

/// `m` is a least magnitude of the non-NaN values of `s`, taken from `s`.
pub open spec fn is_least_magnitude(s: Seq<u64>, m: u64) -> bool {
    &&& !is_nan(m)
    &&& exists|i: int| 0 <= i < s.len() && m == magnitude(#[trigger] s[i])
    &&& forall|k: int| 0 <= k < s.len() && !is_nan(#[trigger] s[k]) ==> m <= magnitude(s[k])
}

/// `v` is a value of `s` that no non-NaN value of `s` exceeds.
pub open spec fn is_greatest_value(s: Seq<u64>, v: u64) -> bool {
    &&& !is_nan(v)
    &&& exists|i: int| 0 <= i < s.len() && v == #[trigger] s[i]
    &&& forall|k: int| 0 <= k < s.len() && !is_nan(#[trigger] s[k]) ==> ordinal(s[k]) <= ordinal(v)
}

/// `v` is a value of `s` that no non-NaN value of `s` undercuts.
pub open spec fn is_least_value(s: Seq<u64>, v: u64) -> bool {
    &&& !is_nan(v)
    &&& exists|i: int| 0 <= i < s.len() && v == #[trigger] s[i]
    &&& forall|k: int| 0 <= k < s.len() && !is_nan(#[trigger] s[k]) ==> ordinal(v) <= ordinal(s[k])
}

/// Returns the maximum absolute value, as the pattern of `|x|`.
///
/// NaN values are ignored when a numeric value is present, while an all-NaN
/// sample returns a NaN. `xs` must not be empty.
pub fn max_abs(xs: &[u64]) -> (m: u64)
    requires
        xs.len() > 0,
    ensures
        has_number(xs@) ==> is_greatest_magnitude(xs@, m),
        !has_number(xs@) ==> is_nan(m),
        all_finite_numbers(xs@) ==> forall|k: int|
            0 <= k < xs@.len() ==> #[trigger] abs_scaled(xs@[k]) <= abs_scaled(m),
{
    let i = argmax_abs(xs);
    let m = abs_bits(xs[i]);
    proof {
        if has_number(xs@) {
            assert(m == magnitude(xs@[i as int]));
        }
        if all_finite_numbers(xs@) {
            lemma_finite_iff_exponent_not_all_ones(xs@[i as int]);
            lemma_finite_iff_exponent_not_all_ones(m);
            lemma_magnitude_orders_absolute_values(m, xs@[i as int]);
        }
    }
    m
}

/// Returns the minimum absolute value, as the pattern of `|x|`.
///
/// NaN values are ignored when a numeric value is present, while an all-NaN
/// sample returns a NaN. `xs` must not be empty.
pub fn min_abs(xs: &[u64]) -> (m: u64)
    requires
        xs.len() > 0,
    ensures
        has_number(xs@) ==> is_least_magnitude(xs@, m),
        !has_number(xs@) ==> is_nan(m),
        all_finite_numbers(xs@) ==> forall|k: int|
            0 <= k < xs@.len() ==> #[trigger] abs_scaled(m) <= abs_scaled(xs@[k]),
{
    let i = argmin_abs(xs);
    let m = abs_bits(xs[i]);
    proof {
        if has_number(xs@) {
            assert(m == magnitude(xs@[i as int]));
        }
        if all_finite_numbers(xs@) {
            lemma_finite_iff_exponent_not_all_ones(xs@[i as int]);
            lemma_finite_iff_exponent_not_all_ones(m);
            lemma_magnitude_orders_absolute_values(m, xs@[i as int]);
        }
    }
    m
}

/// Returns the minimum and maximum values.
///
/// NaN values are ignored when a numeric value is present, while an all-NaN
/// sample returns `(NaN, NaN)`. Of equal values the first is returned, so
/// `-0` and `+0` are told apart only by position. `xs` must not be empty.
pub fn min_max(xs: &[u64]) -> (bounds: (u64, u64))
    requires
        xs.len() > 0,
    ensures
        has_number(xs@) ==> is_least_value(xs@, bounds.0) && is_greatest_value(xs@, bounds.1),
        !has_number(xs@) ==> is_nan(bounds.0) && is_nan(bounds.1),
        all_finite_numbers(xs@) ==> forall|k: int|
            0 <= k < xs@.len() ==> scaled_value(bounds.0) <= scaled_value(#[trigger] xs@[k])
                <= scaled_value(bounds.1),
{
    let lo = argmin(xs);
    let hi = argmax(xs);
    let lower = xs[lo];
    let upper = xs[hi];
    (lower, upper)
}

} // verus!
