//! Exact conversion of counts to binary64.

use vstd::prelude::*;
use vstd::arithmetic::power2::{lemma_pow2_adds, lemma_pow2_unfold, pow2};
use crate::binary64::EXPONENT_UNIT;

verus! {

/// The largest count that binary64 represents together with every smaller
/// count: `2^53`.
pub const MAX_CONSECUTIVE_COUNT: u64 = 0x0020_0000_0000_0000;

/// `bits` encodes the count `n` exactly: zero is `+0`, and a positive count is
/// a normal value `(2^52 + f) · 2^(e - 1075)` with biased exponent `e` and
/// fraction `f` that equals `n`.
pub open spec fn encodes_count(bits: u64, n: nat) -> bool {
    if n == 0 {
        bits == 0
    } else {
        let e = bits / EXPONENT_UNIT;
        let f = bits % EXPONENT_UNIT;
        &&& 1 <= e < 2047
        &&& if e <= 1075 {
            EXPONENT_UNIT + f == n * pow2((1075 - e) as nat)
        } else {
            n == (EXPONENT_UNIT + f) * pow2((e - 1075) as nat)
        }
    }
}

/// Returns the binary64 encoding of a count that is exactly representable.
///
/// `n` must not exceed `2^53`, the end of the range in which binary64 holds
/// every integer.
pub fn usize_to_f64(n: usize) -> (bits: u64)
    requires
        n <= MAX_CONSECUTIVE_COUNT,
    ensures
        encodes_count(bits, n as nat),
{
    if n == 0 {
        return 0;
    }
    let n = n as u64;
    if n == MAX_CONSECUTIVE_COUNT {
        proof {
            lemma_pow2_unfold(1);
            assert(pow2(0) == 1) by {
                vstd::arithmetic::power2::lemma2_to64();
            }
            assert(((1076 * EXPONENT_UNIT) as u64) / EXPONENT_UNIT == 1076);
            assert(((1076 * EXPONENT_UNIT) as u64) % EXPONENT_UNIT == 0);
        }
        return 1076 * EXPONENT_UNIT;
    }
    // Find the power of two 2^k with 2^k <= n < 2^(k+1).
    let mut k: u64 = 0;
    let mut p: u64 = 1;
    proof {
        vstd::arithmetic::power2::lemma2_to64();
    }
    while p <= n / 2
        invariant
            0 < n < MAX_CONSECUTIVE_COUNT,
            1 <= p <= n,
            k <= 52,
            p == pow2(k as nat),
        decreases n - p,
    {
        proof {
            lemma_pow2_unfold((k + 1) as nat);
            vstd::arithmetic::power2::lemma2_to64();
            vstd::arithmetic::power2::lemma2_to64_rest();
            if k + 1 > 52 {
                vstd::arithmetic::power2::lemma_pow2_strictly_increases(53, (k + 1) as nat);
            }
        }
        p = p * 2;
        k = k + 1;
    }
    // Scale n by 2^(52-k) so that it lies in [2^52, 2^53).
    let mut s: u64 = 1;
    let mut j: u64 = k;
    proof {
        vstd::arithmetic::power2::lemma2_to64();
    }
    while j < 52
        invariant
            k <= j <= 52,
            s == pow2((j - k) as nat),
            s <= EXPONENT_UNIT,
            k <= 52,
        decreases 52 - j,
    {
        proof {
            lemma_pow2_unfold((j + 1 - k) as nat);
            vstd::arithmetic::power2::lemma2_to64_rest();
            if j + 1 - k < 52 {
                vstd::arithmetic::power2::lemma_pow2_strictly_increases((j + 1 - k) as nat, 52);
            }
        }
        s = s * 2;
        j = j + 1;
    }
    proof {
        lemma_pow2_adds(k as nat, (52 - k) as nat);
        vstd::arithmetic::power2::lemma2_to64();
        vstd::arithmetic::power2::lemma2_to64_rest();
        assert(p * s == EXPONENT_UNIT);
        assert(n * s < 2 * EXPONENT_UNIT) by (nonlinear_arith)
            requires
                n < 2 * p,
                p * s == EXPONENT_UNIT,
                s > 0,
        ;
        assert(n * s >= EXPONENT_UNIT) by (nonlinear_arith)
            requires
                n >= p,
                p * s == EXPONENT_UNIT,
                s > 0,
        ;
    }
    let m = n * s;
    let e = 1023 + k;
    let bits = e * EXPONENT_UNIT + (m - EXPONENT_UNIT);
    proof {
        let f = (m - EXPONENT_UNIT) as int;
        assert(bits as int == e * EXPONENT_UNIT + f);
        assert(bits / EXPONENT_UNIT == e);
        assert(bits % EXPONENT_UNIT == f);
        assert((1075 - e) as nat == (52 - k) as nat);
    }
    bits
}

} // verus!
