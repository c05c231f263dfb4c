//! Integer k-th roots, the arithmetic core of the fixed-point color
//! conversions: the sRGB transfer function's fractional powers `x^(12/5)`
//! and `x^(5/12)` are computed from exact integer roots of scaled values.

use vstd::prelude::*;
use vstd::arithmetic::power::pow;

verus! {

/// The integer `k`-th root of `n`: the unique `r >= 0` with
/// `r^k <= n < (r+1)^k`.
pub open spec fn iroot_spec(n: int, k: nat) -> int {
    choose|r: int| 0 <= r && #[trigger] pow(r, k) <= n < pow(r + 1, k)
}

/// Raising to a power is monotonic in the base.
pub proof fn lemma_pow_base_le(a: int, b: int, k: nat)
    requires
        0 <= a <= b,
    ensures
        pow(a, k) <= pow(b, k),
    decreases k,
{
    reveal(pow);
    if k > 0 {
        lemma_pow_base_le(a, b, (k - 1) as nat);
        if a == 0 {
            vstd::arithmetic::power::lemma0_pow(k);
            if b > 0 {
                vstd::arithmetic::power::lemma_pow_positive(b, k);
            } else {
                vstd::arithmetic::power::lemma0_pow(k);
            }
        } else {
            vstd::arithmetic::power::lemma_pow_positive(a, (k - 1) as nat);
            assert(a * pow(a, (k - 1) as nat) <= b * pow(b, (k - 1) as nat)) by (nonlinear_arith)
                requires
                    0 <= a <= b,
                    0 <= pow(a, (k - 1) as nat) <= pow(b, (k - 1) as nat),
            ;
        }
    }
}

/// Raising to a positive power is strictly monotonic in the base.
pub proof fn lemma_pow_base_lt(a: int, b: int, k: nat)
    requires
        0 <= a < b,
        k >= 1,
    ensures
        pow(a, k) < pow(b, k),
{
    reveal(pow);
    lemma_pow_base_le(a, b, (k - 1) as nat);
    vstd::arithmetic::power::lemma_pow_positive(b, (k - 1) as nat);
    if a == 0 {
        vstd::arithmetic::power::lemma0_pow(k);
        vstd::arithmetic::power::lemma_pow_positive(b, k);
    } else {
        vstd::arithmetic::power::lemma_pow_positive(a, (k - 1) as nat);
        assert(a * pow(a, (k - 1) as nat) < b * pow(b, (k - 1) as nat)) by (nonlinear_arith)
            requires
                0 < a < b,
                0 < pow(a, (k - 1) as nat) <= pow(b, (k - 1) as nat),
        ;
    }
}

/// A number between consecutive `k`-th powers is pinned to that root.
pub proof fn lemma_iroot_unique(n: int, k: nat, r: int)
    requires
        k >= 1,
        0 <= r,
        pow(r, k) <= n < pow(r + 1, k),
    ensures
        iroot_spec(n, k) == r,
{
    assert(0 <= r && pow(r, k) <= n < pow(r + 1, k));
    let r2 = iroot_spec(n, k);
    assert(0 <= r2 && pow(r2, k) <= n < pow(r2 + 1, k));
    if r2 < r {
        lemma_pow_base_le(r2 + 1, r, k);
    }
    if r < r2 {
        lemma_pow_base_le(r + 1, r2, k);
    }
}

/// Every nonnegative integer has an integer `k`-th root, so the chosen
/// root satisfies its characterization.
pub proof fn lemma_iroot_exists(n: int, k: nat)
    requires
        n >= 0,
        k >= 1,
    ensures
        0 <= iroot_spec(n, k),
        pow(iroot_spec(n, k), k) <= n < pow(iroot_spec(n, k) + 1, k),
    decreases n,
{
    if n == 0 {
        vstd::arithmetic::power::lemma0_pow(k);
        vstd::arithmetic::power::lemma1_pow(k);
        lemma_iroot_unique(n, k, 0);
    } else {
        lemma_iroot_exists(n - 1, k);
        let r0 = iroot_spec(n - 1, k);
        if pow(r0 + 1, k) == n {
            lemma_pow_base_lt(r0 + 1, r0 + 2, k);
            lemma_iroot_unique(n, k, r0 + 1);
        } else {
            lemma_iroot_unique(n, k, r0);
        }
    }
}

/// The integer root is monotonic in its argument.
pub proof fn lemma_iroot_monotone(n1: int, n2: int, k: nat)
    requires
        0 <= n1 <= n2,
        k >= 1,
    ensures
        iroot_spec(n1, k) <= iroot_spec(n2, k),
{
    lemma_iroot_exists(n1, k);
    lemma_iroot_exists(n2, k);
    let r1 = iroot_spec(n1, k);
    let r2 = iroot_spec(n2, k);
    if r1 > r2 {
        lemma_pow_base_le(r2 + 1, r1, k);
    }
}

/// For `k >= 1` and `b >= 0`, `b^k >= b`.
proof fn lemma_pow_ge_base(b: int, k: nat)
    requires
        k >= 1,
        b >= 0,
    ensures
        pow(b, k) >= b,
{
    reveal(pow);
    if b == 0 {
        vstd::arithmetic::power::lemma0_pow(k);
    } else {
        vstd::arithmetic::power::lemma_pow_positive(b, (k - 1) as nat);
        assert(pow(b, k) == b * pow(b, (k - 1) as nat));
        assert(b * pow(b, (k - 1) as nat) >= b * 1) by (nonlinear_arith)
            requires
                b >= 1,
                pow(b, (k - 1) as nat) >= 1,
        ;
    }
}

/// Whether `b^k <= n`, decided without ever overflowing: as soon as the
/// running power leaves the 128-bit range it is already above `n`.
fn pow_le(b: u128, k: u32, n: u128) -> (r: bool)
    requires
        k >= 1,
    ensures
        r <==> pow(b as int, k as nat) <= n,
{
    proof {
        vstd::arithmetic::power::lemma_pow0(b as int);
    }
    let mut acc: u128 = 1;
    let mut i: u32 = 0;
    while i < k
        invariant
            0 <= i <= k,
            k >= 1,
            acc == pow(b as int, i as nat),
        decreases k - i,
    {
        proof {
            reveal(pow);
        }
        acc = match acc.checked_mul(b) {
            Some(a) => a,
            None => {
                proof {
                    reveal(pow);
                    // Overflow: b >= 1, so b^k >= b^(i+1) == acc * b > u128::MAX >= n.
                    vstd::arithmetic::mul::lemma_mul_by_zero_is_zero(acc as int);
                    assert(b >= 1);
                    assert(pow(b as int, (i + 1) as nat) == b * pow(b as int, i as nat));
                    vstd::arithmetic::power::lemma_pow_adds(
                        b as int,
                        (i + 1) as nat,
                        (k - i - 1) as nat,
                    );
                    vstd::arithmetic::power::lemma_pow_positive(b as int, (k - i - 1) as nat);
                    assert(pow(b as int, (i + 1) as nat) * pow(b as int, (k - i - 1) as nat)
                        >= pow(b as int, (i + 1) as nat) * 1) by (nonlinear_arith)
                        requires
                            pow(b as int, (i + 1) as nat) >= 0,
                            pow(b as int, (k - i - 1) as nat) >= 1,
                    ;
                }
                return false;
            },
        };
        i = i + 1;
    }
    acc <= n
}

/// The integer `k`-th root of `n`, by binary search.
pub fn iroot(n: u128, k: u32) -> (r: u128)
    requires
        1 <= k <= 12,
        n < u128::MAX,
    ensures
        r == iroot_spec(n as int, k as nat),
        pow(r as int, k as nat) <= n < pow(r as int + 1, k as nat),
{
    let mut lo: u128 = 0;
    let mut hi: u128 = n + 1;
    proof {
        vstd::arithmetic::power::lemma0_pow(k as nat);
        lemma_pow_ge_base(n as int + 1, k as nat);
    }
    while hi - lo > 1
        invariant
            0 <= lo < hi,
            1 <= k <= 12,
            pow(lo as int, k as nat) <= n,
            pow(hi as int, k as nat) > n,
        decreases hi - lo,
    {
        let mid = lo + (hi - lo) / 2;
        if pow_le(mid, k, n) {
            lo = mid;
        } else {
            hi = mid;
        }
    }
    proof {
        assert(hi == lo + 1);
        lemma_iroot_unique(n as int, k as nat, lo as int);
    }
    lo
}

/// Stepping a scaled bound: `b * j` grows by `b` per step and stays
/// within `b * cap`.
pub proof fn lemma_mul_step_bound(b: int, j: int, cap: int)
    requires
        b >= 0,
        0 <= j < cap,
    ensures
        b * (j + 1) == b * j + b,
        (-b) * (j + 1) == (-b) * j - b,
        b * (j + 1) <= b * cap,
        (-b) * (j + 1) >= (-b) * cap,
        b * j <= b * cap,
        (-b) * j >= (-b) * cap,
{
    vstd::arithmetic::mul::lemma_mul_is_distributive_add(b, j, 1);
    vstd::arithmetic::mul::lemma_mul_basics(b);
    vstd::arithmetic::mul::lemma_mul_unary_negation(b, j + 1);
    vstd::arithmetic::mul::lemma_mul_unary_negation(b, j);
    vstd::arithmetic::mul::lemma_mul_unary_negation(b, cap);
    if b > 0 {
        vstd::arithmetic::mul::lemma_mul_left_inequality(b, j + 1, cap);
        vstd::arithmetic::mul::lemma_mul_left_inequality(b, j, cap);
    } else {
        vstd::arithmetic::mul::lemma_mul_by_zero_is_zero(j + 1);
        vstd::arithmetic::mul::lemma_mul_by_zero_is_zero(j);
        vstd::arithmetic::mul::lemma_mul_by_zero_is_zero(cap);
    }
}

/// Division truncating toward zero, the rounding the DCT scaling uses for
/// coefficients of either sign (Verus's own `/` on `int` is Euclidean).
pub open spec fn div_tz(a: int, b: int) -> int {
    if a >= 0 {
        a / b
    } else {
        -((-a) / b)
    }
}

/// Evaluate [`div_tz`] on 128-bit integers.
pub fn div_trunc(a: i128, b: u64) -> (r: i128)
    requires
        b >= 1,
        a > i128::MIN,
    ensures
        r == div_tz(a as int, b as int),
        vstd::math::abs(r as int) == vstd::math::abs(a as int) as int / (b as int),
{
    if a >= 0 {
        ((a as u128) / (b as u128)) as i128
    } else {
        let m = ((-a) as u128) / (b as u128);
        proof {
            vstd::arithmetic::div_mod::lemma_div_nonincreasing(-a as int, b as int);
        }
        -(m as i128)
    }
}

} // verus!
