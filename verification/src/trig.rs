//! Fixed-point cosine for the DCT basis functions.
//!
//! `cos_fx(num, den)` evaluates `cos(pi * num / den)` scaled by
//! [`COS_SCALE`], using the reduction `cos(pi * (q + f/den)) = (-1)^q *
//! cos(pi * f/den)` and a degree-10 Taylor polynomial on `[0, pi)`,
//! evaluated over 30-bit fixed-point integers (good to about three units
//! of the 15-bit output scale). The DCT only needs a basis that encoder
//! and decoder agree on exactly, which an integer polynomial provides.

use vstd::prelude::*;

verus! {

/// Fixed-point scale of cosine values: this integer stands for 1.0.
pub const COS_SCALE: i64 = 32768;

/// Magnitude of the Taylor polynomial for `cos(pi * f / den)`, scaled by
/// `COS_SCALE` and clamped to `[-COS_SCALE, COS_SCALE]`; `f/den` must lie
/// in `[0, 1)`. All intermediate terms are scaled by `2^30`.
pub open spec fn cos_poly(f: int, den: int) -> int {
    let t = (3373259426 * f) / den;
    let t2 = (t * t) / 1073741824int;
    let t4 = (t2 * t2) / 1073741824int;
    let t6 = (t4 * t2) / 1073741824int;
    let t8 = (t6 * t2) / 1073741824int;
    let t10 = (t8 * t2) / 1073741824int;
    let p = 1073741824int + t4 / 24 + t8 / 40320;
    let q = t2 / 2 + t6 / 720 + t10 / 3628800;
    if p >= q {
        let v = ((p - q) * 32768) / 1073741824int;
        if v > 32768 {
            32768int
        } else {
            v
        }
    } else {
        let v = ((q - p) * 32768) / 1073741824int;
        if v > 32768 {
            -32768int
        } else {
            -v
        }
    }
}

/// Fixed-point `cos(pi * num / den)`, scaled by `COS_SCALE`.
pub open spec fn cos_fx(num: int, den: int) -> int {
    let q = num / den;
    let f = num % den;
    if q % 2 == 0 {
        cos_poly(f, den)
    } else {
        -cos_poly(f, den)
    }
}

/// A zero angle has cosine exactly 1.0: the DC basis function is constant.
pub proof fn lemma_cos_zero(den: int)
    requires
        den > 0,
    ensures
        cos_fx(0, den) == 32768,
{
    vstd::arithmetic::div_mod::lemma_div_of0(den);
    vstd::arithmetic::div_mod::lemma_small_mod(0nat, den as nat);
    vstd::arithmetic::div_mod::lemma_div_of0(1073741824int);
    assert((0int * 0int) == 0) by (nonlinear_arith);
    assert(1073741824int * 32768 == 35184372088832int);
    assert(35184372088832int / 1073741824int == 32768int);
}

/// Evaluate the fixed-point cosine.
pub fn cos_fixed(num: u64, den: u64) -> (c: i64)
    requires
        1 <= den <= 1000000,
        num <= 1000000,
    ensures
        c == cos_fx(num as int, den as int),
        -32768 <= c <= 32768,
{
    let q = num / den;
    let f = num % den;
    proof {
        vstd::arithmetic::div_mod::lemma_mod_division_less_than_divisor(num as int, den as int);
        assert(3373259426 * f as int <= 3373259426 * 1000000int) by {
            vstd::arithmetic::mul::lemma_mul_inequality(f as int, 1000000, 3373259426);
            assert(f as int * 3373259426 == 3373259426 * f as int);
            assert(1000000int * 3373259426 == 3373259426 * 1000000int);
        }
        vstd::arithmetic::mul::lemma_mul_inequality(f as int, den as int, 3373259426);
        vstd::arithmetic::div_mod::lemma_div_is_ordered(
            3373259426 * f as int,
            3373259426 * den as int,
            den as int,
        );
        vstd::arithmetic::div_mod::lemma_div_multiples_vanish(3373259426int, den as int);
        assert(f as int * 3373259426 == 3373259426 * f as int);
        assert(den as int * 3373259426 == 3373259426 * den as int);
    }
    let t = ((3373259426u128 * f as u128) / den as u128) as u64;
    proof {
        assert((t as int) * (t as int) < 0x10000000000000000int) by (nonlinear_arith)
            requires
                0 <= (t as int) <= 3373259426,
        ;
    }
    let t2 = ((t as u128 * t as u128) / 1073741824) as u64;
    proof {
        vstd::arithmetic::div_mod::lemma_div_is_ordered(
            t as int * t as int,
            0xffffffffffffffffint,
            1073741824int,
        );
        assert(t2 < 17179869184u64) by {
            assert(0xffffffffffffffffint / 1073741824int == 17179869183int);
        }
        assert((t2 as int) * (t2 as int) < 0x100000000000000000int) by (nonlinear_arith)
            requires
                0 <= (t2 as int) < 17179869184int,
        ;
    }
    let t4 = ((t2 as u128 * t2 as u128) / 1073741824) as u64;
    proof {
        vstd::arithmetic::div_mod::lemma_div_is_ordered(
            t2 as int * t2 as int,
            0xfffffffffffffffffint,
            1073741824int,
        );
        assert(t4 < 274877906944u64) by {
            assert(0xfffffffffffffffffint / 1073741824int < 274877906944int);
        }
        assert((t4 as int) * (t2 as int) < 0x1000000000000000000int) by (nonlinear_arith)
            requires
                0 <= (t4 as int) < 274877906944int,
                0 <= (t2 as int) < 17179869184int,
        ;
    }
    let t6 = ((t4 as u128 * t2 as u128) / 1073741824) as u64;
    proof {
        vstd::arithmetic::div_mod::lemma_div_is_ordered(
            t4 as int * t2 as int,
            0xffffffffffffffffffint,
            1073741824int,
        );
        assert(t6 < 4398046511104u64) by {
            assert(0xffffffffffffffffffint / 1073741824int < 4398046511104int);
        }
        assert((t6 as int) * (t2 as int) < 0x10000000000000000000int) by (nonlinear_arith)
            requires
                0 <= (t6 as int) < 4398046511104int,
                0 <= (t2 as int) < 17179869184int,
        ;
    }
    let t8 = ((t6 as u128 * t2 as u128) / 1073741824) as u64;
    proof {
        vstd::arithmetic::div_mod::lemma_div_is_ordered(
            t6 as int * t2 as int,
            0xfffffffffffffffffffint,
            1073741824int,
        );
        assert(t8 < 70368744177664u64) by {
            assert(0xfffffffffffffffffffint / 1073741824int < 70368744177664int);
        }
        assert((t8 as int) * (t2 as int) < 0x100000000000000000000int) by (nonlinear_arith)
            requires
                0 <= (t8 as int) < 70368744177664int,
                0 <= (t2 as int) < 17179869184int,
        ;
    }
    let t10 = ((t8 as u128 * t2 as u128) / 1073741824) as u64;
    proof {
        vstd::arithmetic::div_mod::lemma_div_is_ordered(
            t8 as int * t2 as int,
            0xffffffffffffffffffffint,
            1073741824int,
        );
        assert(t10 < 1125899906842624u64) by {
            assert(0xffffffffffffffffffffint / 1073741824int < 1125899906842624int);
        }
    }
    let p = 1073741824 + t4 / 24 + t8 / 40320;
    let q2 = t2 / 2 + t6 / 720 + t10 / 3628800;
    let mag: i64 = if p >= q2 {
        let v = ((p as u128 - q2 as u128) * 32768) / 1073741824;
        if v > 32768 {
            32768
        } else {
            v as i64
        }
    } else {
        let v = ((q2 as u128 - p as u128) * 32768) / 1073741824;
        if v > 32768 {
            -32768
        } else {
            -(v as i64)
        }
    };
    if q % 2 == 0 {
        mag
    } else {
        -mag
    }
}

/// Whether the table prefix `t` holds, at each flat index `k`, the
/// cosine of `pi * (k / n) * (k % n) / n`: the layout that stores the
/// basis value for component `k / n` at sample `k % n`.
pub open spec fn cos_table_ok(t: Seq<i64>, n: int) -> bool {
    forall|k: int|
        0 <= k < t.len() ==> #[trigger] t[k] == cos_fx((k / n) * (k % n), n) && -32768 <= t[k]
            <= 32768
}

/// Build the cosine table for one axis: entry `i * n + x` holds
/// `cos_fx(i * x, n)`, for component index `i < comps` and sample
/// position `x < n`.
pub fn build_cos_table(comps: usize, n: usize) -> (t: Vec<i64>)
    requires
        1 <= comps <= 10,
        1 <= n <= 10000,
    ensures
        t@.len() == comps * n,
        cos_table_ok(t@, n as int),
{
    let mut t: Vec<i64> = Vec::new();
    let mut i: usize = 0;
    while i < comps
        invariant
            0 <= i <= comps <= 10,
            1 <= n <= 10000,
            t@.len() == i * n,
            cos_table_ok(t@, n as int),
        decreases comps - i,
    {
        let mut x: usize = 0;
        while x < n
            invariant
                0 <= x <= n,
                0 <= i < comps <= 10,
                1 <= n <= 10000,
                t@.len() == i * n + x,
                cos_table_ok(t@, n as int),
            decreases n - x,
        {
            proof {
                assert(i * n + x < 100000) by (nonlinear_arith)
                    requires
                        0 <= i < 10,
                        1 <= n <= 10000,
                        0 <= x < n,
                ;
                assert(i * x <= 100000) by (nonlinear_arith)
                    requires
                        0 <= i < 10,
                        0 <= x <= 10000,
                ;
            }
            let c = cos_fixed((i * x) as u64, n as u64);
            proof {
                vstd::arithmetic::div_mod::lemma_fundamental_div_mod_converse(
                    i as int * n as int + x as int,
                    n as int,
                    i as int,
                    x as int,
                );
            }
            t.push(c);
            x = x + 1;
        }
        i = i + 1;
        proof {
            assert((i - 1) * n + n == i as int * n) by (nonlinear_arith);
        }
    }
    t
}

/// Read the table: `lookup_cos(t, n, i, x)` is `cos_fx(i * x, n)`.
pub fn lookup_cos(t: &Vec<i64>, n: usize, i: usize, x: usize) -> (c: i64)
    requires
        cos_table_ok(t@, n as int),
        n >= 1,
        x < n,
        i * n + x < t@.len(),
    ensures
        c == cos_fx(i as int * x as int, n as int),
        -32768 <= c <= 32768,
{
    let len = t.len();
    proof {
        assert(i * n + x < len);
        vstd::arithmetic::div_mod::lemma_fundamental_div_mod_converse(
            i as int * n as int + x as int,
            n as int,
            i as int,
            x as int,
        );
    }
    t[i * n + x]
}

} // verus!
