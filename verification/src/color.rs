//! Color space conversion between sRGB bytes and linear light.
//!
//! Linear-light intensity is represented in fixed point: an integer in
//! `0..=LINEAR_SCALE`, where `LINEAR_SCALE` stands for 1.0. The standard
//! sRGB transfer function (a linear segment below a small threshold, a
//! power-law segment with exponent 12/5 above it) is evaluated exactly on
//! scaled integers, with the fractional powers computed as integer roots:
//! `x^(12/5) = (x^2) * (x^2)^(1/5)` on the way in and `x^(5/12) =
//! (x^5)^(1/12)` on the way back.

use vstd::prelude::*;
use vstd::arithmetic::power::pow;

use crate::roots::{iroot, iroot_spec, lemma_pow_base_lt};

verus! {

/// Fixed-point scale of linear-light values: this integer stands for 1.0.
pub const LINEAR_SCALE: u32 = 1048576;

/// `2^100`, the fifth power of the root scale used by `srgb_to_linear`.
const FIFTH_POW_SCALE: u128 = 0x10000000000000000000000000;

/// Linear-light value (scaled by `LINEAR_SCALE`) of the sRGB byte `b`.
///
/// For `b <= 10` (sRGB value at most 0.04045) this is the linear segment
/// `(b/255)/12.92`; above it, `u^(12/5)` with `u = (b/255 + 0.055)/1.055 =
/// (40*b + 561)/10761`, evaluated as `u^2 * (u^2)^(1/5)` over exact
/// integers (`115799121 == 10761^2`).
pub open spec fn srgb_to_linear_spec(b: int) -> int {
    if b <= 10 {
        (b * 5242880) / 16473
    } else {
        let a = 40 * b + 561;
        let n = (a * a * 0x10000000000000000000000000int) / 115799121int;
        let r = iroot_spec(n, 5);
        (a * a * r) / 115799121int
    }
}

/// sRGB byte of the linear-light value `l` (scaled by `LINEAR_SCALE`).
///
/// `l` is clamped to `0..=LINEAR_SCALE` first. Below the threshold
/// 0.0031308 the byte is `round(c * 12.92 * 255)`; above it,
/// `round((1.055 * c^(5/12) - 0.055) * 255)` with the fractional power
/// evaluated as the integer twelfth root of `c^5` rescaled to 10 bits.
pub open spec fn linear_to_srgb_spec(l: int) -> int {
    let c = if l <= 0 {
        0int
    } else if l >= 1048576 {
        1048576int
    } else {
        l
    };
    if c * 10000000 <= 32828817408int {
        (65892 * c + 10485760) / 20971520
    } else {
        let w = iroot_spec(c * c * c * c * c * 1048576int, 12);
        if 538050 * w < 27699200 {
            0int
        } else {
            (538050 * w - 27699200) / 2048000
        }
    }
}

/// The linear-light value of a byte always lies in `0..=LINEAR_SCALE`.
pub proof fn lemma_srgb_to_linear_range(b: int)
    requires
        0 <= b <= 255,
    ensures
        0 <= srgb_to_linear_spec(b) <= 1048576,
{
    if b <= 10 {
        vstd::arithmetic::div_mod::lemma_div_pos_is_pos(b * 5242880, 16473);
        vstd::arithmetic::div_mod::lemma_div_is_ordered(b * 5242880, 52428800, 16473);
    } else {
        let a = 40 * b + 561;
        let big = a * a * 0x10000000000000000000000000int;
        assert(0 <= a * a <= 115799121int) by (nonlinear_arith)
            requires
                0 < a <= 10761,
        ;
        vstd::arithmetic::mul::lemma_mul_inequality(
            a * a,
            115799121,
            0x10000000000000000000000000int,
        );
        vstd::arithmetic::mul::lemma_mul_nonnegative(a * a, 0x10000000000000000000000000int);
        let n = big / 115799121int;
        vstd::arithmetic::div_mod::lemma_div_pos_is_pos(big, 115799121int);
        vstd::arithmetic::div_mod::lemma_div_is_ordered(
            big,
            115799121int * 0x10000000000000000000000000int,
            115799121int,
        );
        vstd::arithmetic::div_mod::lemma_div_multiples_vanish(
            0x10000000000000000000000000int,
            115799121int,
        );
        crate::roots::lemma_iroot_exists(n, 5);
        let r = iroot_spec(n, 5);
        assert(pow(1048576int, 5) == 0x10000000000000000000000000int) by {
            reveal_with_fuel(pow, 6);
        }
        if r > 1048576 {
            lemma_pow_base_lt(1048576int, r, 5);
            assert(false);
        }
        vstd::arithmetic::mul::lemma_mul_nonnegative(a * a, r);
        vstd::arithmetic::div_mod::lemma_div_pos_is_pos(a * a * r, 115799121int);
        vstd::arithmetic::mul::lemma_mul_inequality(r, 1048576, a * a);
        vstd::arithmetic::mul::lemma_mul_inequality(a * a, 115799121, 1048576);
        vstd::arithmetic::div_mod::lemma_div_is_ordered(
            a * a * r,
            115799121int * 1048576,
            115799121int,
        );
        vstd::arithmetic::div_mod::lemma_div_multiples_vanish(1048576int, 115799121int);
        assert(a * a * r == r * (a * a)) by (nonlinear_arith);
        assert(a * a * 1048576 == 1048576 * (a * a)) by (nonlinear_arith);
    }
}

/// The sRGB byte of any linear-light value always lies in `0..=255`.
pub proof fn lemma_linear_to_srgb_range(l: int)
    ensures
        0 <= linear_to_srgb_spec(l) <= 255,
{
    let c = if l <= 0 {
        0int
    } else if l >= 1048576 {
        1048576int
    } else {
        l
    };
    if c * 10000000 <= 32828817408int {
        assert(c <= 3282) by (nonlinear_arith)
            requires
                0 <= c,
                c * 10000000 <= 32828817408int,
        ;
        vstd::arithmetic::div_mod::lemma_div_pos_is_pos(65892 * c + 10485760, 20971520);
        vstd::arithmetic::div_mod::lemma_div_is_ordered(
            65892 * c + 10485760,
            226743304,
            20971520,
        );
    } else {
        let m = c * c * c * c * c * 1048576int;
        assert(0 <= c * c * c * c * c * 1048576int <= 0x1000000000000000000000000000000int)
            by (nonlinear_arith)
            requires
                0 < c <= 1048576,
        ;
        crate::roots::lemma_iroot_exists(m, 12);
        let w = iroot_spec(m, 12);
        assert(pow(1024int, 12) == 0x1000000000000000000000000000000int) by {
            reveal_with_fuel(pow, 13);
        }
        if w > 1024 {
            lemma_pow_base_lt(1024int, w, 12);
            assert(false);
        }
        if !(538050 * w < 27699200) {
            vstd::arithmetic::div_mod::lemma_div_pos_is_pos(538050 * w - 27699200, 2048000);
            vstd::arithmetic::div_mod::lemma_div_is_ordered(
                538050 * w - 27699200,
                523264000,
                2048000,
            );
        }
    }
}

/// The pinned fifth root used at byte value 11, the smallest gamma-segment
/// input; every larger byte's root is at least this.
proof fn lemma_gamma_root_floor()
    ensures
        iroot_spec(10968884375895099311929130347int, 5) == 405538,
{
    assert(pow(405538int, 5) <= 10968884375895099311929130347int < pow(405538int + 1, 5)) by {
        reveal_with_fuel(pow, 6);
    }
    crate::roots::lemma_iroot_unique(10968884375895099311929130347int, 5, 405538);
}

/// One step of strict monotonicity: each next byte has a strictly larger
/// linear value.
proof fn lemma_srgb_to_linear_step(b: int)
    requires
        0 <= b < 255,
    ensures
        srgb_to_linear_spec(b) < srgb_to_linear_spec(b + 1),
{
    broadcast use vstd::arithmetic::div_mod::lemma_hoist_over_denominator;

    if b + 1 <= 10 {
        // Linear segment: the numerator grows by a full denominator's worth.
        vstd::arithmetic::div_mod::lemma_div_is_ordered(
            b * 5242880 + 16473,
            (b + 1) * 5242880,
            16473,
        );
        assert((b * 5242880 + 1 * 16473) / 16473 == b * 5242880 / 16473 + 1);
    } else if b == 10 {
        // Across the segment boundary, both values are concrete.
        assert(srgb_to_linear_spec(10) == 3182);
        lemma_gamma_root_floor();
        let a = 40 * (b + 1) + 561;
        assert(a == 1001);
        assert(a * a == 1002001int) by (nonlinear_arith)
            requires
                a == 1001,
        ;
        assert(1002001int * 0x10000000000000000000000000int
            == 1270187169079286088529098108489957376int) by (nonlinear_arith);
        assert(a * a * 0x10000000000000000000000000int
            == 1270187169079286088529098108489957376int);
        assert(1270187169079286088529098108489957376int / 115799121int
            == 10968884375895099311929130347int);
        let r = iroot_spec(10968884375895099311929130347int, 5);
        assert(r == 405538);
        assert(1002001int * 405538 == 406349481538int) by (nonlinear_arith);
        assert(a * a * r == 406349481538int);
        assert(srgb_to_linear_spec(11) == 406349481538int / 115799121int);
        assert(406349481538int / 115799121int == 3509);
    } else {
        // Gamma segment: the rescaled root grows, and the squared numerator
        // grows by more than a full denominator's worth.
        let a1 = 40 * b + 561;
        let a2 = 40 * (b + 1) + 561;
        let big = 0x10000000000000000000000000int;
        let n1 = (a1 * a1 * big) / 115799121int;
        let n2 = (a2 * a2 * big) / 115799121int;
        let n11 = 10968884375895099311929130347int;
        assert(1001 <= a1 && a2 == a1 + 40 && a1 <= 10721);
        assert(1002001int * big <= a1 * a1 * big && a1 * a1 * big <= a2 * a2 * big
            && a2 * a2 * big <= 115799121int * big) by (nonlinear_arith)
            requires
                1001 <= a1 <= 10721,
                a2 == a1 + 40,
                a2 <= 10761,
                big > 0,
        ;
        vstd::arithmetic::div_mod::lemma_div_is_ordered(1002001int * big, a1 * a1 * big, 115799121int);
        vstd::arithmetic::div_mod::lemma_div_is_ordered(a1 * a1 * big, a2 * a2 * big, 115799121int);
        assert((1002001int * big) / 115799121int == n11);
        crate::roots::lemma_iroot_monotone(n11, n1, 5);
        crate::roots::lemma_iroot_monotone(n1, n2, 5);
        crate::roots::lemma_iroot_exists(n1, 5);
        crate::roots::lemma_iroot_exists(n2, 5);
        lemma_gamma_root_floor();
        let r1 = iroot_spec(n1, 5);
        let r2 = iroot_spec(n2, 5);
        assert(405538 <= r1 <= r2);
        // The numerator of the rescaled value jumps by at least 115799121.
        assert(a2 * a2 * r2 >= a1 * a1 * r1 + 115799121int) by (nonlinear_arith)
            requires
                1001 <= a1,
                a2 == a1 + 40,
                405538 <= r1 <= r2,
        ;
        vstd::arithmetic::div_mod::lemma_div_is_ordered(
            a1 * a1 * r1 + 115799121int,
            a2 * a2 * r2,
            115799121int,
        );
        assert((a1 * a1 * r1 + 1 * 115799121int) / 115799121int == (a1 * a1 * r1) / 115799121int
            + 1);
    }
}

/// Strict monotonicity: a brighter sRGB byte always has a strictly larger
/// linear-light value.
pub proof fn lemma_srgb_to_linear_strictly_increasing(b1: int, b2: int)
    requires
        0 <= b1 < b2 <= 255,
    ensures
        srgb_to_linear_spec(b1) < srgb_to_linear_spec(b2),
    decreases b2 - b1,
{
    if b2 == b1 + 1 {
        lemma_srgb_to_linear_step(b1);
    } else {
        lemma_srgb_to_linear_strictly_increasing(b1, b2 - 1);
        lemma_srgb_to_linear_step(b2 - 1);
    }
}

/// Convert an sRGB byte value to fixed-point linear light.
///
/// The result is `srgb_to_linear_spec(value)`, always in
/// `0..=LINEAR_SCALE`, with `LINEAR_SCALE` reached exactly at 255.
pub fn srgb_to_linear(value: u8) -> (l: u32)
    ensures
        l == srgb_to_linear_spec(value as int),
        l <= LINEAR_SCALE,
{
    if value <= 10 {
        let x = (value as u64 * 5242880) / 16473;
        proof {
            vstd::arithmetic::div_mod::lemma_div_is_ordered(
                value as int * 5242880,
                52428800,
                16473,
            );
        }
        x as u32
    } else {
        let a = 40 * (value as u64) + 561;
        proof {
            assert(a as int * a as int <= 115799121int) by (nonlinear_arith)
                requires
                    a as int <= 10761,
            ;
        }
        let asq = a * a;
        proof {
            vstd::arithmetic::mul::lemma_mul_inequality(
                asq as int,
                115799121,
                0x10000000000000000000000000int,
            );
        }
        let n = (asq as u128 * FIFTH_POW_SCALE) / 115799121;
        proof {
            vstd::arithmetic::div_mod::lemma_div_is_ordered(
                asq as int * 0x10000000000000000000000000int,
                115799121int * 0x10000000000000000000000000int,
                115799121int,
            );
            vstd::arithmetic::div_mod::lemma_div_multiples_vanish(
                0x10000000000000000000000000int,
                115799121int,
            );
        }
        let r = iroot(n, 5);
        proof {
            assert(pow(1048576int, 5) == 0x10000000000000000000000000int) by {
                vstd::arithmetic::power::lemma_pow0(1048576int);
                reveal_with_fuel(pow, 6);
            }
            if r > 1048576 {
                lemma_pow_base_lt(1048576int, r as int, 5);
                assert(false);
            }
            vstd::arithmetic::mul::lemma_mul_inequality(r as int, 1048576, asq as int);
            vstd::arithmetic::mul::lemma_mul_inequality(asq as int, 115799121, 1048576);
            vstd::arithmetic::div_mod::lemma_div_is_ordered(
                asq as int * r as int,
                115799121int * 1048576,
                115799121int,
            );
            vstd::arithmetic::div_mod::lemma_div_multiples_vanish(1048576int, 115799121int);
            assert(asq as int * r as int == r as int * asq as int);
            assert(asq as int * 1048576 == 1048576 * asq as int);
        }
        let l = (asq as u128 * r as u128) / 115799121;
        l as u32
    }
}

/// Convert a fixed-point linear-light value to an sRGB byte.
///
/// Values outside `0..=LINEAR_SCALE` are clamped, not rejected; the result
/// is `linear_to_srgb_spec(value)`.
pub fn linear_to_srgb(value: i64) -> (b: u8)
    ensures
        b == linear_to_srgb_spec(value as int),
{
    let c: u64 = if value <= 0 {
        0
    } else if value >= 1048576 {
        1048576
    } else {
        value as u64
    };
    if c * 10000000 <= 32828817408 {
        let q = (65892 * c + 10485760) / 20971520;
        proof {
            vstd::arithmetic::div_mod::lemma_div_is_ordered(
                65892 * c as int + 10485760,
                226743304,
                20971520,
            );
        }
        q as u8
    } else {
        proof {
            assert(c as int * c as int <= 0x10000000000int) by (nonlinear_arith)
                requires
                    c as int <= 0x100000,
            ;
        }
        let c2 = (c as u128) * (c as u128);
        proof {
            assert(c2 as int * c2 as int <= 0x100000000000000000000int) by (nonlinear_arith)
                requires
                    0 <= c2 as int <= 0x10000000000,
            ;
        }
        let c4 = c2 * c2;
        proof {
            assert(c4 as int * c as int <= 0x10000000000000000000000000int) by (nonlinear_arith)
                requires
                    0 <= c4 as int <= 0x100000000000000000000,
                    c as int <= 0x100000,
            ;
        }
        let c5 = c4 * (c as u128);
        proof {
            assert(c5 as int == c as int * c as int * c as int * c as int * c as int)
                by (nonlinear_arith)
                requires
                    c2 as int == c as int * c as int,
                    c4 as int == c2 as int * c2 as int,
                    c5 as int == c4 as int * c as int,
            ;
        }
        let m = c5 * 1048576;
        let w = iroot(m, 12);
        proof {
            assert(pow(1024int, 12) == 0x1000000000000000000000000000000int) by {
                vstd::arithmetic::power::lemma_pow0(1024int);
                reveal_with_fuel(pow, 13);
            }
            if w > 1024 {
                lemma_pow_base_lt(1024int, w as int, 12);
                assert(false);
            }
        }
        let num = 538050 * (w as u64);
        if num < 27699200 {
            0
        } else {
            let q = (num - 27699200) / 2048000;
            proof {
                vstd::arithmetic::div_mod::lemma_div_is_ordered(
                    num as int - 27699200,
                    523264000,
                    2048000,
                );
            }
            q as u8
        }
    }
}

} // verus!
