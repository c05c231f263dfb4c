//! BlurHash encoding: from an RGB image to a hash string.
//!
//! The image is converted to fixed-point linear light, a separable
//! forward DCT extracts `components_x * components_y` low-frequency
//! coefficients (per-row partial sums over the horizontal basis, then
//! per-coefficient sums over the vertical basis), and the coefficients
//! are quantized and serialized in base83.

use vstd::prelude::*;
use vstd::math::abs;

use crate::base83;
use crate::base83::{
    all_base83, encode_digit_at, encode_digits, encode_to_buf, string_from_ascii,
};
use crate::color::{linear_to_srgb, linear_to_srgb_spec, srgb_to_linear, srgb_to_linear_spec};
use crate::error::BlurhashError;
use crate::roots::{div_trunc, div_tz, iroot, iroot_spec};
use crate::trig::{build_cos_table, cos_fx, cos_table_ok, lookup_cos};

verus! {

/// Fixed-point linear-light value of channel `ch` of pixel `(x, y)`.
pub open spec fn px_lin(p: Seq<u8>, w: int, x: int, y: int, ch: int) -> int {
    srgb_to_linear_spec(p[3 * (y * w + x) + ch] as int)
}

/// Forward-DCT partial sum for image row `y` and horizontal component
/// `i`: the first `cnt` pixels of the row weighted by the basis.
pub open spec fn row_dot(p: Seq<u8>, w: int, y: int, i: int, ch: int, cnt: int) -> int
    decreases cnt,
{
    if cnt <= 0 {
        0
    } else {
        row_dot(p, w, y, i, ch, cnt - 1) + px_lin(p, w, cnt - 1, y, ch) * cos_fx(i * (cnt - 1), w)
    }
}

/// Forward-DCT full sum for component `(i, j)`: the first `cnt` row
/// partials weighted by the vertical basis.
pub open spec fn comp_raw(
    p: Seq<u8>,
    w: int,
    h: int,
    i: int,
    j: int,
    ch: int,
    cnt: int,
) -> int
    decreases cnt,
{
    if cnt <= 0 {
        0
    } else {
        comp_raw(p, w, h, i, j, ch, cnt - 1) + row_dot(p, w, cnt - 1, i, ch, w) * cos_fx(
            j * (cnt - 1),
            h,
        )
    }
}

/// Fixed-point DCT coefficient of component `(i, j)`, channel `ch`:
/// the weighted average over all pixels, with normalization 1 for the DC
/// term and 2 otherwise (`1073741824 == 32768^2`, the two cosine scales).
pub open spec fn comp_fx(p: Seq<u8>, w: int, h: int, i: int, j: int, ch: int) -> int {
    let norm = if i == 0 && j == 0 {
        1int
    } else {
        2int
    };
    div_tz(norm * comp_raw(p, w, h, i, j, ch, h), 1073741824 * w * h)
}

/// Coefficient stored at flat index `m`: component `m / 3` (row-major,
/// `cx` per row), channel `m % 3`.
pub open spec fn comp_at(p: Seq<u8>, w: int, h: int, cx: int, m: int) -> int {
    comp_fx(p, w, h, (m / 3) % cx, (m / 3) / cx, m % 3)
}

/// Largest magnitude among the AC coefficient channels at flat indices
/// `3..n` (zero when there are none).
pub open spec fn max_ac_to(p: Seq<u8>, w: int, h: int, cx: int, n: int) -> int
    decreases n,
{
    if n <= 3 {
        0
    } else {
        let prev = max_ac_to(p, w, h, cx, n - 1);
        let cur = abs(comp_at(p, w, h, cx, n - 1)) as int;
        if cur > prev {
            cur
        } else {
            prev
        }
    }
}

/// Quantize the maximum AC magnitude `m` to a digit in `0..=82`:
/// `floor(m * 166 - 0.5)` over the fixed-point scale, clamped
/// (`2097152 == 2 * LINEAR_SCALE`).
pub open spec fn quant_max_spec(m: int) -> int {
    if 332 * m < 1048576 {
        0int
    } else {
        let q = (332 * m - 1048576) / 2097152;
        if q > 82 {
            82int
        } else {
            q
        }
    }
}

/// Quantize one AC coefficient channel `v` against the dequantization
/// range set by `qm`: `floor(signed_sqrt(v / range) * 9 + 9.5)` clamped
/// to `0..=18`, with the square root of the ratio `a/b` evaluated
/// exactly as an integer square root of `324 * a * b` (`18^2 == 324`).
pub open spec fn quantize_ac_spec(v: int, qm: int) -> int {
    let b = (qm + 1) * 1048576;
    let a = abs(v) * 166;
    let n = 324 * a * b;
    let r = iroot_spec(n, 2);
    if v >= 0 {
        let q = (r / b + 19) / 2;
        if q > 18 {
            18int
        } else {
            q
        }
    } else {
        let rc = if r * r == n {
            r
        } else {
            r + 1
        };
        let c = (rc + b - 1) / b;
        if c >= 19 {
            0int
        } else {
            (19 - c) / 2
        }
    }
}

/// The packed two-digit value of AC component `k` (`k >= 1`): the three
/// quantized channels as a base-19 triple.
pub open spec fn ac_pair(p: Seq<u8>, w: int, h: int, cx: int, qm: int, k: int) -> int {
    let i = k % cx;
    let j = k / cx;
    quantize_ac_spec(comp_fx(p, w, h, i, j, 0), qm) * 361 + quantize_ac_spec(
        comp_fx(p, w, h, i, j, 1),
        qm,
    ) * 19 + quantize_ac_spec(comp_fx(p, w, h, i, j, 2), qm)
}

/// The packed 24-bit DC value: the three DC channels converted back to
/// sRGB bytes.
pub open spec fn dc_value_spec(p: Seq<u8>, w: int, h: int) -> int {
    linear_to_srgb_spec(comp_fx(p, w, h, 0, 0, 0)) * 65536 + linear_to_srgb_spec(
        comp_fx(p, w, h, 0, 0, 1),
    ) * 256 + linear_to_srgb_spec(comp_fx(p, w, h, 0, 0, 2))
}

/// The quantized maximum-AC digit of the whole image.
pub open spec fn quant_max_of_image(p: Seq<u8>, w: int, h: int, cx: int, cy: int) -> int {
    quant_max_spec(max_ac_to(p, w, h, cx, 3 * (cx * cy)))
}

/// The AC digit pairs of components `1..cnt`, concatenated in row-major
/// order.
pub open spec fn ac_digits(
    p: Seq<u8>,
    w: int,
    h: int,
    cx: int,
    qm: int,
    cnt: int,
) -> Seq<char>
    decreases cnt,
{
    if cnt <= 1 {
        Seq::empty()
    } else {
        ac_digits(p, w, h, cx, qm, cnt - 1) + encode_digits(ac_pair(p, w, h, cx, qm, cnt - 1), 2)
    }
}

/// The full encoded hash: size flag, quantization digit, DC value, then
/// the AC pairs.
pub open spec fn encoded_hash(p: Seq<u8>, w: int, h: int, cx: int, cy: int) -> Seq<char> {
    let qm = quant_max_of_image(p, w, h, cx, cy);
    encode_digits((cx - 1) + (cy - 1) * 9, 1) + encode_digits(qm, 1) + encode_digits(
        dc_value_spec(p, w, h),
        4,
    ) + ac_digits(p, w, h, cx, qm, cx * cy)
}

/// A quantized AC channel always lies in `0..=18`, whatever the
/// coefficient.
pub proof fn lemma_quantize_ac_range(v: int, qm: int)
    requires
        qm >= 0,
    ensures
        0 <= quantize_ac_spec(v, qm) <= 18,
{
    let b = (qm + 1) * 1048576;
    let a = abs(v) * 166;
    assert(0 <= a * b) by (nonlinear_arith)
        requires
            0 <= a,
            0 <= b,
    ;
    assert(0 <= 324 * a * b) by (nonlinear_arith)
        requires
            0 <= a,
            0 <= b,
    ;
    let n = 324 * a * b;
    crate::roots::lemma_iroot_exists(n, 2);
    let r = iroot_spec(n, 2);
    if v >= 0 {
        vstd::arithmetic::div_mod::lemma_div_pos_is_pos(r, b);
        vstd::arithmetic::div_mod::lemma_div_pos_is_pos(r / b + 19, 2);
    } else {
        let rc = if r * r == n {
            r
        } else {
            r + 1
        };
        let c = (rc + b - 1) / b;
        vstd::arithmetic::div_mod::lemma_div_pos_is_pos(rc + b - 1, b);
        if c < 19 {
            vstd::arithmetic::div_mod::lemma_div_pos_is_pos(19 - c, 2);
            vstd::arithmetic::div_mod::lemma_div_is_ordered(19 - c, 19, 2);
        }
    }
}

/// A packed AC pair always lies in `0..=6858`, hence fits two base83
/// digits.
pub proof fn lemma_ac_pair_range(p: Seq<u8>, w: int, h: int, cx: int, qm: int, k: int)
    requires
        qm >= 0,
    ensures
        0 <= ac_pair(p, w, h, cx, qm, k) <= 6858,
{
    let i = k % cx;
    let j = k / cx;
    lemma_quantize_ac_range(comp_fx(p, w, h, i, j, 0), qm);
    lemma_quantize_ac_range(comp_fx(p, w, h, i, j, 1), qm);
    lemma_quantize_ac_range(comp_fx(p, w, h, i, j, 2), qm);
}

/// The quantized maximum-AC digit always lies in `0..=82`.
pub proof fn lemma_quant_max_range(m: int)
    ensures
        0 <= quant_max_spec(m) <= 82,
{
    if !(332 * m < 1048576) {
        vstd::arithmetic::div_mod::lemma_div_pos_is_pos(332 * m - 1048576, 2097152);
    }
}

/// The packed DC value always fits 24 bits, hence four base83 digits.
pub proof fn lemma_dc_value_range(p: Seq<u8>, w: int, h: int)
    ensures
        0 <= dc_value_spec(p, w, h) <= 16777215,
{
    crate::color::lemma_linear_to_srgb_range(comp_fx(p, w, h, 0, 0, 0));
    crate::color::lemma_linear_to_srgb_range(comp_fx(p, w, h, 0, 0, 1));
    crate::color::lemma_linear_to_srgb_range(comp_fx(p, w, h, 0, 0, 2));
}

/// Concatenation preserves alphabet closure.
proof fn lemma_all_base83_concat(a: Seq<char>, b: Seq<char>)
    requires
        all_base83(a),
        all_base83(b),
    ensures
        all_base83(a + b),
{
    assert forall|t: int| 0 <= t < (a + b).len() implies base83::is_base83_char(
        #[trigger] (a + b)[t],
    ) by {
        if t < a.len() {
            assert((a + b)[t] == a[t]);
        } else {
            assert((a + b)[t] == b[t - a.len()]);
        }
    }
}

/// Every character of the AC digit block is in the alphabet.
proof fn lemma_ac_digits_alphabet(p: Seq<u8>, w: int, h: int, cx: int, qm: int, cnt: int)
    requires
        qm >= 0,
    ensures
        all_base83(ac_digits(p, w, h, cx, qm, cnt)),
    decreases cnt,
{
    if cnt <= 1 {
        assert(all_base83(Seq::<char>::empty()));
    } else {
        lemma_ac_digits_alphabet(p, w, h, cx, qm, cnt - 1);
        lemma_ac_pair_range(p, w, h, cx, qm, cnt - 1);
        base83::lemma_encode_digits_alphabet(ac_pair(p, w, h, cx, qm, cnt - 1), 2);
        lemma_all_base83_concat(
            ac_digits(p, w, h, cx, qm, cnt - 1),
            encode_digits(ac_pair(p, w, h, cx, qm, cnt - 1), 2),
        );
    }
}

/// Length law: for any image and any component counts in range, the
/// encoded hash has exactly `4 + 2 * cx * cy` characters.
pub proof fn lemma_encoded_hash_len(p: Seq<u8>, w: int, h: int, cx: int, cy: int)
    requires
        1 <= cx,
        1 <= cy,
    ensures
        encoded_hash(p, w, h, cx, cy).len() == 4 + 2 * (cx * cy),
{
    let qm = quant_max_of_image(p, w, h, cx, cy);
    base83::lemma_encode_digits_len((cx - 1) + (cy - 1) * 9, 1);
    base83::lemma_encode_digits_len(qm, 1);
    base83::lemma_encode_digits_len(dc_value_spec(p, w, h), 4);
    assert(cx * cy >= 1) by (nonlinear_arith)
        requires
            1 <= cx,
            1 <= cy,
    ;
    lemma_ac_digits_len(p, w, h, cx, qm, cx * cy);
}

/// Alphabet closure: every character of any encoded hash is one of the
/// 83 alphabet characters.
pub proof fn lemma_encoded_hash_alphabet(p: Seq<u8>, w: int, h: int, cx: int, cy: int)
    requires
        1 <= cx <= 9,
        1 <= cy <= 9,
    ensures
        all_base83(encoded_hash(p, w, h, cx, cy)),
{
    let qm = quant_max_of_image(p, w, h, cx, cy);
    lemma_quant_max_range(max_ac_to(p, w, h, cx, 3 * (cx * cy)));
    lemma_dc_value_range(p, w, h);
    base83::lemma_encode_digits_alphabet((cx - 1) + (cy - 1) * 9, 1);
    base83::lemma_encode_digits_alphabet(qm, 1);
    base83::lemma_encode_digits_alphabet(dc_value_spec(p, w, h), 4);
    lemma_ac_digits_alphabet(p, w, h, cx, qm, cx * cy);
    lemma_all_base83_concat(
        encode_digits((cx - 1) + (cy - 1) * 9, 1),
        encode_digits(qm, 1),
    );
    lemma_all_base83_concat(
        encode_digits((cx - 1) + (cy - 1) * 9, 1) + encode_digits(qm, 1),
        encode_digits(dc_value_spec(p, w, h), 4),
    );
    lemma_all_base83_concat(
        encode_digits((cx - 1) + (cy - 1) * 9, 1) + encode_digits(qm, 1) + encode_digits(
            dc_value_spec(p, w, h),
            4,
        ),
        ac_digits(p, w, h, cx, qm, cx * cy),
    );
}

/// Whether every pixel of `p` has the same three channel bytes.
pub open spec fn uniform_image(p: Seq<u8>, r: u8, g: u8, b: u8) -> bool {
    forall|t: int|
        0 <= t < p.len() ==> p[t] == (if t % 3 == 0 {
            r
        } else if t % 3 == 1 {
            g
        } else {
            b
        })
}

/// The channel byte of a uniform image at flat position `t`.
pub open spec fn uniform_byte(r: u8, g: u8, b: u8, t: int) -> u8 {
    if t % 3 == 0 {
        r
    } else if t % 3 == 1 {
        g
    } else {
        b
    }
}

/// On a uniform image, a DC row partial is the row length times the
/// channel's linear value (the DC basis is constantly one).
proof fn lemma_row_dot_uniform(
    p: Seq<u8>,
    w: int,
    y: int,
    ch: int,
    cnt: int,
    r: u8,
    g: u8,
    b: u8,
)
    requires
        uniform_image(p, r, g, b),
        1 <= w,
        0 <= y,
        0 <= ch < 3,
        0 <= cnt <= w,
        3 * (y * w + w) <= p.len(),
    ensures
        row_dot(p, w, y, 0, ch, cnt) == cnt * (srgb_to_linear_spec(
            uniform_byte(r, g, b, ch) as int,
        ) * 32768),
    decreases cnt,
{
    let lv = srgb_to_linear_spec(uniform_byte(r, g, b, ch) as int);
    if cnt <= 0 {
        vstd::arithmetic::mul::lemma_mul_basics(lv * 32768);
        vstd::arithmetic::mul::lemma_mul_by_zero_is_zero(lv * 32768);
    } else {
        lemma_row_dot_uniform(p, w, y, ch, cnt - 1, r, g, b);
        let x = cnt - 1;
        assert(0 <= 3 * (y * w + x) + ch < p.len()) by (nonlinear_arith)
            requires
                0 <= y,
                0 <= x < w,
                0 <= ch < 3,
                3 * (y * w + w) <= p.len(),
        ;
        let pos = 3 * (y * w + x) + ch;
        vstd::arithmetic::div_mod::lemma_fundamental_div_mod_converse(pos, 3, y * w + x, ch);
        assert(p[pos] == uniform_byte(r, g, b, ch));
        crate::trig::lemma_cos_zero(w);
        vstd::arithmetic::mul::lemma_mul_by_zero_is_zero(x);
        assert(px_lin(p, w, x, y, ch) == lv);
        assert((cnt - 1) * (lv * 32768) + lv * 32768 == cnt * (lv * 32768)) by (nonlinear_arith);
    }
}

/// On a uniform image, the DC coefficient is exactly the channel's
/// linear value: the DCT average of a constant is that constant.
pub proof fn lemma_comp_fx_uniform(p: Seq<u8>, w: int, h: int, ch: int, r: u8, g: u8, b: u8)
    requires
        uniform_image(p, r, g, b),
        1 <= w <= 10000,
        1 <= h <= 10000,
        0 <= ch < 3,
        p.len() == 3 * (w * h),
    ensures
        comp_fx(p, w, h, 0, 0, ch) == srgb_to_linear_spec(uniform_byte(r, g, b, ch) as int),
{
    let lv = srgb_to_linear_spec(uniform_byte(r, g, b, ch) as int);
    let rowv = w * (lv * 32768);
    assert forall|cnt: int| 0 <= cnt <= h implies comp_raw(p, w, h, 0, 0, ch, cnt) == cnt * (rowv
        * 32768) by {
        lemma_comp_raw_uniform(p, w, h, ch, cnt, r, g, b);
    }
    assert(comp_raw(p, w, h, 0, 0, ch, h) == h * (rowv * 32768));
    crate::color::lemma_srgb_to_linear_range(uniform_byte(r, g, b, ch) as int);
    assert(1 * (h * ((w * (lv * 32768)) * 32768)) == (1073741824 * w * h) * lv)
        by (nonlinear_arith);
    assert((1073741824 * w * h) >= 1) by (nonlinear_arith)
        requires
            1 <= w,
            1 <= h,
    ;
    vstd::arithmetic::mul::lemma_mul_nonnegative(1073741824 * w * h, lv);
    vstd::arithmetic::div_mod::lemma_div_multiples_vanish(lv, 1073741824 * w * h);
}

/// Helper for [`lemma_comp_fx_uniform`]: the full DC sum over the first
/// `cnt` rows.
proof fn lemma_comp_raw_uniform(
    p: Seq<u8>,
    w: int,
    h: int,
    ch: int,
    cnt: int,
    r: u8,
    g: u8,
    b: u8,
)
    requires
        uniform_image(p, r, g, b),
        1 <= w <= 10000,
        1 <= h <= 10000,
        0 <= ch < 3,
        0 <= cnt <= h,
        p.len() == 3 * (w * h),
    ensures
        comp_raw(p, w, h, 0, 0, ch, cnt) == cnt * ((w * (srgb_to_linear_spec(
            uniform_byte(r, g, b, ch) as int,
        ) * 32768)) * 32768),
    decreases cnt,
{
    let lv = srgb_to_linear_spec(uniform_byte(r, g, b, ch) as int);
    let rowv = w * (lv * 32768);
    if cnt <= 0 {
        vstd::arithmetic::mul::lemma_mul_basics(rowv * 32768);
        vstd::arithmetic::mul::lemma_mul_by_zero_is_zero(rowv * 32768);
    } else {
        lemma_comp_raw_uniform(p, w, h, ch, cnt - 1, r, g, b);
        let y = cnt - 1;
        assert(3 * (y * w + w) <= p.len()) by (nonlinear_arith)
            requires
                0 <= y < h,
                1 <= w,
                p.len() == 3 * (w * h),
        ;
        lemma_row_dot_uniform(p, w, y, ch, w, r, g, b);
        crate::trig::lemma_cos_zero(h);
        vstd::arithmetic::mul::lemma_mul_by_zero_is_zero(y);
        assert(row_dot(p, w, y, 0, ch, w) == w * (lv * 32768));
        assert((cnt - 1) * (rowv * 32768) + rowv * 32768 == cnt * (rowv * 32768))
            by (nonlinear_arith);
    }
}

/// Round-trip determinism: the encoded hash is a pure function of the
/// image, its dimensions and the component counts, so encoding the same
/// input twice yields the same string.
pub proof fn lemma_encode_deterministic(
    p: Seq<u8>,
    w: int,
    h: int,
    cx: int,
    cy: int,
    s1: Seq<char>,
    s2: Seq<char>,
)
    requires
        s1 == encoded_hash(p, w, h, cx, cy),
        s2 == encoded_hash(p, w, h, cx, cy),
    ensures
        s1 == s2,
{
}

/// The AC digit block for `cnt` components is two characters per AC
/// component.
pub proof fn lemma_ac_digits_len(p: Seq<u8>, w: int, h: int, cx: int, qm: int, cnt: int)
    requires
        cnt >= 1,
    ensures
        ac_digits(p, w, h, cx, qm, cnt).len() == 2 * (cnt - 1),
    decreases cnt,
{
    if cnt > 1 {
        lemma_ac_digits_len(p, w, h, cx, qm, cnt - 1);
        base83::lemma_encode_digits_len(ac_pair(p, w, h, cx, qm, cnt - 1), 2);
    }
}

/// Each AC component's two digits sit at their positional offset inside
/// the AC block.
pub proof fn lemma_ac_digits_index(
    p: Seq<u8>,
    w: int,
    h: int,
    cx: int,
    qm: int,
    cnt: int,
    k: int,
    t: int,
)
    requires
        1 <= k < cnt,
        0 <= t < 2,
    ensures
        ac_digits(p, w, h, cx, qm, cnt)[2 * (k - 1) + t] == encode_digits(
            ac_pair(p, w, h, cx, qm, k),
            2,
        )[t],
    decreases cnt,
{
    lemma_ac_digits_len(p, w, h, cx, qm, cnt - 1);
    base83::lemma_encode_digits_len(ac_pair(p, w, h, cx, qm, cnt - 1), 2);
    if k < cnt - 1 {
        lemma_ac_digits_index(p, w, h, cx, qm, cnt - 1, k, t);
        lemma_ac_digits_len(p, w, h, cx, qm, cnt);
    }
}

/// Parsing an encoded hash recovers exactly the fields that were
/// serialized: size flag, quantization digit, DC value and every AC
/// pair.
pub proof fn lemma_encoded_hash_fields(p: Seq<u8>, w: int, h: int, cx: int, cy: int)
    requires
        1 <= cx <= 9,
        1 <= cy <= 9,
    ensures
        crate::decode_impl::size_x_of(encoded_hash(p, w, h, cx, cy)) == cx,
        crate::decode_impl::size_y_of(encoded_hash(p, w, h, cx, cy)) == cy,
        crate::decode_impl::hash_len_of(encoded_hash(p, w, h, cx, cy)) == 4 + 2 * (cx * cy),
        crate::decode_impl::quant_max_of(encoded_hash(p, w, h, cx, cy)) == quant_max_of_image(
            p,
            w,
            h,
            cx,
            cy,
        ),
        crate::decode_impl::dc_value_of(encoded_hash(p, w, h, cx, cy)) == dc_value_spec(p, w, h),
        forall|k: int|
            1 <= k < cx * cy ==> #[trigger] crate::decode_impl::ac_value_of(
                encoded_hash(p, w, h, cx, cy),
                k,
            ) == ac_pair(p, w, h, cx, quant_max_of_image(p, w, h, cx, cy), k),
{
    let s = encoded_hash(p, w, h, cx, cy);
    let qm = quant_max_of_image(p, w, h, cx, cy);
    let flag = (cx - 1) + (cy - 1) * 9;
    let da = encode_digits(flag, 1);
    let db = encode_digits(qm, 1);
    let dc_ = encode_digits(dc_value_spec(p, w, h), 4);
    let dd = ac_digits(p, w, h, cx, qm, cx * cy);
    base83::lemma_encode_digits_len(flag, 1);
    base83::lemma_encode_digits_len(qm, 1);
    base83::lemma_encode_digits_len(dc_value_spec(p, w, h), 4);
    assert(1 <= cx * cy <= 81) by (nonlinear_arith)
        requires
            1 <= cx <= 9,
            1 <= cy <= 9,
    ;
    lemma_ac_digits_len(p, w, h, cx, qm, cx * cy);
    lemma_quant_max_range(max_ac_to(p, w, h, cx, 3 * (cx * cy)));
    lemma_dc_value_range(p, w, h);
    assert(base83::pow83(0) == 1 && base83::pow83(1) == 83 && base83::pow83(2) == 6889
        && base83::pow83(4) == 47458321) by {
        reveal_with_fuel(vstd::arithmetic::power::pow, 5);
    }
    // Single digits encode themselves.
    base83::lemma_encode_digits_index(flag, 1, 0);
    vstd::arithmetic::div_mod::lemma_div_basics_1(flag);
    vstd::arithmetic::div_mod::lemma_small_mod(flag as nat, 83);
    base83::lemma_digit_char_value(flag);
    assert(s[0] == da[0]);
    assert(base83::char_value(s[0]) == flag);
    vstd::arithmetic::div_mod::lemma_fundamental_div_mod_converse(flag, 9, cy - 1, cx - 1);
    base83::lemma_encode_digits_index(qm, 1, 0);
    vstd::arithmetic::div_mod::lemma_div_basics_1(qm);
    vstd::arithmetic::div_mod::lemma_small_mod(qm as nat, 83);
    base83::lemma_digit_char_value(qm);
    assert(s[1] == db[0]);
    // The DC digits occupy positions 2..6.
    assert(s.subrange(2, 6) =~= dc_) by {
        assert(forall|t: int| 0 <= t < 4 ==> s.subrange(2, 6)[t] == s[2 + t]);
        assert(forall|t: int| 0 <= t < 4 ==> s[2 + t] == dc_[t]);
    }
    base83::lemma_encode_value(dc_value_spec(p, w, h), 4);
    // Each AC pair occupies positions 4 + 2k .. 6 + 2k.
    assert forall|k: int| 1 <= k < cx * cy implies #[trigger] crate::decode_impl::ac_value_of(
        s,
        k,
    ) == ac_pair(p, w, h, cx, qm, k) by {
        lemma_ac_pair_range(p, w, h, cx, qm, k);
        assert(s.subrange(4 + 2 * k, 6 + 2 * k) =~= encode_digits(ac_pair(p, w, h, cx, qm, k), 2))
            by {
            base83::lemma_encode_digits_len(ac_pair(p, w, h, cx, qm, k), 2);
            assert forall|t: int| 0 <= t < 2 implies s.subrange(4 + 2 * k, 6 + 2 * k)[t]
                == encode_digits(ac_pair(p, w, h, cx, qm, k), 2)[t] by {
                assert(s.subrange(4 + 2 * k, 6 + 2 * k)[t] == s[4 + 2 * k + t]);
                assert(s[4 + 2 * k + t] == dd[4 + 2 * k + t - 6]);
                lemma_ac_digits_index(p, w, h, cx, qm, cx * cy, k, t);
                assert(4 + 2 * k + t - 6 == 2 * (k - 1) + t);
            }
        }
        base83::lemma_encode_value(ac_pair(p, w, h, cx, qm, k), 2);
    }
}

/// DC-only fidelity: a uniform image encoded with a single component and
/// decoded at any size gives, at every output pixel, the original color
/// carried twice through the exact linear-light round trip.
pub proof fn lemma_dc_only_fidelity(
    p: Seq<u8>,
    w: int,
    h: int,
    r: u8,
    g: u8,
    b: u8,
    punch: int,
    ow: int,
    oh: int,
    idx: int,
)
    requires
        uniform_image(p, r, g, b),
        1 <= w <= 10000,
        1 <= h <= 10000,
        p.len() == 3 * (w * h),
        1 <= ow,
        1 <= oh,
        0 <= idx < 3 * ow * oh,
    ensures
        crate::decode_impl::decoded_byte(encoded_hash(p, w, h, 1, 1), punch, ow, oh, idx)
            == linear_to_srgb_spec(
            srgb_to_linear_spec(
                linear_to_srgb_spec(srgb_to_linear_spec(uniform_byte(r, g, b, idx % 3) as int)),
            ),
        ),
{
    let s = encoded_hash(p, w, h, 1, 1);
    let ch = idx % 3;
    lemma_encoded_hash_fields(p, w, h, 1, 1);
    lemma_encoded_hash_len(p, w, h, 1, 1);
    lemma_encoded_hash_alphabet(p, w, h, 1, 1);
    crate::decode_impl::lemma_decode_dc_only(s, punch, ow, oh, idx);
    lemma_comp_fx_uniform(p, w, h, 0, r, g, b);
    lemma_comp_fx_uniform(p, w, h, 1, r, g, b);
    lemma_comp_fx_uniform(p, w, h, 2, r, g, b);
    let va = linear_to_srgb_spec(srgb_to_linear_spec(r as int));
    let vb = linear_to_srgb_spec(srgb_to_linear_spec(g as int));
    let vc = linear_to_srgb_spec(srgb_to_linear_spec(b as int));
    crate::color::lemma_linear_to_srgb_range(srgb_to_linear_spec(r as int));
    crate::color::lemma_linear_to_srgb_range(srgb_to_linear_spec(g as int));
    crate::color::lemma_linear_to_srgb_range(srgb_to_linear_spec(b as int));
    let dc = crate::decode_impl::dc_value_of(s);
    assert(dc == va * 65536 + vb * 256 + vc);
    // Unpack the 24-bit value back into its three bytes.
    vstd::arithmetic::div_mod::lemma_fundamental_div_mod_converse(
        dc,
        65536,
        va,
        vb * 256 + vc,
    );
    vstd::arithmetic::div_mod::lemma_small_mod(va as nat, 256);
    assert((va * 256 + vb) * 256 + vc == dc) by (nonlinear_arith)
        requires
            dc == va * 65536 + vb * 256 + vc,
    ;
    vstd::arithmetic::div_mod::lemma_fundamental_div_mod_converse(dc, 256, va * 256 + vb, vc);
    vstd::arithmetic::div_mod::lemma_fundamental_div_mod_converse_mod(
        va * 256 + vb,
        256,
        va,
        vb,
    );
    vstd::arithmetic::div_mod::lemma_fundamental_div_mod_converse_mod(dc, 256, va * 256 + vb, vc);
    vstd::arithmetic::div_mod::lemma_mod_division_less_than_divisor(idx, 3);
    if ch == 0 {
        assert((dc / 65536) % 256 == va);
    } else if ch == 1 {
        assert((dc / 256) % 256 == vb);
    } else {
        assert(dc % 256 == vc);
    }
}

/// DC-only fidelity, exact form: a uniform image encoded with a single
/// component and decoded at any size reproduces the original bytes
/// exactly, at every pixel and for every contrast multiplier.
pub proof fn lemma_dc_only_exact(
    p: Seq<u8>,
    w: int,
    h: int,
    r: u8,
    g: u8,
    b: u8,
    punch: int,
    ow: int,
    oh: int,
    idx: int,
)
    requires
        uniform_image(p, r, g, b),
        1 <= w <= 10000,
        1 <= h <= 10000,
        p.len() == 3 * (w * h),
        1 <= ow,
        1 <= oh,
        0 <= idx < 3 * ow * oh,
    ensures
        crate::decode_impl::decoded_byte(encoded_hash(p, w, h, 1, 1), punch, ow, oh, idx)
            == uniform_byte(r, g, b, idx % 3),
{
    lemma_dc_only_fidelity(p, w, h, r, g, b, punch, ow, oh, idx);
    let byte = uniform_byte(r, g, b, idx % 3) as int;
    crate::color_roundtrip::lemma_color_roundtrip(byte);
}

/// Quantize one AC coefficient channel.
fn quantize_ac(v: i64, quant_max: u64) -> (q: u64)
    requires
        -220000000000000 <= v <= 220000000000000,
        quant_max <= 82,
    ensures
        q == quantize_ac_spec(v as int, quant_max as int),
        q <= 18,
{
    let b = (quant_max + 1) * 1048576;
    let av: u64 = if v >= 0 {
        v as u64
    } else {
        (-v) as u64
    };
    let a = av * 166;
    proof {
        assert((324 * (a as int)) * (b as int) <= 324 * 36520000000000000int * 87031808int)
            by (nonlinear_arith)
            requires
                0 <= a as int <= 36520000000000000int,
                0 <= b as int <= 87031808int,
        ;
    }
    let n = 324u128 * (a as u128) * (b as u128);
    let r = iroot(n, 2);
    proof {
        // The root of n is bounded by any value whose square exceeds n.
        assert((1029740000000000u128 as int) * (1029740000000000u128 as int)
            > 324 * 36520000000000000int * 87031808int) by (nonlinear_arith);
        if r >= 1029740000000000 {
            crate::roots::lemma_pow_base_le(1029740000000000, r as int, 2);
            assert(vstd::arithmetic::power::pow(1029740000000000, 2)
                == 1029740000000000int * 1029740000000000int) by {
                reveal_with_fuel(vstd::arithmetic::power::pow, 3);
            }
            assert(vstd::arithmetic::power::pow(r as int, 2) == r as int * r as int) by {
                reveal_with_fuel(vstd::arithmetic::power::pow, 3);
            }
            assert(false);
        }
        assert(vstd::arithmetic::power::pow(r as int, 2) == r as int * r as int) by {
            reveal_with_fuel(vstd::arithmetic::power::pow, 3);
        }
        assert(vstd::arithmetic::power::pow(r as int + 1, 2) == (r as int + 1) * (r as int + 1))
            by {
            reveal_with_fuel(vstd::arithmetic::power::pow, 3);
        }
    }
    if v >= 0 {
        let t = r / (b as u128);
        proof {
            vstd::arithmetic::div_mod::lemma_div_is_ordered(r as int, 1029740000000000int, b as int);
        }
        let q = (t as u64 + 19) / 2;
        if q > 18 {
            18
        } else {
            q
        }
    } else {
        let rsq = r * r;
        let rc: u128 = if rsq == n {
            r
        } else {
            r + 1
        };
        let c = (rc + (b as u128) - 1) / (b as u128);
        proof {
            vstd::arithmetic::div_mod::lemma_div_is_ordered(
                rc as int + b as int - 1,
                1029740100000000int + 87031808int,
                b as int,
            );
        }
        if c >= 19 {
            0
        } else {
            ((19 - c) / 2) as u64
        }
    }
}

/// Encode an RGB image (flat, row-major, three bytes per pixel) into a
/// BlurHash string with `components_x * components_y` frequency
/// components.
///
/// On success the string is pinned to the forward-DCT model
/// [`encoded_hash`]: it has length `4 + 2 * components_x * components_y`
/// and consists of alphabet characters only. The errors are exactly:
/// `InvalidDimensions` when a dimension is zero or above 10000;
/// `InvalidComponentCount` when a component count is outside `1..=9`
/// (the x axis checked first); `EncodingError` when the pixel buffer
/// length is not `width * height * 3`.
#[verifier::rlimit(100)]
pub fn encode(
    pixels: &[u8],
    width: u32,
    height: u32,
    components_x: u32,
    components_y: u32,
) -> (r: Result<String, BlurhashError>)
    ensures
        match r {
            Ok(s) => {
                &&& crate::decode_impl::dims_ok(width as int, height as int)
                &&& 1 <= components_x <= 9
                &&& 1 <= components_y <= 9
                &&& pixels@.len() == 3 * width * height
                &&& s@ == encoded_hash(
                    pixels@,
                    width as int,
                    height as int,
                    components_x as int,
                    components_y as int,
                )
                &&& s@.len() == 4 + 2 * (components_x * components_y)
                &&& all_base83(s@)
            },
            Err(e) => match e {
                BlurhashError::InvalidDimensions { width: ww, height: hh, .. } => {
                    &&& ww == width
                    &&& hh == height
                    &&& !crate::decode_impl::dims_ok(width as int, height as int)
                },
                BlurhashError::InvalidComponentCount { component, value } => {
                    &&& crate::decode_impl::dims_ok(width as int, height as int)
                    &&& (!(1 <= components_x <= 9) && value == components_x || (1
                        <= components_x <= 9) && !(1 <= components_y <= 9) && value
                        == components_y)
                },
                BlurhashError::EncodingError(_) => {
                    &&& crate::decode_impl::dims_ok(width as int, height as int)
                    &&& 1 <= components_x <= 9
                    &&& 1 <= components_y <= 9
                    &&& pixels@.len() != 3 * width * height
                },
                _ => false,
            },
        },
{
    let ghost p = pixels@;
    if width == 0 || height == 0 {
        return Err(BlurhashError::InvalidDimensions {
            width,
            height,
            reason: "width and height must be > 0",
        });
    }
    if width > 10000 || height > 10000 {
        return Err(BlurhashError::InvalidDimensions {
            width,
            height,
            reason: "dimensions must be <= 10000",
        });
    }
    if components_x < 1 || components_x > 9 {
        return Err(BlurhashError::InvalidComponentCount { component: "x", value: components_x });
    }
    if components_y < 1 || components_y > 9 {
        return Err(BlurhashError::InvalidComponentCount { component: "y", value: components_y });
    }
    let w = width as usize;
    let h = height as usize;
    let cx = components_x as usize;
    let cy = components_y as usize;
    proof {
        assert(1 <= w * h <= 100000000) by (nonlinear_arith)
            requires
                1 <= w <= 10000,
                1 <= h <= 10000,
        ;
        assert(1 <= cx * cy <= 81) by (nonlinear_arith)
            requires
                1 <= cx <= 9,
                1 <= cy <= 9,
        ;
    }
    let wh = w * h;
    let num_comp = cx * cy;
    let expected_len = 3 * wh;
    if pixels.len() != expected_len {
        proof {
            reveal_strlit("pixel buffer length does not match dimensions");
            assert(3 * (w * h) == 3 * width * height) by (nonlinear_arith)
                requires
                    w == width as int,
                    h == height as int,
            ;
        }
        return Err(BlurhashError::EncodingError(String::from_str(
            "pixel buffer length does not match dimensions",
        )));
    }
    proof {
        assert(3 * (w * h) == 3 * width * height) by (nonlinear_arith)
            requires
                w == width as int,
                h == height as int,
        ;
    }
    // Convert every sample to fixed-point linear light.
    let mut lin: Vec<u32> = Vec::new();
    let mut m: usize = 0;
    while m < expected_len
        invariant
            0 <= m <= expected_len,
            pixels@ == p,
            p.len() == expected_len,
            lin@.len() == m,
            forall|t: int|
                0 <= t < m ==> #[trigger] lin@[t] == srgb_to_linear_spec(p[t] as int) && lin@[t]
                    <= 1048576,
        decreases expected_len - m,
    {
        let lv = srgb_to_linear(pixels[m]);
        lin.push(lv);
        m = m + 1;
    }
    let cos_x = build_cos_table(cx, w);
    let cos_y = build_cos_table(cy, h);
    // Pass 1: per image row y and horizontal component i, dot the row's
    // linear samples with the basis. Flat layout: (y*cx + i)*3 + ch.
    let mut rp: Vec<i64> = Vec::new();
    let mut rb: usize = 0;
    let mut y: usize = 0;
    while y < h
        invariant
            0 <= y <= h,
            rb == y * w,
            pixels@ == p,
            p.len() == 3 * (w * h),
            lin@.len() == 3 * (w * h),
            forall|t: int|
                0 <= t < lin@.len() ==> #[trigger] lin@[t] == srgb_to_linear_spec(p[t] as int)
                    && lin@[t] <= 1048576,
            1 <= w <= 10000,
            1 <= h <= 10000,
            1 <= cx <= 9,
            cos_table_ok(cos_x@, w as int),
            cos_x@.len() == cx * w,
            rp@.len() == 3 * (y * cx),
            forall|t: int|
                0 <= t < rp@.len() ==> #[trigger] rp@[t] == row_dot(
                    p,
                    w as int,
                    (t / 3) / (cx as int),
                    (t / 3) % (cx as int),
                    t % 3,
                    w as int,
                ) && -350000000000000 <= rp@[t] <= 350000000000000,
        decreases h - y,
    {
        let mut i: usize = 0;
        while i < cx
            invariant
                0 <= i <= cx,
                0 <= y < h,
                rb == y * w,
                pixels@ == p,
                p.len() == 3 * (w * h),
                lin@.len() == 3 * (w * h),
                forall|t: int|
                    0 <= t < lin@.len() ==> #[trigger] lin@[t] == srgb_to_linear_spec(p[t] as int)
                        && lin@[t] <= 1048576,
                1 <= w <= 10000,
                1 <= h <= 10000,
                1 <= cx <= 9,
                cos_table_ok(cos_x@, w as int),
                cos_x@.len() == cx * w,
                rp@.len() == 3 * (y * cx + i),
                forall|t: int|
                    0 <= t < rp@.len() ==> #[trigger] rp@[t] == row_dot(
                        p,
                        w as int,
                        (t / 3) / (cx as int),
                        (t / 3) % (cx as int),
                        t % 3,
                        w as int,
                    ) && -350000000000000 <= rp@[t] <= 350000000000000,
            decreases cx - i,
        {
            let mut ch: usize = 0;
            while ch < 3
                invariant
                    0 <= ch <= 3,
                    0 <= i < cx,
                    0 <= y < h,
                    rb == y * w,
                    pixels@ == p,
                    p.len() == 3 * (w * h),
                    lin@.len() == 3 * (w * h),
                    forall|t: int|
                        0 <= t < lin@.len() ==> #[trigger] lin@[t] == srgb_to_linear_spec(
                            p[t] as int,
                        ) && lin@[t] <= 1048576,
                    1 <= w <= 10000,
                    1 <= h <= 10000,
                    1 <= cx <= 9,
                    cos_table_ok(cos_x@, w as int),
                    cos_x@.len() == cx * w,
                    rp@.len() == 3 * (y * cx + i) + ch,
                    forall|t: int|
                        0 <= t < rp@.len() ==> #[trigger] rp@[t] == row_dot(
                            p,
                            w as int,
                            (t / 3) / (cx as int),
                            (t / 3) % (cx as int),
                            t % 3,
                            w as int,
                        ) && -350000000000000 <= rp@[t] <= 350000000000000,
                decreases 3 - ch,
            {
                proof {
                    vstd::arithmetic::mul::lemma_mul_basics(34359738368int);
                    vstd::arithmetic::mul::lemma_mul_basics(-34359738368int);
                }
                let mut acc: i64 = 0;
                let mut x: usize = 0;
                while x < w
                    invariant
                        0 <= x <= w,
                        0 <= ch < 3,
                        0 <= i < cx,
                        0 <= y < h,
                        rb == y * w,
                        pixels@ == p,
                        p.len() == 3 * (w * h),
                        lin@.len() == 3 * (w * h),
                        forall|t: int|
                            0 <= t < lin@.len() ==> #[trigger] lin@[t] == srgb_to_linear_spec(
                                p[t] as int,
                            ) && lin@[t] <= 1048576,
                        1 <= w <= 10000,
                        1 <= h <= 10000,
                        1 <= cx <= 9,
                        cos_table_ok(cos_x@, w as int),
                        cos_x@.len() == cx * w,
                        acc == row_dot(p, w as int, y as int, i as int, ch as int, x as int),
                        (-34359738368) * x <= acc <= 34359738368 * x,
                    decreases w - x,
                {
                    proof {
                        assert(y * w + x < w * h && w * h <= 100000000) by (nonlinear_arith)
                            requires
                                0 <= y < h <= 10000,
                                0 <= x < w <= 10000,
                        ;
                        assert(i * w + x < cx * w) by (nonlinear_arith)
                            requires
                                0 <= i < cx,
                                0 <= x < w,
                        ;
                    }
                    let lv = lin[3 * (rb + x) + ch];
                    let cv = lookup_cos(&cos_x, w, i, x);
                    proof {
                        assert(-34359738368 <= lv as int * cv as int <= 34359738368)
                            by (nonlinear_arith)
                            requires
                                0 <= lv as int <= 1048576,
                                -32768 <= cv as int <= 32768,
                        ;
                        crate::roots::lemma_mul_step_bound(34359738368int, x as int, 10000);
                        assert(34359738368int * 10000 == 343597383680000int);
                    }
                    acc = acc + (lv as i64) * cv;
                    x = x + 1;
                }
                rp.push(acc);
                proof {
                    let t = 3 * (y as int * cx + i as int) + ch as int;
                    vstd::arithmetic::div_mod::lemma_fundamental_div_mod_converse(
                        t,
                        3,
                        y as int * cx + i as int,
                        ch as int,
                    );
                    vstd::arithmetic::div_mod::lemma_fundamental_div_mod_converse(
                        y as int * cx + i as int,
                        cx as int,
                        y as int,
                        i as int,
                    );
                    vstd::arithmetic::mul::lemma_mul_left_inequality(34359738368int, w as int, 10000);
                    vstd::arithmetic::mul::lemma_mul_unary_negation(34359738368int, w as int);
                    vstd::arithmetic::mul::lemma_mul_unary_negation(34359738368int, 10000);
                    assert(34359738368int * 10000 == 343597383680000int);
                    assert(rp@[t] == row_dot(p, w as int, y as int, i as int, ch as int, w as int));
                }
                ch = ch + 1;
            }
            i = i + 1;
        }
        proof {
            assert((y + 1) * w == y * w + w && (y + 1) * w <= 100000000 && (y + 1) * cx == y * cx
                + cx) by (nonlinear_arith)
                requires
                    0 <= y < h <= 10000,
                    1 <= w <= 10000,
                    1 <= cx <= 9,
            ;
        }
        y = y + 1;
        rb = rb + w;
    }
    // Pass 2: per component (i, j), dot the row partials with the
    // vertical basis and rescale. Flat layout: (j*cx + i)*3 + ch.
    let mut comps: Vec<i64> = Vec::new();
    let mut j: usize = 0;
    while j < cy
        invariant
            0 <= j <= cy,
            1 <= w <= 10000,
            1 <= h <= 10000,
            1 <= cx <= 9,
            1 <= cy <= 9,
            rp@.len() == 3 * (h * cx),
            forall|t: int|
                0 <= t < rp@.len() ==> #[trigger] rp@[t] == row_dot(
                    p,
                    w as int,
                    (t / 3) / (cx as int),
                    (t / 3) % (cx as int),
                    t % 3,
                    w as int,
                ) && -350000000000000 <= rp@[t] <= 350000000000000,
            cos_table_ok(cos_y@, h as int),
            cos_y@.len() == cy * h,
            comps@.len() == 3 * (j * cx),
            forall|t: int|
                0 <= t < comps@.len() ==> #[trigger] comps@[t] == comp_at(
                    p,
                    w as int,
                    h as int,
                    cx as int,
                    t,
                ) && -220000000000000 <= comps@[t] <= 220000000000000,
        decreases cy - j,
    {
        let mut i: usize = 0;
        while i < cx
            invariant
                0 <= i <= cx,
                0 <= j < cy,
                1 <= w <= 10000,
                1 <= h <= 10000,
                1 <= cx <= 9,
                1 <= cy <= 9,
                rp@.len() == 3 * (h * cx),
                forall|t: int|
                    0 <= t < rp@.len() ==> #[trigger] rp@[t] == row_dot(
                        p,
                        w as int,
                        (t / 3) / (cx as int),
                        (t / 3) % (cx as int),
                        t % 3,
                        w as int,
                    ) && -350000000000000 <= rp@[t] <= 350000000000000,
                cos_table_ok(cos_y@, h as int),
                cos_y@.len() == cy * h,
                comps@.len() == 3 * (j * cx + i),
                forall|t: int|
                    0 <= t < comps@.len() ==> #[trigger] comps@[t] == comp_at(
                        p,
                        w as int,
                        h as int,
                        cx as int,
                        t,
                    ) && -220000000000000 <= comps@[t] <= 220000000000000,
            decreases cx - i,
        {
            let mut ch: usize = 0;
            while ch < 3
                invariant
                    0 <= ch <= 3,
                    0 <= i < cx,
                    0 <= j < cy,
                    1 <= w <= 10000,
                    1 <= h <= 10000,
                    1 <= cx <= 9,
                    1 <= cy <= 9,
                    rp@.len() == 3 * (h * cx),
                    forall|t: int|
                        0 <= t < rp@.len() ==> #[trigger] rp@[t] == row_dot(
                            p,
                            w as int,
                            (t / 3) / (cx as int),
                            (t / 3) % (cx as int),
                            t % 3,
                            w as int,
                        ) && -350000000000000 <= rp@[t] <= 350000000000000,
                    cos_table_ok(cos_y@, h as int),
                    cos_y@.len() == cy * h,
                    comps@.len() == 3 * (j * cx + i) + ch,
                    forall|t: int|
                        0 <= t < comps@.len() ==> #[trigger] comps@[t] == comp_at(
                            p,
                            w as int,
                            h as int,
                            cx as int,
                            t,
                        ) && -220000000000000 <= comps@[t] <= 220000000000000,
                decreases 3 - ch,
            {
                proof {
                    vstd::arithmetic::mul::lemma_mul_basics(11468800000000000000int);
                    vstd::arithmetic::mul::lemma_mul_basics(-11468800000000000000int);
                }
                let mut sum: i128 = 0;
                let mut yy: usize = 0;
                while yy < h
                    invariant
                        0 <= yy <= h,
                        0 <= ch < 3,
                        0 <= i < cx,
                        0 <= j < cy,
                        1 <= w <= 10000,
                        1 <= h <= 10000,
                        1 <= cx <= 9,
                        1 <= cy <= 9,
                        rp@.len() == 3 * (h * cx),
                        forall|t: int|
                            0 <= t < rp@.len() ==> #[trigger] rp@[t] == row_dot(
                                p,
                                w as int,
                                (t / 3) / (cx as int),
                                (t / 3) % (cx as int),
                                t % 3,
                                w as int,
                            ) && -350000000000000 <= rp@[t] <= 350000000000000,
                        cos_table_ok(cos_y@, h as int),
                        cos_y@.len() == cy * h,
                        sum == comp_raw(
                            p,
                            w as int,
                            h as int,
                            i as int,
                            j as int,
                            ch as int,
                            yy as int,
                        ),
                        (-11468800000000000000) * yy <= sum <= 11468800000000000000 * yy,
                    decreases h - yy,
                {
                    proof {
                        assert(yy * cx + i < h * cx && h * cx <= 90000) by (nonlinear_arith)
                            requires
                                0 <= yy < h <= 10000,
                                0 <= i < cx <= 9,
                        ;
                        assert(j * h + yy < cy * h) by (nonlinear_arith)
                            requires
                                0 <= j < cy,
                                0 <= yy < h,
                        ;
                    }
                    let rv = rp[3 * (yy * cx + i) + ch];
                    let cv = lookup_cos(&cos_y, h, j, yy);
                    proof {
                        let t = 3 * (yy as int * cx + i as int) + ch as int;
                        vstd::arithmetic::div_mod::lemma_fundamental_div_mod_converse(
                            t,
                            3,
                            yy as int * cx + i as int,
                            ch as int,
                        );
                        vstd::arithmetic::div_mod::lemma_fundamental_div_mod_converse(
                            yy as int * cx + i as int,
                            cx as int,
                            yy as int,
                            i as int,
                        );
                        assert(rv == row_dot(p, w as int, yy as int, i as int, ch as int, w as int));
                        assert(-11468800000000000000 <= rv as int * cv as int
                            <= 11468800000000000000) by (nonlinear_arith)
                            requires
                                -350000000000000 <= rv as int <= 350000000000000,
                                -32768 <= cv as int <= 32768,
                        ;
                        crate::roots::lemma_mul_step_bound(
                            11468800000000000000int,
                            yy as int,
                            10000,
                        );
                        assert(11468800000000000000int * 10000 == 114688000000000000000000int);
                    }
                    sum = sum + (rv as i128) * (cv as i128);
                    yy = yy + 1;
                }
                proof {
                    vstd::arithmetic::mul::lemma_mul_left_inequality(
                        11468800000000000000int,
                        h as int,
                        10000,
                    );
                    vstd::arithmetic::mul::lemma_mul_unary_negation(
                        11468800000000000000int,
                        h as int,
                    );
                    vstd::arithmetic::mul::lemma_mul_unary_negation(11468800000000000000int, 10000);
                    assert(11468800000000000000int * 10000 == 114688000000000000000000int);
                }
                let num: i128 = if i == 0 && j == 0 {
                    proof {
                        vstd::arithmetic::mul::lemma_mul_basics(comp_raw(
                            p,
                            w as int,
                            h as int,
                            i as int,
                            j as int,
                            ch as int,
                            h as int,
                        ));
                    }
                    sum
                } else {
                    2 * sum
                };
                proof {
                    assert((1073741824 * (w as int)) * (h as int) <= 107374182400000000int)
                        by (nonlinear_arith)
                        requires
                            1 <= w <= 10000,
                            1 <= h <= 10000,
                    ;
                    assert((1073741824 * (w as int)) * (h as int) >= 1073741824)
                        by (nonlinear_arith)
                        requires
                            1 <= w,
                            1 <= h,
                    ;
                }
                let divisor: u64 = 1073741824 * (w as u64) * (h as u64);
                let c128 = div_trunc(num, divisor);
                proof {
                    vstd::arithmetic::div_mod::lemma_div_is_ordered_by_denominator(
                        abs(num as int) as int,
                        1073741824,
                        divisor as int,
                    );
                    vstd::arithmetic::div_mod::lemma_div_is_ordered(
                        abs(num as int) as int,
                        229376000000000000000000int,
                        1073741824,
                    );
                    assert(229376000000000000000000int / 1073741824 == 213623046875000int);
                }
                comps.push(c128 as i64);
                proof {
                    let t = 3 * (j as int * cx + i as int) + ch as int;
                    vstd::arithmetic::div_mod::lemma_fundamental_div_mod_converse(
                        t,
                        3,
                        j as int * cx + i as int,
                        ch as int,
                    );
                    vstd::arithmetic::div_mod::lemma_fundamental_div_mod_converse(
                        j as int * cx + i as int,
                        cx as int,
                        j as int,
                        i as int,
                    );
                    assert(comps@[t] == comp_at(p, w as int, h as int, cx as int, t));
                }
                ch = ch + 1;
            }
            i = i + 1;
        }
        j = j + 1;
        proof {
            assert((j - 1) * cx + cx == j * cx) by (nonlinear_arith);
        }
    }
    // Quantize: DC bytes, maximum AC magnitude, then the AC pairs.
    proof {
        assert(comps@.len() == 3 * num_comp) by (nonlinear_arith)
            requires
                comps@.len() == 3 * (cy * cx),
                num_comp == cx * cy,
        ;
        vstd::arithmetic::div_mod::lemma_fundamental_div_mod_converse(0, 3, 0, 0);
        vstd::arithmetic::div_mod::lemma_fundamental_div_mod_converse(1, 3, 0, 1);
        vstd::arithmetic::div_mod::lemma_fundamental_div_mod_converse(2, 3, 0, 2);
        vstd::arithmetic::div_mod::lemma_small_mod(0nat, cx as nat);
        vstd::arithmetic::div_mod::lemma_div_of0(cx as int);
        vstd::arithmetic::div_mod::lemma_basic_div(0, cx as int);
    }
    let dc_r = linear_to_srgb(comps[0]);
    let dc_g = linear_to_srgb(comps[1]);
    let dc_b = linear_to_srgb(comps[2]);
    let dc_value: u64 = (dc_r as u64) * 65536 + (dc_g as u64) * 256 + (dc_b as u64);
    let mut mx: i64 = 0;
    let mut t: usize = 3;
    while t < 3 * num_comp
        invariant
            3 <= t <= 3 * num_comp,
            num_comp >= 1,
            num_comp == cx * cy,
            num_comp <= 81,
            comps@.len() == 3 * num_comp,
            forall|t2: int|
                0 <= t2 < comps@.len() ==> #[trigger] comps@[t2] == comp_at(
                    p,
                    w as int,
                    h as int,
                    cx as int,
                    t2,
                ) && -220000000000000 <= comps@[t2] <= 220000000000000,
            0 <= mx <= 220000000000000,
            mx == max_ac_to(p, w as int, h as int, cx as int, t as int),
        decreases 3 * num_comp - t,
    {
        let v = comps[t];
        let av: i64 = if v >= 0 {
            v
        } else {
            -v
        };
        if av > mx {
            mx = av;
        }
        t = t + 1;
    }
    let mxu = mx as u64;
    let quant_max: u64 = if 332 * mxu < 1048576 {
        0
    } else {
        let q = (332 * mxu - 1048576) / 2097152;
        if q > 82 {
            82
        } else {
            q
        }
    };
    proof {
        if !(332 * mxu < 1048576) {
            vstd::arithmetic::div_mod::lemma_div_is_ordered(
                332 * mxu as int - 1048576,
                73040000000000000int,
                2097152,
            );
        }
        assert(quant_max == quant_max_of_image(p, w as int, h as int, cx as int, cy as int));
    }
    // Serialize.
    let hash_len = 4 + 2 * num_comp;
    let mut buf: Vec<u8> = vec![0u8; hash_len];
    let size_flag = (components_x - 1) + (components_y - 1) * 9;
    proof {
        assert(base83::pow83(1) == 83 && base83::pow83(2) == 6889 && base83::pow83(4) == 47458321)
            by {
            reveal_with_fuel(vstd::arithmetic::power::pow, 5);
        }
    }
    encode_to_buf(size_flag as u64, 1, &mut buf, 0);
    encode_to_buf(quant_max, 1, &mut buf, 1);
    encode_to_buf(dc_value, 4, &mut buf, 2);
    proof {
        assert(dc_value == dc_value_spec(p, w as int, h as int));
    }
    let mut k: usize = 1;
    while k < num_comp
        invariant
            1 <= k <= num_comp,
            num_comp == cx * cy,
            num_comp <= 81,
            1 <= cx <= 9,
            hash_len == 4 + 2 * num_comp,
            quant_max <= 82,
            quant_max == quant_max_of_image(p, w as int, h as int, cx as int, cy as int),
            dc_value <= 16777215,
            dc_value == dc_value_spec(p, w as int, h as int),
            size_flag <= 80,
            comps@.len() == 3 * num_comp,
            forall|t2: int|
                0 <= t2 < comps@.len() ==> #[trigger] comps@[t2] == comp_at(
                    p,
                    w as int,
                    h as int,
                    cx as int,
                    t2,
                ) && -220000000000000 <= comps@[t2] <= 220000000000000,
            buf@.len() == hash_len,
            buf@[0] == base83::digit_byte(encode_digit_at(size_flag as int, 1, 0)),
            buf@[1] == base83::digit_byte(encode_digit_at(quant_max as int, 1, 0)),
            forall|t2: int|
                0 <= t2 < 4 ==> #[trigger] buf@[2 + t2] == base83::digit_byte(
                    encode_digit_at(dc_value as int, 4, t2),
                ),
            forall|kk: int|
                1 <= kk < k ==> 0 <= #[trigger] ac_pair(
                    p,
                    w as int,
                    h as int,
                    cx as int,
                    quant_max as int,
                    kk,
                ) <= 6888,
            forall|kk: int, t2: int|
                1 <= kk < k && 0 <= t2 < 2 ==> #[trigger] buf@[4 + 2 * kk + t2]
                    == base83::digit_byte(
                    encode_digit_at(
                        ac_pair(
                            p,
                            w as int,
                            h as int,
                            cx as int,
                            quant_max as int,
                            kk,
                        ),
                        2,
                        t2,
                    ),
                ),
        decreases num_comp - k,
    {
        proof {
            assert(base83::pow83(2) == 6889) by {
                reveal_with_fuel(vstd::arithmetic::power::pow, 5);
            }
        }
        let qr = quantize_ac(comps[3 * k], quant_max);
        let qg = quantize_ac(comps[3 * k + 1], quant_max);
        let qb = quantize_ac(comps[3 * k + 2], quant_max);
        let pair: u64 = qr * 361 + qg * 19 + qb;
        proof {
            let kk = k as int;
            vstd::arithmetic::div_mod::lemma_fundamental_div_mod_converse(3 * kk, 3, kk, 0);
            vstd::arithmetic::div_mod::lemma_fundamental_div_mod_converse(3 * kk + 1, 3, kk, 1);
            vstd::arithmetic::div_mod::lemma_fundamental_div_mod_converse(3 * kk + 2, 3, kk, 2);
            assert(pair == ac_pair(p, w as int, h as int, cx as int, quant_max as int, kk));
        }
        encode_to_buf(pair, 2, &mut buf, 4 + 2 * k);
        k = k + 1;
    }
    let ghost qmg = quant_max_of_image(p, w as int, h as int, cx as int, cy as int);
    let ghost hash = encoded_hash(p, w as int, h as int, cx as int, cy as int);
    proof {
        base83::lemma_encode_digits_len(size_flag as int, 1);
        base83::lemma_encode_digits_len(qmg, 1);
        base83::lemma_encode_digits_len(dc_value as int, 4);
        lemma_ac_digits_len(p, w as int, h as int, cx as int, qmg, num_comp as int);
        assert(hash.len() == 4 + 2 * (num_comp as int - 1) + 2);
        assert forall|t2: int| 0 <= t2 < hash_len implies (#[trigger] buf@[t2]) as char == hash[t2]
            && buf@[t2] < 128 && base83::is_base83_char(hash[t2]) by {
            if t2 == 0 {
                base83::lemma_encode_digits_index(size_flag as int, 1, 0);
                base83::lemma_digit_char_value(encode_digit_at(size_flag as int, 1, 0));
            } else if t2 == 1 {
                base83::lemma_encode_digits_index(qmg, 1, 0);
                base83::lemma_digit_char_value(encode_digit_at(qmg, 1, 0));
            } else if t2 < 6 {
                base83::lemma_encode_digits_index(dc_value as int, 4, t2 - 2);
                base83::lemma_digit_char_value(encode_digit_at(dc_value as int, 4, t2 - 2));
                assert(buf@[2 + (t2 - 2)] == base83::digit_byte(
                    encode_digit_at(dc_value as int, 4, t2 - 2),
                ));
            } else {
                let kk = (t2 - 4) / 2;
                let u = (t2 - 4) % 2;
                vstd::arithmetic::div_mod::lemma_fundamental_div_mod(t2 - 4, 2);
                vstd::arithmetic::div_mod::lemma_mod_division_less_than_divisor(t2 - 4, 2);
                vstd::arithmetic::div_mod::lemma_div_pos_is_pos(t2 - 4, 2);
                assert(1 <= kk < num_comp) by {
                    vstd::arithmetic::div_mod::lemma_div_is_ordered(2, t2 - 4, 2);
                    assert(2int / 2 == 1);
                    vstd::arithmetic::div_mod::lemma_div_is_ordered(
                        t2 - 4,
                        2 * num_comp as int - 1,
                        2,
                    );
                    assert((2 * num_comp as int - 1) / 2 == num_comp as int - 1) by {
                        vstd::arithmetic::div_mod::lemma_fundamental_div_mod_converse(
                            2 * num_comp as int - 1,
                            2,
                            num_comp as int - 1,
                            1,
                        );
                    }
                }
                assert(t2 == 4 + 2 * kk + u);
                assert(buf@[4 + 2 * kk + u] == base83::digit_byte(
                    encode_digit_at(
                        ac_pair(p, w as int, h as int, cx as int, qmg, kk),
                        2,
                        u,
                    ),
                ));
                lemma_ac_digits_index(
                    p,
                    w as int,
                    h as int,
                    cx as int,
                    qmg,
                    num_comp as int,
                    kk,
                    u,
                );
                base83::lemma_encode_digits_index(
                    ac_pair(p, w as int, h as int, cx as int, qmg, kk),
                    2,
                    u,
                );
                base83::lemma_digit_char_value(
                    encode_digit_at(
                        ac_pair(p, w as int, h as int, cx as int, qmg, kk),
                        2,
                        u,
                    ),
                );
                let acblock = ac_digits(p, w as int, h as int, cx as int, qmg, num_comp as int);
                assert(hash[t2] == acblock[2 * (kk - 1) + u]);
            }
        }
    }
    let s = string_from_ascii(buf);
    proof {
        assert(s@ =~= hash);
        assert(s@.len() == 4 + 2 * (components_x * components_y)) by {
            assert(num_comp == components_x * components_y);
        }
    }
    Ok(s)
}

} // verus!
