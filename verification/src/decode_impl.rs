//! BlurHash decoding: from a hash string back to an RGB image.
//!
//! The string is parsed into quantized frequency components, dequantized
//! into fixed-point linear-light coefficients, and the image is
//! reconstructed by a separable inverse DCT: per-row partial sums over the
//! horizontal basis first, then per-pixel sums over the vertical basis.
//!
//! The contrast multiplier ("punch") is taken in thousandths: 1000 stands
//! for the neutral 1.0.

use vstd::prelude::*;
use vstd::math::abs;
use vstd::string::StrSliceExecFns;

use crate::base83;
use crate::base83::{
    all_base83, base83_value, char_value, decode_outcome, is_base83_char, DecodeOutcome,
};
use crate::color::{linear_to_srgb, linear_to_srgb_spec, srgb_to_linear, srgb_to_linear_spec};
use crate::error::BlurhashError;
use crate::roots::{div_trunc, div_tz};
use crate::trig::{build_cos_table, cos_fx, cos_table_ok, lookup_cos};

verus! {

/// Whether the requested output dimensions are accepted: both positive and
/// at most 10000 (the cap that bounds memory and work).
pub open spec fn dims_ok(w: int, h: int) -> bool {
    1 <= w <= 10000 && 1 <= h <= 10000
}

/// Number of horizontal frequency components declared by the size flag.
pub open spec fn size_x_of(s: Seq<char>) -> int {
    char_value(s[0]) % 9 + 1
}

/// Number of vertical frequency components declared by the size flag.
pub open spec fn size_y_of(s: Seq<char>) -> int {
    char_value(s[0]) / 9 + 1
}

/// The length a hash must have, given its size flag: one flag digit, one
/// quantization digit, four DC digits, and two digits per AC component.
pub open spec fn hash_len_of(s: Seq<char>) -> int {
    4 + 2 * (size_x_of(s) * size_y_of(s))
}

/// The quantized maximum-AC digit.
pub open spec fn quant_max_of(s: Seq<char>) -> int {
    char_value(s[1])
}

/// The packed 24-bit DC value.
pub open spec fn dc_value_of(s: Seq<char>) -> int {
    base83_value(s.subrange(2, 6))
}

/// The packed two-digit value of AC component `k` (`k >= 1`, row-major).
pub open spec fn ac_value_of(s: Seq<char>, k: int) -> int {
    base83_value(s.subrange(4 + 2 * k, 6 + 2 * k))
}

/// A hash whose characters are all in the alphabet and whose length
/// matches its own size flag.
pub open spec fn hash_well_formed(s: Seq<char>) -> bool {
    s.len() >= 6 && all_base83(s) && s.len() == hash_len_of(s)
}

/// Fixed-point linear-light coefficient of component `k`, channel `ch`
/// (0 red, 1 green, 2 blue), at contrast `punch` thousandths.
///
/// The DC component is the unpacked 24-bit color, converted to linear.
/// An AC channel `q` in `0..=18` maps to `sign(q-9) * ((q-9)/9)^2 *
/// (quant_max+1)/166 * punch/1000`, scaled by `LINEAR_SCALE`
/// (`13446000 == 81 * 166 * 1000`).
pub open spec fn colour_fx(s: Seq<char>, punch: int, k: int, ch: int) -> int {
    if k == 0 {
        let dc = dc_value_of(s);
        let byte = if ch == 0 {
            (dc / 65536) % 256
        } else if ch == 1 {
            (dc / 256) % 256
        } else {
            dc % 256
        };
        srgb_to_linear_spec(byte)
    } else {
        let v = ac_value_of(s, k);
        let q = if ch == 0 {
            v / 361
        } else if ch == 1 {
            (v / 19) % 19
        } else {
            v % 19
        };
        div_tz((q - 9) * abs(q - 9) * (quant_max_of(s) + 1) * punch * 1048576, 13446000)
    }
}

/// Partial inverse-DCT sum for component row `j` at pixel column `x`:
/// the first `cnt` horizontal components weighted by their basis values.
pub open spec fn partial_sum(
    s: Seq<char>,
    punch: int,
    w: int,
    j: int,
    x: int,
    ch: int,
    cnt: int,
) -> int
    decreases cnt,
{
    if cnt <= 0 {
        0
    } else {
        partial_sum(s, punch, w, j, x, ch, cnt - 1) + colour_fx(
            s,
            punch,
            j * size_x_of(s) + (cnt - 1),
            ch,
        ) * cos_fx((cnt - 1) * x, w)
    }
}

/// Full inverse-DCT sum at pixel `(x, y)`: the first `cnt` component rows,
/// each weighted by its vertical basis value.
pub open spec fn pixel_sum(
    s: Seq<char>,
    punch: int,
    w: int,
    h: int,
    x: int,
    y: int,
    ch: int,
    cnt: int,
) -> int
    decreases cnt,
{
    if cnt <= 0 {
        0
    } else {
        pixel_sum(s, punch, w, h, x, y, ch, cnt - 1) + partial_sum(
            s,
            punch,
            w,
            (cnt - 1),
            x,
            ch,
            size_x_of(s),
        ) * cos_fx((cnt - 1) * y, h)
    }
}

/// Fixed-point linear-light value of channel `ch` at pixel `(x, y)`:
/// the DCT sum rescaled by both cosine scales (`1073741824 == 32768^2`).
pub open spec fn pixel_fx(s: Seq<char>, punch: int, w: int, h: int, x: int, y: int, ch: int) -> int {
    div_tz(pixel_sum(s, punch, w, h, x, y, ch, size_y_of(s)), 1073741824)
}

/// Byte `idx` of the decoded image: pixels row-major, three channels per
/// pixel.
pub open spec fn decoded_byte(s: Seq<char>, punch: int, w: int, h: int, idx: int) -> int {
    let p = idx / 3;
    let ch = idx % 3;
    let x = p % w;
    let y = p / w;
    linear_to_srgb_spec(pixel_fx(s, punch, w, h, x, y, ch))
}

/// DC-only fidelity, reconstruction side: when a well-formed hash
/// declares a single component, every pixel of every output size is
/// exactly the decoded DC color, whatever the contrast multiplier.
pub proof fn lemma_decode_dc_only(s: Seq<char>, punch: int, w: int, h: int, idx: int)
    requires
        s.len() >= 6,
        all_base83(s),
        size_x_of(s) == 1,
        size_y_of(s) == 1,
        1 <= w,
        1 <= h,
        0 <= idx < 3 * w * h,
    ensures
        decoded_byte(s, punch, w, h, idx) == linear_to_srgb_spec(colour_fx(s, punch, 0, idx % 3)),
{
    let pp = idx / 3;
    let ch = idx % 3;
    let x = pp % w;
    let y = pp / w;
    vstd::arithmetic::div_mod::lemma_mod_division_less_than_divisor(idx, 3);
    vstd::arithmetic::div_mod::lemma_mod_division_less_than_divisor(pp, w);
    crate::trig::lemma_cos_zero(w);
    crate::trig::lemma_cos_zero(h);
    vstd::arithmetic::mul::lemma_mul_by_zero_is_zero(x);
    vstd::arithmetic::mul::lemma_mul_by_zero_is_zero(y);
    let c0 = colour_fx(s, punch, 0, ch);
    assert(partial_sum(s, punch, w, 0, x, ch, 0) == 0);
    assert(pixel_sum(s, punch, w, h, x, y, ch, 0) == 0);
    assert(partial_sum(s, punch, w, 0, x, ch, 1) == 0 + c0 * cos_fx(0 * x, w));
    assert(pixel_sum(s, punch, w, h, x, y, ch, 1) == 0 + partial_sum(s, punch, w, 0, x, ch, 1)
        * cos_fx(0 * y, h));
    // The DC coefficient is a converted byte, hence nonnegative.
    let dc = dc_value_of(s);
    assert(dc >= 0) by {
        assert(all_base83(s.subrange(2, 6))) by {
            assert(forall|t: int|
                0 <= t < 4 ==> s.subrange(2, 6)[t] == s[2 + t] && is_base83_char(#[trigger] s[2 + t]));
        }
        base83::lemma_value_from_bounds(s.subrange(2, 6), 0);
    }
    let byte = if ch == 0 {
        (dc / 65536) % 256
    } else if ch == 1 {
        (dc / 256) % 256
    } else {
        dc % 256
    };
    vstd::arithmetic::div_mod::lemma_mod_division_less_than_divisor(dc / 65536, 256);
    vstd::arithmetic::div_mod::lemma_mod_division_less_than_divisor(dc / 256, 256);
    vstd::arithmetic::div_mod::lemma_mod_division_less_than_divisor(dc, 256);
    crate::color::lemma_srgb_to_linear_range(byte);
    assert(c0 >= 0);
    assert((c0 * 32768) * 32768 == 1073741824 * c0) by (nonlinear_arith);
    vstd::arithmetic::mul::lemma_mul_nonnegative(c0, 1073741824);
    vstd::arithmetic::div_mod::lemma_div_multiples_vanish(c0, 1073741824);
    assert(pixel_fx(s, punch, w, h, x, y, ch) == c0);
}

/// Extract the component counts from a BlurHash string without decoding
/// the rest.
///
/// Fails with `InvalidLength` if the string is shorter than six
/// characters, and with `InvalidBase83Character` if the size flag is not
/// an alphabet character.
pub fn components(blurhash: &str) -> (r: Result<(u32, u32), BlurhashError>)
    ensures
        match r {
            Ok((cx, cy)) => {
                &&& blurhash@.len() >= 6
                &&& is_base83_char(blurhash@[0])
                &&& cx == size_x_of(blurhash@)
                &&& cy == size_y_of(blurhash@)
                &&& 1 <= cx <= 9
                &&& 1 <= cy <= 10
            },
            Err(e) => match e {
                BlurhashError::InvalidLength { expected, actual } => {
                    &&& blurhash@.len() < 6
                    &&& expected == 6
                    &&& actual == blurhash@.len()
                },
                BlurhashError::InvalidBase83Character(c) => {
                    &&& blurhash@.len() >= 6
                    &&& c == blurhash@[0]
                    &&& !is_base83_char(c)
                },
                _ => false,
            },
        },
{
    let n = blurhash.unicode_len();
    if n < 6 {
        return Err(BlurhashError::InvalidLength { expected: 6, actual: n });
    }
    let (cx, cy) = decode_size_flag(blurhash)?;
    Ok((cx, cy))
}

/// Largest magnitude of a dequantized AC coefficient: about 1.22 in
/// linear-light units times the largest representable punch.
const COMP_LIMIT: i64 = 1400000000000;

/// Largest magnitude of a horizontal partial sum (nine terms).
const PARTIAL_LIMIT: i64 = 420000000000000000;

/// Largest magnitude of one term of a vertical pixel sum.
const PIXEL_TERM_LIMIT: i128 = 13762560000000000000000;

/// Horizontal partial sum stored at flat index `m` of the intermediate
/// buffer: channel `m % 3` of pixel column `(m / 3) % w` in component row
/// `(m / 3) / w`.
pub open spec fn partial_at(s: Seq<char>, punch: int, w: int, m: int) -> int {
    let p = m / 3;
    partial_sum(s, punch, w, p / w, p % w, m % 3, size_x_of(s))
}

/// Decode the hash segment `blurhash[from..to]` (at most four characters)
/// as a base83 value.
fn decode_segment(blurhash: &str, from: usize, to: usize) -> (r: Result<u64, BlurhashError>)
    requires
        from < to <= blurhash@.len(),
        to - from <= 4,
    ensures
        match r {
            Ok(v) => {
                &&& forall|t: int| from <= t < to ==> is_base83_char(#[trigger] blurhash@[t])
                &&& v == base83_value(blurhash@.subrange(from as int, to as int))
                &&& (to - from == 1 ==> v <= 82)
                &&& (to - from == 2 ==> v <= 6888)
                &&& (to - from == 4 ==> v <= 47458320)
            },
            Err(e) => match e {
                BlurhashError::InvalidBase83Character(c) => {
                    &&& !is_base83_char(c)
                    &&& exists|t: int| from <= t < to && blurhash@[t] == c
                },
                _ => false,
            },
        },
{
    let sub = blurhash.substring_char(from, to);
    match base83::decode(sub) {
        Ok(v) => {
            proof {
                base83::lemma_decode_value_inv(sub@);
                assert forall|t: int| from <= t < to implies is_base83_char(
                    #[trigger] blurhash@[t],
                ) by {
                    assert(sub@[t - from] == blurhash@[t]);
                }
                base83::lemma_value_from_bounds(sub@, 0);
                assert(base83::pow83(1) == 83 && base83::pow83(2) == 6889 && base83::pow83(4)
                    == 47458321) by {
                    reveal_with_fuel(vstd::arithmetic::power::pow, 5);
                }
            }
            Ok(v)
        },
        Err(e) => {
            proof {
                base83::lemma_short_decode_no_overflow(sub@);
                if let BlurhashError::InvalidBase83Character(c) = e {
                    base83::lemma_decode_badchar_inv(sub@, c);
                    let t = choose|t: int| 0 <= t < sub@.len() && sub@[t] == c;
                    assert(blurhash@[from + t] == c);
                    assert(from <= from + t < to && blurhash@[from + t] == c);
                }
            }
            Err(e)
        },
    }
}

/// Dequantize one AC channel: `q` in `0..=19` maps to
/// `sign(q-9) * ((q-9)/9)^2 * (quant_max+1)/166 * punch/1000` in
/// fixed-point linear light.
fn ac_channel(q: u64, quant_max: u64, punch_milli: i32) -> (c: i64)
    requires
        q <= 19,
        quant_max <= 82,
    ensures
        c as int == div_tz(
            (q - 9) * abs(q - 9) * (quant_max + 1) * punch_milli * 1048576,
            13446000,
        ),
        -COMP_LIMIT <= c <= COMP_LIMIT,
{
    let d: i128 = q as i128 - 9;
    let ad: i128 = if d >= 0 {
        d
    } else {
        -d
    };
    proof {
        assert(-9 <= d <= 10 && 0 <= ad <= 10);
        assert(-100 <= d * ad <= 100) by (nonlinear_arith)
            requires
                -10 <= d <= 10,
                0 <= ad <= 10,
        ;
        assert(-8300 <= d * ad * (quant_max + 1) <= 8300) by (nonlinear_arith)
            requires
                -100 <= d * ad <= 100,
                1 <= quant_max + 1 <= 83,
        ;
        assert(-17824114278400 <= d * ad * (quant_max + 1) * (punch_milli as int)
            <= 17824114278400) by (nonlinear_arith)
            requires
                -8300 <= d * ad * (quant_max + 1) <= 8300,
                -2147483648 <= punch_milli as int <= 2147483647,
        ;
    }
    let num: i128 = d * ad * ((quant_max + 1) as i128) * (punch_milli as i128) * 1048576;
    let c128 = div_trunc(num, 13446000);
    proof {
        vstd::arithmetic::div_mod::lemma_div_is_ordered(
            abs(num as int) as int,
            18824399999999999999int,
            13446000,
        );
        assert(18824399999999999999int / 13446000 == 1399999999999int);
    }
    c128 as i64
}

/// Decode a BlurHash string into a flat RGB byte array of the given
/// dimensions, with a contrast multiplier in thousandths (1000 is
/// neutral).
///
/// On success the buffer holds `width * height * 3` bytes, row-major,
/// each pinned to the inverse-DCT model [`decoded_byte`]. The errors are
/// exactly: `InvalidDimensions` when a dimension is zero or above 10000;
/// `InvalidLength` when the string is shorter than six characters or
/// disagrees with its own size flag; `InvalidBase83Character` when a
/// character is outside the alphabet.
pub fn decode(blurhash: &str, width: u32, height: u32, punch_milli: i32) -> (r: Result<
    Vec<u8>,
    BlurhashError,
>)
    ensures
        match r {
            Ok(v) => {
                &&& dims_ok(width as int, height as int)
                &&& hash_well_formed(blurhash@)
                &&& v@.len() == 3 * width * height
                &&& forall|idx: int|
                    0 <= idx < v@.len() ==> v@[idx] == decoded_byte(
                        blurhash@,
                        punch_milli as int,
                        width as int,
                        height as int,
                        idx,
                    )
            },
            Err(e) => match e {
                BlurhashError::InvalidDimensions { width: ww, height: hh, .. } => {
                    &&& ww == width
                    &&& hh == height
                    &&& !dims_ok(width as int, height as int)
                },
                BlurhashError::InvalidLength { expected, actual } => {
                    &&& dims_ok(width as int, height as int)
                    &&& actual == blurhash@.len()
                    &&& (blurhash@.len() < 6 && expected == 6) || (blurhash@.len() >= 6
                        && is_base83_char(blurhash@[0]) && expected == hash_len_of(blurhash@)
                        && blurhash@.len() != hash_len_of(blurhash@))
                },
                BlurhashError::InvalidBase83Character(c) => {
                    &&& dims_ok(width as int, height as int)
                    &&& blurhash@.len() >= 6
                    &&& !is_base83_char(c)
                    &&& blurhash@.contains(c)
                },
                _ => false,
            },
        },
{
    let ghost s = blurhash@;
    let ghost punch = punch_milli as int;
    if width == 0 || height == 0 {
        return Err(BlurhashError::InvalidDimensions {
            width,
            height,
            reason: "width and height must be > 0",
        });
    }
    if width > 10000 || height > 10000 {
        return Err(BlurhashError::InvalidDimensions {
            width,
            height,
            reason: "dimensions must be <= 10000",
        });
    }
    let w = width as usize;
    let h = height as usize;
    let n = blurhash.unicode_len();
    if n < 6 {
        return Err(BlurhashError::InvalidLength { expected: 6, actual: n });
    }
    let (cx32, cy32) = match decode_size_flag(blurhash) {
        Ok(p) => p,
        Err(e) => {
            proof {
                if let BlurhashError::InvalidBase83Character(c) = e {
                    assert(s[0] == c);
                    assert(s.contains(c));
                }
            }
            return Err(e);
        },
    };
    let sx = cx32 as usize;
    let sy = cy32 as usize;
    proof {
        assert(sx * sy <= 90 && sx * sy >= 1) by (nonlinear_arith)
            requires
                1 <= sx <= 9,
                1 <= sy <= 10,
        ;
    }
    let num_comp = sx * sy;
    let expected = 4 + 2 * num_comp;
    if n != expected {
        return Err(BlurhashError::InvalidLength { expected, actual: n });
    }
    let quant_max = match decode_segment(blurhash, 1, 2) {
        Ok(v) => v,
        Err(e) => {
            proof {
                if let BlurhashError::InvalidBase83Character(c) = e {
                    let t = choose|t: int| 1 <= t < 2 && s[t] == c;
                    assert(s.contains(c));
                }
            }
            return Err(e);
        },
    };
    let dc = match decode_segment(blurhash, 2, 6) {
        Ok(v) => v,
        Err(e) => {
            proof {
                if let BlurhashError::InvalidBase83Character(c) = e {
                    let t = choose|t: int| 2 <= t < 6 && s[t] == c;
                    assert(s.contains(c));
                }
            }
            return Err(e);
        },
    };
    proof {
        assert(quant_max == quant_max_of(s)) by {
            assert(s.subrange(1, 2)[0] == s[1]);
            assert(base83::base83_value_from(s.subrange(1, 2), 1) == 0);
            assert(base83::pow83(0) == 1) by {
                vstd::arithmetic::power::lemma_pow0(83);
            }
        }
        assert(dc == dc_value_of(s));
    }
    // Dequantize all components into fixed-point linear light, flat
    // layout: component k's channel ch at index 3*k + ch.
    let mut colours: Vec<i64> = Vec::new();
    let dc_r = srgb_to_linear(((dc / 65536) % 256) as u8);
    let dc_g = srgb_to_linear(((dc / 256) % 256) as u8);
    let dc_b = srgb_to_linear((dc % 256) as u8);
    colours.push(dc_r as i64);
    colours.push(dc_g as i64);
    colours.push(dc_b as i64);
    proof {
        assert(colours@[0] == colour_fx(s, punch, 0, 0));
        assert(colours@[1] == colour_fx(s, punch, 0, 1));
        assert(colours@[2] == colour_fx(s, punch, 0, 2));
        assert(forall|m: int|
            0 <= m < 3 ==> colours@[m] == colour_fx(s, punch, m / 3, m % 3) && -COMP_LIMIT
                <= colours@[m] <= COMP_LIMIT);
    }
    let mut k: usize = 1;
    while k < num_comp
        invariant
            s == blurhash@,
            punch == punch_milli as int,
            1 <= k <= num_comp,
            dims_ok(width as int, height as int),
            num_comp == sx * sy,
            num_comp <= 90,
            1 <= sx <= 9,
            1 <= sy <= 10,
            sx == size_x_of(s),
            sy == size_y_of(s),
            s.len() == 4 + 2 * num_comp,
            quant_max <= 82,
            quant_max == quant_max_of(s),
            colours@.len() == 3 * k,
            forall|m: int|
                0 <= m < colours@.len() ==> #[trigger] colours@[m] == colour_fx(
                    s,
                    punch,
                    m / 3,
                    m % 3,
                ) && -COMP_LIMIT <= colours@[m] <= COMP_LIMIT,
            forall|t: int| 0 <= t < 4 + 2 * k ==> is_base83_char(#[trigger] s[t]),
        decreases num_comp - k,
    {
        let start = 4 + 2 * k;
        let ac = match decode_segment(blurhash, start, start + 2) {
            Ok(v) => v,
            Err(e) => {
                proof {
                    if let BlurhashError::InvalidBase83Character(c) = e {
                        let t = choose|t: int| start <= t < start + 2 && s[t] == c;
                        assert(s.contains(c));
                    }
                }
                return Err(e);
            },
        };
        proof {
            assert(ac == ac_value_of(s, k as int));
        }
        let qr = ac / 361;
        let qg = (ac / 19) % 19;
        let qb = ac % 19;
        proof {
            vstd::arithmetic::div_mod::lemma_div_is_ordered(ac as int, 6888, 361);
            vstd::arithmetic::div_mod::lemma_mod_division_less_than_divisor(ac as int / 19, 19);
            vstd::arithmetic::div_mod::lemma_mod_division_less_than_divisor(ac as int, 19);
        }
        let cr = ac_channel(qr, quant_max, punch_milli);
        let cg = ac_channel(qg, quant_max, punch_milli);
        let cb = ac_channel(qb, quant_max, punch_milli);
        colours.push(cr);
        colours.push(cg);
        colours.push(cb);
        proof {
            let kk = k as int;
            vstd::arithmetic::div_mod::lemma_fundamental_div_mod_converse(3 * kk, 3, kk, 0);
            vstd::arithmetic::div_mod::lemma_fundamental_div_mod_converse(3 * kk + 1, 3, kk, 1);
            vstd::arithmetic::div_mod::lemma_fundamental_div_mod_converse(3 * kk + 2, 3, kk, 2);
            assert(colours@[3 * kk] == colour_fx(s, punch, kk, 0));
            assert(colours@[3 * kk + 1] == colour_fx(s, punch, kk, 1));
            assert(colours@[3 * kk + 2] == colour_fx(s, punch, kk, 2));
        }
        k = k + 1;
    }
    // Cosine tables for both axes.
    let cos_x = build_cos_table(sx, w);
    let cos_y = build_cos_table(sy, h);
    // Pass 1: per component row j and pixel column x, sum the horizontal
    // basis contributions of the sx components of that row.
    let mut partial: Vec<i64> = Vec::new();
    let mut j: usize = 0;
    while j < sy
        invariant
            s == blurhash@,
            punch == punch_milli as int,
            0 <= j <= sy,
            num_comp == sx * sy,
            num_comp <= 90,
            1 <= sx <= 9,
            1 <= sy <= 10,
            1 <= w <= 10000,
            sx == size_x_of(s),
            sy == size_y_of(s),
            colours@.len() == 3 * num_comp,
            forall|m: int|
                0 <= m < colours@.len() ==> #[trigger] colours@[m] == colour_fx(
                    s,
                    punch,
                    m / 3,
                    m % 3,
                ) && -COMP_LIMIT <= colours@[m] <= COMP_LIMIT,
            cos_table_ok(cos_x@, w as int),
            cos_x@.len() == sx * w,
            partial@.len() == 3 * (j * w),
            forall|m: int|
                0 <= m < partial@.len() ==> #[trigger] partial@[m] == partial_at(s, punch, w as int, m)
                    && -PARTIAL_LIMIT <= partial@[m] <= PARTIAL_LIMIT,
        decreases sy - j,
    {
        let mut x: usize = 0;
        while x < w
            invariant
                s == blurhash@,
                punch == punch_milli as int,
                0 <= x <= w,
                0 <= j < sy,
                num_comp == sx * sy,
                num_comp <= 90,
                1 <= sx <= 9,
                1 <= sy <= 10,
                1 <= w <= 10000,
                sx == size_x_of(s),
                sy == size_y_of(s),
                colours@.len() == 3 * num_comp,
                forall|m: int|
                    0 <= m < colours@.len() ==> #[trigger] colours@[m] == colour_fx(
                        s,
                        punch,
                        m / 3,
                        m % 3,
                    ) && -COMP_LIMIT <= colours@[m] <= COMP_LIMIT,
                cos_table_ok(cos_x@, w as int),
                cos_x@.len() == sx * w,
                partial@.len() == 3 * (j * w + x),
                forall|m: int|
                    0 <= m < partial@.len() ==> #[trigger] partial@[m] == partial_at(
                        s,
                        punch,
                        w as int,
                        m,
                    ) && -PARTIAL_LIMIT <= partial@[m] <= PARTIAL_LIMIT,
            decreases w - x,
        {
            proof {
                assert(j * w + x < sy * w && j * w + x < 100000) by (nonlinear_arith)
                    requires
                        0 <= j < sy <= 10,
                        0 <= x < w <= 10000,
                ;
            }
            let mut ch: usize = 0;
            while ch < 3
                invariant
                    s == blurhash@,
                    punch == punch_milli as int,
                    0 <= ch <= 3,
                    0 <= x < w,
                    0 <= j < sy,
                    num_comp == sx * sy,
                num_comp <= 90,
                    1 <= sx <= 9,
                    1 <= sy <= 10,
                    1 <= w <= 10000,
                    j * w + x < 100000,
                    sx == size_x_of(s),
                    sy == size_y_of(s),
                    colours@.len() == 3 * num_comp,
                    forall|m: int|
                        0 <= m < colours@.len() ==> #[trigger] colours@[m] == colour_fx(
                            s,
                            punch,
                            m / 3,
                            m % 3,
                        ) && -COMP_LIMIT <= colours@[m] <= COMP_LIMIT,
                    cos_table_ok(cos_x@, w as int),
                    cos_x@.len() == sx * w,
                    partial@.len() == 3 * (j * w + x) + ch,
                    forall|m: int|
                        0 <= m < partial@.len() ==> #[trigger] partial@[m] == partial_at(
                            s,
                            punch,
                            w as int,
                            m,
                        ) && -PARTIAL_LIMIT <= partial@[m] <= PARTIAL_LIMIT,
                decreases 3 - ch,
            {
                let mut acc: i64 = 0;
                let mut i: usize = 0;
                while i < sx
                    invariant
                        s == blurhash@,
                        punch == punch_milli as int,
                        0 <= i <= sx,
                        0 <= ch < 3,
                        0 <= x < w,
                        0 <= j < sy,
                        num_comp == sx * sy,
                num_comp <= 90,
                        1 <= sx <= 9,
                        1 <= sy <= 10,
                        1 <= w <= 10000,
                        sx == size_x_of(s),
                        sy == size_y_of(s),
                        colours@.len() == 3 * num_comp,
                        forall|m: int|
                            0 <= m < colours@.len() ==> #[trigger] colours@[m] == colour_fx(
                                s,
                                punch,
                                m / 3,
                                m % 3,
                            ) && -COMP_LIMIT <= colours@[m] <= COMP_LIMIT,
                        cos_table_ok(cos_x@, w as int),
                        cos_x@.len() == sx * w,
                        acc == partial_sum(s, punch, w as int, j as int, x as int, ch as int, i as int),
                        -45875200000000000 * i <= acc <= 45875200000000000 * i,
                    decreases sx - i,
                {
                    proof {
                        assert(j * sx + i < num_comp) by (nonlinear_arith)
                            requires
                                0 <= j < sy,
                                0 <= i < sx,
                                num_comp == sx * sy,
                num_comp <= 90,
                        ;
                        assert(3 * (j * sx + i) + ch < 3 * num_comp);
                        assert(i * w + x < sx * w) by (nonlinear_arith)
                            requires
                                0 <= i < sx,
                                0 <= x < w,
                        ;
                    }
                    let kc = j * sx + i;
                    let cv = colours[3 * kc + ch];
                    let cosv = lookup_cos(&cos_x, w, i, x);
                    proof {
                        let kk = kc as int;
                        vstd::arithmetic::div_mod::lemma_fundamental_div_mod_converse(
                            3 * kk + ch,
                            3,
                            kk,
                            ch as int,
                        );
                        assert(cv == colour_fx(s, punch, j as int * sx + i, ch as int));
                        assert(-45875200000000000 <= cv as int * cosv as int
                            <= 45875200000000000) by (nonlinear_arith)
                            requires
                                -1400000000000 <= cv as int <= 1400000000000,
                                -32768 <= cosv as int <= 32768,
                        ;
                        assert(-45875200000000000 * 9 <= 45875200000000000 * i
                            - 45875200000000000 * 9 && 45875200000000000 * i + 45875200000000000
                            <= 45875200000000000 * 9) by (nonlinear_arith)
                            requires
                                0 <= i < 9,
                        ;
                    }
                    acc = acc + cv * cosv;
                    i = i + 1;
                    proof {
                        assert(45875200000000000 * (i - 1) + 45875200000000000
                            == 45875200000000000 * i) by (nonlinear_arith);
                    }
                }
                partial.push(acc);
                proof {
                    let m = 3 * (j as int * w + x as int) + ch as int;
                    vstd::arithmetic::div_mod::lemma_fundamental_div_mod_converse(
                        m,
                        3,
                        j as int * w + x as int,
                        ch as int,
                    );
                    vstd::arithmetic::div_mod::lemma_fundamental_div_mod_converse(
                        j as int * w + x as int,
                        w as int,
                        j as int,
                        x as int,
                    );
                    assert(-45875200000000000 * 9 >= -PARTIAL_LIMIT && 45875200000000000 * 9
                        <= PARTIAL_LIMIT) by (nonlinear_arith);
                    assert(partial@[m] == partial_at(s, punch, w as int, m));
                }
                ch = ch + 1;
            }
            x = x + 1;
        }
        j = j + 1;
        proof {
            assert((j - 1) * w + w == j * w) by (nonlinear_arith);
        }
    }
    // Pass 2: per output pixel, sum the vertical basis contributions of
    // the component rows and convert back to sRGB.
    let mut result: Vec<u8> = Vec::new();
    let mut pi: usize = 0;
    let mut y: usize = 0;
    while y < h
        invariant
            s == blurhash@,
            punch == punch_milli as int,
            0 <= y <= h,
            pi == y * w,
            1 <= sx <= 9,
            1 <= sy <= 10,
            1 <= w <= 10000,
            1 <= h <= 10000,
            sx == size_x_of(s),
            sy == size_y_of(s),
            cos_table_ok(cos_y@, h as int),
            cos_y@.len() == sy * h,
            partial@.len() == 3 * (sy * w),
            forall|m: int|
                0 <= m < partial@.len() ==> #[trigger] partial@[m] == partial_at(s, punch, w as int, m)
                    && -PARTIAL_LIMIT <= partial@[m] <= PARTIAL_LIMIT,
            result@.len() == 3 * pi,
            forall|idx: int|
                0 <= idx < result@.len() ==> #[trigger] result@[idx] == decoded_byte(
                    s,
                    punch,
                    w as int,
                    h as int,
                    idx,
                ),
        decreases h - y,
    {
        let mut x: usize = 0;
        while x < w
            invariant
                s == blurhash@,
                punch == punch_milli as int,
                0 <= x <= w,
                0 <= y < h,
                pi == y * w + x,
                1 <= sx <= 9,
                1 <= sy <= 10,
                1 <= w <= 10000,
                1 <= h <= 10000,
                sx == size_x_of(s),
                sy == size_y_of(s),
                cos_table_ok(cos_y@, h as int),
                cos_y@.len() == sy * h,
                partial@.len() == 3 * (sy * w),
                forall|m: int|
                    0 <= m < partial@.len() ==> #[trigger] partial@[m] == partial_at(
                        s,
                        punch,
                        w as int,
                        m,
                    ) && -PARTIAL_LIMIT <= partial@[m] <= PARTIAL_LIMIT,
                result@.len() == 3 * pi,
                forall|idx: int|
                    0 <= idx < result@.len() ==> #[trigger] result@[idx] == decoded_byte(
                        s,
                        punch,
                        w as int,
                        h as int,
                        idx,
                    ),
            decreases w - x,
        {
            proof {
                assert(pi < h * w && pi < 100000000) by (nonlinear_arith)
                    requires
                        pi == y * w + x,
                        0 <= y < h <= 10000,
                        0 <= x < w <= 10000,
                ;
            }
            let mut ch: usize = 0;
            while ch < 3
                invariant
                    s == blurhash@,
                    punch == punch_milli as int,
                    0 <= ch <= 3,
                    0 <= x < w,
                    0 <= y < h,
                    pi == y * w + x,
                    pi < 100000000,
                    1 <= sx <= 9,
                    1 <= sy <= 10,
                    1 <= w <= 10000,
                    1 <= h <= 10000,
                    sx == size_x_of(s),
                    sy == size_y_of(s),
                    cos_table_ok(cos_y@, h as int),
                    cos_y@.len() == sy * h,
                    partial@.len() == 3 * (sy * w),
                    forall|m: int|
                        0 <= m < partial@.len() ==> #[trigger] partial@[m] == partial_at(
                            s,
                            punch,
                            w as int,
                            m,
                        ) && -PARTIAL_LIMIT <= partial@[m] <= PARTIAL_LIMIT,
                    result@.len() == 3 * pi + ch,
                    forall|idx: int|
                        0 <= idx < result@.len() ==> #[trigger] result@[idx] == decoded_byte(
                            s,
                            punch,
                            w as int,
                            h as int,
                            idx,
                        ),
                decreases 3 - ch,
            {
                proof {
                    vstd::arithmetic::mul::lemma_mul_basics(PIXEL_TERM_LIMIT as int);
                    vstd::arithmetic::mul::lemma_mul_basics(-(PIXEL_TERM_LIMIT as int));
                }
                let mut sum: i128 = 0;
                let mut jj: usize = 0;
                while jj < sy
                    invariant
                        s == blurhash@,
                        punch == punch_milli as int,
                        0 <= jj <= sy,
                        0 <= ch < 3,
                        0 <= x < w,
                        0 <= y < h,
                        1 <= sx <= 9,
                        1 <= sy <= 10,
                        1 <= w <= 10000,
                        1 <= h <= 10000,
                        sx == size_x_of(s),
                        sy == size_y_of(s),
                        cos_table_ok(cos_y@, h as int),
                        cos_y@.len() == sy * h,
                        partial@.len() == 3 * (sy * w),
                        forall|m: int|
                            0 <= m < partial@.len() ==> #[trigger] partial@[m] == partial_at(
                                s,
                                punch,
                                w as int,
                                m,
                            ) && -PARTIAL_LIMIT <= partial@[m] <= PARTIAL_LIMIT,
                        sum == pixel_sum(
                            s,
                            punch,
                            w as int,
                            h as int,
                            x as int,
                            y as int,
                            ch as int,
                            jj as int,
                        ),
                        (-PIXEL_TERM_LIMIT) * jj <= sum <= PIXEL_TERM_LIMIT * jj,
                    decreases sy - jj,
                {
                    proof {
                        assert(jj * w + x < sy * w && jj * w + x < 100000) by (nonlinear_arith)
                            requires
                                0 <= jj < sy <= 10,
                                0 <= x < w <= 10000,
                        ;
                        assert(3 * (jj * w + x) + ch < 3 * (sy * w));
                        assert(jj * h + y < sy * h) by (nonlinear_arith)
                            requires
                                0 <= jj < sy,
                                0 <= y < h,
                        ;
                    }
                    let pv = partial[3 * (jj * w + x) + ch];
                    let cosv = lookup_cos(&cos_y, h, jj, y);
                    proof {
                        let m = 3 * (jj as int * w + x as int) + ch as int;
                        vstd::arithmetic::div_mod::lemma_fundamental_div_mod_converse(
                            m,
                            3,
                            jj as int * w + x as int,
                            ch as int,
                        );
                        vstd::arithmetic::div_mod::lemma_fundamental_div_mod_converse(
                            jj as int * w + x as int,
                            w as int,
                            jj as int,
                            x as int,
                        );
                        assert(pv == partial_sum(
                            s,
                            punch,
                            w as int,
                            jj as int,
                            x as int,
                            ch as int,
                            sx as int,
                        ));
                        assert(-PIXEL_TERM_LIMIT <= pv as int * cosv as int <= PIXEL_TERM_LIMIT)
                            by (nonlinear_arith)
                            requires
                                -420000000000000000 <= pv as int <= 420000000000000000,
                                -32768 <= cosv as int <= 32768,
                                PIXEL_TERM_LIMIT == 13762560000000000000000int,
                        ;
                        crate::roots::lemma_mul_step_bound(PIXEL_TERM_LIMIT as int, jj as int, 10);
                        assert(PIXEL_TERM_LIMIT * 10 == 137625600000000000000000int);
                    }
                    sum = sum + (pv as i128) * (cosv as i128);
                    jj = jj + 1;
                }
                proof {
                    vstd::arithmetic::mul::lemma_mul_left_inequality(PIXEL_TERM_LIMIT as int, sy as int, 10);
                    vstd::arithmetic::mul::lemma_mul_unary_negation(PIXEL_TERM_LIMIT as int, sy as int);
                    vstd::arithmetic::mul::lemma_mul_unary_negation(PIXEL_TERM_LIMIT as int, 10);
                    assert(PIXEL_TERM_LIMIT * 10 == 137625600000000000000000int);
                }
                let pfx = div_trunc(sum, 1073741824);
                proof {
                    vstd::arithmetic::div_mod::lemma_div_is_ordered(
                        abs(sum as int) as int,
                        137625600000000000000000int,
                        1073741824,
                    );
                    assert(137625600000000000000000int / 1073741824 == 128173828125000int);
                }
                let b = linear_to_srgb(pfx as i64);
                result.push(b);
                proof {
                    let idx = 3 * (pi as int) + ch as int;
                    vstd::arithmetic::div_mod::lemma_fundamental_div_mod_converse(
                        idx,
                        3,
                        pi as int,
                        ch as int,
                    );
                    vstd::arithmetic::div_mod::lemma_fundamental_div_mod_converse(
                        pi as int,
                        w as int,
                        y as int,
                        x as int,
                    );
                    assert(result@[idx] == decoded_byte(s, punch, w as int, h as int, idx));
                }
                ch = ch + 1;
            }
            pi = pi + 1;
            x = x + 1;
        }
        y = y + 1;
        proof {
            assert((y - 1) * w + w == y * w) by (nonlinear_arith);
        }
    }
    proof {
        assert(3 * (h * w) == 3 * width * height) by (nonlinear_arith)
            requires
                w == width as int,
                h == height as int,
        ;
        assert(hash_well_formed(s)) by {
            assert(s.len() == 4 + 2 * (sx * sy));
            assert(forall|t: int| 0 <= t < s.len() ==> is_base83_char(#[trigger] s[t]));
        }
    }
    Ok(result)
}

/// Decode the size-flag character (the first of the string) into the
/// component counts.
fn decode_size_flag(blurhash: &str) -> (r: Result<(u32, u32), BlurhashError>)
    requires
        blurhash@.len() >= 1,
    ensures
        match r {
            Ok((cx, cy)) => {
                &&& is_base83_char(blurhash@[0])
                &&& cx == size_x_of(blurhash@)
                &&& cy == size_y_of(blurhash@)
                &&& 1 <= cx <= 9
                &&& 1 <= cy <= 10
            },
            Err(e) => match e {
                BlurhashError::InvalidBase83Character(c) => c == blurhash@[0]
                    && !is_base83_char(c),
                _ => false,
            },
        },
{
    let flag = blurhash.substring_char(0, 1);
    proof {
        assert(flag@[0] == blurhash@[0]);
        if is_base83_char(flag@[0]) {
            let d = char_value(flag@[0]);
            assert(base83::decode_from(flag@, 1, d as u64) == DecodeOutcome::Value(d as u64));
            assert(decode_outcome(flag@) == DecodeOutcome::Value(d as u64));
        } else {
            assert(decode_outcome(flag@) == DecodeOutcome::BadChar(flag@[0]));
        }
    }
    let size_info = match base83::decode(flag) {
        Ok(v) => v,
        Err(e) => {
            return Err(e);
        },
    };
    proof {
        assert(size_info == char_value(blurhash@[0]));
        assert(0 <= size_info <= 82);
    }
    let cx = (size_info % 9 + 1) as u32;
    let cy = (size_info / 9 + 1) as u32;
    Ok((cx, cy))
}

} // verus!
