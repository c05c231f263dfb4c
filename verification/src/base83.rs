//! Base83 encoding and decoding used by the BlurHash string format.
//!
//! BlurHash serializes integers as fixed-width, big-endian numerals over a
//! custom 83-character alphabet (digits, upper case, lower case, then 21
//! punctuation marks, in that order; a character's position in the alphabet
//! is its numeric value).

use vstd::prelude::*;
use vstd::arithmetic::power::pow;
use vstd::string::StrSliceExecFns;

use crate::error::BlurhashError;

verus! {

/// Numeric value of `c` in the base83 alphabet, or `-1` when `c` is not an
/// alphabet character.
pub open spec fn char_value(c: char) -> int {
    let u = c as u32;
    if 48 <= u <= 57 {
        u - 48  // '0'..='9'
    } else if 65 <= u <= 90 {
        u - 55  // 'A'..='Z' follow at value 10
    } else if 97 <= u <= 122 {
        u - 61  // 'a'..='z' follow at value 36
    } else if u == 35 {
        62  // '#'
    } else if u == 36 {
        63  // '$'
    } else if u == 37 {
        64  // '%'
    } else if u == 42 {
        65  // '*'
    } else if u == 43 {
        66  // '+'
    } else if u == 44 {
        67  // ','
    } else if u == 45 {
        68  // '-'
    } else if u == 46 {
        69  // '.'
    } else if u == 58 {
        70  // ':'
    } else if u == 59 {
        71  // ';'
    } else if u == 61 {
        72  // '='
    } else if u == 63 {
        73  // '?'
    } else if u == 64 {
        74  // '@'
    } else if u == 91 {
        75  // '['
    } else if u == 93 {
        76  // ']'
    } else if u == 94 {
        77  // '^'
    } else if u == 95 {
        78  // '_'
    } else if u == 123 {
        79  // '{'
    } else if u == 124 {
        80  // '|'
    } else if u == 125 {
        81  // '}'
    } else if u == 126 {
        82  // '~'
    } else {
        -1
    }
}

/// Whether `c` is one of the 83 alphabet characters.
pub open spec fn is_base83_char(c: char) -> bool {
    char_value(c) >= 0
}

/// ASCII byte of the alphabet character with numeric value `d`.
pub open spec fn digit_byte(d: int) -> u8 {
    if 0 <= d <= 9 {
        (48 + d) as u8  // '0'..='9'
    } else if 10 <= d <= 35 {
        (55 + d) as u8  // 'A'..='Z'
    } else if 36 <= d <= 61 {
        (61 + d) as u8  // 'a'..='z'
    } else if d == 62 {
        35  // '#'
    } else if d == 63 {
        36  // '$'
    } else if d == 64 {
        37  // '%'
    } else if d == 65 {
        42  // '*'
    } else if d == 66 {
        43  // '+'
    } else if d == 67 {
        44  // ','
    } else if d == 68 {
        45  // '-'
    } else if d == 69 {
        46  // '.'
    } else if d == 70 {
        58  // ':'
    } else if d == 71 {
        59  // ';'
    } else if d == 72 {
        61  // '='
    } else if d == 73 {
        63  // '?'
    } else if d == 74 {
        64  // '@'
    } else if d == 75 {
        91  // '['
    } else if d == 76 {
        93  // ']'
    } else if d == 77 {
        94  // '^'
    } else if d == 78 {
        95  // '_'
    } else if d == 79 {
        123  // '{'
    } else if d == 80 {
        124  // '|'
    } else if d == 81 {
        125  // '}'
    } else {
        126  // '~'
    }
}

/// Alphabet character with numeric value `d`.
pub open spec fn digit_char(d: int) -> char {
    digit_byte(d) as char
}

/// The alphabet character of each digit decodes back to that digit.
pub broadcast proof fn lemma_digit_char_value(d: int)
    requires
        0 <= d < 83,
    ensures
        char_value(#[trigger] digit_char(d)) == d,
        digit_byte(d) < 128,
{
}

/// `pow83(e)` is `83^e`.
pub open spec fn pow83(e: nat) -> int {
    pow(83, e)
}

/// Numeric value of the digit string `s` read from index `i` on, as a
/// big-endian base83 numeral (characters outside the alphabet contribute
/// their `-1` sentinel; callers only rely on this for all-valid strings).
pub open spec fn base83_value_from(s: Seq<char>, i: int) -> int
    decreases s.len() - i,
{
    if i < 0 || i >= s.len() {
        0
    } else {
        char_value(s[i]) * pow83((s.len() - i - 1) as nat) + base83_value_from(s, i + 1)
    }
}

/// Numeric value of the whole digit string `s`.
pub open spec fn base83_value(s: Seq<char>) -> int {
    base83_value_from(s, 0)
}

/// Whether every character of `s` from index `i` on is in the alphabet.
pub open spec fn all_base83_from(s: Seq<char>, i: int) -> bool {
    forall|j: int| i <= j < s.len() ==> is_base83_char(#[trigger] s[j])
}

/// Whether every character of `s` is in the alphabet.
pub open spec fn all_base83(s: Seq<char>) -> bool {
    all_base83_from(s, 0)
}

/// What decoding a string must produce: its numeric value, or the first
/// offending character, or an overflow past `u64::MAX`.
pub enum DecodeOutcome {
    /// Every character was valid and the value fits in 64 bits.
    Value(u64),
    /// The first character outside the alphabet, in reading order.
    BadChar(char),
    /// The accumulated value exceeded `u64::MAX`.
    Overflow,
}

/// Left-to-right decoding of `s` from index `i`, starting from the partial
/// value `acc`; mirrors one digit per step so that intermediate overflow is
/// captured exactly where a 64-bit accumulator would first exceed its range.
pub open spec fn decode_from(s: Seq<char>, i: int, acc: u64) -> DecodeOutcome
    decreases s.len() - i,
{
    if i < 0 || i >= s.len() {
        DecodeOutcome::Value(acc)
    } else if !is_base83_char(s[i]) {
        DecodeOutcome::BadChar(s[i])
    } else if 83 * acc + char_value(s[i]) > u64::MAX {
        DecodeOutcome::Overflow
    } else {
        decode_from(s, i + 1, (83 * acc + char_value(s[i])) as u64)
    }
}

/// The outcome of decoding the whole string `s`.
pub open spec fn decode_outcome(s: Seq<char>) -> DecodeOutcome {
    decode_from(s, 0, 0)
}

/// Numeric value of the alphabet character `c`, when it has one.
fn char_digit(c: char) -> (r: Option<u8>)
    ensures
        match r {
            Some(d) => char_value(c) == d as int && d < 83,
            None => !is_base83_char(c),
        },
{
    let u = c as u32;
    if 48 <= u && u <= 57 {
        Some((u - 48) as u8)
    } else if 65 <= u && u <= 90 {
        Some((u - 55) as u8)
    } else if 97 <= u && u <= 122 {
        Some((u - 61) as u8)
    } else if u == 35 {
        Some(62)
    } else if u == 36 {
        Some(63)
    } else if u == 37 {
        Some(64)
    } else if u == 42 {
        Some(65)
    } else if u == 43 {
        Some(66)
    } else if u == 44 {
        Some(67)
    } else if u == 45 {
        Some(68)
    } else if u == 46 {
        Some(69)
    } else if u == 58 {
        Some(70)
    } else if u == 59 {
        Some(71)
    } else if u == 61 {
        Some(72)
    } else if u == 63 {
        Some(73)
    } else if u == 64 {
        Some(74)
    } else if u == 91 {
        Some(75)
    } else if u == 93 {
        Some(76)
    } else if u == 94 {
        Some(77)
    } else if u == 95 {
        Some(78)
    } else if u == 123 {
        Some(79)
    } else if u == 124 {
        Some(80)
    } else if u == 125 {
        Some(81)
    } else if u == 126 {
        Some(82)
    } else {
        None
    }
}

/// Every all-valid digit string has a value in `[0, 83^len)`.
pub proof fn lemma_value_from_bounds(s: Seq<char>, i: int)
    requires
        0 <= i <= s.len(),
        all_base83_from(s, i),
    ensures
        0 <= base83_value_from(s, i) < pow83((s.len() - i) as nat),
    decreases s.len() - i,
{
    vstd::arithmetic::power::lemma_pow_positive(83, (s.len() - i) as nat);
    if i < s.len() {
        lemma_value_from_bounds(s, i + 1);
        let e = (s.len() - i - 1) as nat;
        vstd::arithmetic::power::lemma_pow_positive(83, e);
        assert(0 <= char_value(s[i]) <= 82);
        vstd::arithmetic::mul::lemma_mul_nonnegative(char_value(s[i]), pow83(e));
        vstd::arithmetic::mul::lemma_mul_inequality(char_value(s[i]), 82, pow83(e));
        assert(pow83((s.len() - i) as nat) == 83 * pow83(e)) by {
            vstd::arithmetic::power::lemma_pow_adds(83, 1nat, e);
            vstd::arithmetic::power::lemma_pow1(83);
        }
    }
}

/// Decoding an all-valid string whose value fits in 64 bits yields exactly
/// the accumulated big-endian value.
proof fn lemma_decode_from_ok(s: Seq<char>, i: int, acc: u64)
    requires
        0 <= i <= s.len(),
        all_base83_from(s, i),
        acc * pow83((s.len() - i) as nat) + base83_value_from(s, i) <= u64::MAX,
    ensures
        decode_from(s, i, acc) == DecodeOutcome::Value(
            (acc * pow83((s.len() - i) as nat) + base83_value_from(s, i)) as u64,
        ),
    decreases s.len() - i,
{
    let n = s.len() as int;
    vstd::arithmetic::power::lemma_pow_positive(83, (n - i) as nat);
    if i >= n {
        assert(pow83(0) == 1) by {
            vstd::arithmetic::power::lemma_pow0(83);
        }
    } else {
        let d = char_value(s[i]);
        let e = (n - i - 1) as nat;
        vstd::arithmetic::power::lemma_pow_positive(83, e);
        assert(pow83((n - i) as nat) == 83 * pow83(e)) by {
            vstd::arithmetic::power::lemma_pow_adds(83, 1nat, e);
            vstd::arithmetic::power::lemma_pow1(83);
        }
        lemma_value_from_bounds(s, i + 1);
        // Regroup: acc * 83^(n-i) + (d * 83^e + tail) == (83 * acc + d) * 83^e + tail.
        assert(acc * (83 * pow83(e)) == (83 * acc) * pow83(e)) by (nonlinear_arith);
        assert((83 * acc) * pow83(e) + d * pow83(e) == (83 * acc + d) * pow83(e)) by (nonlinear_arith);
        let acc2 = 83 * acc + d;
        // No intermediate overflow: acc2 <= acc2 * 83^e + tail <= u64::MAX.
        vstd::arithmetic::mul::lemma_mul_nonnegative(acc2, pow83(e) - 1);
        assert(acc2 * pow83(e) == acc2 + acc2 * (pow83(e) - 1)) by (nonlinear_arith);
        assert(acc2 <= u64::MAX);
        lemma_decode_from_ok(s, i + 1, acc2 as u64);
    }
}

/// Decoding an all-valid string whose value fits in 64 bits succeeds with
/// that value.
pub proof fn lemma_decode_ok(s: Seq<char>)
    requires
        all_base83(s),
        base83_value(s) <= u64::MAX,
    ensures
        decode_outcome(s) == DecodeOutcome::Value(base83_value(s) as u64),
{
    lemma_value_from_bounds(s, 0);
    lemma_decode_from_ok(s, 0, 0);
}

/// When the first character outside the alphabet appears at index `j` and
/// the value of the valid prefix fits in 64 bits, decoding reports exactly
/// that character.
pub proof fn lemma_decode_bad_char(s: Seq<char>, j: int)
    requires
        0 <= j < s.len(),
        !is_base83_char(s[j]),
        forall|k: int| 0 <= k < j ==> is_base83_char(#[trigger] s[k]),
        base83_value_from(s.take(j), 0) <= u64::MAX,
    ensures
        decode_outcome(s) == DecodeOutcome::BadChar(s[j]),
{
    lemma_decode_bad_char_from(s, 0, 0, j);
}

/// Helper for [`lemma_decode_bad_char`]: the running accumulator stays the
/// value of the digits consumed so far, so it cannot overflow before `j`.
proof fn lemma_decode_bad_char_from(s: Seq<char>, i: int, acc: u64, j: int)
    requires
        0 <= i <= j < s.len(),
        !is_base83_char(s[j]),
        forall|k: int| i <= k < j ==> is_base83_char(#[trigger] s[k]),
        acc * pow83((j - i) as nat) + base83_value_from(s.subrange(i, j), 0) <= u64::MAX,
    ensures
        decode_from(s, i, acc) == DecodeOutcome::BadChar(s[j]),
    decreases j - i,
{
    let part = s.subrange(i, j);
    vstd::arithmetic::power::lemma_pow_positive(83, (j - i) as nat);
    if i == j {
        assert(decode_from(s, i, acc) == DecodeOutcome::BadChar(s[j]));
    } else {
        let d = char_value(s[i]);
        let e = (j - i - 1) as nat;
        vstd::arithmetic::power::lemma_pow_positive(83, e);
        assert(pow83((j - i) as nat) == 83 * pow83(e)) by {
            vstd::arithmetic::power::lemma_pow_adds(83, 1nat, e);
            vstd::arithmetic::power::lemma_pow1(83);
        }
        let part2 = s.subrange(i + 1, j);
        assert(part2 == part.subrange(1, part.len() as int));
        lemma_value_from_drop_first(part);
        assert(all_base83_from(part2, 0)) by {
            assert(forall|k: int| 0 <= k < part2.len() ==> part2[k] == s[i + 1 + k]);
        }
        lemma_value_from_bounds(part2, 0);
        assert(acc * (83 * pow83(e)) == (83 * acc) * pow83(e)) by (nonlinear_arith);
        assert((83 * acc) * pow83(e) + d * pow83(e) == (83 * acc + d) * pow83(e)) by (nonlinear_arith);
        let acc2 = 83 * acc + d;
        vstd::arithmetic::mul::lemma_mul_nonnegative(acc2, pow83(e) - 1);
        assert(acc2 * pow83(e) == acc2 + acc2 * (pow83(e) - 1)) by (nonlinear_arith);
        assert(acc2 <= u64::MAX);
        lemma_decode_bad_char_from(s, i + 1, acc2 as u64, j);
    }
}

/// Peeling the first digit off a string divides its value positionally:
/// the first digit carries `83^(len-1)` and the rest keep their places.
proof fn lemma_value_from_drop_first(s: Seq<char>)
    requires
        s.len() > 0,
    ensures
        base83_value_from(s, 0) == char_value(s[0]) * pow83((s.len() - 1) as nat)
            + base83_value_from(s.subrange(1, s.len() as int), 0),
{
    lemma_value_from_shift(s, s.subrange(1, s.len() as int), 1);
}

/// Values of suffixes agree when one sequence is the other shifted left.
proof fn lemma_value_from_shift(s: Seq<char>, t: Seq<char>, off: int)
    requires
        0 <= off <= s.len(),
        t.len() == s.len() - off,
        forall|k: int| 0 <= k < t.len() ==> t[k] == s[off + k],
    ensures
        base83_value_from(s, off) == base83_value_from(t, 0),
    decreases t.len(),
{
    lemma_value_from_shift_at(s, t, off, 0);
}

/// Generalization of [`lemma_value_from_shift`] to an arbitrary start.
proof fn lemma_value_from_shift_at(s: Seq<char>, t: Seq<char>, off: int, k: int)
    requires
        0 <= off <= s.len(),
        0 <= k <= t.len(),
        t.len() == s.len() - off,
        forall|j: int| 0 <= j < t.len() ==> t[j] == s[off + j],
    ensures
        base83_value_from(s, off + k) == base83_value_from(t, k),
    decreases t.len() - k,
{
    if k < t.len() {
        lemma_value_from_shift_at(s, t, off, k + 1);
    }
}

/// Big-endian digit string of `v` written with exactly `len` digits,
/// most significant first (zero-padded on the left).
pub open spec fn encode_digits(v: int, len: nat) -> Seq<char>
    decreases len,
{
    if len == 0 {
        Seq::empty()
    } else {
        encode_digits(v / 83, (len - 1) as nat).push(digit_char(v % 83))
    }
}

/// The digit at position `j` of the `len`-digit encoding of `v`.
pub open spec fn encode_digit_at(v: int, len: nat, j: int) -> int {
    (v / pow83((len - j - 1) as nat)) % 83
}

/// Each position of the encoding holds the corresponding positional digit.
pub proof fn lemma_encode_digits_index(v: int, len: nat, j: int)
    requires
        v >= 0,
        0 <= j < len,
    ensures
        encode_digits(v, len).len() == len,
        encode_digits(v, len)[j] == digit_char(encode_digit_at(v, len, j)),
        0 <= encode_digit_at(v, len, j) < 83,
    decreases len,
{
    lemma_encode_digits_len(v, len);
    vstd::arithmetic::power::lemma_pow_positive(83, (len - j - 1) as nat);
    let p = pow83((len - j - 1) as nat);
    vstd::arithmetic::div_mod::lemma_div_pos_is_pos(v, p);
    vstd::arithmetic::div_mod::lemma_mod_division_less_than_divisor(v / p, 83);
    vstd::arithmetic::div_mod::lemma_div_nonincreasing(v, p);
    if j + 1 == len {
        assert(pow83(0) == 1) by {
            vstd::arithmetic::power::lemma_pow0(83);
        }
        assert(encode_digits(v, len).last() == digit_char(v % 83));
        assert(v / 1 == v) by {
            vstd::arithmetic::div_mod::lemma_div_basics_1(v);
        }
    } else {
        lemma_encode_digits_len(v / 83, (len - 1) as nat);
        lemma_encode_digits_index(v / 83, (len - 1) as nat, j);
        let e = (len - j - 2) as nat;
        assert((v / 83) / pow83(e) == v / pow83((len - j - 1) as nat)) by {
            vstd::arithmetic::power::lemma_pow_positive(83, e);
            vstd::arithmetic::div_mod::lemma_div_denominator(v, 83, pow83(e));
            vstd::arithmetic::power::lemma_pow_adds(83, 1nat, e);
            vstd::arithmetic::power::lemma_pow1(83);
        }
    }
}

/// The encoding of `v` with `len` digits has length `len`.
pub proof fn lemma_encode_digits_len(v: int, len: nat)
    ensures
        encode_digits(v, len).len() == len,
    decreases len,
{
    if len > 0 {
        lemma_encode_digits_len(v / 83, (len - 1) as nat);
    }
}

/// Every character of an encoding is an alphabet character.
pub proof fn lemma_encode_digits_alphabet(v: int, len: nat)
    requires
        v >= 0,
    ensures
        all_base83(encode_digits(v, len)),
{
    lemma_encode_digits_len(v, len);
    assert forall|j: int| 0 <= j < encode_digits(v, len).len() implies is_base83_char(
        #[trigger] encode_digits(v, len)[j],
    ) by {
        lemma_encode_digits_index(v, len, j);
        lemma_digit_char_value(encode_digit_at(v, len, j));
    }
}

/// Appending one digit multiplies the value by 83 and adds the digit.
proof fn lemma_value_from_push(s: Seq<char>, c: char, i: int)
    requires
        0 <= i <= s.len(),
    ensures
        base83_value_from(s.push(c), i) == 83 * base83_value_from(s, i) + char_value(c),
    decreases s.len() - i,
{
    let t = s.push(c);
    if i == s.len() {
        assert(pow83(0) == 1) by {
            vstd::arithmetic::power::lemma_pow0(83);
        }
        assert(t[i] == c);
        assert(base83_value_from(t, i + 1) == 0);
        assert(base83_value_from(t, i) == char_value(c) * 1 + 0);
        vstd::arithmetic::mul::lemma_mul_basics_1(char_value(c));
    } else {
        lemma_value_from_push(s, c, i + 1);
        let e = (s.len() - i - 1) as nat;
        assert(pow83(e + 1) == 83 * pow83(e)) by {
            vstd::arithmetic::power::lemma_pow_adds(83, 1nat, e);
            vstd::arithmetic::power::lemma_pow1(83);
        }
        assert(char_value(s[i]) * (83 * pow83(e)) == 83 * (char_value(s[i]) * pow83(e)))
            by (nonlinear_arith);
    }
}

/// A `len`-digit encoding decodes back to the value it was written from.
pub proof fn lemma_encode_value(v: int, len: nat)
    requires
        0 <= v < pow83(len),
    ensures
        base83_value(encode_digits(v, len)) == v,
    decreases len,
{
    if len == 0 {
        assert(pow83(0) == 1) by {
            vstd::arithmetic::power::lemma_pow0(83);
        }
    } else {
        let e = (len - 1) as nat;
        vstd::arithmetic::power::lemma_pow_positive(83, e);
        assert(pow83(len) == 83 * pow83(e)) by {
            vstd::arithmetic::power::lemma_pow_adds(83, 1nat, e);
            vstd::arithmetic::power::lemma_pow1(83);
        }
        assert(v / 83 < pow83(e)) by {
            vstd::arithmetic::div_mod::lemma_fundamental_div_mod(v, 83);
            vstd::arithmetic::div_mod::lemma_mod_division_less_than_divisor(v, 83);
            assert(83 * (v / 83) <= v);
            vstd::arithmetic::mul::lemma_mul_inequality_converse(v / 83, pow83(e), 83);
        }
        vstd::arithmetic::div_mod::lemma_div_pos_is_pos(v, 83);
        lemma_encode_value(v / 83, e);
        lemma_value_from_push(encode_digits(v / 83, e), digit_char(v % 83), 0);
        vstd::arithmetic::div_mod::lemma_mod_division_less_than_divisor(v, 83);
        lemma_digit_char_value(v % 83);
        vstd::arithmetic::div_mod::lemma_fundamental_div_mod(v, 83);
    }
}

/// Round trip: every value below `83^len` encodes to `len` alphabet
/// characters that decode back to the same value.
pub proof fn lemma_base83_roundtrip(v: u64, len: nat)
    requires
        v < pow83(len),
    ensures
        encode_digits(v as int, len).len() == len,
        all_base83(encode_digits(v as int, len)),
        base83_value(encode_digits(v as int, len)) == v,
        decode_outcome(encode_digits(v as int, len)) == DecodeOutcome::Value(v),
{
    lemma_encode_digits_len(v as int, len);
    lemma_encode_digits_alphabet(v as int, len);
    lemma_encode_value(v as int, len);
    lemma_decode_ok(encode_digits(v as int, len));
}

/// When decoding succeeds, every character was valid and the result is the
/// accumulated positional value.
proof fn lemma_decode_from_value_inv(s: Seq<char>, i: int, acc: u64)
    requires
        0 <= i <= s.len(),
        decode_from(s, i, acc) is Value,
    ensures
        all_base83_from(s, i),
        decode_from(s, i, acc) == DecodeOutcome::Value(
            (acc * pow83((s.len() - i) as nat) + base83_value_from(s, i)) as u64,
        ),
        acc * pow83((s.len() - i) as nat) + base83_value_from(s, i) <= u64::MAX,
    decreases s.len() - i,
{
    let n = s.len() as int;
    if i >= n {
        assert(pow83(0) == 1) by {
            vstd::arithmetic::power::lemma_pow0(83);
        }
    } else {
        let d = char_value(s[i]);
        let e = (n - i - 1) as nat;
        let acc2 = 83 * acc + d;
        lemma_decode_from_value_inv(s, i + 1, acc2 as u64);
        vstd::arithmetic::power::lemma_pow_positive(83, e);
        assert(pow83((n - i) as nat) == 83 * pow83(e)) by {
            vstd::arithmetic::power::lemma_pow_adds(83, 1nat, e);
            vstd::arithmetic::power::lemma_pow1(83);
        }
        assert(acc * (83 * pow83(e)) == (83 * acc) * pow83(e)) by (nonlinear_arith);
        assert((83 * acc) * pow83(e) + d * pow83(e) == (83 * acc + d) * pow83(e)) by (nonlinear_arith);
    }
}

/// When decoding a whole string succeeds it returns exactly the string's
/// positional value, and every character was in the alphabet.
pub proof fn lemma_decode_value_inv(s: Seq<char>)
    requires
        decode_outcome(s) is Value,
    ensures
        all_base83(s),
        base83_value(s) <= u64::MAX,
        decode_outcome(s) == DecodeOutcome::Value(base83_value(s) as u64),
{
    lemma_decode_from_value_inv(s, 0, 0);
    lemma_value_from_bounds(s, 0);
    vstd::arithmetic::power::lemma_pow_positive(83, s.len());
}

/// When decoding reports a bad character, that character occurs in the
/// string and is outside the alphabet.
pub proof fn lemma_decode_badchar_inv(s: Seq<char>, c: char)
    ensures
        decode_outcome(s) == DecodeOutcome::BadChar(c) ==> !is_base83_char(c) && s.contains(c),
{
    lemma_decode_from_badchar_inv(s, 0, 0, c);
}

/// Helper for [`lemma_decode_badchar_inv`], generalized over the start.
proof fn lemma_decode_from_badchar_inv(s: Seq<char>, i: int, acc: u64, c: char)
    requires
        0 <= i,
    ensures
        decode_from(s, i, acc) == DecodeOutcome::BadChar(c) ==> !is_base83_char(c) && s.contains(
            c,
        ),
    decreases s.len() - i,
{
    if i < s.len() {
        if !is_base83_char(s[i]) {
            if decode_from(s, i, acc) == DecodeOutcome::BadChar(c) {
                assert(s[i] == c);
            }
        } else if !(83 * acc + char_value(s[i]) > u64::MAX) {
            lemma_decode_from_badchar_inv(
                s,
                i + 1,
                (83 * acc + char_value(s[i])) as u64,
                c,
            );
        }
    }
}

/// Decoding a string of at most nine characters never overflows 64 bits.
pub proof fn lemma_short_decode_no_overflow(s: Seq<char>)
    requires
        s.len() <= 9,
    ensures
        !(decode_outcome(s) is Overflow),
{
    assert(pow83(0) == 1) by {
        vstd::arithmetic::power::lemma_pow0(83);
    }
    lemma_short_decode_from(s, 0, 0, 0);
}

/// Helper for [`lemma_short_decode_no_overflow`]: the accumulator stays
/// below `83^(9 - remaining)`, which fits easily in 64 bits.
proof fn lemma_short_decode_from(s: Seq<char>, i: int, acc: u64, m: nat)
    requires
        0 <= i <= s.len(),
        s.len() - i + m <= 9,
        acc < pow83(m),
    ensures
        !(decode_from(s, i, acc) is Overflow),
    decreases s.len() - i,
{
    assert(pow83(9) == 186940255267540403) by {
        reveal_with_fuel(pow, 10);
    }
    vstd::arithmetic::power::lemma_pow_positive(83, m);
    vstd::arithmetic::power::lemma_pow_increases(83, m, 9nat);
    if i < s.len() && is_base83_char(s[i]) {
        let d = char_value(s[i]);
        assert(83 * acc + d < 83 * pow83(m)) by (nonlinear_arith)
            requires
                acc < pow83(m),
                0 <= d < 83,
        ;
        assert(83 * pow83(m) == pow83(m + 1)) by {
            vstd::arithmetic::power::lemma_pow_adds(83, 1nat, m);
            vstd::arithmetic::power::lemma_pow1(83);
        }
        vstd::arithmetic::power::lemma_pow_increases(83, (m + 1) as nat, 9nat);
        lemma_short_decode_from(s, i + 1, (83 * acc + d) as u64, m + 1);
    }
}

/// ASCII byte of the alphabet character with numeric value `d`.
fn digit_to_byte(d: u8) -> (b: u8)
    requires
        d < 83,
    ensures
        b == digit_byte(d as int),
        b < 128,
{
    if d <= 9 {
        48 + d
    } else if d <= 35 {
        55 + d
    } else if d <= 61 {
        61 + d
    } else if d == 62 {
        35
    } else if d == 63 {
        36
    } else if d == 64 {
        37
    } else if d == 65 {
        42
    } else if d == 66 {
        43
    } else if d == 67 {
        44
    } else if d == 68 {
        45
    } else if d == 69 {
        46
    } else if d == 70 {
        58
    } else if d == 71 {
        59
    } else if d == 72 {
        61
    } else if d == 73 {
        63
    } else if d == 74 {
        64
    } else if d == 75 {
        91
    } else if d == 76 {
        93
    } else if d == 77 {
        94
    } else if d == 78 {
        95
    } else if d == 79 {
        123
    } else if d == 80 {
        124
    } else if d == 81 {
        125
    } else {
        126
    }
}

/// Write the `length`-digit base83 encoding of `value` into
/// `buf[offset..offset + length]`, returning the offset just past it.
///
/// The rest of the buffer is left unchanged.
pub fn encode_to_buf(value: u64, length: usize, buf: &mut Vec<u8>, offset: usize) -> (end: usize)
    requires
        offset + length <= old(buf)@.len(),
        value < pow83(length as nat),
    ensures
        end == offset + length,
        final(buf)@.len() == old(buf)@.len(),
        forall|k: int|
            0 <= k < old(buf)@.len() && !(offset <= k < offset + length) ==> final(buf)@[k]
                == old(buf)@[k],
        forall|j: int|
            0 <= j < length ==> final(buf)@[offset + j] == digit_byte(
                encode_digit_at(value as int, length as nat, j),
            ),
        forall|j: int| 0 <= j < length ==> #[trigger] final(buf)@[offset + j] < 128,
{
    let buf_len = buf.len();
    proof {
        assert(offset + length <= buf_len);
        vstd::arithmetic::power::lemma_pow0(83);
        vstd::arithmetic::div_mod::lemma_div_basics_1(value as int);
    }
    // Digits in little-endian order: digits_rev[k] holds the digit with
    // positional weight 83^k.
    let mut digits_rev: Vec<u8> = Vec::new();
    let mut rem = value;
    let mut k: usize = 0;
    while k < length
        invariant
            0 <= k <= length,
            rem == (value as int) / pow83(k as nat),
            digits_rev@.len() == k,
            forall|t: int|
                0 <= t < k ==> digits_rev@[t] == ((value as int) / pow83(t as nat)) % 83
                    && digits_rev@[t] < 83,
        decreases length - k,
    {
        proof {
            vstd::arithmetic::power::lemma_pow_positive(83, k as nat);
            vstd::arithmetic::div_mod::lemma_mod_division_less_than_divisor(
                (value as int) / pow83(k as nat),
                83,
            );
            vstd::arithmetic::div_mod::lemma_div_denominator(value as int, pow83(k as nat), 83);
            assert(pow83((k + 1) as nat) == pow83(k as nat) * 83) by {
                vstd::arithmetic::power::lemma_pow_adds(83, k as nat, 1nat);
                vstd::arithmetic::power::lemma_pow1(83);
            }
        }
        digits_rev.push((rem % 83) as u8);
        rem = rem / 83;
        k = k + 1;
    }
    let mut j: usize = 0;
    while j < length
        invariant
            0 <= j <= length,
            offset + length <= usize::MAX,
            offset + length <= buf@.len(),
            buf@.len() == old(buf)@.len(),
            digits_rev@.len() == length,
            forall|t: int|
                0 <= t < length ==> digits_rev@[t] == ((value as int) / pow83(t as nat)) % 83
                    && digits_rev@[t] < 83,
            forall|t: int|
                0 <= t < buf@.len() && !(offset <= t < offset + j) ==> buf@[t] == old(buf)@[t],
            forall|t: int|
                0 <= t < j ==> buf@[offset + t] == digit_byte(
                    encode_digit_at(value as int, length as nat, t),
                ),
            forall|t: int| 0 <= t < j ==> #[trigger] buf@[offset + t] < 128,
        decreases length - j,
    {
        let d = digits_rev[length - 1 - j];
        let b = digit_to_byte(d);
        buf[offset + j] = b;
        j = j + 1;
    }
    offset + length
}

/// Encode an integer into a base83 string of the given length, most
/// significant digit first, zero-padded on the left.
///
/// Fails with `EncodingError` if and only if `value >= 83^length`.
pub fn encode(value: u64, length: usize) -> (r: Result<String, BlurhashError>)
    ensures
        match r {
            Ok(s) => {
                &&& value < pow83(length as nat)
                &&& s@ == encode_digits(value as int, length as nat)
                &&& s@.len() == length
                &&& all_base83(s@)
                &&& base83_value(s@) == value
            },
            Err(e) => value >= pow83(length as nat) && (e matches BlurhashError::EncodingError(_)),
        },
{
    proof {
        reveal_strlit("value too large for base83 length");
    }
    proof {
        vstd::arithmetic::power::lemma_pow0(83);
        vstd::arithmetic::div_mod::lemma_div_basics_1(value as int);
    }
    // Test value < 83^length by repeated division, so that the test cannot
    // itself overflow for any length.
    let mut rem = value;
    let mut k: usize = 0;
    while k < length
        invariant
            0 <= k <= length,
            rem == (value as int) / pow83(k as nat),
        decreases length - k,
    {
        proof {
            vstd::arithmetic::power::lemma_pow_positive(83, k as nat);
            vstd::arithmetic::div_mod::lemma_div_denominator(value as int, pow83(k as nat), 83);
            assert(pow83((k + 1) as nat) == pow83(k as nat) * 83) by {
                vstd::arithmetic::power::lemma_pow_adds(83, k as nat, 1nat);
                vstd::arithmetic::power::lemma_pow1(83);
            }
        }
        rem = rem / 83;
        k = k + 1;
    }
    proof {
        vstd::arithmetic::power::lemma_pow_positive(83, length as nat);
        if value < pow83(length as nat) {
            vstd::arithmetic::div_mod::lemma_basic_div(value as int, pow83(length as nat));
        } else {
            vstd::arithmetic::div_mod::lemma_div_non_zero(value as int, pow83(length as nat));
        }
    }
    if rem > 0 {
        return Err(BlurhashError::EncodingError(String::from_str(
            "value too large for base83 length",
        )));
    }
    let mut buf: Vec<u8> = vec![0u8; length];
    encode_to_buf(value, length, &mut buf, 0);
    proof {
        lemma_encode_digits_len(value as int, length as nat);
        assert forall|j: int| 0 <= j < length implies digit_byte(
            encode_digit_at(value as int, length as nat, j),
        ) as char == encode_digits(value as int, length as nat)[j] by {
            lemma_encode_digits_index(value as int, length as nat, j);
        }
        assert forall|i: int| 0 <= i < buf@.len() implies buf@[i] < 128 by {
            assert(buf@[0 + i] < 128);
        }
    }
    let s = string_from_ascii(buf);
    proof {
        assert(s@ =~= encode_digits(value as int, length as nat));
        lemma_encode_digits_alphabet(value as int, length as nat);
        lemma_encode_value(value as int, length as nat);
    }
    Ok(s)
}

/// Relies on `String::from_utf8`: bytes below 128 are valid UTF-8 and decode
/// to one character per byte, each the same code point as the byte.
#[verifier::external_body]
pub(crate) fn string_from_ascii(bytes: Vec<u8>) -> (r: String)
    requires
        forall|i: int| 0 <= i < bytes@.len() ==> bytes@[i] < 128,
    ensures
        r@.len() == bytes@.len(),
        forall|i: int| 0 <= i < bytes@.len() ==> r@[i] == bytes@[i] as char,
{
    String::from_utf8(bytes).unwrap_or_default()
}

/// Decode a base83 string into an integer.
///
/// Returns the big-endian base83 value of `base83_str`; fails with
/// `InvalidBase83Character` on the first character outside the alphabet,
/// and with `EncodingError` if the value exceeds `u64::MAX`.
pub fn decode(base83_str: &str) -> (r: Result<u64, BlurhashError>)
    ensures
        match r {
            Ok(v) => decode_outcome(base83_str@) == DecodeOutcome::Value(v),
            Err(e) => match e {
                BlurhashError::InvalidBase83Character(c) => decode_outcome(base83_str@)
                    == DecodeOutcome::BadChar(c),
                BlurhashError::EncodingError(_) => decode_outcome(base83_str@)
                    == DecodeOutcome::Overflow,
                _ => false,
            },
        },
{
    proof {
        reveal_strlit("base83 value overflow");
    }
    let n = base83_str.unicode_len();
    let mut value: u64 = 0;
    let mut i: usize = 0;
    while i < n
        invariant
            0 <= i <= n,
            n == base83_str@.len(),
            decode_from(base83_str@, i as int, value) == decode_outcome(base83_str@),
        decreases n - i,
    {
        let c = base83_str.get_char(i);
        let digit = match char_digit(c) {
            Some(d) => d,
            None => {
                return Err(BlurhashError::InvalidBase83Character(c));
            },
        };
        value = match value.checked_mul(83) {
            Some(m) => match m.checked_add(digit as u64) {
                Some(v) => v,
                None => {
                    return Err(BlurhashError::EncodingError(String::from_str(
                        "base83 value overflow",
                    )));
                },
            },
            None => {
                return Err(BlurhashError::EncodingError(String::from_str(
                    "base83 value overflow",
                )));
            },
        };
        i = i + 1;
    }
    Ok(value)
}

} // verus!
