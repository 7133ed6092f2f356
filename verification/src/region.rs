//! Regions: the grid cells by which posts are stored and found.
//!
//! A location is a text `longitude,latitude` of two decimal numbers. Each
//! is held as a double: the written decimal is taken to the nearest double,
//! the double to the nearest integer, halves away from zero, and the
//! integer is kept within 64 bits. The region is the pair of both integers.
//! All of it is computed on the digits, in integers.

use vstd::prelude::*;
use vstd::arithmetic::div_mod::{lemma_fundamental_div_mod, lemma_mod_pos_bound};
use vstd::arithmetic::power2::{
    lemma2_to64,
    lemma2_to64_rest,
    lemma_pow2_pos,
    lemma_pow2_strictly_increases,
    lemma_pow2_unfold,
    pow2,
};
use vstd::slice::*;
use vstd::string::*;
use crate::binary64::{
    double_cell,
    exponent_above,
    lemma_cell_below,
    lemma_compare_step,
    lemma_exponent,
    lemma_mantissa_above,
    round_even,
};
use crate::decimal::{
    all_digits,
    digit_byte,
    digits_value,
    int_text,
    is_digit,
    pow10,
    write_int,
};

verus! {

/// The end of the run of ASCII digits that starts at `from`: the index of
/// the first byte at or after `from` that is no digit, or the text's length.
pub open spec fn digit_run(text: Seq<u8>, from: int) -> int
    decreases text.len() - from,
{
    if 0 <= from < text.len() && is_digit(text[from]) {
        digit_run(text, from + 1)
    } else {
        from
    }
}

/// The index of the first comma at or after `from`, or the text's length
/// where there is none.
pub open spec fn first_comma(text: Seq<u8>, from: int) -> int
    decreases text.len() - from,
{
    if 0 <= from < text.len() && text[from] != 0x2c {
        first_comma(text, from + 1)
    } else {
        from
    }
}

/// A coordinate as a text writes it.
pub enum Coordinate {
    /// A decimal number: its sign, its digits without the point, and the
    /// place of the point counted in digits from the left. The place may lie
    /// before the first digit or after the last one; zeros stand there.
    Finite { negative: bool, digits: Seq<u8>, point: int },
    /// Beyond every number, on one side.
    Infinite { negative: bool },
    /// No number at all.
    NotANumber,
}

/// The digit at place `i` of a digit string, counted from the left from
/// zero; zero at every place outside the string.
pub open spec fn digit_at(digits: Seq<u8>, i: int) -> nat {
    if 0 <= i < digits.len() {
        (digits[i] - 0x30) as nat
    } else {
        0
    }
}

/// The integer that the first `point` digits write, with zeros after the
/// last digit: the number written by `digits` with the point at `point`,
/// without its fraction.
pub open spec fn integral_part(digits: Seq<u8>, point: int) -> nat
    decreases point,
{
    if point <= 0 {
        0
    } else {
        10 * integral_part(digits, point - 1) + digit_at(digits, point - 1)
    }
}

/// The number written by the digits from place `from` up to place `to`,
/// as an integer; zeros stand at the places outside the digit string.
pub open spec fn fraction_part(digits: Seq<u8>, from: int, to: int) -> nat
    decreases to - from,
{
    if to <= from {
        0
    } else {
        10 * fraction_part(digits, from, to - 1) + digit_at(digits, to - 1)
    }
}

/// The place after the last place that a decimal number holds: the end of
/// its digits or the place of its point, whichever comes later.
pub open spec fn value_end(digits: Seq<u8>, point: int) -> int {
    if point > digits.len() {
        point
    } else {
        digits.len() as int
    }
}

/// The numerator of a decimal number as an exact fraction: the integer
/// that all its places write.
pub open spec fn value_num(digits: Seq<u8>, point: int) -> nat {
    integral_part(digits, value_end(digits, point))
}

/// The denominator of a decimal number as an exact fraction: ten to the
/// number of places after the point.
pub open spec fn value_den(digits: Seq<u8>, point: int) -> nat {
    pow10((value_end(digits, point) - point) as nat)
}

/// A decimal number held as a double and rounded to the nearest integer,
/// halves away from zero; `2^63` for every number whose double is that
/// large or larger.
pub open spec fn rounded_magnitude(digits: Seq<u8>, point: int) -> nat {
    double_cell(value_num(digits, point), value_den(digits, point))
}

/// A signed magnitude as a 64-bit integer; what lies beyond the range
/// becomes the nearest end of the range.
pub open spec fn saturated(negative: bool, magnitude: nat) -> i64 {
    if negative {
        if magnitude >= 0x8000_0000_0000_0000 {
            i64::MIN
        } else {
            (0 - magnitude) as i64
        }
    } else {
        if magnitude >= 0x7fff_ffff_ffff_ffff {
            i64::MAX
        } else {
            magnitude as i64
        }
    }
}

/// The grid cell of a coordinate: the number held as a double, rounded to
/// the nearest integer and kept within 64 bits. What is infinite lies in
/// the last cell of its side, and what is no number lies in cell zero.
pub open spec fn spec_cell(coordinate: Coordinate) -> i64 {
    match coordinate {
        Coordinate::Finite { negative, digits, point } => saturated(
            negative,
            rounded_magnitude(digits, point),
        ),
        Coordinate::Infinite { negative } => if negative {
            i64::MIN
        } else {
            i64::MAX
        },
        Coordinate::NotANumber => 0,
    }
}

/// Whether a byte is the letter `e` in either case.
pub open spec fn is_exponent_mark(b: u8) -> bool {
    b == 0x65 || b == 0x45
}

/// Whether a byte is a `+` or a `-`.
pub open spec fn is_sign(b: u8) -> bool {
    b == 0x2b || b == 0x2d
}

/// The digits and the place of the point that an unsigned decimal text
/// writes. The text is digits, a point within, before or after them allowed,
/// with at least one digit in all; an exponent may follow, which is the
/// letter `e`, a sign if any, and at least one digit, and moves the point by
/// that many places. `None` for every other text.
pub open spec fn spec_parse_number(body: Seq<u8>) -> Option<(Seq<u8>, int)> {
    let int_end = digit_run(body, 0);
    let has_point = int_end < body.len() && body[int_end] == 0x2e;
    let frac_start = if has_point {
        int_end + 1
    } else {
        int_end
    };
    let frac_end = digit_run(body, frac_start);
    let digits = body.subrange(0, int_end) + body.subrange(frac_start, frac_end);
    if digits.len() == 0 {
        None
    } else if frac_end == body.len() {
        Some((digits, int_end))
    } else if is_exponent_mark(body[frac_end]) {
        let sign_at = frac_end + 1;
        let signed = sign_at < body.len() && is_sign(body[sign_at]);
        let exp_start = if signed {
            sign_at + 1
        } else {
            sign_at
        };
        let exp_end = digit_run(body, exp_start);
        if exp_start < exp_end && exp_end == body.len() {
            let shift = digits_value(body.subrange(exp_start, exp_end));
            if signed && body[sign_at] == 0x2d {
                Some((digits, int_end - shift))
            } else {
                Some((digits, int_end + shift))
            }
        } else {
            None
        }
    } else {
        None
    }
}

/// Whether a text is the given lower-case word, in any mix of cases.
pub open spec fn is_word(text: Seq<u8>, word: Seq<u8>) -> bool {
    text.len() == word.len() && forall|i: int|
        0 <= i < word.len() ==> #[trigger] text[i] == word[i] || text[i] == word[i] - 0x20
}

/// The words `inf` and `infinity`.
pub open spec fn is_infinity_word(text: Seq<u8>) -> bool {
    is_word(text, seq![0x69u8, 0x6e, 0x66]) || is_word(
        text,
        seq![0x69u8, 0x6e, 0x66, 0x69, 0x6e, 0x69, 0x74, 0x79],
    )
}

/// The word `nan`.
pub open spec fn is_nan_word(text: Seq<u8>) -> bool {
    is_word(text, seq![0x6eu8, 0x61, 0x6e])
}

/// The coordinate that a text writes: a sign if any, then a decimal number,
/// or one of the words `inf`, `infinity` and `nan` in any mix of cases.
/// `None` for every other text, the empty one and a bare sign among them.
pub open spec fn spec_parse_coordinate(text: Seq<u8>) -> Option<Coordinate> {
    let signed = text.len() > 0 && is_sign(text[0]);
    let negative = text.len() > 0 && text[0] == 0x2d;
    let body = if signed {
        text.skip(1)
    } else {
        text
    };
    if body.len() == 0 {
        None
    } else {
        match spec_parse_number(body) {
            Some((digits, point)) => Some(Coordinate::Finite { negative, digits, point }),
            None => if is_infinity_word(body) {
                Some(Coordinate::Infinite { negative })
            } else if is_nan_word(body) {
                Some(Coordinate::NotANumber)
            } else {
                None
            },
        }
    }
}

/// The grid cell that a coordinate text names, if it writes a coordinate.
pub open spec fn spec_coordinate_cell(text: Seq<u8>) -> Option<i64> {
    match spec_parse_coordinate(text) {
        Some(coordinate) => Some(spec_cell(coordinate)),
        None => None,
    }
}

/// The region of a location: the text is cut at its first comma, and both
/// parts must write a coordinate, the longitude first. `None` for a text
/// without a comma or with a part that writes no coordinate.
pub open spec fn spec_region(location: Seq<u8>) -> Option<(i64, i64)> {
    let comma = first_comma(location, 0);
    if comma >= location.len() {
        None
    } else {
        let longitude = spec_coordinate_cell(location.subrange(0, comma));
        let latitude = spec_coordinate_cell(location.subrange(comma + 1, location.len() as int));
        if longitude is Some && latitude is Some {
            Some((longitude->0, latitude->0))
        } else {
            None
        }
    }
}

/// A digit run ends within the text, holds digits only, and ends at a byte
/// that is no digit.
pub proof fn lemma_digit_run(text: Seq<u8>, from: int)
    requires
        0 <= from <= text.len(),
    ensures
        from <= digit_run(text, from) <= text.len(),
        all_digits(text.subrange(from, digit_run(text, from))),
        digit_run(text, from) < text.len() ==> !is_digit(text[digit_run(text, from)]),
    decreases text.len() - from,
{
    if from < text.len() && is_digit(text[from]) {
        lemma_digit_run(text, from + 1);
        let end = digit_run(text, from);
        assert forall|i: int| 0 <= i < end - from implies is_digit(
            #[trigger] text.subrange(from, end)[i],
        ) by {
            if i > 0 {
                assert(text.subrange(from, end)[i] == text.subrange(from + 1, end)[i - 1]);
            }
        }
    }
}

/// Finds the end of the run of digits that starts at `from`.
pub fn scan_digits(text: &[u8], from: usize) -> (end: usize)
    requires
        from <= text@.len(),
    ensures
        end == digit_run(text@, from as int),
        from <= end <= text@.len(),
{
    let mut i: usize = from;
    while i < text.len() && digit_byte(text[i])
        invariant
            from <= i <= text@.len(),
            digit_run(text@, from as int) == digit_run(text@, i as int),
        decreases text@.len() - i,
    {
        i += 1;
    }
    i
}

/// Finds the first comma of a text.
pub fn find_comma(text: &[u8]) -> (at: usize)
    ensures
        at == first_comma(text@, 0),
        at <= text@.len(),
        at < text@.len() ==> text@[at as int] == 0x2c,
{
    let mut i: usize = 0;
    while i < text.len() && text[i] != 0x2c
        invariant
            i <= text@.len(),
            first_comma(text@, 0) == first_comma(text@, i as int),
        decreases text@.len() - i,
    {
        i += 1;
    }
    i
}

/// Moving the point to the right never makes the integral part smaller.
pub proof fn lemma_integral_monotone(digits: Seq<u8>, a: int, b: int)
    requires
        a <= b,
    ensures
        integral_part(digits, a) <= integral_part(digits, b),
    decreases b - a,
{
    if a < b {
        lemma_integral_monotone(digits, a, b - 1);
    }
}

/// Past the last digit, an integral part of zero stays zero.
pub proof fn lemma_zero_stays(digits: Seq<u8>, a: int, b: int)
    requires
        digits.len() <= a <= b,
        integral_part(digits, a) == 0,
    ensures
        integral_part(digits, b) == 0,
    decreases b - a,
{
    if a < b {
        lemma_zero_stays(digits, a, b - 1);
    }
}

/// Past the last digit, an integral part that is not zero grows tenfold
/// with every place.
pub proof fn lemma_tail_grows(digits: Seq<u8>, a: int, k: nat)
    requires
        0 <= a,
        integral_part(digits, a) >= 1,
    ensures
        integral_part(digits, a + k) >= pow10(k),
    decreases k,
{
    if k > 0 {
        lemma_tail_grows(digits, a, (k - 1) as nat);
    }
}

/// Ten to any power is at least one.
pub proof fn lemma_pow10_pos(n: nat)
    ensures
        pow10(n) >= 1,
    decreases n,
{
    if n > 0 {
        lemma_pow10_pos((n - 1) as nat);
    }
}

/// A larger power of ten is at least ten times a smaller one.
pub proof fn lemma_pow10_grows(a: nat, b: nat)
    requires
        a < b,
    ensures
        10 * pow10(a) <= pow10(b),
    decreases b - a,
{
    if a + 1 < b {
        lemma_pow10_grows(a, (b - 1) as nat);
    }
}

/// The digit at any place is at most nine.
pub proof fn lemma_digit_at_most_nine(digits: Seq<u8>, i: int)
    requires
        all_digits(digits),
    ensures
        digit_at(digits, i) <= 9,
{
    if 0 <= i < digits.len() {
        assert(is_digit(digits[i]));
    }
}

/// A number is its whole part and its fraction: the integer written up to
/// place `to` is the integer written up to place `from`, moved by the
/// places between, and then what those places write, which stays below
/// ten to their number.
pub proof fn lemma_whole_and_fraction(digits: Seq<u8>, from: int, to: int)
    requires
        all_digits(digits),
        from <= to,
    ensures
        integral_part(digits, to) == integral_part(digits, from) * pow10((to - from) as nat)
            + fraction_part(digits, from, to),
        fraction_part(digits, from, to) < pow10((to - from) as nat),
    decreases to - from,
{
    if from < to {
        lemma_whole_and_fraction(digits, from, to - 1);
        lemma_digit_at_most_nine(digits, to - 1);
        let d = digit_at(digits, to - 1);
        let before = pow10((to - 1 - from) as nat);
        let whole = integral_part(digits, from);
        let part = fraction_part(digits, from, to - 1);
        assert(integral_part(digits, to) == 10 * integral_part(digits, to - 1) + d);
        assert(pow10((to - from) as nat) == 10 * before);
        assert(10 * (whole * before + part) + d == whole * (10 * before) + (10 * part + d))
            by (nonlinear_arith);
    } else {
        assert(integral_part(digits, from) * 1 == integral_part(digits, from))
            by (nonlinear_arith);
    }
}

/// What places write begins with their first digit: it is that digit moved
/// by the places after it, and then what those write.
pub proof fn lemma_fraction_split(digits: Seq<u8>, from: int, to: int)
    requires
        all_digits(digits),
        from < to,
    ensures
        fraction_part(digits, from, to) == digit_at(digits, from) * pow10((to - from - 1) as nat)
            + fraction_part(digits, from + 1, to),
    decreases to - from,
{
    let first = digit_at(digits, from);
    if from + 1 < to {
        lemma_fraction_split(digits, from, to - 1);
        let d = digit_at(digits, to - 1);
        let before = pow10((to - 1 - from - 1) as nat);
        let rest = fraction_part(digits, from + 1, to - 1);
        assert(pow10((to - from - 1) as nat) == 10 * before);
        assert(10 * (first * before + rest) + d == first * (10 * before) + (10 * rest + d))
            by (nonlinear_arith);
    } else {
        assert(fraction_part(digits, from, from) == 0);
        assert(fraction_part(digits, from + 1, to) == 0);
        assert(first * 1 == first) by (nonlinear_arith);
    }
}

/// A number whose point lies before its first digit is below a tenth, and
/// lies in cell zero.
pub proof fn lemma_point_before(digits: Seq<u8>, point: int)
    requires
        all_digits(digits),
        point < 0,
    ensures
        rounded_magnitude(digits, point) == 0,
{
    let len = digits.len() as int;
    lemma_whole_and_fraction(digits, 0, len);
    assert(integral_part(digits, 0) * pow10(len as nat) == 0) by (nonlinear_arith)
        requires
            integral_part(digits, 0) == 0,
    ;
    lemma_pow10_grows(len as nat, (len - point) as nat);
}

/// Once the point lies nineteen places or more past the last digit, the
/// cell no longer depends on where exactly it lies: the number is zero or
/// beyond the range.
pub proof fn lemma_far_point(digits: Seq<u8>, negative: bool, near: int, far: int)
    requires
        digits.len() + 19 <= near <= far,
    ensures
        saturated(negative, rounded_magnitude(digits, far)) == saturated(
            negative,
            rounded_magnitude(digits, near),
        ),
{
    let n = digits.len() as int;
    lemma2_to64_rest();
    assert(pow10(0) == 1);
    if integral_part(digits, n) == 0 {
        lemma_zero_stays(digits, n, near);
        lemma_zero_stays(digits, n, far);
    } else {
        lemma_tail_grows(digits, n, 19);
        assert(pow10(19) == 10_000_000_000_000_000_000nat) by {
            reveal_with_fuel(pow10, 20);
        }
        lemma_integral_monotone(digits, n + 19, near);
        lemma_integral_monotone(digits, n + 19, far);
        let big = pow2(63);
        assert(big * 1 == big) by (nonlinear_arith);
    }
}

/// The largest shift of the point that is still told apart from a larger
/// one. It is far more than the length of any text.
pub const SHIFT_CAP: u128 = 0x10_0000_0000_0000_0000_0000_0000;

/// Reads the digits of an exponent, which lie in `body` from `start` to
/// `end`. Up to `SHIFT_CAP` the result is the number they write; beyond it,
/// the result is some number from `SHIFT_CAP` up to that number.
fn parse_shift(body: &[u8], start: usize, end: usize) -> (shift: u128)
    requires
        start <= end <= body@.len(),
        all_digits(body@.subrange(start as int, end as int)),
    ensures
        shift <= digits_value(body@.subrange(start as int, end as int)),
        shift < SHIFT_CAP ==> shift == digits_value(body@.subrange(start as int, end as int)),
        shift <= 10 * SHIFT_CAP + 9,
{
    let ghost digits = body@.subrange(start as int, end as int);
    let mut shift: u128 = 0;
    let mut i: usize = start;
    while i < end
        invariant
            start <= i <= end <= body@.len(),
            digits == body@.subrange(start as int, end as int),
            all_digits(digits),
            shift <= digits_value(digits.take(i - start)),
            shift < SHIFT_CAP ==> shift == digits_value(digits.take(i - start)),
            shift <= 10 * SHIFT_CAP + 9,
        decreases end - i,
    {
        let ghost longer = digits.take(i - start + 1);
        assert(longer.drop_last() =~= digits.take(i - start));
        assert(longer.last() == body@[i as int]);
        assert(is_digit(digits[i - start]));
        if shift < SHIFT_CAP {
            shift = shift * 10 + (body[i] - 0x30) as u128;
        }
        i += 1;
    }
    assert(digits.take(i - start) =~= digits);
    shift
}

/// The digits of a number of which `body` holds the integral digits from its
/// start up to `int_end` and the fraction's digits from `frac_start` up to
/// `frac_end`.
pub open spec fn digits_of(body: Seq<u8>, int_end: int, frac_start: int, frac_end: int) -> Seq<u8> {
    body.subrange(0, int_end) + body.subrange(frac_start, frac_end)
}

/// What `digits_of` says of each digit: where it lies in `body`, and that
/// every one is a digit.
proof fn lemma_digits_of(body: Seq<u8>, int_end: int, frac_start: int, frac_end: int)
    requires
        0 <= int_end <= frac_start <= frac_end <= body.len(),
        all_digits(body.subrange(0, int_end)),
        all_digits(body.subrange(frac_start, frac_end)),
    ensures
        digits_of(body, int_end, frac_start, frac_end).len() == int_end + (frac_end - frac_start),
        all_digits(digits_of(body, int_end, frac_start, frac_end)),
        forall|k: int|
            0 <= k < int_end + (frac_end - frac_start) ==> #[trigger] digits_of(
                body,
                int_end,
                frac_start,
                frac_end,
            )[k] == (if k < int_end {
                body[k]
            } else {
                body[k + (frac_start - int_end)]
            }),
{
    let digits = digits_of(body, int_end, frac_start, frac_end);
    assert forall|k: int| 0 <= k < digits.len() implies is_digit(#[trigger] digits[k]) && digits[k]
        == (if k < int_end {
        body[k]
    } else {
        body[k + (frac_start - int_end)]
    }) by {
        if k < int_end {
            assert(digits[k] == body.subrange(0, int_end)[k]);
        } else {
            assert(digits[k] == body.subrange(frac_start, frac_end)[k - int_end]);
        }
    }
}

/// The digit at place `k` of the number whose digits lie in `body`.
fn nth_digit(body: &[u8], int_end: usize, frac_start: usize, frac_end: usize, k: usize) -> (d: u8)
    requires
        int_end <= frac_start <= frac_end <= body@.len(),
        all_digits(body@.subrange(0, int_end as int)),
        all_digits(body@.subrange(frac_start as int, frac_end as int)),
        k < int_end + (frac_end - frac_start),
    ensures
        d == digit_at(digits_of(body@, int_end as int, frac_start as int, frac_end as int), k as int),
        d <= 9,
{
    proof {
        lemma_digits_of(body@, int_end as int, frac_start as int, frac_end as int);
    }
    let len = body.len();
    let b = if k < int_end {
        body[k]
    } else {
        body[k + (frac_start - int_end)]
    };
    let ghost digits = digits_of(body@, int_end as int, frac_start as int, frac_end as int);
    assert(b == digits[k as int]);
    assert(is_digit(digits[k as int]));
    b - 0x30
}

/// Two to the power `n`.
fn power_of_two(n: u32) -> (p: u64)
    requires
        n <= 63,
    ensures
        p == pow2(n as nat),
        p >= 1,
{
    let mut p: u64 = 1;
    let mut i: u32 = 0;
    proof {
        lemma2_to64();
    }
    while i < n
        invariant
            i <= n <= 63,
            p == pow2(i as nat),
            p >= 1,
        decreases n - i,
    {
        proof {
            lemma_pow2_unfold((i + 1) as nat);
            lemma2_to64_rest();
            if i + 1 < 63 {
                lemma_pow2_strictly_increases((i + 1) as nat, 63);
            }
        }
        p = p * 2;
        i += 1;
    }
    p
}

/// Compares the fraction that the places from `start` on write with the
/// fraction `c / unit`, digit by digit: the sign of the first less the
/// second.
fn compare_fraction(
    body: &[u8],
    int_end: usize,
    frac_start: usize,
    frac_end: usize,
    start: usize,
    c: u64,
    unit: u64,
) -> (sign: i8)
    requires
        int_end <= frac_start <= frac_end <= body@.len(),
        all_digits(body@.subrange(0, int_end as int)),
        all_digits(body@.subrange(frac_start as int, frac_end as int)),
        start <= int_end + (frac_end - frac_start),
        1 <= unit <= 0x80_0000_0000_0000,
        c < unit,
    ensures
        -1 <= sign <= 1,
        ({
            let digits = digits_of(body@, int_end as int, frac_start as int, frac_end as int);
            let end = digits.len() as int;
            let left = fraction_part(digits, start as int, end) * unit;
            let right = c * pow10((end - start) as nat);
            &&& sign > 0 <==> left > right
            &&& sign == 0 <==> left == right
        }),
{
    let ghost digits = digits_of(body@, int_end as int, frac_start as int, frac_end as int);
    let count: usize = int_end + (frac_end - frac_start);
    let ghost end = count as int;
    proof {
        lemma_digits_of(body@, int_end as int, frac_start as int, frac_end as int);
    }
    let ghost first: int = fraction_part(digits, start as int, end) * unit - c * pow10(
        (end - start) as nat,
    );
    let mut r: u64 = c;
    let mut i: usize = start;
    while i < count
        invariant
            start <= i <= count,
            count == int_end + (frac_end - frac_start),
            end == count,
            int_end <= frac_start <= frac_end <= body@.len(),
            all_digits(body@.subrange(0, int_end as int)),
            all_digits(body@.subrange(frac_start as int, frac_end as int)),
            digits == digits_of(body@, int_end as int, frac_start as int, frac_end as int),
            all_digits(digits),
            digits.len() == count,
            1 <= unit <= 0x80_0000_0000_0000,
            r < unit,
            first == fraction_part(digits, start as int, end) * unit - c * pow10(
                (end - start) as nat,
            ),
            ({
                let now = fraction_part(digits, i as int, end) * unit - r * pow10(
                    (end - i) as nat,
                );
                &&& first > 0 <==> now > 0
                &&& first == 0 <==> now == 0
            }),
        decreases count - i,
    {
        let f = nth_digit(body, int_end, frac_start, frac_end, i) as u64;
        let t = 10 * r / unit;
        let next = 10 * r % unit;
        proof {
            lemma_fraction_split(digits, i as int, end);
            lemma_whole_and_fraction(digits, i + 1, end);
            lemma_pow10_pos((end - i - 1) as nat);
            lemma_compare_step(
                fraction_part(digits, i as int, end),
                f as nat,
                fraction_part(digits, i + 1, end),
                pow10((end - i - 1) as nat),
                r as nat,
                unit as nat,
            );
            assert(pow10((end - i) as nat) == 10 * pow10((end - i - 1) as nat));
        }
        if f > t {
            return 1;
        }
        if f < t {
            return -1;
        }
        r = next;
        i += 1;
    }
    assert(fraction_part(digits, end, end) == 0);
    assert(pow10(0) == 1);
    assert(0 * unit - r * 1 == -r) by (nonlinear_arith);
    if r == 0 {
        0
    } else {
        -1
    }
}

/// Whether `num / den` is the number with the whole part `whole` and the
/// fraction that the places of `digits` from `start` on write.
pub open spec fn is_value(digits: Seq<u8>, start: int, whole: nat, num: nat, den: nat) -> bool {
    &&& all_digits(digits)
    &&& 0 <= start <= digits.len()
    &&& den == pow10((digits.len() - start) as nat)
    &&& num == whole * den + fraction_part(digits, start, digits.len() as int)
}

/// The parts of a value: its denominator is at least one and its fraction
/// is below it.
proof fn lemma_is_value(digits: Seq<u8>, start: int, whole: nat, num: nat, den: nat)
    requires
        is_value(digits, start, whole, num, den),
    ensures
        den >= 1,
        fraction_part(digits, start, digits.len() as int) < den,
        whole * den <= num < (whole + 1) * den,
{
    let end = digits.len() as int;
    lemma_whole_and_fraction(digits, start, end);
    lemma_pow10_pos((end - start) as nat);
    let fnum = fraction_part(digits, start, end);
    assert(whole * den <= num < (whole + 1) * den) by (nonlinear_arith)
        requires
            num == whole * den + fnum,
            0 <= fnum < den,
    ;
}

/// Finds the binary exponent of a value below `2^63`, counted from minus
/// two; `None` for a value below a quarter.
fn find_exponent(
    body: &[u8],
    int_end: usize,
    frac_start: usize,
    frac_end: usize,
    start: usize,
    whole: u64,
    Ghost(num): Ghost<nat>,
    Ghost(den): Ghost<nat>,
) -> (found: Option<u32>)
    requires
        int_end <= frac_start <= frac_end <= body@.len(),
        all_digits(body@.subrange(0, int_end as int)),
        all_digits(body@.subrange(frac_start as int, frac_end as int)),
        start <= int_end + (frac_end - frac_start),
        whole < 0x8000_0000_0000_0000,
        is_value(
            digits_of(body@, int_end as int, frac_start as int, frac_end as int),
            start as int,
            whole as nat,
            num,
            den,
        ),
    ensures
        found is None ==> 4 * num < den,
        found matches Some(x) ==> 4 * num >= den && x <= 64 && exponent_above(num, den, 0) == x
            && (whole == 0 ==> x <= 1) && (whole >= 1 ==> x >= 2 && pow2((x - 2) as nat) <= whole
            < pow2((x - 1) as nat)),
{
    let ghost digits = digits_of(body@, int_end as int, frac_start as int, frac_end as int);
    let ghost end = digits.len() as int;
    let ghost fnum = fraction_part(digits, start as int, end);
    proof {
        lemma_is_value(digits, start as int, whole as nat, num, den);
        lemma2_to64();
    }
    if whole == 0 {
        assert(num == fnum) by (nonlinear_arith)
            requires
                num == whole * den + fnum,
                whole == 0,
        ;
        let half = compare_fraction(body, int_end, frac_start, frac_end, start, 1, 2);
        assert(1 * den == den) by (nonlinear_arith);
        if half >= 0 {
            proof {
                assert(4 * num >= pow2(1) * den && 4 * num < pow2(2) * den) by (nonlinear_arith)
                    requires
                        num == fnum,
                        fnum * 2 >= den,
                        fnum < den,
                        pow2(1) == 2,
                        pow2(2) == 4,
                ;
                lemma_exponent(num, den, 0, 1);
            }
            Some(1)
        } else {
            let quarter = compare_fraction(body, int_end, frac_start, frac_end, start, 1, 4);
            if quarter < 0 {
                None
            } else {
                proof {
                    assert(4 * num < pow2(1) * den) by (nonlinear_arith)
                        requires
                            num == fnum,
                            fnum * 2 < den,
                            pow2(1) == 2,
                    ;
                    lemma_exponent(num, den, 0, 0);
                }
                Some(0)
            }
        }
    } else {
        let mut e: u32 = 0;
        let mut p: u64 = 1;
        while p <= whole / 2
            invariant
                p == pow2(e as nat),
                1 <= p <= whole,
                whole < 0x8000_0000_0000_0000,
                e <= 62,
            decreases whole - p,
        {
            proof {
                lemma_pow2_unfold((e + 1) as nat);
                lemma2_to64_rest();
                if e + 1 > 62 {
                    if e + 1 > 63 {
                        lemma_pow2_strictly_increases(63, (e + 1) as nat);
                    }
                    assert(false);
                }
            }
            p = p * 2;
            e += 1;
        }
        proof {
            lemma_pow2_unfold((e + 1) as nat);
            lemma_pow2_unfold((e + 2) as nat);
            lemma_pow2_unfold((e + 3) as nat);
            let pe = pow2(e as nat);
            assert(whole + 1 <= 2 * pe);
            assert(4 * num >= (4 * pe) * den && 4 * num < (8 * pe) * den) by (nonlinear_arith)
                requires
                    whole * den <= num < (whole + 1) * den,
                    pe <= whole,
                    whole + 1 <= 2 * pe,
                    den >= 1,
            ;
            assert((4 * pe) * den >= den) by (nonlinear_arith)
                requires
                    pe >= 1,
                    den >= 1,
            ;
            lemma_exponent(num, den, 0, (e + 2) as nat);
        }
        Some(e + 2)
    }
}

/// The cell of a value below `2^52`, whose double has a fraction counted in
/// units of `2^(-t)`.
fn cell_below(
    body: &[u8],
    int_end: usize,
    frac_start: usize,
    frac_end: usize,
    start: usize,
    whole: u64,
    t: u32,
    Ghost(num): Ghost<nat>,
    Ghost(den): Ghost<nat>,
) -> (magnitude: u128)
    requires
        int_end <= frac_start <= frac_end <= body@.len(),
        all_digits(body@.subrange(0, int_end as int)),
        all_digits(body@.subrange(frac_start as int, frac_end as int)),
        start <= int_end + (frac_end - frac_start),
        whole < 0x8000_0000_0000_0000,
        1 <= t <= 54,
        is_value(
            digits_of(body@, int_end as int, frac_start as int, frac_end as int),
            start as int,
            whole as nat,
            num,
            den,
        ),
    ensures
        magnitude == (round_even(num * pow2(t as nat), den) + pow2((t - 1) as nat)) / pow2(
            t as nat,
        ),
{
    let ghost digits = digits_of(body@, int_end as int, frac_start as int, frac_end as int);
    let ghost fnum = fraction_part(digits, start as int, digits.len() as int);
    let unit = power_of_two(t + 1);
    let c = power_of_two(t) - 1;
    proof {
        lemma_is_value(digits, start as int, whole as nat, num, den);
        lemma_pow2_unfold((t + 1) as nat);
        lemma2_to64_rest();
        if t + 1 < 55 {
            lemma_pow2_strictly_increases((t + 1) as nat, 55);
        }
    }
    let sign = compare_fraction(body, int_end, frac_start, frac_end, start, c, unit);
    proof {
        lemma_cell_below(whole as nat, fnum, den, t as nat);
        let tt = pow2(t as nat);
        assert(fnum * unit == 2 * fnum * tt) by (nonlinear_arith)
            requires
                unit == 2 * tt,
        ;
    }
    if sign > 0 || (sign == 0 && t >= 2) {
        (whole + 1) as u128
    } else {
        whole as u128
    }
}

/// The cell of a value from `2^52` on, whose double is an integer counted
/// in units of `2^j`.
fn cell_above(
    body: &[u8],
    int_end: usize,
    frac_start: usize,
    frac_end: usize,
    start: usize,
    whole: u64,
    j: u32,
    Ghost(num): Ghost<nat>,
    Ghost(den): Ghost<nat>,
) -> (magnitude: u128)
    requires
        int_end <= frac_start <= frac_end <= body@.len(),
        all_digits(body@.subrange(0, int_end as int)),
        all_digits(body@.subrange(frac_start as int, frac_end as int)),
        start <= int_end + (frac_end - frac_start),
        whole < 0x8000_0000_0000_0000,
        j <= 10,
        is_value(
            digits_of(body@, int_end as int, frac_start as int, frac_end as int),
            start as int,
            whole as nat,
            num,
            den,
        ),
    ensures
        magnitude == round_even(num, den * pow2(j as nat)) * pow2(j as nat),
{
    let ghost digits = digits_of(body@, int_end as int, frac_start as int, frac_end as int);
    let ghost fnum = fraction_part(digits, start as int, digits.len() as int);
    let s = power_of_two(j);
    proof {
        lemma_is_value(digits, start as int, whole as nat, num, den);
        lemma_mantissa_above(whole as nat, fnum, den, s as nat);
        lemma_fundamental_div_mod(whole as int, s as int);
        lemma_mod_pos_bound(whole as int, s as int);
        lemma2_to64();
        if j >= 1 {
            lemma_pow2_unfold(j as nat);
        }
        if j < 10 {
            lemma_pow2_strictly_increases(j as nat, 10);
        }
    }
    let q = whole / s;
    let r = whole % s;
    let ghost two_rem = 2 * (r * den + fnum);
    let sign: i8 = if j == 0 {
        let half = compare_fraction(body, int_end, frac_start, frac_end, start, 1, 2);
        assert(two_rem == fnum * 2 && den * s == 1 * den) by (nonlinear_arith)
            requires
                two_rem == 2 * (r * den + fnum),
                r == 0,
                s == 1,
        ;
        half
    } else {
        let sticky = compare_fraction(body, int_end, frac_start, frac_end, start, 0, 1);
        assert(fnum * 1 == fnum && 0 * den == 0) by (nonlinear_arith);
        let h = s / 2;
        if r > h {
            1
        } else if r < h {
            -1
        } else {
            sticky
        }
    };
    assert(sign > 0 <==> two_rem > den * s);
    assert(sign == 0 <==> two_rem == den * s);
    assert(q * s <= whole) by (nonlinear_arith)
        requires
            whole == s * q + r,
            r >= 0,
    ;
    let mantissa: u128 = if sign > 0 || (sign == 0 && q % 2 == 1) {
        (q + 1) as u128
    } else {
        q as u128
    };
    assert(mantissa * s <= 0x8000_0000_0000_0000 + 0x400) by (nonlinear_arith)
        requires
            mantissa <= q + 1,
            q * s <= whole,
            whole < 0x8000_0000_0000_0000,
            1 <= s <= 0x400,
    ;
    mantissa * (s as u128)
}

/// The cell of a value below `2^63`: its double, rounded to the nearest
/// integer.
fn round_double(
    body: &[u8],
    int_end: usize,
    frac_start: usize,
    frac_end: usize,
    start: usize,
    whole: u64,
    Ghost(num): Ghost<nat>,
    Ghost(den): Ghost<nat>,
) -> (magnitude: u128)
    requires
        int_end <= frac_start <= frac_end <= body@.len(),
        all_digits(body@.subrange(0, int_end as int)),
        all_digits(body@.subrange(frac_start as int, frac_end as int)),
        start <= int_end + (frac_end - frac_start),
        whole < 0x8000_0000_0000_0000,
        is_value(
            digits_of(body@, int_end as int, frac_start as int, frac_end as int),
            start as int,
            whole as nat,
            num,
            den,
        ),
    ensures
        magnitude == double_cell(num, den),
{
    proof {
        let digits = digits_of(body@, int_end as int, frac_start as int, frac_end as int);
        lemma_is_value(digits, start as int, whole as nat, num, den);
        lemma2_to64_rest();
        assert(num < pow2(63) * den) by (nonlinear_arith)
            requires
                num < (whole + 1) * den,
                whole + 1 <= pow2(63),
                den >= 1,
        ;
    }
    match find_exponent(body, int_end, frac_start, frac_end, start, whole, Ghost(num), Ghost(den)) {
        None => 0,
        Some(x) => {
            if x <= 53 {
                cell_below(
                    body,
                    int_end,
                    frac_start,
                    frac_end,
                    start,
                    whole,
                    54 - x,
                    Ghost(num),
                    Ghost(den),
                )
            } else {
                proof {
                    if x - 1 > 63 {
                        lemma_pow2_strictly_increases(63, (x - 1) as nat);
                    }
                    assert(x <= 64);
                }
                cell_above(
                    body,
                    int_end,
                    frac_start,
                    frac_end,
                    start,
                    whole,
                    x - 54,
                    Ghost(num),
                    Ghost(den),
                )
            }
        },
    }
}

/// Rounds the number whose digits lie in `body` as `digits_of` has it, with
/// the point at `point`.
fn round_digits(
    body: &[u8],
    int_end: usize,
    frac_start: usize,
    frac_end: usize,
    point: i128,
    negative: bool,
) -> (cell: i64)
    requires
        int_end <= frac_start <= frac_end <= body@.len(),
        all_digits(body@.subrange(0, int_end as int)),
        all_digits(body@.subrange(frac_start as int, frac_end as int)),
    ensures
        cell == saturated(
            negative,
            rounded_magnitude(
                digits_of(body@, int_end as int, frac_start as int, frac_end as int),
                point as int,
            ),
        ),
{
    let ghost digits = digits_of(body@, int_end as int, frac_start as int, frac_end as int);
    let len = body.len();
    let count: usize = int_end + (frac_end - frac_start);
    let gap: usize = frac_start - int_end;
    assert(digits.len() == count);
    assert forall|k: int| 0 <= k < count implies #[trigger] digits[k] == (if k < int_end {
        body@[k]
    } else {
        body@[k + gap]
    }) && is_digit(digits[k]) by {
        if k < int_end {
            assert(digits[k] == body@.subrange(0, int_end as int)[k]);
        } else {
            assert(digits[k] == body@.subrange(frac_start as int, frac_end as int)[k - int_end]);
        }
    }
    let limit: u128 = 0x8000_0000_0000_0000;
    let mut whole: u128 = 0;
    let mut i: i128 = 0;
    while i < point && whole < limit && !(i >= count as i128 && whole == 0)
        invariant
            0 <= i,
            point >= 0 ==> i <= point,
            point < 0 ==> i == 0,
            len == body@.len(),
            count == digits.len(),
            gap + count <= len,
            limit == 0x8000_0000_0000_0000,
            forall|k: int|
                0 <= k < count ==> #[trigger] digits[k] == (if k < int_end {
                    body@[k]
                } else {
                    body@[k + gap]
                }) && is_digit(digits[k]),
            whole <= limit,
            whole < limit ==> whole == integral_part(digits, i as int),
            whole == limit ==> integral_part(digits, i as int) >= limit,
        decreases point - i,
    {
        let d: u128 = if i < count as i128 {
            let k: usize = i as usize;
            let b = if k < int_end {
                body[k]
            } else {
                body[k + gap]
            };
            assert(b == digits[k as int]);
            (b - 0x30) as u128
        } else {
            0
        };
        assert(d == digit_at(digits, i as int));
        whole = whole * 10 + d;
        if whole > limit {
            whole = limit;
        }
        i += 1;
    }
    proof {
        if point < 0 {
            assert(integral_part(digits, 0) == 0);
            assert(integral_part(digits, point as int) == 0);
        } else if i < point {
            if whole == limit {
                lemma_integral_monotone(digits, i as int, point as int);
            } else {
                assert(i >= count && whole == 0);
                lemma_zero_stays(digits, i as int, point as int);
            }
        }
    }
    assert(whole < limit ==> whole == integral_part(digits, point as int));
    assert(whole == limit ==> integral_part(digits, point as int) >= limit);
    let ghost stop = value_end(digits, point as int);
    let ghost num = value_num(digits, point as int);
    let ghost den = value_den(digits, point as int);
    let ghost fnum = fraction_part(digits, point as int, stop);
    proof {
        lemma_digits_of(body@, int_end as int, frac_start as int, frac_end as int);
        lemma2_to64();
        lemma2_to64_rest();
        if point < 0 {
            lemma_point_before(digits, point as int);
        } else {
            lemma_whole_and_fraction(digits, point as int, stop);
            lemma_pow10_pos((stop - point) as nat);
            assert(num == integral_part(digits, point as int) * den + fnum);
        }
    }
    let magnitude: u128 = if point < 0 {
        0
    } else if whole >= limit {
        proof {
            let w = integral_part(digits, point as int);
            let big = pow2(63);
            assert(w * den + fnum >= big * den) by (nonlinear_arith)
                requires
                    w >= big,
                    den >= 1,
                    fnum >= 0,
            ;
            assert(big * den >= den) by (nonlinear_arith)
                requires
                    big >= 1,
                    den >= 1,
            ;
        }
        limit
    } else {
        let start: usize = if point < count as i128 {
            point as usize
        } else {
            count
        };
        proof {
            if point >= count {
                assert(fnum == 0);
                assert(den == 1);
                assert(fraction_part(digits, count as int, count as int) == 0);
                assert(pow10(0) == 1);
            }
            assert(fnum == fraction_part(digits, start as int, count as int));
            assert(den == pow10((count - start) as nat));
            assert(num == whole * den + fnum);
        }
        round_double(body, int_end, frac_start, frac_end, start, whole as u64, Ghost(num), Ghost(den))
    };
    if negative {
        if magnitude >= limit {
            i64::MIN
        } else {
            -(magnitude as i64)
        }
    } else {
        if magnitude >= 0x7fff_ffff_ffff_ffff {
            i64::MAX
        } else {
            magnitude as i64
        }
    }
}

/// Reads an unsigned decimal text and rounds the number it writes to its
/// cell, with the sign given.
fn number_cell(body: &[u8], negative: bool) -> (cell: Option<i64>)
    ensures
        cell == match spec_parse_number(body@) {
            Some((digits, point)) => Some(saturated(negative, rounded_magnitude(digits, point))),
            None => None,
        },
{
    let len = body.len();
    let int_end = scan_digits(body, 0);
    let has_point = int_end < len && body[int_end] == 0x2e;
    let frac_start = if has_point {
        int_end + 1
    } else {
        int_end
    };
    let frac_end = scan_digits(body, frac_start);
    proof {
        lemma_digit_run(body@, 0);
        lemma_digit_run(body@, frac_start as int);
    }
    let ghost digits = digits_of(body@, int_end as int, frac_start as int, frac_end as int);
    if int_end + (frac_end - frac_start) == 0 {
        return None;
    }
    if frac_end == len {
        return Some(round_digits(body, int_end, frac_start, frac_end, int_end as i128, negative));
    }
    if !(body[frac_end] == 0x65 || body[frac_end] == 0x45) {
        return None;
    }
    let sign_at = frac_end + 1;
    let signed = sign_at < len && (body[sign_at] == 0x2b || body[sign_at] == 0x2d);
    let downward = signed && body[sign_at] == 0x2d;
    let exp_start = if signed {
        sign_at + 1
    } else {
        sign_at
    };
    let exp_end = scan_digits(body, exp_start);
    if !(exp_start < exp_end && exp_end == len) {
        return None;
    }
    proof {
        lemma_digit_run(body@, exp_start as int);
    }
    let shift = parse_shift(body, exp_start, exp_end);
    let point: i128 = if downward {
        int_end as i128 - shift as i128
    } else {
        int_end as i128 + shift as i128
    };
    proof {
        let exact = digits_value(body@.subrange(exp_start as int, exp_end as int));
        if shift >= SHIFT_CAP {
            if downward {
                lemma_digits_of(body@, int_end as int, frac_start as int, frac_end as int);
                lemma_point_before(digits, int_end - exact);
                lemma_point_before(digits, point as int);
            } else {
                lemma_far_point(digits, negative, point as int, int_end + exact);
            }
        }
    }
    Some(round_digits(body, int_end, frac_start, frac_end, point, negative))
}

/// Whether a byte is the given lower-case letter in either case.
fn is_letter(b: u8, lower: u8) -> (yes: bool)
    requires
        lower >= 0x20,
    ensures
        yes == (b == lower || b == lower - 0x20),
{
    b == lower || b == lower - 0x20
}

/// The cell of a text that is one of the words for what is no finite
/// number, with the sign given.
fn word_cell(body: &[u8], negative: bool) -> (cell: Option<i64>)
    ensures
        cell == (if is_infinity_word(body@) {
            Some(if negative {
                i64::MIN
            } else {
                i64::MAX
            })
        } else if is_nan_word(body@) {
            Some(0i64)
        } else {
            None
        }),
{
    let ghost inf = seq![0x69u8, 0x6e, 0x66];
    let ghost infinity = seq![0x69u8, 0x6e, 0x66, 0x69, 0x6e, 0x69, 0x74, 0x79];
    let ghost nan = seq![0x6eu8, 0x61, 0x6e];
    let beyond = if negative {
        i64::MIN
    } else {
        i64::MAX
    };
    if body.len() == 3 {
        assert(!is_word(body@, infinity));
        if is_letter(body[0], 0x69) && is_letter(body[1], 0x6e) && is_letter(body[2], 0x66) {
            assert(is_word(body@, inf));
            Some(beyond)
        } else if is_letter(body[0], 0x6e) && is_letter(body[1], 0x61) && is_letter(body[2], 0x6e) {
            assert(!(body@[0] == inf[0] || body@[0] == inf[0] - 0x20));
            assert(is_word(body@, nan));
            Some(0)
        } else {
            assert(!is_word(body@, inf)) by {
                if is_word(body@, inf) {
                    assert(body@[0] == inf[0] || body@[0] == inf[0] - 0x20);
                    assert(body@[1] == inf[1] || body@[1] == inf[1] - 0x20);
                    assert(body@[2] == inf[2] || body@[2] == inf[2] - 0x20);
                }
            }
            assert(!is_word(body@, nan)) by {
                if is_word(body@, nan) {
                    assert(body@[0] == nan[0] || body@[0] == nan[0] - 0x20);
                    assert(body@[1] == nan[1] || body@[1] == nan[1] - 0x20);
                    assert(body@[2] == nan[2] || body@[2] == nan[2] - 0x20);
                }
            }
            None
        }
    } else if body.len() == 8 {
        assert(!is_word(body@, inf));
        assert(!is_word(body@, nan));
        if is_letter(body[0], 0x69) && is_letter(body[1], 0x6e) && is_letter(body[2], 0x66)
            && is_letter(body[3], 0x69) && is_letter(body[4], 0x6e) && is_letter(body[5], 0x69)
            && is_letter(body[6], 0x74) && is_letter(body[7], 0x79) {
            assert(is_word(body@, infinity));
            Some(beyond)
        } else {
            assert(!is_word(body@, infinity)) by {
                if is_word(body@, infinity) {
                    assert(body@[0] == infinity[0] || body@[0] == infinity[0] - 0x20);
                    assert(body@[1] == infinity[1] || body@[1] == infinity[1] - 0x20);
                    assert(body@[2] == infinity[2] || body@[2] == infinity[2] - 0x20);
                    assert(body@[3] == infinity[3] || body@[3] == infinity[3] - 0x20);
                    assert(body@[4] == infinity[4] || body@[4] == infinity[4] - 0x20);
                    assert(body@[5] == infinity[5] || body@[5] == infinity[5] - 0x20);
                    assert(body@[6] == infinity[6] || body@[6] == infinity[6] - 0x20);
                    assert(body@[7] == infinity[7] || body@[7] == infinity[7] - 0x20);
                }
            }
            None
        }
    } else {
        assert(!is_word(body@, inf));
        assert(!is_word(body@, infinity));
        assert(!is_word(body@, nan));
        None
    }
}

/// Reads a coordinate text and finds its grid cell.
pub fn coordinate_cell(text: &[u8]) -> (cell: Option<i64>)
    ensures
        cell == spec_coordinate_cell(text@),
{
    let len = text.len();
    let signed = len > 0 && (text[0] == 0x2b || text[0] == 0x2d);
    let negative = len > 0 && text[0] == 0x2d;
    let body = if signed {
        slice_subrange(text, 1, len)
    } else {
        text
    };
    assert(signed ==> body@ =~= text@.skip(1));
    if body.len() == 0 {
        return None;
    }
    match number_cell(body, negative) {
        Some(cell) => Some(cell),
        None => word_cell(body, negative),
    }
}

/// Finds the region of a location `longitude,latitude`.
pub fn get_region_i64(location: &str) -> (region: Option<(i64, i64)>)
    ensures
        region == spec_region(location.spec_bytes()),
{
    let text = location.as_bytes();
    let comma = find_comma(text);
    if comma >= text.len() {
        return None;
    }
    let longitude = coordinate_cell(slice_subrange(text, 0, comma));
    let latitude = coordinate_cell(slice_subrange(text, comma + 1, text.len()));
    match (longitude, latitude) {
        (Some(long), Some(lat)) => Some((long, lat)),
        _ => None,
    }
}

/// The text of a region: both cells in decimal with a comma between them,
/// the longitude first.
pub open spec fn region_text(longitude: i64, latitude: i64) -> Seq<char> {
    int_text(longitude as int) + seq![','] + int_text(latitude as int)
}

/// The text of the region of a location, if it has one.
pub open spec fn spec_region_text(location: Seq<u8>) -> Option<Seq<char>> {
    match spec_region(location) {
        Some((longitude, latitude)) => Some(region_text(longitude, latitude)),
        None => None,
    }
}

/// Writes a region as a text.
pub fn format_region(longitude: i64, latitude: i64) -> (text: String)
    ensures
        text@ == region_text(longitude, latitude),
{
    let mut text = String::new();
    write_int(longitude, &mut text);
    proof {
        reveal_strlit(",");
    }
    text.append(",");
    write_int(latitude, &mut text);
    assert(text@ =~= region_text(longitude, latitude));
    text
}

/// Finds the region of a location `longitude,latitude`, as a text.
pub fn get_region(location: &str) -> (region: Option<String>)
    ensures
        match region {
            Some(text) => spec_region_text(location.spec_bytes()) == Some(text@),
            None => spec_region_text(location.spec_bytes()) is None,
        },
{
    match get_region_i64(location) {
        Some((longitude, latitude)) => Some(format_region(longitude, latitude)),
        None => None,
    }
}

} // verus!
