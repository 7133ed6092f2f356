//! Rounding to the doubles: the binary floating-point numbers with a
//! mantissa of 53 bits, in which coordinates are held.
//!
//! An exact value is given as a fraction `num / den` of two natural numbers.
//! Between `2^e` and `2^(e+1)` the doubles are the multiples of `2^(e-52)`.
//! The double of a value is the nearest of them, and of two that are equally
//! near the one whose mantissa is even. Everything here is integer
//! arithmetic.

use vstd::prelude::*;
use vstd::arithmetic::div_mod::{
    lemma_div_is_ordered,
    lemma_div_multiples_vanish_quotient,
    lemma_fundamental_div_mod,
    lemma_fundamental_div_mod_converse,
    lemma_mod_pos_bound,
};
use vstd::arithmetic::power2::{
    lemma2_to64,
    lemma2_to64_rest,
    lemma_pow2_adds,
    lemma_pow2_pos,
    lemma_pow2_strictly_increases,
    lemma_pow2_unfold,
    pow2,
};

verus! {

/// The fraction `a / b` rounded to the nearest integer; a fraction halfway
/// between two integers goes to the even one.
pub open spec fn round_even(a: nat, b: nat) -> nat {
    let below = a / b;
    let rest = a % b;
    if 2 * rest > b || (2 * rest == b && below % 2 == 1) {
        below + 1
    } else {
        below
    }
}

/// The binary exponent of a value between a quarter and `2^63`, counted
/// from minus two: the least `x` from `from` on, and at most 64, with
/// `num / den < 2^(x - 1)`. At `x` the value lies between `2^(x-2)` and
/// `2^(x-1)`.
pub open spec fn exponent_above(num: nat, den: nat, from: nat) -> nat
    decreases 64 - from,
{
    if from >= 64 || 4 * num < pow2(from + 1) * den {
        from
    } else {
        exponent_above(num, den, from + 1)
    }
}

/// A double between a quarter and `2^63`: the number
/// `mantissa * 2^(exponent - 54)`. The exponent is counted from minus two,
/// so that it is never negative.
pub struct Double {
    pub mantissa: nat,
    pub exponent: nat,
}

/// The double nearest to the value `num / den`, for a value between a
/// quarter and `2^63`. With `x` the binary exponent of the value, counted
/// from minus two, the doubles around the value are the multiples of
/// `2^(x - 54)`. The mantissa is the value over that unit, rounded to the
/// nearest integer, and to the even one from halfway between two.
pub open spec fn nearest_double(num: nat, den: nat) -> Double {
    let x = exponent_above(num, den, 0);
    if x <= 53 {
        Double { mantissa: round_even(num * pow2((54 - x) as nat), den), exponent: x }
    } else {
        Double { mantissa: round_even(num, den * pow2((x - 54) as nat)), exponent: x }
    }
}

/// The integer nearest to a double, and the one further from zero where
/// two are equally near. A double with an exponent of 54 or more is an
/// integer itself. Below that the double is `mantissa / 2^t` with `t` at
/// least one, and its nearest integer is `mantissa / 2^t + 1/2` without its
/// fraction.
pub open spec fn nearest_integer(double: Double) -> nat {
    if double.exponent <= 53 {
        let t = (54 - double.exponent) as nat;
        (double.mantissa + pow2((t - 1) as nat)) / pow2(t)
    } else {
        double.mantissa * pow2((double.exponent - 54) as nat)
    }
}

/// The integer nearest to the double nearest to `num / den`, halves away
/// from zero, for a double below `2^63`; and `2^63` for every value from
/// there on.
///
/// A value below a quarter has a double below a half, which lies nearest to
/// zero. A value from `2^63` on has a double from `2^63` on, since `2^63`
/// is a double.
pub open spec fn double_cell(num: nat, den: nat) -> nat {
    if 4 * num < den {
        0
    } else if num >= pow2(63) * den {
        pow2(63)
    } else {
        nearest_integer(nearest_double(num, den))
    }
}

/// Rounding to even gives a nearest integer: the rounded fraction lies
/// within a half of it, and where it lies exactly a half away the integer
/// is even.
pub proof fn round_even_is_nearest(a: nat, b: nat)
    requires
        b >= 1,
    ensures
        2 * round_even(a, b) * b <= 2 * a + b,
        2 * a <= 2 * round_even(a, b) * b + b,
        2 * round_even(a, b) * b == 2 * a + b || 2 * a == 2 * round_even(a, b) * b + b
            ==> round_even(a, b) % 2 == 0,
{
    let q = (a as int) / (b as int);
    let r = (a as int) % (b as int);
    lemma_fundamental_div_mod(a as int, b as int);
    lemma_mod_pos_bound(a as int, b as int);
    let k = round_even(a, b) as int;
    assert(2 * k * b - 2 * a == 2 * (k - q) * b - 2 * r) by (nonlinear_arith)
        requires
            a == b * q + r,
    ;
    if k == q {
        assert(2 * (k - q) * b == 0) by (nonlinear_arith)
            requires
                k - q == 0,
        ;
    } else {
        assert(2 * (k - q) * b == 2 * b) by (nonlinear_arith)
            requires
                k - q == 1,
        ;
    }
}

/// The nearest integer of a double is `double + 1/2` without its fraction,
/// whatever the exponent: with the double written over `2^54`, it is
/// `(2 * mantissa * 2^exponent + 2^54) / 2^55`.
pub proof fn nearest_integer_is_half_added(double: Double)
    ensures
        nearest_integer(double) == (2 * double.mantissa * pow2(double.exponent) + pow2(54)) / pow2(
            55,
        ),
{
    let m = double.mantissa as int;
    let x = double.exponent;
    let px = pow2(x) as int;
    lemma_pow2_pos(x);
    lemma_pow2_pos(54);
    lemma_pow2_unfold(55);
    let top = 2 * m * px + pow2(54);
    if x <= 53 {
        let t = (54 - x) as nat;
        let c = pow2(x + 1) as int;
        let pt = pow2(t) as int;
        let ph = pow2((t - 1) as nat) as int;
        lemma_pow2_pos(x + 1);
        lemma_pow2_pos(t);
        lemma_pow2_unfold(x + 1);
        lemma_pow2_adds(x + 1, t);
        lemma_pow2_adds(x + 1, (t - 1) as nat);
        lemma_div_multiples_vanish_quotient(c, m + ph, pt);
        assert(c * (m + ph) == top) by (nonlinear_arith)
            requires
                c == 2 * px,
                c * ph == pow2(54),
                top == 2 * m * px + pow2(54),
        ;
    } else {
        let j = (x - 54) as nat;
        let pj = pow2(j) as int;
        let p54 = pow2(54) as int;
        lemma_pow2_adds(54, j);
        let y = m * pj;
        assert(top == p54 * (2 * y + 1)) by (nonlinear_arith)
            requires
                top == 2 * m * px + p54,
                px == p54 * pj,
                y == m * pj,
        ;
        assert(y >= 0) by (nonlinear_arith)
            requires
                y == m * pj,
                m >= 0,
                pj >= 0,
        ;
        lemma_div_multiples_vanish_quotient(p54, 2 * y + 1, 2);
        assert(pow2(55) == p54 * 2);
    }
}

/// A larger double has no smaller nearest integer, and equal doubles have
/// the same: the nearest integer depends on the number that a double is,
/// and rises with it.
pub proof fn nearest_integer_is_monotone(low: Double, high: Double)
    requires
        low.mantissa * pow2(low.exponent) <= high.mantissa * pow2(high.exponent),
    ensures
        nearest_integer(low) <= nearest_integer(high),
{
    nearest_integer_is_half_added(low);
    nearest_integer_is_half_added(high);
    lemma_pow2_pos(55);
    let a = low.mantissa * pow2(low.exponent);
    let b = high.mantissa * pow2(high.exponent);
    assert(2 * low.mantissa * pow2(low.exponent) == 2 * a) by (nonlinear_arith)
        requires
            a == low.mantissa * pow2(low.exponent),
    ;
    assert(2 * high.mantissa * pow2(high.exponent) == 2 * b) by (nonlinear_arith)
        requires
            b == high.mantissa * pow2(high.exponent),
    ;
    lemma_div_is_ordered((2 * a + pow2(54)) as int, (2 * b + pow2(54)) as int, pow2(55) as int);
}

/// The nearest integer of a double lies within a half of the double, and
/// exactly a half away only when it is the larger of the two.
pub proof fn nearest_integer_is_nearest(double: Double)
    ensures
        2 * nearest_integer(double) * pow2(54) <= 2 * double.mantissa * pow2(double.exponent)
            + pow2(54),
        2 * double.mantissa * pow2(double.exponent) < 2 * nearest_integer(double) * pow2(54)
            + pow2(54),
{
    nearest_integer_is_half_added(double);
    lemma_pow2_pos(55);
    lemma_pow2_unfold(55);
    let top = (2 * double.mantissa * pow2(double.exponent) + pow2(54)) as int;
    let n = nearest_integer(double) as int;
    lemma_fundamental_div_mod(top, pow2(55) as int);
    lemma_mod_pos_bound(top, pow2(55) as int);
    let p54 = pow2(54) as int;
    assert(2 * n * p54 == (2 * p54) * n) by (nonlinear_arith);
}

/// The exponent is `x` where the value lies between `2^(x-2)` and
/// `2^(x-1)`.
pub proof fn lemma_exponent(num: nat, den: nat, from: nat, x: nat)
    requires
        den >= 1,
        from <= x <= 64,
        x == from || 4 * num >= pow2(x) * den,
        x == 64 || 4 * num < pow2(x + 1) * den,
    ensures
        exponent_above(num, den, from) == x,
    decreases x - from,
{
    if from < x {
        if from + 1 < x {
            lemma_pow2_strictly_increases(from + 1, x);
        }
        let low = pow2(from + 1);
        let high = pow2(x);
        assert(low * den <= high * den) by (nonlinear_arith)
            requires
                low <= high,
                den >= 1,
        ;
        lemma_exponent(num, den, from + 1, x);
    }
}

/// The exponent found for a value is the one whose bounds hold the value:
/// counted from `from`, which the value is not below, the value lies
/// between `2^(x-2)` and `2^(x-1)`, or beyond `2^62` at 64.
pub proof fn lemma_exponent_bounds(num: nat, den: nat, from: nat)
    requires
        den >= 1,
        from <= 64,
        4 * num >= pow2(from) * den,
    ensures
        from <= exponent_above(num, den, from) <= 64,
        4 * num >= pow2(exponent_above(num, den, from)) * den,
        exponent_above(num, den, from) < 64 ==> 4 * num < pow2(
            exponent_above(num, den, from) + 1,
        ) * den,
    decreases 64 - from,
{
    if from < 64 && 4 * num >= pow2(from + 1) * den {
        lemma_exponent_bounds(num, den, from + 1);
    }
}

/// Between bounds, a quotient lies between them and its rounding too:
/// from `low * b <= a < high * b` follows `low <= round_even(a, b) <= high`.
pub proof fn lemma_round_even_between(a: nat, b: nat, low: nat, high: nat)
    requires
        b >= 1,
        low * b <= a < high * b,
    ensures
        low <= round_even(a, b) <= high,
{
    let q = (a as int) / (b as int);
    let r = (a as int) % (b as int);
    lemma_fundamental_div_mod(a as int, b as int);
    lemma_mod_pos_bound(a as int, b as int);
    assert(low <= q < high) by (nonlinear_arith)
        requires
            a == b * q + r,
            0 <= r < b,
            low * b <= a < high * b,
    ;
}

/// The double of a value has a mantissa of 53 bits: it lies between `2^52`
/// and `2^53`, where `2^53` stands for the first double of the next
/// exponent.
pub proof fn nearest_double_has_53_bits(num: nat, den: nat)
    requires
        den >= 1,
        4 * num >= den,
        num < pow2(63) * den,
    ensures
        pow2(52) <= nearest_double(num, den).mantissa <= pow2(53),
        nearest_double(num, den).exponent <= 64,
{
    lemma2_to64();
    lemma2_to64_rest();
    assert(4 * num >= pow2(0) * den) by (nonlinear_arith)
        requires
            4 * num >= den,
            pow2(0) == 1,
    ;
    lemma_exponent_bounds(num, den, 0);
    let x = exponent_above(num, den, 0);
    let px = pow2(x);
    let p52 = pow2(52);
    let p53 = pow2(53);
    lemma_pow2_unfold(x + 1);
    lemma_pow2_pos(x);
    assert(4 * num < (2 * px) * den) by {
        if x == 64 {
            assert(4 * num < (2 * px) * den) by (nonlinear_arith)
                requires
                    num < pow2(63) * den,
                    px == 2 * pow2(63),
            ;
        }
    }
    if x <= 53 {
        let t = (54 - x) as nat;
        let pt = pow2(t);
        lemma_pow2_adds(x, t);
        lemma_pow2_pos(t);
        assert(p52 * den <= num * pt < p53 * den) by (nonlinear_arith)
            requires
                4 * num >= px * den,
                4 * num < (2 * px) * den,
                px * pt == 4 * p52,
                p53 == 2 * p52,
                pt >= 1,
        ;
        lemma_round_even_between(num * pt, den, p52, p53);
    } else {
        let j = (x - 54) as nat;
        let pj = pow2(j);
        lemma_pow2_adds(54, j);
        lemma_pow2_pos(j);
        assert(den * pj >= 1) by (nonlinear_arith)
            requires
                den >= 1,
                pj >= 1,
        ;
        assert(p52 * (den * pj) <= num < p53 * (den * pj)) by (nonlinear_arith)
            requires
                4 * num >= px * den,
                4 * num < (2 * px) * den,
                px == (4 * p52) * pj,
                p53 == 2 * p52,
        ;
        lemma_round_even_between(num, den * pj, p52, p53);
    }
}

/// Where the mantissa is counted in units below one, the nearest integer of
/// the double is the whole part of the value, and one more exactly where
/// the fraction reaches the last double before the half.
///
/// The value is `w + f / d`, the unit is `2^(-t)`. The last double before
/// `w + 1/2` is `w + 1/2 - 2^(-t)`; the value is rounded up to `w + 1/2`
/// from halfway between them on, which is where `f / d` reaches
/// `(2^t - 1) / 2^(t+1)`; halfway itself goes to the even mantissa, which
/// is that of `w + 1/2` unless `t` is one.
pub proof fn lemma_cell_below(w: nat, f: nat, d: nat, t: nat)
    requires
        d >= 1,
        f < d,
        t >= 1,
    ensures
        (round_even((w * d + f) * pow2(t), d) + pow2((t - 1) as nat)) / pow2(t) == w + (if 2 * f
            * pow2(t) > (pow2(t) - 1) * d || (2 * f * pow2(t) == (pow2(t) - 1) * d && t >= 2) {
            1nat
        } else {
            0nat
        }),
{
    let tt = pow2(t) as int;
    let hh = pow2((t - 1) as nat) as int;
    lemma_pow2_unfold(t);
    lemma_pow2_pos((t - 1) as nat);
    assert(tt == 2 * hh);
    if t >= 2 {
        lemma_pow2_unfold((t - 1) as nat);
        assert(hh % 2 == 0);
    } else {
        lemma2_to64();
        assert(hh == 1);
    }
    let a = f * tt;
    let kf = a / (d as int);
    let rf = a % (d as int);
    assert(a >= 0) by (nonlinear_arith)
        requires
            a == f * tt,
            tt >= 0,
    ;
    lemma_fundamental_div_mod(a, d as int);
    lemma_mod_pos_bound(a, d as int);
    assert(a == d * kf + rf);
    assert(0 <= kf < tt) by (nonlinear_arith)
        requires
            a == d * kf + rf,
            a == f * tt,
            0 <= f < d,
            0 <= rf < d,
            tt >= 1,
    ;
    let big = (w * d + f) * tt;
    let below = w * tt + kf;
    assert(big == below * d + rf) by (nonlinear_arith)
        requires
            big == (w * d + f) * tt,
            below == w * tt + kf,
            f * tt == d * kf + rf,
    ;
    lemma_fundamental_div_mod_converse(big, d as int, below, rf);
    assert(below == 2 * (w * hh) + kf) by (nonlinear_arith)
        requires
            below == w * tt + kf,
            tt == 2 * hh,
    ;
    assert(below % 2 == kf % 2);
    let m = round_even(((w * d + f) * pow2(t)) as nat, d) as int;
    let rho = m - below;
    assert(rho == 0 || rho == 1);
    let z = kf + rho + hh;
    assert(m + hh == w * tt + z);
    if z >= tt {
        assert(m + hh == (w + 1) * tt + (z - tt)) by (nonlinear_arith)
            requires
                m + hh == w * tt + z,
        ;
        lemma_fundamental_div_mod_converse(m + hh, tt, (w + 1) as int, z - tt);
    } else {
        lemma_fundamental_div_mod_converse(m + hh, tt, w as int, z);
    }
    let sdiff = 2 * a - (tt - 1) * d;
    assert(sdiff == d * (2 * kf - tt + 1) + 2 * rf) by (nonlinear_arith)
        requires
            sdiff == 2 * a - (tt - 1) * d,
            a == d * kf + rf,
    ;
    assert(2 * f * pow2(t) == 2 * a) by (nonlinear_arith)
        requires
            a == f * tt,
            tt == pow2(t),
    ;
    if kf >= hh {
        assert(d * (2 * kf - tt + 1) >= d) by (nonlinear_arith)
            requires
                d >= 1,
                2 * kf - tt + 1 >= 1,
        ;
    } else if kf <= hh - 2 {
        assert(d * (2 * kf - tt + 1) <= -3 * d) by (nonlinear_arith)
            requires
                d >= 1,
                2 * kf - tt + 1 <= -3,
        ;
    } else {
        assert(d * (2 * kf - tt + 1) == -d) by (nonlinear_arith)
            requires
                2 * kf - tt + 1 == -1,
        ;
    }
}

/// Where the mantissa is counted in units of `s`, a power of two, the
/// mantissa is the whole part over `s`, rounded to even by what is left of
/// the whole part and by the fraction.
pub proof fn lemma_mantissa_above(w: nat, f: nat, d: nat, s: nat)
    requires
        d >= 1,
        f < d,
        s >= 1,
    ensures
        round_even(w * d + f, d * s) == w / s + (if 2 * ((w % s) * d + f) > d * s || (2 * ((w % s)
            * d + f) == d * s && (w / s) % 2 == 1) {
            1nat
        } else {
            0nat
        }),
        s >= 2 && s % 2 == 0 && w % s > s / 2 ==> 2 * ((w % s) * d + f) > d * s,
        s >= 2 && s % 2 == 0 && w % s < s / 2 ==> 2 * ((w % s) * d + f) < d * s,
        s >= 2 && s % 2 == 0 && w % s == s / 2 ==> 2 * ((w % s) * d + f) == d * s + 2 * f,
        s == 1 ==> w % s == 0 && w / s == w,
{
    let q = (w as int) / (s as int);
    let r = (w as int) % (s as int);
    lemma_fundamental_div_mod(w as int, s as int);
    lemma_mod_pos_bound(w as int, s as int);
    assert(w == s * q + r);
    let rem = r * d + f;
    let total = (w * d + f) as int;
    let unit = (d * s) as int;
    assert(total == q * unit + rem) by (nonlinear_arith)
        requires
            total == w * d + f,
            w == s * q + r,
            rem == r * d + f,
            unit == d * s,
    ;
    assert(0 <= rem < unit) by (nonlinear_arith)
        requires
            rem == r * d + f,
            unit == d * s,
            0 <= r < s,
            0 <= f < d,
    ;
    lemma_fundamental_div_mod_converse(total, unit, q, rem);
    if s >= 2 && s % 2 == 0 {
        let h = (s as int) / 2;
        assert(s == 2 * h);
        assert(2 * rem - unit == 2 * d * (r - h) + 2 * f) by (nonlinear_arith)
            requires
                rem == r * d + f,
                unit == d * s,
                s == 2 * h,
        ;
        if r > h {
            assert(2 * d * (r - h) >= 2 * d) by (nonlinear_arith)
                requires
                    d >= 1,
                    r - h >= 1,
            ;
        } else if r < h {
            assert(2 * d * (r - h) <= -2 * d) by (nonlinear_arith)
                requires
                    d >= 1,
                    r - h <= -1,
            ;
        } else {
            assert(2 * d * (r - h) == 0) by (nonlinear_arith)
                requires
                    r - h == 0,
            ;
        }
    }
}

/// One step of comparing a decimal fraction with a binary one, digit by
/// digit. The decimal fraction is `fraction / (10 * scale)`, which begins
/// with the digit `digit` and goes on with `rest / scale`. The binary one is
/// `r / unit`, which begins with the digit `10 * r / unit` and goes on
/// with `(10 * r % unit) / unit`. A larger digit decides, a smaller digit
/// decides, and with equal digits what goes on decides.
pub proof fn lemma_compare_step(
    fraction: nat,
    digit: nat,
    rest: nat,
    scale: nat,
    r: nat,
    unit: nat,
)
    requires
        fraction == digit * scale + rest,
        rest < scale,
        unit >= 1,
        r < unit,
    ensures
        digit > 10 * r / unit ==> fraction * unit > r * (10 * scale),
        digit < 10 * r / unit ==> fraction * unit < r * (10 * scale),
        digit == 10 * r / unit ==> fraction * unit - r * (10 * scale) == rest * unit - (10 * r
            % unit) * scale,
        10 * r % unit < unit,
{
    let t = (10 * r) as int / (unit as int);
    let r2 = (10 * r) as int % (unit as int);
    lemma_fundamental_div_mod((10 * r) as int, unit as int);
    lemma_mod_pos_bound((10 * r) as int, unit as int);
    assert(10 * r == unit * t + r2);
    let x = fraction * unit - r * (10 * scale);
    assert(x == ((digit - t) * unit - r2) * scale + rest * unit) by (nonlinear_arith)
        requires
            x == fraction * unit - r * (10 * scale),
            fraction == digit * scale + rest,
            10 * r == unit * t + r2,
    ;
    if digit > t {
        assert(((digit - t) * unit - r2) * scale + rest * unit > 0) by (nonlinear_arith)
            requires
                digit - t >= 1,
                0 <= r2 < unit,
                scale >= 1,
                rest >= 0,
                unit >= 1,
        ;
    } else if digit < t {
        assert(((digit - t) * unit - r2) * scale + rest * unit < 0) by (nonlinear_arith)
            requires
                digit - t <= -1,
                0 <= r2 < unit,
                0 <= rest < scale,
                unit >= 1,
        ;
    } else {
        assert(((digit - t) * unit - r2) * scale + rest * unit == rest * unit - r2 * scale)
            by (nonlinear_arith)
            requires
                digit - t == 0,
        ;
    }
}

} // verus!
