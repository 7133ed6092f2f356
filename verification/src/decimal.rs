//! Decimal digit strings and the numbers they write.

use vstd::prelude::*;
use vstd::string::*;

verus! {

/// Whether a byte is one of the ASCII digits `0` to `9`.
pub open spec fn is_digit(b: u8) -> bool {
    0x30 <= b <= 0x39
}

/// Whether every byte of a string is an ASCII digit.
pub open spec fn all_digits(text: Seq<u8>) -> bool {
    forall|i: int| 0 <= i < text.len() ==> is_digit(#[trigger] text[i])
}

/// The number that a string of ASCII digits writes in base ten; the empty
/// string writes zero.
pub open spec fn digits_value(digits: Seq<u8>) -> nat
    decreases digits.len(),
{
    if digits.len() == 0 {
        0
    } else {
        (10 * digits_value(digits.drop_last()) + (digits.last() - 0x30)) as nat
    }
}

/// Ten to the power `exponent`.
pub open spec fn pow10(exponent: nat) -> nat
    decreases exponent,
{
    if exponent == 0 {
        1
    } else {
        10 * pow10((exponent - 1) as nat)
    }
}

/// Whether a byte is an ASCII digit.
pub fn digit_byte(b: u8) -> (yes: bool)
    ensures
        yes == is_digit(b),
{
    0x30 <= b && b <= 0x39
}

/// A longer digit string writes a number that is no smaller than the number
/// written by any of its prefixes.
pub proof fn lemma_prefix_value_le(digits: Seq<u8>, n: int)
    requires
        all_digits(digits),
        0 <= n <= digits.len(),
    ensures
        digits_value(digits.take(n)) <= digits_value(digits),
    decreases digits.len() - n,
{
    if n == digits.len() {
        assert(digits.take(n) =~= digits);
    } else {
        lemma_prefix_value_le(digits, n + 1);
        let longer = digits.take(n + 1);
        assert(longer.drop_last() =~= digits.take(n));
        assert(is_digit(longer.last()));
    }
}

/// The character that writes a digit below ten.
pub open spec fn digit_char(d: nat) -> char {
    if d == 0 {
        '0'
    } else if d == 1 {
        '1'
    } else if d == 2 {
        '2'
    } else if d == 3 {
        '3'
    } else if d == 4 {
        '4'
    } else if d == 5 {
        '5'
    } else if d == 6 {
        '6'
    } else if d == 7 {
        '7'
    } else if d == 8 {
        '8'
    } else {
        '9'
    }
}

/// A natural number in decimal, without leading zeros.
pub open spec fn nat_text(n: nat) -> Seq<char>
    decreases n,
{
    if n < 10 {
        seq![digit_char(n)]
    } else {
        nat_text(n / 10).push(digit_char(n % 10))
    }
}

/// An integer in decimal: a `-` before the magnitude of a negative one, no
/// sign otherwise.
pub open spec fn int_text(v: int) -> Seq<char> {
    if v < 0 {
        seq!['-'] + nat_text((-v) as nat)
    } else {
        nat_text(v as nat)
    }
}

/// The text of one digit.
fn digit_text(d: u8) -> (text: &'static str)
    requires
        d < 10,
    ensures
        text@ == seq![digit_char(d as nat)],
{
    proof {
        reveal_strlit("0");
        reveal_strlit("1");
        reveal_strlit("2");
        reveal_strlit("3");
        reveal_strlit("4");
        reveal_strlit("5");
        reveal_strlit("6");
        reveal_strlit("7");
        reveal_strlit("8");
        reveal_strlit("9");
    }
    let text = if d == 0 {
        "0"
    } else if d == 1 {
        "1"
    } else if d == 2 {
        "2"
    } else if d == 3 {
        "3"
    } else if d == 4 {
        "4"
    } else if d == 5 {
        "5"
    } else if d == 6 {
        "6"
    } else if d == 7 {
        "7"
    } else if d == 8 {
        "8"
    } else {
        "9"
    };
    assert(text@ =~= seq![digit_char(d as nat)]);
    text
}

/// Appends a natural number in decimal to a text.
pub fn write_nat(n: u64, out: &mut String)
    ensures
        final(out)@ == old(out)@ + nat_text(n as nat),
    decreases n,
{
    if n >= 10 {
        write_nat(n / 10, out);
    }
    out.append(digit_text((n % 10) as u8));
    assert(out@ =~= old(out)@ + nat_text(n as nat));
}

/// Appends an integer in decimal to a text.
pub fn write_int(v: i64, out: &mut String)
    ensures
        final(out)@ == old(out)@ + int_text(v as int),
{
    if v < 0 {
        proof {
            reveal_strlit("-");
        }
        out.append("-");
        let magnitude: u64 = (-(v + 1)) as u64 + 1;
        write_nat(magnitude, out);
        assert(out@ =~= old(out)@ + int_text(v as int));
    } else {
        write_nat(v as u64, out);
    }
}

/// Writes an integer in decimal.
pub fn decimal(v: i64) -> (text: String)
    ensures
        text@ == int_text(v as int),
{
    let mut text = String::new();
    write_int(v, &mut text);
    assert(text@ =~= int_text(v as int));
    text
}

/// Writes a count in decimal.
pub fn count(n: u64) -> (text: String)
    ensures
        text@ == nat_text(n as nat),
{
    let mut text = String::new();
    write_nat(n, &mut text);
    assert(text@ =~= nat_text(n as nat));
    text
}

} // verus!
