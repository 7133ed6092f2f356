//! The freshness check on a request's nonce.
//!
//! A nonce is the client's clock reading, an unsigned decimal count of
//! milliseconds. It is fresh while it lies within sixty seconds of the
//! server's clock, on either side. Freshness is all that is checked: within
//! the window the same nonce passes as often as it is presented.

use vstd::prelude::*;
use vstd::string::*;
use crate::decimal::{all_digits, digit_byte, digits_value, is_digit, lemma_prefix_value_le};
use crate::decision::NonceError;

verus! {

/// Width of the freshness window on either side of now, in milliseconds.
pub const FRESHNESS_WINDOW_MS: u64 = 60_000;

/// The digits of an unsigned decimal text: the text itself, without the
/// `+` sign that may lead it.
pub open spec fn unsigned_digits(text: Seq<u8>) -> Seq<u8> {
    if text.len() > 0 && text[0] == 0x2b {
        text.skip(1)
    } else {
        text
    }
}

/// The count of milliseconds that a nonce text writes: one or more decimal
/// digits, a `+` sign before them allowed, nothing else, and a value that
/// fits in 64 bits. `None` for every other text.
pub open spec fn spec_parse_millis(text: Seq<u8>) -> Option<u64> {
    let digits = unsigned_digits(text);
    if digits.len() > 0 && all_digits(digits) && digits_value(digits) <= u64::MAX {
        Some(digits_value(digits) as u64)
    } else {
        None
    }
}

/// Distance between two clock readings in milliseconds.
pub open spec fn clock_delta(now_ms: u64, nonce_ms: u64) -> int {
    if now_ms >= nonce_ms {
        now_ms - nonce_ms
    } else {
        nonce_ms - now_ms
    }
}

/// The outcome of the nonce check: a format error for a text that writes no
/// count of milliseconds, expiry for a count more than the window away from
/// now, success otherwise. Past and future count alike.
pub open spec fn spec_check(nonce: Seq<u8>, now_ms: u64) -> Result<(), NonceError> {
    match spec_parse_millis(nonce) {
        None => Err(NonceError::Format),
        Some(nonce_ms) => if clock_delta(now_ms, nonce_ms) > FRESHNESS_WINDOW_MS {
            Err(NonceError::Expired)
        } else {
            Ok(())
        },
    }
}

/// Reads a nonce text as a count of milliseconds.
pub fn parse_millis(nonce_text: &str) -> (millis: Option<u64>)
    ensures
        millis == spec_parse_millis(nonce_text.spec_bytes()),
{
    let text = nonce_text.as_bytes();
    let start: usize = if text.len() > 0 && text[0] == 0x2b { 1 } else { 0 };
    let ghost digits = unsigned_digits(text@);
    assert(digits =~= text@.skip(start as int));
    if start == text.len() {
        return None;
    }
    let mut value: u64 = 0;
    let mut i: usize = start;
    while i < text.len()
        invariant
            start <= i <= text.len(),
            text@ == nonce_text.spec_bytes(),
            digits == unsigned_digits(text@),
            digits == text@.skip(start as int),
            all_digits(digits.take(i - start)),
            value == digits_value(digits.take(i - start)),
        decreases text.len() - i,
    {
        let b = text[i];
        let ghost longer = digits.take(i - start + 1);
        assert(longer.drop_last() =~= digits.take(i - start));
        assert(longer.last() == b);
        if !digit_byte(b) {
            assert(!is_digit(digits[i - start]));
            return None;
        }
        let d: u64 = (b - 0x30) as u64;
        if value > (u64::MAX - d) / 10 {
            proof {
                assert(digits_value(longer) == 10 * value + d);
                if all_digits(digits) {
                    lemma_prefix_value_le(digits, i - start + 1);
                }
            }
            return None;
        }
        value = value * 10 + d;
        assert forall|j: int| 0 <= j < longer.len() implies is_digit(#[trigger] longer[j]) by {
            if j < i - start {
                assert(longer[j] == digits.take(i - start)[j]);
            }
        }
        i += 1;
    }
    assert(digits.take(i - start) =~= digits);
    Some(value)
}

/// Whether a nonce lies within the freshness window around now.
pub fn within_window(now_ms: u64, nonce_ms: u64) -> (fresh: bool)
    ensures
        fresh == (clock_delta(now_ms, nonce_ms) <= FRESHNESS_WINDOW_MS),
{
    if now_ms >= nonce_ms {
        now_ms - nonce_ms <= FRESHNESS_WINDOW_MS
    } else {
        nonce_ms - now_ms <= FRESHNESS_WINDOW_MS
    }
}

/// Checks a nonce against the clock.
pub fn check(nonce_text: &str, now_ms: u64) -> (outcome: Result<(), NonceError>)
    ensures
        outcome == spec_check(nonce_text.spec_bytes(), now_ms),
{
    match parse_millis(nonce_text) {
        None => Err(NonceError::Format),
        Some(nonce_ms) => if within_window(now_ms, nonce_ms) {
            Ok(())
        } else {
            Err(NonceError::Expired)
        },
    }
}

/// A nonce exactly one window away from now is still fresh, on either side
/// of now; one millisecond further it has expired.
pub proof fn lemma_window_boundary(nonce: Seq<u8>, nonce_ms: u64, now_ms: u64)
    requires
        spec_parse_millis(nonce) == Some(nonce_ms),
    ensures
        clock_delta(now_ms, nonce_ms) == 60_000 ==> spec_check(nonce, now_ms) is Ok,
        clock_delta(now_ms, nonce_ms) == 60_001 ==> spec_check(nonce, now_ms) == Err::<
            (),
            NonceError,
        >(NonceError::Expired),
        spec_check(nonce, now_ms) is Ok <==> clock_delta(now_ms, nonce_ms) <= 60_000,
{
}

} // verus!
