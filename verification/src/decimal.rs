//! Decimal numerals as the protocol writes them.
//!
//! A numeral is an optional plus sign followed by one decimal digit or more.
//! Leading zeros are read and never written.
use vstd::prelude::*;
use crate::text::Span;

verus! {

/// The digit `0`; the other digits follow it.
pub const DIGIT_ZERO: u8 = 0x30;

/// The plus sign that may open a numeral.
pub const PLUS: u8 = 0x2b;

/// `b` is one of the digits `0` to `9`.
pub open spec fn is_digit(b: u8) -> bool {
    DIGIT_ZERO <= b <= DIGIT_ZERO + 9
}

/// Every byte of `s` is a digit.
pub open spec fn all_digits(s: Seq<u8>) -> bool {
    forall|i: int| 0 <= i < s.len() ==> is_digit(#[trigger] s[i])
}

/// The number that the digits `s` write, most significant digit first.
pub open spec fn digits_value(s: Seq<u8>) -> nat
    decreases s.len(),
{
    if s.len() == 0 {
        0
    } else {
        digits_value(s.drop_last()) * 10 + (s.last() - DIGIT_ZERO) as nat
    }
}

/// The number that the numeral `s` writes; `None` if `s` is no numeral.
pub open spec fn numeral_value(s: Seq<u8>) -> Option<nat> {
    let digits = if s.len() > 0 && s[0] == PLUS {
        s.drop_first()
    } else {
        s
    };
    if digits.len() > 0 && all_digits(digits) {
        Some(digits_value(digits))
    } else {
        None
    }
}

/// The number that `s` writes, if `s` is a numeral of a number up to `max`.
pub open spec fn number_in(s: Seq<u8>, max: u32) -> Option<u32> {
    match numeral_value(s) {
        Some(n) => if n <= max {
            Some(n as u32)
        } else {
            None
        },
        None => None,
    }
}

/// The shortest numeral of `n`: its digits, without sign or leading zero.
pub open spec fn decimal(n: nat) -> Seq<u8>
    decreases n,
{
    if n < 10 {
        seq![(DIGIT_ZERO + n) as u8]
    } else {
        decimal(n / 10).push((DIGIT_ZERO + n % 10) as u8)
    }
}

/// A number is no smaller than what any prefix of its digits writes.
pub proof fn lemma_digits_value_prefix(s: Seq<u8>, k: int)
    requires
        0 <= k <= s.len(),
    ensures
        digits_value(s.take(k)) <= digits_value(s),
    decreases s.len() - k,
{
    if k == s.len() {
        assert(s.take(k) == s);
    } else {
        lemma_digits_value_prefix(s.drop_last(), k);
        assert(s.drop_last().take(k) == s.take(k));
    }
}

/// `decimal` writes digits only, and they write the number back.
pub proof fn lemma_decimal_digits(n: nat)
    ensures
        decimal(n).len() > 0,
        all_digits(decimal(n)),
        digits_value(decimal(n)) == n,
    decreases n,
{
    let s = decimal(n);
    if n < 10 {
        assert(s.drop_last() == Seq::<u8>::empty());
        assert(digits_value(s.drop_last()) == 0);
        assert(s.last() == DIGIT_ZERO + n);
    } else {
        lemma_decimal_digits(n / 10);
        assert(s.drop_last() == decimal(n / 10));
        assert(s.last() == DIGIT_ZERO + n % 10);
    }
}

/// Reading what `decimal` wrote gives the number back.
pub proof fn lemma_decimal_round_trip(n: nat, max: u32)
    requires
        n <= max,
    ensures
        numeral_value(decimal(n)) == Some(n),
        number_in(decimal(n), max) == Some(n as u32),
{
    lemma_decimal_digits(n);
    assert(is_digit(decimal(n)[0]));
}

/// Reads the numeral that `span` covers in `s`, if it writes a number up to
/// `max`.
pub fn parse_number(s: &[u8], span: Span, max: u32) -> (r: Option<u32>)
    requires
        span.start <= span.end <= s.len(),
    ensures
        r == number_in(span.of(s@), max),
{
    let ghost word = span.of(s@);
    let mut i: usize = span.start;
    if i < span.end && s[i] == PLUS {
        i += 1;
    }
    let first: usize = i;
    let ghost digits = s@.subrange(first as int, span.end as int);
    assert(digits == if word.len() > 0 && word[0] == PLUS {
        word.drop_first()
    } else {
        word
    });
    if first == span.end {
        return None;
    }
    let mut acc: u64 = 0;
    assert(digits_value(digits.take(0)) == 0);
    while i < span.end
        invariant
            first <= i <= span.end <= s.len(),
            digits == s@.subrange(first as int, span.end as int),
            numeral_value(span.of(s@)) == if all_digits(digits) {
                Some(digits_value(digits))
            } else {
                None
            },
            all_digits(digits.take(i - first)),
            acc == digits_value(digits.take(i - first)),
            acc <= max,
        decreases span.end - i,
    {
        let b: u8 = s[i];
        let ghost seen = digits.take(i - first + 1);
        assert(seen.drop_last() == digits.take(i - first));
        assert(seen.last() == b);
        if b < DIGIT_ZERO || b > DIGIT_ZERO + 9 {
            assert(!is_digit(digits[i - first]));
            return None;
        }
        acc = acc * 10 + (b - DIGIT_ZERO) as u64;
        if acc > max as u64 {
            proof {
                lemma_digits_value_prefix(digits, i - first + 1);
            }
            return None;
        }
        i += 1;
    }
    assert(digits.take(i - first) == digits);
    Some(acc as u32)
}

/// Appends the shortest numeral of `n` to `out`.
pub fn push_decimal(out: &mut Vec<u8>, n: u32)
    ensures
        final(out)@ == old(out)@ + decimal(n as nat),
    decreases n,
{
    if n >= 10 {
        push_decimal(out, n / 10);
    }
    let digit: u8 = DIGIT_ZERO + (n % 10) as u8;
    out.push(digit);
}

} // verus!
