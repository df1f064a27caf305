//! Byte-level text helpers: appending strings and decimal numbers to an
//! output buffer, comparing strings, and reading decimal numbers.

use vstd::prelude::*;
use vstd::string::*;
use vstd::utf8::*;

verus! {

/// The bytes that stand for a string in emitted text.
pub open spec fn utf8(s: Seq<char>) -> Seq<u8> {
    encode_utf8(s)
}

/// Two strings with the same bytes are the same string.
pub proof fn lemma_utf8_injective(a: Seq<char>, b: Seq<char>)
    requires
        utf8(a) == utf8(b),
    ensures
        a == b,
{
    encode_utf8_decode_utf8(a);
    encode_utf8_decode_utf8(b);
}

/// Appends `bytes` to `out`.
pub fn push_bytes(out: &mut Vec<u8>, bytes: &[u8])
    ensures
        final(out)@ == old(out)@ + bytes@,
{
    out.extend_from_slice(bytes);
    assert(out@ =~= old(out)@ + bytes@);
}

/// Appends the bytes of `s` to `out`.
pub fn push_str(out: &mut Vec<u8>, s: &str)
    ensures
        final(out)@ == old(out)@ + utf8(s@),
{
    push_bytes(out, s.as_bytes());
}

/// Whether two strings are equal.
pub fn str_eq(a: &str, b: &str) -> (same: bool)
    ensures
        same == (a@ == b@),
{
    let x = a.as_bytes();
    let y = b.as_bytes();
    if x.len() != y.len() {
        return false;
    }
    let mut i: usize = 0;
    while i < x.len()
        invariant
            x@ == utf8(a@),
            y@ == utf8(b@),
            x@.len() == y@.len(),
            i <= x@.len(),
            x@.subrange(0, i as int) == y@.subrange(0, i as int),
        decreases x@.len() - i,
    {
        if x[i] != y[i] {
            assert(x@[i as int] != y@[i as int]);
            return false;
        }
        assert(x@.subrange(0, i + 1) =~= x@.subrange(0, i as int).push(x@[i as int]));
        assert(y@.subrange(0, i + 1) =~= y@.subrange(0, i as int).push(y@[i as int]));
        i += 1;
    }
    proof {
        assert(x@ =~= x@.subrange(0, i as int));
        assert(y@ =~= y@.subrange(0, i as int));
        lemma_utf8_injective(a@, b@);
    }
    true
}

/// The decimal digits of `n`, most significant first, with no leading zero.
pub open spec fn decimal(n: nat) -> Seq<u8>
    decreases n,
{
    if n < 10 {
        seq![(48 + n) as u8]
    } else {
        decimal(n / 10).push((48 + n % 10) as u8)
    }
}

/// Appends the decimal digits of `n` to `out`.
pub fn push_decimal(out: &mut Vec<u8>, n: u64)
    ensures
        final(out)@ == old(out)@ + decimal(n as nat),
    decreases n,
{
    if n >= 10 {
        push_decimal(out, n / 10);
    }
    let digit: u8 = 48 + (n % 10) as u8;
    out.push(digit);
    assert(out@ =~= old(out)@ + decimal(n as nat));
}

/// Whether `b` is an ASCII decimal digit.
pub open spec fn is_digit(b: u8) -> bool {
    48 <= b <= 57
}

/// The number that a run of decimal digits stands for.
pub open spec fn digits_value(digits: Seq<u8>) -> nat
    decreases digits.len(),
{
    if digits.len() == 0 {
        0
    } else {
        (digits_value(digits.drop_last()) * 10 + (digits.last() - 48)) as nat
    }
}

/// The digits of a number's text: the text itself, less one leading `+`.
pub open spec fn number_digits(text: Seq<u8>) -> Seq<u8> {
    if text.len() > 0 && text[0] == 43 {
        text.skip(1)
    } else {
        text
    }
}

/// The number that `text` stands for, if it is one and at most `max`: an
/// optional `+`, then one or more decimal digits.
pub open spec fn number_value(text: Seq<u8>, max: nat) -> Option<nat> {
    let digits = number_digits(text);
    if digits.len() > 0 && (forall|i: int| 0 <= i < digits.len() ==> is_digit(#[trigger] digits[i]))
        && digits_value(digits) <= max {
        Some(digits_value(digits))
    } else {
        None
    }
}

/// A longer run of digits stands for no smaller a number than any of its
/// prefixes.
pub proof fn lemma_digits_value_prefix(digits: Seq<u8>, k: int)
    requires
        0 <= k <= digits.len(),
        forall|i: int| 0 <= i < digits.len() ==> is_digit(#[trigger] digits[i]),
    ensures
        digits_value(digits.take(k)) <= digits_value(digits),
    decreases digits.len() - k,
{
    if k == digits.len() {
        assert(digits.take(k) =~= digits);
    } else {
        lemma_digits_value_prefix(digits.drop_last(), k);
        assert(digits.drop_last().take(k) =~= digits.take(k));
    }
}

/// Reads a decimal number of at most `max` from `s`.
pub fn parse_number(s: &str, max: u64) -> (value: Option<u64>)
    ensures
        value is Some <==> number_value(utf8(s@), max as nat) is Some,
        value is Some ==> value->0 as nat == number_value(utf8(s@), max as nat)->0,
{
    let text = s.as_bytes();
    let mut i: usize = 0;
    if text.len() > 0 && text[0] == 43 {
        i = 1;
    }
    let start: usize = i;
    if i == text.len() {
        return None;
    }
    let ghost digits = number_digits(text@);
    let mut acc: u64 = 0;
    while i < text.len()
        invariant
            text@ == utf8(s@),
            digits == number_digits(text@),
            digits == text@.skip(start as int),
            start <= i <= text@.len(),
            forall|j: int| 0 <= j < i - start ==> is_digit(#[trigger] digits[j]),
            acc as nat == digits_value(digits.take(i - start)),
            acc <= max,
        decreases text@.len() - i,
    {
        let b: u8 = text[i];
        if b < 48 || b > 57 {
            assert(!is_digit(digits[i - start]));
            return None;
        }
        let d: u64 = (b - 48) as u64;
        proof {
            assert(digits.take(i - start + 1).drop_last() =~= digits.take(i - start));
            assert(digits.take(i - start + 1).last() == b);
        }
        if d > max || acc > (max - d) / 10 {
            proof {
                if forall|j: int| 0 <= j < digits.len() ==> is_digit(#[trigger] digits[j]) {
                    lemma_digits_value_prefix(digits, i - start + 1);
                }
            }
            return None;
        }
        acc = acc * 10 + d;
        i += 1;
    }
    proof {
        assert(digits.take(i - start) =~= digits);
    }
    Some(acc)
}

} // verus!
