//! Decimal numbers in text: what a run of digits means, how a number is read
//! from the head of a text and how it is written.

use vstd::prelude::*;

verus! {

/// The byte that writes the digit 0.
pub const ZERO: u8 = 0x30;

/// Whether `b` writes a decimal digit.
pub open spec fn is_digit(b: u8) -> bool {
    0x30 <= b <= 0x39
}

/// Whether every byte of `s` writes a decimal digit.
pub open spec fn all_digits(s: Seq<u8>) -> bool {
    forall|i: int| 0 <= i < s.len() ==> is_digit(#[trigger] s[i])
}

/// The length of the longest run of digits that `s` starts with.
pub open spec fn digit_run(s: Seq<u8>) -> nat
    decreases s.len(),
{
    if s.len() > 0 && is_digit(s[0]) {
        1 + digit_run(s.skip(1))
    } else {
        0
    }
}

/// The number that the digits of `s` write, the first digit weighing most.
pub open spec fn decimal_value(s: Seq<u8>) -> nat
    decreases s.len(),
{
    if s.len() == 0 {
        0
    } else {
        decimal_value(s.drop_last()) * 10 + (s.last() - 0x30) as nat
    }
}

/// The number at the head of `s` and the count of bytes that write it: the
/// longest run of digits there, unless it is empty or writes more than `max`.
pub open spec fn leading_number(s: Seq<u8>, max: nat) -> Option<(nat, nat)> {
    let run = digit_run(s);
    let value = decimal_value(s.take(run as int));
    if run > 0 && value <= max {
        Some((value, run))
    } else {
        None
    }
}

/// The digits that write `n`, without leading zeros.
pub open spec fn decimal_digits(n: nat) -> Seq<u8>
    decreases n,
{
    if n < 10 {
        seq![(0x30 + n) as u8]
    } else {
        decimal_digits(n / 10).push((0x30 + n % 10) as u8)
    }
}

/// `nom::character::complete::u32` on bytes. It reads the longest run of ASCII
/// digits at the head of the input and gives the number they write together
/// with the input behind them; it fails where no digit stands at the head and
/// where the number does not fit.
#[verifier::external_body]
pub(crate) fn lex_u32<'a>(i: &'a [u8]) -> (r: Option<(&'a [u8], u32)>)
    ensures
        match r {
            Some((rest, value)) => {
                &&& leading_number(i@, u32::MAX as nat) == Some((value as nat, digit_run(i@)))
                &&& rest@ == i@.skip(digit_run(i@) as int)
            },
            None => leading_number(i@, u32::MAX as nat) is None,
        },
{
    match nom::character::complete::u32::<&[u8], nom::error::Error<&[u8]>>(i) {
        Ok((rest, value)) => Some((rest, value)),
        Err(_) => None,
    }
}

/// `nom::character::complete::u16` on bytes: as `lex_u32`, for numbers up to
/// the largest `u16`.
#[verifier::external_body]
pub(crate) fn lex_u16<'a>(i: &'a [u8]) -> (r: Option<(&'a [u8], u16)>)
    ensures
        match r {
            Some((rest, value)) => {
                &&& leading_number(i@, u16::MAX as nat) == Some((value as nat, digit_run(i@)))
                &&& rest@ == i@.skip(digit_run(i@) as int)
            },
            None => leading_number(i@, u16::MAX as nat) is None,
        },
{
    match nom::character::complete::u16::<&[u8], nom::error::Error<&[u8]>>(i) {
        Ok((rest, value)) => Some((rest, value)),
        Err(_) => None,
    }
}

/// A run of digits is never longer than the text it starts.
pub proof fn lemma_digit_run_bound(s: Seq<u8>)
    ensures
        digit_run(s) <= s.len(),
    decreases s.len(),
{
    if s.len() > 0 && is_digit(s[0]) {
        lemma_digit_run_bound(s.skip(1));
    }
}

/// Digits followed by something that is no digit form a run of their own.
pub proof fn lemma_digit_run_of_digits(d: Seq<u8>, rest: Seq<u8>)
    requires
        all_digits(d),
        rest.len() == 0 || !is_digit(rest[0]),
    ensures
        digit_run(d + rest) == d.len(),
    decreases d.len(),
{
    if d.len() == 0 {
        assert(d + rest =~= rest);
    } else {
        assert((d + rest)[0] == d[0]);
        assert((d + rest).skip(1) =~= d.skip(1) + rest);
        assert forall|i: int| 0 <= i < d.skip(1).len() implies is_digit(#[trigger] d.skip(1)[i]) by {
            assert(d.skip(1)[i] == d[i + 1]);
        }
        lemma_digit_run_of_digits(d.skip(1), rest);
    }
}

/// What `decimal_digits` writes is one digit at least, digits only, and reads
/// back as the number.
pub proof fn lemma_decimal_digits(n: nat)
    ensures
        decimal_digits(n).len() >= 1,
        all_digits(decimal_digits(n)),
        decimal_value(decimal_digits(n)) == n,
    decreases n,
{
    if n < 10 {
        let d = decimal_digits(n);
        assert(d.drop_last() =~= Seq::<u8>::empty());
        assert(decimal_value(d.drop_last()) == 0);
    } else {
        lemma_decimal_digits(n / 10);
        let head = decimal_digits(n / 10);
        let d = decimal_digits(n);
        assert(d.drop_last() =~= head);
        assert(d.last() == (0x30 + n % 10) as u8);
        assert forall|i: int| 0 <= i < d.len() implies is_digit(#[trigger] d[i]) by {
            if i < head.len() {
                assert(d[i] == head[i]);
            }
        }
    }
}

/// Writes `n` in decimal at the end of `out`.
pub fn push_decimal(out: &mut Vec<u8>, n: u32)
    ensures
        final(out)@ == old(out)@ + decimal_digits(n as nat),
    decreases n,
{
    if n >= 10 {
        push_decimal(out, n / 10);
    }
    let digit: u8 = (n % 10) as u8;
    out.push(ZERO + digit);
    assert(final(out)@ =~= old(out)@ + decimal_digits(n as nat));
}

} // verus!
