//! Decimal numbers as they stand in escape sequences.

use vstd::prelude::*;

verus! {

/// An ASCII digit.
pub open spec fn is_digit(b: u8) -> bool {
    0x30 <= b <= 0x39
}

/// The value of a run of ASCII digits, most significant first.
pub open spec fn decimal_value(digits: Seq<u8>) -> nat
    decreases digits.len(),
{
    if digits.len() == 0 {
        0
    } else {
        decimal_value(digits.drop_last()) * 10 + (digits.last() - 0x30) as nat
    }
}

/// How many digits `s` starts with.
pub open spec fn leading_digits(s: Seq<u8>) -> nat
    decreases s.len(),
{
    if s.len() == 0 || !is_digit(s[0]) {
        0
    } else {
        1 + leading_digits(s.skip(1))
    }
}

/// The number that `s` starts with: the value of its leading digits, 0 if
/// there are none, and never more than `u16::MAX`.
pub open spec fn number(s: Seq<u8>) -> u16 {
    let value = decimal_value(s.take(leading_digits(s) as int));
    if value > u16::MAX {
        u16::MAX
    } else {
        value as u16
    }
}

/// `n` written in decimal, without leading zeros.
pub open spec fn decimal(n: nat) -> Seq<u8>
    decreases n,
{
    if n < 10 {
        seq![(0x30 + n) as u8]
    } else {
        decimal(n / 10).push((0x30 + n % 10) as u8)
    }
}

/// `leading_digits` is the length of the longest prefix of digits.
pub proof fn lemma_leading_digits(s: Seq<u8>, n: nat)
    requires
        n <= s.len(),
        forall|i: int| 0 <= i < n ==> is_digit(#[trigger] s[i]),
        n < s.len() ==> !is_digit(s[n as int]),
    ensures
        leading_digits(s) == n,
    decreases n,
{
    if n > 0 {
        let rest = s.skip(1);
        assert forall|i: int| 0 <= i < n - 1 implies is_digit(#[trigger] rest[i]) by {
            assert(rest[i] == s[i + 1]);
        }
        lemma_leading_digits(rest, (n - 1) as nat);
    }
}

/// The leading number of `s`.
pub(crate) fn read_number(s: &[u8]) -> (n: u16)
    ensures
        n == number(s@),
{
    let mut v: u32 = 0;
    let mut i: usize = 0;
    while i < s.len() && 0x30 <= s[i] && s[i] <= 0x39
        invariant
            i <= s.len(),
            forall|j: int| 0 <= j < i ==> is_digit(#[trigger] s@[j]),
            v <= u16::MAX,
            v == decimal_value(s@.take(i as int)) || (v == u16::MAX && decimal_value(
                s@.take(i as int),
            ) > u16::MAX),
        decreases s.len() - i,
    {
        let ghost before = decimal_value(s@.take(i as int));
        let d: u32 = (s[i] - 0x30) as u32;
        v = v * 10 + d;
        if v > 0xFFFF {
            v = 0xFFFF;
        }
        assert(s@.take(i + 1).drop_last() =~= s@.take(i as int));
        assert(decimal_value(s@.take(i + 1)) == before * 10 + d);
        i = i + 1;
    }
    proof {
        lemma_leading_digits(s@, i as nat);
    }
    v as u16
}

/// Appends `n` in decimal.
pub(crate) fn write_decimal(n: u32, out: &mut Vec<u8>)
    ensures
        final(out)@ == old(out)@ + decimal(n as nat),
    decreases n,
{
    if n >= 10 {
        write_decimal(n / 10, out);
    }
    out.push(0x30 + (n % 10) as u8);
    assert(out@ =~= old(out)@ + decimal(n as nat));
}

/// Reading back a written number: every digit string `decimal` gives is all
/// digits and has the value it was written for.
pub proof fn decimal_reads_back(n: nat)
    ensures
        decimal(n).len() > 0,
        forall|i: int| 0 <= i < decimal(n).len() ==> is_digit(#[trigger] decimal(n)[i]),
        decimal_value(decimal(n)) == n,
        n <= u16::MAX ==> number(decimal(n)) == n,
    decreases n,
{
    if n >= 10 {
        decimal_reads_back(n / 10);
        assert(decimal(n).drop_last() =~= decimal(n / 10));
    } else {
        assert(decimal(n).drop_last() =~= Seq::<u8>::empty());
        reveal_with_fuel(decimal_value, 2);
    }
    lemma_leading_digits(decimal(n), decimal(n).len());
    assert(decimal(n).take(decimal(n).len() as int) =~= decimal(n));
}

/// Digits are positional: one more digit behind makes the value before ten
/// times as much, and zeros in front make nothing.
pub proof fn digits_are_positional(a: Seq<u8>, d: u8)
    requires
        0x30 <= d <= 0x39,
    ensures
        decimal_value(Seq::empty()) == 0,
        decimal_value(a.push(d)) == 10 * decimal_value(a) + (d - 0x30),
        decimal_value(seq![0x30u8] + a) == decimal_value(a),
    decreases a.len(),
{
    assert(a.push(d).drop_last() =~= a);
    let padded = seq![0x30u8] + a;
    if a.len() == 0 {
        assert(padded.drop_last() =~= Seq::<u8>::empty());
        reveal_with_fuel(decimal_value, 2);
    } else {
        digits_are_positional(a.drop_last(), d);
        assert(padded.drop_last() =~= seq![0x30u8] + a.drop_last());
    }
}

/// A written number has no zero in front, unless it is zero itself.
pub proof fn no_zero_in_front(n: nat)
    ensures
        decimal(n).len() > 0,
        n > 0 ==> decimal(n)[0] != 0x30,
        n == 0 ==> decimal(n) == seq![0x30u8],
    decreases n,
{
    if n >= 10 {
        no_zero_in_front(n / 10);
    }
}

/// A number that is read is the value of the digits in front, up to the first
/// byte that is no digit, and never more than 65535.
pub proof fn numbers_stop_at_the_first_other_byte(digits: Seq<u8>, rest: Seq<u8>)
    requires
        forall|i: int| 0 <= i < digits.len() ==> 0x30 <= #[trigger] digits[i] <= 0x39,
        rest.len() > 0 ==> !(0x30 <= rest[0] <= 0x39),
    ensures
        decimal_value(digits) <= 65535 ==> number(digits + rest) == decimal_value(digits),
        decimal_value(digits) > 65535 ==> number(digits + rest) == 65535,
{
    let s = digits + rest;
    assert forall|i: int| 0 <= i < digits.len() implies is_digit(#[trigger] s[i]) by {
        assert(s[i] == digits[i]);
    }
    lemma_leading_digits(s, digits.len());
    assert(s.take(digits.len() as int) =~= digits);
}

} // verus!
