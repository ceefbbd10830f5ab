use crate::classes::{is_bin_digit, is_digit, is_hex_digit};
use vstd::prelude::*;

verus! {

/// The value of a digit: 0 to 9 for `0` to `9`, 10 to 15 for `a` to `f`, and 0
/// for any other character.
pub open spec fn digit_value(c: char) -> nat {
    if is_digit(c) {
        (c as int - '0' as int) as nat
    } else if 'a' <= c && c <= 'f' {
        (c as int - 'a' as int + 10) as nat
    } else {
        0
    }
}

/// The number that `digits` spell in base `radix`, most significant digit
/// first. The empty sequence spells 0.
pub open spec fn number_value(digits: Seq<char>, radix: nat) -> nat
    decreases digits.len(),
{
    if digits.len() == 0 {
        0
    } else {
        number_value(digits.drop_last(), radix) * radix + digit_value(digits.last())
    }
}

/// The character for the digit `d`.
pub open spec fn digit_char(d: nat) -> char {
    (d + '0' as nat) as char
}

/// `n` written in decimal, without leading zeros.
pub open spec fn decimal(n: nat) -> Seq<char>
    decreases n,
{
    if n < 10 {
        seq![digit_char(n)]
    } else {
        decimal(n / 10).push(digit_char(n % 10))
    }
}

/// `n` where it fits in a `u64`, and the largest `u64` where it does not.
pub open spec fn saturated(n: nat) -> u64 {
    if n <= u64::MAX {
        n as u64
    } else {
        u64::MAX
    }
}

/// A digit of base `radix`, for the bases 2, 10 and 16.
pub open spec fn is_digit_of(c: char, radix: nat) -> bool {
    is_hex_digit(c) && digit_value(c) < radix
}

/// The digits of the three bases are the three character classes.
pub proof fn lemma_digits_of_bases(c: char)
    ensures
        is_digit_of(c, 2) == is_bin_digit(c),
        is_digit_of(c, 10) == is_digit(c),
        is_digit_of(c, 16) == is_hex_digit(c),
{
}

/// Appending a digit multiplies the value by the base and adds the digit.
pub proof fn lemma_number_value_push(digits: Seq<char>, c: char, radix: nat)
    ensures
        number_value(digits.push(c), radix) == number_value(digits, radix) * radix + digit_value(c),
{
    assert(digits.push(c).drop_last() =~= digits);
}

/// `decimal` produces at least one character, only decimal digits, and
/// reading them back gives the number.
pub proof fn lemma_decimal_reads_back(n: nat)
    ensures
        decimal(n).len() >= 1,
        forall|i: int| 0 <= i < decimal(n).len() ==> is_digit(#[trigger] decimal(n)[i]),
        number_value(decimal(n), 10) == n,
    decreases n,
{
    if n < 10 {
        lemma_number_value_push(Seq::<char>::empty(), digit_char(n), 10);
        assert(Seq::<char>::empty().push(digit_char(n)) =~= decimal(n));
    } else {
        lemma_decimal_reads_back(n / 10);
        lemma_number_value_push(decimal(n / 10), digit_char(n % 10), 10);
    }
}

/// Whether `c` is a digit of base `radix`.
pub(crate) fn digit_in(c: char, radix: u64) -> (yes: bool)
    ensures
        yes == is_digit_of(c, radix as nat),
{
    if c >= '0' && c <= '9' {
        (((c as u32) - ('0' as u32)) as u64) < radix
    } else if c >= 'a' && c <= 'f' {
        (((c as u32) - ('a' as u32)) as u64) + 10 < radix
    } else {
        false
    }
}

/// The value of the digit `c`.
pub(crate) fn digit_of(c: char) -> (value: u64)
    requires
        is_hex_digit(c),
    ensures
        value == digit_value(c),
        value < 16,
{
    if c >= '0' && c <= '9' {
        ((c as u32) - ('0' as u32)) as u64
    } else {
        ((c as u32) - ('a' as u32)) as u64 + 10
    }
}

/// `value` with `digit` appended in base `radix`, or the largest `u64` where
/// that no longer fits.
pub(crate) fn push_digit(value: u64, digit: u64, radix: u64) -> (pushed: u64)
    ensures
        pushed == saturated((value * radix + digit) as nat),
{
    match value.checked_mul(radix) {
        Some(shifted) => match shifted.checked_add(digit) {
            Some(sum) => sum,
            None => u64::MAX,
        },
        None => u64::MAX,
    }
}

/// Appends `n` in decimal to `out` and returns the number of digits written.
pub(crate) fn push_decimal(out: &mut String, n: usize) -> (digits: usize)
    ensures
        final(out)@ == old(out)@ + decimal(n as nat),
        digits == decimal(n as nat).len(),
        digits <= n + 1,
    decreases n,
{
    let mut digits: usize = 0;
    if n >= 10 {
        digits = push_decimal(out, n / 10);
    }
    let low: u8 = (n % 10) as u8;
    out.push((low + ('0' as u8)) as char);
    proof {
        if n < 10 {
            assert(old(out)@.push(digit_char(n as nat)) =~= old(out)@ + decimal(n as nat));
        } else {
            assert((old(out)@ + decimal((n / 10) as nat)).push(digit_char((n % 10) as nat))
                =~= old(out)@ + decimal(n as nat));
        }
    }
    digits + 1
}

} // verus!
