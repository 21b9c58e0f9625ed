//! The written form of a magnitude, and what holds of it.

use vstd::prelude::*;
use crate::digits::{digit_char, leading_number, lemma_leading_number, numeral};
use crate::scale::{
    lemma_unscaled_below_base,
    lemma_whole_monotonic,
    scale_remainder,
    scale_step,
    scale_whole,
};
use crate::suffix::{decimal_suffixes, iec_suffixes};

verus! {

/// The base of the decimal suffixes.
pub const DECIMAL_BASE: u128 = 1000;

/// The base of the IEC suffixes.
pub const IEC_BASE: u128 = 1024;

/// The fractional digit of the decimal form: the hundreds of what the last
/// division by 1000 left over.
pub open spec fn decimal_tenth(value: nat) -> nat {
    scale_remainder(DECIMAL_BASE as nat, value) / 100
}

/// The fractional digit of the IEC form: the whole tenths of 1024 in what
/// the last division by 1024 left over.
pub open spec fn iec_tenth(value: nat) -> nat {
    10 * scale_remainder(IEC_BASE as nat, value) / 1024
}

/// The written form: the whole part, a point, the fractional part, the
/// suffix.
pub open spec fn render(whole: nat, tenth: nat, suffix: Seq<char>) -> Seq<char> {
    numeral(whole) + seq!['.'] + numeral(tenth) + suffix
}

/// The decimal form of `value`.
pub open spec fn decimal_text(value: nat) -> Seq<char> {
    render(
        scale_whole(DECIMAL_BASE as nat, value),
        decimal_tenth(value),
        decimal_suffixes()[scale_step(DECIMAL_BASE as nat, value) as int],
    )
}

/// The IEC form of `value`.
pub open spec fn iec_text(value: nat) -> Seq<char> {
    render(
        scale_whole(IEC_BASE as nat, value),
        iec_tenth(value),
        iec_suffixes()[scale_step(IEC_BASE as nat, value) as int],
    )
}

/// The fractional part is a single digit, so a written form is the numeral
/// of the whole part, a point, one digit and the suffix.
pub proof fn lemma_one_fractional_digit(value: nat)
    ensures
        decimal_tenth(value) < 10,
        iec_tenth(value) < 10,
        decimal_text(value) == numeral(scale_whole(DECIMAL_BASE as nat, value)) + seq![
            '.',
            digit_char(decimal_tenth(value)),
        ] + decimal_suffixes()[scale_step(DECIMAL_BASE as nat, value) as int],
        iec_text(value) == numeral(scale_whole(IEC_BASE as nat, value)) + seq![
            '.',
            digit_char(iec_tenth(value)),
        ] + iec_suffixes()[scale_step(IEC_BASE as nat, value) as int],
{
}

/// Below 1000 the decimal form is the number itself with `.0` behind it.
pub proof fn lemma_decimal_below_base(value: nat)
    requires
        value < DECIMAL_BASE,
    ensures
        decimal_text(value) == numeral(value) + seq!['.', '0'],
{
    lemma_unscaled_below_base(DECIMAL_BASE as nat, value);
}

/// Below 1024 the IEC form is the number itself with `.0` behind it.
pub proof fn lemma_iec_below_base(value: nat)
    requires
        value < IEC_BASE,
    ensures
        iec_text(value) == numeral(value) + seq!['.', '0'],
{
    lemma_unscaled_below_base(IEC_BASE as nat, value);
}

/// The number that a decimal form starts with is the whole part.
pub proof fn lemma_decimal_integer_part(value: nat)
    ensures
        leading_number(decimal_text(value)) == scale_whole(DECIMAL_BASE as nat, value),
{
    let rest = seq!['.'] + numeral(decimal_tenth(value)) + decimal_suffixes()[scale_step(
        DECIMAL_BASE as nat,
        value,
    ) as int];
    assert(rest[0] == '.');
    lemma_leading_number(scale_whole(DECIMAL_BASE as nat, value), rest);
    assert(decimal_text(value) =~= numeral(scale_whole(DECIMAL_BASE as nat, value)) + rest);
}

/// The number that an IEC form starts with is the whole part.
pub proof fn lemma_iec_integer_part(value: nat)
    ensures
        leading_number(iec_text(value)) == scale_whole(IEC_BASE as nat, value),
{
    let rest = seq!['.'] + numeral(iec_tenth(value)) + iec_suffixes()[scale_step(
        IEC_BASE as nat,
        value,
    ) as int];
    assert(rest[0] == '.');
    lemma_leading_number(scale_whole(IEC_BASE as nat, value), rest);
    assert(iec_text(value) =~= numeral(scale_whole(IEC_BASE as nat, value)) + rest);
}

/// Of two values at the same scale step, the decimal form of the larger
/// starts with no smaller number.
pub proof fn lemma_decimal_monotonic(small: nat, large: nat)
    requires
        small < large,
        scale_step(DECIMAL_BASE as nat, small) == scale_step(DECIMAL_BASE as nat, large),
    ensures
        leading_number(decimal_text(small)) <= leading_number(decimal_text(large)),
{
    lemma_decimal_integer_part(small);
    lemma_decimal_integer_part(large);
    lemma_whole_monotonic(DECIMAL_BASE as nat, small, large);
}

/// Of two values at the same scale step, the IEC form of the larger starts
/// with no smaller number.
pub proof fn lemma_iec_monotonic(small: nat, large: nat)
    requires
        small < large,
        scale_step(IEC_BASE as nat, small) == scale_step(IEC_BASE as nat, large),
    ensures
        leading_number(iec_text(small)) <= leading_number(iec_text(large)),
{
    lemma_iec_integer_part(small);
    lemma_iec_integer_part(large);
    lemma_whole_monotonic(IEC_BASE as nat, small, large);
}

} // verus!
