//! Human-readable magnitudes: an unsigned number is written with one
//! fractional digit and a decimal (`k`, `M`, ...) or IEC (`ki`, `Mi`, ...)
//! suffix, up to yotta.
//!
//! `decimal(1000)` is `"1.0k"` and `iec(1024)` is `"1.0ki"`. Every division
//! truncates: the fractional digit is never rounded up.

use vstd::prelude::*;
use vstd::string::*;
use crate::digits::{numeral, push_numeral};
use crate::scale::scale;
use crate::suffix::{decimal_suffix, iec_suffix};
use crate::text::{
    decimal_text,
    iec_text,
    lemma_decimal_below_base,
    lemma_iec_below_base,
    DECIMAL_BASE,
    IEC_BASE,
};

pub mod digits;
pub mod scale;
pub mod suffix;
pub mod text;

verus! {

/// Formats `val` with decimal multipliers, in steps of 1000, and one
/// fractional digit.
///
/// From `1000^9` on the suffix stays at `Y` and the whole part is 1000 or
/// more.
pub fn decimal(val: u128) -> (out: String)
    ensures
        out@ == decimal_text(val as nat),
        val < 1000 ==> out@ == numeral(val as nat) + seq!['.', '0'],
{
    let scaled = scale(val, DECIMAL_BASE);
    let tenth: u128 = scaled.remainder / 100;
    let mut out = String::new();
    push_numeral(&mut out, scaled.whole);
    out.append(".");
    push_numeral(&mut out, tenth);
    out.append(decimal_suffix(scaled.step));
    proof {
        reveal_strlit(".");
        assert(out@ =~= decimal_text(val as nat));
        if val < 1000 {
            lemma_decimal_below_base(val as nat);
        }
    }
    out
}

/// Formats `val` with IEC multipliers, in steps of 1024, and one fractional
/// digit.
///
/// From `1024^9` on the suffix stays at `Yi` and the whole part is 1024 or
/// more.
pub fn iec(val: u128) -> (out: String)
    ensures
        out@ == iec_text(val as nat),
        val < 1024 ==> out@ == numeral(val as nat) + seq!['.', '0'],
{
    let scaled = scale(val, IEC_BASE);
    let tenth: u128 = 10 * scaled.remainder / 1024;
    let mut out = String::new();
    push_numeral(&mut out, scaled.whole);
    out.append(".");
    push_numeral(&mut out, tenth);
    out.append(iec_suffix(scaled.step));
    proof {
        reveal_strlit(".");
        assert(out@ =~= iec_text(val as nat));
        if val < 1024 {
            lemma_iec_below_base(val as nat);
        }
    }
    out
}

} // verus!
