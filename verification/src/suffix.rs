//! The suffix tables: one suffix for each scale step.

use vstd::prelude::*;
use crate::scale::LAST_STEP;

verus! {

/// Decimal suffixes by scale step: none, kilo, mega, giga, tera, peta, exa,
/// zetta, yotta.
pub const DECIMAL_SUFFIXES: [&'static str; 9] = ["", "k", "M", "G", "T", "P", "E", "Z", "Y"];

/// IEC suffixes by scale step: none, kibi, mebi, gibi, tebi, pebi, exbi,
/// zebi, yobi.
pub const IEC_SUFFIXES: [&'static str; 9] = ["", "ki", "Mi", "Gi", "Ti", "Pi", "Ei", "Zi", "Yi"];

/// The decimal suffixes as characters.
pub open spec fn decimal_suffixes() -> Seq<Seq<char>> {
    seq![
        seq![],
        seq!['k'],
        seq!['M'],
        seq!['G'],
        seq!['T'],
        seq!['P'],
        seq!['E'],
        seq!['Z'],
        seq!['Y'],
    ]
}

/// The IEC suffixes as characters.
pub open spec fn iec_suffixes() -> Seq<Seq<char>> {
    seq![
        seq![],
        seq!['k', 'i'],
        seq!['M', 'i'],
        seq!['G', 'i'],
        seq!['T', 'i'],
        seq!['P', 'i'],
        seq!['E', 'i'],
        seq!['Z', 'i'],
        seq!['Y', 'i'],
    ]
}

/// The decimal suffix of a scale step.
pub fn decimal_suffix(step: usize) -> (suffix: &'static str)
    requires
        step <= LAST_STEP,
    ensures
        suffix@ == decimal_suffixes()[step as int],
{
    proof {
        reveal_strlit("");
        reveal_strlit("k");
        reveal_strlit("M");
        reveal_strlit("G");
        reveal_strlit("T");
        reveal_strlit("P");
        reveal_strlit("E");
        reveal_strlit("Z");
        reveal_strlit("Y");
    }
    DECIMAL_SUFFIXES[step]
}

/// The IEC suffix of a scale step.
pub fn iec_suffix(step: usize) -> (suffix: &'static str)
    requires
        step <= LAST_STEP,
    ensures
        suffix@ == iec_suffixes()[step as int],
{
    proof {
        reveal_strlit("");
        reveal_strlit("ki");
        reveal_strlit("Mi");
        reveal_strlit("Gi");
        reveal_strlit("Ti");
        reveal_strlit("Pi");
        reveal_strlit("Ei");
        reveal_strlit("Zi");
        reveal_strlit("Yi");
    }
    IEC_SUFFIXES[step]
}

} // verus!
