//! Magnitude constants and the case-insensitive table of unit suffixes.

use vstd::prelude::*;

use crate::error::Error;

verus! {

/// 1 byte
pub const B: u64 = 1;

/// 1 kilobyte
pub const KB: u64 = 1_000;
/// 1 megabyte
pub const MB: u64 = 1_000_000;
/// 1 gigabyte
pub const GB: u64 = 1_000_000_000;
/// 1 terabyte
pub const TB: u64 = 1_000_000_000_000;
/// 1 petabyte
pub const PB: u64 = 1_000_000_000_000_000;
/// 1 exabyte
pub const EB: u64 = 1_000_000_000_000_000_000;

/// 1 kibibyte
pub const KIB: u64 = 1_024;
/// 1 mebibyte
pub const MIB: u64 = 1_048_576;
/// 1 gibibyte
pub const GIB: u64 = 1_073_741_824;
/// 1 tebibyte
pub const TIB: u64 = 1_099_511_627_776;
/// 1 pebibyte
pub const PIB: u64 = 1_125_899_906_842_624;
/// 1 exbibyte
pub const EIB: u64 = 1_152_921_504_606_846_976;

/// `c` lowers to the lower-case ASCII letter `l`: `l` itself, its ASCII
/// capital, or, for `k`, the KELVIN SIGN (U+212A), which Unicode lowers to
/// `k`. No other character lowers to one of the table's letters.
pub open spec fn same_letter(c: char, l: char) -> bool {
    c == l || c as int + 32 == l as int || (c == '\u{212A}' && l == 'k')
}

/// `s` spells the lower-case word `w`, ignoring ASCII case.
pub open spec fn matches_word(s: Seq<char>, w: Seq<char>) -> bool {
    s.len() == w.len() && forall|i: int| 0 <= i < s.len() ==> same_letter(#[trigger] s[i], w[i])
}

/// The multiplier that a unit suffix stands for, or `None` for a suffix
/// outside the table. Both prefix families are recognised.
pub open spec fn unit_multiplier(s: Seq<char>) -> Option<u64> {
    if matches_word(s, seq!['b']) {
        Some(B)
    } else if matches_word(s, seq!['k']) || matches_word(s, seq!['k', 'b']) {
        Some(KB)
    } else if matches_word(s, seq!['m']) || matches_word(s, seq!['m', 'b']) {
        Some(MB)
    } else if matches_word(s, seq!['g']) || matches_word(s, seq!['g', 'b']) {
        Some(GB)
    } else if matches_word(s, seq!['t']) || matches_word(s, seq!['t', 'b']) {
        Some(TB)
    } else if matches_word(s, seq!['p']) || matches_word(s, seq!['p', 'b']) {
        Some(PB)
    } else if matches_word(s, seq!['e']) || matches_word(s, seq!['e', 'b']) {
        Some(EB)
    } else if matches_word(s, seq!['k', 'i']) || matches_word(s, seq!['k', 'i', 'b']) {
        Some(KIB)
    } else if matches_word(s, seq!['m', 'i']) || matches_word(s, seq!['m', 'i', 'b']) {
        Some(MIB)
    } else if matches_word(s, seq!['g', 'i']) || matches_word(s, seq!['g', 'i', 'b']) {
        Some(GIB)
    } else if matches_word(s, seq!['t', 'i']) || matches_word(s, seq!['t', 'i', 'b']) {
        Some(TIB)
    } else if matches_word(s, seq!['p', 'i']) || matches_word(s, seq!['p', 'i', 'b']) {
        Some(PIB)
    } else if matches_word(s, seq!['e', 'i']) || matches_word(s, seq!['e', 'i', 'b']) {
        Some(EIB)
    } else {
        None
    }
}

/// Folds an ASCII capital, or the KELVIN SIGN, to its lower-case letter;
/// other characters stay.
fn fold_case(c: char) -> (r: char)
    ensures
        'a' <= r <= 'z' ==> same_letter(c, r),
        !('a' <= r <= 'z') ==> r == c && !('A' <= c <= 'Z'),
        forall|l: char| 'a' <= l <= 'z' && same_letter(c, l) ==> r == l,
{
    match c {
        'A' => 'a', 'B' => 'b', 'C' => 'c', 'D' => 'd', 'E' => 'e', 'F' => 'f', 'G' => 'g',
        'H' => 'h', 'I' => 'i', 'J' => 'j', 'K' => 'k', 'L' => 'l', 'M' => 'm', 'N' => 'n',
        'O' => 'o', 'P' => 'p', 'Q' => 'q', 'R' => 'r', 'S' => 's', 'T' => 't', 'U' => 'u',
        'V' => 'v', 'W' => 'w', 'X' => 'x', 'Y' => 'y', 'Z' => 'z',
        '\u{212A}' => 'k',
        _ => c,
    }
}

/// Resolves a unit suffix against the table, ignoring ASCII case.
pub fn parse_unit(s: &[char]) -> (r: Result<u64, Error>)
    ensures
        r == (match unit_multiplier(s@) {
            Some(m) => Ok(m),
            None => Err(Error::Unit),
        }),
{
    let n = s.len();
    if n == 0 || n > 3 {
        return Err(Error::Unit);
    }
    let first = fold_case(s[0]);
    if n == 1 && first == 'b' {
        assert(matches_word(s@, seq!['b']));
        return Ok(B);
    }
    let (decimal, binary) = match first {
        'k' => (KB, KIB),
        'm' => (MB, MIB),
        'g' => (GB, GIB),
        't' => (TB, TIB),
        'p' => (PB, PIB),
        'e' => (EB, EIB),
        _ => {
            return Err(Error::Unit);
        },
    };
    if n == 1 {
        assert(matches_word(s@, seq![first]));
        return Ok(decimal);
    }
    let second = fold_case(s[1]);
    if n == 2 {
        if second == 'b' {
            assert(matches_word(s@, seq![first, 'b']));
            return Ok(decimal);
        }
        if second == 'i' {
            assert(matches_word(s@, seq![first, 'i']));
            return Ok(binary);
        }
        return Err(Error::Unit);
    }
    let third = fold_case(s[2]);
    if second == 'i' && third == 'b' {
        assert(matches_word(s@, seq![first, 'i', 'b']));
        return Ok(binary);
    }
    Err(Error::Unit)
}

} // verus!
