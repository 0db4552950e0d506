//! The parser shared by both size types: a mantissa, optional spaces, and a
//! unit suffix, turned into an exact byte count.

use vstd::prelude::*;

use crate::digits::{
    all_digits, digit_run_end, digits_value, is_digit, leading_digits, lemma_digits_value_concat,
    lemma_pow10_positive, pow10, read_digits, scale_fraction, to_chars,
};
use crate::error::Error;
use crate::units::{parse_unit, unit_multiplier};

verus! {

/// `s` without the spaces that it starts with.
pub open spec fn skip_spaces(s: Seq<char>) -> Seq<char>
    decreases s.len(),
{
    if s.len() > 0 && s[0] == ' ' {
        skip_spaces(s.drop_first())
    } else {
        s
    }
}

/// `x` if it fits in `u64`, else the largest `u64`.
pub open spec fn saturate(x: nat) -> u64 {
    if x > u64::MAX {
        u64::MAX
    } else {
        x as u64
    }
}

/// The byte count that `s` spells, or why it spells none.
///
/// A bare run of digits is a count of bytes. Otherwise digits, optionally
/// a point and more digits, then spaces and a unit suffix: the exact value
/// of the mantissa times the unit's multiplier, with the fraction of a byte
/// dropped and anything above the largest `u64` saturated to it.
pub open spec fn parse_spec(s: Seq<char>) -> Result<u64, Error> {
    let i = leading_digits(s) as int;
    if s.len() == 0 {
        Err(Error::Empty)
    } else if i == s.len() {
        if digits_value(s) <= u64::MAX {
            Ok(digits_value(s) as u64)
        } else {
            Err(Error::Invalid)
        }
    } else if i == 0 {
        Err(Error::Invalid)
    } else if s[i] == '.' {
        let rest = s.subrange(i + 1, s.len() as int);
        let k = leading_digits(rest) as int;
        if k == 0 || k == rest.len() {
            Err(Error::Invalid)
        } else {
            match unit_multiplier(skip_spaces(rest.subrange(k, rest.len() as int))) {
                None => Err(Error::Unit),
                Some(m) => Ok(
                    saturate(
                        digits_value(s.subrange(0, i) + rest.subrange(0, k)) * (m as nat) / pow10(
                            k as nat,
                        ),
                    ),
                ),
            }
        }
    } else {
        let whole = digits_value(s.subrange(0, i));
        if whole > u64::MAX {
            Err(Error::Invalid)
        } else {
            match unit_multiplier(skip_spaces(s.subrange(i, s.len() as int))) {
                None => Err(Error::Unit),
                Some(m) => Ok(saturate(whole * (m as nat))),
            }
        }
    }
}

/// The first position at or after `from` that does not hold a space.
fn skip_spaces_end(s: &[char], from: usize) -> (k: usize)
    requires
        from <= s@.len(),
    ensures
        from <= k <= s@.len(),
        s@.subrange(k as int, s@.len() as int) == skip_spaces(
            s@.subrange(from as int, s@.len() as int),
        ),
{
    let mut k = from;
    while k < s.len() && s[k] == ' '
        invariant
            from <= k <= s@.len(),
            skip_spaces(s@.subrange(k as int, s@.len() as int)) == skip_spaces(
                s@.subrange(from as int, s@.len() as int),
            ),
        decreases s@.len() - k,
    {
        assert(s@.subrange(k as int, s@.len() as int).drop_first() =~= s@.subrange(
            k + 1,
            s@.len() as int,
        ));
        k = k + 1;
    }
    k
}

/// The mantissa `<whole>.<frac>` times `unit`, the fraction of a byte
/// dropped, saturated to the largest `u64`.
fn scale_mantissa(whole: &[char], frac: &[char], unit: u64) -> (r: u64)
    requires
        all_digits(whole@),
        all_digits(frac@),
        1 <= unit <= 1_200_000_000_000_000_000,
    ensures
        r == saturate(digits_value(whole@ + frac@) * (unit as nat) / pow10(frac@.len())),
{
    let part = scale_fraction(frac, unit);
    let ghost w = digits_value(whole@) as int;
    let ghost f = digits_value(frac@) as int;
    let ghost p = pow10(frac@.len()) as int;
    let ghost u = unit as int;
    proof {
        lemma_digits_value_concat(whole@, frac@);
        lemma_pow10_positive(frac@.len());
        assert((w * p + f) * u == f * u + (w * u) * p) by (nonlinear_arith);
        vstd::arithmetic::div_mod::lemma_hoist_over_denominator(f * u, w * u, p as nat);
        assert(f * u >= 0) by (nonlinear_arith)
            requires
                f >= 0,
                u >= 0,
        ;
        assert(w * u >= w) by (nonlinear_arith)
            requires
                w >= 0,
                u >= 1,
        ;
        assert(f * u / p >= 0) by (nonlinear_arith)
            requires
                f * u >= 0,
                p >= 1,
        ;
    }
    assert(digits_value(whole@ + frac@) * (unit as nat) / pow10(frac@.len()) == w * u + f * u / p);
    match read_digits(whole) {
        None => u64::MAX,
        Some(x) => match x.checked_mul(unit) {
            None => u64::MAX,
            Some(y) => y.saturating_add(part),
        },
    }
}

/// Parses a byte count; see [`parse_spec`] for the grammar.
pub fn parse_byte_size(input: &str) -> (r: Result<u64, Error>)
    ensures
        r == parse_spec(input@),
{
    let chars = to_chars(input);
    let s = chars.as_slice();
    let n = s.len();
    if n == 0 {
        return Err(Error::Empty);
    }
    let i = digit_run_end(s, 0);
    assert(s@.subrange(0, n as int) =~= s@);
    if i == n {
        assert(all_digits(s@));
        return match read_digits(s) {
            Some(x) => Ok(x),
            None => Err(Error::Invalid),
        };
    }
    if i == 0 {
        return Err(Error::Invalid);
    }
    let whole = &s[0..i];
    assert(all_digits(whole@)) by {
        assert forall|j: int| 0 <= j < whole@.len() implies is_digit(#[trigger] whole@[j]) by {
            assert(whole@[j] == s@[j]);
        }
    }
    if s[i] == '.' {
        let j = digit_run_end(s, i + 1);
        let ghost rest = s@.subrange(i + 1, n as int);
        assert(rest.subrange(j - i - 1, rest.len() as int) =~= s@.subrange(j as int, n as int));
        if j == i + 1 || j == n {
            return Err(Error::Invalid);
        }
        let start = skip_spaces_end(s, j);
        let unit = match parse_unit(&s[start..n]) {
            Ok(m) => m,
            Err(e) => {
                return Err(e);
            },
        };
        let frac = &s[i + 1..j];
        assert(frac@ =~= rest.subrange(0, j - i - 1));
        assert(all_digits(frac@)) by {
            assert forall|x: int| 0 <= x < frac@.len() implies is_digit(#[trigger] frac@[x]) by {
                assert(frac@[x] == s@[i + 1 + x]);
            }
        }
        Ok(scale_mantissa(whole, frac, unit))
    } else {
        let value = match read_digits(whole) {
            Some(x) => x,
            None => {
                return Err(Error::Invalid);
            },
        };
        let start = skip_spaces_end(s, i);
        let unit = match parse_unit(&s[start..n]) {
            Ok(m) => m,
            Err(e) => {
                return Err(e);
            },
        };
        Ok(
            match value.checked_mul(unit) {
                Some(x) => x,
                None => u64::MAX,
            },
        )
    }
}

} // verus!
