//! Properties that relate parsing and formatting, proved over their
//! specifications.

use vstd::prelude::*;

use crate::digits::{
    all_digits, decimal, digit_char, digits_value, is_digit, leading_digits, lemma_decimal,
    lemma_digit_char, lemma_digits_value_concat, lemma_leading_digits, pow10,
};
use crate::format::{
    base, div_round_even, format_spec, magnitude, prefix_letter, step_size, tenths, unit_tail,
    Flavor,
};
use crate::parse::{parse_spec, saturate, skip_spaces};
use crate::size::{ByteSizeIec, ByteSizeSi};
use crate::units::{matches_word, unit_multiplier};

verus! {

/// A unit suffix from the table starts with a letter.
proof fn lemma_unit_starts_with_letter(unit: Seq<char>)
    requires
        unit_multiplier(unit) is Some,
    ensures
        unit.len() >= 1,
        !is_digit(unit[0]),
        unit[0] != ' ',
        unit[0] != '.',
{
}

/// `k` spaces.
pub open spec fn spaces(k: nat) -> Seq<char> {
    Seq::new(k, |_i: int| ' ')
}

/// Spaces in front of a unit suffix are skipped up to the suffix.
proof fn lemma_skip_gap(k: nat, unit: Seq<char>)
    requires
        unit_multiplier(unit) is Some,
    ensures
        skip_spaces(spaces(k) + unit) == unit,
    decreases k,
{
    lemma_unit_starts_with_letter(unit);
    let s = spaces(k) + unit;
    if k == 0 {
        assert(s =~= unit);
    } else {
        assert(s[0] == ' ');
        assert(s.drop_first() =~= spaces((k - 1) as nat) + unit);
        lemma_skip_gap((k - 1) as nat, unit);
    }
}

/// A run of digits followed by spaces and a unit suffix: the leading run
/// stops at the end of the digits, and what follows reduces to the suffix.
proof fn lemma_digits_then_unit(digits: Seq<char>, gap: nat, unit: Seq<char>)
    requires
        all_digits(digits),
        unit_multiplier(unit) is Some,
    ensures
        leading_digits(digits + spaces(gap) + unit) == digits.len(),
        skip_spaces(spaces(gap) + unit) == unit,
        (digits + spaces(gap) + unit).subrange(0, digits.len() as int) == digits,
        (digits + spaces(gap) + unit).subrange(
            digits.len() as int,
            (digits + spaces(gap) + unit).len() as int,
        ) == spaces(gap) + unit,
{
    lemma_unit_starts_with_letter(unit);
    lemma_skip_gap(gap, unit);
    let s = digits + spaces(gap) + unit;
    assert forall|j: int| 0 <= j < digits.len() implies is_digit(#[trigger] s[j]) by {
        assert(s[j] == digits[j]);
    }
    if gap > 0 {
        assert(s[digits.len() as int] == ' ');
    } else {
        assert(s[digits.len() as int] == unit[0]);
    }
    lemma_leading_digits(s, digits.len() as int);
    assert(s.subrange(0, digits.len() as int) =~= digits);
    assert(s.subrange(digits.len() as int, s.len() as int) =~= spaces(gap) + unit);
}

/// A whole number written in decimal, followed by `gap` spaces and a unit
/// suffix, parses to the number times the unit's multiplier (saturated to
/// the largest `u64`); written alone, to the number.
pub proof fn lemma_parse_whole(n: u64, gap: nat, unit: Seq<char>, m: u64)
    requires
        unit_multiplier(unit) == Some(m),
    ensures
        parse_spec(decimal(n as nat)) == Ok::<u64, crate::error::Error>(n),
        parse_spec(decimal(n as nat) + spaces(gap) + unit) == Ok::<u64, crate::error::Error>(
            saturate((n as nat) * (m as nat)),
        ),
        n * m <= u64::MAX ==> parse_spec(decimal(n as nat) + spaces(gap) + unit) == Ok::<
            u64,
            crate::error::Error,
        >((n * m) as u64),
{
    lemma_decimal(n as nat);
    let d = decimal(n as nat);
    lemma_digits_then_unit(d, gap, unit);
    lemma_leading_digits(d, d.len() as int);
    let s = d + spaces(gap) + unit;
    lemma_unit_starts_with_letter(unit);
    if gap > 0 {
        assert(s[d.len() as int] == ' ');
    } else {
        assert(s[d.len() as int] == unit[0]);
    }
}

/// A mantissa with a fractional part, followed by `gap` spaces and a unit
/// suffix, parses to the exact product with the fraction of a byte
/// dropped, and to the largest `u64` wherever that product exceeds it.
pub proof fn lemma_parse_fraction(
    whole: Seq<char>,
    frac: Seq<char>,
    gap: nat,
    unit: Seq<char>,
    m: u64,
)
    requires
        whole.len() >= 1,
        frac.len() >= 1,
        all_digits(whole),
        all_digits(frac),
        unit_multiplier(unit) == Some(m),
    ensures
        parse_spec(whole + seq!['.'] + frac + spaces(gap) + unit) == Ok::<
            u64,
            crate::error::Error,
        >(saturate(digits_value(whole + frac) * (m as nat) / pow10(frac.len()))),
        digits_value(whole + frac) * (m as nat) >= (u64::MAX + 1) * pow10(frac.len()) ==> parse_spec(
            whole + seq!['.'] + frac + spaces(gap) + unit,
        ) == Ok::<u64, crate::error::Error>(u64::MAX),
{
    let s = whole + seq!['.'] + frac + spaces(gap) + unit;
    let i = whole.len() as int;
    assert forall|j: int| 0 <= j < i implies is_digit(#[trigger] s[j]) by {
        assert(s[j] == whole[j]);
    }
    assert(s[i] == '.');
    lemma_leading_digits(s, i);
    let rest = s.subrange(i + 1, s.len() as int);
    assert(rest =~= frac + spaces(gap) + unit);
    lemma_digits_then_unit(frac, gap, unit);
    assert(s.subrange(0, i) =~= whole);
    let k = frac.len() as int;
    assert(rest.subrange(0, k) =~= frac);
    assert(rest.subrange(k, rest.len() as int) =~= spaces(gap) + unit);
    let v = digits_value(whole + frac) * (m as nat);
    let p = pow10(frac.len());
    crate::digits::lemma_pow10_positive(frac.len());
    if v >= (u64::MAX + 1) * p {
        assert(v / p >= u64::MAX + 1) by (nonlinear_arith)
            requires
                v >= (u64::MAX + 1) * p,
                p >= 1,
        ;
    }
}

/// Every count below the first magnitude step is shown as its decimal
/// digits followed by `B`, in both prefix families.
pub proof fn lemma_format_small(n: u64, f: Flavor)
    requires
        n < base(f),
    ensures
        format_spec(n, f) == decimal(n as nat) + seq!['B'],
{
}

/// The suffix that the formatter writes for a magnitude step is the unit
/// of that step.
proof fn lemma_suffix_unit(f: Flavor, e: nat)
    requires
        1 <= e <= 6,
    ensures
        unit_multiplier(seq![prefix_letter(f, e)] + unit_tail(f)) == Some(step_size(f, e) as u64),
{
    let u = seq![prefix_letter(f, e)] + unit_tail(f);
    match f {
        Flavor::Decimal => {
            assert(u =~= seq![prefix_letter(f, e), 'B']);
            if e == 1 {
                assert(matches_word(u, seq!['k', 'b']));
            } else if e == 2 {
                assert(matches_word(u, seq!['m', 'b']));
            } else if e == 3 {
                assert(matches_word(u, seq!['g', 'b']));
            } else if e == 4 {
                assert(matches_word(u, seq!['t', 'b']));
            } else if e == 5 {
                assert(matches_word(u, seq!['p', 'b']));
            } else {
                assert(matches_word(u, seq!['e', 'b']));
            }
        },
        Flavor::Binary => {
            assert(u =~= seq![prefix_letter(f, e), 'i', 'B']);
            if e == 1 {
                assert(matches_word(u, seq!['k', 'i', 'b']));
            } else if e == 2 {
                assert(matches_word(u, seq!['m', 'i', 'b']));
            } else if e == 3 {
                assert(matches_word(u, seq!['g', 'i', 'b']));
            } else if e == 4 {
                assert(matches_word(u, seq!['t', 'i', 'b']));
            } else if e == 5 {
                assert(matches_word(u, seq!['p', 'i', 'b']));
            } else {
                assert(matches_word(u, seq!['e', 'i', 'b']));
            }
        },
    }
}

/// Tenths of a step, scaled to bytes with the fraction dropped, round back
/// to the same tenths.
proof fn lemma_round_back(t: nat, b: nat)
    requires
        b >= 1000,
    ensures
        div_round_even(10 * (t * b / 10), b) == t,
{
    let x = t * b;
    let w = x / 10;
    let r0 = x % 10;
    assert(x == 10 * w + r0 && 0 <= r0 < 10) by {
        vstd::arithmetic::div_mod::lemma_fundamental_div_mod(x as int, 10);
    }
    if r0 == 0 {
        vstd::arithmetic::div_mod::lemma_fundamental_div_mod_converse(
            (10 * w) as int,
            b as int,
            t as int,
            0,
        );
    } else {
        assert(t >= 1) by (nonlinear_arith)
            requires
                x == t * b,
                x == 10 * w + r0,
                r0 > 0,
                w >= 0,
        ;
        assert(10 * w == (t - 1) * b + (b - r0)) by (nonlinear_arith)
            requires
                x == t * b,
                x == 10 * w + r0,
        ;
        vstd::arithmetic::div_mod::lemma_fundamental_div_mod_converse(
            (10 * w) as int,
            b as int,
            t - 1,
            b - r0,
        );
    }
}

/// Rounding carries the count into the next magnitude step: its text shows
/// a full thousand (or 1024) of the smaller prefix, such as `1000.0kB`.
pub open spec fn carries_over(count: u64, f: Flavor) -> bool {
    count >= base(f) && magnitude(count as nat, f) < 6 && tenths(count as nat, f) == 10 * base(f)
}

/// The round trip for a count below the first magnitude step.
proof fn lemma_round_trip_small(v: u64, f: Flavor)
    requires
        v < base(f),
    ensures
        parse_spec(format_spec(v, f)) is Ok,
        format_spec(parse_spec(format_spec(v, f))->Ok_0, f) == format_spec(v, f),
{
    assert(unit_multiplier(seq!['B']) == Some(1u64)) by {
        assert(matches_word(seq!['B'], seq!['b']));
    }
    lemma_parse_whole(v, 0, seq!['B'], 1);
    assert(spaces(0) + seq!['B'] =~= seq!['B']);
}

/// The text of a count of at least one magnitude step parses to its tenths
/// scaled back to bytes.
proof fn lemma_parse_formatted(v: u64, f: Flavor)
    requires
        v >= base(f),
    ensures
        parse_spec(format_spec(v, f)) == Ok::<u64, crate::error::Error>(
            saturate(tenths(v as nat, f) * step_size(f, magnitude(v as nat, f)) / 10),
        ),
{
    let e = magnitude(v as nat, f);
    let t = tenths(v as nat, f);
    let b = step_size(f, e);
    let whole = decimal(t / 10);
    let frac = seq![digit_char(t % 10)];
    let unit = seq![prefix_letter(f, e)] + unit_tail(f);
    lemma_decimal(t / 10);
    lemma_digit_char(t % 10);
    assert(all_digits(frac));
    assert(format_spec(v, f) =~= whole + seq!['.'] + frac + spaces(0) + unit);
    lemma_suffix_unit(f, e);
    lemma_parse_fraction(whole, frac, 0, unit, b as u64);
    lemma_digits_value_concat(whole, frac);
    assert(frac.drop_last() =~= Seq::<char>::empty());
    assert(digits_value(frac.drop_last()) == 0);
    assert(digits_value(frac) == t % 10);
    assert(pow10(1) == 10) by {
        assert(pow10(0) == 1);
    }
    assert(digits_value(whole + frac) == t);
}

/// Each magnitude step is the previous one times the base.
proof fn lemma_next_step(f: Flavor, e: nat)
    requires
        1 <= e < 6,
    ensures
        step_size(f, e + 1) == base(f) * step_size(f, e),
{
    match f {
        Flavor::Decimal => {
            assert(1000 * 1000 == 1_000_000nat);
            assert(1000 * 1_000_000 == 1_000_000_000nat);
            assert(1000 * 1_000_000_000 == 1_000_000_000_000nat);
            assert(1000 * 1_000_000_000_000 == 1_000_000_000_000_000nat);
            assert(1000 * 1_000_000_000_000_000 == 1_000_000_000_000_000_000nat);
        },
        Flavor::Binary => {
            assert(1024 * 1024 == 1_048_576nat);
            assert(1024 * 1_048_576 == 1_073_741_824nat);
            assert(1024 * 1_073_741_824 == 1_099_511_627_776nat);
            assert(1024 * 1_099_511_627_776 == 1_125_899_906_842_624nat);
            assert(1024 * 1_125_899_906_842_624 == 1_152_921_504_606_846_976nat);
        },
    }
}

/// At the sixth step, tenths scaled back to bytes exceed the largest count
/// only for 16.0EiB, and the largest count shows the same.
proof fn lemma_top_step(v: u64, f: Flavor)
    requires
        magnitude(v as nat, f) == 6,
        tenths(v as nat, f) * step_size(f, 6) / 10 > u64::MAX,
    ensures
        tenths(u64::MAX as nat, f) == tenths(v as nat, f),
        magnitude(u64::MAX as nat, f) == 6,
{
    let x = 10 * (v as nat);
    let t = tenths(v as nat, f);
    let b = step_size(f, 6);
    let q = x / b;
    let r = x % b;
    vstd::arithmetic::div_mod::lemma_fundamental_div_mod(x as int, b as int);
    assert(x == b * q + r && r < b);
    assert(t == q || t == q + 1);
    assert(t == q + 1 ==> 2 * r >= b);
    assert(x <= 184_467_440_737_095_516_150);
    match f {
        Flavor::Decimal => {
            assert(b == 1_000_000_000_000_000_000);
            assert(t <= 184) by (nonlinear_arith)
                requires
                    x == b * q + r,
                    r < b,
                    b == 1_000_000_000_000_000_000,
                    x <= 184_467_440_737_095_516_150,
                    t == q || t == q + 1,
                    t == q + 1 ==> 2 * r >= b,
            ;
            assert(t * b / 10 <= 18_400_000_000_000_000_000) by (nonlinear_arith)
                requires
                    t <= 184,
                    b == 1_000_000_000_000_000_000,
            ;
            assert(false);
        },
        Flavor::Binary => {
            assert(b == 1_152_921_504_606_846_976);
            assert(q <= 159) by (nonlinear_arith)
                requires
                    x == b * q + r,
                    r >= 0,
                    b == 1_152_921_504_606_846_976,
                    x <= 184_467_440_737_095_516_150,
            ;
            if t <= 159 {
                assert(t * b / 10 <= 18_331_451_923_248_866_918) by (nonlinear_arith)
                    requires
                        t <= 159,
                        b == 1_152_921_504_606_846_976,
                ;
                assert(false);
            }
            let y = 184_467_440_737_095_516_150nat;
            vstd::arithmetic::div_mod::lemma_fundamental_div_mod(y as int, b as int);
            assert(y / b == 159);
            assert(y % b == 1_152_921_504_606_846_966);
            assert(tenths(u64::MAX as nat, f) == 160);
        },
    }
}

/// Tenths of a step scaled back to bytes fall in the same step and round
/// to the same tenths, unless rounding carried into the next step.
proof fn lemma_reformat(v: u64, f: Flavor)
    requires
        v >= base(f),
        !carries_over(v, f),
    ensures
        format_spec(
            saturate(tenths(v as nat, f) * step_size(f, magnitude(v as nat, f)) / 10),
            f,
        ) == format_spec(v, f),
{
    let e = magnitude(v as nat, f);
    let t = tenths(v as nat, f);
    let b = step_size(f, e);
    let w = t * b / 10;
    let vn = v as nat;
    lemma_round_back(t, b);
    assert(10 * vn >= 10 * b);
    assert(t >= 10) by {
        assert((10 * vn) / b >= 10) by (nonlinear_arith)
            requires
                10 * vn >= 10 * b,
                b >= 1000,
        ;
    }
    assert(w >= b) by (nonlinear_arith)
        requires
            t >= 10,
            w == t * b / 10,
            b >= 1000,
    ;
    if e < 6 {
        let next = step_size(f, e + 1);
        lemma_next_step(f, e);
        assert(v < next);
        assert(10 * base(f) * b == 10 * next) by (nonlinear_arith)
            requires
                next == base(f) * b,
        ;
        assert(10 * vn < 10 * next);
        assert(t <= 10 * base(f)) by (nonlinear_arith)
            requires
                10 * vn < 10 * base(f) * b,
                t == div_round_even(10 * vn, b),
                b >= 1000,
        ;
        assert(t < 10 * base(f));
        assert(w < next) by (nonlinear_arith)
            requires
                t < 10 * base(f),
                w == t * b / 10,
                next == base(f) * b,
                b >= 1000,
        ;
        assert(magnitude(w, f) == e);
        assert(saturate(w) as nat == w);
    } else if w <= u64::MAX {
        assert(magnitude(w, f) == 6);
        assert(saturate(w) as nat == w);
    } else {
        // Only 16.0EiB lies above the largest count, which shows the same.
        assert(saturate(w) == u64::MAX);
        lemma_top_step(v, f);
    }
}

/// The round trip for a count of at least one magnitude step.
proof fn lemma_round_trip_scaled(v: u64, f: Flavor)
    requires
        v >= base(f),
        !carries_over(v, f),
    ensures
        parse_spec(format_spec(v, f)) is Ok,
        format_spec(parse_spec(format_spec(v, f))->Ok_0, f) == format_spec(v, f),
{
    lemma_parse_formatted(v, f);
    lemma_reformat(v, f);
}

/// Formatting, parsing the text and formatting again gives the same text,
/// for every count whose rounding does not carry into the next step.
pub proof fn lemma_format_round_trip(v: u64, f: Flavor)
    requires
        !carries_over(v, f),
    ensures
        parse_spec(format_spec(v, f)) is Ok,
        format_spec(parse_spec(format_spec(v, f))->Ok_0, f) == format_spec(v, f),
{
    if v < base(f) {
        lemma_round_trip_small(v, f);
    } else {
        lemma_round_trip_scaled(v, f);
    }
}

/// Reinterpreting a decimal size as binary and back keeps the count.
pub proof fn lemma_reinterpret_decimal(x: ByteSizeSi, y: ByteSizeIec, z: ByteSizeSi)
    requires
        call_ensures(ByteSizeSi::iec, (x,), y),
        call_ensures(ByteSizeIec::si, (y,), z),
    ensures
        z == x,
{
}

/// Reinterpreting a binary size as decimal and back keeps the count.
pub proof fn lemma_reinterpret_binary(x: ByteSizeIec, y: ByteSizeSi, z: ByteSizeIec)
    requires
        call_ensures(ByteSizeIec::si, (x,), y),
        call_ensures(ByteSizeSi::iec, (y,), z),
    ensures
        z == x,
{
}

} // verus!
