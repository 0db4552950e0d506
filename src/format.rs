//! The formatter shared by both size types: a count rendered with one
//! decimal digit and the prefix of its magnitude.

use vstd::prelude::*;

use crate::digits::{decimal, digit_char};
use crate::units::{EB, EIB, GB, GIB, KB, KIB, MB, MIB, PB, PIB, TB, TIB};

verus! {

/// Which family of magnitude prefixes a rendering uses.
#[derive(Debug, Clone, Copy, PartialEq, Eq, Structural)]
pub enum Flavor {
    /// Powers of 1000: kB, MB, GB, TB, PB, EB.
    Decimal,
    /// Powers of 1024: KiB, MiB, GiB, TiB, PiB, EiB.
    Binary,
}

/// The multiplier of the `e`-th magnitude step, for `e` from 0 to 6.
pub open spec fn step_size(f: Flavor, e: nat) -> nat {
    match f {
        Flavor::Decimal => if e == 0 {
            1
        } else if e == 1 {
            KB as nat
        } else if e == 2 {
            MB as nat
        } else if e == 3 {
            GB as nat
        } else if e == 4 {
            TB as nat
        } else if e == 5 {
            PB as nat
        } else {
            EB as nat
        },
        Flavor::Binary => if e == 0 {
            1
        } else if e == 1 {
            KIB as nat
        } else if e == 2 {
            MIB as nat
        } else if e == 3 {
            GIB as nat
        } else if e == 4 {
            TIB as nat
        } else if e == 5 {
            PIB as nat
        } else {
            EIB as nat
        },
    }
}

/// The first magnitude step: 1000 or 1024.
pub open spec fn base(f: Flavor) -> nat {
    step_size(f, 1)
}

/// The largest magnitude step, at most the sixth, that `count` reaches.
pub open spec fn magnitude(count: nat, f: Flavor) -> nat {
    if count >= step_size(f, 6) {
        6
    } else if count >= step_size(f, 5) {
        5
    } else if count >= step_size(f, 4) {
        4
    } else if count >= step_size(f, 3) {
        3
    } else if count >= step_size(f, 2) {
        2
    } else if count >= step_size(f, 1) {
        1
    } else {
        0
    }
}

/// `a / b` rounded to the nearest integer, ties to the even one.
pub open spec fn div_round_even(a: nat, b: nat) -> nat {
    let q = a / b;
    let r = a % b;
    if 2 * r > b || (2 * r == b && q % 2 == 1) {
        q + 1
    } else {
        q
    }
}

/// The count in tenths of its magnitude step, rounded.
pub open spec fn tenths(count: nat, f: Flavor) -> nat {
    div_round_even(10 * count, step_size(f, magnitude(count, f)))
}

/// The letter that names the `e`-th magnitude step.
pub open spec fn prefix_letter(f: Flavor, e: nat) -> char {
    if e == 1 {
        match f {
            Flavor::Decimal => 'k',
            Flavor::Binary => 'K',
        }
    } else if e == 2 {
        'M'
    } else if e == 3 {
        'G'
    } else if e == 4 {
        'T'
    } else if e == 5 {
        'P'
    } else {
        'E'
    }
}

/// What follows the prefix letter: `B`, or `iB` for binary prefixes.
pub open spec fn unit_tail(f: Flavor) -> Seq<char> {
    match f {
        Flavor::Decimal => seq!['B'],
        Flavor::Binary => seq!['i', 'B'],
    }
}

/// The display text of a count: `<n>B` below the first magnitude step,
/// else the count in its magnitude step with one decimal digit, the
/// prefix letter and the unit.
pub open spec fn format_spec(count: u64, f: Flavor) -> Seq<char> {
    if count < base(f) {
        decimal(count as nat) + seq!['B']
    } else {
        let e = magnitude(count as nat, f);
        let t = tenths(count as nat, f);
        decimal(t / 10) + seq!['.', digit_char(t % 10), prefix_letter(f, e)] + unit_tail(f)
    }
}

/// The text of one ASCII digit.
fn digit_text(d: u64) -> (r: &'static str)
    requires
        d < 10,
    ensures
        r@ == seq![digit_char(d as nat)],
{
    proof {
        reveal_strlit("0");
        reveal_strlit("1");
        reveal_strlit("2");
        reveal_strlit("3");
        reveal_strlit("4");
        reveal_strlit("5");
        reveal_strlit("6");
        reveal_strlit("7");
        reveal_strlit("8");
        reveal_strlit("9");
    }
    let r = if d == 0 {
        "0"
    } else if d == 1 {
        "1"
    } else if d == 2 {
        "2"
    } else if d == 3 {
        "3"
    } else if d == 4 {
        "4"
    } else if d == 5 {
        "5"
    } else if d == 6 {
        "6"
    } else if d == 7 {
        "7"
    } else if d == 8 {
        "8"
    } else {
        "9"
    };
    assert(r@ =~= seq![digit_char(d as nat)]);
    r
}

/// Appends the decimal rendering of `n`.
fn push_decimal(out: &mut String, n: u64)
    ensures
        final(out)@ == old(out)@ + decimal(n as nat),
    decreases n,
{
    if n >= 10 {
        push_decimal(out, n / 10);
    }
    out.append(digit_text(n % 10));
    proof {
        if n >= 10 {
            assert(old(out)@ + decimal((n / 10) as nat) + seq![digit_char((n % 10) as nat)]
                =~= old(out)@ + decimal(n as nat));
        } else {
            assert(old(out)@ + seq![digit_char((n % 10) as nat)] =~= old(out)@ + decimal(n as nat));
        }
    }
}

/// The prefix letter of a magnitude step and the unit after it.
fn suffix_text(f: Flavor, e: u64) -> (r: &'static str)
    requires
        1 <= e <= 6,
    ensures
        r@ == seq![prefix_letter(f, e as nat)] + unit_tail(f),
{
    proof {
        reveal_strlit("kB");
        reveal_strlit("MB");
        reveal_strlit("GB");
        reveal_strlit("TB");
        reveal_strlit("PB");
        reveal_strlit("EB");
        reveal_strlit("KiB");
        reveal_strlit("MiB");
        reveal_strlit("GiB");
        reveal_strlit("TiB");
        reveal_strlit("PiB");
        reveal_strlit("EiB");
    }
    let r = match f {
        Flavor::Decimal => if e == 1 {
            "kB"
        } else if e == 2 {
            "MB"
        } else if e == 3 {
            "GB"
        } else if e == 4 {
            "TB"
        } else if e == 5 {
            "PB"
        } else {
            "EB"
        },
        Flavor::Binary => if e == 1 {
            "KiB"
        } else if e == 2 {
            "MiB"
        } else if e == 3 {
            "GiB"
        } else if e == 4 {
            "TiB"
        } else if e == 5 {
            "PiB"
        } else {
            "EiB"
        },
    };
    assert(r@ =~= seq![prefix_letter(f, e as nat)] + unit_tail(f));
    r
}

/// The magnitude step of a count of at least one step, and its multiplier.
fn magnitude_of(count: u64, f: Flavor) -> (r: (u64, u64))
    requires
        count >= base(f),
    ensures
        r.0 == magnitude(count as nat, f),
        r.1 == step_size(f, r.0 as nat),
        1 <= r.0 <= 6,
{
    let steps: [u64; 6] = match f {
        Flavor::Decimal => [KB, MB, GB, TB, PB, EB],
        Flavor::Binary => [KIB, MIB, GIB, TIB, PIB, EIB],
    };
    if count >= steps[5] {
        (6, steps[5])
    } else if count >= steps[4] {
        (5, steps[4])
    } else if count >= steps[3] {
        (4, steps[3])
    } else if count >= steps[2] {
        (3, steps[2])
    } else if count >= steps[1] {
        (2, steps[1])
    } else {
        (1, steps[0])
    }
}

/// Renders a count with the prefixes of `f`; see [`format_spec`].
pub fn format_byte_size(count: u64, f: Flavor) -> (r: String)
    ensures
        r@ == format_spec(count, f),
{
    let mut out = String::new();
    let first: u64 = match f {
        Flavor::Decimal => KB,
        Flavor::Binary => KIB,
    };
    if count < first {
        push_decimal(&mut out, count);
        proof {
            reveal_strlit("B");
        }
        out.append("B");
        assert(out@ =~= format_spec(count, f));
        return out;
    }
    let (e, size) = magnitude_of(count, f);
    let wide: u128 = count as u128 * 10;
    let q = wide / (size as u128);
    let rem = wide % (size as u128);
    let t: u128 = if 2 * rem > size as u128 || (2 * rem == size as u128 && q % 2 == 1) {
        q + 1
    } else {
        q
    };
    assert(t == tenths(count as nat, f));
    assert(q <= wide) by (nonlinear_arith)
        requires
            q == wide / (size as u128),
            size >= 1,
            wide >= 0,
    ;
    push_decimal(&mut out, (t / 10) as u64);
    proof {
        reveal_strlit(".");
    }
    out.append(".");
    out.append(digit_text((t % 10) as u64));
    out.append(suffix_text(f, e));
    assert(out@ =~= format_spec(count, f));
    out
}

} // verus!
