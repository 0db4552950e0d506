//! ASCII decimal digits: their values, and the decimal rendering of a number.

use vstd::prelude::*;
use vstd::std_specs::iter::IteratorSpec;

verus! {

/// `c` is one of the ASCII digits `0` to `9`.
pub open spec fn is_digit(c: char) -> bool {
    '0' <= c && c <= '9'
}

/// The value of an ASCII digit.
pub open spec fn digit_value(c: char) -> int {
    c as int - '0' as int
}

/// The number that a run of ASCII digits spells, most significant first.
pub open spec fn digits_value(s: Seq<char>) -> nat
    decreases s.len(),
{
    if s.len() == 0 {
        0
    } else {
        (digits_value(s.drop_last()) * 10 + digit_value(s.last())) as nat
    }
}

/// The length of the run of ASCII digits that `s` starts with.
pub open spec fn leading_digits(s: Seq<char>) -> nat
    decreases s.len(),
{
    if s.len() > 0 && is_digit(s[0]) {
        1 + leading_digits(s.drop_first())
    } else {
        0
    }
}

/// The ASCII digit for a value below ten.
pub open spec fn digit_char(d: nat) -> char {
    if d == 0 { '0' }
    else if d == 1 { '1' }
    else if d == 2 { '2' }
    else if d == 3 { '3' }
    else if d == 4 { '4' }
    else if d == 5 { '5' }
    else if d == 6 { '6' }
    else if d == 7 { '7' }
    else if d == 8 { '8' }
    else { '9' }
}

/// The decimal rendering of `n`, without leading zeros.
pub open spec fn decimal(n: nat) -> Seq<char>
    decreases n,
{
    if n < 10 {
        seq![digit_char(n)]
    } else {
        decimal(n / 10).push(digit_char(n % 10))
    }
}

/// Ten to the power `k`.
pub open spec fn pow10(k: nat) -> nat
    decreases k,
{
    if k == 0 {
        1
    } else {
        10 * pow10((k - 1) as nat)
    }
}

/// Every character of `s` is an ASCII digit.
pub open spec fn all_digits(s: Seq<char>) -> bool {
    forall|i: int| 0 <= i < s.len() ==> is_digit(#[trigger] s[i])
}

pub(crate) proof fn lemma_pow10_positive(k: nat)
    ensures
        pow10(k) >= 1,
    decreases k,
{
    if k > 0 {
        lemma_pow10_positive((k - 1) as nat);
    }
}

/// A run of `k` digits followed by a non-digit (or the end) has `k`
/// leading digits.
pub(crate) proof fn lemma_leading_digits(t: Seq<char>, k: int)
    requires
        0 <= k <= t.len(),
        forall|j: int| 0 <= j < k ==> is_digit(#[trigger] t[j]),
        k == t.len() || !is_digit(t[k]),
    ensures
        leading_digits(t) == k,
    decreases k,
{
    if k > 0 {
        let rest = t.drop_first();
        assert forall|j: int| 0 <= j < k - 1 implies is_digit(#[trigger] rest[j]) by {
            assert(rest[j] == t[j + 1]);
        }
        lemma_leading_digits(rest, k - 1);
    }
}

/// The value of two digit runs written one after the other.
pub(crate) proof fn lemma_digits_value_concat(a: Seq<char>, b: Seq<char>)
    requires
        all_digits(a),
        all_digits(b),
    ensures
        digits_value(a + b) == digits_value(a) * pow10(b.len()) + digits_value(b),
    decreases b.len(),
{
    if b.len() == 0 {
        assert(a + b =~= a);
        assert(digits_value(b) == 0);
        assert(pow10(b.len()) == 1);
    } else {
        let b0 = b.drop_last();
        assert((a + b).drop_last() =~= a + b0);
        assert((a + b).last() == b.last());
        assert(all_digits(b0)) by {
            assert forall|i: int| 0 <= i < b0.len() implies is_digit(#[trigger] b0[i]) by {
                assert(b0[i] == b[i]);
            }
        }
        lemma_digits_value_concat(a, b0);
        assert(is_digit(b[b.len() - 1]));
        assert(pow10(b.len()) == 10 * pow10(b0.len()));
        assert(digits_value(b) == digits_value(b0) * 10 + digit_value(b.last()));
        assert(digits_value(a + b) == digits_value(a + b0) * 10 + digit_value(b.last()));
        let x = digits_value(a);
        let p = pow10(b0.len());
        let y = digits_value(b0);
        assert((x * p + y) * 10 + digit_value(b.last()) == x * (10 * p) + (y * 10 + digit_value(
            b.last(),
        ))) by (nonlinear_arith);
        assert(digits_value(a) * pow10(b.len()) == x * (10 * p));
    }
}

/// Scaling a digit run by `u` and dropping the fraction can be done one
/// digit at a time, from the last digit to the first.
pub(crate) proof fn lemma_scaled_step(t: Seq<char>, u: nat)
    requires
        t.len() > 0,
        all_digits(t),
    ensures
        digits_value(t) * u / pow10(t.len()) == (digit_value(t[0]) * u + digits_value(
            t.drop_first(),
        ) * u / pow10((t.len() - 1) as nat)) / 10,
{
    let head = t.subrange(0, 1);
    let tail = t.drop_first();
    assert(head + tail =~= t);
    assert(all_digits(head));
    assert(all_digits(tail)) by {
        assert forall|i: int| 0 <= i < tail.len() implies is_digit(#[trigger] tail[i]) by {
            assert(tail[i] == t[i + 1]);
        }
    }
    lemma_digits_value_concat(head, tail);
    assert(head.drop_last() =~= Seq::<char>::empty());
    assert(digits_value(head.drop_last()) == 0);
    assert(head.last() == t[0]);
    assert(is_digit(t[0]));
    assert(digits_value(head) == digit_value(t[0]));
    let n = tail.len();
    let p: int = pow10(n) as int;
    lemma_pow10_positive(n);
    let d: int = digit_value(t[0]);
    let v: int = digits_value(tail) as int;
    assert(digits_value(t) == d * p + v);
    let x: int = (d * p + v) * u;
    assert(x == v * u + (d * u) * p) by (nonlinear_arith)
        requires
            x == (d * p + v) * u,
    ;
    vstd::arithmetic::div_mod::lemma_hoist_over_denominator(v * u, d * u, p as nat);
    assert(x / p == v * u / p + d * u);
    assert(x >= 0) by (nonlinear_arith)
        requires
            x == (d * p + v) * u,
            d >= 0,
            v >= 0,
            p >= 1,
            u >= 0,
    ;
    vstd::arithmetic::div_mod::lemma_div_denominator(x, p, 10);
    assert(pow10(t.len()) == p * 10);
}

pub(crate) proof fn lemma_digit_char(d: nat)
    requires
        d < 10,
    ensures
        is_digit(digit_char(d)),
        digit_value(digit_char(d)) == d,
{
}

/// The decimal rendering of `n` is a non-empty digit run worth `n`.
pub(crate) proof fn lemma_decimal(n: nat)
    ensures
        decimal(n).len() >= 1,
        all_digits(decimal(n)),
        digits_value(decimal(n)) == n,
    decreases n,
{
    lemma_digit_char(n % 10);
    if n < 10 {
        assert(decimal(n).drop_last() =~= Seq::<char>::empty());
        assert(digits_value(decimal(n).drop_last()) == 0);
    } else {
        lemma_decimal(n / 10);
        let s = decimal(n);
        assert(s.drop_last() =~= decimal(n / 10));
        assert(all_digits(s)) by {
            assert forall|i: int| 0 <= i < s.len() implies is_digit(#[trigger] s[i]) by {
                if i < s.len() - 1 {
                    assert(s[i] == decimal(n / 10)[i]);
                }
            }
        }
    }
}

/// Copies the characters of `s` into a vector.
pub(crate) fn to_chars(s: &str) -> (r: Vec<char>)
    ensures
        r@ == s@,
{
    broadcast use vstd::string::next_postcondition, vstd::string::axiom_spec_iter;

    let mut it = s.chars();
    let mut r: Vec<char> = Vec::new();
    loop
        invariant
            r@ + it.remaining() == s@,
        ensures
            r@ == s@,
        decreases s@.len() - r@.len(),
    {
        match it.next() {
            Some(c) => r.push(c),
            None => {
                assert(r@ + it.remaining() =~= r@);
                assert(r@ == s@);
                break;
            },
        }
    }
    r
}

/// The end of the run of ASCII digits that starts at `from`.
pub(crate) fn digit_run_end(s: &[char], from: usize) -> (i: usize)
    requires
        from <= s@.len(),
    ensures
        i == from + leading_digits(s@.subrange(from as int, s@.len() as int)),
        from <= i <= s@.len(),
        forall|j: int| from <= j < i ==> is_digit(#[trigger] s@[j]),
        i < s@.len() ==> !is_digit(s@[i as int]),
{
    let mut i = from;
    while i < s.len() && '0' <= s[i] && s[i] <= '9'
        invariant
            from <= i <= s@.len(),
            forall|j: int| from <= j < i ==> is_digit(#[trigger] s@[j]),
        decreases s@.len() - i,
    {
        i = i + 1;
    }
    let ghost t = s@.subrange(from as int, s@.len() as int);
    assert forall|j: int| 0 <= j < i - from implies is_digit(#[trigger] t[j]) by {
        assert(t[j] == s@[from + j]);
    }
    proof {
        if i < s@.len() {
            assert(t[i - from] == s@[i as int]);
        }
        lemma_leading_digits(t, i - from);
    }
    i
}

/// Reads a run of ASCII digits as a number, or `None` where the number
/// does not fit in `u64`.
pub(crate) fn read_digits(s: &[char]) -> (r: Option<u64>)
    requires
        all_digits(s@),
    ensures
        r == (if digits_value(s@) <= u64::MAX {
            Some(digits_value(s@) as u64)
        } else {
            None
        }),
{
    let mut v: u64 = 0;
    let mut i: usize = 0;
    while i < s.len()
        invariant
            all_digits(s@),
            i <= s@.len(),
            v == digits_value(s@.subrange(0, i as int)),
        decreases s@.len() - i,
    {
        let ghost before = s@.subrange(0, i as int);
        let ghost after = s@.subrange(0, i + 1);
        assert(after.drop_last() =~= before);
        assert(is_digit(s@[i as int]));
        let d = (s[i] as u32 - '0' as u32) as u64;
        if v > (u64::MAX - d) / 10 {
            proof {
                assert(digits_value(after) > u64::MAX);
                let rest = s@.subrange(i + 1, s@.len() as int);
                assert(after + rest =~= s@);
                assert(all_digits(after));
                assert(all_digits(rest));
                lemma_digits_value_concat(after, rest);
                lemma_pow10_positive(rest.len());
                assert(digits_value(after) * pow10(rest.len()) >= digits_value(after))
                    by (nonlinear_arith)
                    requires
                        pow10(rest.len()) >= 1,
                ;
            }
            return None;
        }
        v = v * 10 + d;
        i = i + 1;
    }
    assert(s@.subrange(0, s@.len() as int) =~= s@);
    Some(v)
}

/// Scales the fraction `0.<frac>` by `unit`, dropping what falls below one.
pub(crate) fn scale_fraction(frac: &[char], unit: u64) -> (q: u64)
    requires
        all_digits(frac@),
        unit <= 1_200_000_000_000_000_000,
    ensures
        q == digits_value(frac@) * (unit as nat) / pow10(frac@.len()),
        q <= unit,
{
    let mut q: u64 = 0;
    let mut j = frac.len();
    let ghost n = frac@.len() as int;
    assert(frac@.subrange(n, n) =~= Seq::<char>::empty());
    while j > 0
        invariant
            j <= n,
            n == frac@.len(),
            all_digits(frac@),
            unit <= 1_200_000_000_000_000_000,
            q == digits_value(frac@.subrange(j as int, n)) * (unit as nat) / pow10((n - j) as nat),
            q <= unit,
        decreases j,
    {
        j = j - 1;
        let ghost t = frac@.subrange(j as int, n);
        assert(t.drop_first() =~= frac@.subrange(j + 1, n));
        assert(all_digits(t)) by {
            assert forall|i: int| 0 <= i < t.len() implies is_digit(#[trigger] t[i]) by {
                assert(t[i] == frac@[j + i]);
            }
        }
        proof {
            lemma_scaled_step(t, unit as nat);
        }
        assert(is_digit(frac@[j as int]));
        let d = (frac[j] as u32 - '0' as u32) as u64;
        assert(d * unit <= 9 * 1_200_000_000_000_000_000) by (nonlinear_arith)
            requires
                d <= 9,
                unit <= 1_200_000_000_000_000_000,
        ;
        assert(d * unit + q <= 10 * unit) by (nonlinear_arith)
            requires
                d <= 9,
                q <= unit,
        ;
        q = (d * unit + q) / 10;
    }
    assert(frac@.subrange(0, n) =~= frac@);
    q
}

} // verus!
