use vstd::prelude::*;
use crate::text::{find, find_in};

verus! {

/// An ASCII decimal digit.
pub open spec fn is_digit(c: char) -> bool {
    '0' <= c && c <= '9'
}

pub open spec fn all_digits(s: Seq<char>) -> bool {
    forall|i: int| 0 <= i < s.len() ==> is_digit(#[trigger] s[i])
}

/// The number that a string of decimal digits writes, most significant first.
pub open spec fn digits_value(s: Seq<char>) -> nat
    decreases s.len(),
{
    if s.len() == 0 {
        0
    } else {
        digits_value(s.drop_last()) * 10 + (s.last() as nat - '0' as nat) as nat
    }
}

pub open spec fn pow10(n: nat) -> nat
    decreases n,
{
    if n == 0 {
        1
    } else {
        10 * pow10((n - 1) as nat)
    }
}

/// The digits before the decimal point, or all of `s` if it has none.
pub open spec fn whole_part(s: Seq<char>) -> Seq<char> {
    match find(s, seq!['.']) {
        Some(k) => s.take(k),
        None => s,
    }
}

/// The digits after the decimal point, empty if `s` has none.
pub open spec fn fraction_part(s: Seq<char>) -> Seq<char> {
    match find(s, seq!['.']) {
        Some(k) => s.skip(k + 1),
        None => Seq::empty(),
    }
}

/// `s` is an unsigned decimal number: digits, optionally followed by a point
/// and more digits, with at least one digit in all (`42`, `42.0`, `.5`, `5.`).
pub open spec fn is_decimal_text(s: Seq<char>) -> bool {
    &&& whole_part(s).len() + fraction_part(s).len() > 0
    &&& all_digits(whole_part(s))
    &&& all_digits(fraction_part(s))
}

/// The digits of `s` with the point taken out.
pub open spec fn significant_digits(s: Seq<char>) -> Seq<char> {
    whole_part(s) + fraction_part(s)
}

/// An exact non-negative decimal number: `mantissa / 10^scale`.
#[derive(Clone, Copy, Debug, PartialEq, Eq)]
pub struct Decimal {
    pub mantissa: u64,
    pub scale: usize,
}

/// The decimal that `s` writes, if `s` is decimal text whose digits, taken
/// as one integer, fit in 64 bits.
pub open spec fn decimal_of(s: Seq<char>) -> Option<Decimal> {
    if is_decimal_text(s) && digits_value(significant_digits(s)) <= u64::MAX {
        Some(
            Decimal {
                mantissa: digits_value(significant_digits(s)) as u64,
                scale: fraction_part(s).len() as usize,
            },
        )
    } else {
        None
    }
}

/// `d` in units of `10^-places`, truncated towards zero.
pub open spec fn fixed_value(d: Decimal, places: nat) -> nat {
    if d.scale <= places {
        d.mantissa as nat * pow10((places - d.scale) as nat)
    } else {
        d.mantissa as nat / pow10((d.scale - places) as nat)
    }
}

proof fn lemma_digits_push(s: Seq<char>, j: int)
    requires
        0 <= j < s.len(),
    ensures
        digits_value(s.take(j + 1)) == digits_value(s.take(j)) * 10 + (s[j] as nat - '0' as nat) as nat,
{
    assert(s.take(j + 1).drop_last() =~= s.take(j));
}

proof fn lemma_digits_prefix(s: Seq<char>, j: int)
    requires
        0 <= j <= s.len(),
    ensures
        digits_value(s.take(j)) <= digits_value(s),
    decreases s.len(),
{
    if j < s.len() {
        lemma_digits_prefix(s.drop_last(), j);
        assert(s.drop_last().take(j) =~= s.take(j));
    } else {
        assert(s.take(j) =~= s);
    }
}

proof fn lemma_pow10_positive(n: nat)
    ensures
        pow10(n) >= 1,
    decreases n,
{
    if n > 0 {
        lemma_pow10_positive((n - 1) as nat);
    }
}

proof fn lemma_pow10_grows(a: nat, b: nat)
    requires
        a <= b,
    ensures
        pow10(a) <= pow10(b),
    decreases b,
{
    if a < b {
        lemma_pow10_grows(a, (b - 1) as nat);
        lemma_pow10_positive((b - 1) as nat);
    }
}

/// Reads `s` as an unsigned decimal number.
pub fn parse_decimal(s: &Vec<char>) -> (r: Option<Decimal>)
    ensures
        r == decimal_of(s@),
{
    let point = vec!['.'];
    assert(point@ =~= seq!['.']);
    let dot = find_in(s, &point);
    let whole_len: usize = match dot {
        Some(k) => k,
        None => s.len(),
    };
    let skip: usize = match dot {
        Some(_) => 1,
        None => 0,
    };
    let ghost digits = significant_digits(s@);
    let ghost whole = whole_part(s@);
    let ghost frac = fraction_part(s@);
    proof {
        if let Some(k) = find(s@, seq!['.']) {
            crate::text::lemma_find_bounds(s@, seq!['.']);
        }
    }
    let n: usize = s.len() - skip;
    assert(digits.len() == n);
    let mut acc: u64 = 0;
    let mut j: usize = 0;
    while j < n
        invariant
            n == digits.len(),
            whole_len == whole.len(),
            whole_len + skip <= s.len(),
            n + skip == s.len(),
            whole == whole_part(s@),
            frac == fraction_part(s@),
            digits == significant_digits(s@),
            digits == whole + frac,
            forall|t: int| 0 <= t < whole_len ==> s@[t] == #[trigger] digits[t],
            forall|t: int| whole_len <= t < n ==> s@[t + skip] == #[trigger] digits[t],
            j <= n,
            all_digits(digits.take(j as int)),
            acc == digits_value(digits.take(j as int)),
        decreases n - j,
    {
        let c = if j < whole_len {
            s[j]
        } else {
            s[j + skip]
        };
        assert(c == digits[j as int]);
        if !('0' <= c && c <= '9') {
            assert(!all_digits(whole) || !all_digits(frac)) by {
                if j < whole_len {
                    assert(whole[j as int] == c);
                } else {
                    assert(frac[j - whole_len] == c);
                }
            }
            assert(!is_decimal_text(s@));
            return None;
        }
        proof {
            lemma_digits_push(digits, j as int);
        }
        let next: u128 = acc as u128 * 10 + (c as u32 - '0' as u32) as u128;
        assert(next == digits_value(digits.take(j + 1)));
        if next > u64::MAX as u128 {
            proof {
                lemma_digits_prefix(digits, j + 1);
            }
            assert(digits_value(digits) > u64::MAX);
            return None;
        }
        acc = next as u64;
        j = j + 1;
        assert(all_digits(digits.take(j as int))) by {
            assert forall|t: int| 0 <= t < j implies is_digit(#[trigger] digits.take(j as int)[t]) by {
                if t < j - 1 {
                    assert(digits.take(j - 1)[t] == digits.take(j as int)[t]);
                }
            }
        }
    }
    assert(digits.take(n as int) =~= digits);
    if n == 0 {
        return None;
    }
    assert(all_digits(whole) && all_digits(frac)) by {
        assert forall|t: int| 0 <= t < whole.len() implies is_digit(#[trigger] whole[t]) by {
            assert(digits[t] == whole[t]);
        }
        assert forall|t: int| 0 <= t < frac.len() implies is_digit(#[trigger] frac[t]) by {
            assert(digits[whole.len() + t] == frac[t]);
        }
    }
    Some(Decimal { mantissa: acc, scale: n - whole_len })
}

impl Decimal {
    /// Whether this number is at most the whole number `n`.
    pub fn at_most(&self, n: u64) -> (r: bool)
        ensures
            r == (self.mantissa <= n * pow10(self.scale as nat)),
    {
        let mut bound: u128 = n as u128;
        let mut t: usize = 0;
        assert(pow10(0) == 1);
        while t < self.scale
            invariant
                t <= self.scale,
                bound == n * pow10(t as nat),
            decreases self.scale - t,
        {
            if bound > u64::MAX as u128 {
                proof {
                    lemma_pow10_grows(t as nat, self.scale as nat);
                    assert(n * pow10(t as nat) <= n * pow10(self.scale as nat)) by (nonlinear_arith)
                        requires
                            pow10(t as nat) <= pow10(self.scale as nat),
                    ;
                }
                return true;
            }
            assert(n * pow10((t + 1) as nat) == bound * 10) by (nonlinear_arith)
                requires
                    bound == n * pow10(t as nat),
                    pow10((t + 1) as nat) == 10 * pow10(t as nat),
            ;
            bound = bound * 10;
            t = t + 1;
        }
        self.mantissa as u128 <= bound
    }

    /// This number in units of `10^-places`, truncated towards zero; `None`
    /// when that does not fit in 64 bits.
    pub fn to_fixed(&self, places: usize) -> (r: Option<u64>)
        ensures
            fixed_value(*self, places as nat) <= u64::MAX ==> r == Some(
                fixed_value(*self, places as nat) as u64,
            ),
            fixed_value(*self, places as nat) > u64::MAX ==> r is None,
    {
        let m = self.mantissa;
        if self.scale <= places {
            let n: usize = places - self.scale;
            let mut acc: u64 = m;
            let mut t: usize = 0;
            assert(pow10(0) == 1);
            assert(acc == m as nat * pow10(0));
            while t < n
                invariant
                    t <= n,
                    n == places - self.scale,
                    m == self.mantissa,
                    acc == m as nat * pow10(t as nat),
                decreases n - t,
            {
                let next: u128 = acc as u128 * 10;
                assert(m as nat * pow10((t + 1) as nat) == next) by (nonlinear_arith)
                    requires
                        acc == m as nat * pow10(t as nat),
                        pow10((t + 1) as nat) == 10 * pow10(t as nat),
                        next == acc * 10,
                ;
                if next > u64::MAX as u128 {
                    proof {
                        lemma_pow10_grows((t + 1) as nat, n as nat);
                        vstd::arithmetic::mul::lemma_mul_inequality(
                            pow10((t + 1) as nat) as int,
                            pow10(n as nat) as int,
                            m as int,
                        );
                        assert(m as nat * pow10((t + 1) as nat) <= m as nat * pow10(n as nat)) by (nonlinear_arith)
                            requires
                                pow10((t + 1) as nat) <= pow10(n as nat),
                        ;
                    }
                    return None;
                }
                acc = next as u64;
                t = t + 1;
            }
            Some(acc)
        } else {
            let n: usize = self.scale - places;
            let mut acc: u64 = m;
            let mut t: usize = 0;
            assert(pow10(0) == 1);
            assert(acc == m as nat / pow10(0));
            while t < n
                invariant
                    t <= n,
                    n == self.scale - places,
                    m == self.mantissa,
                    acc == m as nat / pow10(t as nat),
                decreases n - t,
            {
                proof {
                    lemma_pow10_positive(t as nat);
                    vstd::arithmetic::div_mod::lemma_div_denominator(
                        m as int,
                        pow10(t as nat) as int,
                        10,
                    );
                    assert(pow10(t as nat) * 10 == pow10((t + 1) as nat));
                }
                acc = acc / 10;
                t = t + 1;
            }
            Some(acc)
        }
    }
}

} // verus!
