use vstd::prelude::*;

verus! {

/// Latency attempts made for one jitter estimate.
pub const JITTER_ATTEMPTS: usize = 10;

/// The samples of a series of latency attempts that succeeded, in order.
pub open spec fn successes(s: Seq<Option<u64>>) -> Seq<u64>
    decreases s.len(),
{
    if s.len() == 0 {
        Seq::empty()
    } else {
        match s.last() {
            Some(v) => successes(s.drop_last()).push(v),
            None => successes(s.drop_last()),
        }
    }
}

/// The sum of the signed differences between consecutive samples of `x`
/// (each sample minus the one before it).
pub open spec fn signed_total(x: Seq<u64>) -> int
    decreases x.len(),
{
    if x.len() < 2 {
        0
    } else {
        signed_total(x.drop_last()) + (x.last() - x[x.len() - 2])
    }
}

/// Jitter over a latency series, kept exact: the summed signed difference
/// between consecutive successful samples, in microseconds, and the number
/// of such pairs. The average jitter is `total_micros / pairs`.
#[derive(Clone, Copy, Debug, PartialEq, Eq)]
pub struct Jitter {
    pub total_micros: i128,
    pub pairs: usize,
}

/// `a / b` rounded towards zero, for `b > 0`.
pub open spec fn div_toward_zero(a: int, b: int) -> int {
    if a >= 0 {
        a / b
    } else {
        -((-a) / b)
    }
}

impl Jitter {
    /// The average jitter, the total divided by the number of pairs, in whole
    /// microseconds rounded towards zero; absent when there are no pairs.
    pub fn mean_micros(&self) -> (r: Option<i128>)
        ensures
            self.pairs == 0 ==> r is None,
            self.pairs > 0 ==> r == Some(div_toward_zero(self.total_micros as int, self.pairs as int) as i128),
    {
        if self.pairs == 0 {
            return None;
        }
        let d = self.pairs as u128;
        if self.total_micros >= 0 {
            let q = self.total_micros as u128 / d;
            assert(q <= self.total_micros) by {
                vstd::arithmetic::div_mod::lemma_div_is_ordered_by_denominator(self.total_micros as int, 1, d as int);
            }
            Some(q as i128)
        } else {
            let m: u128 = (0 - (self.total_micros + 1)) as u128 + 1;
            let q = m / d;
            assert(q <= m) by {
                vstd::arithmetic::div_mod::lemma_div_is_ordered_by_denominator(m as int, 1, d as int);
            }
            if q == 0 {
                Some(0)
            } else {
                Some(0 - ((q - 1) as i128) - 1)
            }
        }
    }
}

/// The jitter of a series of latency attempts (each in microseconds, or
/// absent where the attempt failed): absent unless at least two attempts
/// succeeded.
pub open spec fn jitter_of(s: Seq<Option<u64>>) -> Option<Jitter> {
    let x = successes(s);
    if x.len() < 2 {
        None
    } else {
        Some(Jitter { total_micros: signed_total(x) as i128, pairs: (x.len() - 1) as usize })
    }
}

/// Signed differences of consecutive samples add up to the last sample
/// minus the first.
pub proof fn lemma_signed_jitter_telescopes(x: Seq<u64>)
    requires
        x.len() >= 1,
    ensures
        signed_total(x) == x.last() - x[0],
    decreases x.len(),
{
    if x.len() >= 2 {
        lemma_signed_jitter_telescopes(x.drop_last());
    }
}

proof fn lemma_successes_step(s: Seq<Option<u64>>, i: int)
    requires
        0 <= i < s.len(),
    ensures
        successes(s.take(i + 1)) == (match s[i] {
            Some(v) => successes(s.take(i)).push(v),
            None => successes(s.take(i)),
        }),
{
    assert(s.take(i + 1).drop_last() =~= s.take(i));
}

/// Jitter over `samples`, the outcomes of consecutive latency attempts in
/// microseconds; failed attempts are skipped.
pub fn measure_jitter(samples: &Vec<Option<u64>>) -> (r: Option<Jitter>)
    ensures
        r == jitter_of(samples@),
        r is None <==> successes(samples@).len() < 2,
{
    let mut prev: Option<u64> = None;
    let mut total: i128 = 0;
    let mut count: usize = 0;
    let mut i: usize = 0;
    assert(samples@.take(0) =~= Seq::<Option<u64>>::empty());
    while i < samples.len()
        invariant
            i <= samples.len(),
            count == successes(samples@.take(i as int)).len(),
            count <= i,
            count == 0 <==> prev is None,
            count > 0 ==> prev == Some(successes(samples@.take(i as int)).last()),
            total == signed_total(successes(samples@.take(i as int))),
        decreases samples.len() - i,
    {
        let ghost before = successes(samples@.take(i as int));
        proof {
            lemma_successes_step(samples@, i as int);
        }
        match samples[i] {
            Some(v) => {
                match prev {
                    Some(p) => {
                        proof {
                            lemma_signed_jitter_telescopes(before);
                            lemma_signed_jitter_telescopes(before.push(v));
                        }
                        assert(before.push(v).drop_last() =~= before);
                        total = total + (v as i128 - p as i128);
                    },
                    None => {},
                }
                prev = Some(v);
                count = count + 1;
            },
            None => {},
        }
        i = i + 1;
    }
    assert(samples@.take(i as int) =~= samples@);
    if count < 2 {
        None
    } else {
        Some(Jitter { total_micros: total, pairs: count - 1 })
    }
}

} // verus!
