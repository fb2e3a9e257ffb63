//! Batch statistics over a fully available slice of samples.
use vstd::prelude::*;
use crate::sample::Sample;

verus! {

/// An exact non-negative rational number `numerator / denominator`.
#[derive(Clone, Copy, Debug, PartialEq, Eq)]
pub struct Ratio {
    pub numerator: u128,
    pub denominator: u128,
}

/// Sum of the values of the samples in `s`.
pub open spec fn total<T: Sample>(s: Seq<T>) -> nat
    decreases s.len(),
{
    if s.len() == 0 {
        0
    } else {
        total(s.drop_last()) + s.last().value()
    }
}

/// Sum of the squared values of the samples in `s`.
pub open spec fn total_sq<T: Sample>(s: Seq<T>) -> nat
    decreases s.len(),
{
    if s.len() == 0 {
        0
    } else {
        total_sq(s.drop_last()) + s.last().value() * s.last().value()
    }
}

/// Sum over the samples `x` of `s` of `(n * x - c)^2`.
pub open spec fn scaled_sq_dev<T: Sample>(s: Seq<T>, n: int, c: int) -> int
    decreases s.len(),
{
    if s.len() == 0 {
        0
    } else {
        let d = n * s.last().value() - c;
        scaled_sq_dev(s.drop_last(), n, c) + d * d
    }
}

/// The squared deviations of the samples from their mean `m = total / n`,
/// summed and scaled by `n^2`: the sum of `(n * x - total)^2 = n^2 * (x - m)^2`.
pub open spec fn sum_sq_dev<T: Sample>(s: Seq<T>) -> int {
    scaled_sq_dev(s, s.len() as int, total(s) as int)
}

proof fn lemma_take_step<T>(s: Seq<T>, i: int)
    requires
        0 <= i < s.len(),
    ensures
        s.take(i + 1).drop_last() == s.take(i),
        s.take(i + 1).last() == s[i],
{
    assert(s.take(i + 1).drop_last() =~= s.take(i));
}

/// Partial sums of the values grow along the sequence.
pub proof fn lemma_total_prefix<T: Sample>(s: Seq<T>, i: int)
    requires
        0 <= i <= s.len(),
    ensures
        total(s.take(i)) <= total(s),
        total_sq(s.take(i)) <= total_sq(s),
        i < s.len() ==> total(s.take(i + 1)) == total(s.take(i)) + s[i].value(),
        i < s.len() ==> total_sq(s.take(i + 1)) == total_sq(s.take(i)) + s[i].value()
            * s[i].value(),
    decreases s.len(),
{
    if i < s.len() {
        lemma_take_step(s, i);
        assert(s.drop_last().take(i) =~= s.take(i));
        lemma_total_prefix(s.drop_last(), i);
    } else {
        assert(s.take(i) =~= s);
    }
}

/// Partial sums of squared scaled deviations grow along the sequence.
pub proof fn lemma_scaled_sq_dev_prefix<T: Sample>(s: Seq<T>, n: int, c: int, i: int)
    requires
        0 <= i <= s.len(),
    ensures
        0 <= scaled_sq_dev(s.take(i), n, c) <= scaled_sq_dev(s, n, c),
        i < s.len() ==> scaled_sq_dev(s.take(i + 1), n, c) == scaled_sq_dev(s.take(i), n, c)
            + (n * s[i].value() - c) * (n * s[i].value() - c),
    decreases s.len(),
{
    if s.len() > 0 {
        let d = n * s.last().value() - c;
        assert(d * d >= 0) by (nonlinear_arith);
    }
    if i < s.len() {
        lemma_take_step(s, i);
        assert(s.drop_last().take(i) =~= s.take(i));
        lemma_scaled_sq_dev_prefix(s.drop_last(), n, c, i);
    } else {
        assert(s.take(i) =~= s);
        if s.len() > 0 {
            lemma_scaled_sq_dev_prefix(s.drop_last(), n, c, s.len() - 1);
            assert(s.drop_last().take(s.len() - 1) =~= s.drop_last());
        }
    }
}

/// The sum of squares never exceeds the square of the sum.
pub proof fn lemma_total_sq_bound<T: Sample>(s: Seq<T>)
    ensures
        total_sq(s) <= total(s) * total(s),
    decreases s.len(),
{
    if s.len() > 0 {
        lemma_total_sq_bound(s.drop_last());
        let a = total(s.drop_last());
        let x = s.last().value();
        let q = total_sq(s.drop_last());
        assert(q + x * x <= (a + x) * (a + x)) by (nonlinear_arith)
            requires
                q <= a * a,
                a >= 0,
                x >= 0,
        ;
    }
}

/// Sums the values of `samples`.
pub fn sample_sum<T: Sample>(samples: &[T]) -> (r: usize)
    requires
        total(samples@) <= usize::MAX,
    ensures
        r == total(samples@),
{
    let mut sum: usize = 0;
    let mut i: usize = 0;
    while i < samples.len()
        invariant
            0 <= i <= samples@.len(),
            sum == total(samples@.take(i as int)),
            total(samples@) <= usize::MAX,
        decreases samples@.len() - i,
    {
        proof {
            lemma_total_prefix(samples@, i as int + 1);
            lemma_total_prefix(samples@, i as int);
        }
        sum = sum + samples[i].into_usize();
        i = i + 1;
    }
    proof {
        assert(samples@.take(i as int) =~= samples@);
    }
    sum
}

/// Sums the values of `samples`, or `None` exactly when the sum does not fit
/// in a `usize`.
pub fn checked_sample_sum<T: Sample>(samples: &[T]) -> (r: Option<usize>)
    ensures
        r is Some <==> total(samples@) <= usize::MAX,
        r is Some ==> r->0 == total(samples@),
{
    let mut sum: usize = 0;
    let mut i: usize = 0;
    while i < samples.len()
        invariant
            0 <= i <= samples@.len(),
            sum == total(samples@.take(i as int)),
        decreases samples@.len() - i,
    {
        proof {
            lemma_total_prefix(samples@, i as int + 1);
            lemma_total_prefix(samples@, i as int);
        }
        match sum.checked_add(samples[i].into_usize()) {
            None => {
                return None;
            },
            Some(next) => {
                sum = next;
            },
        }
        i = i + 1;
    }
    proof {
        assert(samples@.take(i as int) =~= samples@);
    }
    Some(sum)
}

/// The arithmetic mean of `samples`, exactly: the sum of their values over
/// their count.
pub fn arithmetic_mean<T: Sample>(samples: &[T]) -> (r: Ratio)
    requires
        samples@.len() > 0,
        total(samples@) <= usize::MAX,
    ensures
        r.numerator == total(samples@),
        r.denominator == samples@.len(),
{
    let sum = sample_sum(samples);
    Ratio { numerator: sum as u128, denominator: samples.len() as u128 }
}

/// The sample variance of `samples`, exactly: the sum of the squared
/// deviations from the mean, divided by `n - 1`, with numerator and
/// denominator both scaled by `n^2`.
///
/// The mean is found first and the deviations are summed in a second pass.
/// Returns `None` exactly when the scaled numerator or denominator does not fit
/// in a `u128`.
pub fn sample_variance<T: Sample>(samples: &[T]) -> (r: Option<Ratio>)
    requires
        samples@.len() >= 2,
        total(samples@) <= usize::MAX,
    ensures
        r is Some <==> sum_sq_dev(samples@) <= u128::MAX && samples@.len() * samples@.len() * (
        samples@.len() - 1) <= u128::MAX,
        r is Some ==> r->0.numerator == sum_sq_dev(samples@) && r->0.denominator
            == samples@.len() * samples@.len() * (samples@.len() - 1),
{
    let mean = arithmetic_mean(samples);
    let n: usize = samples.len();
    let wide_n: u128 = n as u128;
    let sum: u128 = mean.numerator;
    let ghost s = samples@;
    let ghost c = total(s) as int;
    let mut acc: u128 = 0;
    let mut i: usize = 0;
    while i < n
        invariant
            n == s.len(),
            s == samples@,
            wide_n == n,
            sum == c,
            c == total(s),
            0 <= i <= n,
            acc == scaled_sq_dev(s.take(i as int), n as int, c),
        decreases n - i,
    {
        proof {
            lemma_scaled_sq_dev_prefix(s, n as int, c, i as int + 1);
            lemma_scaled_sq_dev_prefix(s, n as int, c, i as int);
        }
        let x: u128 = samples[i].into_usize() as u128;
        assert(wide_n * x <= 0xffff_ffff_ffff_ffffu128 * 0xffff_ffff_ffff_ffffu128)
            by (nonlinear_arith)
            requires
                wide_n <= 0xffff_ffff_ffff_ffffu128,
                x <= 0xffff_ffff_ffff_ffffu128,
        ;
        let scaled: u128 = wide_n * x;
        let d: u128 = if scaled >= sum {
            scaled - sum
        } else {
            sum - scaled
        };
        let ghost e = n * s[i as int].value() - c;
        assert(d * d == e * e) by (nonlinear_arith)
            requires
                d == e || d == -e,
        ;
        match d.checked_mul(d) {
            None => {
                return None;
            },
            Some(sq) => match acc.checked_add(sq) {
                None => {
                    return None;
                },
                Some(next) => {
                    acc = next;
                },
            },
        }
        i = i + 1;
    }
    proof {
        assert(s.take(n as int) =~= s);
    }
    match wide_n.checked_mul(wide_n) {
        None => {
            assert(n * n * (n - 1) >= n * n) by (nonlinear_arith)
                requires
                    n >= 2,
            ;
            None
        },
        Some(nn) => match nn.checked_mul(wide_n - 1) {
            None => None,
            Some(den) => Some(Ratio { numerator: acc, denominator: den }),
        },
    }
}

} // verus!
