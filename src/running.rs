//! Running statistics: an accumulator that folds samples in as they arrive and
//! can resume after more are appended, without revisiting earlier samples.
use vstd::prelude::*;
use crate::sample::Sample;
use crate::stats::{Ratio, total, total_sq, lemma_total_prefix, lemma_total_sq_bound};

verus! {

/// The abstract state of a running accumulator.
pub ghost struct RunningState<T> {
    /// Every sample appended so far, in order.
    pub samples: Seq<T>,
    /// How many of them have been folded into the aggregates.
    pub processed: nat,
    /// Sum of the values of the processed samples.
    pub sum: nat,
    /// Sum of the squared values of the processed samples.
    pub sum_sq: nat,
}

impl<T: Sample> RunningState<T> {
    /// The aggregates describe exactly the first `processed` samples.
    pub open spec fn wf(self) -> bool {
        &&& self.processed <= self.samples.len()
        &&& self.sum == total(self.samples.take(self.processed as int))
        &&& self.sum_sq == total_sq(self.samples.take(self.processed as int))
    }

    /// No sample is waiting to be folded in.
    pub open spec fn is_caught_up(self) -> bool {
        self.processed == self.samples.len()
    }
}

/// A state holding `samples`, none of them processed yet.
pub open spec fn fresh<T>(samples: Seq<T>) -> RunningState<T> {
    RunningState { samples, processed: 0, sum: 0, sum_sq: 0 }
}

/// `v` with `more` appended to its samples; the aggregates are untouched.
pub open spec fn appended<T>(v: RunningState<T>, more: Seq<T>) -> RunningState<T> {
    RunningState { samples: v.samples + more, ..v }
}

/// Folds the first pending sample of `v` into its aggregates.
pub open spec fn step<T: Sample>(v: RunningState<T>) -> RunningState<T> {
    let x = v.samples[v.processed as int].value();
    RunningState { processed: v.processed + 1, sum: v.sum + x, sum_sq: v.sum_sq + x * x, ..v }
}

/// A processing pass: folds every pending sample of `v`, one at a time and in
/// order.
pub open spec fn processed<T: Sample>(v: RunningState<T>) -> RunningState<T>
    decreases v.samples.len() - v.processed,
{
    if v.processed < v.samples.len() {
        processed(step(v))
    } else {
        v
    }
}

/// The state after a processing pass depends on the samples alone: all of them
/// are processed and the aggregates are their sum and sum of squares.
pub proof fn lemma_processed_closed_form<T: Sample>(v: RunningState<T>)
    requires
        v.wf(),
    ensures
        processed(v) == (RunningState {
            samples: v.samples,
            processed: v.samples.len(),
            sum: total(v.samples),
            sum_sq: total_sq(v.samples),
        }),
    decreases v.samples.len() - v.processed,
{
    if v.processed < v.samples.len() {
        lemma_total_prefix(v.samples, v.processed as int);
        lemma_processed_closed_form(step(v));
    } else {
        assert(v.samples.take(v.processed as int) =~= v.samples);
    }
}

/// After a processing pass the processed count equals the number of samples
/// appended so far.
pub proof fn lemma_processed_count_is_total<T: Sample>(v: RunningState<T>)
    requires
        v.wf(),
    ensures
        processed(v).processed == v.samples.len(),
        processed(v).wf(),
        processed(v).is_caught_up(),
{
    lemma_processed_closed_form(v);
    assert(v.samples.take(v.samples.len() as int) =~= v.samples);
}

/// A processing pass never lowers the running sums.
pub proof fn lemma_pass_never_lowers_sums<T: Sample>(v: RunningState<T>)
    requires
        v.wf(),
    ensures
        processed(v).sum >= v.sum,
        processed(v).sum_sq >= v.sum_sq,
{
    lemma_processed_closed_form(v);
    lemma_total_prefix(v.samples, v.processed as int);
}

/// Appending an empty batch to a caught-up accumulator and processing again
/// changes nothing: the processed count, the sums, and so the mean and the
/// deviation, stay as they were.
pub proof fn lemma_empty_append_is_idempotent<T: Sample>(v: RunningState<T>)
    requires
        v.wf(),
        v.is_caught_up(),
    ensures
        processed(appended(v, Seq::empty())) == v,
{
    assert(v.samples + Seq::<T>::empty() =~= v.samples);
    assert(appended(v, Seq::empty()) == v);
}

/// Processing a sequence given in two batches, with a pass after each, ends in
/// the same state as processing the whole sequence at once. The aggregates are
/// exact, so there is no rounding difference between the two.
pub proof fn lemma_split_matches_whole<T: Sample>(b1: Seq<T>, b2: Seq<T>)
    ensures
        processed(appended(processed(fresh(b1)), b2)) == processed(fresh(b1 + b2)),
{
    assert(b1.take(0) =~= Seq::<T>::empty());
    assert((b1 + b2).take(0) =~= Seq::<T>::empty());
    lemma_processed_closed_form(fresh(b1));
    let mid = processed(fresh(b1));
    let next = appended(mid, b2);
    assert(next.samples.take(mid.processed as int) =~= b1);
    assert(b1.take(b1.len() as int) =~= b1);
    lemma_processed_closed_form(next);
    lemma_processed_closed_form(fresh(b1 + b2));
}

/// The numerator of the running variance estimate over the denominator `n^2`:
/// the estimate is `(sum_sq - sum / n) / n - 1`, which is
/// `(n * sum_sq - sum - n^2) / n^2` for `n` processed samples.
///
/// This grouping is the one the accumulator has always used. It is not the
/// textbook single-pass formula `(sum_sq - sum^2 / n) / (n - 1)`, and it can be
/// negative.
pub open spec fn single_pass_numerator<T>(v: RunningState<T>) -> int {
    v.processed * v.sum_sq - v.sum - v.processed * v.processed
}

/// An exact rational number `numerator / denominator` that may be negative.
#[derive(Clone, Copy, Debug, PartialEq, Eq)]
pub struct Fraction {
    pub numerator: i128,
    pub denominator: u128,
}

/// A running-statistics accumulator over samples of type `T`.
///
/// Samples are appended singly or in batches; a processing pass folds the
/// pending ones into a running sum and a running sum of squares, so the mean
/// and the deviation can be read at any time without rescanning the history.
#[derive(Debug)]
pub struct RS<T> {
    samples: Vec<T>,
    tsp: usize,
    sum_of_tsp: usize,
    sum_of_squares: u128,
}

impl<T: Sample> View for RS<T> {
    type V = RunningState<T>;

    closed spec fn view(&self) -> RunningState<T> {
        RunningState {
            samples: self.samples@,
            processed: self.tsp as nat,
            sum: self.sum_of_tsp as nat,
            sum_sq: self.sum_of_squares as nat,
        }
    }
}

impl<T: Sample> RS<T> {
    /// Creates an accumulator holding `samples`, and processes them at once if
    /// `run_now` is set.
    pub fn new(samples: Vec<T>, run_now: bool) -> (r: RS<T>)
        requires
            samples@.len() > 0,
            run_now ==> total(samples@) <= usize::MAX,
        ensures
            r@.wf(),
            r@ == (if run_now {
                processed(fresh(samples@))
            } else {
                fresh(samples@)
            }),
            r@.samples == samples@,
            run_now ==> r@.processed == samples@.len(),
    {
        let mut rs = RS { samples, tsp: 0, sum_of_tsp: 0, sum_of_squares: 0 };
        proof {
            assert(rs@.samples.take(0) =~= Seq::<T>::empty());
        }
        if run_now {
            rs.run();
            proof {
                lemma_processed_count_is_total(fresh(samples@));
            }
        }
        rs
    }

    /// Appends `samples` in order, and runs a processing pass if `run_now` is
    /// set.
    pub fn add_samples(&mut self, samples: Vec<T>, run_now: bool)
        requires
            old(self)@.wf(),
            run_now ==> total(old(self)@.samples + samples@) <= usize::MAX,
        ensures
            final(self)@.wf(),
            final(self)@ == (if run_now {
                processed(appended(old(self)@, samples@))
            } else {
                appended(old(self)@, samples@)
            }),
            final(self)@.samples == old(self)@.samples + samples@,
            run_now ==> final(self)@.processed == old(self)@.samples.len() + samples@.len(),
            final(self)@.sum >= old(self)@.sum,
            final(self)@.sum_sq >= old(self)@.sum_sq,
    {
        let mut samples = samples;
        let ghost more = samples@;
        proof {
            let v = appended(old(self)@, more);
            assert(v.samples.take(v.processed as int) =~= old(self)@.samples.take(
                v.processed as int,
            ));
        }
        self.samples.append(&mut samples);
        if run_now {
            self.run();
            proof {
                lemma_processed_count_is_total(appended(old(self)@, more));
                lemma_pass_never_lowers_sums(appended(old(self)@, more));
            }
        }
    }

    /// Appends one sample, and runs a processing pass if `run_now` is set.
    pub fn add_sample(&mut self, sample: T, run_now: bool)
        requires
            old(self)@.wf(),
            run_now ==> total(old(self)@.samples.push(sample)) <= usize::MAX,
        ensures
            final(self)@.wf(),
            final(self)@ == (if run_now {
                processed(appended(old(self)@, seq![sample]))
            } else {
                appended(old(self)@, seq![sample])
            }),
            final(self)@.samples == old(self)@.samples.push(sample),
            run_now ==> final(self)@.processed == old(self)@.samples.len() + 1,
            final(self)@.sum >= old(self)@.sum,
            final(self)@.sum_sq >= old(self)@.sum_sq,
    {
        proof {
            let v = appended(old(self)@, seq![sample]);
            assert(v.samples =~= old(self)@.samples.push(sample));
            assert(v.samples.take(v.processed as int) =~= old(self)@.samples.take(
                v.processed as int,
            ));
        }
        self.samples.push(sample);
        if run_now {
            self.run();
            proof {
                lemma_processed_count_is_total(appended(old(self)@, seq![sample]));
                lemma_pass_never_lowers_sums(appended(old(self)@, seq![sample]));
            }
        }
    }

    /// Folds every pending sample into the running sums, one at a time.
    fn run(&mut self)
        requires
            old(self)@.wf(),
            total(old(self)@.samples) <= usize::MAX,
        ensures
            final(self)@ == processed(old(self)@),
            final(self)@.wf(),
            final(self)@.samples == old(self)@.samples,
            final(self)@.is_caught_up(),
    {
        let n: usize = self.samples.len();
        proof {
            lemma_total_sq_bound(self@.samples);
            assert(0xffff_ffff_ffff_ffffu128 * 0xffff_ffff_ffff_ffffu128 <= u128::MAX);
            assert(total(self@.samples) * total(self@.samples) <= 0xffff_ffff_ffff_ffffu128
                * 0xffff_ffff_ffff_ffffu128) by (nonlinear_arith)
                requires
                    total(self@.samples) <= 0xffff_ffff_ffff_ffffu128,
            ;
        }
        while self.tsp < n
            invariant
                self@.wf(),
                n == self@.samples.len(),
                self@.samples == old(self)@.samples,
                processed(self@) == processed(old(self)@),
                total(self@.samples) <= usize::MAX,
                total_sq(self@.samples) <= u128::MAX,
            decreases n - self.tsp,
        {
            proof {
                lemma_total_prefix(self@.samples, self.tsp as int);
                lemma_total_prefix(self@.samples, self.tsp as int + 1);
            }
            let x: usize = self.samples[self.tsp].into_usize();
            let wide: u128 = x as u128;
            self.sum_of_tsp = self.sum_of_tsp + x;
            self.sum_of_squares = self.sum_of_squares + wide * wide;
            self.tsp = self.tsp + 1;
        }
    }

    /// Every sample appended so far, in order.
    pub fn samples(&self) -> (r: &[T])
        ensures
            r@ == self@.samples,
    {
        self.samples.as_slice()
    }

    /// How many samples have been folded into the running sums.
    pub fn processed_count(&self) -> (r: usize)
        ensures
            r == self@.processed,
    {
        self.tsp
    }

    /// How many samples have been appended in all.
    pub fn sample_count(&self) -> (r: usize)
        ensures
            r == self@.samples.len(),
    {
        self.samples.len()
    }

    /// Sum of the values of the processed samples.
    pub fn running_sum(&self) -> (r: usize)
        ensures
            r == self@.sum,
    {
        self.sum_of_tsp
    }

    /// Sum of the squared values of the processed samples.
    pub fn sum_of_squares(&self) -> (r: u128)
        ensures
            r == self@.sum_sq,
    {
        self.sum_of_squares
    }

    /// The running variance estimate of the processed samples, exactly, as
    /// `single_pass_numerator / n^2`; `None` before any sample has been
    /// processed or when the numerator does not fit in an `i128`.
    pub fn current_variance(&self) -> (r: Option<Fraction>)
        ensures
            r is Some <==> self@.processed > 0 && i128::MIN <= single_pass_numerator(self@)
                <= i128::MAX,
            r is Some ==> r->0.numerator == single_pass_numerator(self@) && r->0.denominator
                == self@.processed * self@.processed,
    {
        if self.tsp == 0 {
            return None;
        }
        let n: u128 = self.tsp as u128;
        let sum: u128 = self.sum_of_tsp as u128;
        let sq: u128 = self.sum_of_squares;
        let ghost num = single_pass_numerator(self@);
        assert(n * n <= 0xffff_ffff_ffff_ffffu128 * 0xffff_ffff_ffff_ffffu128) by (nonlinear_arith)
            requires
                n <= 0xffff_ffff_ffff_ffffu128,
        ;
        let den: u128 = n * n;
        let numerator: i128 = if sq >= n {
            let t: u128 = sq - n;
            assert(num == n * t - sum) by (nonlinear_arith)
                requires
                    num == n * sq - sum - n * n,
                    t == sq - n,
            ;
            match n.checked_mul(t) {
                None => {
                    return None;
                },
                Some(p) => {
                    if p >= sum {
                        if p - sum > 0x7fff_ffff_ffff_ffff_ffff_ffff_ffff_ffffu128 {
                            return None;
                        }
                        (p - sum) as i128
                    } else {
                        -((sum - p) as i128)
                    }
                },
            }
        } else {
            let t: u128 = n - sq;
            assert(num == -(n * t + sum)) by (nonlinear_arith)
                requires
                    num == n * sq - sum - n * n,
                    t == n - sq,
            ;
            assert(n * t + sum <= 0xffff_ffff_ffff_ffffu128 * 0xffff_ffff_ffff_ffffu128
                + 0xffff_ffff_ffff_ffffu128) by (nonlinear_arith)
                requires
                    n <= 0xffff_ffff_ffff_ffffu128,
                    t <= n,
                    sum <= 0xffff_ffff_ffff_ffffu128,
            ;
            let m: u128 = n * t + sum;
            assert(m >= 1) by (nonlinear_arith)
                requires
                    m == n * t + sum,
                    n >= 1,
                    t >= 1,
            ;
            if m - 1 > 0x7fff_ffff_ffff_ffff_ffff_ffff_ffff_ffffu128 {
                return None;
            }
            -((m - 1) as i128) - 1
        };
        Some(Fraction { numerator, denominator: den })
    }

    /// The mean of the processed samples, exactly; `None` before any sample
    /// has been processed.
    pub fn current_mean(&self) -> (r: Option<Ratio>)
        ensures
            r is None <==> self@.processed == 0,
            r is Some ==> r->0.numerator == self@.sum && r->0.denominator == self@.processed,
    {
        if self.tsp == 0 {
            None
        } else {
            Some(Ratio { numerator: self.sum_of_tsp as u128, denominator: self.tsp as u128 })
        }
    }
}

} // verus!
