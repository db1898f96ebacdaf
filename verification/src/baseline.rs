//! The baseline tick: the rolling average of the time that the last ticks took to evaluate.
//! It is the unit in which the bots' compute budgets are counted.

use vstd::prelude::*;
use simple_moving_average::{SumTreeSMA, SMA};

verus! {

/// Ticks that the average is taken over.
pub const WINDOW: usize = 50;

/// The baseline before any tick was measured: one millisecond, in nanoseconds.
pub const INITIAL_TICK_NANOS: u64 = 1_000_000;

/// The longest time that is recorded for one tick, in nanoseconds. Longer ticks count as
/// this long, so that the sum over the window fits the machine word.
pub const SAMPLE_CAP: u64 = 0x03ff_ffff_ffff_ffff;

/// The moving average of `simple_moving_average`, which is carried through as it is.
#[verifier::external_type_specification]
#[verifier::external_body]
#[verifier::reject_recursive_types(Sample)]
#[verifier::reject_recursive_types(Divisor)]
pub struct ExSumTreeSMA<Sample, Divisor, const WINDOW_SIZE: usize>(
    SumTreeSMA<Sample, Divisor, WINDOW_SIZE>,
);

/// The samples in the window of a moving average, the oldest first.
pub uninterp spec fn window_of(sma: SumTreeSMA<u64, u64, 50>) -> Seq<u64>;

/// The sum of the samples.
pub open spec fn sum_of(samples: Seq<u64>) -> int
    decreases samples.len(),
{
    if samples.len() == 0 {
        0
    } else {
        sum_of(samples.drop_last()) + samples.last()
    }
}

/// The window after a sample has come in: once it is full, the oldest sample leaves.
pub open spec fn slid(samples: Seq<u64>, sample: u64) -> Seq<u64> {
    if samples.len() < WINDOW {
        samples.push(sample)
    } else {
        samples.drop_first().push(sample)
    }
}

/// The average of the samples, rounded down; zero for no samples.
pub open spec fn mean(samples: Seq<u64>) -> int {
    if samples.len() == 0 {
        0
    } else {
        sum_of(samples) / (samples.len() as int)
    }
}

/// The baseline tick for a window: its average, and the initial baseline while it is empty.
pub open spec fn baseline_of(samples: Seq<u64>) -> int {
    if samples.len() == 0 {
        INITIAL_TICK_NANOS as int
    } else {
        mean(samples)
    }
}

/// Calls `SumTreeSMA::new`, which makes a moving average with an empty window.
#[verifier::external_body]
fn window_new() -> (sma: SumTreeSMA<u64, u64, 50>)
    ensures
        window_of(sma) == Seq::<u64>::empty(),
{
    SumTreeSMA::new()
}

/// Calls `SMA::add_sample`, which puts the sample into the window, in place of the oldest
/// one if the window is full. The crate adds the samples of the window up in `u64`, so
/// the sum of the new window has to fit.
#[verifier::external_body]
fn window_add(sma: &mut SumTreeSMA<u64, u64, 50>, sample: u64)
    requires
        sum_of(slid(window_of(*old(sma)), sample)) <= u64::MAX,
    ensures
        window_of(*final(sma)) == slid(window_of(*old(sma)), sample),
{
    sma.add_sample(sample);
}

/// Calls `SMA::get_average`, which divides the sum of the samples in the window by their
/// number, and gives zero for an empty window.
#[verifier::external_body]
fn window_average(sma: &SumTreeSMA<u64, u64, 50>) -> (r: u64)
    ensures
        r == mean(window_of(*sma)),
{
    sma.get_average()
}

/// Calls `SMA::get_num_samples`, which gives the number of samples in the window.
#[verifier::external_body]
fn window_len(sma: &SumTreeSMA<u64, u64, 50>) -> (r: usize)
    ensures
        r == window_of(*sma).len(),
{
    sma.get_num_samples()
}

/// The times of the last ticks, in nanoseconds, and their average.
pub struct Baseline {
    sma: SumTreeSMA<u64, u64, 50>,
}

impl View for Baseline {
    type V = Seq<u64>;

    /// The recorded times in the window, the oldest first.
    closed spec fn view(&self) -> Seq<u64> {
        window_of(self.sma)
    }
}

impl Baseline {
    /// The window holds no more samples than it has room for, and none above the cap.
    pub open spec fn wf(&self) -> bool {
        &&& self@.len() <= WINDOW
        &&& forall|i: int| 0 <= i < self@.len() ==> #[trigger] self@[i] <= SAMPLE_CAP
    }

    /// A baseline before any tick was measured.
    pub fn new() -> (r: Baseline)
        ensures
            r@ == Seq::<u64>::empty(),
            r.wf(),
    {
        Baseline { sma: window_new() }
    }

    /// Records the time that a tick took. Times above the cap are recorded as the cap.
    pub fn add_sample(&mut self, nanos: u64)
        requires
            old(self).wf(),
        ensures
            final(self).wf(),
            final(self)@ == slid(old(self)@, if nanos <= SAMPLE_CAP {
                nanos
            } else {
                SAMPLE_CAP
            }),
    {
        let sample: u64 = if nanos <= SAMPLE_CAP {
            nanos
        } else {
            SAMPLE_CAP
        };
        proof {
            let next = slid(self@, sample);
            assert forall|i: int| 0 <= i < next.len() implies #[trigger] next[i] <= SAMPLE_CAP by {
                if i < next.len() - 1 && self@.len() >= WINDOW {
                    assert(next[i] == self@[i + 1]);
                }
            }
            lemma_sum_bounds(next, 0, SAMPLE_CAP);
        }
        window_add(&mut self.sma, sample);
    }

    /// The baseline tick in nanoseconds: the average of the recorded times, rounded down,
    /// and the initial baseline while none is recorded.
    pub fn get_average(&self) -> (nanos: u64)
        requires
            self.wf(),
        ensures
            nanos == baseline_of(self@),
    {
        if window_len(&self.sma) == 0 {
            INITIAL_TICK_NANOS
        } else {
            window_average(&self.sma)
        }
    }
}

/// The sum of samples that all lie between two bounds lies between the bounds taken once
/// for each sample.
pub proof fn lemma_sum_bounds(samples: Seq<u64>, least: u64, most: u64)
    requires
        forall|i: int| 0 <= i < samples.len() ==> least <= #[trigger] samples[i] <= most,
    ensures
        samples.len() * least <= sum_of(samples) <= samples.len() * most,
    decreases samples.len(),
{
    if samples.len() > 0 {
        lemma_sum_bounds(samples.drop_last(), least, most);
        assert(samples.len() * least == (samples.len() - 1) * least + least) by (nonlinear_arith);
        assert(samples.len() * most == (samples.len() - 1) * most + most) by (nonlinear_arith);
    } else {
        assert(samples.len() * least == 0 && samples.len() * most == 0) by (nonlinear_arith)
            requires
                samples.len() == 0,
        ;
    }
}

/// The baseline lies between the shortest and the longest tick in the window.
pub proof fn lemma_baseline_between(samples: Seq<u64>, least: u64, most: u64)
    requires
        samples.len() > 0,
        forall|i: int| 0 <= i < samples.len() ==> least <= #[trigger] samples[i] <= most,
    ensures
        least <= baseline_of(samples) <= most,
{
    lemma_sum_bounds(samples, least, most);
    let n = samples.len() as int;
    let total = sum_of(samples);
    assert(least <= total / n && total / n <= most) by (nonlinear_arith)
        requires
            n > 0,
            n * least <= total,
            total <= n * most,
    ;
}

} // verus!
