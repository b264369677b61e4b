//! Sampling engine: runs timed batches of a benchmarked function and
//! reduces the recorded samples into aggregate statistics.

use vstd::prelude::*;

use crate::stats::{stats_of, sum_picos, sum_sizes, sat_u64, sat_u128, wf_samples, Sample, Stats};
use crate::time::{duration_as_nanos, FineDuration};

verus! {

/// Relies on std::sync::atomic::fence: a sequentially consistent memory
/// barrier; it computes nothing and changes no value.
#[verifier::external_body]
fn fence_seq_cst() {
    std::sync::atomic::fence(std::sync::atomic::Ordering::SeqCst);
}

/// Relies on Instant::now: a reading of the monotonic clock. Nothing is
/// promised of the reading; every later computation holds for any value.
#[verifier::external_body]
fn instant_now() -> std::time::Instant {
    std::time::Instant::now()
}

/// Elapsed time from the reading `b` to the reading `a`; a fixed function
/// of the two readings alone.
pub uninterp spec fn dur_since_of(a: std::time::Instant, b: std::time::Instant) -> core::time::Duration;

/// Relies on Instant::duration_since: the elapsed time from `earlier` to
/// `instant`, or zero if `earlier` is the later reading; it never panics,
/// and its result is a function of the two readings alone.
#[verifier::external_body]
fn instant_duration_since(
    instant: &std::time::Instant,
    earlier: std::time::Instant,
) -> (r: core::time::Duration)
    ensures
        r == dur_since_of(*instant, earlier),
{
    instant.duration_since(earlier)
}

/// What the engine stores for one batch: the picosecond conversion of the
/// elapsed time between the sample's own clock readings.
pub open spec fn measured_picos(s: Sample) -> int {
    duration_as_nanos(dur_since_of(s.end, s.start)) * 1000
}

/// Relies on std::hint::black_box: an optimizer barrier that forces the
/// referenced slot to be treated as observed; it changes no value.
#[verifier::external_body]
fn observe<T>(slot: &T) {
    let _ = std::hint::black_box(slot);
}

/// Relies on std::hint::black_box: returns its argument unchanged, while
/// forcing the compiler to treat the value as observed.
#[verifier::external_body]
fn observe_value<T>(x: T) -> (r: T)
    ensures
        r == x,
{
    std::hint::black_box(x)
}

/// Relies on std::mem::needs_drop: whether dropping a value of the type can
/// do work. It only steers which drop-deferral path the sample loop takes;
/// both paths establish the same contract.
#[verifier::external_body]
fn type_needs_drop<R>() -> bool {
    std::mem::needs_drop::<R>()
}

/// Options set directly by the user of a benchmark.
pub struct BenchOptions {
    /// The number of sample recordings.
    pub sample_count: Option<u32>,

    /// The number of iterations inside a single sample.
    pub sample_size: Option<u32>,
}

impl Default for BenchOptions {
    /// Both overrides unset: the engine falls back to its defaults.
    fn default() -> (r: Self)
        ensures
            r.sample_count is None,
            r.sample_size is None,
    {
        BenchOptions { sample_count: None, sample_size: None }
    }
}

/// Benchmark loop context: owns the run loop and the recorded samples.
pub struct Context {
    /// Whether the benchmark is being run as a test. When true, the
    /// benchmark is run exactly once: sample count and size resolve to 1.
    is_test: bool,

    /// User-configured options.
    pub options: BenchOptions,

    /// Recorded samples.
    samples: Vec<Sample>,
}

impl View for Context {
    type V = Seq<Sample>;

    /// A context is modelled by its recorded samples.
    closed spec fn view(&self) -> Seq<Sample> {
        self.samples@
    }
}

impl Context {
    /// Whether the context runs in test mode.
    pub closed spec fn spec_is_test(&self) -> bool {
        self.is_test
    }

    /// The user-configured options.
    pub closed spec fn spec_options(&self) -> BenchOptions {
        self.options
    }

    /// Number of batches one run records: 1 in test mode, else the
    /// configured count or a default of 1000.
    pub open spec fn resolved_sample_count(&self) -> u32 {
        if self.spec_is_test() {
            1
        } else if self.spec_options().sample_count is Some {
            self.spec_options().sample_count->0
        } else {
            1000
        }
    }

    /// Repetitions per batch: 1 in test mode, else the configured size or a
    /// default of 1000.
    pub open spec fn resolved_sample_size(&self) -> u32 {
        if self.spec_is_test() {
            1
        } else if self.spec_options().sample_size is Some {
            self.spec_options().sample_size->0
        } else {
            1000
        }
    }

    /// Creates a new benchmarking context with no recorded samples.
    pub fn new(is_test: bool) -> (r: Self)
        ensures
            r@ == Seq::<Sample>::empty(),
            r.spec_is_test() == is_test,
            r.spec_options().sample_count is None,
            r.spec_options().sample_size is None,
            wf_samples(r@),
    {
        Context { is_test, options: Default::default(), samples: Vec::new() }
    }

    /// Begins measurement at the start of a sample loop: a fence, then a
    /// clock reading, so no outside work is reordered into the timed window.
    fn start_sample(&self) -> std::time::Instant {
        fence_seq_cst();
        instant_now()
    }

    /// Records a sample at the end of a sample loop: a clock reading, then a
    /// fence; the new sample covers `size` repetitions.
    fn end_sample(&mut self, start: std::time::Instant, size: u32)
        requires
            size > 0,
        ensures
            final(self)@.len() == old(self)@.len() + 1,
            final(self)@.take(old(self)@.len() as int) == old(self)@,
            final(self)@.last().size == size,
            final(self)@.last().start == start,
            final(self)@.last().total_duration.picos == measured_picos(final(self)@.last()),
            final(self).spec_is_test() == old(self).spec_is_test(),
            final(self).spec_options() == old(self).spec_options(),
    {
        let end = instant_now();
        fence_seq_cst();

        let total_duration = FineDuration::from(instant_duration_since(&end, start));
        self.samples.push(Sample { start, end, size, total_duration });
        proof {
            assert(self.samples@.take(old(self)@.len() as int) =~= old(self)@);
        }
    }

    /// Runs the sampling protocol for `f`: resolves the batch count and
    /// size, short-circuits a zero configuration, and otherwise records one
    /// sample per batch, each timing exactly `size` calls of `f`. Cleanup of
    /// the results is deferred past each timed window.
    pub fn bench_loop<R, F: Fn() -> R>(&mut self, f: F)
        requires
            call_requires(f, ()),
        ensures
            final(self).spec_is_test() == old(self).spec_is_test(),
            final(self).spec_options() == old(self).spec_options(),
            ({
                let n = old(self).resolved_sample_count();
                let s = old(self).resolved_sample_size();
                if n == 0 || s == 0 {
                    final(self)@ == old(self)@
                } else {
                    let fs = final(self)@;
                    fs.len() == old(self)@.len() + n && fs.take(old(self)@.len() as int) == old(
                        self,
                    )@ && (forall|i: int|
                        old(self)@.len() <= i < fs.len() ==> (#[trigger] fs[i]).size == s && fs[
                            i
                        ].total_duration.picos == measured_picos(fs[i]))
                }
            }),
            wf_samples(old(self)@) ==> wf_samples(final(self)@),
    {
        // `drop_store` keeps results of `f` alive until the timed window has
        // closed, so their cleanup cost never lands inside a measurement.
        // The allocation is reused between samples.
        let mut drop_store: Vec<R> = Vec::new();

        let sample_count: u32 = if self.is_test {
            1
        } else {
            match self.options.sample_count {
                Some(c) => c,
                None => 1000,
            }
        };
        let sample_size: u32 = if self.is_test {
            1
        } else {
            match self.options.sample_size {
                Some(s) => s,
                None => 1000,
            }
        };

        if sample_count == 0 || sample_size == 0 {
            return;
        }

        self.samples.reserve(sample_count as usize);

        let ghost prev = *self;
        let mut b: u32 = 0;
        while b < sample_count
            invariant
                0 <= b <= sample_count,
                sample_count == prev.resolved_sample_count(),
                sample_size == prev.resolved_sample_size(),
                sample_size > 0,
                call_requires(f, ()),
                self@.len() == prev@.len() + b,
                self@.take(prev@.len() as int) == prev@,
                forall|i: int|
                    prev@.len() <= i < self@.len() ==> (#[trigger] self@[i]).size == sample_size
                        && self@[i].total_duration.picos == measured_picos(self@[i]),
                self.spec_is_test() == prev.spec_is_test(),
                self.spec_options() == prev.spec_options(),
            decreases sample_count - b,
        {
            let ghost before = *self;
            if type_needs_drop::<R>() {
                // Results need cleanup: defer it by storing them until the
                // timed window has closed, then drop them all at once.
                drop_store.clear();
                drop_store.reserve(sample_size as usize);

                let start = self.start_sample();
                let mut i: u32 = 0;
                while i < sample_size
                    invariant
                        0 <= i <= sample_size,
                        call_requires(f, ()),
                    decreases sample_size - i,
                {
                    drop_store.push(f());
                    let n = drop_store.len();
                    observe(&drop_store[n - 1]);
                    i = i + 1;
                }
                self.end_sample(start, sample_size);
            } else {
                // No cleanup cost: observe each result and discard it.
                let start = self.start_sample();
                let mut i: u32 = 0;
                while i < sample_size
                    invariant
                        0 <= i <= sample_size,
                        call_requires(f, ()),
                    decreases sample_size - i,
                {
                    let _ = observe_value(f());
                    i = i + 1;
                }
                self.end_sample(start, sample_size);
            }
            proof {
                let plen = prev@.len() as int;
                let blen = before@.len() as int;
                assert(self@.take(blen) == before@);
                assert forall|i: int| 0 <= i < blen implies self@[i] == before@[i] by {
                    assert(self@.take(blen)[i] == before@[i]);
                }
                assert(self@.take(plen) =~= prev@);
                assert forall|i: int|
                    plen <= i < self@.len() implies (#[trigger] self@[i]).size == sample_size
                    && self@[i].total_duration.picos == measured_picos(self@[i]) by {
                    if i >= blen {
                        assert(i == self@.len() - 1);
                        assert(self@[i] == self@.last());
                    } else {
                        assert(self@[i] == before@[i]);
                        assert(before@[i].size == sample_size);
                        assert(before@[i].total_duration.picos == measured_picos(before@[i]));
                    }
                }
            }
            b = b + 1;
        }
        proof {
            let plen = prev@.len() as int;
            assert(old(self)@ == prev@);
            assert forall|i: int| 0 <= i < plen implies self@[i] == prev@[i] by {
                assert(self@.take(plen)[i] == prev@[i]);
            }
            if wf_samples(old(self)@) {
                assert forall|i: int| 0 <= i < self@.len() implies (#[trigger] self@[i]).size
                    > 0 by {
                    if i < plen {
                        assert(prev@[i].size > 0);
                    }
                }
            }
        }
    }

    /// Computes the total repetition count and total duration over all
    /// recorded samples, each clamped to its range.
    pub fn compute_totals(&self) -> (r: (u64, FineDuration))
        ensures
            r.0 == sat_u64(sum_sizes(self@)),
            r.1.picos == sat_u128(sum_picos(self@)),
    {
        let (count, picos) = crate::stats::clamped_totals(&self.samples);
        (count, FineDuration { picos })
    }

    /// Reduces the recorded samples of this run to their statistics; pure in
    /// the samples, so repeated calls return identical results.
    pub fn compute_stats(&self) -> (r: Stats)
        requires
            wf_samples(self@),
        ensures
            r == stats_of(self@),
    {
        Stats::from_samples(&self.samples)
    }
}

/// A run under a zero configuration leaves a fresh context without samples,
/// and reducing no samples yields the all-zero statistics.
pub proof fn lemma_zero_config_run(before: Context, after: Context)
    requires
        before.resolved_sample_count() == 0 || before.resolved_sample_size() == 0,
        before@.len() == 0,
        after@ == before@,
    ensures
        stats_of(after@).sample_count == 0,
        stats_of(after@).total_count == 0,
        stats_of(after@).total_duration.picos == 0,
        stats_of(after@).avg_duration.picos == 0,
        stats_of(after@).min_duration.picos == 0,
        stats_of(after@).max_duration.picos == 0,
        stats_of(after@).median_duration.picos == 0,
{
    crate::stats::lemma_empty_stats(after@);
}

/// Handle passed to a benchmark function; its one operation runs a closure
/// under the sampling protocol of the engine it borrows.
#[must_use]
pub struct Bencher<'a> {
    /// Set when the benchmark actually ran.
    pub did_run: &'a mut bool,
    /// The engine that records this benchmark's samples.
    pub context: &'a mut Context,
}

impl<'a> Bencher<'a> {
    /// Benchmarks the given function: marks the run flag and hands the
    /// function to the context's sampling loop. Consumes the handle, so a
    /// benchmark runs at most once per handle.
    pub fn bench<R, F: Fn() -> R>(self, f: F)
        requires
            call_requires(f, ()),
        ensures
            *final(self.did_run),
            final(self.context).spec_is_test() == (*old(self.context)).spec_is_test(),
            final(self.context).spec_options() == (*old(self.context)).spec_options(),
            ({
                let n = (*old(self.context)).resolved_sample_count();
                let s = (*old(self.context)).resolved_sample_size();
                let fc = final(self.context)@;
                if n == 0 || s == 0 {
                    fc == (*old(self.context))@
                } else {
                    fc.len() == (*old(self.context))@.len() + n && fc.take(
                        (*old(self.context))@.len() as int,
                    ) == (*old(self.context))@ && (forall|i: int|
                        (*old(self.context))@.len() <= i < fc.len() ==> (#[trigger] fc[i]).size
                            == s && fc[i].total_duration.picos == measured_picos(fc[i]))
                }
            }),
            wf_samples((*old(self.context))@) ==> wf_samples(final(self.context)@),
    {
        let Bencher { did_run, context } = self;
        *did_run = true;
        context.bench_loop(f);
    }
}

} // verus!
