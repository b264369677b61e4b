//! Per-batch measurements and the statistics reduced from a full run.

use vstd::prelude::*;
use vstd::relations::{sorted_by, total_ordering};
use vstd::seq_lib::lemma_sorted_unique;

use crate::time::FineDuration;

verus! {

/// Monotonic clock reading; opaque, produced only by the sampling engine and
/// read back by nothing in this crate.
#[verifier::external_type_specification]
#[verifier::external_body]
pub struct ExInstant(std::time::Instant);

/// One timed batch: `size` repetitions of the benchmarked function ran
/// between the `start` and `end` clock readings, taking `total_duration`
/// of wall-clock time altogether.
pub struct Sample {
    pub start: std::time::Instant,
    pub end: std::time::Instant,
    pub size: u32,
    pub total_duration: FineDuration,
}

/// Every recorded sample covers at least one repetition, so per-sample
/// averages are well defined.
pub open spec fn wf_samples(ss: Seq<Sample>) -> bool {
    forall|i: int| 0 <= i < ss.len() ==> (#[trigger] ss[i]).size > 0
}

/// Sum of the repetition counts of all samples.
pub open spec fn sum_sizes(ss: Seq<Sample>) -> int
    decreases ss.len(),
{
    if ss.len() == 0 {
        0
    } else {
        sum_sizes(ss.drop_last()) + ss.last().size
    }
}

/// Sum of the picosecond counts of all samples.
pub open spec fn sum_picos(ss: Seq<Sample>) -> int
    decreases ss.len(),
{
    if ss.len() == 0 {
        0
    } else {
        sum_picos(ss.drop_last()) + ss.last().total_duration.picos
    }
}

/// Per-sample average duration in picoseconds (integer division).
pub open spec fn avg_of(s: Sample) -> u128 {
    s.total_duration.picos / (s.size as u128)
}

/// The per-sample averages, in recording order.
pub open spec fn avgs_of(ss: Seq<Sample>) -> Seq<u128> {
    ss.map_values(|s: Sample| avg_of(s))
}

/// Numeric order on picosecond counts.
pub open spec fn leq_u128() -> spec_fn(u128, u128) -> bool {
    |a: u128, b: u128| a <= b
}

/// The per-sample averages in ascending order.
pub open spec fn sorted_avgs(ss: Seq<Sample>) -> Seq<u128> {
    avgs_of(ss).sort_by(leq_u128())
}

/// Sum clamped to the 64-bit range.
pub open spec fn sat_u64(x: int) -> u64 {
    if x <= u64::MAX {
        x as u64
    } else {
        u64::MAX
    }
}

/// Sum clamped to the 128-bit range.
pub open spec fn sat_u128(x: int) -> u128 {
    if x <= u128::MAX {
        x as u128
    } else {
        u128::MAX
    }
}

/// Median of the ascending per-sample averages: the middle element for an
/// odd count, the average of the two middle elements for an even count,
/// zero for an empty run.
pub open spec fn median_avg(ss: Seq<Sample>) -> u128 {
    let q = sorted_avgs(ss);
    let n = ss.len() as int;
    if n == 0 {
        0
    } else if n % 2 == 0 {
        ((q[n / 2 - 1] + q[n / 2]) / 2) as u128
    } else {
        q[n / 2]
    }
}

/// Aggregate statistics over all samples of one run.
#[derive(Clone, Copy, Debug, PartialEq, Eq, Structural)]
pub struct Stats {
    /// Number of batches recorded.
    pub sample_count: usize,
    /// Total repetitions over all batches, clamped to the 64-bit range.
    pub total_count: u64,
    /// Total measured time over all batches, clamped to the 128-bit range.
    pub total_duration: FineDuration,
    /// `total_duration / total_count`; zero for a run with no repetitions.
    pub avg_duration: FineDuration,
    /// Smallest per-sample average duration; zero for an empty run.
    pub min_duration: FineDuration,
    /// Largest per-sample average duration; zero for an empty run.
    pub max_duration: FineDuration,
    /// Median per-sample average duration; zero for an empty run.
    pub median_duration: FineDuration,
}

/// The statistics determined by a sample sequence; the reduction below
/// returns exactly this value.
pub open spec fn stats_of(ss: Seq<Sample>) -> Stats {
    let n = ss.len() as int;
    let tc = sat_u64(sum_sizes(ss));
    let td = sat_u128(sum_picos(ss));
    let q = sorted_avgs(ss);
    Stats {
        sample_count: ss.len() as usize,
        total_count: tc,
        total_duration: FineDuration { picos: td },
        avg_duration: FineDuration {
            picos: if tc == 0 {
                0
            } else {
                td / (tc as u128)
            },
        },
        min_duration: FineDuration { picos: if n == 0 { 0 } else { q[0] } },
        max_duration: FineDuration { picos: if n == 0 { 0 } else { q[n - 1] } },
        median_duration: FineDuration { picos: median_avg(ss) },
    }
}

impl Sample {
    /// Average duration of one repetition within this sample.
    pub fn avg_duration(&self) -> (r: FineDuration)
        requires
            self.size > 0,
        ensures
            r.picos == avg_of(*self),
    {
        FineDuration { picos: self.total_duration.picos / (self.size as u128) }
    }

    /// Average of this sample's and another sample's average durations,
    /// computed without overflowing the 128-bit range.
    pub fn avg_duration_between(&self, other: &Sample) -> (r: FineDuration)
        requires
            self.size > 0,
            other.size > 0,
        ensures
            r.picos == (avg_of(*self) + avg_of(*other)) / 2,
    {
        let a = self.total_duration.picos / (self.size as u128);
        let b = other.total_duration.picos / (other.size as u128);
        let r = a / 2 + b / 2 + (a % 2 + b % 2) / 2;
        proof {
            assert(r == (a + b) / 2) by (nonlinear_arith)
                requires
                    r == a / 2 + b / 2 + (a % 2 + b % 2) / 2,
            ;
        }
        FineDuration { picos: r }
    }
}

/// Index of a smallest element of a non-empty vector.
fn min_index(v: &Vec<u128>) -> (m: usize)
    requires
        v@.len() > 0,
    ensures
        0 <= m < v@.len(),
        forall|j: int| 0 <= j < v@.len() ==> v@[m as int] <= #[trigger] v@[j],
{
    let mut m: usize = 0;
    let mut i: usize = 1;
    while i < v.len()
        invariant
            0 <= m < i <= v@.len(),
            forall|j: int| 0 <= j < i ==> v@[m as int] <= #[trigger] v@[j],
        decreases v@.len() - i,
    {
        if v[i] < v[m] {
            m = i;
        }
        i = i + 1;
    }
    m
}

/// Selection sort: ascending reordering of the input values.
fn sort_ascending(v: Vec<u128>) -> (r: Vec<u128>)
    ensures
        sorted_by(r@, leq_u128()),
        r@.to_multiset() == v@.to_multiset(),
        r@.len() == v@.len(),
{
    broadcast use vstd::seq_lib::group_to_multiset_ensures;

    let ghost orig = v@;
    let mut rest = v;
    let mut out: Vec<u128> = Vec::new();
    while rest.len() > 0
        invariant
            sorted_by(out@, leq_u128()),
            out@.to_multiset().add(rest@.to_multiset()) =~= orig.to_multiset(),
            out@.len() + rest@.len() == orig.len(),
            forall|i: int, j: int|
                0 <= i < out@.len() && 0 <= j < rest@.len() ==> #[trigger] out@[i]
                    <= #[trigger] rest@[j],
        decreases rest@.len(),
    {
        let m = min_index(&rest);
        let ghost old_out = out@;
        let ghost old_rest = rest@;
        let x = rest.remove(m);
        out.push(x);
        proof {
            old_out.to_multiset_ensures();
            old_rest.to_multiset_ensures();
            assert(out@ == old_out.push(x));
            assert(rest@ == old_rest.remove(m as int));
            assert(old_out.push(x).to_multiset() =~= old_out.to_multiset().insert(x));
            assert(old_rest.remove(m as int).to_multiset() =~= old_rest.to_multiset().remove(
                old_rest[m as int],
            ));
            assert(old_rest.to_multiset().contains(x)) by {
                assert(old_rest[m as int] == x);
            }
            assert(out@.to_multiset().add(rest@.to_multiset()) =~= orig.to_multiset());
            assert forall|i: int, j: int|
                0 <= i < out@.len() && 0 <= j < rest@.len() implies #[trigger] out@[i]
                <= #[trigger] rest@[j] by {
                assert(rest@[j] == old_rest[if j < m { j } else { j + 1 }]);
            }
            assert forall|i: int, j: int| 0 <= i < j < out@.len() implies leq_u128()(
                out@[i],
                out@[j],
            ) by {
                if j < out@.len() - 1 {
                    assert(sorted_by(old_out, leq_u128()));
                    assert(leq_u128()(old_out[i], old_out[j]));
                } else {
                    assert(out@[j] == x);
                    if i < old_out.len() {
                        assert(old_out[i] <= old_rest[m as int]);
                    }
                }
            }
        }
    }
    out
}

/// `u128` order is a total order.
proof fn lemma_leq_u128_total()
    ensures
        total_ordering(leq_u128()),
{
    let leq = leq_u128();
    assert forall|a: u128, b: u128| #[trigger] leq(a, b) || #[trigger] leq(b, a) by {
        assert(a <= b || b <= a);
    }
}

/// The ascending view of the per-sample averages has one entry per sample,
/// is sorted, and holds exactly the averages.
pub proof fn lemma_sorted_avgs_props(ss: Seq<Sample>)
    ensures
        sorted_avgs(ss).len() == ss.len(),
        sorted_by(sorted_avgs(ss), leq_u128()),
        sorted_avgs(ss).to_multiset() == avgs_of(ss).to_multiset(),
{
    avgs_of(ss).lemma_sort_by_ensures(leq_u128());
    avgs_of(ss).to_multiset_ensures();
    sorted_avgs(ss).to_multiset_ensures();
}

/// A run with no samples reduces to all-zero statistics: zero counts and
/// zero-valued durations throughout.
pub proof fn lemma_empty_stats(ss: Seq<Sample>)
    requires
        ss.len() == 0,
    ensures
        stats_of(ss).sample_count == 0,
        stats_of(ss).total_count == 0,
        stats_of(ss).total_duration.picos == 0,
        stats_of(ss).avg_duration.picos == 0,
        stats_of(ss).min_duration.picos == 0,
        stats_of(ss).max_duration.picos == 0,
        stats_of(ss).median_duration.picos == 0,
{
}

/// A run with exactly one sample of size `s` and total duration `d` has
/// `total_count == s`, and its average, minimum, maximum and median
/// durations all equal `d / s`.
pub proof fn lemma_single_sample_stats(ss: Seq<Sample>)
    requires
        ss.len() == 1,
        ss[0].size > 0,
    ensures
        stats_of(ss).total_count == ss[0].size,
        stats_of(ss).avg_duration.picos == avg_of(ss[0]),
        stats_of(ss).min_duration.picos == avg_of(ss[0]),
        stats_of(ss).max_duration.picos == avg_of(ss[0]),
        stats_of(ss).median_duration.picos == avg_of(ss[0]),
{
    let single = seq![avg_of(ss[0])];
    assert(ss.drop_last().len() == 0);
    assert(sum_sizes(ss.drop_last()) == 0);
    assert(sum_picos(ss.drop_last()) == 0);
    assert(ss.last() == ss[0]);
    assert(sum_sizes(ss) == ss[0].size);
    assert(sum_picos(ss) == ss[0].total_duration.picos);
    assert(avgs_of(ss) =~= single);
    lemma_sorted_avgs_props(ss);
    lemma_leq_u128_total();
    assert(sorted_by(single, leq_u128()));
    lemma_sorted_unique(sorted_avgs(ss), single, leq_u128());
    assert(sorted_avgs(ss)[0] == avg_of(ss[0]));
    assert(stats_of(ss).avg_duration.picos == avg_of(ss[0])) by {
        let picos = ss[0].total_duration.picos;
        let size = ss[0].size;
        assert(sat_u64(size as int) == size as u64);
        assert(sat_u128(picos as int) == picos);
        assert(picos / (size as u64 as u128) == picos / (size as u128));
    }
}

/// Ordering of the reduced extremes: for a non-empty run the minimum
/// per-sample average is at most the median, which is at most the maximum.
pub proof fn lemma_min_median_max(ss: Seq<Sample>)
    requires
        ss.len() > 0,
    ensures
        stats_of(ss).min_duration.picos <= stats_of(ss).median_duration.picos,
        stats_of(ss).median_duration.picos <= stats_of(ss).max_duration.picos,
{
    lemma_sorted_avgs_props(ss);
    let q = sorted_avgs(ss);
    let n = ss.len() as int;
    let leq = leq_u128();
    if n % 2 == 0 {
        let a = q[n / 2 - 1];
        let b = q[n / 2];
        if n / 2 - 1 > 0 {
            assert(leq(q[0], a));
        }
        assert(leq(q[0], b));
        if n / 2 < n - 1 {
            assert(leq(b, q[n - 1]));
        }
        if n / 2 - 1 < n / 2 {
            assert(leq(a, b));
        }
        assert(q[0] <= (a + b) / 2 <= q[n - 1]) by (nonlinear_arith)
            requires
                q[0] <= a,
                a <= b,
                b <= q[n - 1],
        ;
    } else {
        if n / 2 > 0 {
            assert(leq(q[0], q[n / 2]));
        }
        if n / 2 < n - 1 {
            assert(leq(q[n / 2], q[n - 1]));
        }
    }
}

/// The reduced minimum and maximum are genuine extremes: each is the average
/// duration of some sample, no sample's average lies below the minimum, and
/// none lies above the maximum.
pub proof fn lemma_min_max_are_extremes(ss: Seq<Sample>)
    requires
        ss.len() > 0,
    ensures
        forall|i: int|
            0 <= i < ss.len() ==> stats_of(ss).min_duration.picos <= avg_of(#[trigger] ss[i]),
        exists|i: int| 0 <= i < ss.len() && stats_of(ss).min_duration.picos == avg_of(ss[i]),
        forall|i: int|
            0 <= i < ss.len() ==> stats_of(ss).max_duration.picos >= avg_of(#[trigger] ss[i]),
        exists|i: int| 0 <= i < ss.len() && stats_of(ss).max_duration.picos == avg_of(ss[i]),
{
    broadcast use vstd::seq_lib::group_to_multiset_ensures;

    lemma_sorted_avgs_props(ss);
    let avgs = avgs_of(ss);
    let q = sorted_avgs(ss);
    let n = ss.len() as int;
    assert forall|i: int|
        0 <= i < n implies stats_of(ss).min_duration.picos <= avg_of(#[trigger] ss[i]) && stats_of(
        ss,
    ).max_duration.picos >= avg_of(ss[i]) by {
        assert(avgs[i] == avg_of(ss[i]));
        assert(avgs.contains(avgs[i]));
        assert(q.to_multiset().count(avgs[i]) > 0);
        assert(q.contains(avgs[i]));
        let k = choose|k: int| 0 <= k < q.len() && q[k] == avgs[i];
        if k > 0 {
            assert(leq_u128()(q[0], q[k]));
        }
        if k < n - 1 {
            assert(leq_u128()(q[k], q[n - 1]));
        }
    }
    assert(q.contains(q[0]));
    assert(avgs.to_multiset().count(q[0]) > 0);
    assert(avgs.contains(q[0]));
    let i0 = choose|i: int| 0 <= i < avgs.len() && avgs[i] == q[0];
    assert(avg_of(ss[i0]) == stats_of(ss).min_duration.picos);
    assert(q.contains(q[n - 1]));
    assert(avgs.to_multiset().count(q[n - 1]) > 0);
    assert(avgs.contains(q[n - 1]));
    let i1 = choose|i: int| 0 <= i < avgs.len() && avgs[i] == q[n - 1];
    assert(avg_of(ss[i1]) == stats_of(ss).max_duration.picos);
}

/// Reducing the same completed run twice, with no sampling in between,
/// yields identical statistics: the reduction is a function of the samples
/// alone.
pub proof fn lemma_stats_reduction_repeatable(r1: Stats, r2: Stats, ss: Seq<Sample>)
    requires
        r1 == stats_of(ss),
        r2 == stats_of(ss),
    ensures
        r1 == r2,
{
}

/// Totals of repetition counts and picosecond counts over all samples, each
/// clamped to its range.
pub(crate) fn clamped_totals(samples: &Vec<Sample>) -> (r: (u64, u128))
    ensures
        r.0 == sat_u64(sum_sizes(samples@)),
        r.1 == sat_u128(sum_picos(samples@)),
{
    let ghost ss = samples@;
    let n = samples.len();
    let mut total_count: u64 = 0;
    let mut total_picos: u128 = 0;
    let mut i: usize = 0;
    while i < n
        invariant
            n == ss.len(),
            samples@ == ss,
            0 <= i <= n,
            sum_sizes(ss.take(i as int)) >= 0,
            sum_picos(ss.take(i as int)) >= 0,
            total_count == sat_u64(sum_sizes(ss.take(i as int))),
            total_picos == sat_u128(sum_picos(ss.take(i as int))),
        decreases n - i,
    {
        proof {
            assert(ss.take(i + 1).drop_last() =~= ss.take(i as int));
            assert(ss.take(i + 1).last() == ss[i as int]);
            assert(sum_sizes(ss.take(i + 1)) == sum_sizes(ss.take(i as int)) + ss[i as int].size);
            assert(sum_picos(ss.take(i + 1)) == sum_picos(ss.take(i as int)) + ss[
                i as int
            ].total_duration.picos);
        }
        let size = samples[i].size as u64;
        total_count = if total_count > u64::MAX - size {
            u64::MAX
        } else {
            total_count + size
        };
        let picos = samples[i].total_duration.picos;
        total_picos = if total_picos > u128::MAX - picos {
            u128::MAX
        } else {
            total_picos + picos
        };
        i = i + 1;
    }
    proof {
        assert(ss.take(n as int) =~= ss);
    }
    (total_count, total_picos)
}

impl Stats {
    /// Reduces recorded samples to their aggregate statistics: clamped
    /// totals, the average repetition cost, and the extremes and median of
    /// the per-sample average durations.
    pub fn from_samples(samples: &Vec<Sample>) -> (r: Stats)
        requires
            wf_samples(samples@),
        ensures
            r == stats_of(samples@),
    {
        let ghost ss = samples@;
        let n = samples.len();

        let (total_count, total_picos) = clamped_totals(samples);

        let avg_duration = FineDuration {
            picos: if total_count == 0 {
                0
            } else {
                total_picos / (total_count as u128)
            },
        };

        // Per-sample average durations, then in ascending order.
        let mut avgs: Vec<u128> = Vec::new();
        let mut i: usize = 0;
        while i < n
            invariant
                n == ss.len(),
                samples@ == ss,
                wf_samples(ss),
                0 <= i <= n,
                avgs@ =~= avgs_of(ss.take(i as int)),
            decreases n - i,
        {
            proof {
                assert(ss.take(i + 1).drop_last() =~= ss.take(i as int));
                assert(avgs_of(ss.take(i + 1)) =~= avgs_of(ss.take(i as int)).push(
                    avg_of(ss[i as int]),
                ));
            }
            let a = samples[i].total_duration.picos / (samples[i].size as u128);
            avgs.push(a);
            i = i + 1;
        }
        proof {
            assert(ss.take(n as int) =~= ss);
        }
        let ordered = sort_ascending(avgs);
        proof {
            lemma_leq_u128_total();
            avgs_of(ss).lemma_sort_by_ensures(leq_u128());
            lemma_sorted_unique(ordered@, sorted_avgs(ss), leq_u128());
            assert(ordered@ == sorted_avgs(ss));
        }

        let (min_duration, max_duration, median_duration) = if n == 0 {
            (
                FineDuration { picos: 0 },
                FineDuration { picos: 0 },
                FineDuration { picos: 0 },
            )
        } else {
            let min = FineDuration { picos: ordered[0] };
            let max = FineDuration { picos: ordered[n - 1] };
            let median = if n % 2 == 0 {
                let a = ordered[n / 2 - 1];
                let b = ordered[n / 2];
                FineDuration { picos: a / 2 + b / 2 + (a % 2 + b % 2) / 2 }
            } else {
                FineDuration { picos: ordered[n / 2] }
            };
            proof {
                if n % 2 == 0 {
                    let a = sorted_avgs(ss)[n as int / 2 - 1];
                    let b = sorted_avgs(ss)[n as int / 2];
                    assert(median.picos == (a + b) / 2) by (nonlinear_arith)
                        requires
                            median.picos == a / 2 + b / 2 + (a % 2 + b % 2) / 2,
                    ;
                }
            }
            (min, max, median)
        };

        Stats {
            sample_count: n,
            total_count,
            total_duration: FineDuration { picos: total_picos },
            avg_duration,
            min_duration,
            max_duration,
            median_duration,
        }
    }
}

} // verus!
