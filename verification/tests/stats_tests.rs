use std::time::Instant;

use microbench::bench::{Bencher, Context};
use microbench::stats::{Sample, Stats};
use microbench::time::FineDuration;

fn sample(size: u32, picos: u128) -> Sample {
    let now = Instant::now();
    Sample { start: now, end: now, size, total_duration: FineDuration { picos } }
}

#[test]
fn zero_sample_count_yields_all_zero_stats() {
    let mut ctx = Context::new(false);
    ctx.options.sample_count = Some(0);
    ctx.bench_loop(|| 1u32);
    let stats = ctx.compute_stats();
    assert_eq!(stats.sample_count, 0);
    assert_eq!(stats.total_count, 0);
    assert_eq!(stats.total_duration.picos, 0);
    assert_eq!(stats.avg_duration.picos, 0);
    assert_eq!(stats.min_duration.picos, 0);
    assert_eq!(stats.max_duration.picos, 0);
    assert_eq!(stats.median_duration.picos, 0);
}

#[test]
fn zero_sample_size_yields_all_zero_stats() {
    let mut ctx = Context::new(false);
    ctx.options.sample_size = Some(0);
    ctx.bench_loop(|| vec![1u8, 2, 3]);
    let stats = ctx.compute_stats();
    assert_eq!(stats.sample_count, 0);
    assert_eq!(stats.total_count, 0);
    assert_eq!(stats.total_duration.picos, 0);
    assert_eq!(stats.median_duration.picos, 0);
}

#[test]
fn single_sample_stats() {
    let samples = vec![sample(4, 100)];
    let stats = Stats::from_samples(&samples);
    assert_eq!(stats.sample_count, 1);
    assert_eq!(stats.total_count, 4);
    assert_eq!(stats.total_duration.picos, 100);
    assert_eq!(stats.avg_duration.picos, 25);
    assert_eq!(stats.min_duration.picos, 25);
    assert_eq!(stats.max_duration.picos, 25);
    assert_eq!(stats.median_duration.picos, 25);
}

#[test]
fn median_of_odd_count() {
    // Per-sample averages 30, 10, 20 in recording order: median is 20.
    let samples = vec![sample(1, 30), sample(1, 10), sample(1, 20)];
    let stats = Stats::from_samples(&samples);
    assert_eq!(stats.median_duration.picos, 20);
    assert_eq!(stats.min_duration.picos, 10);
    assert_eq!(stats.max_duration.picos, 30);
}

#[test]
fn median_of_even_count() {
    // Per-sample averages 10, 40, 30, 20: median is (20 + 30) / 2 = 25.
    let samples = vec![sample(1, 10), sample(1, 40), sample(1, 30), sample(1, 20)];
    let stats = Stats::from_samples(&samples);
    assert_eq!(stats.median_duration.picos, 25);
    assert_eq!(stats.min_duration.picos, 10);
    assert_eq!(stats.max_duration.picos, 40);
}

#[test]
fn min_median_max_are_ordered() {
    let samples = vec![sample(2, 15), sample(3, 100), sample(1, 7), sample(5, 5)];
    let stats = Stats::from_samples(&samples);
    assert!(stats.min_duration.picos <= stats.median_duration.picos);
    assert!(stats.median_duration.picos <= stats.max_duration.picos);
}

#[test]
fn stats_reduction_is_repeatable() {
    let mut ctx = Context::new(false);
    ctx.options.sample_count = Some(3);
    ctx.options.sample_size = Some(2);
    ctx.bench_loop(|| 21u64 * 2);
    let first = ctx.compute_stats();
    let second = ctx.compute_stats();
    assert_eq!(first, second);
    assert_eq!(first.sample_count, 3);
    assert_eq!(first.total_count, 6);
}

#[test]
fn test_mode_runs_once() {
    let mut ctx = Context::new(true);
    let stats_before = ctx.compute_stats();
    assert_eq!(stats_before.sample_count, 0);
    ctx.bench_loop(|| String::from("abc"));
    let stats = ctx.compute_stats();
    assert_eq!(stats.sample_count, 1);
    assert_eq!(stats.total_count, 1);
}

#[test]
fn defaults_resolve_to_thousand() {
    let mut ctx = Context::new(false);
    ctx.bench_loop(|| 1u8 + 1);
    let stats = ctx.compute_stats();
    assert_eq!(stats.sample_count, 1000);
    assert_eq!(stats.total_count, 1_000_000);
}

#[test]
fn bencher_marks_did_run() {
    let mut did_run = false;
    let mut ctx = Context::new(true);
    let bencher = Bencher { did_run: &mut did_run, context: &mut ctx };
    bencher.bench(|| 7u8);
    assert!(did_run);
    assert_eq!(ctx.compute_stats().sample_count, 1);
}

#[test]
fn avg_duration_between_averages() {
    let a = sample(1, 10);
    let b = sample(1, 15);
    assert_eq!(a.avg_duration_between(&b).picos, 12);
    assert_eq!(a.avg_duration().picos, 10);
}

#[test]
fn compute_totals_sums_sizes_and_durations() {
    let mut ctx = Context::new(false);
    ctx.options.sample_count = Some(4);
    ctx.options.sample_size = Some(5);
    ctx.bench_loop(|| 0u8);
    let (count, duration) = ctx.compute_totals();
    assert_eq!(count, 20);
    // The same measured durations flow through both reducers.
    let stats = ctx.compute_stats();
    assert_eq!(stats.total_duration, duration);
    assert_eq!(stats.total_count, count);
}
