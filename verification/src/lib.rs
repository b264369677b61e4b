//! Core of a micro-benchmarking harness: a picosecond-precision duration
//! model, throughput counters, a sampling engine that times batches of
//! repetitions of a benchmarked function, a statistics reducer, and a tree
//! that organizes benchmark entries by their module paths.

pub mod bench;
pub mod counter;
pub mod entry;
pub mod stats;
pub mod time;
