use azalea::chunk_batching::{ChunkBatchInfo, ChunkReceiveSpeedAccumulator};
use std::time::{Duration, Instant};

#[test]
fn batch_of_ten_chunks_over_forty_millis() {
    let mut info = ChunkBatchInfo::new(2_000_000, 1).unwrap();
    info.batch_finished_after(10, 40_000_000);
    assert_eq!(info.aggregated_duration_per_chunk(), 3_000_000);
    assert_eq!(info.old_samples_weight(), 2);
}

#[test]
fn default_estimator_starts_from_two_millis() {
    let info = ChunkBatchInfo::default();
    assert_eq!(info.aggregated_duration_per_chunk(), 2_000_000);
    assert_eq!(info.old_samples_weight(), 1);
}

#[test]
fn sample_is_clamped_to_a_factor_of_three() {
    let mut slow = ChunkBatchInfo::new(2_000_000, 1).unwrap();
    slow.batch_finished_after(1, 1_000_000_000);
    // clamped to 6 ms, mean of 2 ms and 6 ms
    assert_eq!(slow.aggregated_duration_per_chunk(), 4_000_000);
    let mut fast = ChunkBatchInfo::new(3_000_000, 2).unwrap();
    fast.batch_finished_after(10, 0);
    // clamped to 1 ms, (3 * 2 + 1) / 3
    assert_eq!(fast.aggregated_duration_per_chunk(), 2_333_333);
    assert_eq!(fast.old_samples_weight(), 3);
}

#[test]
fn empty_batch_changes_nothing() {
    let mut info = ChunkBatchInfo::new(5, 7).unwrap();
    info.batch_finished_after(0, 1_000);
    assert_eq!(info.aggregated_duration_per_chunk(), 5);
    assert_eq!(info.old_samples_weight(), 7);
    info.batch_finished(0);
    assert_eq!(info.aggregated_duration_per_chunk(), 5);
}

#[test]
fn reset_starts_anew() {
    let mut info = ChunkBatchInfo::new(9_000_000, 30).unwrap();
    info.reset();
    assert_eq!(info.aggregated_duration_per_chunk(), 2_000_000);
    assert_eq!(info.old_samples_weight(), 1);
    let copy = info.clone();
    assert_eq!(copy.aggregated_duration_per_chunk(), 2_000_000);
}

#[test]
fn weight_stops_at_forty_nine() {
    let mut info = ChunkBatchInfo::new(1_000, 48).unwrap();
    info.batch_finished_after(1, 1_000);
    assert_eq!(info.old_samples_weight(), 49);
    info.batch_finished_after(1, 1_000);
    assert_eq!(info.old_samples_weight(), 49);
    assert!(ChunkBatchInfo::new(1_000, 0).is_none());
    assert!(ChunkBatchInfo::new(1_000, 50).is_none());
}

#[test]
fn batch_finished_reads_the_clock() {
    let mut info = ChunkBatchInfo::default();
    info.batch_started();
    info.batch_finished(4);
    assert_eq!(info.old_samples_weight(), 2);
    let mean = info.aggregated_duration_per_chunk();
    // Between the mean with the least sample, a third of 2 ms, and with the greatest, 6 ms.
    assert!(mean >= 1_333_333 && mean <= 4_000_000);
}

#[test]
fn accumulator_is_a_ring() {
    let mut ring = ChunkReceiveSpeedAccumulator::new(2);
    assert_eq!(ring.totals(), (0, 0));
    ring.accumulate(10, 100);
    assert_eq!(ring.totals(), (10, 100));
    ring.accumulate(20, 20_000);
    assert_eq!(ring.totals(), (30, 15_100));
    ring.accumulate(5, 50);
    assert_eq!(ring.totals(), (25, 15_050));
    let mut none = ChunkReceiveSpeedAccumulator::new(0);
    none.accumulate(1, 1);
    assert_eq!(none.totals(), (0, 0));
}

#[test]
fn batch_is_timed_from_the_given_start() {
    let mut info = ChunkBatchInfo::new(7_000_000, 12).unwrap();
    let before = info.start_time();
    let later = before + Duration::from_secs(3);
    info.batch_started_at(later);
    assert_eq!(info.start_time(), later);
    assert_eq!(info.aggregated_duration_per_chunk(), 7_000_000);
    assert_eq!(info.old_samples_weight(), 12);
    info.batch_finished_after(2, 14_000_000);
    assert_eq!(info.start_time(), later);
    assert_eq!(info.clone().start_time(), later);
}

#[test]
fn batch_started_reads_the_clock() {
    let mut info = ChunkBatchInfo::new(7_000_000, 12).unwrap();
    let early = Instant::now();
    info.batch_started();
    assert!(info.start_time() >= early);
    assert!(info.start_time() <= Instant::now());
    assert_eq!(info.aggregated_duration_per_chunk(), 7_000_000);
    assert_eq!(info.old_samples_weight(), 12);
}
