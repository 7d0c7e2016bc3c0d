//! The chunk-batch rate estimator. The server sends chunks in batches and
//! asks how fast the client takes them; the client keeps a running mean of
//! the time one chunk takes and answers from it.

use vstd::prelude::*;

verus! {

/// A point in time of the machine's steady clock, opaque to the proofs.
#[verifier::external_type_specification]
#[verifier::external_body]
pub struct ExInstant(std::time::Instant);

/// The most nanoseconds that a duration can hold: `u64::MAX` seconds and
/// 999 999 999 nanoseconds.
pub const MAX_DURATION_NANOS: u128 = 18_446_744_073_709_551_615_999_999_999;

/// The time per chunk that a new estimator starts from: two milliseconds.
pub const INITIAL_NANOS_PER_CHUNK: u128 = 2_000_000;

/// The greatest weight that the old samples can have.
pub const MAX_SAMPLES_WEIGHT: u32 = 49;

/// The longest batch duration that the accumulator records, in
/// milliseconds.
pub const MAX_RECORDED_MILLIS: u32 = 15000;

/// Reads the steady clock with `Instant::now`. Nothing is claimed of the
/// value.
#[verifier::external_body]
fn instant_now() -> (now: std::time::Instant) {
    std::time::Instant::now()
}

/// The nanoseconds gone by since `start`, by `Instant::elapsed`: never more
/// than a duration can hold.
#[verifier::external_body]
fn elapsed_nanos(start: &std::time::Instant) -> (nanos: u128)
    ensures
        nanos <= MAX_DURATION_NANOS,
{
    start.elapsed().as_nanos()
}

/// `x` brought into the range from `low` to `high`.
pub open spec fn clamped(x: int, low: int, high: int) -> int {
    if x < low {
        low
    } else if x > high {
        high
    } else {
        x
    }
}

/// The time that one chunk of a batch took: the batch's duration over its
/// size, brought to within a factor of three of the running mean.
pub open spec fn clamped_sample(aggregated: int, batch_size: int, batch_nanos: int) -> int {
    clamped(batch_nanos / batch_size, aggregated / 3, aggregated * 3)
}

/// The running mean after a batch: the mean of the old one, with its
/// weight, and of the clamped sample.
pub open spec fn next_aggregate(aggregated: int, weight: int, batch_size: int, batch_nanos: int) -> int {
    (aggregated * weight + clamped_sample(aggregated, batch_size, batch_nanos)) / (weight + 1)
}

/// The weight after a batch: one more, up to the greatest.
pub open spec fn next_weight(weight: int) -> int {
    if weight + 1 < MAX_SAMPLES_WEIGHT {
        weight + 1
    } else {
        MAX_SAMPLES_WEIGHT as int
    }
}

/// The state of the estimator for one client.
#[derive(Debug)]
pub struct ChunkBatchInfo {
    start_time: std::time::Instant,
    aggregated_nanos_per_chunk: u128,
    old_samples_weight: u32,
}

impl ChunkBatchInfo {
    #[verifier::type_invariant]
    spec fn in_range(self) -> bool {
        &&& self.aggregated_nanos_per_chunk <= MAX_DURATION_NANOS
        &&& 1 <= self.old_samples_weight <= MAX_SAMPLES_WEIGHT
    }

    /// The running mean of the time that one chunk takes, in nanoseconds.
    pub closed spec fn aggregated(&self) -> int {
        self.aggregated_nanos_per_chunk as int
    }

    /// The weight of the old samples in the mean.
    pub closed spec fn weight(&self) -> int {
        self.old_samples_weight as int
    }

    /// The reading of the clock that the running batch is timed from.
    pub closed spec fn started(&self) -> std::time::Instant {
        self.start_time
    }

    /// An estimator that starts now with the given mean and weight.
    /// Nothing where the mean is more than a duration can hold, or the
    /// weight is not from 1 to 49.
    pub fn new(aggregated_nanos_per_chunk: u128, old_samples_weight: u32) -> (r: Option<Self>)
        ensures
            r is Some <==> aggregated_nanos_per_chunk <= MAX_DURATION_NANOS && 1
                <= old_samples_weight <= MAX_SAMPLES_WEIGHT,
            r matches Some(info) ==> info.aggregated() == aggregated_nanos_per_chunk
                && info.weight() == old_samples_weight,
    {
        if aggregated_nanos_per_chunk <= MAX_DURATION_NANOS && 1 <= old_samples_weight
            && old_samples_weight <= MAX_SAMPLES_WEIGHT {
            Some(
                ChunkBatchInfo {
                    start_time: instant_now(),
                    aggregated_nanos_per_chunk,
                    old_samples_weight,
                },
            )
        } else {
            None
        }
    }

    /// The running mean of the time that one chunk takes, in nanoseconds.
    pub fn aggregated_duration_per_chunk(&self) -> (nanos: u128)
        ensures
            nanos == self.aggregated(),
            nanos <= MAX_DURATION_NANOS,
    {
        proof {
            use_type_invariant(self);
        }
        self.aggregated_nanos_per_chunk
    }

    /// The weight of the old samples in the mean.
    pub fn old_samples_weight(&self) -> (weight: u32)
        ensures
            weight == self.weight(),
            1 <= weight <= MAX_SAMPLES_WEIGHT,
    {
        proof {
            use_type_invariant(self);
        }
        self.old_samples_weight
    }

    /// The reading of the clock that the running batch is timed from.
    pub fn start_time(&self) -> (at: std::time::Instant)
        ensures
            at == self.started(),
    {
        self.start_time
    }

    /// Starts the estimator anew, as when the client changes worlds: from
    /// two milliseconds per chunk, with the weight 1.
    pub fn reset(&mut self)
        ensures
            final(self).aggregated() == INITIAL_NANOS_PER_CHUNK,
            final(self).weight() == 1,
    {
        proof {
            use_type_invariant(&*self);
        }
        self.start_time = instant_now();
        self.aggregated_nanos_per_chunk = INITIAL_NANOS_PER_CHUNK;
        self.old_samples_weight = 1;
    }

    /// Marks the start of a batch: the clock is read, and the batch is
    /// timed from that reading as `batch_started_at` says. Whatever the
    /// clock says, the mean and the weight stay.
    pub fn batch_started(&mut self)
        ensures
            final(self).aggregated() == old(self).aggregated(),
            final(self).weight() == old(self).weight(),
    {
        self.batch_started_at(instant_now());
    }

    /// Marks the start of a batch at the reading `now` of the clock: the
    /// batch is timed from `now`, and the mean and the weight stay.
    pub fn batch_started_at(&mut self, now: std::time::Instant)
        ensures
            final(self).started() == now,
            final(self).aggregated() == old(self).aggregated(),
            final(self).weight() == old(self).weight(),
    {
        proof {
            use_type_invariant(&*self);
        }
        self.start_time = now;
    }

    /// Folds a batch of `batch_size` chunks that took `batch_nanos`
    /// nanoseconds into the mean. A batch without chunks changes nothing.
    /// A duration beyond what a duration can hold counts as the greatest.
    pub fn batch_finished_after(&mut self, batch_size: u32, batch_nanos: u128)
        ensures
            final(self).started() == old(self).started(),
            batch_size == 0 ==> final(self).aggregated() == old(self).aggregated()
                && final(self).weight() == old(self).weight(),
            batch_size > 0 ==> final(self).aggregated() == next_aggregate(
                old(self).aggregated(),
                old(self).weight(),
                batch_size as int,
                if batch_nanos <= MAX_DURATION_NANOS {
                    batch_nanos as int
                } else {
                    MAX_DURATION_NANOS as int
                },
            ) && final(self).weight() == next_weight(old(self).weight()),
    {
        proof {
            use_type_invariant(&*self);
        }
        if batch_size == 0 {
            return ;
        }
        let nanos = if batch_nanos <= MAX_DURATION_NANOS {
            batch_nanos
        } else {
            MAX_DURATION_NANOS
        };
        let aggregated = self.aggregated_nanos_per_chunk;
        let weight = self.old_samples_weight as u128;
        let sample = nanos / (batch_size as u128);
        let low = aggregated / 3;
        let high = aggregated * 3;
        let clamped_duration = if sample < low {
            low
        } else if sample > high {
            high
        } else {
            sample
        };
        proof {
            assert(sample <= nanos) by (nonlinear_arith)
                requires
                    sample == nanos / (batch_size as u128),
                    batch_size >= 1,
            ;
            assert(aggregated * weight <= MAX_DURATION_NANOS * 49) by (nonlinear_arith)
                requires
                    aggregated <= MAX_DURATION_NANOS,
                    weight <= 49,
            ;
            lemma_mean_between(aggregated as int, weight as int, clamped_duration as int);
        }
        let next = (aggregated * weight + clamped_duration) / (weight + 1);
        self.aggregated_nanos_per_chunk = next;
        self.old_samples_weight = if self.old_samples_weight + 1 < MAX_SAMPLES_WEIGHT {
            self.old_samples_weight + 1
        } else {
            MAX_SAMPLES_WEIGHT
        };
    }

    /// Folds the batch that began at the last start into the mean: the
    /// clock is read, and the time gone by since the start is the batch's
    /// duration. Whatever the clock says, the weight goes up by one, up to
    /// the greatest, unless the batch had no chunks; and the mean is the
    /// one that `batch_finished_after` gives for the time read.
    pub fn batch_finished(&mut self, batch_size: u32)
        ensures
            final(self).started() == old(self).started(),
            batch_size == 0 ==> final(self).aggregated() == old(self).aggregated()
                && final(self).weight() == old(self).weight(),
            batch_size > 0 ==> final(self).weight() == next_weight(old(self).weight()) && exists|
                batch_nanos: int,
            |
                0 <= batch_nanos <= MAX_DURATION_NANOS && final(self).aggregated()
                    == #[trigger] next_aggregate(
                    old(self).aggregated(),
                    old(self).weight(),
                    batch_size as int,
                    batch_nanos,
                ),
    {
        let batch_nanos = elapsed_nanos(&self.start_time);
        self.batch_finished_after(batch_size, batch_nanos);
    }
}

impl Clone for ChunkBatchInfo {
    fn clone(&self) -> (r: Self)
        ensures
            r.started() == self.started(),
            r.aggregated() == self.aggregated(),
            r.weight() == self.weight(),
    {
        proof {
            use_type_invariant(self);
        }
        ChunkBatchInfo {
            start_time: self.start_time,
            aggregated_nanos_per_chunk: self.aggregated_nanos_per_chunk,
            old_samples_weight: self.old_samples_weight,
        }
    }
}

impl Default for ChunkBatchInfo {
    /// An estimator that starts now from two milliseconds per chunk, with
    /// the weight 1.
    fn default() -> (r: Self)
        ensures
            r.aggregated() == INITIAL_NANOS_PER_CHUNK,
            r.weight() == 1,
    {
        ChunkBatchInfo {
            start_time: instant_now(),
            aggregated_nanos_per_chunk: INITIAL_NANOS_PER_CHUNK,
            old_samples_weight: 1,
        }
    }
}

/// A weighted mean lies between what it is the mean of.
pub proof fn lemma_mean_between(aggregated: int, weight: int, sample: int)
    requires
        aggregated >= 0,
        sample >= 0,
        weight >= 1,
    ensures
        aggregated <= sample ==> aggregated <= (aggregated * weight + sample) / (weight + 1)
            <= sample,
        sample <= aggregated ==> sample <= (aggregated * weight + sample) / (weight + 1)
            <= aggregated,
{
    let total = aggregated * weight + sample;
    let d = weight + 1;
    assert(total == aggregated * d + (sample - aggregated)) by (nonlinear_arith)
        requires
            total == aggregated * weight + sample,
            d == weight + 1,
    ;
    assert(total == sample * d + (aggregated - sample) * weight) by (nonlinear_arith)
        requires
            total == aggregated * weight + sample,
            d == weight + 1,
    ;
    if aggregated <= sample {
        assert(aggregated * d <= total);
        assert((aggregated - sample) * weight <= 0) by (nonlinear_arith)
            requires
                aggregated <= sample,
                weight >= 1,
        ;
        assert(total <= sample * d);
        lemma_div_bounds(total, d, aggregated, sample);
    } else {
        assert(total <= aggregated * d);
        assert((aggregated - sample) * weight >= 0) by (nonlinear_arith)
            requires
                aggregated >= sample,
                weight >= 1,
        ;
        assert(sample * d <= total);
        lemma_div_bounds(total, d, sample, aggregated);
    }
}

/// A quotient lies between two numbers whose multiples bound the dividend.
pub proof fn lemma_div_bounds(total: int, d: int, low: int, high: int)
    by (nonlinear_arith)
    requires
        d > 0,
        low * d <= total <= high * d,
    ensures
        low <= total / d <= high,
{
}

/// After a batch the running mean is within a factor of three of the
/// sample that was folded in: the time per chunk of the batch, after it
/// was brought to within a factor of three of the old mean. It is also
/// between the old mean and that sample.
pub proof fn lemma_aggregate_near_sample(
    aggregated: int,
    weight: int,
    batch_size: int,
    batch_nanos: int,
)
    requires
        aggregated >= 0,
        1 <= weight,
        batch_size >= 1,
        batch_nanos >= 0,
    ensures
        ({
            let sample = clamped_sample(aggregated, batch_size, batch_nanos);
            let next = next_aggregate(aggregated, weight, batch_size, batch_nanos);
            &&& next / 3 <= sample <= next * 3
            &&& aggregated / 3 <= next <= aggregated * 3
            &&& (aggregated <= next <= sample || sample <= next <= aggregated)
        }),
{
    let sample = clamped_sample(aggregated, batch_size, batch_nanos);
    assert(batch_nanos / batch_size >= 0) by (nonlinear_arith)
        requires
            batch_nanos >= 0,
            batch_size >= 1,
    ;
    assert(aggregated / 3 <= aggregated * 3);
    assert(aggregated / 3 <= sample <= aggregated * 3);
    lemma_mean_between(aggregated, weight, sample);
}

/// Where the time per chunk of a batch is within a factor of three of the
/// old mean, it is folded in as it is, and the new mean is within a factor
/// of three of it.
pub proof fn lemma_aggregate_near_raw_sample(
    aggregated: int,
    weight: int,
    batch_size: int,
    batch_nanos: int,
)
    requires
        aggregated >= 0,
        1 <= weight,
        batch_size >= 1,
        batch_nanos >= 0,
        aggregated / 3 <= batch_nanos / batch_size <= aggregated * 3,
    ensures
        ({
            let raw = batch_nanos / batch_size;
            let next = next_aggregate(aggregated, weight, batch_size, batch_nanos);
            next / 3 <= raw <= next * 3
        }),
{
    lemma_aggregate_near_sample(aggregated, weight, batch_size, batch_nanos);
}

/// A ring of the sizes and durations of the batches received last.
#[derive(Debug)]
pub struct ChunkReceiveSpeedAccumulator {
    batch_sizes: Vec<u32>,
    /// In milliseconds.
    batch_durations: Vec<u32>,
    index: usize,
    filled_size: usize,
}

/// The sum of the first `n` numbers of `values`.
pub open spec fn sum_first(values: Seq<u32>, n: int) -> int
    decreases n,
{
    if n <= 0 {
        0
    } else {
        sum_first(values, n - 1) + values[n - 1]
    }
}

/// The recorded duration of a batch that took `millis` milliseconds.
pub open spec fn recorded_millis(millis: int) -> int {
    clamped(millis, 0, MAX_RECORDED_MILLIS as int)
}

impl Clone for ChunkReceiveSpeedAccumulator {
    fn clone(&self) -> (r: Self)
        ensures
            r.sizes() == self.sizes(),
            r.durations() == self.durations(),
            r.next_index() == self.next_index(),
            r.filled() == self.filled(),
    {
        proof {
            use_type_invariant(self);
        }
        let batch_sizes = self.batch_sizes.clone();
        let batch_durations = self.batch_durations.clone();
        assert(batch_sizes@ =~= self.batch_sizes@);
        assert(batch_durations@ =~= self.batch_durations@);
        ChunkReceiveSpeedAccumulator {
            batch_sizes,
            batch_durations,
            index: self.index,
            filled_size: self.filled_size,
        }
    }
}

impl ChunkReceiveSpeedAccumulator {
    #[verifier::type_invariant]
    spec fn is_ring(self) -> bool {
        &&& self.batch_sizes@.len() == self.batch_durations@.len()
        &&& self.filled_size <= self.batch_sizes@.len()
        &&& self.index <= self.batch_sizes@.len()
        &&& self.batch_sizes@.len() > 0 ==> self.index < self.batch_sizes@.len()
    }

    /// The sizes recorded, by place in the ring.
    pub closed spec fn sizes(&self) -> Seq<u32> {
        self.batch_sizes@
    }

    /// The durations recorded, in milliseconds, by place in the ring.
    pub closed spec fn durations(&self) -> Seq<u32> {
        self.batch_durations@
    }

    /// The place that the next batch is recorded at.
    pub closed spec fn next_index(&self) -> int {
        self.index as int
    }

    /// The number of places that hold a batch.
    pub closed spec fn filled(&self) -> int {
        self.filled_size as int
    }

    /// A ring of `capacity` places, none of which holds a batch.
    pub fn new(capacity: usize) -> (r: Self)
        ensures
            r.sizes() == Seq::new(capacity as nat, |i: int| 0u32),
            r.durations() == Seq::new(capacity as nat, |i: int| 0u32),
            r.next_index() == 0,
            r.filled() == 0,
    {
        let mut batch_sizes: Vec<u32> = Vec::new();
        let mut batch_durations: Vec<u32> = Vec::new();
        let mut i: usize = 0;
        while i < capacity
            invariant
                i <= capacity,
                batch_sizes@ == Seq::new(i as nat, |k: int| 0u32),
                batch_durations@ == Seq::new(i as nat, |k: int| 0u32),
            decreases capacity - i,
        {
            batch_sizes.push(0);
            batch_durations.push(0);
            i = i + 1;
            proof {
                assert(batch_sizes@ =~= Seq::new(i as nat, |k: int| 0u32));
                assert(batch_durations@ =~= Seq::new(i as nat, |k: int| 0u32));
            }
        }
        ChunkReceiveSpeedAccumulator { batch_sizes, batch_durations, index: 0, filled_size: 0 }
    }

    /// Records a batch of `batch_size` chunks that took `batch_millis`
    /// milliseconds at the next place of the ring, the duration cut to
    /// 15000 at most. A ring without places records nothing.
    pub fn accumulate(&mut self, batch_size: u32, batch_millis: u128)
        ensures
            old(self).sizes().len() == 0 ==> final(self).sizes() == old(self).sizes()
                && final(self).durations() == old(self).durations()
                && final(self).next_index() == old(self).next_index()
                && final(self).filled() == old(self).filled(),
            old(self).sizes().len() > 0 ==> {
                &&& final(self).sizes() == old(self).sizes().update(
                    old(self).next_index(),
                    batch_size,
                )
                &&& final(self).durations() == old(self).durations().update(
                    old(self).next_index(),
                    recorded_millis(batch_millis as int) as u32,
                )
                &&& final(self).next_index() == (old(self).next_index() + 1) % (old(self).sizes().len() as int)
                &&& final(self).filled() == if old(self).filled() < old(self).sizes().len() {
                    old(self).filled() + 1
                } else {
                    old(self).filled()
                }
            },
    {
        proof {
            use_type_invariant(&*self);
        }
        let capacity = self.batch_sizes.len();
        if capacity == 0 {
            return ;
        }
        let millis: u32 = if batch_millis > MAX_RECORDED_MILLIS as u128 {
            MAX_RECORDED_MILLIS
        } else {
            batch_millis as u32
        };
        let at = self.index;
        let next = if at + 1 == capacity {
            0
        } else {
            at + 1
        };
        proof {
            if at + 1 == capacity {
                assert((at + 1) % (capacity as int) == 0) by (nonlinear_arith)
                    requires
                        at + 1 == capacity,
                        capacity > 0,
                ;
            } else {
                assert((at + 1) % (capacity as int) == at + 1) by (nonlinear_arith)
                    requires
                        0 <= at + 1 < capacity,
                ;
            }
        }
        let filled = if self.filled_size < capacity {
            self.filled_size + 1
        } else {
            self.filled_size
        };
        self.batch_sizes[at] = batch_size;
        self.batch_durations[at] = millis;
        self.index = next;
        self.filled_size = filled;
    }

    /// The number of chunks and the number of milliseconds of all the
    /// batches that the ring holds. The mean time per chunk is the second
    /// over the first, and zero where no chunk is held.
    pub fn totals(&self) -> (r: (u128, u128))
        ensures
            r.0 == sum_first(self.sizes(), self.filled()),
            r.1 == sum_first(self.durations(), self.filled()),
    {
        proof {
            use_type_invariant(self);
        }
        let mut total_batch_size: u128 = 0;
        let mut total_batch_duration: u128 = 0;
        let mut i: usize = 0;
        while i < self.filled_size
            invariant
                i <= self.filled_size <= self.batch_sizes@.len(),
                self.batch_sizes@.len() == self.batch_durations@.len(),
                total_batch_size == sum_first(self.batch_sizes@, i as int),
                total_batch_duration == sum_first(self.batch_durations@, i as int),
                total_batch_size <= i * 0xffff_ffff,
                total_batch_duration <= i * 0xffff_ffff,
            decreases self.filled_size - i,
        {
            total_batch_size = total_batch_size + self.batch_sizes[i] as u128;
            total_batch_duration = total_batch_duration + self.batch_durations[i] as u128;
            i = i + 1;
        }
        (total_batch_size, total_batch_duration)
    }
}

} // verus!
