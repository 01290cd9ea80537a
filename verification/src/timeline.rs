//! The timeline that a run of jobs leaves in a thread's sample table.
//!
//! Jobs follow each other without gaps on one clock that counts whole seconds
//! from zero. Each job leaves two samples with the same stack: one at its
//! start, weighted with its duration, and one at its end, which carries the
//! duration as CPU time.

use crate::sink::{FrameRequest, Sample};
use fxprof_processed_profile::StackHandle;
use vstd::prelude::*;

verus! {

/// The longest job that a sample's weight can hold, in seconds.
pub const MAX_DURATION: u64 = 0x7FFF_FFFF;

/// Nanoseconds in a second: the unit of sample timestamps.
pub const NANOS_PER_SECOND: u64 = 1_000_000_000;

/// Microseconds in a second: the unit of a sample's CPU time.
pub const MICROS_PER_SECOND: u64 = 1_000_000;

/// One job on the timeline: the frames that were requested for it, outermost
/// first, the stack that the profile answered with, and how long the job ran,
/// in seconds.
pub struct Job {
    pub frames: Seq<FrameRequest>,
    pub stack: StackHandle,
    pub duration: u64,
}

/// The time that a run of jobs takes, in seconds: the sum of the durations.
pub open spec fn elapsed(jobs: Seq<Job>) -> nat
    decreases jobs.len(),
{
    if jobs.len() == 0 {
        0
    } else {
        elapsed(jobs.drop_last()) + jobs.last().duration as nat
    }
}

/// The timestamp of a point `seconds` after the start. A sample holds it in
/// nanoseconds, that is 1000 milliseconds for every second; a point too late
/// for 64 bits is held as the latest timestamp there is.
pub open spec fn timestamp_nanos(seconds: nat) -> u64 {
    if seconds * NANOS_PER_SECOND <= u64::MAX {
        (seconds * NANOS_PER_SECOND) as u64
    } else {
        u64::MAX
    }
}

/// The sample at the start of a job: it stands for the whole span, so it
/// carries the duration as its weight and no CPU time.
pub open spec fn span_sample(start: nat, job: Job) -> Sample {
    Sample {
        nanos: timestamp_nanos(start),
        stack: Some(job.stack),
        cpu_micros: 0,
        weight: job.duration as i32,
    }
}

/// The sample at the end of a job: it marks the instant by which the job's
/// duration has been spent as CPU time, 1000 milliseconds for every second,
/// held in microseconds. It carries no weight.
pub open spec fn marker_sample(end: nat, job: Job) -> Sample {
    Sample {
        nanos: timestamp_nanos(end),
        stack: Some(job.stack),
        cpu_micros: (job.duration * MICROS_PER_SECOND) as u64,
        weight: 0,
    }
}

/// The samples that a run of jobs leaves, in the order in which they are
/// appended: for each job in turn its span sample, then its marker sample.
pub open spec fn timeline(jobs: Seq<Job>) -> Seq<Sample>
    decreases jobs.len(),
{
    if jobs.len() == 0 {
        Seq::empty()
    } else {
        let earlier = jobs.drop_last();
        let job = jobs.last();
        timeline(earlier).push(span_sample(elapsed(earlier), job)).push(
            marker_sample(elapsed(earlier) + job.duration as nat, job),
        )
    }
}

/// No job on the timeline is longer than a sample's weight can hold.
pub open spec fn durations_fit(jobs: Seq<Job>) -> bool {
    forall|k: int| 0 <= k < jobs.len() ==> (#[trigger] jobs[k]).duration <= MAX_DURATION
}

/// Computes the timestamp of a point `seconds` after the start.
pub fn timestamp_of(seconds: u64) -> (nanos: u64)
    ensures
        nanos == timestamp_nanos(seconds as nat),
{
    if seconds > u64::MAX / NANOS_PER_SECOND {
        u64::MAX
    } else {
        seconds * NANOS_PER_SECOND
    }
}

/// A later point has no earlier timestamp.
pub proof fn lemma_timestamp_monotonic(earlier: nat, later: nat)
    requires
        earlier <= later,
    ensures
        timestamp_nanos(earlier) <= timestamp_nanos(later),
{
    assert(earlier * NANOS_PER_SECOND <= later * NANOS_PER_SECOND) by (nonlinear_arith)
        requires
            earlier <= later,
    ;
}

/// Appending a job adds its duration to the elapsed time.
pub proof fn lemma_elapsed_push(jobs: Seq<Job>, job: Job)
    ensures
        elapsed(jobs.push(job)) == elapsed(jobs) + job.duration,
{
    assert(jobs.push(job).drop_last() == jobs);
}

/// The time elapsed after the first `count` jobs grows with `count`.
pub proof fn lemma_elapsed_monotonic(jobs: Seq<Job>, fewer: int, more: int)
    requires
        0 <= fewer <= more <= jobs.len(),
    ensures
        elapsed(jobs.take(fewer)) <= elapsed(jobs.take(more)),
    decreases more - fewer,
{
    if fewer < more {
        lemma_elapsed_monotonic(jobs, fewer, more - 1);
        assert(jobs.take(more).drop_last() == jobs.take(more - 1));
    }
}

/// Every job leaves exactly two samples.
pub proof fn lemma_timeline_len(jobs: Seq<Job>)
    ensures
        timeline(jobs).len() == 2 * jobs.len(),
    decreases jobs.len(),
{
    if jobs.len() > 0 {
        lemma_timeline_len(jobs.drop_last());
    }
}

/// The two samples of the job at `index`: they stand next to each other, share
/// the job's stack, and are the span sample at the time elapsed before the job
/// and the marker sample at the time elapsed with it.
pub proof fn lemma_timeline_pair(jobs: Seq<Job>, index: int)
    requires
        0 <= index < jobs.len(),
    ensures
        timeline(jobs).len() == 2 * jobs.len(),
        timeline(jobs)[2 * index] == span_sample(elapsed(jobs.take(index)), jobs[index]),
        timeline(jobs)[2 * index + 1] == marker_sample(
            elapsed(jobs.take(index + 1)),
            jobs[index],
        ),
        elapsed(jobs.take(index + 1)) == elapsed(jobs.take(index)) + jobs[index].duration,
    decreases jobs.len(),
{
    lemma_timeline_len(jobs);
    let earlier = jobs.drop_last();
    lemma_timeline_len(earlier);
    if index == jobs.len() - 1 {
        assert(jobs.take(index + 1) == jobs);
    } else {
        lemma_timeline_pair(earlier, index);
        assert(earlier.take(index) == jobs.take(index));
        assert(earlier.take(index + 1) == jobs.take(index + 1));
    }
}

/// The timeline is ordered: no sample has an earlier timestamp than one that
/// was appended before it.
pub proof fn lemma_timeline_ordered(jobs: Seq<Job>)
    ensures
        forall|a: int, b: int|
            0 <= a <= b < timeline(jobs).len() ==> #[trigger] timeline(jobs)[a].nanos
                <= #[trigger] timeline(jobs)[b].nanos,
{
    lemma_timeline_len(jobs);
    assert forall|a: int, b: int| 0 <= a <= b < timeline(jobs).len() implies #[trigger] timeline(
        jobs,
    )[a].nanos <= #[trigger] timeline(jobs)[b].nanos by {
        let first = a / 2;
        let second = b / 2;
        lemma_timeline_pair(jobs, first);
        lemma_timeline_pair(jobs, second);
        lemma_timestamp_monotonic(elapsed(jobs.take(first)), elapsed(jobs.take(first + 1)));
        lemma_timestamp_monotonic(elapsed(jobs.take(second)), elapsed(jobs.take(second + 1)));
        if first < second {
            lemma_elapsed_monotonic(jobs, first + 1, second);
            lemma_timestamp_monotonic(elapsed(jobs.take(first + 1)), elapsed(jobs.take(second)));
        }
    }
}

/// The timeline spans the elapsed time: its first sample stands at zero, its
/// last at the sum of all durations.
pub proof fn lemma_timeline_span(jobs: Seq<Job>)
    requires
        jobs.len() > 0,
    ensures
        timeline(jobs).len() > 0,
        timeline(jobs).first().nanos == 0,
        timeline(jobs).last().nanos == timestamp_nanos(elapsed(jobs)),
{
    lemma_timeline_pair(jobs, 0);
    lemma_timeline_pair(jobs, jobs.len() - 1);
}

/// The sum of the weights of the samples.
pub open spec fn total_weight(samples: Seq<Sample>) -> int
    decreases samples.len(),
{
    if samples.len() == 0 {
        0
    } else {
        total_weight(samples.drop_last()) + samples.last().weight
    }
}

/// Conservation: the weights on the timeline add up to the sum of the
/// durations, as long as every duration fits a weight.
pub proof fn lemma_timeline_weight(jobs: Seq<Job>)
    requires
        durations_fit(jobs),
    ensures
        total_weight(timeline(jobs)) == elapsed(jobs),
    decreases jobs.len(),
{
    if jobs.len() > 0 {
        let earlier = jobs.drop_last();
        let job = jobs.last();
        assert(durations_fit(earlier));
        lemma_timeline_weight(earlier);
        let with_span = timeline(earlier).push(span_sample(elapsed(earlier), job));
        assert(timeline(jobs).drop_last() == with_span);
        assert(with_span.drop_last() == timeline(earlier));
        assert(total_weight(timeline(jobs)) == total_weight(with_span) + 0);
    }
}

} // verus!
