//! One timed run over a set of samples.
//!
//! A run reads every sample once, in order, whatever the reads come to. The
//! reads and the clock belong to the caller: [`SampleRun`] says which sample is
//! next, holds each read against what was asked for and counts the outcomes.

use crate::error::ReadError;
use crate::reader::{classify_read, outcome_of, ReadOutcome};
use crate::sampler::SampleAddress;
use vstd::prelude::*;

verus! {

/// How many runs a series has unless the caller says otherwise.
pub const DEFAULT_ITERATIONS: usize = 10;

/// What one run came to.
#[derive(Clone, Copy, Debug, PartialEq, Eq, Structural)]
pub struct RunResult {
    /// The reads that gave their bytes.
    pub success_count: usize,
    /// The reads that were made.
    pub attempted_count: usize,
    /// The time that the whole run took, in microseconds.
    pub elapsed_micros: u64,
}

impl RunResult {
    /// The result of a run whose handle could not be opened: no read was made
    /// and no time is reported.
    pub fn open_failed() -> (result: RunResult)
        ensures
            result == (RunResult { success_count: 0, attempted_count: 0, elapsed_micros: 0 }),
    {
        RunResult { success_count: 0, attempted_count: 0, elapsed_micros: 0 }
    }

    /// Whether every read of the run gave its bytes.
    pub open spec fn all_succeeded(self) -> bool {
        self.success_count == self.attempted_count
    }
}

/// The mathematical content of a [`SampleRun`]: the samples to read, how many
/// of them were read, and how many of those reads gave their bytes.
pub struct RunModel {
    pub samples: Seq<SampleAddress>,
    pub attempted: nat,
    pub successes: nat,
}

impl RunModel {
    /// A run over `samples` of which nothing was read yet.
    pub open spec fn begin(samples: Seq<SampleAddress>) -> RunModel {
        RunModel { samples, attempted: 0, successes: 0 }
    }

    /// Whether every sample was read.
    pub open spec fn is_complete(self) -> bool {
        self.attempted >= self.samples.len()
    }

    /// The sample to read next.
    pub open spec fn next_sample(self) -> Option<SampleAddress> {
        if self.attempted < self.samples.len() {
            Some(self.samples[self.attempted as int])
        } else {
            None
        }
    }

    /// The run after the read of its next sample succeeded or failed: the run
    /// moves on to the following sample either way, and only a success is
    /// counted as one. A complete run stays as it is.
    pub open spec fn after(self, success: bool) -> RunModel {
        if self.is_complete() {
            self
        } else {
            RunModel {
                samples: self.samples,
                attempted: self.attempted + 1,
                successes: if success {
                    self.successes + 1
                } else {
                    self.successes
                },
            }
        }
    }

    /// The outcome of the read of the next sample that returned `raw`: the
    /// bytes count only if they are as many as the sample asks for.
    pub open spec fn outcome_of_read(self, raw: Result<Vec<u8>, ReadError>) -> ReadOutcome
        recommends
            !self.is_complete(),
    {
        outcome_of(self.samples[self.attempted as int].size as nat, raw)
    }

    /// The run after the read of its next sample returned `raw`.
    pub open spec fn after_read(self, raw: Result<Vec<u8>, ReadError>) -> RunModel {
        self.after(self.outcome_of_read(raw).is_success())
    }

    /// The run after a sequence of reads, each a success or a failure.
    pub open spec fn after_all(self, reads: Seq<bool>) -> RunModel
        decreases reads.len(),
    {
        if reads.len() == 0 {
            self
        } else {
            self.after(reads[0]).after_all(reads.drop_first())
        }
    }
}

/// How many of `reads` succeeded.
pub open spec fn success_total(reads: Seq<bool>) -> nat {
    reads.filter(|success: bool| success).len()
}

/// A run in progress.
pub struct SampleRun<'a> {
    samples: &'a [SampleAddress],
    attempted: usize,
    successes: usize,
}

impl<'a> View for SampleRun<'a> {
    type V = RunModel;

    closed spec fn view(&self) -> RunModel {
        RunModel {
            samples: self.samples@,
            attempted: self.attempted as nat,
            successes: self.successes as nat,
        }
    }
}

impl<'a> SampleRun<'a> {
    #[verifier::type_invariant]
    spec fn counts_in_order(self) -> bool {
        self.successes <= self.attempted <= self.samples@.len()
    }

    /// Begins a run over `samples`.
    pub fn begin(samples: &'a [SampleAddress]) -> (run: SampleRun<'a>)
        ensures
            run@ == RunModel::begin(samples@),
    {
        SampleRun { samples, attempted: 0, successes: 0 }
    }

    /// The sample to read next; `None` once every sample was read.
    pub fn next_sample(&self) -> (next: Option<SampleAddress>)
        ensures
            next == self@.next_sample(),
    {
        proof {
            use_type_invariant(self);
        }
        if self.attempted < self.samples.len() {
            Some(self.samples[self.attempted])
        } else {
            None
        }
    }

    /// Takes what the read of the next sample returned and hands out what it
    /// came to. The read is a success only if it returned exactly the bytes
    /// that the sample asks for; any other read is counted as made and failed,
    /// and the run goes on to the following sample. Once every sample was
    /// read, nothing changes and there is no outcome.
    pub fn record(&mut self, raw: Result<Vec<u8>, ReadError>) -> (outcome: Option<ReadOutcome>)
        ensures
            final(self)@ == (if old(self)@.is_complete() {
                old(self)@
            } else {
                old(self)@.after_read(raw)
            }),
            outcome == (if old(self)@.is_complete() {
                None
            } else {
                Some(old(self)@.outcome_of_read(raw))
            }),
    {
        proof {
            use_type_invariant(&*self);
        }
        if self.attempted < self.samples.len() {
            let outcome = classify_read(self.samples[self.attempted].size, raw);
            self.attempted = self.attempted + 1;
            if outcome.succeeded() {
                self.successes = self.successes + 1;
            }
            Some(outcome)
        } else {
            None
        }
    }

    /// Whether every sample was read. A run never counts more successes than
    /// reads, nor more reads than it has samples.
    pub fn is_complete(&self) -> (complete: bool)
        ensures
            complete == self@.is_complete(),
            self@.successes <= self@.attempted <= self@.samples.len(),
    {
        proof {
            use_type_invariant(self);
        }
        self.attempted >= self.samples.len()
    }

    /// Ends the run, which took `elapsed_micros` microseconds.
    pub fn finish(self, elapsed_micros: u64) -> (result: RunResult)
        ensures
            result.success_count == self@.successes,
            result.attempted_count == self@.attempted,
            result.elapsed_micros == elapsed_micros,
            result.success_count <= result.attempted_count <= self@.samples.len(),
    {
        proof {
            use_type_invariant(&self);
        }
        RunResult {
            success_count: self.successes,
            attempted_count: self.attempted,
            elapsed_micros,
        }
    }
}

/// Where a run stands after some reads of a run that was not complete before.
pub proof fn lemma_run_progress(run: RunModel, reads: Seq<bool>)
    requires
        run.successes <= run.attempted,
        run.attempted + reads.len() <= run.samples.len(),
    ensures
        run.after_all(reads).samples == run.samples,
        run.after_all(reads).attempted == run.attempted + reads.len(),
        run.after_all(reads).successes == run.successes + success_total(reads),
    decreases reads.len(),
{
    let keep = |success: bool| success;
    reveal(Seq::filter);
    if reads.len() > 0 {
        let rest = reads.drop_first();
        let single = seq![reads[0]];
        lemma_run_progress(run.after(reads[0]), rest);
        assert(reads =~= single + rest);
        Seq::filter_distributes_over_add(single, rest, keep);
        assert(single.drop_last() =~= Seq::<bool>::empty());
        assert(single.drop_last().filter(keep) =~= Seq::<bool>::empty());
        if reads[0] {
            assert(single.filter(keep) =~= single);
        } else {
            assert(single.filter(keep) =~= Seq::<bool>::empty());
        }
    }
}

/// A run that is given one outcome for each of its samples reads them all, and
/// counts as successes the reads that succeeded.
pub proof fn lemma_whole_run(samples: Seq<SampleAddress>, reads: Seq<bool>)
    requires
        reads.len() == samples.len(),
    ensures
        RunModel::begin(samples).after_all(reads).is_complete(),
        RunModel::begin(samples).after_all(reads).attempted == samples.len(),
        RunModel::begin(samples).after_all(reads).successes == success_total(reads),
{
    lemma_run_progress(RunModel::begin(samples), reads);
}

/// A failed read does not end the run: the run moves on to the following
/// sample, and its count of successes stays where it was.
pub proof fn lemma_failed_read_is_passed_over(run: RunModel)
    requires
        !run.is_complete(),
    ensures
        run.after(false).successes == run.successes,
        run.after(false).attempted == run.attempted + 1,
        run.after(false).next_sample() == if run.attempted + 1 < run.samples.len() {
            Some(run.samples[run.attempted + 1 as int])
        } else {
            None
        },
{
}

/// A read that returns fewer bytes than were asked for is a failed read, and
/// the run passes over it as over any other: it moves on to the following
/// sample without counting a success.
pub proof fn lemma_short_read_is_passed_over(run: RunModel, bytes: Vec<u8>)
    requires
        !run.is_complete(),
        bytes@.len() < run.samples[run.attempted as int].size,
    ensures
        run.outcome_of_read(Ok(bytes)) == ReadOutcome::Failed(ReadError::ShortRead),
        run.after_read(Ok(bytes)).successes == run.successes,
        run.after_read(Ok(bytes)).attempted == run.attempted + 1,
        run.after_read(Ok(bytes)).next_sample() == if run.attempted + 1 < run.samples.len() {
            Some(run.samples[run.attempted + 1 as int])
        } else {
            None
        },
{
}

/// A read that failed is passed over in the same way, whatever its error.
pub proof fn lemma_failed_read_keeps_its_error(run: RunModel, error: ReadError)
    requires
        !run.is_complete(),
    ensures
        run.outcome_of_read(Err(error)) == ReadOutcome::Failed(error),
        run.after_read(Err(error)).successes == run.successes,
        run.after_read(Err(error)).attempted == run.attempted + 1,
{
}

/// A run in which every read succeeds has as many successes as samples.
pub proof fn lemma_all_reads_succeed(samples: Seq<SampleAddress>, reads: Seq<bool>)
    requires
        reads.len() == samples.len(),
        forall|i: int| 0 <= i < reads.len() ==> reads[i],
    ensures
        RunModel::begin(samples).after_all(reads).successes == samples.len(),
        RunModel::begin(samples).after_all(reads).attempted == samples.len(),
{
    lemma_whole_run(samples, reads);
    lemma_filter_keeps_all(reads);
}

/// Where every read succeeded, the successful reads are all the reads.
proof fn lemma_filter_keeps_all(reads: Seq<bool>)
    requires
        forall|i: int| 0 <= i < reads.len() ==> reads[i],
    ensures
        success_total(reads) == reads.len(),
    decreases reads.len(),
{
    reveal(Seq::filter);
    if reads.len() > 0 {
        lemma_filter_keeps_all(reads.drop_last());
    }
}

} // verus!
