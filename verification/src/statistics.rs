//! The statistics of a series of runs: the time that each run took, and how
//! many reads were made and succeeded over all of them.

use crate::runner::RunResult;
use vstd::prelude::*;

verus! {

/// The sum of the samples.
pub open spec fn total(samples: Seq<u64>) -> nat
    decreases samples.len(),
{
    if samples.len() == 0 {
        0
    } else {
        total(samples.drop_last()) + samples.last() as nat
    }
}

/// Whether `value` is the least of the samples.
pub open spec fn is_minimum(value: u64, samples: Seq<u64>) -> bool {
    &&& samples.contains(value)
    &&& forall|i: int| 0 <= i < samples.len() ==> value <= samples[i]
}

/// Whether `value` is the greatest of the samples.
pub open spec fn is_maximum(value: u64, samples: Seq<u64>) -> bool {
    &&& samples.contains(value)
    &&& forall|i: int| 0 <= i < samples.len() ==> value >= samples[i]
}

/// The mathematical content of a [`BenchmarkStatistics`].
pub struct StatisticsModel {
    /// The time that each run took, in microseconds, in the order of the runs.
    pub samples: Seq<u64>,
    /// The reads that gave their bytes, over all runs.
    pub success_count: nat,
    /// The reads that were made, over all runs.
    pub attempted_count: nat,
}

impl StatisticsModel {
    /// The statistics of no run.
    pub open spec fn empty() -> StatisticsModel {
        StatisticsModel { samples: Seq::empty(), success_count: 0, attempted_count: 0 }
    }

    /// The statistics after one more run.
    pub open spec fn after_run(self, run: RunResult) -> StatisticsModel {
        StatisticsModel {
            samples: self.samples.push(run.elapsed_micros),
            success_count: self.success_count + run.success_count as nat,
            attempted_count: self.attempted_count + run.attempted_count as nat,
        }
    }

    /// The statistics after more runs, in their order.
    pub open spec fn after_runs(self, runs: Seq<RunResult>) -> StatisticsModel
        decreases runs.len(),
    {
        if runs.len() == 0 {
            self
        } else {
            self.after_run(runs[0]).after_runs(runs.drop_first())
        }
    }

    /// The mean of the samples, rounded down; `None` where there is no sample.
    pub open spec fn average(self) -> Option<nat> {
        if self.samples.len() == 0 {
            None
        } else {
            Some(total(self.samples) / self.samples.len())
        }
    }
}

/// The time that each of the runs took, in their order.
pub open spec fn run_times(runs: Seq<RunResult>) -> Seq<u64> {
    runs.map_values(|run: RunResult| run.elapsed_micros)
}

/// The reads that gave their bytes, over all the runs.
pub open spec fn run_successes(runs: Seq<RunResult>) -> nat
    decreases runs.len(),
{
    if runs.len() == 0 {
        0
    } else {
        run_successes(runs.drop_last()) + runs.last().success_count as nat
    }
}

/// The reads that were made, over all the runs.
pub open spec fn run_attempts(runs: Seq<RunResult>) -> nat
    decreases runs.len(),
{
    if runs.len() == 0 {
        0
    } else {
        run_attempts(runs.drop_last()) + runs.last().attempted_count as nat
    }
}

/// The statistics of the given runs.
pub open spec fn statistics_of(runs: Seq<RunResult>) -> StatisticsModel {
    StatisticsModel {
        samples: run_times(runs),
        success_count: run_successes(runs),
        attempted_count: run_attempts(runs),
    }
}

/// The statistics of some runs and one more are the statistics of the runs
/// after one more run.
pub proof fn lemma_statistics_of_push(runs: Seq<RunResult>, run: RunResult)
    ensures
        statistics_of(runs.push(run)) == statistics_of(runs).after_run(run),
{
    let more = runs.push(run);
    assert(more.drop_last() =~= runs);
    assert(run_times(more) =~= run_times(runs).push(run.elapsed_micros));
}

/// The statistics of runs are what the statistics of no run become after them.
pub proof fn lemma_statistics_of_runs(runs: Seq<RunResult>)
    ensures
        statistics_of(runs) == StatisticsModel::empty().after_runs(runs),
{
    assert(run_times(Seq::<RunResult>::empty()) =~= Seq::<u64>::empty());
    lemma_after_runs_extends(Seq::empty(), runs);
    assert(Seq::<RunResult>::empty() + runs =~= runs);
}

/// Adding runs to the statistics of the runs before them gives the statistics
/// of them all.
proof fn lemma_after_runs_extends(first: Seq<RunResult>, runs: Seq<RunResult>)
    ensures
        statistics_of(first).after_runs(runs) == statistics_of(first + runs),
    decreases runs.len(),
{
    if runs.len() == 0 {
        assert(first + runs =~= first);
    } else {
        lemma_statistics_of_push(first, runs[0]);
        lemma_after_runs_extends(first.push(runs[0]), runs.drop_first());
        assert(first.push(runs[0]) + runs.drop_first() =~= first + runs);
    }
}

/// The statistics of a series of runs.
#[derive(Debug)]
pub struct BenchmarkStatistics {
    runs: Vec<RunResult>,
}

impl View for BenchmarkStatistics {
    type V = StatisticsModel;

    closed spec fn view(&self) -> StatisticsModel {
        statistics_of(self.runs@)
    }
}

impl BenchmarkStatistics {
    /// The statistics of no run.
    pub fn new() -> (statistics: BenchmarkStatistics)
        ensures
            statistics@ == StatisticsModel::empty(),
    {
        let statistics = BenchmarkStatistics { runs: Vec::new() };
        assert(run_times(statistics.runs@) =~= Seq::<u64>::empty());
        statistics
    }

    /// Takes one more run into the statistics.
    pub fn record(&mut self, run: &RunResult)
        ensures
            final(self)@ == old(self)@.after_run(*run),
    {
        proof {
            lemma_statistics_of_push(self.runs@, *run);
        }
        self.runs.push(*run);
    }

    /// The statistics of the given runs, in their order.
    pub fn from_runs(runs: &[RunResult]) -> (statistics: BenchmarkStatistics)
        ensures
            statistics@ == statistics_of(runs@),
    {
        let mut statistics = BenchmarkStatistics::new();
        let mut done: usize = 0;
        proof {
            lemma_statistics_of_runs(Seq::empty());
            assert(runs@.take(0) =~= Seq::<RunResult>::empty());
        }
        while done < runs.len()
            invariant
                done <= runs@.len(),
                statistics@ == statistics_of(runs@.take(done as int)),
            decreases runs@.len() - done,
        {
            proof {
                lemma_statistics_of_push(runs@.take(done as int), runs@[done as int]);
                assert(runs@.take(done as int).push(runs@[done as int]) =~= runs@.take(done + 1));
            }
            statistics.record(&runs[done]);
            done += 1;
        }
        assert(runs@.take(done as int) =~= runs@);
        statistics
    }

    /// The number of runs.
    pub fn run_count(&self) -> (count: usize)
        ensures
            count == self@.samples.len(),
    {
        self.runs.len()
    }

    /// The time that each run took, in microseconds.
    pub fn samples(&self) -> (samples: Vec<u64>)
        ensures
            samples@ == self@.samples,
    {
        let mut samples: Vec<u64> = Vec::new();
        let mut at: usize = 0;
        while at < self.runs.len()
            invariant
                at <= self.runs@.len(),
                samples@ == run_times(self.runs@).take(at as int),
            decreases self.runs@.len() - at,
        {
            samples.push(self.runs[at].elapsed_micros);
            at += 1;
            assert(samples@ =~= run_times(self.runs@).take(at as int));
        }
        assert(samples@ =~= run_times(self.runs@));
        samples
    }

    /// The reads that gave their bytes, over all runs.
    pub fn success_count(&self) -> (count: u128)
        ensures
            count == self@.success_count,
    {
        let mut count: u128 = 0;
        let mut at: usize = 0;
        while at < self.runs.len()
            invariant
                at <= self.runs@.len(),
                count == run_successes(self.runs@.take(at as int)),
                count <= at * 0xffff_ffff_ffff_ffff,
            decreases self.runs@.len() - at,
        {
            proof {
                let next = self.runs@.take(at + 1);
                assert(next.drop_last() =~= self.runs@.take(at as int));
                assert(next.last() == self.runs@[at as int]);
            }
            count = count + self.runs[at].success_count as u128;
            at += 1;
        }
        assert(self.runs@.take(at as int) =~= self.runs@);
        count
    }

    /// The reads that were made, over all runs.
    pub fn attempted_count(&self) -> (count: u128)
        ensures
            count == self@.attempted_count,
    {
        let mut count: u128 = 0;
        let mut at: usize = 0;
        while at < self.runs.len()
            invariant
                at <= self.runs@.len(),
                count == run_attempts(self.runs@.take(at as int)),
                count <= at * 0xffff_ffff_ffff_ffff,
            decreases self.runs@.len() - at,
        {
            proof {
                let next = self.runs@.take(at + 1);
                assert(next.drop_last() =~= self.runs@.take(at as int));
                assert(next.last() == self.runs@[at as int]);
            }
            count = count + self.runs[at].attempted_count as u128;
            at += 1;
        }
        assert(self.runs@.take(at as int) =~= self.runs@);
        count
    }

    /// The mean time of a run, rounded down to whole microseconds; `None` where
    /// there is no run.
    pub fn average(&self) -> (mean: Option<u64>)
        ensures
            mean is Some == self@.average() is Some,
            mean is Some ==> mean.unwrap() == self@.average().unwrap(),
    {
        let count = self.runs.len();
        if count == 0 {
            return None;
        }
        let ghost times = run_times(self.runs@);
        let mut sum: u128 = 0;
        let mut at: usize = 0;
        while at < count
            invariant
                at <= count == self.runs@.len(),
                times == run_times(self.runs@),
                sum == total(times.take(at as int)),
                sum <= at * 0xffff_ffff_ffff_ffff,
            decreases count - at,
        {
            proof {
                let next = times.take(at + 1);
                assert(next.drop_last() =~= times.take(at as int));
                assert(next.last() == self.runs@[at as int].elapsed_micros);
            }
            sum = sum + self.runs[at].elapsed_micros as u128;
            at += 1;
        }
        assert(times.take(at as int) =~= times);
        let mean = sum / count as u128;
        assert(mean <= 0xffff_ffff_ffff_ffff) by (nonlinear_arith)
            requires
                mean == sum / count as u128,
                count > 0,
                sum <= count * 0xffff_ffff_ffff_ffff,
        ;
        Some(mean as u64)
    }

    /// The shortest time of a run; `None` where there is no run.
    pub fn minimum(&self) -> (least: Option<u64>)
        ensures
            least is Some == (self@.samples.len() > 0),
            least is Some ==> is_minimum(least.unwrap(), self@.samples),
    {
        if self.runs.len() == 0 {
            return None;
        }
        let ghost times = run_times(self.runs@);
        let mut least = self.runs[0].elapsed_micros;
        let mut at: usize = 1;
        assert(times[0] == least);
        while at < self.runs.len()
            invariant
                1 <= at <= self.runs@.len(),
                times == run_times(self.runs@),
                exists|i: int| 0 <= i < at && times[i] == least,
                forall|i: int| 0 <= i < at ==> least <= times[i],
            decreases self.runs@.len() - at,
        {
            if self.runs[at].elapsed_micros < least {
                least = self.runs[at].elapsed_micros;
                assert(times[at as int] == least);
            }
            at += 1;
        }
        Some(least)
    }

    /// The longest time of a run; `None` where there is no run.
    pub fn maximum(&self) -> (greatest: Option<u64>)
        ensures
            greatest is Some == (self@.samples.len() > 0),
            greatest is Some ==> is_maximum(greatest.unwrap(), self@.samples),
    {
        if self.runs.len() == 0 {
            return None;
        }
        let ghost times = run_times(self.runs@);
        let mut greatest = self.runs[0].elapsed_micros;
        let mut at: usize = 1;
        assert(times[0] == greatest);
        while at < self.runs.len()
            invariant
                1 <= at <= self.runs@.len(),
                times == run_times(self.runs@),
                exists|i: int| 0 <= i < at && times[i] == greatest,
                forall|i: int| 0 <= i < at ==> greatest >= times[i],
            decreases self.runs@.len() - at,
        {
            if self.runs[at].elapsed_micros > greatest {
                greatest = self.runs[at].elapsed_micros;
                assert(times[at as int] == greatest);
            }
            at += 1;
        }
        Some(greatest)
    }
}

/// The mathematical content of a [`BenchmarkSeries`].
pub struct SeriesModel {
    /// The number of runs that the series is to have.
    pub iterations: nat,
    /// The statistics of the runs made so far.
    pub statistics: StatisticsModel,
}

impl SeriesModel {
    /// A series of `iterations` runs of which none was made yet.
    pub open spec fn begin(iterations: nat) -> SeriesModel {
        SeriesModel { iterations, statistics: StatisticsModel::empty() }
    }

    /// Whether the series has all its runs.
    pub open spec fn is_complete(self) -> bool {
        self.statistics.samples.len() >= self.iterations
    }

    /// The series after one more run; a complete series takes no further run.
    pub open spec fn after_run(self, run: RunResult) -> SeriesModel {
        if self.is_complete() {
            self
        } else {
            SeriesModel { iterations: self.iterations, statistics: self.statistics.after_run(run) }
        }
    }

    /// The series after more runs, in their order.
    pub open spec fn after_runs(self, runs: Seq<RunResult>) -> SeriesModel
        decreases runs.len(),
    {
        if runs.len() == 0 {
            self
        } else {
            self.after_run(runs[0]).after_runs(runs.drop_first())
        }
    }
}

/// A series of runs in progress: a fixed number of runs, made one after the
/// other.
#[derive(Debug)]
pub struct BenchmarkSeries {
    iterations: usize,
    statistics: BenchmarkStatistics,
}

impl View for BenchmarkSeries {
    type V = SeriesModel;

    closed spec fn view(&self) -> SeriesModel {
        SeriesModel { iterations: self.iterations as nat, statistics: self.statistics@ }
    }
}

impl BenchmarkSeries {
    /// Begins a series of `iterations` runs.
    pub fn begin(iterations: usize) -> (series: BenchmarkSeries)
        ensures
            series@ == SeriesModel::begin(iterations as nat),
    {
        BenchmarkSeries { iterations, statistics: BenchmarkStatistics::new() }
    }

    /// Whether the series has all its runs; as long as it has not, another run
    /// is due.
    pub fn is_complete(&self) -> (complete: bool)
        ensures
            complete == self@.is_complete(),
    {
        self.statistics.run_count() >= self.iterations
    }

    /// Takes the result of the run that was due. A complete series takes no
    /// further run.
    pub fn record(&mut self, run: &RunResult)
        ensures
            final(self)@ == old(self)@.after_run(*run),
    {
        if self.statistics.run_count() < self.iterations {
            self.statistics.record(run);
        }
    }

    /// The statistics of the runs made so far.
    pub fn statistics(&self) -> (statistics: &BenchmarkStatistics)
        ensures
            statistics@ == self@.statistics,
    {
        &self.statistics
    }

    /// Ends the series and hands out its statistics.
    pub fn into_statistics(self) -> (statistics: BenchmarkStatistics)
        ensures
            statistics@ == self@.statistics,
    {
        self.statistics
    }
}

/// Runs in each of which every read succeeded count as many successes as
/// reads.
pub proof fn lemma_all_runs_succeeded(runs: Seq<RunResult>)
    requires
        forall|i: int| 0 <= i < runs.len() ==> (#[trigger] runs[i]).all_succeeded(),
    ensures
        run_successes(runs) == run_attempts(runs),
    decreases runs.len(),
{
    if runs.len() > 0 {
        let front = runs.drop_last();
        assert forall|i: int| 0 <= i < front.len() implies (#[trigger] front[i]).all_succeeded() by {
            assert(front[i] == runs[i]);
        }
        lemma_all_runs_succeeded(front);
        assert(runs.last() == runs[runs.len() - 1]);
    }
}

/// A series that has room for them takes every run that it is given.
pub proof fn lemma_series_progress(series: SeriesModel, runs: Seq<RunResult>)
    requires
        series.statistics.samples.len() + runs.len() <= series.iterations,
    ensures
        series.after_runs(runs).iterations == series.iterations,
        series.after_runs(runs).statistics == series.statistics.after_runs(runs),
    decreases runs.len(),
{
    if runs.len() > 0 {
        lemma_series_progress(series.after_run(runs[0]), runs.drop_first());
    }
}

/// A series that is given as many runs as it is to have is complete and holds
/// the statistics of these runs: one sample for each run, the time that the run
/// took. Where every read of every run succeeded, the statistics count as many
/// successes as reads.
pub proof fn lemma_whole_series(runs: Seq<RunResult>)
    ensures
        ({
            let series = SeriesModel::begin(runs.len()).after_runs(runs);
            &&& series.is_complete()
            &&& series.statistics == statistics_of(runs)
            &&& series.statistics.samples.len() == runs.len()
            &&& forall|i: int|
                0 <= i < runs.len() ==> series.statistics.samples[i] == (
                #[trigger] runs[i]).elapsed_micros
            &&& (forall|i: int| 0 <= i < runs.len() ==> (#[trigger] runs[i]).all_succeeded())
                ==> series.statistics.success_count == series.statistics.attempted_count
        }),
{
    lemma_series_progress(SeriesModel::begin(runs.len()), runs);
    lemma_statistics_of_runs(runs);
    if forall|i: int| 0 <= i < runs.len() ==> (#[trigger] runs[i]).all_succeeded() {
        lemma_all_runs_succeeded(runs);
    }
}

} // verus!
