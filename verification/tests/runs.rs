use memprobe::error::ReadError;
use memprobe::reader::{classify_read, ReadOutcome};
use memprobe::runner::{RunResult, SampleRun, DEFAULT_ITERATIONS};
use memprobe::sampler::SampleAddress;
use memprobe::statistics::{BenchmarkSeries, BenchmarkStatistics};

/// A stretch of memory that starts at `base`; what lies outside it cannot be
/// read.
struct Image {
    base: u64,
    bytes: Vec<u8>,
}

impl Image {
    fn read_at(&self, address: u64, size: usize) -> Result<Vec<u8>, ReadError> {
        if address < self.base {
            return Err(ReadError::SeekFailure);
        }
        let from = (address - self.base) as usize;
        if from > self.bytes.len() {
            return Err(ReadError::SeekFailure);
        }
        let to = from.saturating_add(size).min(self.bytes.len());
        Ok(self.bytes[from..to].to_vec())
    }
}

fn run_once(image: &Image, samples: &[SampleAddress], elapsed_micros: u64) -> RunResult {
    let mut run = SampleRun::begin(samples);
    while let Some(next) = run.next_sample() {
        run.record(image.read_at(next.address, next.size));
    }
    assert!(run.is_complete());
    run.finish(elapsed_micros)
}

fn run_series(image: &Image, samples: &[SampleAddress], iterations: usize) -> BenchmarkStatistics {
    let mut series = BenchmarkSeries::begin(iterations);
    let mut clock = 0u64;
    while !series.is_complete() {
        clock += 10;
        series.record(&run_once(image, samples, clock));
    }
    series.into_statistics()
}

fn at(address: u64) -> SampleAddress {
    SampleAddress { address, size: 8 }
}

#[test]
fn read_of_the_full_size_is_a_success() {
    assert_eq!(classify_read(3, Ok(vec![1, 2, 3])), ReadOutcome::Bytes(vec![1, 2, 3]));
    assert_eq!(classify_read(0, Ok(vec![])), ReadOutcome::Bytes(vec![]));
    assert!(classify_read(8, Ok(vec![0; 8])).succeeded());
}

#[test]
fn read_of_another_size_is_a_failure() {
    assert_eq!(classify_read(8, Ok(vec![0; 7])), ReadOutcome::Failed(ReadError::ShortRead));
    assert_eq!(classify_read(8, Ok(vec![])), ReadOutcome::Failed(ReadError::ShortRead));
    assert_eq!(classify_read(8, Ok(vec![0; 9])), ReadOutcome::Failed(ReadError::Unexpected));
    assert!(!classify_read(8, Ok(vec![0; 7])).succeeded());
}

#[test]
fn failed_read_keeps_its_error() {
    for error in [
        ReadError::SeekFailure,
        ReadError::ShortRead,
        ReadError::PermissionFailure,
        ReadError::Unexpected,
    ] {
        assert_eq!(classify_read(8, Err(error)), ReadOutcome::Failed(error));
        assert!(!classify_read(8, Err(error)).succeeded());
    }
}

#[test]
fn read_past_the_end_of_what_can_be_read_fails() {
    let image = Image { base: 0x1000, bytes: vec![7; 16] };
    assert_eq!(
        classify_read(8, image.read_at(0x1000 + 8, 8)),
        ReadOutcome::Bytes(vec![7; 8])
    );
    assert_eq!(
        classify_read(8, image.read_at(0x1000 + 9, 8)),
        ReadOutcome::Failed(ReadError::ShortRead)
    );
    assert_eq!(
        classify_read(8, image.read_at(0x1000 + 16, 8)),
        ReadOutcome::Failed(ReadError::ShortRead)
    );
}

#[test]
fn run_goes_on_after_a_failed_read() {
    let image = Image { base: 0x1000, bytes: vec![0; 16] };
    let samples = [at(0x1000), at(0x100c), at(0x1008)];
    let mut run = SampleRun::begin(&samples);

    assert_eq!(run.next_sample(), Some(at(0x1000)));
    assert_eq!(run.record(image.read_at(0x1000, 8)), Some(ReadOutcome::Bytes(vec![0; 8])));
    assert_eq!(run.next_sample(), Some(at(0x100c)));
    assert_eq!(
        run.record(image.read_at(0x100c, 8)),
        Some(ReadOutcome::Failed(ReadError::ShortRead))
    );
    assert!(!run.is_complete());
    assert_eq!(run.next_sample(), Some(at(0x1008)));
    assert_eq!(run.record(image.read_at(0x1008, 8)), Some(ReadOutcome::Bytes(vec![0; 8])));
    assert!(run.is_complete());
    assert_eq!(run.next_sample(), None);

    let result = run.finish(55);
    assert_eq!(result, RunResult { success_count: 2, attempted_count: 3, elapsed_micros: 55 });
}

#[test]
fn complete_run_takes_no_further_outcome() {
    let samples = [at(0)];
    let mut run = SampleRun::begin(&samples);
    assert_eq!(
        run.record(Err(ReadError::PermissionFailure)),
        Some(ReadOutcome::Failed(ReadError::PermissionFailure))
    );
    assert_eq!(run.record(Ok(vec![0; 8])), None);
    assert_eq!(run.record(Ok(vec![0; 8])), None);
    assert_eq!(run.finish(1), RunResult { success_count: 0, attempted_count: 1, elapsed_micros: 1 });
}

#[test]
fn run_over_no_sample_is_complete_at_once() {
    let mut run = SampleRun::begin(&[]);
    assert!(run.is_complete());
    assert_eq!(run.next_sample(), None);
    assert_eq!(run.record(Ok(vec![])), None);
    assert_eq!(run.finish(0), RunResult { success_count: 0, attempted_count: 0, elapsed_micros: 0 });
}

#[test]
fn unfinished_run_reports_what_was_read() {
    let samples = [at(0), at(8), at(16)];
    let mut run = SampleRun::begin(&samples);
    run.record(Ok(vec![0; 8]));
    assert!(!run.is_complete());
    assert_eq!(run.finish(9), RunResult { success_count: 1, attempted_count: 1, elapsed_micros: 9 });
}

#[test]
fn run_counts_only_reads_of_the_size_of_the_sample() {
    let samples = [
        SampleAddress { address: 0, size: 8 },
        SampleAddress { address: 8, size: 4 },
        SampleAddress { address: 16, size: 4 },
        SampleAddress { address: 24, size: 0 },
    ];
    let mut run = SampleRun::begin(&samples);
    assert_eq!(run.record(Ok(vec![1; 4])), Some(ReadOutcome::Failed(ReadError::ShortRead)));
    assert_eq!(run.record(Ok(vec![2; 4])), Some(ReadOutcome::Bytes(vec![2; 4])));
    assert_eq!(run.record(Ok(vec![3; 8])), Some(ReadOutcome::Failed(ReadError::Unexpected)));
    assert_eq!(run.record(Ok(vec![])), Some(ReadOutcome::Bytes(vec![])));
    assert_eq!(run.finish(3), RunResult { success_count: 2, attempted_count: 4, elapsed_micros: 3 });
}

#[test]
fn run_whose_handle_did_not_open_reports_nothing() {
    assert_eq!(
        RunResult::open_failed(),
        RunResult { success_count: 0, attempted_count: 0, elapsed_micros: 0 }
    );
}

#[test]
fn run_once_counts_the_reads_that_succeed() {
    let image = Image { base: 100, bytes: vec![1; 50] };
    let samples = [at(100), at(50), at(142), at(143), at(1000), at(120)];
    assert_eq!(
        run_once(&image, &samples, 7),
        RunResult { success_count: 3, attempted_count: 6, elapsed_micros: 7 }
    );
}

#[test]
fn series_of_ten_runs_in_which_every_read_succeeds() {
    let image = Image { base: 0, bytes: vec![0; 4096] };
    let samples: Vec<SampleAddress> = (0..100).map(|i| at(i * 40)).collect();
    assert_eq!(DEFAULT_ITERATIONS, 10);
    let statistics = run_series(&image, &samples, DEFAULT_ITERATIONS);
    assert_eq!(statistics.samples().len(), 10);
    assert_eq!(statistics.run_count(), 10);
    assert_eq!(statistics.success_count(), statistics.attempted_count());
    assert_eq!(statistics.attempted_count(), 1000);
    assert_eq!(statistics.samples(), vec![10, 20, 30, 40, 50, 60, 70, 80, 90, 100]);
    for elapsed in 1..=10u64 {
        let result = run_once(&image, &samples, elapsed);
        assert_eq!(result.success_count, result.attempted_count);
        assert_eq!(result.attempted_count, 100);
    }
}

#[test]
fn series_in_which_some_reads_fail() {
    let image = Image { base: 0, bytes: vec![0; 16] };
    let samples = [at(0), at(8), at(16), at(9)];
    let statistics = run_series(&image, &samples, 3);
    assert_eq!(statistics.run_count(), 3);
    assert_eq!(statistics.success_count(), 6);
    assert_eq!(statistics.attempted_count(), 12);
}

#[test]
fn complete_series_takes_no_further_run() {
    let mut series = BenchmarkSeries::begin(2);
    let run = RunResult { success_count: 1, attempted_count: 2, elapsed_micros: 5 };
    assert!(!series.is_complete());
    series.record(&run);
    assert!(!series.is_complete());
    series.record(&run);
    assert!(series.is_complete());
    series.record(&run);
    assert_eq!(series.statistics().run_count(), 2);
    assert_eq!(series.statistics().attempted_count(), 4);
    assert_eq!(series.into_statistics().samples(), vec![5, 5]);
}

#[test]
fn series_of_no_run_is_complete_at_once() {
    let mut series = BenchmarkSeries::begin(0);
    assert!(series.is_complete());
    series.record(&RunResult { success_count: 1, attempted_count: 1, elapsed_micros: 1 });
    assert_eq!(series.into_statistics().run_count(), 0);
}
