use memprobe::benchmark::{get_heap_addresses, heap_samples};
use memprobe::error::BenchmarkError;
use memprobe::region::{parse_regions, MemoryRegion};
use memprobe::sampler::{sample, SampleAddress, SAMPLES_PER_REGION, SAMPLE_SIZE};

fn region(label: &str, start_address: u64, end_address: u64) -> MemoryRegion {
    MemoryRegion { label: String::from(label), start_address, end_address }
}

#[test]
fn sampling_constants() {
    assert_eq!(SAMPLES_PER_REGION, 100);
    assert_eq!(SAMPLE_SIZE, 8);
}

#[test]
fn heap_region_gets_a_hundred_samples_inside_it() {
    for (start, end) in [
        (0x1000u64, 0x2000u64),
        (0, 1),
        (0, 99),
        (0, 100),
        (0, 101),
        (5, 205),
        (0x7f0000000000, 0x7f0000001000),
        (0, u64::MAX),
        (u64::MAX - 1, u64::MAX),
        (u64::MAX - 1000, u64::MAX),
    ] {
        let samples = sample(&[region("heap", start, end)]);
        assert_eq!(samples.len(), 100);
        for s in &samples {
            assert_eq!(s.size, 8);
            assert!(start <= s.address && s.address < end);
        }
    }
}

#[test]
fn samples_are_evenly_spaced_from_the_start() {
    let samples = sample(&[region("heap", 0x1000, 0x2000)]);
    assert_eq!(samples[0], SampleAddress { address: 0x1000, size: 8 });
    assert_eq!(samples[1], SampleAddress { address: 0x1000 + 40, size: 8 });
    assert_eq!(samples[50], SampleAddress { address: 0x1000 + 2000, size: 8 });
    assert_eq!(samples[99], SampleAddress { address: 0x1000 + 3960, size: 8 });
    for (i, s) in samples.iter().enumerate() {
        assert_eq!(s.address, 0x1000 + (0x1000 / 100) * i as u64);
    }
}

#[test]
fn region_shorter_than_a_hundred_addresses_is_sampled_at_its_start() {
    let samples = sample(&[region("heap", 500, 599)]);
    assert_eq!(samples.len(), 100);
    assert!(samples.iter().all(|s| s.address == 500));
}

#[test]
fn empty_region_gets_no_sample() {
    assert_eq!(sample(&[region("heap", 0x1000, 0x1000)]), vec![]);
    assert_eq!(sample(&[region("heap", 0, 0)]), vec![]);
    assert_eq!(sample(&[region("heap", u64::MAX, u64::MAX)]), vec![]);
}

#[test]
fn region_that_ends_below_its_start_gets_no_sample() {
    assert_eq!(sample(&[region("heap", 0x2000, 0x1000)]), vec![]);
}

#[test]
fn only_heap_regions_are_sampled() {
    assert_eq!(sample(&[region("stack", 0x1000, 0x2000)]), vec![]);
    assert_eq!(sample(&[region("", 0x1000, 0x2000)]), vec![]);
    assert_eq!(sample(&[region("[heap]", 0x1000, 0x2000)]), vec![]);
    assert_eq!(sample(&[region("Heap", 0x1000, 0x2000)]), vec![]);
}

#[test]
fn no_region_no_sample() {
    assert_eq!(sample(&[]), vec![]);
}

#[test]
fn samples_of_several_regions_follow_one_another() {
    let first = region("heap", 0x1000, 0x2000);
    let empty = region("heap", 0x5000, 0x5000);
    let other = region("stack", 0x6000, 0x7000);
    let second = region("heap", 0x9000, 0x9064);
    let samples = sample(&[first.clone(), empty, other, second.clone()]);
    assert_eq!(samples.len(), 200);
    assert_eq!(samples[..100], sample(&[first])[..]);
    assert_eq!(samples[100..], sample(&[second])[..]);
    assert_eq!(samples[100].address, 0x9000);
    assert_eq!(samples[199].address, 0x9000 + 99);
}

#[test]
fn one_heap_line_end_to_end() {
    let map = "7f0000000000-7f0000001000 rw-p 00000000 00:00 0 [heap]";
    let samples = sample(&parse_regions(map));
    assert_eq!(samples.len(), 100);
    let least = samples.iter().map(|s| s.address).min().unwrap();
    let greatest = samples.iter().map(|s| s.address).max().unwrap();
    assert_eq!(least, 0x7f0000000000);
    assert!(greatest < 0x7f0000001000);
    assert_eq!(greatest, 0x7f0000000000 + 40 * 99);
    assert_eq!(heap_samples(Some(map)), Ok(samples));
}

#[test]
fn map_without_samples_is_an_error() {
    assert_eq!(heap_samples(None), Err(BenchmarkError::NoAddressesSampled));
    assert_eq!(heap_samples(Some("")), Err(BenchmarkError::NoAddressesSampled));
    assert_eq!(
        heap_samples(Some("1000-2000 rw-p 00000000 00:00 0 [stack]\n")),
        Err(BenchmarkError::NoAddressesSampled)
    );
    assert_eq!(heap_samples(Some("1000-1000 [heap]\n")), Err(BenchmarkError::NoAddressesSampled));
    assert_eq!(heap_samples(Some("junk [heap]\n")), Err(BenchmarkError::NoAddressesSampled));
}

#[test]
fn map_with_two_heap_lines_gives_two_hundred_samples() {
    let map = "1000-2000 [heap]\n3000-4000 [stack]\n5000-6000 [heap]\n";
    let samples = heap_samples(Some(map)).unwrap();
    assert_eq!(samples.len(), 200);
    assert_eq!(samples[0].address, 0x1000);
    assert_eq!(samples[100].address, 0x5000);
}

#[test]
fn heap_addresses_of_a_map() {
    let map = "1000-2000 [heap]\n3000-4000 [stack]\n";
    assert_eq!(get_heap_addresses(Some(map)), sample(&parse_regions(map)));
    assert_eq!(get_heap_addresses(Some(map)).len(), 100);
    assert_eq!(get_heap_addresses(Some("")), vec![]);
    assert_eq!(get_heap_addresses(None), vec![]);
}
