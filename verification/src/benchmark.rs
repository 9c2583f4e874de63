//! From the region map of a process to the reads that a benchmark makes.

use crate::error::BenchmarkError;
use crate::region::{
    lemma_region_count, lemma_retained_regions_are_well_formed, lines, read_regions, regions_of,
    yielding_lines, RegionModel,
};
use crate::sampler::{
    is_sampled, lemma_sample_count_when_all_sampled, sample, samples_of, SampleAddress,
};
use vstd::prelude::*;

verus! {

/// The regions of a region map that may be missing; a missing map has none.
pub open spec fn mapped_regions(map: Option<Seq<char>>) -> Seq<RegionModel> {
    match map {
        Some(text) => regions_of(text),
        None => Seq::empty(),
    }
}

/// The characters of a region map that may be missing.
pub open spec fn map_text(map: Option<&str>) -> Option<Seq<char>> {
    match map {
        Some(text) => Some(text@),
        None => None,
    }
}

/// A region map gives a hundred samples for each of its lines that holds the
/// heap marker and starts with a range that reads and is not empty.
pub proof fn lemma_samples_of_map(text: Seq<char>)
    ensures
        samples_of(regions_of(text)).len() == 100 * yielding_lines(lines(text)).len(),
{
    let regions = regions_of(text);
    assert forall|i: int| 0 <= i < regions.len() implies is_sampled(#[trigger] regions[i]) by {
        lemma_retained_regions_are_well_formed(lines(text), i);
    }
    lemma_sample_count_when_all_sampled(regions);
    lemma_region_count(text);
}

/// The addresses to read on the heap of a process, from the text of its region
/// map; `None` stands for a map that could not be read and gives no address.
pub fn get_heap_addresses(map: Option<&str>) -> (samples: Vec<SampleAddress>)
    ensures
        samples@ == samples_of(mapped_regions(map_text(map))),
{
    let regions = read_regions(map);
    sample(regions.as_slice())
}

/// The samples of the heap regions of a region map, `None` standing for a map
/// that could not be read. A benchmark needs something to read: where the map
/// gives no sample, there is [`BenchmarkError::NoAddressesSampled`] in their
/// place.
pub fn heap_samples(map: Option<&str>) -> (planned: Result<Vec<SampleAddress>, BenchmarkError>)
    ensures
        match planned {
            Ok(samples) => samples@.len() > 0 && samples@ == samples_of(
                mapped_regions(map_text(map)),
            ),
            Err(error) => error == BenchmarkError::NoAddressesSampled && samples_of(
                mapped_regions(map_text(map)),
            ).len() == 0,
        },
{
    let samples = get_heap_addresses(map);
    if samples.len() == 0 {
        Err(BenchmarkError::NoAddressesSampled)
    } else {
        Ok(samples)
    }
}

} // verus!
