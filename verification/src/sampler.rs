//! The addresses at which a region is read: a fixed number of them for each
//! heap region, evenly spaced from its start.

use crate::region::{region_models, MemoryRegion, RegionModel, HEAP_LABEL};
use vstd::prelude::*;

verus! {

/// How many addresses are taken from one region.
pub const SAMPLES_PER_REGION: u64 = 100;

/// How many bytes are read at each address.
pub const SAMPLE_SIZE: usize = 8;

/// One read to make: where, and how many bytes.
#[derive(Clone, Copy, Debug, PartialEq, Eq, Structural)]
pub struct SampleAddress {
    pub address: u64,
    pub size: usize,
}

/// The number of addresses in a region; a region whose end does not lie above
/// its start has none.
pub open spec fn region_span(region: RegionModel) -> nat {
    if region.start < region.end {
        (region.end - region.start) as nat
    } else {
        0
    }
}

/// The distance between two neighbouring samples of a region.
pub open spec fn sample_step(region: RegionModel) -> nat {
    region_span(region) / (SAMPLES_PER_REGION as nat)
}

/// Whether samples are taken from a region: it is a heap region and it is not
/// empty.
pub open spec fn is_sampled(region: RegionModel) -> bool {
    region.is_heap() && region_span(region) > 0
}

/// The `index`-th sample of a region.
pub open spec fn nth_sample(region: RegionModel, index: int) -> SampleAddress {
    SampleAddress {
        address: (region.start + sample_step(region) * index) as u64,
        size: SAMPLE_SIZE,
    }
}

/// The samples of one region, in rising order of address.
pub open spec fn region_samples(region: RegionModel) -> Seq<SampleAddress> {
    if is_sampled(region) {
        Seq::new(SAMPLES_PER_REGION as nat, |index: int| nth_sample(region, index))
    } else {
        Seq::empty()
    }
}

/// The samples of a sequence of regions: those of each region, in the order of
/// the regions.
pub open spec fn samples_of(regions: Seq<RegionModel>) -> Seq<SampleAddress>
    decreases regions.len(),
{
    if regions.len() == 0 {
        Seq::empty()
    } else {
        region_samples(regions[0]) + samples_of(regions.drop_first())
    }
}

/// The regions among `regions` from which samples are taken.
pub open spec fn sampled_regions(regions: Seq<RegionModel>) -> Seq<RegionModel> {
    regions.filter(|region: RegionModel| is_sampled(region))
}

/// No sample of a region lies further from its start than the region is long,
/// less one step.
pub proof fn lemma_sample_offset_bound(region: RegionModel, index: int)
    requires
        region.start < region.end,
        0 <= index < SAMPLES_PER_REGION,
    ensures
        0 <= sample_step(region) * index < region.end - region.start,
{
    let step = sample_step(region) as int;
    let span = region_span(region) as int;
    assert(0 <= step * index <= step * 99) by (nonlinear_arith)
        requires
            0 <= step,
            0 <= index <= 99,
    ;
    assert(step * 100 <= span);
}

/// What is taken from one region alone is the samples of that region.
pub proof fn lemma_samples_of_one_region(region: RegionModel)
    ensures
        samples_of(seq![region]) == region_samples(region),
{
    let rest = seq![region].drop_first();
    assert(rest.len() == 0);
    assert(samples_of(rest) =~= Seq::<SampleAddress>::empty());
    assert(region_samples(region) + samples_of(rest) =~= region_samples(region));
}

/// A heap region whose end lies above its start gets exactly a hundred samples
/// of eight bytes each. All of them lie inside the region, and the first one is
/// its start.
pub proof fn lemma_samples_of_heap_region(region: MemoryRegion)
    requires
        region@.is_heap(),
        region.end_address > region.start_address,
    ensures
        samples_of(seq![region@]) == region_samples(region@),
        region_samples(region@).len() == 100,
        region_samples(region@)[0].address == region.start_address,
        forall|index: int|
            0 <= index < 100 ==> {
                let sample = #[trigger] region_samples(region@)[index];
                &&& sample.size == 8
                &&& region.start_address <= sample.address < region.end_address
            },
{
    let model = region@;
    lemma_samples_of_one_region(model);
    assert forall|index: int| 0 <= index < 100 implies {
        let sample = #[trigger] region_samples(model)[index];
        &&& sample.size == 8
        &&& region.start_address <= sample.address < region.end_address
    } by {
        lemma_sample_offset_bound(model, index);
    }
    lemma_sample_offset_bound(model, 0);
}

/// The samples of a heap region rise by the same step from one to the next.
pub proof fn lemma_samples_evenly_spaced(region: MemoryRegion, index: int)
    requires
        region@.is_heap(),
        region.end_address > region.start_address,
        0 <= index < 99,
    ensures
        region_samples(region@)[index + 1].address - region_samples(region@)[index].address == (
        region.end_address - region.start_address) / 100,
{
    let model = region@;
    lemma_sample_offset_bound(model, index);
    lemma_sample_offset_bound(model, index + 1);
    let step = sample_step(model) as int;
    assert(step * (index + 1) == step * index + step) by (nonlinear_arith);
}

/// A region whose end does not lie above its start gets no sample, and neither
/// does a region that is not labelled as heap.
pub proof fn lemma_no_samples(region: RegionModel)
    requires
        region.end <= region.start || !region.is_heap(),
    ensures
        region_samples(region).len() == 0,
        samples_of(seq![region]).len() == 0,
{
    lemma_samples_of_one_region(region);
}

/// The samples of two runs of regions together are those of the first run,
/// followed by those of the second.
pub proof fn lemma_samples_concat(first: Seq<RegionModel>, second: Seq<RegionModel>)
    ensures
        samples_of(first + second) == samples_of(first) + samples_of(second),
    decreases first.len(),
{
    if first.len() == 0 {
        assert(first + second =~= second);
        assert(samples_of(first) + samples_of(second) =~= samples_of(second));
    } else {
        let rest = first.drop_first();
        assert((first + second).drop_first() =~= rest + second);
        assert((first + second)[0] == first[0]);
        lemma_samples_concat(rest, second);
        assert(region_samples(first[0]) + (samples_of(rest) + samples_of(second)) =~= (
        region_samples(first[0]) + samples_of(rest)) + samples_of(second));
    }
}

/// There are a hundred samples for each region from which samples are taken.
pub proof fn lemma_sample_count(regions: Seq<RegionModel>)
    ensures
        samples_of(regions).len() == 100 * sampled_regions(regions).len(),
    decreases regions.len(),
{
    let keep = |region: RegionModel| is_sampled(region);
    reveal(Seq::filter);
    if regions.len() > 0 {
        let rest = regions.drop_first();
        let single = seq![regions[0]];
        lemma_sample_count(rest);
        assert(regions =~= single + rest);
        Seq::filter_distributes_over_add(single, rest, keep);
        assert(single.drop_last() =~= Seq::<RegionModel>::empty());
        assert(single.drop_last().filter(keep) =~= Seq::<RegionModel>::empty());
        if keep(regions[0]) {
            assert(single.filter(keep) =~= single);
        } else {
            assert(single.filter(keep) =~= Seq::<RegionModel>::empty());
        }
    }
}

/// Where samples are taken from every region, there are a hundred samples for
/// each region.
pub proof fn lemma_sample_count_when_all_sampled(regions: Seq<RegionModel>)
    requires
        forall|i: int| 0 <= i < regions.len() ==> is_sampled(#[trigger] regions[i]),
    ensures
        samples_of(regions).len() == 100 * regions.len(),
    decreases regions.len(),
{
    if regions.len() > 0 {
        let rest = regions.drop_first();
        assert forall|i: int| 0 <= i < rest.len() implies is_sampled(#[trigger] rest[i]) by {
            assert(rest[i] == regions[i + 1]);
        }
        lemma_sample_count_when_all_sampled(rest);
        assert(is_sampled(regions[0]));
    }
}

/// Every sample lies inside one of the regions it was taken from, which is a
/// heap region.
pub proof fn lemma_samples_lie_in_regions(regions: Seq<MemoryRegion>, index: int)
    requires
        0 <= index < samples_of(region_models(regions)).len(),
    ensures
        samples_of(region_models(regions))[index].size == 8,
        exists|r: int|
            0 <= r < regions.len() && (#[trigger] regions[r])@.is_heap()
                && regions[r].start_address <= samples_of(region_models(regions))[index].address
                < regions[r].end_address,
    decreases regions.len(),
{
    let models = region_models(regions);
    let head = region_samples(models[0]);
    assert(models[0] == regions[0]@);
    if index < head.len() {
        lemma_samples_of_heap_region(regions[0]);
        assert(samples_of(models)[index] == head[index]);
        assert(regions[0]@.is_heap());
    } else {
        let rest = regions.drop_first();
        assert(region_models(rest) =~= models.drop_first());
        assert(samples_of(models)[index] == samples_of(region_models(rest))[index - head.len()]);
        lemma_samples_lie_in_regions(rest, index - head.len());
        let r = choose|r: int|
            0 <= r < rest.len() && (#[trigger] rest[r])@.is_heap() && rest[r].start_address
                <= samples_of(region_models(rest))[index - head.len()].address
                < rest[r].end_address;
        assert(rest[r] == regions[r + 1]);
    }
}

/// The samples of the given regions: a hundred for each heap region whose end
/// lies above its start, none for any other, in the order of the regions.
pub fn sample(regions: &[MemoryRegion]) -> (samples: Vec<SampleAddress>)
    ensures
        samples@ == samples_of(region_models(regions@)),
{
    let heap = String::from_str(HEAP_LABEL);
    let mut samples: Vec<SampleAddress> = Vec::new();
    let ghost models = region_models(regions@);
    assert(models.skip(0) =~= models);
    let mut r: usize = 0;
    while r < regions.len()
        invariant
            r <= regions@.len(),
            heap@ == HEAP_LABEL@,
            models == region_models(regions@),
            samples@ + samples_of(models.skip(r as int)) == samples_of(models),
        decreases regions@.len() - r,
    {
        let region = &regions[r];
        let ghost model = models[r as int];
        let ghost before = samples@;
        proof {
            let rest = models.skip(r as int);
            assert(rest[0] == model);
            assert(rest.drop_first() =~= models.skip(r + 1));
            assert(model == region@);
        }
        if region.label == heap && region.start_address < region.end_address {
            let step = (region.end_address - region.start_address) / SAMPLES_PER_REGION;
            let mut index: u64 = 0;
            while index < SAMPLES_PER_REGION
                invariant
                    index <= SAMPLES_PER_REGION,
                    model == region@,
                    is_sampled(model),
                    step == sample_step(model),
                    samples@ == before + region_samples(model).take(index as int),
                decreases SAMPLES_PER_REGION - index,
            {
                proof {
                    lemma_sample_offset_bound(model, index as int);
                }
                let address = region.start_address + step * index;
                samples.push(SampleAddress { address, size: SAMPLE_SIZE });
                index += 1;
                assert(samples@ =~= before + region_samples(model).take(index as int));
            }
            assert(region_samples(model).take(index as int) =~= region_samples(model));
        } else {
            assert(samples@ =~= before + region_samples(model));
        }
        assert(samples@ + samples_of(models.skip(r + 1)) =~= before + (region_samples(model)
            + samples_of(models.skip(r + 1))));
        r += 1;
    }
    assert(samples@ + Seq::<SampleAddress>::empty() =~= samples@);
    samples
}

} // verus!
