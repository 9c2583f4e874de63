//! The region map of a process: one region per line of text, each line starting
//! with a `start-end` range in hexadecimal. Only heap lines are kept, and a line
//! whose range does not read, or does not end above its start, is passed over.

use crate::chars::{
    chars_of, contains, first_token, first_token_bounds, run_length, scan_run, window_contains,
    CharClass,
};
use crate::number::{parse_radix, parse_unsigned};
use vstd::prelude::*;

verus! {

/// What a line of the region map holds when it describes the heap.
pub const HEAP_MARKER: &'static str = "[heap]";

/// The label of a heap region.
pub const HEAP_LABEL: &'static str = "heap";

/// A labelled range of addresses of the process. A region is well formed when
/// its start lies below its end; every region that is read from a map is.
#[derive(Debug, PartialEq, Eq)]
pub struct MemoryRegion {
    pub label: String,
    pub start_address: u64,
    pub end_address: u64,
}

impl Clone for MemoryRegion {
    fn clone(&self) -> (copy: MemoryRegion)
        ensures
            copy@ == self@,
    {
        MemoryRegion {
            label: self.label.clone(),
            start_address: self.start_address,
            end_address: self.end_address,
        }
    }
}

/// The mathematical content of a [`MemoryRegion`].
pub struct RegionModel {
    pub label: Seq<char>,
    pub start: nat,
    pub end: nat,
}

impl RegionModel {
    /// The invariant of a region: it holds at least one address.
    pub open spec fn well_formed(self) -> bool {
        self.start < self.end
    }

    /// Whether the region is labelled as heap.
    pub open spec fn is_heap(self) -> bool {
        self.label == HEAP_LABEL@
    }
}

impl View for MemoryRegion {
    type V = RegionModel;

    open spec fn view(&self) -> RegionModel {
        RegionModel {
            label: self.label@,
            start: self.start_address as nat,
            end: self.end_address as nat,
        }
    }
}

/// The models of a sequence of regions, in order.
pub open spec fn region_models(regions: Seq<MemoryRegion>) -> Seq<RegionModel> {
    regions.map_values(|r: MemoryRegion| r@)
}

/// The model of a region that may be missing.
pub open spec fn optional_model(region: Option<MemoryRegion>) -> Option<RegionModel> {
    match region {
        Some(r) => Some(r@),
        None => None,
    }
}

/// The two ends that a `start-end` token writes in hexadecimal: the token is cut
/// at its first `-`, each part must read as a number of 64 bits, and the start
/// must lie below the end.
pub open spec fn range_of(token: Seq<char>) -> Option<(nat, nat)> {
    let dash = run_length(token, CharClass::Until('-'));
    if dash < token.len() {
        match (
            parse_unsigned(token.take(dash as int), 16, u64::MAX as nat),
            parse_unsigned(token.skip(dash + 1 as int), 16, u64::MAX as nat),
        ) {
            (Some(start), Some(end)) => if start < end {
                Some((start, end))
            } else {
                None
            },
            _ => None,
        }
    } else {
        None
    }
}

/// The region that one line of the map yields: the line must hold the heap
/// marker, and its first field must read as a range that is not empty.
pub open spec fn line_region(line: Seq<char>) -> Option<RegionModel> {
    if contains(line, HEAP_MARKER@) {
        match range_of(first_token(line)) {
            Some((start, end)) => Some(RegionModel { label: HEAP_LABEL@, start, end }),
            None => None,
        }
    } else {
        None
    }
}

/// The first line of `text`: what stands before its first line feed.
pub open spec fn first_line(text: Seq<char>) -> Seq<char> {
    text.take(run_length(text, CharClass::Until('\n')) as int)
}

/// What follows the first line of `text` and its line feed.
pub open spec fn after_first_line(text: Seq<char>) -> Seq<char> {
    let end = run_length(text, CharClass::Until('\n'));
    if end < text.len() {
        text.skip(end + 1 as int)
    } else {
        Seq::empty()
    }
}

/// The lines of `text`, cut at each line feed; a line feed at the very end
/// opens no further line.
pub open spec fn lines(text: Seq<char>) -> Seq<Seq<char>>
    decreases text.len(),
{
    if text.len() == 0 {
        Seq::empty()
    } else {
        seq![first_line(text)] + lines(after_first_line(text))
    }
}

/// The region of a line as a sequence: one region, or none.
pub open spec fn line_yield(line: Seq<char>) -> Seq<RegionModel> {
    match line_region(line) {
        Some(region) => seq![region],
        None => Seq::empty(),
    }
}

/// The regions that a sequence of lines yields, in the order of the lines.
pub open spec fn retained(lines: Seq<Seq<char>>) -> Seq<RegionModel>
    decreases lines.len(),
{
    if lines.len() == 0 {
        Seq::empty()
    } else {
        line_yield(lines[0]) + retained(lines.drop_first())
    }
}

/// The regions that the text of a region map yields.
pub open spec fn regions_of(text: Seq<char>) -> Seq<RegionModel> {
    retained(lines(text))
}

/// Whether a line yields a region.
pub open spec fn yields_region(line: Seq<char>) -> bool {
    line_region(line) is Some
}

/// The lines among `lines` that yield a region.
pub open spec fn yielding_lines(lines: Seq<Seq<char>>) -> Seq<Seq<char>> {
    lines.filter(|line: Seq<char>| yields_region(line))
}

/// Every region that is read from lines is a heap region and is well formed.
pub proof fn lemma_retained_regions_are_well_formed(lines: Seq<Seq<char>>, index: int)
    requires
        0 <= index < retained(lines).len(),
    ensures
        retained(lines)[index].well_formed(),
        retained(lines)[index].is_heap(),
    decreases lines.len(),
{
    let head = line_yield(lines[0]);
    if index >= head.len() {
        lemma_retained_regions_are_well_formed(lines.drop_first(), index - head.len());
    }
}

/// What two runs of lines yield together is what the first yields, followed by
/// what the second yields: no line changes what another line yields.
pub proof fn lemma_retained_concat(first: Seq<Seq<char>>, second: Seq<Seq<char>>)
    ensures
        retained(first + second) == retained(first) + retained(second),
    decreases first.len(),
{
    if first.len() == 0 {
        assert(first + second =~= second);
        assert(retained(first) + retained(second) =~= retained(second));
    } else {
        let rest = first.drop_first();
        assert((first + second).drop_first() =~= rest + second);
        assert((first + second)[0] == first[0]);
        lemma_retained_concat(rest, second);
        assert(line_yield(first[0]) + (retained(rest) + retained(second)) =~= (line_yield(first[0])
            + retained(rest)) + retained(second));
    }
}

/// One line alone yields what [`line_yield`] says.
pub proof fn lemma_retained_single(line: Seq<char>)
    ensures
        retained(seq![line]) == line_yield(line),
{
    let rest = seq![line].drop_first();
    assert(rest.len() == 0);
    assert(retained(rest) =~= Seq::<RegionModel>::empty());
    assert(line_yield(line) + retained(rest) =~= line_yield(line));
}

/// A line that yields no region is passed over: the lines before it and after it
/// yield what they would yield without it.
pub proof fn lemma_unreadable_line_is_skipped(
    before: Seq<Seq<char>>,
    line: Seq<char>,
    after: Seq<Seq<char>>,
)
    requires
        !yields_region(line),
    ensures
        retained(before + seq![line] + after) == retained(before + after),
{
    lemma_retained_concat(before + seq![line], after);
    lemma_retained_concat(before, seq![line]);
    lemma_retained_concat(before, after);
    lemma_retained_single(line);
    assert(retained(before) + retained(seq![line]) =~= retained(before));
}

/// A line that yields a region contributes exactly that region, between what
/// the lines before it and after it yield.
pub proof fn lemma_readable_line_is_kept(
    before: Seq<Seq<char>>,
    line: Seq<char>,
    after: Seq<Seq<char>>,
)
    requires
        yields_region(line),
    ensures
        retained(before + seq![line] + after) == retained(before) + seq![
            line_region(line).unwrap(),
        ] + retained(after),
{
    lemma_retained_concat(before + seq![line], after);
    lemma_retained_concat(before, seq![line]);
    lemma_retained_single(line);
}

/// There are as many regions as there are lines that yield one.
pub proof fn lemma_retained_count(lines: Seq<Seq<char>>)
    ensures
        retained(lines).len() == yielding_lines(lines).len(),
    decreases lines.len(),
{
    let keep = |line: Seq<char>| yields_region(line);
    if lines.len() == 0 {
        assert(lines.filter(keep).len() <= lines.len()) by {
            lines.lemma_filter_len(keep);
        }
    } else {
        let rest = lines.drop_first();
        lemma_retained_count(rest);
        assert(lines =~= seq![lines[0]] + rest);
        Seq::filter_distributes_over_add(seq![lines[0]], rest, keep);
        let single = seq![lines[0]];
        assert(single.drop_last() =~= Seq::<Seq<char>>::empty());
        reveal(Seq::filter);
        assert(single.drop_last().filter(keep) =~= Seq::<Seq<char>>::empty());
        if keep(lines[0]) {
            assert(single.filter(keep) =~= seq![lines[0]]);
        } else {
            assert(single.filter(keep) =~= Seq::<Seq<char>>::empty());
        }
    }
}

/// The lines among `lines` that hold the heap marker.
pub open spec fn heap_lines(lines: Seq<Seq<char>>) -> Seq<Seq<char>> {
    lines.filter(|line: Seq<char>| contains(line, HEAP_MARKER@))
}

/// Among lines whose heap lines all yield a region, the lines that yield a
/// region are the heap lines.
pub proof fn lemma_heap_lines_yield(lines: Seq<Seq<char>>)
    requires
        forall|i: int|
            0 <= i < lines.len() && contains(#[trigger] lines[i], HEAP_MARKER@) ==> yields_region(
                lines[i],
            ),
    ensures
        yielding_lines(lines) == heap_lines(lines),
    decreases lines.len(),
{
    reveal(Seq::filter);
    if lines.len() > 0 {
        let front = lines.drop_last();
        assert forall|i: int|
            0 <= i < front.len() && contains(#[trigger] front[i], HEAP_MARKER@) implies yields_region(
            front[i],
        ) by {
            assert(front[i] == lines[i]);
        }
        lemma_heap_lines_yield(front);
        assert(lines.last() == lines[lines.len() - 1]);
    }
}

/// The region map of a text has as many regions as the text has lines that hold
/// the heap marker and start with a range that reads and is not empty. Where
/// every heap line of the text is such a line, that is the number of its heap
/// lines.
pub proof fn lemma_region_count(text: Seq<char>)
    ensures
        regions_of(text).len() == yielding_lines(lines(text)).len(),
        (forall|i: int|
            0 <= i < lines(text).len() && contains(#[trigger] lines(text)[i], HEAP_MARKER@)
                ==> yields_region(lines(text)[i])) ==> regions_of(text).len() == heap_lines(
            lines(text),
        ).len(),
{
    lemma_retained_count(lines(text));
    if forall|i: int|
        0 <= i < lines(text).len() && contains(#[trigger] lines(text)[i], HEAP_MARKER@)
            ==> yields_region(lines(text)[i]) {
        lemma_heap_lines_yield(lines(text));
    }
}

/// A text is read line by line: the regions of a first line, a line feed and
/// more text are what the line yields, followed by the regions of the rest.
pub proof fn lemma_regions_line_by_line(line: Seq<char>, rest: Seq<char>)
    requires
        !line.contains('\n'),
    ensures
        regions_of(line + seq!['\n'] + rest) == line_yield(line) + regions_of(rest),
{
    let text = line + seq!['\n'] + rest;
    let class = CharClass::Until('\n');
    assert forall|i: int| 0 <= i < line.len() implies class.admits(#[trigger] text[i]) by {
        assert(text[i] == line[i]);
        assert(line.contains(line[i]));
    }
    assert(text[line.len() as int] == '\n');
    crate::chars::lemma_run_length_unique(text, class, line.len());
    assert(first_line(text) =~= line);
    assert(after_first_line(text) =~= rest);
    let all = lines(text);
    assert(all == seq![line] + lines(rest));
    assert(all.drop_first() =~= lines(rest));
    assert(all[0] == line);
}

/// The region that the window `from..to` of `chars` yields as a line.
fn region_in_window(chars: &[char], from: usize, to: usize, marker: &[char]) -> (region: Option<
    MemoryRegion,
>)
    requires
        from <= to <= chars@.len(),
        marker@ == HEAP_MARKER@,
    ensures
        optional_model(region) == line_region(chars@.subrange(from as int, to as int)),
{
    if !window_contains(chars, from, to, marker) {
        return None;
    }
    let (token_start, token_end) = first_token_bounds(chars, from, to);
    let dash = scan_run(chars, token_start, token_end, CharClass::Until('-'));
    if dash == token_end {
        return None;
    }
    proof {
        let token = chars@.subrange(token_start as int, token_end as int);
        assert(token.take(dash - token_start) =~= chars@.subrange(
            token_start as int,
            dash as int,
        ));
        assert(token.skip(dash - token_start + 1) =~= chars@.subrange(
            dash + 1,
            token_end as int,
        ));
    }
    let start = parse_radix(chars, token_start, dash, 16, u64::MAX);
    let end = parse_radix(chars, dash + 1, token_end, 16, u64::MAX);
    match (start, end) {
        (Some(start_address), Some(end_address)) => if start_address < end_address {
            Some(MemoryRegion { label: String::from_str(HEAP_LABEL), start_address, end_address })
        } else {
            None
        },
        _ => None,
    }
}

/// Reads one line of a region map: `Some` region exactly when the line holds
/// the heap marker and its first field reads as a hexadecimal range that ends
/// above its start.
pub fn parse_region_line(line: &str) -> (region: Option<MemoryRegion>)
    ensures
        optional_model(region) == line_region(line@),
        region is Some ==> region.unwrap()@.well_formed() && region.unwrap()@.is_heap(),
{
    let chars = chars_of(line);
    let marker = chars_of(HEAP_MARKER);
    assert(chars@.subrange(0, chars@.len() as int) =~= line@);
    region_in_window(chars.as_slice(), 0, chars.len(), marker.as_slice())
}

/// Reads the text of a region map into its heap regions, in the order of their
/// lines.
pub fn parse_regions(text: &str) -> (regions: Vec<MemoryRegion>)
    ensures
        region_models(regions@) == regions_of(text@),
        forall|i: int|
            0 <= i < regions@.len() ==> (#[trigger] regions@[i])@.well_formed()
                && regions@[i]@.is_heap(),
{
    let chars = chars_of(text);
    let marker = chars_of(HEAP_MARKER);
    let len = chars.len();
    let mut regions: Vec<MemoryRegion> = Vec::new();
    let mut at: usize = 0;
    assert(chars@.skip(0) =~= text@);
    assert(region_models(regions@) =~= Seq::<RegionModel>::empty());
    while at < len
        invariant
            at <= len == chars@.len(),
            chars@ == text@,
            marker@ == HEAP_MARKER@,
            region_models(regions@) + regions_of(chars@.skip(at as int)) == regions_of(text@),
            forall|i: int|
                0 <= i < regions@.len() ==> (#[trigger] regions@[i])@.well_formed()
                    && regions@[i]@.is_heap(),
        decreases len - at,
    {
        let end = scan_run(chars.as_slice(), at, len, CharClass::Until('\n'));
        let found = region_in_window(chars.as_slice(), at, end, marker.as_slice());
        let next = if end < len {
            end + 1
        } else {
            len
        };
        proof {
            let rest = chars@.skip(at as int);
            assert(rest =~= chars@.subrange(at as int, len as int));
            assert(first_line(rest) =~= chars@.subrange(at as int, end as int));
            assert(after_first_line(rest) =~= chars@.skip(next as int));
            let all = lines(rest);
            assert(all == seq![first_line(rest)] + lines(after_first_line(rest)));
            assert(all.drop_first() =~= lines(after_first_line(rest)));
            assert(all[0] == first_line(rest));
            assert(regions_of(rest) == line_yield(first_line(rest)) + regions_of(
                chars@.skip(next as int),
            ));
        }
        let ghost before = regions@;
        match found {
            Some(region) => {
                regions.push(region);
                assert(region_models(regions@) =~= region_models(before) + seq![region@]);
            },
            None => {},
        }
        assert(region_models(regions@) =~= region_models(before) + line_yield(
            chars@.subrange(at as int, end as int),
        ));
        assert(region_models(regions@) + regions_of(chars@.skip(next as int)) =~= region_models(
            before,
        ) + (line_yield(chars@.subrange(at as int, end as int)) + regions_of(
            chars@.skip(next as int),
        )));
        at = next;
    }
    assert(chars@.skip(at as int) =~= Seq::<char>::empty());
    assert(region_models(regions@) + Seq::<RegionModel>::empty() =~= region_models(regions@));
    regions
}

/// The regions of a process, from the text of its region map; a map that could
/// not be read counts as an empty one.
pub fn read_regions(map: Option<&str>) -> (regions: Vec<MemoryRegion>)
    ensures
        region_models(regions@) == match map {
            Some(text) => regions_of(text@),
            None => Seq::empty(),
        },
        forall|i: int|
            0 <= i < regions@.len() ==> (#[trigger] regions@[i])@.well_formed()
                && regions@[i]@.is_heap(),
{
    match map {
        Some(text) => parse_regions(text),
        None => {
            let regions: Vec<MemoryRegion> = Vec::new();
            assert(region_models(regions@) =~= Seq::<RegionModel>::empty());
            regions
        },
    }
}

} // verus!
