//! The memory layout that a clone worker rebuilds, and its text form.
//!
//! The text has sections divided by bars: `resv=` with the reserved ranges,
//! `maps=` with the mapped ranges, and, where there are ordinary allocations,
//! `ahost=` or `astage=` with the descriptor that holds their bytes, `aregions=`
//! with the regions they lie in and `allocs=` with the allocations themselves.
//! Entries end in a comma, their fields are divided by colons, and numbers are
//! hexadecimal but for descriptor indices.
use vstd::arithmetic::power::pow;
use vstd::arithmetic::power2::{
    is_pow2, is_pow2_equiv, lemma2_to64, lemma_pow2, lemma_pow2_pos, lemma_pow2_strictly_increases,
};
use crate::daemon::ranges::{
    apart, dedup_pairs, held, lemma_merged, lemma_merged_adds_nothing, lemma_merged_ends,
    lemma_sorted_pairs, lemma_without_repeats, merge_spans, merged_spans, pair_leq, proper,
    sort_pairs, sorted_pairs, without_repeats,
};
use crate::numerals::{parse_hex, parse_i32, parse_number, parse_signed, sat_add};
use crate::split::{
    after_prefix, pieces, split_chars, split_first, split_on, split_once_chars, strip_prefix_chars,
};
use crate::text::chars_of;
use vstd::prelude::*;
use vstd::relations::sorted_by;

verus! {

/// One mapped range of the golden.
#[derive(Debug, Clone, Copy, PartialEq, Eq, Structural)]
pub struct MapEntry {
    /// Address.
    pub va: u64,
    /// Length.
    pub size: u64,
    /// Index of the descriptor that holds its bytes.
    pub index: i32,
    /// Its content is known to be frozen, so clones may share it.
    pub loaded: bool,
    /// The golden's handle of it.
    pub handle: Option<u64>,
    /// Where its bytes lie in a host snapshot.
    pub host_offset: Option<u64>,
}

/// A layout to be rebuilt.
#[derive(Debug)]
pub struct CloneLayout {
    /// Reserved ranges: address and length.
    pub reservations: Vec<(u64, u64)>,
    /// Mapped ranges.
    pub maps: Vec<MapEntry>,
    /// Descriptor index of staged ordinary allocations.
    pub stage: Option<i32>,
    /// Descriptor index of a host snapshot of ordinary allocations.
    pub host: Option<i32>,
    /// The section of regions is not empty.
    pub regions_given: bool,
    /// Regions of ordinary allocations: address, length, offset in the staging area.
    pub regions: Vec<(u64, u64, u64)>,
    /// Ordinary allocations: address, length, offset in a host snapshot.
    pub allocs: Vec<(u64, u64, Option<u64>)>,
}

/// The mathematical value of a [`CloneLayout`].
#[verifier::ext_equal]
pub struct LayoutModel {
    pub reservations: Seq<(u64, u64)>,
    pub maps: Seq<MapEntry>,
    pub stage: Option<i32>,
    pub host: Option<i32>,
    pub regions_given: bool,
    pub regions: Seq<(u64, u64, u64)>,
    pub allocs: Seq<(u64, u64, Option<u64>)>,
}

impl View for CloneLayout {
    type V = LayoutModel;

    open spec fn view(&self) -> LayoutModel {
        LayoutModel {
            reservations: self.reservations@,
            maps: self.maps@,
            stage: self.stage,
            host: self.host,
            regions_given: self.regions_given,
            regions: self.regions@,
            allocs: self.allocs@,
        }
    }
}

// ---------------------------------------------------------------------------
// Reading
// ---------------------------------------------------------------------------

/// The hexadecimal number that `s` writes.
pub open spec fn hex_number(s: Seq<char>) -> Option<u64> {
    match parse_number(s, 16, u64::MAX as nat) {
        Some(n) => Some(n as u64),
        None => None,
    }
}

/// A reserved range: an address, a colon and a length.
pub open spec fn parse_reservation(entry: Seq<char>) -> Option<(u64, u64)> {
    match split_first(entry, ':') {
        Some((va, size)) => match (hex_number(va), hex_number(size)) {
            (Some(va), Some(size)) => Some((va, size)),
            _ => None,
        },
        None => None,
    }
}

/// The first two fields of an entry as numbers.
pub open spec fn parse_two(entry: Seq<char>) -> Option<(u64, u64)> {
    let f = split_on(entry, ':');
    if f.len() < 2 {
        None
    } else {
        match (hex_number(f[0]), hex_number(f[1])) {
            (Some(a), Some(b)) => Some((a, b)),
            _ => None,
        }
    }
}

/// A region: its first three fields as numbers.
pub open spec fn parse_region_entry(entry: Seq<char>) -> Option<(u64, u64, u64)> {
    let f = split_on(entry, ':');
    if f.len() < 3 {
        None
    } else {
        match (hex_number(f[0]), hex_number(f[1]), hex_number(f[2])) {
            (Some(a), Some(b), Some(c)) => Some((a, b, c)),
            _ => None,
        }
    }
}

/// An allocation: its first two fields as numbers, and its third where it is one.
pub open spec fn parse_alloc(entry: Seq<char>) -> Option<(u64, u64, Option<u64>)> {
    let f = split_on(entry, ':');
    match parse_two(entry) {
        Some((d, size)) => Some(
            (
                d,
                size,
                if f.len() < 3 {
                    None
                } else {
                    hex_number(f[2])
                },
            ),
        ),
        None => None,
    }
}

/// A mapped range.
pub open spec fn parse_map(entry: Seq<char>) -> Option<MapEntry> {
    let f = split_on(entry, ':');
    if f.len() < 3 {
        None
    } else {
        match (hex_number(f[0]), hex_number(f[1]), parse_signed(f[2])) {
            (Some(va), Some(size), Some(index)) => Some(
                MapEntry {
                    va,
                    size,
                    index: index as i32,
                    loaded: f.len() > 3 && f[3] == seq!['1'],
                    handle: if f.len() > 4 {
                        hex_number(f[4])
                    } else {
                        None
                    },
                    host_offset: if f.len() > 5 {
                        hex_number(f[5])
                    } else {
                        None
                    },
                },
            ),
            _ => None,
        }
    }
}

/// What follows `prefix` in the last section that starts with it.
pub open spec fn last_section(sections: Seq<Seq<char>>, prefix: Seq<char>) -> Option<Seq<char>>
    decreases sections.len(),
{
    if sections.len() == 0 {
        None
    } else {
        match after_prefix(sections.last(), prefix) {
            Some(rest) => Some(rest),
            None => last_section(sections.drop_last(), prefix),
        }
    }
}

/// The text of a section, empty where there is none.
pub open spec fn section(layout: Seq<char>, prefix: Seq<char>) -> Seq<char> {
    match last_section(split_on(layout, '|'), prefix) {
        Some(rest) => rest,
        None => Seq::empty(),
    }
}

/// The descriptor index that a section holds.
pub open spec fn section_index(layout: Seq<char>, prefix: Seq<char>) -> Option<i32> {
    match last_section(split_on(layout, '|'), prefix) {
        Some(rest) => match parse_signed(rest) {
            Some(n) => Some(n as i32),
            None => None,
        },
        None => None,
    }
}

/// The functions that read entries.
pub open spec fn reservation_reader() -> spec_fn(Seq<char>) -> Option<(u64, u64)> {
    |e: Seq<char>| parse_reservation(e)
}

/// Reads the first two fields.
pub open spec fn two_reader() -> spec_fn(Seq<char>) -> Option<(u64, u64)> {
    |e: Seq<char>| parse_two(e)
}

/// Reads mapped ranges.
pub open spec fn map_reader() -> spec_fn(Seq<char>) -> Option<MapEntry> {
    |e: Seq<char>| parse_map(e)
}

/// Reads regions.
pub open spec fn region_reader() -> spec_fn(Seq<char>) -> Option<(u64, u64, u64)> {
    |e: Seq<char>| parse_region_entry(e)
}

/// Reads allocations.
pub open spec fn alloc_reader() -> spec_fn(Seq<char>) -> Option<(u64, u64, Option<u64>)> {
    |e: Seq<char>| parse_alloc(e)
}

/// The layout that a text describes; entries that are not well formed are left out.
pub open spec fn parsed_layout(layout: Seq<char>) -> LayoutModel {
    LayoutModel {
        reservations: split_on(section(layout, "resv="@), ',').filter_map(reservation_reader()),
        maps: split_on(section(layout, "maps="@), ',').filter_map(map_reader()),
        stage: section_index(layout, "astage="@),
        host: section_index(layout, "ahost="@),
        regions_given: section(layout, "aregions="@).len() > 0,
        regions: split_on(section(layout, "aregions="@), ',').filter_map(region_reader()),
        allocs: split_on(section(layout, "allocs="@), ',').filter_map(alloc_reader()),
    }
}

fn read_hex(s: &[char]) -> (r: Option<u64>)
    ensures
        r == hex_number(s@),
{
    parse_hex(s)
}

fn read_reservation(entry: &[char]) -> (r: Option<(u64, u64)>)
    ensures
        r == parse_reservation(entry@),
{
    match split_once_chars(entry, ':') {
        Some((va, size)) => match (read_hex(&va), read_hex(&size)) {
            (Some(va), Some(size)) => Some((va, size)),
            _ => None,
        },
        None => None,
    }
}

fn read_two(entry: &[char]) -> (r: Option<(u64, u64)>)
    ensures
        r == parse_two(entry@),
{
    let f = split_chars(entry, ':');
    proof { assert(pieces(f@).len() == f@.len()); }
    if f.len() < 2 {
        return None;
    }
    proof {
        assert(pieces(f@)[0] == f@[0]@);
        assert(pieces(f@)[1] == f@[1]@);
    }
    match (read_hex(&f[0]), read_hex(&f[1])) {
        (Some(a), Some(b)) => Some((a, b)),
        _ => None,
    }
}

fn read_region_entry(entry: &[char]) -> (r: Option<(u64, u64, u64)>)
    ensures
        r == parse_region_entry(entry@),
{
    let f = split_chars(entry, ':');
    proof { assert(pieces(f@).len() == f@.len()); }
    if f.len() < 3 {
        return None;
    }
    proof {
        assert(pieces(f@)[0] == f@[0]@);
        assert(pieces(f@)[1] == f@[1]@);
        assert(pieces(f@)[2] == f@[2]@);
    }
    match (read_hex(&f[0]), read_hex(&f[1]), read_hex(&f[2])) {
        (Some(a), Some(b), Some(c)) => Some((a, b, c)),
        _ => None,
    }
}

fn read_alloc(entry: &[char]) -> (r: Option<(u64, u64, Option<u64>)>)
    ensures
        r == parse_alloc(entry@),
{
    let f = split_chars(entry, ':');
    proof {
        assert(pieces(f@).len() == f@.len());
        if f@.len() >= 3 {
            assert(pieces(f@)[2] == f@[2]@);
        }
    }
    match read_two(entry) {
        Some((d, size)) => {
            let offset = if f.len() < 3 {
                None
            } else {
                read_hex(&f[2])
            };
            Some((d, size, offset))
        },
        None => None,
    }
}

fn read_map(entry: &[char]) -> (r: Option<MapEntry>)
    ensures
        r == parse_map(entry@),
{
    let f = split_chars(entry, ':');
    proof { assert(pieces(f@).len() == f@.len()); }
    if f.len() < 3 {
        return None;
    }
    proof {
        assert(pieces(f@)[0] == f@[0]@);
        assert(pieces(f@)[1] == f@[1]@);
        assert(pieces(f@)[2] == f@[2]@);
        if f@.len() > 3 {
            assert(pieces(f@)[3] == f@[3]@);
        }
        if f@.len() > 4 {
            assert(pieces(f@)[4] == f@[4]@);
        }
        if f@.len() > 5 {
            assert(pieces(f@)[5] == f@[5]@);
        }
    }
    let loaded = f.len() > 3 && f[3].len() == 1 && f[3][0] == '1';
    proof {
        if f@.len() > 3 {
            if f@[3]@.len() == 1 && f@[3]@[0] == '1' {
                assert(f@[3]@ =~= seq!['1']);
            }
        }
    }
    let handle = if f.len() > 4 {
        read_hex(&f[4])
    } else {
        None
    };
    let host_offset = if f.len() > 5 {
        read_hex(&f[5])
    } else {
        None
    };
    match (read_hex(&f[0]), read_hex(&f[1]), parse_i32(&f[2])) {
        (Some(va), Some(size), Some(index)) => Some(
            MapEntry { va, size, index, loaded, handle, host_offset },
        ),
        _ => None,
    }
}

/// The sections of a layout that start with `prefix`, last one.
fn find_section(sections: &Vec<Vec<char>>, prefix: &str) -> (r: Option<Vec<char>>)
    ensures
        match r {
            Some(rest) => last_section(pieces(sections@), prefix@) == Some(rest@),
            None => last_section(pieces(sections@), prefix@) is None,
        },
{
    let ghost all = pieces(sections@);
    let mut i: usize = sections.len();
    proof { assert(all.take(all.len() as int) =~= all); }
    while i > 0
        invariant
            i <= sections@.len(),
            all == pieces(sections@),
            last_section(all, prefix@) == last_section(all.take(i as int), prefix@),
        decreases i,
    {
        proof {
            assert(all.take(i as int).drop_last() =~= all.take(i - 1));
            assert(all.take(i as int).last() == sections@[i - 1]@);
        }
        match strip_prefix_chars(&sections[i - 1], prefix) {
            Some(rest) => {
                return Some(rest);
            },
            None => {},
        }
        i = i - 1;
    }
    None
}

fn section_entries(sections: &Vec<Vec<char>>, prefix: &str) -> (r: Vec<Vec<char>>)
    ensures
        pieces(r@) == split_on(
            match last_section(pieces(sections@), prefix@) {
                Some(rest) => rest,
                None => Seq::empty(),
            },
            ',',
        ),
{
    match find_section(sections, prefix) {
        Some(rest) => split_chars(&rest, ','),
        None => {
            let empty: Vec<char> = Vec::new();
            proof { assert(empty@ =~= Seq::empty()); }
            split_chars(&empty, ',')
        },
    }
}

fn read_section_index(sections: &Vec<Vec<char>>, prefix: &str) -> (r: Option<i32>)
    ensures
        r == match last_section(pieces(sections@), prefix@) {
            Some(rest) => match parse_signed(rest) {
                Some(n) => Some(n as i32),
                None => None,
            },
            None => None,
        },
{
    match find_section(sections, prefix) {
        Some(rest) => parse_i32(&rest),
        None => None,
    }
}

fn read_reservations(entries: &Vec<Vec<char>>) -> (r: Vec<(u64, u64)>)
    ensures
        r@ == pieces(entries@).filter_map(reservation_reader()),
{
    let ghost all = pieces(entries@);
    let ghost f = reservation_reader();
    let mut r: Vec<(u64, u64)> = Vec::new();
    let mut i: usize = 0;
    proof { assert(all.take(0).filter_map(f) =~= r@); }
    while i < entries.len()
        invariant
            i <= entries@.len(),
            all == pieces(entries@),
            f == reservation_reader(),
            r@ == all.take(i as int).filter_map(f),
        decreases entries@.len() - i,
    {
        let ghost before = r@;
        proof {
            assert(all.take(i + 1).drop_last() =~= all.take(i as int));
            assert(all.take(i + 1).last() == entries@[i as int]@);
        }
        match read_reservation(&entries[i]) {
            Some(x) => {
                r.push(x);
                proof { assert(r@ =~= before + seq![x]); }
            },
            None => {},
        }
        i = i + 1;
    }
    proof { assert(all.take(all.len() as int) =~= all); }
    r
}

fn read_twos(entries: &Vec<Vec<char>>) -> (r: Vec<(u64, u64)>)
    ensures
        r@ == pieces(entries@).filter_map(two_reader()),
{
    let ghost all = pieces(entries@);
    let ghost f = two_reader();
    let mut r: Vec<(u64, u64)> = Vec::new();
    let mut i: usize = 0;
    proof { assert(all.take(0).filter_map(f) =~= r@); }
    while i < entries.len()
        invariant
            i <= entries@.len(),
            all == pieces(entries@),
            f == two_reader(),
            r@ == all.take(i as int).filter_map(f),
        decreases entries@.len() - i,
    {
        let ghost before = r@;
        proof {
            assert(all.take(i + 1).drop_last() =~= all.take(i as int));
            assert(all.take(i + 1).last() == entries@[i as int]@);
        }
        match read_two(&entries[i]) {
            Some(x) => {
                r.push(x);
                proof { assert(r@ =~= before + seq![x]); }
            },
            None => {},
        }
        i = i + 1;
    }
    proof { assert(all.take(all.len() as int) =~= all); }
    r
}

fn read_maps(entries: &Vec<Vec<char>>) -> (r: Vec<MapEntry>)
    ensures
        r@ == pieces(entries@).filter_map(map_reader()),
{
    let ghost all = pieces(entries@);
    let ghost f = map_reader();
    let mut r: Vec<MapEntry> = Vec::new();
    let mut i: usize = 0;
    proof { assert(all.take(0).filter_map(f) =~= r@); }
    while i < entries.len()
        invariant
            i <= entries@.len(),
            all == pieces(entries@),
            f == map_reader(),
            r@ == all.take(i as int).filter_map(f),
        decreases entries@.len() - i,
    {
        let ghost before = r@;
        proof {
            assert(all.take(i + 1).drop_last() =~= all.take(i as int));
            assert(all.take(i + 1).last() == entries@[i as int]@);
        }
        match read_map(&entries[i]) {
            Some(x) => {
                r.push(x);
                proof { assert(r@ =~= before + seq![x]); }
            },
            None => {},
        }
        i = i + 1;
    }
    proof { assert(all.take(all.len() as int) =~= all); }
    r
}

fn read_regions(entries: &Vec<Vec<char>>) -> (r: Vec<(u64, u64, u64)>)
    ensures
        r@ == pieces(entries@).filter_map(region_reader()),
{
    let ghost all = pieces(entries@);
    let ghost f = region_reader();
    let mut r: Vec<(u64, u64, u64)> = Vec::new();
    let mut i: usize = 0;
    proof { assert(all.take(0).filter_map(f) =~= r@); }
    while i < entries.len()
        invariant
            i <= entries@.len(),
            all == pieces(entries@),
            f == region_reader(),
            r@ == all.take(i as int).filter_map(f),
        decreases entries@.len() - i,
    {
        let ghost before = r@;
        proof {
            assert(all.take(i + 1).drop_last() =~= all.take(i as int));
            assert(all.take(i + 1).last() == entries@[i as int]@);
        }
        match read_region_entry(&entries[i]) {
            Some(x) => {
                r.push(x);
                proof { assert(r@ =~= before + seq![x]); }
            },
            None => {},
        }
        i = i + 1;
    }
    proof { assert(all.take(all.len() as int) =~= all); }
    r
}

fn read_allocs(entries: &Vec<Vec<char>>) -> (r: Vec<(u64, u64, Option<u64>)>)
    ensures
        r@ == pieces(entries@).filter_map(alloc_reader()),
{
    let ghost all = pieces(entries@);
    let ghost f = alloc_reader();
    let mut r: Vec<(u64, u64, Option<u64>)> = Vec::new();
    let mut i: usize = 0;
    proof { assert(all.take(0).filter_map(f) =~= r@); }
    while i < entries.len()
        invariant
            i <= entries@.len(),
            all == pieces(entries@),
            f == alloc_reader(),
            r@ == all.take(i as int).filter_map(f),
        decreases entries@.len() - i,
    {
        let ghost before = r@;
        proof {
            assert(all.take(i + 1).drop_last() =~= all.take(i as int));
            assert(all.take(i + 1).last() == entries@[i as int]@);
        }
        match read_alloc(&entries[i]) {
            Some(x) => {
                r.push(x);
                proof { assert(r@ =~= before + seq![x]); }
            },
            None => {},
        }
        i = i + 1;
    }
    proof { assert(all.take(all.len() as int) =~= all); }
    r
}

/// Reads a layout.
pub fn parse_layout(layout: &str) -> (r: CloneLayout)
    ensures
        r@ == parsed_layout(layout@),
{
    let chars = chars_of(layout);
    let sections = split_chars(&chars, '|');
    let regions_given = match find_section(&sections, "aregions=") {
        Some(rest) => rest.len() > 0,
        None => false,
    };
    CloneLayout {
        reservations: read_reservations(&section_entries(&sections, "resv=")),
        maps: read_maps(&section_entries(&sections, "maps=")),
        stage: read_section_index(&sections, "astage="),
        host: read_section_index(&sections, "ahost="),
        regions_given,
        regions: read_regions(&section_entries(&sections, "aregions=")),
        allocs: read_allocs(&section_entries(&sections, "allocs=")),
    }
}

// ---------------------------------------------------------------------------
// Reserved address space
// ---------------------------------------------------------------------------

/// The ranges that a section adds to those to be reserved.
pub open spec fn section_ranges(part: Seq<char>) -> Seq<(u64, u64)> {
    (match after_prefix(part, "resv="@) {
        Some(rest) => split_on(rest, ',').filter_map(reservation_reader()),
        None => Seq::empty(),
    }) + (match after_prefix(part, "aregions="@) {
        Some(rest) => split_on(rest, ',').filter_map(two_reader()),
        None => Seq::empty(),
    })
}

/// The ranges to be reserved, in the order of the text.
pub open spec fn layout_ranges(sections: Seq<Seq<char>>) -> Seq<(u64, u64)>
    decreases sections.len(),
{
    if sections.len() == 0 {
        Seq::empty()
    } else {
        layout_ranges(sections.drop_last()) + section_ranges(sections.last())
    }
}

/// The ranges to be reserved, in order and each once.
pub open spec fn reservations_of(layout: Seq<char>) -> Seq<(u64, u64)> {
    without_repeats(sorted_pairs(layout_ranges(split_on(layout, '|'))))
}

/// The address ranges of a layout, reserved ones and those of ordinary
/// allocations, in order and each once.
pub fn clone_layout_reservations(layout: &str) -> (r: Vec<(u64, u64)>)
    ensures
        r@ == reservations_of(layout@),
{
    let chars = chars_of(layout);
    let sections = split_chars(&chars, '|');
    let ghost all = pieces(sections@);
    let mut ranges: Vec<(u64, u64)> = Vec::new();
    let mut i: usize = 0;
    proof { assert(layout_ranges(all.take(0)) =~= ranges@); }
    while i < sections.len()
        invariant
            i <= sections@.len(),
            all == pieces(sections@),
            ranges@ == layout_ranges(all.take(i as int)),
        decreases sections@.len() - i,
    {
        let ghost before = ranges@;
        proof {
            assert(all.take(i + 1).drop_last() =~= all.take(i as int));
            assert(all.take(i + 1).last() == sections@[i as int]@);
        }
        match strip_prefix_chars(&sections[i], "resv=") {
            Some(rest) => {
                let mut more = read_reservations(&split_chars(&rest, ','));
                ranges.append(&mut more);
            },
            None => {},
        }
        match strip_prefix_chars(&sections[i], "aregions=") {
            Some(rest) => {
                let mut more = read_twos(&split_chars(&rest, ','));
                ranges.append(&mut more);
            },
            None => {},
        }
        proof {
            assert(ranges@ =~= before + section_ranges(sections@[i as int]@));
        }
        i = i + 1;
    }
    proof { assert(all.take(all.len() as int) =~= all); }
    let sorted = sort_pairs(&ranges);
    dedup_pairs(&sorted)
}

/// The span of a range, start and end, widened to whole granules.
pub open spec fn granule_span(range: (u64, u64), mask: u64) -> (u64, u64) {
    (range.0 & !mask, sat_add(sat_add(range.0, range.1), mask) & !mask)
}

/// Spans as address and length.
pub open spec fn span_lengths(v: Seq<(u64, u64)>) -> Seq<(u64, u64)> {
    v.map_values(|s: (u64, u64)| (s.0, (s.1 - s.0) as u64))
}

/// The spans of the ranges, widened to whole granules.
pub open spec fn granule_spans(ranges: Seq<(u64, u64)>, mask: u64) -> Seq<(u64, u64)> {
    ranges.map_values(|r: (u64, u64)| granule_span(r, mask))
}

/// The granules that cover a layout, joined where they touch.
pub open spec fn envelopes_of(layout: Seq<char>, granularity: u64) -> Seq<(u64, u64)> {
    span_lengths(
        merged_spans(
            sorted_pairs(granule_spans(reservations_of(layout), (granularity - 1) as u64)),
        ),
    )
}

/// A widened span starts at or before its range and does not end before it starts;
/// where the end can be addressed, it ends at or after its range.
pub(crate) proof fn lemma_granule_span(va: u64, size: u64, mask: u64)
    ensures
        granule_span((va, size), mask).0 <= va,
        granule_span((va, size), mask).0 <= granule_span((va, size), mask).1,
        va + size + mask <= u64::MAX ==> va + size <= granule_span((va, size), mask).1,
        granule_span((va, size), mask).0 & mask == 0,
        granule_span((va, size), mask).1 & mask == 0,
{
    let x = sat_add(va, size);
    let z = sat_add(x, mask);
    assert((va & !mask) <= va) by (bit_vector);
    assert((va & !mask) & mask == 0) by (bit_vector);
    assert((z & !mask) & mask == 0) by (bit_vector);
    if x + mask > u64::MAX {
        assert((va & !mask) <= (0xffff_ffff_ffff_ffffu64 & !mask)) by (bit_vector);
    } else {
        assert(z >= va + mask);
        let h = va & !mask;
        assert(h <= va) by (bit_vector)
            requires
                h == va & !mask,
        ;
        assert(h <= 0xffff_ffff_ffff_ffffu64 - mask);
        assert(h + mask == (h | mask)) by (bit_vector)
            requires
                h == va & !mask,
        ;
        assert((z & !mask) >= h) by (bit_vector)
            requires
                z >= (h | mask),
                h == va & !mask,
        ;
        assert((z & !mask) >= x) by (bit_vector)
            requires
                z == x + mask,
        ;
    }
}

/// The address ranges to reserve so that a layout fits at its own addresses in
/// whole granules.
pub fn clone_layout_reservation_envelopes(layout: &str, granularity: u64) -> (r: Vec<(u64, u64)>)
    requires
        granularity > 0,
    ensures
        r@ == envelopes_of(layout@, granularity),
{
    let mask = granularity - 1;
    let ranges = clone_layout_reservations(layout);
    let mut spans: Vec<(u64, u64)> = Vec::new();
    let mut i: usize = 0;
    while i < ranges.len()
        invariant
            i <= ranges@.len(),
            spans@.len() == i,
            forall|j: int| 0 <= j < i ==> #[trigger] spans@[j] == granule_span(ranges@[j], mask),
        decreases ranges@.len() - i,
    {
        let (va, size) = ranges[i];
        let base = va & !mask;
        let end = va.saturating_add(size).saturating_add(mask) & !mask;
        spans.push((base, end));
        i = i + 1;
    }
    proof { assert(spans@ =~= granule_spans(ranges@, mask)); }
    let sorted = sort_pairs(&spans);
    let merged = merge_spans(&sorted);
    proof { lemma_spans_proper(ranges@, mask); }
    let mut out: Vec<(u64, u64)> = Vec::new();
    let mut j: usize = 0;
    while j < merged.len()
        invariant
            j <= merged@.len(),
            proper(merged@),
            out@.len() == j,
            forall|k: int|
                0 <= k < j ==> #[trigger] out@[k] == (
                    merged@[k].0,
                    (merged@[k].1 - merged@[k].0) as u64,
                ),
        decreases merged@.len() - j,
    {
        let (base, end) = merged[j];
        assert(merged@[j as int].0 <= merged@[j as int].1);
        out.push((base, end - base));
        j = j + 1;
    }
    proof { assert(out@ =~= span_lengths(merged@)); }
    out
}

pub(crate) proof fn lemma_spans_proper(ranges: Seq<(u64, u64)>, mask: u64)
    ensures
        ({
            let sorted = sorted_pairs(granule_spans(ranges, mask));
            &&& sorted_by(sorted, pair_leq())
            &&& proper(sorted)
            &&& proper(merged_spans(sorted))
            &&& apart(merged_spans(sorted))
        }),
{
    let spans = granule_spans(ranges, mask);
    let sorted = sorted_pairs(spans);
    lemma_sorted_pairs(spans);
    assert forall|i: int| 0 <= i < sorted.len() implies (#[trigger] sorted[i]).0 <= sorted[i].1 by {
        assert(sorted.contains(sorted[i]));
        assert(spans.contains(sorted[i]));
        let k = choose|k: int| 0 <= k < spans.len() && spans[k] == sorted[i];
        lemma_granule_span(ranges[k].0, ranges[k].1, mask);
    }
    lemma_merged(sorted);
}

/// Whether one of the ranges holds the given one.
pub open spec fn is_reserved(ranges: Seq<(u64, u64)>, va: u64, size: u64) -> bool {
    exists|i: int|
        0 <= i < ranges.len() && va >= (#[trigger] ranges[i]).0 && sat_add(va, size) <= sat_add(
            ranges[i].0,
            ranges[i].1,
        )
}

/// Whether one of the ranges holds the given one.
pub fn range_is_reserved(ranges: &[(u64, u64)], va: u64, size: u64) -> (r: bool)
    ensures
        r == is_reserved(ranges@, va, size),
{
    let mut i: usize = 0;
    while i < ranges.len()
        invariant
            i <= ranges@.len(),
            forall|j: int|
                0 <= j < i ==> !(va >= (#[trigger] ranges@[j]).0 && sat_add(va, size) <= sat_add(
                    ranges@[j].0,
                    ranges@[j].1,
                )),
        decreases ranges@.len() - i,
    {
        let (base, span) = ranges[i];
        if va >= base && va.saturating_add(size) <= base.saturating_add(span) {
            assert(va >= ranges@[i as int].0);
            return true;
        }
        i = i + 1;
    }
    false
}

/// Whether every region of ordinary allocations keeps its address.
pub fn ordinary_regions_are_reserved(regions: &[(u64, u64, u64)], reserved: &[(u64, u64)]) -> (r:
    bool)
    ensures
        r == all_reserved(regions@, reserved@),
{
    let mut i: usize = 0;
    while i < regions.len()
        invariant
            i <= regions@.len(),
            forall|j: int|
                0 <= j < i ==> is_reserved(reserved@, (#[trigger] regions@[j]).0, regions@[j].1),
        decreases regions@.len() - i,
    {
        if !range_is_reserved(reserved, regions[i].0, regions[i].1) {
            assert(!is_reserved(reserved@, regions@[i as int].0, regions@[i as int].1));
            return false;
        }
        i = i + 1;
    }
    true
}

/// Every region lies in a reserved range.
pub open spec fn all_reserved(regions: Seq<(u64, u64, u64)>, reserved: Seq<(u64, u64)>) -> bool {
    forall|i: int|
        0 <= i < regions.len() ==> is_reserved(reserved, (#[trigger] regions[i]).0, regions[i].1)
}

/// The envelopes of a layout cover each of its ranges whose last granule can be
/// addressed.
pub proof fn law_envelopes_cover_ranges(layout: Seq<char>, granularity: u64, range: (u64, u64))
    requires
        granularity > 0,
        reservations_of(layout).contains(range),
        range.0 + range.1 + granularity - 1 <= u64::MAX,
    ensures
        is_reserved(envelopes_of(layout, granularity), range.0, range.1),
{
    let mask = (granularity - 1) as u64;
    let ranges = reservations_of(layout);
    let spans = granule_spans(ranges, mask);
    let sorted = sorted_pairs(spans);
    let merged = merged_spans(sorted);
    lemma_spans_proper(ranges, mask);
    lemma_sorted_pairs(spans);
    lemma_merged(sorted);
    let k = choose|k: int| 0 <= k < ranges.len() && ranges[k] == range;
    let span = granule_span(range, mask);
    assert(spans[k] == span);
    assert(spans.contains(span));
    assert(sorted.contains(span));
    let n = choose|n: int| 0 <= n < sorted.len() && sorted[n] == span;
    assert(held(merged, sorted[n]));
    let i = choose|i: int|
        0 <= i < merged.len() && (#[trigger] merged[i]).0 <= span.0 && span.1 <= merged[i].1;
    lemma_granule_span(range.0, range.1, mask);
    let e = envelopes_of(layout, granularity);
    assert(e[i] == (merged[i].0, (merged[i].1 - merged[i].0) as u64));
    assert(merged[i].0 <= merged[i].1);
    assert(range.0 >= e[i].0);
    assert(sat_add(range.0, range.1) <= sat_add(e[i].0, e[i].1));
}

/// The greatest multiple of `g` that is at most `x`.
pub open spec fn rounded_down(x: int, g: int) -> int {
    x - x % g
}

/// The least multiple of `g` that is at least `x`.
pub open spec fn rounded_up(x: int, g: int) -> int {
    rounded_down(x + g - 1, g)
}

/// For a power of two, masking is dividing.
proof fn lemma_mask(x: u64, g: u64)
    requires
        is_pow2(g as int),
    ensures
        g > 0,
        x & ((g - 1) as u64) == x % g,
        x & !((g - 1) as u64) == rounded_down(x as int, g as int),
{
    is_pow2_equiv(g as int);
    let n = choose|n: nat| pow(2, n) == g;
    lemma_pow2(n);
    lemma2_to64();
    if n >= 64 {
        if n > 64 {
            lemma_pow2_strictly_increases(64, n);
        }
        assert(false);
    }
    lemma_pow2_pos(n);
    vstd::bits::lemma_u64_low_bits_mask_is_mod(x, n);
    let m = (g - 1) as u64;
    assert(m == vstd::bits::low_bits_mask(n) as u64);
    let low = x & m;
    assert(low <= x && (x & !m) == x - low) by (bit_vector)
        requires
            low == x & m,
    ;
}

proof fn lemma_rounding_grows(x: int, y: int, g: int)
    requires
        g > 0,
        x <= y,
    ensures
        rounded_down(x, g) <= rounded_down(y, g),
{
    vstd::arithmetic::div_mod::lemma_fundamental_div_mod(x, g);
    vstd::arithmetic::div_mod::lemma_fundamental_div_mod(y, g);
    vstd::arithmetic::div_mod::lemma_div_is_ordered(x, y, g);
    let p = x / g;
    let q = y / g;
    assert(g * p <= g * q) by (nonlinear_arith)
        requires
            g > 0,
            p <= q,
    ;
}

/// A widened span is its range rounded outwards, as far as addresses go.
proof fn lemma_span_rounds(range: (u64, u64), g: u64)
    requires
        is_pow2(g as int),
    ensures
        ({
            let span = granule_span(range, (g - 1) as u64);
            &&& span.0 == rounded_down(range.0 as int, g as int)
            &&& span.1 <= rounded_up(range.0 + range.1, g as int)
            &&& span.0 as int % g as int == 0
            &&& span.1 as int % g as int == 0
        }),
{
    let mask = (g - 1) as u64;
    let z = sat_add(sat_add(range.0, range.1), mask);
    lemma_mask(range.0, g);
    lemma_mask(z, g);
    lemma_rounding_grows(z as int, range.0 + range.1 + g - 1, g as int);
    let span = granule_span(range, mask);
    lemma_granule_span(range.0, range.1, mask);
    lemma_mask(span.0, g);
    lemma_mask(span.1, g);
}

/// The envelopes of a layout are in order and do not touch; where granules are powers of
/// two, they start at a granule and are whole granules long.
pub proof fn law_envelopes_are_disjoint_and_aligned(layout: Seq<char>, granularity: u64)
    requires
        granularity > 0,
    ensures
        ({
            let e = envelopes_of(layout, granularity);
            &&& forall|i: int, j: int|
                #![trigger e[i], e[j]]
                0 <= i < j < e.len() ==> e[i].0 + e[i].1 < e[j].0
            &&& is_pow2(granularity as int) ==> forall|i: int|
                0 <= i < e.len() ==> (#[trigger] e[i]).0 % granularity == 0 && e[i].1 % granularity
                    == 0
        }),
{
    let g = granularity as int;
    let mask = (granularity - 1) as u64;
    let ranges = reservations_of(layout);
    let spans = granule_spans(ranges, mask);
    let sorted = sorted_pairs(spans);
    let merged = merged_spans(sorted);
    let e = envelopes_of(layout, granularity);
    lemma_spans_proper(ranges, mask);
    lemma_sorted_pairs(spans);
    assert forall|i: int, j: int|
        #![trigger e[i], e[j]]
        0 <= i < j < e.len() implies e[i].0 + e[i].1 < e[j].0 by {
        assert(merged[i].1 < merged[j].0);
        assert(merged[i].0 <= merged[i].1);
    }
    if is_pow2(g) {
        let whole = |x: u64| x as int % g == 0;
        assert forall|k: int| 0 <= k < sorted.len() implies whole((#[trigger] sorted[k]).0)
            && whole(sorted[k].1) by {
            assert(sorted.contains(sorted[k]));
            assert(spans.contains(sorted[k]));
            let n = choose|n: int| 0 <= n < spans.len() && spans[n] == sorted[k];
            lemma_span_rounds(ranges[n], granularity);
        }
        lemma_merged_ends(sorted, whole);
        assert forall|i: int| 0 <= i < e.len() implies (#[trigger] e[i]).0 % granularity == 0
            && e[i].1 % granularity == 0 by {
            assert(whole(merged[i].0) && whole(merged[i].1));
            assert(merged[i].0 <= merged[i].1);
            vstd::arithmetic::div_mod::lemma_sub_mod_noop(
                merged[i].1 as int,
                merged[i].0 as int,
                g,
            );
            vstd::arithmetic::div_mod::lemma_small_mod(0, g as nat);
            assert(e[i] == (merged[i].0, (merged[i].1 - merged[i].0) as u64));
        }
    }
}

/// The range, rounded outwards to whole granules, holds the address.
pub open spec fn rounds_over(range: (u64, u64), g: u64, a: int) -> bool {
    rounded_down(range.0 as int, g as int) <= a < rounded_up(range.0 + range.1, g as int)
}

/// The envelopes of a layout cover no address outside its ranges, rounded outwards to
/// whole granules: no smaller cover is aligned.
pub proof fn law_envelopes_are_least(layout: Seq<char>, granularity: u64, i: int, a: int)
    requires
        is_pow2(granularity as int),
        0 <= i < envelopes_of(layout, granularity).len(),
        ({
            let e = envelopes_of(layout, granularity)[i];
            e.0 <= a < e.0 + e.1
        }),
    ensures
        exists|r: (u64, u64)|
            reservations_of(layout).contains(r) && #[trigger] rounds_over(r, granularity, a),
{
    let mask = (granularity - 1) as u64;
    let ranges = reservations_of(layout);
    let spans = granule_spans(ranges, mask);
    let sorted = sorted_pairs(spans);
    let merged = merged_spans(sorted);
    lemma_mask(0, granularity);
    lemma_spans_proper(ranges, mask);
    lemma_sorted_pairs(spans);
    assert(merged[i].0 <= merged[i].1);
    assert(merged[i].0 <= a < merged[i].1);
    lemma_merged_adds_nothing(sorted, a);
    let k = choose|k: int| 0 <= k < sorted.len() && (#[trigger] sorted[k]).0 <= a < sorted[k].1;
    assert(sorted.contains(sorted[k]));
    assert(spans.contains(sorted[k]));
    let n = choose|n: int| 0 <= n < spans.len() && spans[n] == sorted[k];
    lemma_span_rounds(ranges[n], granularity);
    assert(ranges.contains(ranges[n]));
    assert(rounds_over(ranges[n], granularity, a));
}

/// Every range that a section of a layout names is among those to be reserved.
pub proof fn law_reservations_hold_every_range(layout: Seq<char>, range: (u64, u64))
    ensures
        reservations_of(layout).contains(range) <==> layout_ranges(split_on(layout, '|')).contains(
            range,
        ),
{
    let all = layout_ranges(split_on(layout, '|'));
    lemma_sorted_pairs(all);
    lemma_without_repeats(sorted_pairs(all));
    assert(sorted_pairs(all).contains(range) <==> all.contains(range));
    assert(without_repeats(sorted_pairs(all)).contains(range) <==> sorted_pairs(all).contains(
        range,
    ));
}

} // verus!
