//! Starting a clone worker: what of the golden's memory it gets and how, and what
//! it is told.
use crate::copying::{copy_opt_text, opt_str, opt_text, pairs};
use crate::daemon::layout::{
    CloneLayout, LayoutModel, MapEntry, granule_span, granule_spans, lemma_granule_span,
    lemma_spans_proper,
};
use crate::daemon::layout_text::writable;
use crate::daemon::memory::{DEFAULT_GRANULARITY, FIRST_MEMORY_SLOT};
use crate::daemon::modules::MAX_MODULE_HANDOFF_BLOB_BYTES;
use crate::daemon::policy::{
    clone_worker_share_env, host_snapshot_reconstructable, share_kill_switch, sharing_disabled,
};
use crate::daemon::preamble::{
    ServeOptions, advert_view, parse_procmem_text, procmem_from_env, procmem_text, procmem_to_env,
};
use crate::daemon::ranges::{
    apart, held, lemma_merged, lemma_sorted_pairs, merge_spans, merged_spans, proper, sort_pairs,
    sorted_pairs,
};
use crate::numerals::{decimal, decimal_chars, parse_i32, parse_signed, sat_add};
use crate::split::words;
use crate::text::{chars_of, string_of};
use vstd::prelude::*;

verus! {

// ---------------------------------------------------------------------------
// Mapped memory
// ---------------------------------------------------------------------------

/// One mapped range of the golden, as the host hands it over.
#[derive(Debug, Clone, Copy, PartialEq, Eq, Structural)]
pub struct GoldenChunk {
    pub va: u64,
    pub size: u64,
    /// The golden's handle.
    pub handle: u64,
}

/// Whether clones may share a range.
#[derive(Debug, Clone, Copy, PartialEq, Eq, Structural)]
pub enum ShareVerdict {
    /// Settled.
    Known(bool),
    /// Its content has to be compared with what was uploaded.
    Compare,
}

/// Whether clones may share a range: never one that is no candidate, else as the
/// earlier comparison said, else after one.
pub fn share_verdict(candidate: bool, verified: Option<bool>) -> (r: ShareVerdict)
    ensures
        r == if !candidate {
            ShareVerdict::Known(false)
        } else {
            match verified {
                Some(v) => ShareVerdict::Known(v),
                None => ShareVerdict::Compare,
            }
        },
{
    if !candidate {
        ShareVerdict::Known(false)
    } else {
        match verified {
            Some(v) => ShareVerdict::Known(v),
            None => ShareVerdict::Compare,
        }
    }
}

/// Whether a fork shares weights: it asks for it and nothing forbids it.
pub fn sharing_active(share_weights: bool, configured: Option<&str>) -> (r: bool)
    ensures
        r == (share_weights && !sharing_disabled(opt_str(configured))),
{
    share_weights && !share_kill_switch(configured)
}

/// Bytes of the ranges that are not shared.
pub open spec fn private_bytes(chunks: Seq<GoldenChunk>, safe: Seq<bool>, sharing: bool) -> u64
    decreases chunks.len(),
{
    if chunks.len() == 0 {
        0
    } else {
        let front = private_bytes(chunks.drop_last(), safe, sharing);
        if sharing && safe[chunks.len() - 1] {
            front
        } else {
            sat_add(front, chunks.last().size)
        }
    }
}

/// `start` and the bytes of the allocations.
pub open spec fn with_allocs(start: u64, allocs: Seq<(u64, u64)>) -> u64
    decreases allocs.len(),
{
    if allocs.len() == 0 {
        start
    } else {
        sat_add(with_allocs(start, allocs.drop_last()), allocs.last().1)
    }
}

/// Bytes that a host snapshot takes: every range that is not shared and every
/// ordinary allocation, held at the largest number.
pub fn snapshot_required(
    chunks: &[GoldenChunk],
    safe: &[bool],
    sharing: bool,
    allocs: &[(u64, u64)],
) -> (r: u64)
    requires
        chunks@.len() == safe@.len(),
    ensures
        r == with_allocs(private_bytes(chunks@, safe@, sharing), allocs@),
{
    let mut total: u64 = 0;
    let mut i: usize = 0;
    proof { assert(chunks@.take(0) =~= Seq::empty()); }
    while i < chunks.len()
        invariant
            i <= chunks@.len(),
            chunks@.len() == safe@.len(),
            total == private_bytes(chunks@.take(i as int), safe@, sharing),
        decreases chunks@.len() - i,
    {
        proof {
            assert(chunks@.take(i + 1).drop_last() =~= chunks@.take(i as int));
            assert(chunks@.take(i + 1).last() == chunks@[i as int]);
        }
        if !(sharing && safe[i]) {
            total = total.saturating_add(chunks[i].size);
        }
        i = i + 1;
    }
    proof { assert(chunks@.take(chunks@.len() as int) =~= chunks@); }
    let ghost start = total;
    let mut j: usize = 0;
    proof { assert(allocs@.take(0) =~= Seq::empty()); }
    while j < allocs.len()
        invariant
            j <= allocs@.len(),
            total == with_allocs(start, allocs@.take(j as int)),
        decreases allocs@.len() - j,
    {
        proof {
            assert(allocs@.take(j + 1).drop_last() =~= allocs@.take(j as int));
            assert(allocs@.take(j + 1).last() == allocs@[j as int]);
        }
        total = total.saturating_add(allocs[j].1);
        j = j + 1;
    }
    proof { assert(allocs@.take(allocs@.len() as int) =~= allocs@); }
    total
}

/// Whether the golden's memory goes to a host snapshot: it is asked for, there is
/// memory that can be restored at its own addresses, and the host has room.
pub fn takes_host_snapshot(requested: bool, vmm_maps: usize, ordinary_allocs: usize, fits: bool) -> (r:
    bool)
    ensures
        r == (requested && (vmm_maps > 0 || ordinary_allocs > 0) && fits),
{
    let memory_bearing = vmm_maps > 0 || ordinary_allocs > 0;
    requested && memory_bearing && host_snapshot_reconstructable(vmm_maps, ordinary_allocs) && fits
}

/// Whether a range is copied to the host snapshot or handed over as it is.
#[derive(Debug, Clone, Copy, PartialEq, Eq, Structural)]
pub enum ChunkPlan {
    /// Copy it to the snapshot; hand it over as it is if that fails.
    Copy,
    /// Hand it over as it is.
    Export,
}

/// Of two ranges in the snapshot, the first ends before the second begins.
pub open spec fn in_order(a: MapEntry, b: MapEntry) -> bool {
    a.host_offset is Some && b.host_offset is Some ==> a.host_offset->Some_0 + a.size
        <= b.host_offset->Some_0
}

/// The layout of a worker while it is put together.
#[derive(Debug)]
pub struct LayoutBuilder {
    /// Memory goes to a host snapshot.
    pub host_snapshot: bool,
    /// Index of the snapshot's descriptor, if there is one.
    pub snapshot: Option<i32>,
    /// Where the snapshot ends so far.
    pub offset: u64,
    /// Descriptors so far.
    pub descriptors: i32,
    /// The snapshot holds everything it should.
    pub complete: bool,
    /// Ranges so far.
    pub maps: Vec<MapEntry>,
}

/// The mathematical value of a [`LayoutBuilder`].
#[verifier::ext_equal]
pub struct BuilderModel {
    pub host_snapshot: bool,
    pub snapshot: Option<i32>,
    pub offset: u64,
    pub descriptors: i32,
    pub complete: bool,
    pub maps: Seq<MapEntry>,
}

impl View for LayoutBuilder {
    type V = BuilderModel;

    open spec fn view(&self) -> BuilderModel {
        BuilderModel {
            host_snapshot: self.host_snapshot,
            snapshot: self.snapshot,
            offset: self.offset,
            descriptors: self.descriptors,
            complete: self.complete,
            maps: self.maps@,
        }
    }
}

/// A layout without ranges.
pub open spec fn empty_layout(host_snapshot: bool, created: bool) -> BuilderModel {
    let has = host_snapshot && created;
    BuilderModel {
        host_snapshot,
        snapshot: if has {
            Some(0i32)
        } else {
            None
        },
        offset: 0,
        descriptors: if has {
            1
        } else {
            0
        },
        complete: has,
        maps: Seq::empty(),
    }
}

impl BuilderModel {
    /// A range was copied to the end of the snapshot.
    pub open spec fn with_copied(self, chunk: GoldenChunk) -> BuilderModel {
        BuilderModel {
            maps: self.maps.push(
                MapEntry {
                    va: chunk.va,
                    size: chunk.size,
                    index: self.snapshot->Some_0,
                    loaded: false,
                    handle: Some(chunk.handle),
                    host_offset: Some(self.offset),
                },
            ),
            offset: (self.offset + chunk.size) as u64,
            ..self
        }
    }

    /// A range was handed over as it is, under the next descriptor.
    pub open spec fn with_exported(self, chunk: GoldenChunk, safe: bool) -> BuilderModel {
        BuilderModel {
            maps: self.maps.push(
                MapEntry {
                    va: chunk.va,
                    size: chunk.size,
                    index: self.descriptors,
                    loaded: safe,
                    handle: Some(chunk.handle),
                    host_offset: None,
                },
            ),
            descriptors: (self.descriptors + 1) as i32,
            ..self
        }
    }
}

impl LayoutBuilder {
    /// The descriptors of all ranges so far exist, and the snapshot's is the first; no two
    /// ranges share a byte of the snapshot.
    pub open spec fn wf(&self) -> bool {
        &&& 0 <= self.descriptors
        &&& self.snapshot matches Some(i) ==> i == 0 && self.descriptors > 0
        &&& forall|i: int|
            0 <= i < self.maps@.len() ==> 0 <= (#[trigger] self.maps@[i]).index < self.descriptors
                && self.maps@[i].handle is Some && (self.maps@[i].host_offset matches Some(o)
                ==> self.snapshot == Some(self.maps@[i].index) && o + self.maps@[i].size
                <= self.offset)
        &&& forall|i: int, j: int|
            #![trigger self.maps@[i], self.maps@[j]]
            0 <= i < j < self.maps@.len() ==> in_order(self.maps@[i], self.maps@[j])
    }

    /// An empty layout. `created` tells whether a snapshot that is wanted could be
    /// created; its descriptor is the first.
    pub fn new(host_snapshot: bool, created: bool) -> (r: Self)
        ensures
            r.wf(),
            r@ == empty_layout(host_snapshot, created),
    {
        let has = host_snapshot && created;
        let r = LayoutBuilder {
            host_snapshot,
            snapshot: if has {
                Some(0)
            } else {
                None
            },
            offset: 0,
            descriptors: if has {
                1
            } else {
                0
            },
            complete: has,
            maps: Vec::new(),
        };
        proof { assert(r@.maps =~= Seq::empty()); }
        r
    }

    /// What to do with a range: what is not shared goes to the snapshot. A range that
    /// should go there when there is none leaves the snapshot incomplete.
    pub fn plan(&mut self, sharing: bool, safe: bool) -> (r: ChunkPlan)
        ensures
            *final(self) == (LayoutBuilder {
                complete: old(self).complete && !(old(self).host_snapshot && !(sharing && safe)
                    && old(self).snapshot is None),
                ..*old(self)
            }),
            r == if old(self).host_snapshot && !(sharing && safe) && old(self).snapshot is Some {
                ChunkPlan::Copy
            } else {
                ChunkPlan::Export
            },
    {
        if self.host_snapshot && !(sharing && safe) {
            if self.snapshot.is_some() {
                return ChunkPlan::Copy;
            }
            self.complete = false;
        }
        ChunkPlan::Export
    }

    /// Notes that a range was copied to the end of the snapshot.
    pub fn copied(&mut self, chunk: &GoldenChunk)
        requires
            old(self).wf(),
            old(self).snapshot is Some,
            old(self).offset + chunk.size <= u64::MAX,
        ensures
            final(self).wf(),
            final(self)@ == old(self)@.with_copied(*chunk),
    {
        match self.snapshot {
            Some(index) => {
                let ghost before = self.maps@;
                self.maps.push(
                    MapEntry {
                        va: chunk.va,
                        size: chunk.size,
                        index,
                        loaded: false,
                        handle: Some(chunk.handle),
                        host_offset: Some(self.offset),
                    },
                );
                self.offset = self.offset + chunk.size;
                proof {
                    assert forall|i: int| 0 <= i < self.maps@.len() implies 0 <= (
                    #[trigger] self.maps@[i]).index < self.descriptors && self.maps@[i].handle
                        is Some && (self.maps@[i].host_offset matches Some(o) ==> self.snapshot
                        == Some(self.maps@[i].index) && o + self.maps@[i].size <= self.offset) by {
                        if i < before.len() {
                            assert(self.maps@[i] == before[i]);
                        }
                    }
                }
            },
            None => {},
        }
    }

    /// Notes that a range could not be copied to the snapshot.
    pub fn copy_failed(&mut self)
        ensures
            *final(self) == (LayoutBuilder { complete: false, ..*old(self) }),
    {
        self.complete = false;
    }

    /// Notes that a range was handed over as it is, under the next descriptor.
    pub fn exported(&mut self, chunk: &GoldenChunk, safe: bool)
        requires
            old(self).wf(),
            old(self).descriptors < i32::MAX,
        ensures
            final(self).wf(),
            final(self)@ == old(self)@.with_exported(*chunk, safe),
    {
        let ghost before = self.maps@;
        self.maps.push(
            MapEntry {
                va: chunk.va,
                size: chunk.size,
                index: self.descriptors,
                loaded: safe,
                handle: Some(chunk.handle),
                host_offset: None,
            },
        );
        self.descriptors = self.descriptors + 1;
        proof {
            assert forall|i: int| 0 <= i < self.maps@.len() implies 0 <= (
            #[trigger] self.maps@[i]).index < self.descriptors && self.maps@[i].handle is Some && (
            self.maps@[i].host_offset matches Some(o) ==> self.snapshot == Some(self.maps@[i].index)
                && o + self.maps@[i].size <= self.offset) by {
                if i < before.len() {
                    assert(self.maps@[i] == before[i]);
                }
            }
        }
    }

    /// Whether ordinary allocations are copied to the snapshot: wherever there is one,
    /// whatever became of the ranges.
    pub fn takes_ordinary(&self) -> (r: bool)
        ensures
            r == (self.host_snapshot && self.snapshot is Some),
    {
        self.host_snapshot && self.snapshot.is_some()
    }

    /// Whether the snapshot can stand for the golden once it is sealed: every range that
    /// should be in it is, and so are the ordinary allocations.
    pub fn stands_for_golden(&self, ordinary_staged: bool, sealed: bool) -> (r: bool)
        ensures
            r == (self.complete && !ordinary_staged && sealed),
    {
        self.complete && !ordinary_staged && sealed
    }

    /// The layout without ordinary allocations.
    pub fn finish(self, reservations: Vec<(u64, u64)>) -> (r: CloneLayout)
        requires
            self.wf(),
        ensures
            r@ == (LayoutModel {
                reservations: reservations@,
                maps: self.maps@,
                stage: None,
                host: None,
                regions_given: false,
                regions: Seq::empty(),
                allocs: Seq::empty(),
            }),
            writable(r@),
    {
        let r = CloneLayout {
            reservations,
            maps: self.maps,
            stage: None,
            host: None,
            regions_given: false,
            regions: Vec::new(),
            allocs: Vec::new(),
        };
        proof {
            assert(r.regions@ =~= Seq::empty());
            assert(r.allocs@ =~= Seq::empty());
        }
        r
    }

    /// The layout with ordinary allocations whose bytes lie in the host snapshot.
    pub fn finish_with_host(
        self,
        reservations: Vec<(u64, u64)>,
        regions: Vec<(u64, u64, u64)>,
        allocs: Vec<(u64, u64, Option<u64>)>,
    ) -> (r: CloneLayout)
        requires
            self.wf(),
            self.snapshot is Some,
        ensures
            writable(r@),
            r@ == (LayoutModel {
                reservations: reservations@,
                maps: self.maps@,
                stage: None,
                host: self.snapshot,
                regions_given: regions@.len() > 0,
                regions: regions@,
                allocs: allocs@,
            }),
    {
        CloneLayout {
            reservations,
            maps: self.maps,
            stage: None,
            host: self.snapshot,
            regions_given: regions.len() > 0,
            regions,
            allocs,
        }
    }

    /// The layout with ordinary allocations staged under the next descriptor; their
    /// bytes are not in the host snapshot, which is then not complete.
    pub fn finish_with_stage(
        self,
        reservations: Vec<(u64, u64)>,
        regions: Vec<(u64, u64, u64)>,
        allocs: Vec<(u64, u64, Option<u64>)>,
    ) -> (r: CloneLayout)
        requires
            self.wf(),
        ensures
            writable(r@),
            r@ == (LayoutModel {
                reservations: reservations@,
                maps: self.maps@,
                stage: Some(self.descriptors),
                host: None,
                regions_given: regions@.len() > 0,
                regions: regions@,
                allocs: allocs@,
            }),
    {
        let regions_given = regions.len() > 0;
        CloneLayout {
            reservations,
            maps: self.maps,
            stage: Some(self.descriptors),
            host: None,
            regions_given,
            regions,
            allocs,
        }
    }
}

// ---------------------------------------------------------------------------
// Ordinary allocations
// ---------------------------------------------------------------------------

/// Smallest granularity for the regions of ordinary allocations.
pub const MIN_REGION_GRANULARITY: u64 = 0x1_0000;

/// The granularity of regions: what the driver reports, at least the smallest.
pub fn region_granularity(reported: Option<u64>) -> (r: u64)
    ensures
        r == region_granularity_of(reported),
        r >= MIN_REGION_GRANULARITY,
{
    let g = match reported {
        Some(g) => g,
        None => DEFAULT_GRANULARITY,
    };
    if g >= MIN_REGION_GRANULARITY {
        g
    } else {
        MIN_REGION_GRANULARITY
    }
}

/// The granularity of regions.
pub open spec fn region_granularity_of(reported: Option<u64>) -> u64 {
    let g = match reported {
        Some(g) => g,
        None => DEFAULT_GRANULARITY,
    };
    if g >= MIN_REGION_GRANULARITY {
        g
    } else {
        MIN_REGION_GRANULARITY
    }
}

/// Every allocation ends where its granule can be addressed.
pub open spec fn addressable(allocs: Seq<(u64, u64)>, granularity: u64) -> bool {
    forall|i: int|
        0 <= i < allocs.len() ==> (#[trigger] allocs[i]).0 + allocs[i].1 + granularity - 1
            <= u64::MAX
}

/// The spans of whole granules that hold ordinary allocations, joined where they
/// touch.
pub open spec fn alloc_spans(allocs: Seq<(u64, u64)>, granularity: u64) -> Seq<(u64, u64)> {
    merged_spans(sorted_pairs(granule_spans(allocs, (granularity - 1) as u64)))
}

/// Spans with their offsets behind each other.
pub open spec fn laid_out(spans: Seq<(u64, u64)>) -> Seq<(u64, u64, u64)>
    decreases spans.len(),
{
    if spans.len() == 0 {
        Seq::empty()
    } else {
        let s = spans.last();
        laid_out(spans.drop_last()).push(
            (s.0, (s.1 - s.0) as u64, span_total(spans.drop_last()) as u64),
        )
    }
}

/// The total length of spans.
pub open spec fn span_total(spans: Seq<(u64, u64)>) -> nat
    decreases spans.len(),
{
    if spans.len() == 0 {
        0
    } else {
        span_total(spans.drop_last()) + (spans.last().1 - spans.last().0) as nat
    }
}

/// Spans that are apart together span no more than they reach.
pub(crate) proof fn lemma_span_total(spans: Seq<(u64, u64)>)
    requires
        proper(spans),
        apart(spans),
    ensures
        span_total(spans) <= if spans.len() == 0 {
            0
        } else {
            spans.last().1 as nat
        },
    decreases spans.len(),
{
    if spans.len() > 0 {
        let front = spans.drop_last();
        assert forall|i: int| 0 <= i < front.len() implies (#[trigger] front[i]).0 <= front[i].1 by {
            assert(front[i] == spans[i]);
        }
        assert forall|i: int, j: int|
            #![trigger front[i], front[j]]
            0 <= i < j < front.len() implies front[i].1 < front[j].0 by {
            assert(front[i] == spans[i]);
            assert(front[j] == spans[j]);
        }
        lemma_span_total(front);
        let n = spans.len() - 1;
        assert(spans[n].0 <= spans[n].1);
        if front.len() > 0 {
            assert(spans[n - 1].1 < spans[n].0);
            assert(front.last() == spans[n - 1]);
        }
    }
}

/// The regions of ordinary allocations: where each lies and where its bytes lie in
/// the staging area.
pub fn alloc_regions(allocs: &[(u64, u64)], granularity: u64) -> (r: Vec<(u64, u64, u64)>)
    requires
        granularity > 0,
        addressable(allocs@, granularity),
    ensures
        r@ == laid_out(alloc_spans(allocs@, granularity)),
{
    let mask = granularity - 1;
    let mut spans: Vec<(u64, u64)> = Vec::new();
    let mut i: usize = 0;
    while i < allocs.len()
        invariant
            i <= allocs@.len(),
            mask == granularity - 1,
            addressable(allocs@, granularity),
            spans@.len() == i,
            forall|j: int| 0 <= j < i ==> #[trigger] spans@[j] == granule_span(allocs@[j], mask),
        decreases allocs@.len() - i,
    {
        let (d, size) = allocs[i];
        assert(allocs@[i as int].0 + allocs@[i as int].1 + granularity - 1 <= u64::MAX);
        spans.push((d & !mask, (d + size + mask) & !mask));
        i = i + 1;
    }
    proof { assert(spans@ =~= granule_spans(allocs@, mask)); }
    let sorted = sort_pairs(&spans);
    let merged = merge_spans(&sorted);
    proof { lemma_spans_proper(allocs@, mask); }
    let mut out: Vec<(u64, u64, u64)> = Vec::new();
    let mut offset: u64 = 0;
    let mut j: usize = 0;
    proof { assert(laid_out(merged@.take(0)) =~= out@); }
    while j < merged.len()
        invariant
            j <= merged@.len(),
            proper(merged@),
            apart(merged@),
            offset == span_total(merged@.take(j as int)),
            out@ == laid_out(merged@.take(j as int)),
        decreases merged@.len() - j,
    {
        let (base, end) = merged[j];
        proof {
            let now = merged@.take(j + 1);
            assert(now.drop_last() =~= merged@.take(j as int));
            assert(now.last() == merged@[j as int]);
            assert(merged@[j as int].0 <= merged@[j as int].1);
            assert forall|i: int| 0 <= i < now.len() implies (#[trigger] now[i]).0 <= now[i].1 by {
                assert(now[i] == merged@[i]);
            }
            assert forall|a: int, b: int|
                #![trigger now[a], now[b]]
                0 <= a < b < now.len() implies now[a].1 < now[b].0 by {
                assert(now[a] == merged@[a]);
                assert(now[b] == merged@[b]);
            }
            lemma_span_total(now);
        }
        out.push((base, end - base, offset));
        offset = offset + (end - base);
        j = j + 1;
    }
    proof { assert(merged@.take(merged@.len() as int) =~= merged@); }
    out
}

/// Ordinary allocations with their places in a host snapshot from `offset` on.
pub open spec fn host_placed(allocs: Seq<(u64, u64)>, offset: u64) -> Seq<(u64, u64, Option<u64>)>
    decreases allocs.len(),
{
    if allocs.len() == 0 {
        Seq::empty()
    } else {
        let a = allocs.last();
        host_placed(allocs.drop_last(), offset).push(
            (a.0, a.1, Some((offset + sizes_total(allocs.drop_last())) as u64)),
        )
    }
}

/// The total length of allocations.
pub open spec fn sizes_total(allocs: Seq<(u64, u64)>) -> nat
    decreases allocs.len(),
{
    if allocs.len() == 0 {
        0
    } else {
        sizes_total(allocs.drop_last()) + allocs.last().1 as nat
    }
}

/// The first allocations together are no longer than all of them.
pub(crate) proof fn lemma_sizes_prefix(allocs: Seq<(u64, u64)>, n: int)
    requires
        0 <= n <= allocs.len(),
    ensures
        sizes_total(allocs.take(n)) <= sizes_total(allocs),
    decreases allocs.len() - n,
{
    if n == allocs.len() {
        assert(allocs.take(n) =~= allocs);
    } else {
        lemma_sizes_prefix(allocs, n + 1);
        assert(allocs.take(n + 1).drop_last() =~= allocs.take(n));
    }
}

/// Places ordinary allocations behind each other in a host snapshot.
pub fn place_in_host(allocs: &[(u64, u64)], offset: u64) -> (r: Vec<(u64, u64, Option<u64>)>)
    requires
        offset + sizes_total(allocs@) <= u64::MAX,
    ensures
        r@ == host_placed(allocs@, offset),
{
    let mut out: Vec<(u64, u64, Option<u64>)> = Vec::new();
    let mut at: u64 = offset;
    let mut i: usize = 0;
    proof { assert(host_placed(allocs@.take(0), offset) =~= out@); }
    while i < allocs.len()
        invariant
            i <= allocs@.len(),
            offset + sizes_total(allocs@) <= u64::MAX,
            at == offset + sizes_total(allocs@.take(i as int)),
            out@ == host_placed(allocs@.take(i as int), offset),
        decreases allocs@.len() - i,
    {
        proof {
            assert(allocs@.take(i + 1).drop_last() =~= allocs@.take(i as int));
            assert(allocs@.take(i + 1).last() == allocs@[i as int]);
            lemma_sizes_prefix(allocs@, i + 1);
        }
        out.push((allocs[i].0, allocs[i].1, Some(at)));
        at = at + allocs[i].1;
        i = i + 1;
    }
    proof { assert(allocs@.take(allocs@.len() as int) =~= allocs@); }
    out
}

/// Every ordinary allocation lies whole in one of the regions.
pub proof fn law_allocations_lie_in_regions(
    allocs: Seq<(u64, u64)>,
    granularity: u64,
    k: int,
)
    requires
        granularity > 0,
        addressable(allocs, granularity),
        0 <= k < allocs.len(),
    ensures
        exists|i: int|
            0 <= i < laid_out(alloc_spans(allocs, granularity)).len() && {
                let r = #[trigger] laid_out(alloc_spans(allocs, granularity))[i];
                r.0 <= allocs[k].0 && allocs[k].0 + allocs[k].1 <= r.0 + r.1
            },
{
    let mask = (granularity - 1) as u64;
    let spans = granule_spans(allocs, mask);
    let sorted = sorted_pairs(spans);
    let merged = merged_spans(sorted);
    lemma_spans_proper(allocs, mask);
    lemma_sorted_pairs(spans);
    lemma_merged(sorted);
    let a = allocs[k];
    let span = granule_span(a, mask);
    assert(spans[k] == span);
    assert(spans.contains(span));
    assert(sorted.contains(span));
    let n = choose|n: int| 0 <= n < sorted.len() && sorted[n] == span;
    assert(held(merged, sorted[n]));
    let i = choose|i: int|
        0 <= i < merged.len() && (#[trigger] merged[i]).0 <= span.0 && span.1 <= merged[i].1;
    lemma_granule_span(a.0, a.1, mask);
    lemma_laid_out(merged, i);
    assert(merged[i].0 <= merged[i].1);
    assert(merged == alloc_spans(allocs, granularity));
    let r = laid_out(alloc_spans(allocs, granularity))[i];
    assert(r.0 <= a.0 && a.0 + a.1 <= r.0 + r.1);
}

pub(crate) proof fn lemma_laid_out_len(spans: Seq<(u64, u64)>)
    ensures
        laid_out(spans).len() == spans.len(),
    decreases spans.len(),
{
    if spans.len() > 0 {
        lemma_laid_out_len(spans.drop_last());
    }
}

pub(crate) proof fn lemma_laid_out(spans: Seq<(u64, u64)>, i: int)
    requires
        0 <= i < spans.len(),
    ensures
        laid_out(spans).len() == spans.len(),
        laid_out(spans)[i] == (
            spans[i].0,
            (spans[i].1 - spans[i].0) as u64,
            span_total(spans.take(i)) as u64,
        ),
    decreases spans.len(),
{
    let front = spans.drop_last();
    reveal_with_fuel(laid_out, 2);
    if front.len() > 0 {
        lemma_laid_out(front, 0);
    }
    if i < front.len() {
        lemma_laid_out(front, i);
        assert(front.take(i) =~= spans.take(i));
        assert(front[i] == spans[i]);
    } else {
        assert(front =~= spans.take(i));
    }
}

// ---------------------------------------------------------------------------
// Descriptors
// ---------------------------------------------------------------------------

/// Which descriptors a worker finds where. The connection is the third, memory
/// starts at the fourth.
#[derive(Debug, Clone, Copy, PartialEq, Eq, Structural)]
pub struct WorkerSlots {
    /// Control channel.
    pub control: i32,
    /// Publication channel.
    pub publish: Option<i32>,
    /// Module handoff.
    pub module: Option<i32>,
    /// Image store of the handoff.
    pub images: Option<i32>,
    /// The first descriptor that no slot takes.
    pub source_minimum: i32,
}

/// Which descriptors a worker finds where: behind the memory, in a row, those that
/// there are.
pub open spec fn slots_for(exports: int, publish: bool, module: bool, images: bool) -> WorkerSlots {
    let control = FIRST_MEMORY_SLOT + exports;
    let p = control + 1;
    let m = p + if publish {
        1int
    } else {
        0
    };
    let i = m + if module {
        1int
    } else {
        0
    };
    let end = i + if images {
        1int
    } else {
        0
    };
    WorkerSlots {
        control: control as i32,
        publish: if publish {
            Some(p as i32)
        } else {
            None
        },
        module: if module {
            Some(m as i32)
        } else {
            None
        },
        images: if images {
            Some(i as i32)
        } else {
            None
        },
        source_minimum: end as i32,
    }
}

/// Which descriptors a worker finds where, with `exports` descriptors of memory.
pub fn worker_slots(exports: usize, publish: bool, module: bool, images: bool) -> (r: WorkerSlots)
    requires
        exports <= 0x7fff_fff0,
    ensures
        r == slots_for(exports as int, publish, module, images),
{
    let control = FIRST_MEMORY_SLOT + exports as i32;
    let p = control + 1;
    let m: i32 = if publish {
        p + 1
    } else {
        p
    };
    let i: i32 = if module {
        m + 1
    } else {
        m
    };
    let end: i32 = if images {
        i + 1
    } else {
        i
    };
    WorkerSlots {
        control,
        publish: if publish {
            Some(p)
        } else {
            None
        },
        module: if module {
            Some(m)
        } else {
            None
        },
        images: if images {
            Some(i)
        } else {
            None
        },
        source_minimum: end,
    }
}

/// The descriptors that a worker's slots take behind its memory.
pub open spec fn taken_slots(s: WorkerSlots) -> Seq<i32> {
    let a = seq![s.control];
    let b = if s.publish is Some {
        a.push(s.publish->Some_0)
    } else {
        a
    };
    let c = if s.module is Some {
        b.push(s.module->Some_0)
    } else {
        b
    };
    if s.images is Some {
        c.push(s.images->Some_0)
    } else {
        c
    }
}

/// No two slots take the same descriptor, none takes one of the memory's, and all
/// lie below where the sources are moved first, so that placing one never overwrites
/// another's source.
pub proof fn law_slots_do_not_collide(exports: int, publish: bool, module: bool, images: bool)
    requires
        0 <= exports <= 0x7fff_fff0,
    ensures
        ({
            let s = slots_for(exports, publish, module, images);
            let t = taken_slots(s);
            &&& t.no_duplicates()
            &&& forall|i: int|
                0 <= i < t.len() ==> FIRST_MEMORY_SLOT + exports <= #[trigger] t[i]
                    < s.source_minimum
        }),
{
}

// ---------------------------------------------------------------------------
// What a worker is told
// ---------------------------------------------------------------------------

/// What a worker is started with.
pub struct WorkerTask<'a> {
    /// Its memory layout.
    pub layout: &'a str,
    /// The golden's device.
    pub device: i32,
    /// Its descriptors.
    pub slots: WorkerSlots,
    /// Load modules ahead of their use.
    pub preload_modules: bool,
    /// Limits and pool.
    pub options: ServeOptions,
    /// The clone's live memory.
    pub procmem: Option<(u32, Vec<(u64, u64, u64)>)>,
    /// The clone's ring directory.
    pub ring_dir: Option<&'a str>,
    /// The fork asks to share weights.
    pub share_weights: bool,
    /// The configured sharing switch.
    pub configured_sharing: Option<&'a str>,
}

/// A number with its sign.
pub open spec fn signed_decimal(n: int) -> Seq<char> {
    if n < 0 {
        seq!['-'] + decimal((-n) as nat)
    } else {
        decimal(n as nat)
    }
}

/// A number with its sign.
pub fn signed_text(n: i32) -> (r: String)
    ensures
        r@ == signed_decimal(n as int),
{
    if n < 0 {
        let m = -(n as i64);
        let mut out: Vec<char> = vec!['-'];
        out.append(&mut decimal_chars(m as u128));
        proof { assert(out@ =~= signed_decimal(n as int)); }
        string_of(&out)
    } else {
        string_of(&decimal_chars(n as u128))
    }
}

/// A variable, if there is a value for it.
pub open spec fn optional_var(name: Seq<char>, value: Option<Seq<char>>) -> Seq<
    (Seq<char>, Seq<char>),
> {
    match value {
        Some(v) => seq![(name, v)],
        None => Seq::empty(),
    }
}

/// A descriptor as text.
pub open spec fn slot_text(slot: Option<i32>) -> Option<Seq<char>> {
    match slot {
        Some(n) => Some(signed_decimal(n as int)),
        None => None,
    }
}

/// The environment of a worker.
pub open spec fn worker_env_of(t: WorkerTask) -> Seq<(Seq<char>, Seq<char>)> {
    seq![
        ("SMOLVM_CUDA_CLONE_LAYOUT"@, t.layout@),
        ("SMOLVM_CUDA_CLONE_DEVICE"@, signed_decimal(t.device as int)),
        ("SMOLVM_CUDA_CLONE_CTRL"@, signed_decimal(t.slots.control as int)),
    ] + optional_var(
        "SMOLVM_CUDA_PRELOAD_MODULES"@,
        if t.preload_modules {
            Some("1"@)
        } else {
            None
        },
    ) + optional_var("SMOLVM_CUDA_CLONE_PUBLISH_CTRL"@, slot_text(t.slots.publish)) + optional_var(
        "SMOLVM_CUDA_VRAM_LIMIT_BYTES"@,
        match t.options.vram_limit_bytes {
            Some(n) => Some(decimal(n as nat)),
            None => None,
        },
    ) + optional_var(
        "SMOLVM_CUDA_FORK_POOL_SIZE"@,
        match t.options.fork_pool_size {
            Some(n) => Some(decimal(n as nat)),
            None => None,
        },
    ) + optional_var(
        "SMOLVM_CUDA_CLONE_PROCMEM"@,
        match t.procmem {
            Some((pid, regions)) => Some(procmem_text(pid, regions@)),
            None => None,
        },
    ) + optional_var("SMOLVM_CUDA_CLONE_RING_DIR"@, opt_str(t.ring_dir)) + optional_var(
        "SMOLVM_CUDA_FORK_SHARE_WEIGHTS"@,
        if sharing_disabled(opt_str(t.configured_sharing)) {
            Some("0"@)
        } else if t.share_weights {
            Some("1"@)
        } else {
            None
        },
    ) + optional_var("SMOLVM_CUDA_CLONE_MODULES_FD"@, slot_text(t.slots.module)) + optional_var(
        "SMOLVM_CUDA_CLONE_MODULE_IMAGES_FD"@,
        slot_text(t.slots.images),
    )
}

fn push_var(env: &mut Vec<(String, String)>, name: &str, value: Option<String>)
    ensures
        pairs(final(env)@) == pairs(old(env)@) + optional_var(name@, opt_text(value)),
{
    let ghost before = pairs(env@);
    match value {
        Some(v) => {
            env.push((name.to_owned(), v));
            proof { assert(pairs(env@) =~= before + seq![(name@, v@)]); }
        },
        None => {
            proof { assert(pairs(env@) =~= before + Seq::empty()); }
        },
    }
}

fn number_text(n: Option<u64>) -> (r: Option<String>)
    ensures
        opt_text(r) == match n {
            Some(n) => Some(decimal(n as nat)),
            None => None,
        },
{
    match n {
        Some(n) => Some(string_of(&decimal_chars(n as u128))),
        None => None,
    }
}

fn slot_value(slot: Option<i32>) -> (r: Option<String>)
    ensures
        opt_text(r) == slot_text(slot),
{
    match slot {
        Some(n) => Some(signed_text(n)),
        None => None,
    }
}

/// The environment of a worker, in the order it is set.
pub fn worker_env(t: &WorkerTask) -> (r: Vec<(String, String)>)
    ensures
        pairs(r@) == worker_env_of(*t),
{
    let mut env: Vec<(String, String)> = Vec::new();
    env.push(("SMOLVM_CUDA_CLONE_LAYOUT".to_owned(), t.layout.to_owned()));
    env.push(("SMOLVM_CUDA_CLONE_DEVICE".to_owned(), signed_text(t.device)));
    env.push(("SMOLVM_CUDA_CLONE_CTRL".to_owned(), signed_text(t.slots.control)));
    proof {
        assert(pairs(env@) =~= seq![
            ("SMOLVM_CUDA_CLONE_LAYOUT"@, t.layout@),
            ("SMOLVM_CUDA_CLONE_DEVICE"@, signed_decimal(t.device as int)),
            ("SMOLVM_CUDA_CLONE_CTRL"@, signed_decimal(t.slots.control as int)),
        ]);
    }
    push_var(
        &mut env,
        "SMOLVM_CUDA_PRELOAD_MODULES",
        if t.preload_modules {
            Some("1".to_owned())
        } else {
            None
        },
    );
    push_var(&mut env, "SMOLVM_CUDA_CLONE_PUBLISH_CTRL", slot_value(t.slots.publish));
    push_var(&mut env, "SMOLVM_CUDA_VRAM_LIMIT_BYTES", number_text(t.options.vram_limit_bytes));
    push_var(
        &mut env,
        "SMOLVM_CUDA_FORK_POOL_SIZE",
        match t.options.fork_pool_size {
            Some(n) => number_text(Some(n as u64)),
            None => None,
        },
    );
    push_var(
        &mut env,
        "SMOLVM_CUDA_CLONE_PROCMEM",
        match &t.procmem {
            Some(a) => Some(procmem_to_env(a.0, &a.1)),
            None => None,
        },
    );
    push_var(
        &mut env,
        "SMOLVM_CUDA_CLONE_RING_DIR",
        match t.ring_dir {
            Some(d) => Some(d.to_owned()),
            None => None,
        },
    );
    push_var(
        &mut env,
        "SMOLVM_CUDA_FORK_SHARE_WEIGHTS",
        match clone_worker_share_env(t.share_weights, t.configured_sharing) {
            Some(v) => Some(v.to_owned()),
            None => None,
        },
    );
    push_var(&mut env, "SMOLVM_CUDA_CLONE_MODULES_FD", slot_value(t.slots.module));
    push_var(&mut env, "SMOLVM_CUDA_CLONE_MODULE_IMAGES_FD", slot_value(t.slots.images));
    env
}

// ---------------------------------------------------------------------------
// What a worker finds
// ---------------------------------------------------------------------------

/// The variables that a worker looks at.
pub struct WorkerVars {
    pub layout: Option<String>,
    pub device: Option<String>,
    pub control: Option<String>,
    pub publish: Option<String>,
    pub procmem: Option<String>,
    pub ring_dir: Option<String>,
    pub modules_fd: Option<String>,
    pub module_images_fd: Option<String>,
    pub modules_path: Option<String>,
}

/// Where a worker finds its module handoff.
#[derive(Debug, PartialEq, Eq)]
pub enum ModuleSource {
    /// Nowhere: there is none.
    Nothing,
    /// In an inherited descriptor.
    Descriptor(i32),
    /// In a file, which it removes.
    File(String),
}

/// How a worker starts.
#[derive(Debug)]
pub struct WorkerSetup {
    pub layout: Option<String>,
    pub device: i32,
    pub control: Option<i32>,
    pub publish: Option<i32>,
    pub procmem: Option<(u32, Vec<(u64, u64, u64)>)>,
    pub ring_dir: Option<String>,
    pub modules: ModuleSource,
    pub module_images: Option<i32>,
}

/// Why a worker cannot start.
#[derive(Debug, Clone, Copy, PartialEq, Eq, Structural)]
pub enum WorkerSetupError {
    /// The descriptor of the module handoff is not a number.
    ModulesFd,
    /// The descriptor of the image store is not a number.
    ModuleImagesFd,
}

impl WorkerSetupError {
    /// What is said of it.
    pub open spec fn words(self) -> Seq<char> {
        match self {
            WorkerSetupError::ModulesFd => "CUDA module handoff fd is invalid"@,
            WorkerSetupError::ModuleImagesFd => "CUDA module image-store fd is invalid"@,
        }
    }

    /// What is said of it.
    pub fn text(self) -> (r: &'static str)
        ensures
            r@ == self.words(),
    {
        match self {
            WorkerSetupError::ModulesFd => "CUDA module handoff fd is invalid",
            WorkerSetupError::ModuleImagesFd => "CUDA module image-store fd is invalid",
        }
    }
}

/// The number that a variable holds.
pub open spec fn var_number(v: Option<String>) -> Option<int> {
    match v {
        Some(s) => parse_signed(s@),
        None => None,
    }
}

fn read_var(v: &Option<String>) -> (r: Option<i32>)
    ensures
        match r {
            Some(n) => var_number(*v) == Some(n as int),
            None => var_number(*v) is None,
        },
{
    match v {
        Some(s) => {
            let chars = chars_of(s.as_str());
            parse_i32(&chars)
        },
        None => None,
    }
}

/// Reads how a worker starts. A device that is no number is the first; channels that
/// are no numbers are not there; but a descriptor of modules must be one.
pub fn worker_setup(vars: &WorkerVars) -> (r: Result<WorkerSetup, WorkerSetupError>)
    ensures
        if vars.modules_fd is Some && var_number(vars.modules_fd) is None {
            r == Err::<WorkerSetup, _>(WorkerSetupError::ModulesFd)
        } else if vars.module_images_fd is Some && var_number(vars.module_images_fd) is None {
            r == Err::<WorkerSetup, _>(WorkerSetupError::ModuleImagesFd)
        } else {
            &&& r is Ok
            &&& ({
                let s = r->Ok_0;
                &&& opt_text(s.layout) == opt_text(vars.layout)
                &&& opt_text(s.ring_dir) == opt_text(vars.ring_dir)
                &&& s.device == match var_number(vars.device) {
                    Some(n) => n,
                    None => 0,
                }
                &&& opt_number(s.control) == var_number(vars.control)
                &&& opt_number(s.publish) == var_number(vars.publish)
                &&& opt_number(s.module_images) == var_number(vars.module_images_fd)
                &&& advert_view(s.procmem) == match vars.procmem {
                    Some(v) => parse_procmem_text(v@),
                    None => None,
                }
                &&& match (vars.modules_fd, vars.modules_path) {
                    (Some(_), _) => s.modules matches ModuleSource::Descriptor(n) && Some(n as int)
                        == var_number(vars.modules_fd),
                    (None, Some(p)) => s.modules matches ModuleSource::File(q) && q@ == p@,
                    (None, None) => s.modules is Nothing,
                }
            })
        },
{
    let modules_fd = read_var(&vars.modules_fd);
    if vars.modules_fd.is_some() && modules_fd.is_none() {
        return Err(WorkerSetupError::ModulesFd);
    }
    let module_images = read_var(&vars.module_images_fd);
    if vars.module_images_fd.is_some() && module_images.is_none() {
        return Err(WorkerSetupError::ModuleImagesFd);
    }
    let modules = match modules_fd {
        Some(n) => ModuleSource::Descriptor(n),
        None => match &vars.modules_path {
            Some(p) => ModuleSource::File(p.clone()),
            None => ModuleSource::Nothing,
        },
    };
    Ok(
        WorkerSetup {
            layout: copy_opt_text(&vars.layout),
            device: match read_var(&vars.device) {
                Some(n) => n,
                None => 0,
            },
            control: read_var(&vars.control),
            publish: read_var(&vars.publish),
            procmem: match &vars.procmem {
                Some(v) => procmem_from_env(v.as_str()),
                None => None,
            },
            ring_dir: copy_opt_text(&vars.ring_dir),
            modules,
            module_images,
        },
    )
}

/// An optional number.
pub open spec fn opt_number(n: Option<i32>) -> Option<int> {
    match n {
        Some(n) => Some(n as int),
        None => None,
    }
}

/// Attempts at an import or a mapping before it counts as failed.
pub const DRIVER_ATTEMPTS: u32 = 5;

/// Whether a driver call that failed is tried again, `attempt` counting from zero.
pub fn retries_driver_call(attempt: u32) -> (r: bool)
    ensures
        r == (attempt + 1 < DRIVER_ATTEMPTS),
{
    attempt < DRIVER_ATTEMPTS - 1
}

/// Whether a module handoff that a worker inherits can be mapped: it is a file that
/// is neither empty nor too long.
pub fn mappable_handoff(is_file: bool, bytes: u64) -> (r: bool)
    ensures
        r == (is_file && 0 < bytes <= MAX_MODULE_HANDOFF_BLOB_BYTES),
{
    is_file && bytes != 0 && bytes <= MAX_MODULE_HANDOFF_BLOB_BYTES
}

} // verus!
