//! Taking a golden's memory, so that workers can be given it.
//!
//! Each range is shared, copied to a snapshot on the host, or handed over as it is;
//! ordinary allocations are copied to the snapshot or staged. A snapshot that holds
//! everything can stand for the golden.
use crate::daemon::layout::{CloneLayout, LayoutModel};
use crate::daemon::layout_text::writable;
use crate::daemon::policy::{host_snapshot_fits, snapshot_fits};
use crate::daemon::worker::{
    BuilderModel, ChunkPlan, GoldenChunk, LayoutBuilder, addressable, alloc_regions, alloc_spans,
    empty_layout, host_placed, laid_out, lemma_sizes_prefix, place_in_host, private_bytes,
    sizes_total, snapshot_required, takes_host_snapshot, with_allocs,
};
use vstd::prelude::*;

verus! {

/// What is to be taken.
#[derive(Debug)]
pub struct FreezeJob {
    /// Mapped ranges.
    pub chunks: Vec<GoldenChunk>,
    /// Which of them clones may share.
    pub safe: Vec<bool>,
    /// Whether clones share at all.
    pub sharing: bool,
    /// Ordinary allocations: address and length.
    pub allocs: Vec<(u64, u64)>,
    /// Memory goes to a snapshot on the host.
    pub snapshot: bool,
}

/// The mathematical value of a [`FreezeJob`].
#[verifier::ext_equal]
pub struct JobModel {
    pub chunks: Seq<GoldenChunk>,
    pub safe: Seq<bool>,
    pub sharing: bool,
    pub allocs: Seq<(u64, u64)>,
    pub snapshot: bool,
}

impl View for FreezeJob {
    type V = JobModel;

    open spec fn view(&self) -> JobModel {
        JobModel {
            chunks: self.chunks@,
            safe: self.safe@,
            sharing: self.sharing,
            allocs: self.allocs@,
            snapshot: self.snapshot,
        }
    }
}

impl JobModel {
    /// Clones share the range.
    pub open spec fn shares(self, k: int) -> bool {
        self.sharing && self.safe[k]
    }

    /// Bytes of the ranges from `i` on that are not shared.
    pub open spec fn private_from(self, i: int) -> nat
        decreases self.chunks.len() - i,
    {
        if i >= self.chunks.len() {
            0
        } else if self.shares(i) {
            self.private_from(i + 1)
        } else {
            self.chunks[i].size as nat + self.private_from(i + 1)
        }
    }

    /// Of every range it is known whether it may be shared, and what goes to a snapshot
    /// can be addressed there.
    pub open spec fn wf(self) -> bool {
        &&& self.chunks.len() == self.safe.len()
        &&& self.chunks.len() <= 0x7fff_fff0
        &&& self.allocs.len() <= usize::MAX
        &&& self.snapshot ==> self.private_from(0) + sizes_total(self.allocs) <= u64::MAX
    }
}

impl FreezeJob {
    /// Plans to take a golden's memory. It goes to a snapshot if that is asked for, there
    /// is any, and a host that reports `meminfo` has room.
    pub fn plan(
        chunks: Vec<GoldenChunk>,
        safe: Vec<bool>,
        sharing: bool,
        allocs: Vec<(u64, u64)>,
        requested: bool,
        meminfo: Option<&str>,
    ) -> (r: Self)
        requires
            chunks@.len() == safe@.len(),
            chunks@.len() <= 0x7fff_fff0,
        ensures
            r@ == (JobModel {
                chunks: chunks@,
                safe: safe@,
                sharing,
                allocs: allocs@,
                snapshot: requested && (chunks@.len() > 0 || allocs@.len() > 0) && match meminfo {
                    Some(m) => snapshot_fits(
                        with_allocs(private_bytes(chunks@, safe@, sharing), allocs@),
                        m@,
                    ),
                    None => false,
                },
            }),
            r@.wf(),
    {
        let required = snapshot_required(&chunks, &safe, sharing, &allocs);
        let fits = match meminfo {
            Some(m) => host_snapshot_fits(required, m),
            None => false,
        };
        let snapshot = takes_host_snapshot(requested, chunks.len(), allocs.len(), fits);
        let count: usize = allocs.len();
        let r = FreezeJob { chunks, safe, sharing, allocs, snapshot };
        proof {
            assert(count == r@.allocs.len());
            if snapshot {
                lemma_required(r@);
            }
        }
        r
    }
}

/// A host that has room for a snapshot can address it.
proof fn lemma_required(j: JobModel)
    requires
        j.chunks.len() == j.safe.len(),
        with_allocs(private_bytes(j.chunks, j.safe, j.sharing), j.allocs) < u64::MAX,
    ensures
        j.private_from(0) + sizes_total(j.allocs) <= u64::MAX,
{
    lemma_with_allocs(private_bytes(j.chunks, j.safe, j.sharing), j.allocs);
    lemma_private(j, j.chunks.len() as int);
    assert(j.chunks.take(j.chunks.len() as int) =~= j.chunks);
}

/// A total that was not held at the largest number is exact.
proof fn lemma_with_allocs(start: u64, allocs: Seq<(u64, u64)>)
    ensures
        with_allocs(start, allocs) < u64::MAX ==> with_allocs(start, allocs) == start
            + sizes_total(allocs),
    decreases allocs.len(),
{
    if allocs.len() > 0 {
        lemma_with_allocs(start, allocs.drop_last());
    }
}

proof fn lemma_private(j: JobModel, n: int)
    requires
        j.chunks.len() == j.safe.len(),
        0 <= n <= j.chunks.len(),
    ensures
        private_bytes(j.chunks.take(n), j.safe, j.sharing) < u64::MAX ==> private_bytes(
            j.chunks.take(n),
            j.safe,
            j.sharing,
        ) + j.private_from(n) == j.private_from(0),
    decreases n,
{
    if n > 0 {
        lemma_private(j, n - 1);
        assert(j.chunks.take(n).drop_last() =~= j.chunks.take(n - 1));
        assert(j.chunks.take(n).last() == j.chunks[n - 1]);
    }
}

/// Where taking a golden's memory stands.
#[derive(Debug, Clone, Copy, PartialEq, Eq, Structural)]
pub enum FreezeStep {
    /// Create the snapshot.
    Create,
    /// Copy range `i` to the end of the snapshot.
    Copy { i: usize },
    /// Export range `i` as it is.
    Export { i: usize },
    /// Copy ordinary allocation `i` to the snapshot, at `at`.
    CopyOrdinary { i: usize, at: u64 },
    /// Stage the ordinary allocations, and export them.
    Stage,
    /// Seal the snapshot.
    Seal,
    /// All of it is taken.
    Done,
    /// Something could not be handed over.
    Failed,
}

/// A golden's memory while it is taken.
#[derive(Debug)]
pub struct Freeze {
    pub step: FreezeStep,
    /// The layout so far.
    pub layout: LayoutBuilder,
    /// Ordinary allocations are staged.
    pub staged: bool,
    /// The snapshot can stand for the golden.
    pub retained: bool,
}

/// The mathematical value of a [`Freeze`].
#[verifier::ext_equal]
pub struct FreezeModel {
    pub step: FreezeStep,
    pub layout: BuilderModel,
    pub staged: bool,
    pub retained: bool,
}

impl View for Freeze {
    type V = FreezeModel;

    open spec fn view(&self) -> FreezeModel {
        FreezeModel {
            step: self.step,
            layout: self.layout@,
            staged: self.staged,
            retained: self.retained,
        }
    }
}

/// A snapshot is sealed only if it holds everything.
pub open spec fn all_taken(f: FreezeModel) -> FreezeModel {
    FreezeModel {
        step: if f.layout.complete && !f.staged {
            FreezeStep::Seal
        } else {
            FreezeStep::Done
        },
        ..f
    }
}

/// Ordinary allocations go to the snapshot wherever there is one, and are staged
/// otherwise.
pub open spec fn ordinary_from(j: JobModel, f: FreezeModel) -> FreezeModel {
    if j.allocs.len() == 0 {
        all_taken(f)
    } else if f.layout.host_snapshot && f.layout.snapshot is Some {
        FreezeModel { step: FreezeStep::CopyOrdinary { i: 0, at: f.layout.offset }, ..f }
    } else {
        FreezeModel { step: FreezeStep::Stage, ..f }
    }
}

/// From range `i` on: what is not shared goes to the snapshot. One that should go there
/// when there is none leaves the snapshot incomplete.
pub open spec fn chunk_from(j: JobModel, f: FreezeModel, i: int) -> FreezeModel {
    if i >= j.chunks.len() {
        ordinary_from(j, f)
    } else if !f.layout.host_snapshot || j.shares(i) {
        FreezeModel { step: FreezeStep::Export { i: i as usize }, ..f }
    } else if f.layout.snapshot is Some {
        FreezeModel { step: FreezeStep::Copy { i: i as usize }, ..f }
    } else {
        FreezeModel {
            step: FreezeStep::Export { i: i as usize },
            layout: BuilderModel { complete: false, ..f.layout },
            ..f
        }
    }
}

/// The start.
pub open spec fn first_freeze(j: JobModel) -> FreezeModel {
    let f = FreezeModel {
        step: FreezeStep::Create,
        layout: empty_layout(false, false),
        staged: false,
        retained: false,
    };
    if j.snapshot {
        f
    } else {
        chunk_from(j, f, 0)
    }
}

/// What follows a step that did or did not work. A range that cannot be copied is
/// exported; ordinary allocations that cannot be copied are staged; what can be neither
/// fails the whole.
pub open spec fn next_freeze(j: JobModel, f: FreezeModel, ok: bool) -> FreezeModel {
    match f.step {
        FreezeStep::Create => chunk_from(
            j,
            FreezeModel { layout: empty_layout(true, ok), ..f },
            0,
        ),
        FreezeStep::Copy { i } => if ok {
            chunk_from(
                j,
                FreezeModel { layout: f.layout.with_copied(j.chunks[i as int]), ..f },
                i + 1,
            )
        } else {
            FreezeModel {
                step: FreezeStep::Export { i },
                layout: BuilderModel { complete: false, ..f.layout },
                ..f
            }
        },
        FreezeStep::Export { i } => if ok {
            chunk_from(
                j,
                FreezeModel {
                    layout: f.layout.with_exported(j.chunks[i as int], j.safe[i as int]),
                    ..f
                },
                i + 1,
            )
        } else {
            FreezeModel { step: FreezeStep::Failed, ..f }
        },
        FreezeStep::CopyOrdinary { i, at } => if !ok {
            FreezeModel { step: FreezeStep::Stage, ..f }
        } else if i + 1 < j.allocs.len() {
            FreezeModel {
                step: FreezeStep::CopyOrdinary {
                    i: (i + 1) as usize,
                    at: (at + j.allocs[i as int].1) as u64,
                },
                ..f
            }
        } else {
            all_taken(f)
        },
        FreezeStep::Stage => if ok {
            all_taken(FreezeModel { staged: true, ..f })
        } else {
            FreezeModel { step: FreezeStep::Failed, ..f }
        },
        FreezeStep::Seal => FreezeModel { step: FreezeStep::Done, retained: ok, ..f },
        FreezeStep::Done => f,
        FreezeStep::Failed => f,
    }
}

/// How many ranges are taken at a step.
pub open spec fn taken(j: JobModel, step: FreezeStep) -> int {
    match step {
        FreezeStep::Create => 0,
        FreezeStep::Copy { i } => i as int,
        FreezeStep::Export { i } => i as int,
        _ => j.chunks.len() as int,
    }
}

/// The layout holds the ranges that are taken, and the snapshot has room for the rest.
pub open spec fn freezing(j: JobModel, f: FreezeModel) -> bool {
    let b = f.layout;
    let done = taken(j, f.step);
    &&& b.host_snapshot ==> j.snapshot
    &&& b.snapshot is Some ==> b.host_snapshot
    &&& b.complete || f.retained ==> b.snapshot is Some
    &&& 0 <= b.descriptors <= b.maps.len() + 1
    &&& f.step is Failed || (b.maps.len() == done && (j.snapshot ==> b.offset + j.private_from(
        done,
    ) + sizes_total(j.allocs) <= u64::MAX))
    &&& !(f.step is Done || f.step is Failed) ==> !f.staged && !f.retained
    &&& match f.step {
        FreezeStep::Create => j.snapshot,
        FreezeStep::Copy { i } => i < j.chunks.len() && b.snapshot is Some && !j.shares(i as int),
        FreezeStep::Export { i } => i < j.chunks.len(),
        FreezeStep::CopyOrdinary { i, at } => i < j.allocs.len() && b.snapshot is Some && at
            == b.offset + sizes_total(j.allocs.take(i as int)),
        FreezeStep::Seal => b.complete && (j.allocs.len() > 0 ==> b.snapshot is Some),
        FreezeStep::Done => f.staged || (j.allocs.len() > 0 ==> b.snapshot is Some),
        _ => true,
    }
}

/// The layout that comes of it.
pub open spec fn frozen_layout(
    j: JobModel,
    f: FreezeModel,
    reservations: Seq<(u64, u64)>,
    granularity: u64,
) -> LayoutModel {
    let regions = laid_out(alloc_spans(j.allocs, granularity));
    if j.allocs.len() == 0 {
        LayoutModel {
            reservations,
            maps: f.layout.maps,
            stage: None,
            host: None,
            regions_given: false,
            regions: Seq::empty(),
            allocs: Seq::empty(),
        }
    } else if f.staged {
        LayoutModel {
            reservations,
            maps: f.layout.maps,
            stage: Some(f.layout.descriptors),
            host: None,
            regions_given: regions.len() > 0,
            regions,
            allocs: j.allocs.map_values(|a: (u64, u64)| (a.0, a.1, None::<u64>)),
        }
    } else {
        LayoutModel {
            reservations,
            maps: f.layout.maps,
            stage: None,
            host: f.layout.snapshot,
            regions_given: regions.len() > 0,
            regions,
            allocs: host_placed(j.allocs, f.layout.offset),
        }
    }
}

impl Freeze {
    /// It takes the memory of the job.
    pub open spec fn wf(&self, j: JobModel) -> bool {
        self.layout.wf() && freezing(j, self@)
    }

    /// The start.
    pub fn start(j: &FreezeJob) -> (r: Self)
        requires
            j@.wf(),
        ensures
            r@ == first_freeze(j@),
            r.wf(j@),
    {
        let mut f = Freeze {
            step: FreezeStep::Create,
            layout: LayoutBuilder::new(false, false),
            staged: false,
            retained: false,
        };
        if !j.snapshot {
            f.take_chunk(j, 0);
        }
        f
    }

    /// Goes on with range `i`.
    fn take_chunk(&mut self, j: &FreezeJob, i: usize)
        requires
            j@.wf(),
            i <= j@.chunks.len(),
            old(self).layout.wf(),
            old(self).layout.maps@.len() == i,
            old(self).layout.host_snapshot ==> j.snapshot,
            old(self).layout.snapshot is Some ==> old(self).layout.host_snapshot,
            old(self).layout.complete ==> old(self).layout.snapshot is Some,
            !old(self).retained,
            old(self).layout.descriptors <= i + 1,
            !old(self).staged,
            j.snapshot ==> old(self).layout.offset + j@.private_from(i as int) + sizes_total(
                j@.allocs,
            ) <= u64::MAX,
        ensures
            final(self)@ == chunk_from(j@, old(self)@, i as int),
            final(self).wf(j@),
    {
        if i < j.chunks.len() {
            let plan = self.layout.plan(j.sharing, j.safe[i]);
            self.step = match plan {
                ChunkPlan::Copy => FreezeStep::Copy { i },
                ChunkPlan::Export => FreezeStep::Export { i },
            };
            return ;
        }
        if j.allocs.len() == 0 {
            self.settle();
        } else if self.layout.takes_ordinary() {
            proof { assert(j@.allocs.take(0) =~= Seq::empty()); }
            self.step = FreezeStep::CopyOrdinary { i: 0, at: self.layout.offset };
        } else {
            self.step = FreezeStep::Stage;
        }
    }

    /// Seals a snapshot that holds everything.
    fn settle(&mut self)
        ensures
            final(self)@ == all_taken(old(self)@),
            final(self).layout == old(self).layout,
    {
        self.step = if self.layout.stands_for_golden(self.staged, true) {
            FreezeStep::Seal
        } else {
            FreezeStep::Done
        };
    }

    /// Takes what the step came to.
    pub fn advance(&mut self, j: &FreezeJob, ok: bool)
        requires
            j@.wf(),
            old(self).wf(j@),
        ensures
            final(self)@ == next_freeze(j@, old(self)@, ok),
            final(self).wf(j@),
    {
        match self.step {
            FreezeStep::Create => {
                self.layout = LayoutBuilder::new(true, ok);
                self.take_chunk(j, 0);
            },
            FreezeStep::Copy { i } => {
                if ok {
                    self.layout.copied(&j.chunks[i]);
                    self.take_chunk(j, i + 1);
                } else {
                    self.layout.copy_failed();
                    self.step = FreezeStep::Export { i };
                }
            },
            FreezeStep::Export { i } => {
                if ok {
                    self.layout.exported(&j.chunks[i], j.safe[i]);
                    self.take_chunk(j, i + 1);
                } else {
                    self.step = FreezeStep::Failed;
                }
            },
            FreezeStep::CopyOrdinary { i, at } => {
                if !ok {
                    self.step = FreezeStep::Stage;
                } else if i < j.allocs.len() - 1 {
                    proof {
                        let all = j@.allocs;
                        assert(all.take(i + 1).drop_last() =~= all.take(i as int));
                        assert(all.take(i + 1).last() == all[i as int]);
                        lemma_sizes_prefix(all, i + 1);
                    }
                    self.step = FreezeStep::CopyOrdinary { i: i + 1, at: at + j.allocs[i].1 };
                } else {
                    self.settle();
                }
            },
            FreezeStep::Stage => {
                if ok {
                    self.staged = true;
                    self.settle();
                } else {
                    self.step = FreezeStep::Failed;
                }
            },
            FreezeStep::Seal => {
                self.retained = self.layout.stands_for_golden(self.staged, ok);
                self.step = FreezeStep::Done;
            },
            FreezeStep::Done => {},
            FreezeStep::Failed => {},
        }
    }

    /// The bytes of the snapshot, if it can stand for the golden.
    pub fn host_bytes(&self, j: &FreezeJob) -> (r: Option<u64>)
        requires
            j@.wf(),
            self.wf(j@),
            self.step is Done,
        ensures
            r == if self.retained {
                Some((self.layout.offset + sizes_total(j@.allocs)) as u64)
            } else {
                None
            },
    {
        if !self.retained {
            return None;
        }
        let mut end: u64 = self.layout.offset;
        let mut i: usize = 0;
        proof { assert(j@.allocs.take(0) =~= Seq::empty()); }
        while i < j.allocs.len()
            invariant
                i <= j@.allocs.len(),
                self.layout.offset + sizes_total(j@.allocs) <= u64::MAX,
                end == self.layout.offset + sizes_total(j@.allocs.take(i as int)),
            decreases j@.allocs.len() - i,
        {
            proof {
                let all = j@.allocs;
                assert(all.take(i + 1).drop_last() =~= all.take(i as int));
                assert(all.take(i + 1).last() == all[i as int]);
                lemma_sizes_prefix(all, i + 1);
            }
            end = end + j.allocs[i].1;
            i = i + 1;
        }
        proof { assert(j@.allocs.take(j@.allocs.len() as int) =~= j@.allocs); }
        Some(end)
    }

    /// The layout that comes of it, the golden's reservations with it; ordinary
    /// allocations lie in regions of this granularity.
    pub fn finish(self, j: &FreezeJob, reservations: Vec<(u64, u64)>, granularity: u64) -> (r:
        CloneLayout)
        requires
            j@.wf(),
            self.wf(j@),
            self.step is Done,
            granularity > 0,
            addressable(j@.allocs, granularity),
        ensures
            r@ == frozen_layout(j@, self@, reservations@, granularity),
            writable(r@),
    {
        if j.allocs.len() == 0 {
            return self.layout.finish(reservations);
        }
        let regions = alloc_regions(&j.allocs, granularity);
        if self.staged {
            let plain = unplaced(&j.allocs);
            return self.layout.finish_with_stage(reservations, regions, plain);
        }
        let placed = place_in_host(&j.allocs, self.layout.offset);
        self.layout.finish_with_host(reservations, regions, placed)
    }
}

/// Ordinary allocations without a place in a snapshot.
fn unplaced(allocs: &[(u64, u64)]) -> (r: Vec<(u64, u64, Option<u64>)>)
    ensures
        r@ == allocs@.map_values(|a: (u64, u64)| (a.0, a.1, None::<u64>)),
{
    let mut r: Vec<(u64, u64, Option<u64>)> = Vec::new();
    let mut i: usize = 0;
    while i < allocs.len()
        invariant
            i <= allocs@.len(),
            r@.len() == i,
            forall|k: int| 0 <= k < i ==> r@[k] == (allocs@[k].0, allocs@[k].1, None::<u64>),
        decreases allocs@.len() - i,
    {
        r.push((allocs[i].0, allocs[i].1, None));
        i = i + 1;
    }
    proof { assert(r@ =~= allocs@.map_values(|a: (u64, u64)| (a.0, a.1, None::<u64>))); }
    r
}

/// Whether ordinary allocations end within the address space, in regions of this
/// granularity.
pub fn allocs_addressable(allocs: &[(u64, u64)], granularity: u64) -> (r: bool)
    requires
        granularity > 0,
    ensures
        r == addressable(allocs@, granularity),
{
    let mask = granularity - 1;
    let mut i: usize = 0;
    while i < allocs.len()
        invariant
            i <= allocs@.len(),
            mask == granularity - 1,
            forall|k: int|
                0 <= k < i ==> (#[trigger] allocs@[k]).0 + allocs@[k].1 + granularity - 1
                    <= u64::MAX,
        decreases allocs@.len() - i,
    {
        let fits = match allocs[i].0.checked_add(allocs[i].1) {
            Some(end) => end.checked_add(mask).is_some(),
            None => false,
        };
        if !fits {
            assert(allocs@[i as int].0 + allocs@[i as int].1 + granularity - 1 > u64::MAX);
            return false;
        }
        i = i + 1;
    }
    true
}

} // verus!
