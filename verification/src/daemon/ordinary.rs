//! Rebuilding a golden's ordinary allocations in a clone worker.
//!
//! Wherever every region of them is reserved, they are restored at their own
//! addresses, on private memory. Otherwise they become copies elsewhere, and their
//! addresses are translated.
use crate::daemon::layout::{CloneLayout, LayoutModel};
use crate::daemon::memory::{
    DriverCall, OrdinaryPlan, first_region, holds_address, identity_translations, ordinary_plan,
    ordinary_plan_of, regions_total, staging_place, staging_total,
};
use vstd::prelude::*;

verus! {

/// Where the restoration of ordinary allocations stands.
#[derive(Debug, Clone, Copy, PartialEq, Eq, Structural)]
pub enum OrdinaryStep {
    /// Create private memory for region `i`.
    CreateRegion { i: usize },
    /// Map it at the region's own address.
    MapRegion { i: usize, own: u64 },
    /// Open it.
    AccessRegion { i: usize, own: u64 },
    /// Give its handle back; the mapping keeps the memory.
    ReleaseRegion { i: usize, own: u64 },
    /// Fill allocation `i` from the host snapshot.
    RestoreAlloc { i: usize },
    /// Import the staging area.
    ImportStage,
    /// Reserve address space for it.
    ReserveStage { source: u64 },
    /// Map it.
    MapStage { source: u64, at: u64 },
    /// Open it.
    AccessStage { source: u64, at: u64 },
    /// Copy region `i` from it.
    CopyRegion { source: u64, at: u64, i: usize },
    /// Wait for the copies.
    WaitForRegions { source: u64, at: u64 },
    /// Unmap it.
    UnmapStage { source: u64, at: u64 },
    /// Give its address space back.
    FreeStage { source: u64, at: u64 },
    /// Give it back.
    ReleaseStage { source: u64 },
    /// Wait for everything that was restored.
    WaitForAll,
    /// Import the staging area to make translated copies.
    ImportCopies,
    /// Reserve address space for it.
    ReserveCopies { source: u64 },
    /// Map it.
    MapCopies { source: u64, at: u64 },
    /// Open it.
    AccessCopies { source: u64, at: u64 },
    /// Allocate memory for a copy of allocation `i`.
    AllocCopy { source: u64, at: u64, i: usize },
    /// Copy the allocation.
    FillCopy { source: u64, at: u64, i: usize, own: u64 },
    /// Wait for the copies.
    WaitForCopies { source: u64, at: u64 },
    /// Unmap the staging area.
    UnmapCopies { source: u64, at: u64 },
    /// Give its address space back.
    FreeCopies { source: u64, at: u64 },
    /// Give it back.
    ReleaseCopies { source: u64 },
    /// There was nothing to restore.
    Nothing,
    /// Every allocation is restored at its own address.
    InPlace,
    /// The copies that could be made are made.
    Translated,
    /// The host snapshot needs every address, and one is not reserved.
    Refused,
    /// Allocation `i` has no place in the host snapshot.
    Unplaced { i: usize },
    /// A call failed that nothing makes up for.
    Failed,
}

/// The step from region `i` on, once the regions before it are backed: after the last
/// one they are filled, from the host snapshot if there is one.
pub open spec fn region_from(l: LayoutModel, i: int) -> OrdinaryStep {
    if i < l.regions.len() {
        OrdinaryStep::CreateRegion { i: i as usize }
    } else if l.host is Some {
        alloc_from(l, 0)
    } else {
        OrdinaryStep::ImportStage
    }
}

/// The step from allocation `i` on, once the allocations before it are filled from
/// the host snapshot.
pub open spec fn alloc_from(l: LayoutModel, i: int) -> OrdinaryStep {
    if i >= l.allocs.len() {
        OrdinaryStep::WaitForAll
    } else if l.allocs[i].2 is Some {
        OrdinaryStep::RestoreAlloc { i: i as usize }
    } else {
        OrdinaryStep::Unplaced { i: i as usize }
    }
}

/// The step from region `i` on, once the regions before it are copied.
pub open spec fn fill_from(l: LayoutModel, source: u64, at: u64, i: int) -> OrdinaryStep {
    if i < l.regions.len() {
        OrdinaryStep::CopyRegion { source, at, i: i as usize }
    } else {
        OrdinaryStep::WaitForRegions { source, at }
    }
}

/// The step from allocation `i` on, once the allocations before it are copied;
/// allocations that no region holds are passed over.
pub open spec fn copy_from(l: LayoutModel, source: u64, at: u64, i: int) -> OrdinaryStep
    decreases l.allocs.len() - i,
{
    if i >= l.allocs.len() {
        OrdinaryStep::WaitForCopies { source, at }
    } else if first_region(l.regions, l.allocs[i].0, 0) is Some {
        OrdinaryStep::AllocCopy { source, at, i: i as usize }
    } else {
        copy_from(l, source, at, i + 1)
    }
}

/// The first step.
pub open spec fn first_ordinary_step(l: LayoutModel, reserved: Seq<(u64, u64)>) -> OrdinaryStep {
    match ordinary_plan_of(l, reserved) {
        OrdinaryPlan::Nothing => OrdinaryStep::Nothing,
        OrdinaryPlan::InPlaceFromHost(_) => region_from(l, 0),
        OrdinaryPlan::InPlaceFromStage(_) => region_from(l, 0),
        OrdinaryPlan::Refused => OrdinaryStep::Refused,
        OrdinaryPlan::TranslatedFromStage(_) => OrdinaryStep::ImportCopies,
    }
}

/// Where allocation `i` lies, the staging area being mapped at `at`.
pub open spec fn staged_address(l: LayoutModel, at: u64, i: int) -> int {
    let d = l.allocs[i].0;
    match first_region(l.regions, d, 0) {
        Some(region) => at + region.2 + (d - region.0),
        None => at as int,
    }
}

/// Every region ends within the address space, the staging area being mapped at `at`.
pub open spec fn stage_ends(l: LayoutModel, at: u64) -> bool {
    forall|k: int|
        0 <= k < l.regions.len() ==> at + (#[trigger] l.regions[k]).2 + l.regions[k].1
            <= u64::MAX
}

/// The layout says where the content of its ordinary allocations is.
pub open spec fn content_given(l: LayoutModel) -> bool {
    l.host is Some || l.stage is Some
}

/// The step is about a region or an allocation of the layout, and its address exists.
pub open spec fn step_of(l: LayoutModel, step: OrdinaryStep) -> bool {
    match step {
        OrdinaryStep::CreateRegion { i } => i < l.regions.len() && content_given(l),
        OrdinaryStep::MapRegion { i, own } => i < l.regions.len() && content_given(l),
        OrdinaryStep::AccessRegion { i, own } => i < l.regions.len() && content_given(l),
        OrdinaryStep::ReleaseRegion { i, own } => i < l.regions.len() && content_given(l),
        OrdinaryStep::RestoreAlloc { i } => i < l.allocs.len() && l.allocs[i as int].2 is Some
            && l.host is Some,
        OrdinaryStep::ImportStage => l.stage is Some,
        OrdinaryStep::ImportCopies => l.stage is Some,
        OrdinaryStep::MapStage { source, at } => stage_ends(l, at),
        OrdinaryStep::AccessStage { source, at } => stage_ends(l, at),
        OrdinaryStep::CopyRegion { source, at, i } => i < l.regions.len() && stage_ends(l, at),
        OrdinaryStep::MapCopies { source, at } => stage_ends(l, at),
        OrdinaryStep::AccessCopies { source, at } => stage_ends(l, at),
        OrdinaryStep::AllocCopy { source, at, i } => i < l.allocs.len() && stage_ends(l, at)
            && first_region(l.regions, l.allocs[i as int].0, 0) is Some,
        OrdinaryStep::FillCopy { source, at, i, own } => i < l.allocs.len() && stage_ends(l, at)
            && first_region(l.regions, l.allocs[i as int].0, 0) is Some,
        OrdinaryStep::Unplaced { i } => i < l.allocs.len(),
        _ => true,
    }
}

/// The layout can be restored: its regions have a length together.
pub open spec fn restorable(l: LayoutModel) -> bool {
    regions_total(l.regions) <= u64::MAX
}

/// The call that a step makes, if it is not the last.
pub open spec fn ordinary_call(l: LayoutModel, step: OrdinaryStep) -> Option<DriverCall> {
    let size = regions_total(l.regions) as u64;
    match step {
        OrdinaryStep::CreateRegion { i } => Some(
            DriverCall::Create { size: l.regions[i as int].1 },
        ),
        OrdinaryStep::MapRegion { i, own } => Some(
            DriverCall::MapAt {
                va: l.regions[i as int].0,
                size: l.regions[i as int].1,
                handle: own,
            },
        ),
        OrdinaryStep::AccessRegion { i, own } => Some(
            DriverCall::Access { va: l.regions[i as int].0, size: l.regions[i as int].1 },
        ),
        OrdinaryStep::ReleaseRegion { i, own } => Some(DriverCall::Release { handle: own }),
        OrdinaryStep::RestoreAlloc { i } => Some(
            DriverCall::RestoreHost {
                index: l.host->Some_0,
                offset: l.allocs[i as int].2->Some_0,
                va: l.allocs[i as int].0,
                size: l.allocs[i as int].1,
            },
        ),
        OrdinaryStep::ImportStage => Some(DriverCall::Import { index: l.stage->Some_0 }),
        OrdinaryStep::ReserveStage { source } => Some(DriverCall::Reserve { size }),
        OrdinaryStep::MapStage { source, at } => Some(
            DriverCall::MapAt { va: at, size, handle: source },
        ),
        OrdinaryStep::AccessStage { source, at } => Some(DriverCall::Access { va: at, size }),
        OrdinaryStep::CopyRegion { source, at, i } => Some(
            DriverCall::Copy {
                to: l.regions[i as int].0,
                from: (at + l.regions[i as int].2) as u64,
                size: l.regions[i as int].1,
            },
        ),
        OrdinaryStep::WaitForRegions { source, at } => Some(DriverCall::Synchronize),
        OrdinaryStep::UnmapStage { source, at } => Some(DriverCall::Unmap { va: at, size }),
        OrdinaryStep::FreeStage { source, at } => Some(DriverCall::Free { va: at, size }),
        OrdinaryStep::ReleaseStage { source } => Some(DriverCall::Release { handle: source }),
        OrdinaryStep::WaitForAll => Some(DriverCall::Synchronize),
        OrdinaryStep::ImportCopies => Some(DriverCall::Import { index: l.stage->Some_0 }),
        OrdinaryStep::ReserveCopies { source } => Some(DriverCall::Reserve { size }),
        OrdinaryStep::MapCopies { source, at } => Some(
            DriverCall::MapAt { va: at, size, handle: source },
        ),
        OrdinaryStep::AccessCopies { source, at } => Some(DriverCall::Access { va: at, size }),
        OrdinaryStep::AllocCopy { source, at, i } => Some(
            DriverCall::Allocate { size: l.allocs[i as int].1 },
        ),
        OrdinaryStep::FillCopy { source, at, i, own } => Some(
            DriverCall::Copy {
                to: own,
                from: staged_address(l, at, i as int) as u64,
                size: l.allocs[i as int].1,
            },
        ),
        OrdinaryStep::WaitForCopies { source, at } => Some(DriverCall::Synchronize),
        OrdinaryStep::UnmapCopies { source, at } => Some(DriverCall::Unmap { va: at, size }),
        OrdinaryStep::FreeCopies { source, at } => Some(DriverCall::Free { va: at, size }),
        OrdinaryStep::ReleaseCopies { source } => Some(DriverCall::Release { handle: source }),
        _ => None,
    }
}

/// The step after a call that gave `result`, or failed.
///
/// At their own addresses, allocations are restored all or not at all. Translated
/// copies are made as far as they can be: one that cannot be allocated is left out,
/// and a staging area that cannot be mapped leaves all of them out.
pub open spec fn next_ordinary_step(
    l: LayoutModel,
    step: OrdinaryStep,
    result: Option<u64>,
) -> OrdinaryStep {
    match (step, result) {
        (OrdinaryStep::CreateRegion { i }, Some(own)) => OrdinaryStep::MapRegion { i, own },
        (OrdinaryStep::MapRegion { i, own }, Some(_)) => OrdinaryStep::AccessRegion { i, own },
        (OrdinaryStep::AccessRegion { i, own }, Some(_)) => OrdinaryStep::ReleaseRegion {
            i,
            own,
        },
        (OrdinaryStep::ReleaseRegion { i, own }, Some(_)) => region_from(l, i + 1),
        (OrdinaryStep::RestoreAlloc { i }, Some(_)) => alloc_from(l, i + 1),
        (OrdinaryStep::ImportStage, Some(source)) => OrdinaryStep::ReserveStage { source },
        (OrdinaryStep::ReserveStage { source }, Some(at)) => OrdinaryStep::MapStage {
            source,
            at,
        },
        (OrdinaryStep::MapStage { source, at }, Some(_)) => OrdinaryStep::AccessStage {
            source,
            at,
        },
        (OrdinaryStep::AccessStage { source, at }, Some(_)) => fill_from(l, source, at, 0),
        (OrdinaryStep::CopyRegion { source, at, i }, Some(_)) => fill_from(l, source, at, i + 1),
        (OrdinaryStep::WaitForRegions { source, at }, Some(_)) => OrdinaryStep::UnmapStage {
            source,
            at,
        },
        (OrdinaryStep::UnmapStage { source, at }, Some(_)) => OrdinaryStep::FreeStage {
            source,
            at,
        },
        (OrdinaryStep::FreeStage { source, at }, Some(_)) => OrdinaryStep::ReleaseStage {
            source,
        },
        (OrdinaryStep::ReleaseStage { source }, Some(_)) => OrdinaryStep::WaitForAll,
        (OrdinaryStep::WaitForAll, Some(_)) => OrdinaryStep::InPlace,
        (OrdinaryStep::ImportCopies, Some(source)) => OrdinaryStep::ReserveCopies { source },
        (OrdinaryStep::ImportCopies, None) => OrdinaryStep::Translated,
        (OrdinaryStep::ReserveCopies { source }, Some(at)) => OrdinaryStep::MapCopies {
            source,
            at,
        },
        (OrdinaryStep::ReserveCopies { source }, None) => OrdinaryStep::ReleaseCopies { source },
        (OrdinaryStep::MapCopies { source, at }, Some(_)) => OrdinaryStep::AccessCopies {
            source,
            at,
        },
        (OrdinaryStep::MapCopies { source, at }, None) => OrdinaryStep::FreeCopies { source, at },
        (OrdinaryStep::AccessCopies { source, at }, _) => copy_from(l, source, at, 0),
        (OrdinaryStep::AllocCopy { source, at, i }, Some(own)) => OrdinaryStep::FillCopy {
            source,
            at,
            i,
            own,
        },
        (OrdinaryStep::AllocCopy { source, at, i }, None) => copy_from(l, source, at, i + 1),
        (OrdinaryStep::FillCopy { source, at, i, own }, _) => copy_from(l, source, at, i + 1),
        (OrdinaryStep::WaitForCopies { source, at }, _) => OrdinaryStep::UnmapCopies {
            source,
            at,
        },
        (OrdinaryStep::UnmapCopies { source, at }, _) => OrdinaryStep::FreeCopies { source, at },
        (OrdinaryStep::FreeCopies { source, at }, _) => OrdinaryStep::ReleaseCopies { source },
        (OrdinaryStep::ReleaseCopies { source }, _) => OrdinaryStep::Translated,
        (OrdinaryStep::Nothing, _) => step,
        (OrdinaryStep::InPlace, _) => step,
        (OrdinaryStep::Translated, _) => step,
        (OrdinaryStep::Refused, _) => step,
        (OrdinaryStep::Unplaced { i }, _) => step,
        _ => OrdinaryStep::Failed,
    }
}

/// The translations after a call: a copy is translated to, whether or not it could
/// be filled; allocations that kept their addresses stand for themselves.
pub open spec fn next_translations(
    l: LayoutModel,
    step: OrdinaryStep,
    result: Option<u64>,
    translations: Seq<(u64, u64, u64)>,
) -> Seq<(u64, u64, u64)> {
    match step {
        OrdinaryStep::FillCopy { source, at, i, own } => translations.push(
            (l.allocs[i as int].0, l.allocs[i as int].1, own),
        ),
        OrdinaryStep::WaitForAll => if result is Some {
            l.allocs.map_values(|a: (u64, u64, Option<u64>)| (a.0, a.1, a.0))
        } else {
            translations
        },
        _ => translations,
    }
}

/// The restoration of ordinary allocations.
#[derive(Debug)]
pub struct OrdinaryRestore {
    /// Where it stands.
    pub step: OrdinaryStep,
    /// Allocations with the addresses that stand for theirs: address, length, and the
    /// address that stands for it.
    pub translations: Vec<(u64, u64, u64)>,
}

impl OrdinaryRestore {
    /// The start of a restoration.
    pub fn start(l: &CloneLayout, reserved: &[(u64, u64)]) -> (r: Self)
        requires
            restorable(l@),
        ensures
            r.step == first_ordinary_step(l@, reserved@),
            r.translations@.len() == 0,
            step_of(l@, r.step),
    {
        let step = match ordinary_plan(l, reserved) {
            OrdinaryPlan::Nothing => OrdinaryStep::Nothing,
            OrdinaryPlan::InPlaceFromHost(_) => step_from_region(l, 0),
            OrdinaryPlan::InPlaceFromStage(_) => step_from_region(l, 0),
            OrdinaryPlan::Refused => OrdinaryStep::Refused,
            OrdinaryPlan::TranslatedFromStage(_) => OrdinaryStep::ImportCopies,
        };
        OrdinaryRestore { step, translations: Vec::new() }
    }

    /// The call that comes next, if there is one.
    pub fn call(&self, l: &CloneLayout) -> (r: Option<DriverCall>)
        requires
            restorable(l@),
            step_of(l@, self.step),
        ensures
            r == ordinary_call(l@, self.step),
    {
        let size = match staging_total(&l.regions) {
            Some(total) => total,
            None => 0,
        };
        match self.step {
            OrdinaryStep::CreateRegion { i } => Some(DriverCall::Create { size: l.regions[i].1 }),
            OrdinaryStep::MapRegion { i, own } => Some(
                DriverCall::MapAt { va: l.regions[i].0, size: l.regions[i].1, handle: own },
            ),
            OrdinaryStep::AccessRegion { i, own: _ } => Some(
                DriverCall::Access { va: l.regions[i].0, size: l.regions[i].1 },
            ),
            OrdinaryStep::ReleaseRegion { i: _, own } => Some(DriverCall::Release { handle: own }),
            OrdinaryStep::RestoreAlloc { i } => match (l.host, l.allocs[i].2) {
                (Some(index), Some(offset)) => Some(
                    DriverCall::RestoreHost {
                        index,
                        offset,
                        va: l.allocs[i].0,
                        size: l.allocs[i].1,
                    },
                ),
                _ => None,
            },
            OrdinaryStep::ImportStage | OrdinaryStep::ImportCopies => match l.stage {
                Some(index) => Some(DriverCall::Import { index }),
                None => None,
            },
            OrdinaryStep::ReserveStage { source: _ } | OrdinaryStep::ReserveCopies { source: _ } =>
            Some(DriverCall::Reserve { size }),
            OrdinaryStep::MapStage { source, at } | OrdinaryStep::MapCopies { source, at } => Some(
                DriverCall::MapAt { va: at, size, handle: source },
            ),
            OrdinaryStep::AccessStage { source: _, at } | OrdinaryStep::AccessCopies {
                source: _,
                at,
            } => Some(DriverCall::Access { va: at, size }),
            OrdinaryStep::CopyRegion { source: _, at, i } => {
                let (base, length, offset) = l.regions[i];
                Some(DriverCall::Copy { to: base, from: at + offset, size: length })
            },
            OrdinaryStep::WaitForRegions { source: _, at: _ }
            | OrdinaryStep::WaitForCopies { source: _, at: _ }
            | OrdinaryStep::WaitForAll => Some(DriverCall::Synchronize),
            OrdinaryStep::UnmapStage { source: _, at } | OrdinaryStep::UnmapCopies {
                source: _,
                at,
            } => Some(DriverCall::Unmap { va: at, size }),
            OrdinaryStep::FreeStage { source: _, at } | OrdinaryStep::FreeCopies {
                source: _,
                at,
            } => Some(DriverCall::Free { va: at, size }),
            OrdinaryStep::ReleaseStage { source } | OrdinaryStep::ReleaseCopies { source } => Some(
                DriverCall::Release { handle: source },
            ),
            OrdinaryStep::AllocCopy { source: _, at: _, i } => Some(
                DriverCall::Allocate { size: l.allocs[i].1 },
            ),
            OrdinaryStep::FillCopy { source: _, at, i, own } => {
                let (d, length, _) = l.allocs[i];
                match staging_place(&l.regions, d) {
                    Some((offset, inside)) => {
                        proof { lemma_staged_address(l@, at, i as int); }
                        Some(DriverCall::Copy { to: own, from: at + offset + inside, size: length })
                    },
                    None => None,
                }
            },
            OrdinaryStep::Nothing
            | OrdinaryStep::InPlace
            | OrdinaryStep::Translated
            | OrdinaryStep::Refused
            | OrdinaryStep::Unplaced { i: _ }
            | OrdinaryStep::Failed => None,
        }
    }

    /// Whether every region ends within the address space, the staging area being
    /// mapped at `at`.
    pub fn stage_fits(l: &CloneLayout, at: u64) -> (r: bool)
        ensures
            r == stage_ends(l@, at),
    {
        let mut k: usize = 0;
        while k < l.regions.len()
            invariant
                k <= l.regions@.len(),
                forall|j: int|
                    0 <= j < k ==> at + (#[trigger] l.regions@[j]).2 + l.regions@[j].1 <= u64::MAX,
            decreases l.regions@.len() - k,
        {
            let (_, length, offset) = l.regions[k];
            let fits = match at.checked_add(offset) {
                Some(from) => from.checked_add(length).is_some(),
                None => false,
            };
            if !fits {
                proof { assert(l@.regions[k as int] == l.regions@[k as int]); }
                return false;
            }
            k = k + 1;
        }
        true
    }

    /// Takes what the call came to.
    pub fn advance(&mut self, l: &CloneLayout, result: Option<u64>)
        requires
            restorable(l@),
            step_of(l@, old(self).step),
            (old(self).step is ReserveStage || old(self).step is ReserveCopies) ==> (result matches Some(
                at,
            ) ==> stage_ends(l@, at)),
        ensures
            final(self).step == next_ordinary_step(l@, old(self).step, result),
            final(self).translations@ == next_translations(
                l@,
                old(self).step,
                result,
                old(self).translations@,
            ),
            step_of(l@, final(self).step),
    {
        let regions: usize = l.regions.len();
        let allocs: usize = l.allocs.len();
        proof {
            assert(regions == l@.regions.len() && allocs == l@.allocs.len());
        }
        match self.step {
            OrdinaryStep::FillCopy { source: _, at: _, i, own } => {
                let (d, length, _) = l.allocs[i];
                self.translations.push((d, length, own));
            },
            OrdinaryStep::WaitForAll => {
                if result.is_some() {
                    self.translations = identity_translations(&l.allocs);
                }
            },
            _ => {},
        }
        self.step = match (self.step, result) {
            (OrdinaryStep::CreateRegion { i }, Some(own)) => OrdinaryStep::MapRegion { i, own },
            (OrdinaryStep::MapRegion { i, own }, Some(_)) => OrdinaryStep::AccessRegion { i, own },
            (OrdinaryStep::AccessRegion { i, own }, Some(_)) => OrdinaryStep::ReleaseRegion {
                i,
                own,
            },
            (OrdinaryStep::ReleaseRegion { i, own: _ }, Some(_)) => step_from_region(l, i + 1),
            (OrdinaryStep::RestoreAlloc { i }, Some(_)) => step_from_alloc(l, i + 1),
            (OrdinaryStep::ImportStage, Some(source)) => OrdinaryStep::ReserveStage { source },
            (OrdinaryStep::ReserveStage { source }, Some(at)) => OrdinaryStep::MapStage {
                source,
                at,
            },
            (OrdinaryStep::MapStage { source, at }, Some(_)) => OrdinaryStep::AccessStage {
                source,
                at,
            },
            (OrdinaryStep::AccessStage { source, at }, Some(_)) => step_from_fill(l, source, at, 0),
            (OrdinaryStep::CopyRegion { source, at, i }, Some(_)) => step_from_fill(
                l,
                source,
                at,
                i + 1,
            ),
            (OrdinaryStep::WaitForRegions { source, at }, Some(_)) => OrdinaryStep::UnmapStage {
                source,
                at,
            },
            (OrdinaryStep::UnmapStage { source, at }, Some(_)) => OrdinaryStep::FreeStage {
                source,
                at,
            },
            (OrdinaryStep::FreeStage { source, at: _ }, Some(_)) => OrdinaryStep::ReleaseStage {
                source,
            },
            (OrdinaryStep::ReleaseStage { source: _ }, Some(_)) => OrdinaryStep::WaitForAll,
            (OrdinaryStep::WaitForAll, Some(_)) => OrdinaryStep::InPlace,
            (OrdinaryStep::ImportCopies, Some(source)) => OrdinaryStep::ReserveCopies { source },
            (OrdinaryStep::ImportCopies, None) => OrdinaryStep::Translated,
            (OrdinaryStep::ReserveCopies { source }, Some(at)) => OrdinaryStep::MapCopies {
                source,
                at,
            },
            (OrdinaryStep::ReserveCopies { source }, None) => OrdinaryStep::ReleaseCopies {
                source,
            },
            (OrdinaryStep::MapCopies { source, at }, Some(_)) => OrdinaryStep::AccessCopies {
                source,
                at,
            },
            (OrdinaryStep::MapCopies { source, at }, None) => OrdinaryStep::FreeCopies {
                source,
                at,
            },
            (OrdinaryStep::AccessCopies { source, at }, _) => step_from_copy(l, source, at, 0),
            (OrdinaryStep::AllocCopy { source, at, i }, Some(own)) => OrdinaryStep::FillCopy {
                source,
                at,
                i,
                own,
            },
            (OrdinaryStep::AllocCopy { source, at, i }, None) => step_from_copy(
                l,
                source,
                at,
                i + 1,
            ),
            (OrdinaryStep::FillCopy { source, at, i, own: _ }, _) => step_from_copy(
                l,
                source,
                at,
                i + 1,
            ),
            (OrdinaryStep::WaitForCopies { source, at }, _) => OrdinaryStep::UnmapCopies {
                source,
                at,
            },
            (OrdinaryStep::UnmapCopies { source, at }, _) => OrdinaryStep::FreeCopies {
                source,
                at,
            },
            (OrdinaryStep::FreeCopies { source, at: _ }, _) => OrdinaryStep::ReleaseCopies {
                source,
            },
            (OrdinaryStep::ReleaseCopies { source: _ }, _) => OrdinaryStep::Translated,
            (OrdinaryStep::Nothing, _) => OrdinaryStep::Nothing,
            (OrdinaryStep::InPlace, _) => OrdinaryStep::InPlace,
            (OrdinaryStep::Translated, _) => OrdinaryStep::Translated,
            (OrdinaryStep::Refused, _) => OrdinaryStep::Refused,
            (OrdinaryStep::Unplaced { i }, _) => OrdinaryStep::Unplaced { i },
            _ => OrdinaryStep::Failed,
        };
    }
}

/// Whether the call of a step is tried again where it fails.
pub fn retries_ordinary(step: OrdinaryStep) -> (r: bool)
    ensures
        r == (step is ImportStage || step is MapStage || step is ImportCopies),
{
    matches!(
        step,
        OrdinaryStep::ImportStage | OrdinaryStep::MapStage { .. } | OrdinaryStep::ImportCopies
    )
}

/// The step from region `i` on, once the regions before it are backed.
fn step_from_region(l: &CloneLayout, i: usize) -> (r: OrdinaryStep)
    requires
        content_given(l@),
    ensures
        r == region_from(l@, i as int),
        step_of(l@, r),
{
    if i < l.regions.len() {
        OrdinaryStep::CreateRegion { i }
    } else if l.host.is_some() {
        step_from_alloc(l, 0)
    } else {
        OrdinaryStep::ImportStage
    }
}

/// The step from allocation `i` on, once the allocations before it are filled.
fn step_from_alloc(l: &CloneLayout, i: usize) -> (r: OrdinaryStep)
    requires
        l.host is Some,
    ensures
        r == alloc_from(l@, i as int),
        step_of(l@, r),
{
    if i >= l.allocs.len() {
        OrdinaryStep::WaitForAll
    } else if l.allocs[i].2.is_some() {
        OrdinaryStep::RestoreAlloc { i }
    } else {
        OrdinaryStep::Unplaced { i }
    }
}

/// The step from region `i` on, once the regions before it are copied.
fn step_from_fill(l: &CloneLayout, source: u64, at: u64, i: usize) -> (r: OrdinaryStep)
    requires
        stage_ends(l@, at),
    ensures
        r == fill_from(l@, source, at, i as int),
        step_of(l@, r),
{
    if i < l.regions.len() {
        OrdinaryStep::CopyRegion { source, at, i }
    } else {
        OrdinaryStep::WaitForRegions { source, at }
    }
}

/// The step from allocation `i` on, once the allocations before it are copied.
fn step_from_copy(l: &CloneLayout, source: u64, at: u64, i: usize) -> (r: OrdinaryStep)
    requires
        i <= l.allocs@.len(),
        stage_ends(l@, at),
    ensures
        r == copy_from(l@, source, at, i as int),
        step_of(l@, r),
{
    let mut k: usize = i;
    while k < l.allocs.len()
        invariant
            k <= l.allocs@.len(),
            stage_ends(l@, at),
            copy_from(l@, source, at, i as int) == copy_from(l@, source, at, k as int),
        decreases l.allocs@.len() - k,
    {
        if staging_place(&l.regions, l.allocs[k].0).is_some() {
            return OrdinaryStep::AllocCopy { source, at, i: k };
        }
        k = k + 1;
    }
    OrdinaryStep::WaitForCopies { source, at }
}

/// A region that was found holds the address.
proof fn lemma_first_region(regions: Seq<(u64, u64, u64)>, d: u64, i: int)
    requires
        0 <= i,
        first_region(regions, d, i) is Some,
    ensures
        exists|k: int|
            i <= k < regions.len() && first_region(regions, d, i) == Some(#[trigger] regions[k])
                && holds_address(regions[k], d),
    decreases regions.len() - i,
{
    if !holds_address(regions[i], d) {
        lemma_first_region(regions, d, i + 1);
    }
}

/// An allocation of a staging area that fits lies within the address space.
proof fn lemma_staged_address(l: LayoutModel, at: u64, i: int)
    requires
        stage_ends(l, at),
        first_region(l.regions, l.allocs[i].0, 0) is Some,
    ensures
        at <= staged_address(l, at, i) <= u64::MAX,
        first_region(l.regions, l.allocs[i].0, 0)->Some_0.0 <= l.allocs[i].0,
{
    lemma_first_region(l.regions, l.allocs[i].0, 0);
}

} // verus!
