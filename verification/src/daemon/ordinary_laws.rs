//! What restoring ordinary allocations guarantees.
use crate::daemon::layout::{LayoutModel, all_reserved};
use crate::daemon::memory::{DriverCall, first_region};
use crate::daemon::ordinary::{
    OrdinaryStep, copy_from, first_ordinary_step, next_ordinary_step, ordinary_call,
};
use vstd::prelude::*;

verus! {

/// The step reached after calls that gave `results`.
pub open spec fn ordinary_run(
    l: LayoutModel,
    reserved: Seq<(u64, u64)>,
    results: Seq<Option<u64>>,
) -> OrdinaryStep
    decreases results.len(),
{
    if results.len() == 0 {
        first_ordinary_step(l, reserved)
    } else {
        next_ordinary_step(l, ordinary_run(l, reserved, results.drop_last()), results.last())
    }
}

/// A run whose `i`th call was `call` and succeeded.
pub open spec fn ordinary_made(
    l: LayoutModel,
    reserved: Seq<(u64, u64)>,
    results: Seq<Option<u64>>,
    i: int,
    call: DriverCall,
) -> bool {
    0 <= i < results.len() && ordinary_call(l, ordinary_run(l, reserved, results.take(i))) == Some(
        call,
    ) && results[i] is Some
}

/// Call `c` created the memory `own` for region `k`, `m` mapped it at the region's own
/// address and `a` opened it.
pub open spec fn backed_by(
    l: LayoutModel,
    reserved: Seq<(u64, u64)>,
    results: Seq<Option<u64>>,
    k: int,
    own: u64,
    c: int,
    m: int,
    a: int,
) -> bool {
    let (va, size, _) = l.regions[k];
    &&& ordinary_made(l, reserved, results, c, DriverCall::Create { size })
    &&& results[c] == Some(own)
    &&& ordinary_made(l, reserved, results, m, DriverCall::MapAt { va, size, handle: own })
    &&& ordinary_made(l, reserved, results, a, DriverCall::Access { va, size })
}

/// Region `k` lies at its own address, on memory that this worker created.
pub open spec fn region_backed(
    l: LayoutModel,
    reserved: Seq<(u64, u64)>,
    results: Seq<Option<u64>>,
    k: int,
) -> bool {
    exists|own: u64, c: int, m: int, a: int| backed_by(l, reserved, results, k, own, c, m, a)
}

/// Call `i` filled allocation `k` from the host snapshot.
pub open spec fn restored_by(
    l: LayoutModel,
    reserved: Seq<(u64, u64)>,
    results: Seq<Option<u64>>,
    k: int,
    i: int,
) -> bool {
    &&& l.allocs[k].2 is Some
    &&& ordinary_made(
        l,
        reserved,
        results,
        i,
        DriverCall::RestoreHost {
            index: l.host->Some_0,
            offset: l.allocs[k].2->Some_0,
            va: l.allocs[k].0,
            size: l.allocs[k].1,
        },
    )
}

/// Allocation `k` is filled from the host snapshot.
pub open spec fn alloc_restored(
    l: LayoutModel,
    reserved: Seq<(u64, u64)>,
    results: Seq<Option<u64>>,
    k: int,
) -> bool {
    exists|i: int| restored_by(l, reserved, results, k, i)
}

/// Call `i` copied region `k` from the staging area, which was mapped at `at`.
pub open spec fn copied_by(
    l: LayoutModel,
    reserved: Seq<(u64, u64)>,
    results: Seq<Option<u64>>,
    k: int,
    at: u64,
    i: int,
) -> bool {
    ordinary_made(
        l,
        reserved,
        results,
        i,
        DriverCall::Copy {
            to: l.regions[k].0,
            from: (at + l.regions[k].2) as u64,
            size: l.regions[k].1,
        },
    )
}

/// Region `k` is copied from the staging area.
pub open spec fn region_copied(
    l: LayoutModel,
    reserved: Seq<(u64, u64)>,
    results: Seq<Option<u64>>,
    k: int,
) -> bool {
    exists|at: u64, i: int| copied_by(l, reserved, results, k, at, i)
}

/// Region `k` is copied from the staging area, and the copy was waited for by call `w`.
pub open spec fn copied_before(
    l: LayoutModel,
    reserved: Seq<(u64, u64)>,
    results: Seq<Option<u64>>,
    k: int,
    w: int,
) -> bool {
    exists|at: u64, i: int| i < w && copied_by(l, reserved, results, k, at, i)
}

/// Allocations that are restored at their own addresses lie on memory that this worker
/// created, mapped there and opened. Each was filled: from the host snapshot where
/// there is one, and otherwise with its region by a copy from the staging area that was
/// waited for.
pub proof fn law_kept_addresses_hold_their_content(
    l: LayoutModel,
    reserved: Seq<(u64, u64)>,
    results: Seq<Option<u64>>,
)
    requires
        l.regions.len() <= usize::MAX,
        l.allocs.len() <= usize::MAX,
        ordinary_run(l, reserved, results) is InPlace,
    ensures
        forall|k: int|
            0 <= k < l.regions.len() ==> #[trigger] region_backed(l, reserved, results, k),
        l.host is Some ==> forall|k: int|
            0 <= k < l.allocs.len() ==> #[trigger] alloc_restored(l, reserved, results, k),
        l.host is None ==> exists|w: int|
            {
                &&& ordinary_made(l, reserved, results, w, DriverCall::Synchronize)
                &&& forall|k: int|
                    0 <= k < l.regions.len() ==> #[trigger] copied_before(
                        l,
                        reserved,
                        results,
                        k,
                        w,
                    )
            },
{
    lemma_ordinary_run(l, reserved, results);
}

/// The first `n` regions are backed.
spec fn all_backed(
    l: LayoutModel,
    reserved: Seq<(u64, u64)>,
    results: Seq<Option<u64>>,
    n: int,
) -> bool {
    forall|k: int| 0 <= k < n ==> #[trigger] region_backed(l, reserved, results, k)
}

/// The first `n` allocations are filled.
spec fn all_restored(
    l: LayoutModel,
    reserved: Seq<(u64, u64)>,
    results: Seq<Option<u64>>,
    n: int,
) -> bool {
    forall|k: int| 0 <= k < n ==> #[trigger] alloc_restored(l, reserved, results, k)
}

/// The first `n` regions are copied.
spec fn all_copied(
    l: LayoutModel,
    reserved: Seq<(u64, u64)>,
    results: Seq<Option<u64>>,
    n: int,
) -> bool {
    forall|k: int| 0 <= k < n ==> #[trigger] region_copied(l, reserved, results, k)
}

/// Every region is copied, and the copies were waited for by call `w`.
spec fn waited_by(
    l: LayoutModel,
    reserved: Seq<(u64, u64)>,
    results: Seq<Option<u64>>,
    w: int,
) -> bool {
    &&& ordinary_made(l, reserved, results, w, DriverCall::Synchronize)
    &&& forall|k: int|
        0 <= k < l.regions.len() ==> #[trigger] copied_before(l, reserved, results, k, w)
}

spec fn waited(l: LayoutModel, reserved: Seq<(u64, u64)>, results: Seq<Option<u64>>) -> bool {
    exists|w: int| waited_by(l, reserved, results, w)
}

/// Call `c` created the memory `own` of region `k`.
spec fn created_by(
    l: LayoutModel,
    reserved: Seq<(u64, u64)>,
    results: Seq<Option<u64>>,
    k: int,
    own: u64,
    c: int,
) -> bool {
    &&& ordinary_made(l, reserved, results, c, DriverCall::Create { size: l.regions[k].1 })
    &&& results[c] == Some(own)
}

spec fn created(
    l: LayoutModel,
    reserved: Seq<(u64, u64)>,
    results: Seq<Option<u64>>,
    k: int,
    own: u64,
) -> bool {
    exists|c: int| created_by(l, reserved, results, k, own, c)
}

/// Call `m` mapped the memory `own` of region `k`.
spec fn mapped_by(
    l: LayoutModel,
    reserved: Seq<(u64, u64)>,
    results: Seq<Option<u64>>,
    k: int,
    own: u64,
    m: int,
) -> bool {
    ordinary_made(
        l,
        reserved,
        results,
        m,
        DriverCall::MapAt { va: l.regions[k].0, size: l.regions[k].1, handle: own },
    )
}

spec fn mapped(
    l: LayoutModel,
    reserved: Seq<(u64, u64)>,
    results: Seq<Option<u64>>,
    k: int,
    own: u64,
) -> bool {
    exists|m: int| mapped_by(l, reserved, results, k, own, m)
}

/// What holds at each step of a run.
spec fn step_holds(
    l: LayoutModel,
    reserved: Seq<(u64, u64)>,
    results: Seq<Option<u64>>,
    step: OrdinaryStep,
) -> bool {
    let regions = l.regions.len() as int;
    let backed = all_backed(l, reserved, results, regions);
    match step {
        OrdinaryStep::CreateRegion { i } => i < regions && all_backed(
            l,
            reserved,
            results,
            i as int,
        ),
        OrdinaryStep::MapRegion { i, own } => i < regions && all_backed(
            l,
            reserved,
            results,
            i as int,
        ) && created(l, reserved, results, i as int, own),
        OrdinaryStep::AccessRegion { i, own } => i < regions && all_backed(
            l,
            reserved,
            results,
            i as int,
        ) && created(l, reserved, results, i as int, own) && mapped(
            l,
            reserved,
            results,
            i as int,
            own,
        ),
        OrdinaryStep::ReleaseRegion { i, own } => i < regions && all_backed(
            l,
            reserved,
            results,
            i + 1,
        ),
        OrdinaryStep::RestoreAlloc { i } => i < l.allocs.len() && backed && l.host is Some
            && l.allocs[i as int].2 is Some && all_restored(l, reserved, results, i as int),
        OrdinaryStep::ImportStage => backed && l.host is None,
        OrdinaryStep::ReserveStage { source } => backed && l.host is None,
        OrdinaryStep::MapStage { source, at } => backed && l.host is None,
        OrdinaryStep::AccessStage { source, at } => backed && l.host is None,
        OrdinaryStep::CopyRegion { source, at, i } => i < regions && backed && l.host is None
            && all_copied(l, reserved, results, i as int),
        OrdinaryStep::WaitForRegions { source, at } => backed && l.host is None && all_copied(
            l,
            reserved,
            results,
            regions,
        ),
        OrdinaryStep::UnmapStage { source, at } => backed && l.host is None && waited(
            l,
            reserved,
            results,
        ),
        OrdinaryStep::FreeStage { source, at } => backed && l.host is None && waited(
            l,
            reserved,
            results,
        ),
        OrdinaryStep::ReleaseStage { source } => backed && l.host is None && waited(
            l,
            reserved,
            results,
        ),
        OrdinaryStep::WaitForAll | OrdinaryStep::InPlace => backed && if l.host is Some {
            all_restored(l, reserved, results, l.allocs.len() as int)
        } else {
            waited(l, reserved, results)
        },
        _ => true,
    }
}

/// What was done before a call is still done after it.
proof fn lemma_holds_longer(
    l: LayoutModel,
    reserved: Seq<(u64, u64)>,
    results: Seq<Option<u64>>,
    step: OrdinaryStep,
)
    requires
        results.len() > 0,
        step_holds(l, reserved, results.drop_last(), step),
    ensures
        step_holds(l, reserved, results, step),
{
    let front = results.drop_last();
    assert forall|i: int, call: DriverCall|
        ordinary_made(l, reserved, front, i, call) implies #[trigger] ordinary_made(
        l,
        reserved,
        results,
        i,
        call,
    ) by {
        assert(front.take(i) =~= results.take(i));
    }
    assert forall|k: int| region_backed(l, reserved, front, k) implies #[trigger] region_backed(
        l,
        reserved,
        results,
        k,
    ) by {
        let (own, c, m, a) = choose|own: u64, c: int, m: int, a: int|
            backed_by(l, reserved, front, k, own, c, m, a);
        assert(backed_by(l, reserved, results, k, own, c, m, a));
    }
    assert forall|k: int| alloc_restored(l, reserved, front, k) implies #[trigger] alloc_restored(
        l,
        reserved,
        results,
        k,
    ) by {
        let i = choose|i: int| restored_by(l, reserved, front, k, i);
        assert(restored_by(l, reserved, results, k, i));
    }
    assert forall|k: int| region_copied(l, reserved, front, k) implies #[trigger] region_copied(
        l,
        reserved,
        results,
        k,
    ) by {
        let (at, i) = choose|at: u64, i: int| copied_by(l, reserved, front, k, at, i);
        assert(copied_by(l, reserved, results, k, at, i));
    }
    if waited(l, reserved, front) {
        let w = choose|w: int| waited_by(l, reserved, front, w);
        assert forall|k: int| 0 <= k < l.regions.len() implies #[trigger] copied_before(
            l,
            reserved,
            results,
            k,
            w,
        ) by {
            assert(copied_before(l, reserved, front, k, w));
            let (at, i) = choose|at: u64, i: int|
                i < w && copied_by(l, reserved, front, k, at, i);
            assert(copied_by(l, reserved, results, k, at, i));
        }
        assert(waited_by(l, reserved, results, w));
    }
    assert forall|k: int, own: u64| created(l, reserved, front, k, own) implies #[trigger] created(
        l,
        reserved,
        results,
        k,
        own,
    ) by {
        let c = choose|c: int| created_by(l, reserved, front, k, own, c);
        assert(created_by(l, reserved, results, k, own, c));
    }
    assert forall|k: int, own: u64| mapped(l, reserved, front, k, own) implies #[trigger] mapped(
        l,
        reserved,
        results,
        k,
        own,
    ) by {
        let m = choose|m: int| mapped_by(l, reserved, front, k, own, m);
        assert(mapped_by(l, reserved, results, k, own, m));
    }
}

/// Copies go on with an allocation, or are waited for.
proof fn lemma_copy_from(l: LayoutModel, source: u64, at: u64, i: int)
    requires
        0 <= i,
        l.allocs.len() <= usize::MAX,
    ensures
        match copy_from(l, source, at, i) {
            OrdinaryStep::AllocCopy { source: s, at: a, i: k } => i <= k < l.allocs.len(),
            OrdinaryStep::WaitForCopies { source: s, at: a } => true,
            _ => false,
        },
    decreases l.allocs.len() - i,
{
    if i < l.allocs.len() && first_region(l.regions, l.allocs[i].0, 0) is None {
        lemma_copy_from(l, source, at, i + 1);
    }
}

proof fn lemma_ordinary_run(
    l: LayoutModel,
    reserved: Seq<(u64, u64)>,
    results: Seq<Option<u64>>,
)
    requires
        l.regions.len() <= usize::MAX,
        l.allocs.len() <= usize::MAX,
    ensures
        step_holds(l, reserved, results, ordinary_run(l, reserved, results)),
    decreases results.len(),
{
    if results.len() > 0 {
        let front = results.drop_last();
        let n = results.len() - 1;
        let step = ordinary_run(l, reserved, front);
        lemma_ordinary_run(l, reserved, front);
        lemma_holds_longer(l, reserved, results, step);
        assert(results.take(n) =~= front);
        match step {
            OrdinaryStep::AccessCopies { source, at } => {
                lemma_copy_from(l, source, at, 0);
            },
            OrdinaryStep::AllocCopy { source, at, i } => {
                lemma_copy_from(l, source, at, i + 1);
            },
            OrdinaryStep::FillCopy { source, at, i, own } => {
                lemma_copy_from(l, source, at, i + 1);
            },
            _ => {},
        }
        if results.last() is Some {
            match step {
                OrdinaryStep::CreateRegion { i } => {
                    assert(created_by(l, reserved, results, i as int, results.last()->Some_0, n));
                },
                OrdinaryStep::MapRegion { i, own } => {
                    assert(mapped_by(l, reserved, results, i as int, own, n));
                },
                OrdinaryStep::AccessRegion { i, own } => {
                    let c = choose|c: int| created_by(l, reserved, results, i as int, own, c);
                    let m = choose|m: int| mapped_by(l, reserved, results, i as int, own, m);
                    assert(backed_by(l, reserved, results, i as int, own, c, m, n));
                },
                OrdinaryStep::RestoreAlloc { i } => {
                    assert(restored_by(l, reserved, results, i as int, n));
                },
                OrdinaryStep::CopyRegion { source, at, i } => {
                    assert(copied_by(l, reserved, results, i as int, at, n));
                },
                OrdinaryStep::WaitForRegions { source, at } => {
                    assert forall|k: int|
                        0 <= k < l.regions.len() implies #[trigger] copied_before(
                        l,
                        reserved,
                        results,
                        k,
                        n,
                    ) by {
                        assert(region_copied(l, reserved, front, k));
                        let (from, i) = choose|from: u64, i: int|
                            copied_by(l, reserved, front, k, from, i);
                        assert(front.take(i) =~= results.take(i));
                        assert(copied_by(l, reserved, results, k, from, i));
                    }
                    assert(waited_by(l, reserved, results, n));
                },
                _ => {},
            }
        }
    }
}

/// Allocations are translated only from a staging area, and only where the address of
/// one of their regions is not reserved; a host snapshot is never translated.
pub proof fn law_only_displaced_allocations_are_translated(
    l: LayoutModel,
    reserved: Seq<(u64, u64)>,
    results: Seq<Option<u64>>,
)
    requires
        l.allocs.len() <= usize::MAX,
        ordinary_run(l, reserved, results) is Translated,
    ensures
        l.host is None,
        l.stage is Some,
        !all_reserved(l.regions, reserved),
{
    lemma_translating(l, reserved, results);
}

/// The step makes translated copies.
spec fn translating(step: OrdinaryStep) -> bool {
    step is ImportCopies || step is ReserveCopies || step is MapCopies || step is AccessCopies
        || step is AllocCopy || step is FillCopy || step is WaitForCopies || step is UnmapCopies
        || step is FreeCopies || step is ReleaseCopies || step is Translated
}

proof fn lemma_translating(
    l: LayoutModel,
    reserved: Seq<(u64, u64)>,
    results: Seq<Option<u64>>,
)
    requires
        l.allocs.len() <= usize::MAX,
    ensures
        translating(ordinary_run(l, reserved, results)) ==> l.host is None && l.stage is Some
            && !all_reserved(l.regions, reserved),
    decreases results.len(),
{
    if results.len() > 0 {
        lemma_translating(l, reserved, results.drop_last());
    }
}

/// A restoration of ordinary allocations ends after at most five calls for each region,
/// two for each allocation, and nine more.
pub proof fn law_ordinary_restoration_ends(
    l: LayoutModel,
    reserved: Seq<(u64, u64)>,
    results: Seq<Option<u64>>,
)
    requires
        l.regions.len() <= usize::MAX,
        l.allocs.len() <= usize::MAX,
        results.len() >= 5 * l.regions.len() + 2 * l.allocs.len() + 9,
    ensures
        ordinary_call(l, ordinary_run(l, reserved, results)) is None,
{
    lemma_ordinary_progress(l, reserved, results);
}

/// How many calls may still come.
spec fn ordinary_left(l: LayoutModel, step: OrdinaryStep) -> int {
    let r = l.regions.len() as int;
    let a = l.allocs.len() as int;
    match step {
        OrdinaryStep::CreateRegion { i } => 4 * (r - i) + r + a + 9,
        OrdinaryStep::MapRegion { i, own } => 4 * (r - i) + r + a + 8,
        OrdinaryStep::AccessRegion { i, own } => 4 * (r - i) + r + a + 7,
        OrdinaryStep::ReleaseRegion { i, own } => 4 * (r - i) + r + a + 6,
        OrdinaryStep::RestoreAlloc { i } => a - i + 1,
        OrdinaryStep::ImportStage => r + 9,
        OrdinaryStep::ReserveStage { source } => r + 8,
        OrdinaryStep::MapStage { source, at } => r + 7,
        OrdinaryStep::AccessStage { source, at } => r + 6,
        OrdinaryStep::CopyRegion { source, at, i } => r - i + 5,
        OrdinaryStep::WaitForRegions { source, at } => 5,
        OrdinaryStep::UnmapStage { source, at } => 4,
        OrdinaryStep::FreeStage { source, at } => 3,
        OrdinaryStep::ReleaseStage { source } => 2,
        OrdinaryStep::WaitForAll => 1,
        OrdinaryStep::ImportCopies => 2 * a + 8,
        OrdinaryStep::ReserveCopies { source } => 2 * a + 7,
        OrdinaryStep::MapCopies { source, at } => 2 * a + 6,
        OrdinaryStep::AccessCopies { source, at } => 2 * a + 5,
        OrdinaryStep::AllocCopy { source, at, i } => 2 * (a - i) + 4,
        OrdinaryStep::FillCopy { source, at, i, own } => 2 * (a - i) + 3,
        OrdinaryStep::WaitForCopies { source, at } => 4,
        OrdinaryStep::UnmapCopies { source, at } => 3,
        OrdinaryStep::FreeCopies { source, at } => 2,
        OrdinaryStep::ReleaseCopies { source } => 1,
        _ => 0,
    }
}

/// The step is about a region or an allocation that there is.
spec fn in_bounds(l: LayoutModel, step: OrdinaryStep) -> bool {
    match step {
        OrdinaryStep::CreateRegion { i } => i < l.regions.len(),
        OrdinaryStep::MapRegion { i, own } => i < l.regions.len(),
        OrdinaryStep::AccessRegion { i, own } => i < l.regions.len(),
        OrdinaryStep::ReleaseRegion { i, own } => i < l.regions.len(),
        OrdinaryStep::RestoreAlloc { i } => i < l.allocs.len(),
        OrdinaryStep::CopyRegion { source, at, i } => i < l.regions.len(),
        OrdinaryStep::AllocCopy { source, at, i } => i < l.allocs.len(),
        OrdinaryStep::FillCopy { source, at, i, own } => i < l.allocs.len(),
        _ => true,
    }
}

proof fn lemma_ordinary_progress(
    l: LayoutModel,
    reserved: Seq<(u64, u64)>,
    results: Seq<Option<u64>>,
)
    requires
        l.regions.len() <= usize::MAX,
        l.allocs.len() <= usize::MAX,
    ensures
        ({
            let step = ordinary_run(l, reserved, results);
            let left = ordinary_left(l, step);
            &&& in_bounds(l, step)
            &&& ordinary_call(l, step) is Some <==> left > 0
            &&& left >= 0
            &&& left == 0 || left + results.len() <= 5 * l.regions.len() + 2 * l.allocs.len() + 9
        }),
    decreases results.len(),
{
    if results.len() > 0 {
        let front = results.drop_last();
        lemma_ordinary_progress(l, reserved, front);
        match ordinary_run(l, reserved, front) {
            OrdinaryStep::AccessCopies { source, at } => {
                lemma_copy_from(l, source, at, 0);
            },
            OrdinaryStep::AllocCopy { source, at, i } => {
                lemma_copy_from(l, source, at, i + 1);
            },
            OrdinaryStep::FillCopy { source, at, i, own } => {
                lemma_copy_from(l, source, at, i + 1);
            },
            _ => {},
        }
    }
}

} // verus!
