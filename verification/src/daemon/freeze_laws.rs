//! What taking a golden's memory guarantees.
use crate::daemon::freeze::{
    FreezeModel, FreezeStep, JobModel, chunk_from, first_freeze, freezing, next_freeze,
};
use crate::daemon::layout::MapEntry;
use crate::daemon::worker::{empty_layout, lemma_sizes_prefix, sizes_total};
use vstd::prelude::*;

verus! {

/// What is reached after steps that did or did not work.
pub open spec fn freeze_run(j: JobModel, results: Seq<bool>) -> FreezeModel
    decreases results.len(),
{
    if results.len() == 0 {
        first_freeze(j)
    } else {
        next_freeze(j, freeze_run(j, results.drop_last()), results.last())
    }
}

/// The `n`th step was `step`, and worked.
pub open spec fn took(j: JobModel, results: Seq<bool>, n: int, step: FreezeStep) -> bool {
    0 <= n < results.len() && freeze_run(j, results.take(n)).step == step && results[n]
}

/// The `n`th step copied range `k` to the snapshot, at `offset`.
pub open spec fn copied_at(j: JobModel, results: Seq<bool>, k: int, offset: u64, n: int) -> bool {
    took(j, results, n, FreezeStep::Copy { i: k as usize }) && freeze_run(
        j,
        results.take(n),
    ).layout.offset == offset
}

/// The `n`th step exported range `k`, under a descriptor.
pub open spec fn exported_at(j: JobModel, results: Seq<bool>, k: int, index: i32, n: int) -> bool {
    took(j, results, n, FreezeStep::Export { i: k as usize }) && freeze_run(
        j,
        results.take(n),
    ).layout.descriptors == index
}

/// Range `k` was copied to the snapshot, at `offset`.
pub open spec fn chunk_copied(j: JobModel, results: Seq<bool>, k: int, offset: u64) -> bool {
    exists|n: int| copied_at(j, results, k, offset, n)
}

/// Range `k` was exported, under a descriptor.
pub open spec fn chunk_exported(j: JobModel, results: Seq<bool>, k: int, index: i32) -> bool {
    exists|n: int| exported_at(j, results, k, index, n)
}

/// An entry of the layout is range `k`: its bytes were copied to where the entry says, or
/// it was exported under the entry's descriptor, shared if it may be.
pub open spec fn hands_over(j: JobModel, results: Seq<bool>, m: MapEntry, k: int) -> bool {
    &&& m.va == j.chunks[k].va
    &&& m.size == j.chunks[k].size
    &&& m.handle == Some(j.chunks[k].handle)
    &&& match m.host_offset {
        Some(offset) => !m.loaded && !j.shares(k) && chunk_copied(j, results, k, offset),
        None => m.loaded == j.safe[k] && chunk_exported(j, results, k, m.index),
    }
}

/// Every range of the golden is in the layout, in order, and its memory was handed over
/// as the layout says.
pub proof fn law_every_range_is_handed_over(j: JobModel, results: Seq<bool>)
    requires
        j.wf(),
        freeze_run(j, results).step is Done,
    ensures
        freeze_run(j, results).layout.maps.len() == j.chunks.len(),
        forall|k: int|
            0 <= k < j.chunks.len() ==> hands_over(
                j,
                results,
                #[trigger] freeze_run(j, results).layout.maps[k],
                k,
            ),
{
    lemma_freeze(j, results);
}

/// Where ordinary allocation `k` lies in the snapshot, behind the ranges.
pub open spec fn place_of(j: JobModel, offset: u64, k: int) -> u64 {
    (offset + sizes_total(j.allocs.take(k))) as u64
}

/// The `n`th step copied ordinary allocation `k` to its place.
pub open spec fn placed_at(j: JobModel, results: Seq<bool>, offset: u64, k: int, n: int) -> bool {
    took(
        j,
        results,
        n,
        FreezeStep::CopyOrdinary { i: k as usize, at: place_of(j, offset, k) },
    )
}

/// Ordinary allocation `k` was copied to its place.
pub open spec fn alloc_copied(j: JobModel, results: Seq<bool>, offset: u64, k: int) -> bool {
    exists|n: int| placed_at(j, results, offset, k, n)
}

/// A snapshot stands for the golden only if it holds every range that is not shared and
/// every ordinary allocation, and was sealed.
pub proof fn law_retained_snapshot_is_whole(j: JobModel, results: Seq<bool>)
    requires
        j.wf(),
        freeze_run(j, results).step is Done,
        freeze_run(j, results).retained,
    ensures
        ({
            let f = freeze_run(j, results);
            &&& !f.staged
            &&& forall|k: int|
                0 <= k < j.chunks.len() && !j.shares(k) ==> (
                #[trigger] f.layout.maps[k]).host_offset is Some
            &&& forall|k: int|
                0 <= k < j.allocs.len() ==> #[trigger] alloc_copied(
                    j,
                    results,
                    f.layout.offset,
                    k,
                )
            &&& exists|n: int| took(j, results, n, FreezeStep::Seal)
        }),
{
    lemma_freeze(j, results);
}

/// The first `n` ordinary allocations were copied.
spec fn all_placed(j: JobModel, results: Seq<bool>, offset: u64, n: int) -> bool {
    forall|k: int| 0 <= k < n ==> #[trigger] alloc_copied(j, results, offset, k)
}

spec fn was_sealed(j: JobModel, results: Seq<bool>) -> bool {
    exists|n: int| took(j, results, n, FreezeStep::Seal)
}

/// The ranges that are taken were handed over.
spec fn all_handed(j: JobModel, results: Seq<bool>, maps: Seq<MapEntry>) -> bool {
    forall|k: int| 0 <= k < maps.len() ==> hands_over(j, results, #[trigger] maps[k], k)
}

/// Nothing that belongs in the snapshot is missing from it.
spec fn nothing_missing(j: JobModel, maps: Seq<MapEntry>) -> bool {
    forall|k: int|
        0 <= k < maps.len() && !j.shares(k) ==> (#[trigger] maps[k]).host_offset is Some
}

/// What holds of what is reached.
spec fn freeze_holds(j: JobModel, results: Seq<bool>, f: FreezeModel) -> bool {
    let b = f.layout;
    let n = j.allocs.len() as int;
    &&& freezing(j, f)
    &&& all_handed(j, results, b.maps)
    &&& b.complete ==> nothing_missing(j, b.maps)
    &&& !(f.step is Create) ==> b.host_snapshot == j.snapshot
    &&& match f.step {
        FreezeStep::Export { i } => b.complete ==> j.shares(i as int),
        FreezeStep::CopyOrdinary { i, at } => all_placed(j, results, b.offset, i as int),
        FreezeStep::Seal => all_placed(j, results, b.offset, n),
        FreezeStep::Done => f.retained ==> b.complete && !f.staged && was_sealed(j, results)
            && all_placed(j, results, b.offset, n),
        _ => true,
    }
}

/// What was done before a step is still done after it.
proof fn lemma_freeze_lasts(j: JobModel, results: Seq<bool>, f: FreezeModel)
    requires
        results.len() > 0,
        freeze_holds(j, results.drop_last(), f),
    ensures
        freeze_holds(j, results, f),
{
    let front = results.drop_last();
    assert forall|n: int, step: FreezeStep| took(j, front, n, step) implies #[trigger] took(
        j,
        results,
        n,
        step,
    ) && front.take(n) == results.take(n) by {
        assert(front.take(n) =~= results.take(n));
    }
    assert forall|k: int| 0 <= k < f.layout.maps.len() implies hands_over(
        j,
        results,
        #[trigger] f.layout.maps[k],
        k,
    ) by {
        let m = f.layout.maps[k];
        assert(hands_over(j, front, m, k));
        match m.host_offset {
            Some(offset) => {
                let n = choose|n: int| copied_at(j, front, k, offset, n);
                assert(took(j, results, n, FreezeStep::Copy { i: k as usize }));
                assert(copied_at(j, results, k, offset, n));
            },
            None => {
                let n = choose|n: int| exported_at(j, front, k, m.index, n);
                assert(took(j, results, n, FreezeStep::Export { i: k as usize }));
                assert(exported_at(j, results, k, m.index, n));
            },
        }
    }
    assert forall|k: int| alloc_copied(j, front, f.layout.offset, k) implies #[trigger] alloc_copied(
        j,
        results,
        f.layout.offset,
        k,
    ) by {
        let n = choose|n: int| placed_at(j, front, f.layout.offset, k, n);
        assert(placed_at(j, results, f.layout.offset, k, n));
    }
    if was_sealed(j, front) {
        let n = choose|n: int| took(j, front, n, FreezeStep::Seal);
        assert(took(j, results, n, FreezeStep::Seal));
    }
}

/// What holds when it goes on with range `i` holds of what follows.
proof fn lemma_chunk_from(j: JobModel, results: Seq<bool>, f: FreezeModel, i: int)
    requires
        j.wf(),
        0 <= i <= j.chunks.len(),
        f.layout.maps.len() == i,
        f.layout.host_snapshot == j.snapshot,
        f.layout.snapshot is Some ==> f.layout.host_snapshot,
        f.layout.complete ==> f.layout.snapshot is Some,
        !f.staged,
        !f.retained,
        0 <= f.layout.descriptors <= i + 1,
        j.snapshot ==> f.layout.offset + j.private_from(i) + sizes_total(j.allocs) <= u64::MAX,
        all_handed(j, results, f.layout.maps),
        f.layout.complete ==> nothing_missing(j, f.layout.maps),
    ensures
        freeze_holds(j, results, chunk_from(j, f, i)),
{
    assert(j.allocs.take(0) =~= Seq::empty());
}

proof fn lemma_freeze(j: JobModel, results: Seq<bool>)
    requires
        j.wf(),
    ensures
        freeze_holds(j, results, freeze_run(j, results)),
    decreases results.len(),
{
    if results.len() == 0 {
        if !j.snapshot {
            let f = FreezeModel {
                step: FreezeStep::Create,
                layout: empty_layout(false, false),
                staged: false,
                retained: false,
            };
            lemma_chunk_from(j, results, f, 0);
        }
        return ;
    }
    let front = results.drop_last();
    let f = freeze_run(j, front);
    let ok = results.last();
    let n = results.len() - 1;
    lemma_freeze(j, front);
    lemma_freeze_lasts(j, results, f);
    assert(results.take(n) =~= front);
    match f.step {
        FreezeStep::Create => {
            lemma_chunk_from(j, results, FreezeModel { layout: empty_layout(true, ok), ..f }, 0);
        },
        FreezeStep::Copy { i } => {
            if ok {
                let b = f.layout.with_copied(j.chunks[i as int]);
                assert(copied_at(j, results, i as int, f.layout.offset, n));
                assert(hands_over(j, results, b.maps[i as int], i as int));
                assert forall|k: int| 0 <= k < b.maps.len() implies hands_over(
                    j,
                    results,
                    #[trigger] b.maps[k],
                    k,
                ) by {
                    if k < i {
                        assert(b.maps[k] == f.layout.maps[k]);
                    }
                }
                assert forall|k: int|
                    f.layout.complete && 0 <= k < b.maps.len() && !j.shares(k) implies (
                #[trigger] b.maps[k]).host_offset is Some by {
                    if k < i {
                        assert(b.maps[k] == f.layout.maps[k]);
                    }
                }
                lemma_chunk_from(j, results, FreezeModel { layout: b, ..f }, i + 1);
            }
        },
        FreezeStep::Export { i } => {
            if ok {
                let b = f.layout.with_exported(j.chunks[i as int], j.safe[i as int]);
                assert(exported_at(j, results, i as int, f.layout.descriptors, n));
                assert(hands_over(j, results, b.maps[i as int], i as int));
                assert forall|k: int| 0 <= k < b.maps.len() implies hands_over(
                    j,
                    results,
                    #[trigger] b.maps[k],
                    k,
                ) by {
                    if k < i {
                        assert(b.maps[k] == f.layout.maps[k]);
                    }
                }
                assert forall|k: int|
                    f.layout.complete && 0 <= k < b.maps.len() && !j.shares(k) implies (
                #[trigger] b.maps[k]).host_offset is Some by {
                    if k < i {
                        assert(b.maps[k] == f.layout.maps[k]);
                    }
                }
                lemma_chunk_from(j, results, FreezeModel { layout: b, ..f }, i + 1);
            }
        },
        FreezeStep::CopyOrdinary { i, at } => {
            if ok {
                let all = j.allocs;
                assert(all.take(i + 1).drop_last() =~= all.take(i as int));
                assert(all.take(i + 1).last() == all[i as int]);
                lemma_sizes_prefix(all, i + 1);
                assert(at == place_of(j, f.layout.offset, i as int)) by {
                    lemma_sizes_prefix(all, i as int);
                }
                assert(placed_at(j, results, f.layout.offset, i as int, n));
                assert(alloc_copied(j, results, f.layout.offset, i as int));
            }
        },
        FreezeStep::Seal => {
            if ok {
                assert(took(j, results, n, FreezeStep::Seal));
            }
        },
        _ => {},
    }
}

/// Taking a golden's memory ends: after at most two steps for each range, one for each
/// ordinary allocation, and three more.
pub proof fn law_freezing_ends(j: JobModel, results: Seq<bool>)
    requires
        j.wf(),
        results.len() >= 2 * j.chunks.len() + j.allocs.len() + 3,
    ensures
        freeze_run(j, results).step is Done || freeze_run(j, results).step is Failed,
{
    lemma_freeze_progress(j, results);
    lemma_freeze(j, results);
}

/// How many steps may still come.
spec fn steps_left(j: JobModel, step: FreezeStep) -> int {
    let c = j.chunks.len() as int;
    let a = j.allocs.len() as int;
    match step {
        FreezeStep::Create => 2 * c + a + 3,
        FreezeStep::Copy { i } => 2 * (c - i) + a + 2,
        FreezeStep::Export { i } => 2 * (c - i) + a + 1,
        FreezeStep::CopyOrdinary { i, at } => a - i + 2,
        FreezeStep::Stage => 2,
        FreezeStep::Seal => 1,
        _ => 0,
    }
}

proof fn lemma_freeze_progress(j: JobModel, results: Seq<bool>)
    requires
        j.wf(),
    ensures
        ({
            let left = steps_left(j, freeze_run(j, results).step);
            left == 0 || left + results.len() <= 2 * j.chunks.len() + j.allocs.len() + 3
        }),
    decreases results.len(),
{
    lemma_freeze(j, results);
    if results.len() > 0 {
        let front = results.drop_last();
        lemma_freeze_progress(j, front);
        lemma_freeze(j, front);
    }
}

} // verus!
