//! Where the content of a clone's ordinary allocations comes from.
use crate::daemon::layout::LayoutModel;
use crate::daemon::memory::{DriverCall, first_region, holds_address, regions_total};
use crate::daemon::ordinary::{
    OrdinaryStep, content_given, copy_from, next_ordinary_step, next_translations, ordinary_call,
    stage_ends, staged_address,
};
use crate::daemon::ordinary_laws::ordinary_run;
use crate::filtering::lemma_push_members;
use vstd::prelude::*;

verus! {

/// The translations after calls that gave `results`.
pub open spec fn ordinary_translations(
    l: LayoutModel,
    reserved: Seq<(u64, u64)>,
    results: Seq<Option<u64>>,
) -> Seq<(u64, u64, u64)>
    decreases results.len(),
{
    if results.len() == 0 {
        Seq::empty()
    } else {
        let front = results.drop_last();
        next_translations(
            l,
            ordinary_run(l, reserved, front),
            results.last(),
            ordinary_translations(l, reserved, front),
        )
    }
}

/// The `n`th call of a run.
#[verifier::opaque]
pub open spec fn call_at(
    l: LayoutModel,
    reserved: Seq<(u64, u64)>,
    results: Seq<Option<u64>>,
    n: int,
) -> Option<DriverCall> {
    ordinary_call(l, ordinary_run(l, reserved, results.take(n)))
}

/// Call `a` imported the staging area, `b` reserved the address `at` for all of it, and `c`
/// mapped it there.
pub open spec fn stage_mapped_by(
    l: LayoutModel,
    reserved: Seq<(u64, u64)>,
    results: Seq<Option<u64>>,
    at: u64,
    a: int,
    b: int,
    c: int,
) -> bool {
    let size = regions_total(l.regions) as u64;
    &&& 0 <= a < b < c < results.len()
    &&& l.stage is Some && results[a] is Some
    &&& call_at(l, reserved, results, a) == Some(DriverCall::Import { index: l.stage->Some_0 })
    &&& call_at(l, reserved, results, b) == Some(DriverCall::Reserve { size })
    &&& results[b] == Some(at)
    &&& call_at(l, reserved, results, c) == Some(
        DriverCall::MapAt { va: at, size, handle: results[a]->Some_0 },
    )
    &&& results[c] is Some
}

/// The staging area was mapped at `at` before call `n`.
pub open spec fn stage_mapped(
    l: LayoutModel,
    reserved: Seq<(u64, u64)>,
    results: Seq<Option<u64>>,
    at: u64,
    n: int,
) -> bool {
    exists|a: int, b: int, c: int|
        c < n && #[trigger] stage_mapped_by(l, reserved, results, at, a, b, c)
}

/// Region `k` is the first that holds the address.
pub open spec fn region_holds(l: LayoutModel, k: int, d: u64) -> bool {
    &&& 0 <= k < l.regions.len()
    &&& l.regions[k].0 <= d < l.regions[k].0 + l.regions[k].1
    &&& forall|j: int|
        0 <= j < k ==> !((#[trigger] l.regions[j]).0 <= d < l.regions[j].0 + l.regions[j].1)
}

/// Translation `t` is of allocation `i`, which region `k` holds. Call `m` allocated its
/// memory, and call `n` copied to it, from where the staging area was mapped, what lies
/// there at the offset of the region as far in as the allocation is in the region.
pub open spec fn translated_by(
    l: LayoutModel,
    reserved: Seq<(u64, u64)>,
    results: Seq<Option<u64>>,
    t: (u64, u64, u64),
    i: int,
    k: int,
    at: u64,
    m: int,
    n: int,
) -> bool {
    &&& 0 <= i < l.allocs.len() && t.0 == l.allocs[i].0 && t.1 == l.allocs[i].1
    &&& region_holds(l, k, t.0)
    &&& 0 <= m < n < results.len()
    &&& stage_mapped(l, reserved, results, at, m)
    &&& call_at(l, reserved, results, m) == Some(DriverCall::Allocate { size: t.1 })
    &&& results[m] == Some(t.2)
    &&& match call_at(l, reserved, results, n) {
        Some(DriverCall::Copy { to, from, size }) => to == t.2 && size == t.1 && from as int == at
            + l.regions[k].2 + (t.0 - l.regions[k].0),
        _ => false,
    }
}

/// Translation `t` is of an allocation that was copied from the staging area before call
/// `w`.
pub open spec fn is_copy(
    l: LayoutModel,
    reserved: Seq<(u64, u64)>,
    results: Seq<Option<u64>>,
    t: (u64, u64, u64),
    w: int,
) -> bool {
    exists|i: int, k: int, at: u64, m: int, n: int|
        n < w && #[trigger] translated_by(l, reserved, results, t, i, k, at, m, n)
}

/// Every translation is of an allocation that was copied before call `w`.
pub open spec fn all_copies(
    l: LayoutModel,
    reserved: Seq<(u64, u64)>,
    results: Seq<Option<u64>>,
    translations: Seq<(u64, u64, u64)>,
    w: int,
) -> bool {
    forall|j: int|
        0 <= j < translations.len() ==> is_copy(
            l,
            reserved,
            results,
            #[trigger] translations[j],
            w,
        )
}

/// Memory for a copy of allocation `i` was asked for, and where it was had, the copy is
/// translated to.
pub open spec fn tried(
    l: LayoutModel,
    reserved: Seq<(u64, u64)>,
    results: Seq<Option<u64>>,
    translations: Seq<(u64, u64, u64)>,
    i: int,
) -> bool {
    exists|n: int|
        {
            &&& 0 <= n < results.len()
            &&& #[trigger] call_at(l, reserved, results, n) == Some(
                DriverCall::Allocate { size: l.allocs[i].1 },
            )
            &&& results[n] matches Some(own) ==> translations.contains(
                (l.allocs[i].0, l.allocs[i].1, own),
            )
        }
}

/// Every one of the first `n` allocations that a region holds was tried.
pub open spec fn all_tried(
    l: LayoutModel,
    reserved: Seq<(u64, u64)>,
    results: Seq<Option<u64>>,
    translations: Seq<(u64, u64, u64)>,
    n: int,
) -> bool {
    forall|i: int, k: int|
        0 <= i < n && #[trigger] region_holds(l, k, l.allocs[i].0) ==> tried(
            l,
            reserved,
            results,
            translations,
            i,
        )
}

/// The staging area could not be had, addressed or mapped.
pub open spec fn stage_failed(
    l: LayoutModel,
    reserved: Seq<(u64, u64)>,
    results: Seq<Option<u64>>,
) -> bool {
    exists|n: int|
        {
            &&& 0 <= n < results.len() && results[n] is None
            &&& match #[trigger] call_at(l, reserved, results, n) {
                Some(DriverCall::Import { index: _ }) => true,
                Some(DriverCall::Reserve { size: _ }) => true,
                Some(DriverCall::MapAt { va: _, size: _, handle: _ }) => true,
                _ => false,
            }
        }
}

/// Each address that was reserved for the staging area has room behind it for every region.
pub open spec fn reservations_fit(
    l: LayoutModel,
    reserved: Seq<(u64, u64)>,
    results: Seq<Option<u64>>,
) -> bool {
    forall|n: int|
        0 <= n < results.len() && (#[trigger] call_at(l, reserved, results, n) matches Some(
            DriverCall::Reserve { size: _ },
        )) && results[n] is Some ==> forall|k: int|
            0 <= k < l.regions.len() ==> results[n]->Some_0 + (#[trigger] l.regions[k]).2
                + l.regions[k].1 <= u64::MAX
}

/// Every translated copy holds its allocation: it is memory that was allocated for it, and
/// was filled from where the mapped staging area holds exactly that allocation, and the
/// copies were waited for. Every allocation that a region holds was tried, unless the
/// staging area could not be mapped.
pub proof fn law_translated_copies_hold_their_allocations(
    l: LayoutModel,
    reserved: Seq<(u64, u64)>,
    results: Seq<Option<u64>>,
)
    requires
        l.allocs.len() <= usize::MAX,
        reservations_fit(l, reserved, results),
        ordinary_run(l, reserved, results) is Translated,
    ensures
        ({
            let translations = ordinary_translations(l, reserved, results);
            &&& translations.len() == 0 || exists|w: int|
                0 <= w < results.len() && #[trigger] call_at(l, reserved, results, w) == Some(
                    DriverCall::Synchronize,
                ) && all_copies(l, reserved, results, translations, w)
            &&& stage_failed(l, reserved, results) || all_tried(
                l,
                reserved,
                results,
                translations,
                l.allocs.len() as int,
            )
        }),
{
    lemma_copies(l, reserved, results);
}

/// Call `a` imported the staging area.
spec fn stage_imported(
    l: LayoutModel,
    reserved: Seq<(u64, u64)>,
    results: Seq<Option<u64>>,
    source: u64,
    a: int,
) -> bool {
    &&& 0 <= a < results.len() && l.stage is Some && results[a] == Some(source)
    &&& call_at(l, reserved, results, a) == Some(DriverCall::Import { index: l.stage->Some_0 })
}

spec fn imported(
    l: LayoutModel,
    reserved: Seq<(u64, u64)>,
    results: Seq<Option<u64>>,
    source: u64,
) -> bool {
    exists|a: int| stage_imported(l, reserved, results, source, a)
}

/// Call `a` imported the staging area, and `b` reserved the address `at` for all of it.
spec fn stage_placed(
    l: LayoutModel,
    reserved: Seq<(u64, u64)>,
    results: Seq<Option<u64>>,
    source: u64,
    at: u64,
    a: int,
    b: int,
) -> bool {
    &&& stage_imported(l, reserved, results, source, a)
    &&& a < b < results.len() && results[b] == Some(at)
    &&& call_at(l, reserved, results, b) == Some(
        DriverCall::Reserve { size: regions_total(l.regions) as u64 },
    )
    &&& stage_ends(l, at)
}

spec fn placed(
    l: LayoutModel,
    reserved: Seq<(u64, u64)>,
    results: Seq<Option<u64>>,
    source: u64,
    at: u64,
) -> bool {
    exists|a: int, b: int| stage_placed(l, reserved, results, source, at, a, b)
}

/// The staging area was mapped at `at`, where it has room.
spec fn stage_ready(
    l: LayoutModel,
    reserved: Seq<(u64, u64)>,
    results: Seq<Option<u64>>,
    at: u64,
) -> bool {
    stage_mapped(l, reserved, results, at, results.len() as int) && stage_ends(l, at)
}

/// Call `m` allocated `own` for allocation `i`.
spec fn copy_allocated(
    l: LayoutModel,
    reserved: Seq<(u64, u64)>,
    results: Seq<Option<u64>>,
    at: u64,
    i: int,
    own: u64,
    m: int,
) -> bool {
    &&& 0 <= m < results.len() && results[m] == Some(own)
    &&& call_at(l, reserved, results, m) == Some(DriverCall::Allocate { size: l.allocs[i].1 })
    &&& stage_mapped(l, reserved, results, at, m)
}

spec fn allocated(
    l: LayoutModel,
    reserved: Seq<(u64, u64)>,
    results: Seq<Option<u64>>,
    at: u64,
    i: int,
    own: u64,
) -> bool {
    exists|m: int| copy_allocated(l, reserved, results, at, i, own, m)
}

/// The first `i` allocations were tried, from a staging area mapped at `at`.
spec fn copied_to(
    l: LayoutModel,
    reserved: Seq<(u64, u64)>,
    results: Seq<Option<u64>>,
    t: Seq<(u64, u64, u64)>,
    at: u64,
    i: int,
) -> bool {
    &&& stage_ready(l, reserved, results, at)
    &&& all_copies(l, reserved, results, t, results.len() as int)
    &&& all_tried(l, reserved, results, t, i)
}

spec fn in_a_region(l: LayoutModel, i: int) -> bool {
    i < l.allocs.len() && first_region(l.regions, l.allocs[i].0, 0) is Some
}

spec fn copies_waited(
    l: LayoutModel,
    reserved: Seq<(u64, u64)>,
    results: Seq<Option<u64>>,
    t: Seq<(u64, u64, u64)>,
) -> bool {
    &&& t.len() == 0 || exists|w: int|
        0 <= w < results.len() && #[trigger] call_at(l, reserved, results, w) == Some(
            DriverCall::Synchronize,
        ) && all_copies(l, reserved, results, t, w)
    &&& stage_failed(l, reserved, results) || all_tried(
        l,
        reserved,
        results,
        t,
        l.allocs.len() as int,
    )
}

/// What holds at each step of a run that makes copies.
spec fn copies_hold(
    l: LayoutModel,
    reserved: Seq<(u64, u64)>,
    results: Seq<Option<u64>>,
    step: OrdinaryStep,
    t: Seq<(u64, u64, u64)>,
) -> bool {
    match step {
        OrdinaryStep::ImportCopies => t.len() == 0 && l.stage is Some,
        OrdinaryStep::ReserveCopies { source } => t.len() == 0 && imported(
            l,
            reserved,
            results,
            source,
        ),
        OrdinaryStep::MapCopies { source, at } => t.len() == 0 && placed(
            l,
            reserved,
            results,
            source,
            at,
        ),
        OrdinaryStep::AccessCopies { source, at } => t.len() == 0 && stage_ready(
            l,
            reserved,
            results,
            at,
        ),
        OrdinaryStep::AllocCopy { source, at, i } => in_a_region(l, i as int) && copied_to(
            l,
            reserved,
            results,
            t,
            at,
            i as int,
        ),
        OrdinaryStep::FillCopy { source, at, i, own } => in_a_region(l, i as int) && copied_to(
            l,
            reserved,
            results,
            t,
            at,
            i as int,
        ) && allocated(l, reserved, results, at, i as int, own),
        OrdinaryStep::WaitForCopies { source, at } => copied_to(
            l,
            reserved,
            results,
            t,
            at,
            l.allocs.len() as int,
        ),
        OrdinaryStep::UnmapCopies { source, at } => copies_waited(l, reserved, results, t),
        OrdinaryStep::FreeCopies { source, at } => copies_waited(l, reserved, results, t),
        OrdinaryStep::ReleaseCopies { source } => copies_waited(l, reserved, results, t),
        OrdinaryStep::Translated => copies_waited(l, reserved, results, t),
        OrdinaryStep::InPlace => true,
        _ => t.len() == 0,
    }
}

/// The first region that holds an address is the one that is found.
pub proof fn lemma_region_holds(l: LayoutModel, d: u64, from: int)
    requires
        0 <= from <= l.regions.len(),
        forall|j: int|
            0 <= j < from ==> !((#[trigger] l.regions[j]).0 <= d < l.regions[j].0 + l.regions[j].1),
    ensures
        match first_region(l.regions, d, from) {
            Some(r) => exists|k: int| #[trigger] region_holds(l, k, d) && l.regions[k] == r,
            None => forall|k: int| !#[trigger] region_holds(l, k, d),
        },
    decreases l.regions.len() - from,
{
    if from < l.regions.len() {
        if holds_address(l.regions[from], d) {
            assert(region_holds(l, from, d));
        } else {
            lemma_region_holds(l, d, from + 1);
        }
    }
}

#[verifier::rlimit(40)]
proof fn lemma_longer(
    l: LayoutModel,
    reserved: Seq<(u64, u64)>,
    results: Seq<Option<u64>>,
    step: OrdinaryStep,
    t: Seq<(u64, u64, u64)>,
)
    requires
        results.len() > 0,
        copies_hold(l, reserved, results.drop_last(), step, t),
    ensures
        copies_hold(l, reserved, results, step, t),
{
    let front = results.drop_last();
    assert forall|n: int| 0 <= n < front.len() implies #[trigger] call_at(
        l,
        reserved,
        results,
        n,
    ) == call_at(l, reserved, front, n) by {
        reveal(call_at);
        assert(front.take(n) =~= results.take(n));
    }
    assert forall|at: u64, n: int| stage_mapped(l, reserved, front, at, n) implies #[trigger] stage_mapped(
    l, reserved, results, at, n) by {
        let (a, b, c) = choose|a: int, b: int, c: int|
            c < n && #[trigger] stage_mapped_by(l, reserved, front, at, a, b, c);
        assert(stage_mapped_by(l, reserved, results, at, a, b, c));
    }
    assert forall|x: (u64, u64, u64), w: int| is_copy(l, reserved, front, x, w) implies #[trigger] is_copy(
    l, reserved, results, x, w) by {
        let (i, k, at, m, n) = choose|i: int, k: int, at: u64, m: int, n: int|
            n < w && #[trigger] translated_by(l, reserved, front, x, i, k, at, m, n);
        assert(translated_by(l, reserved, results, x, i, k, at, m, n));
    }
    assert forall|x: (u64, u64, u64), w: int, v: int|
        #[trigger] is_copy(l, reserved, results, x, w) && w <= v implies #[trigger] is_copy(
        l,
        reserved,
        results,
        x,
        v,
    ) by {
        let (i, k, at, m, n) = choose|i: int, k: int, at: u64, m: int, n: int|
            n < w && #[trigger] translated_by(l, reserved, results, x, i, k, at, m, n);
        assert(translated_by(l, reserved, results, x, i, k, at, m, n));
    }
    assert forall|w: int| all_copies(l, reserved, front, t, w) implies #[trigger] all_copies(
        l,
        reserved,
        results,
        t,
        w,
    ) by {}
    if all_copies(l, reserved, results, t, front.len() as int) {
        assert forall|j: int| 0 <= j < t.len() implies is_copy(
            l,
            reserved,
            results,
            #[trigger] t[j],
            results.len() as int,
        ) by {
            assert(is_copy(l, reserved, results, t[j], front.len() as int));
        }
    }
    assert forall|i: int| tried(l, reserved, front, t, i) implies #[trigger] tried(
        l,
        reserved,
        results,
        t,
        i,
    ) by {
        let n = choose|n: int|
            {
                &&& 0 <= n < front.len()
                &&& #[trigger] call_at(l, reserved, front, n) == Some(
                    DriverCall::Allocate { size: l.allocs[i].1 },
                )
                &&& front[n] matches Some(own) ==> t.contains((l.allocs[i].0, l.allocs[i].1, own))
            };
        assert(call_at(l, reserved, results, n) == call_at(l, reserved, front, n));
    }
    if stage_failed(l, reserved, front) {
        let n = choose|n: int|
            {
                &&& 0 <= n < front.len() && front[n] is None
                &&& match #[trigger] call_at(l, reserved, front, n) {
                    Some(DriverCall::Import { index: _ }) => true,
                    Some(DriverCall::Reserve { size: _ }) => true,
                    Some(DriverCall::MapAt { va: _, size: _, handle: _ }) => true,
                    _ => false,
                }
            };
        assert(call_at(l, reserved, results, n) == call_at(l, reserved, front, n));
        assert(stage_failed(l, reserved, results));
    }
    if copies_waited(l, reserved, front, t) && t.len() > 0 {
        let w = choose|w: int|
            0 <= w < front.len() && #[trigger] call_at(l, reserved, front, w) == Some(
                DriverCall::Synchronize,
            ) && all_copies(l, reserved, front, t, w);
        assert(call_at(l, reserved, results, w) == Some(DriverCall::Synchronize));
    }
    match step {
        OrdinaryStep::ReserveCopies { source } => {
            let a = choose|a: int| stage_imported(l, reserved, front, source, a);
            assert(stage_imported(l, reserved, results, source, a));
        },
        OrdinaryStep::MapCopies { source, at } => {
            let (a, b) = choose|a: int, b: int|
                stage_placed(l, reserved, front, source, at, a, b);
            assert(stage_placed(l, reserved, results, source, at, a, b));
        },
        OrdinaryStep::AccessCopies { source, at } => {
            lemma_mapped_later(l, reserved, results, at, front.len() as int);
        },
        OrdinaryStep::AllocCopy { source, at, i } => {
            lemma_mapped_later(l, reserved, results, at, front.len() as int);
        },
        OrdinaryStep::WaitForCopies { source, at } => {
            lemma_mapped_later(l, reserved, results, at, front.len() as int);
        },
        OrdinaryStep::FillCopy { source, at, i, own } => {
            lemma_mapped_later(l, reserved, results, at, front.len() as int);
            let m = choose|m: int| copy_allocated(l, reserved, front, at, i as int, own, m);
            assert(copy_allocated(l, reserved, results, at, i as int, own, m));
        },
        _ => {},
    }
}

proof fn lemma_mapped_later(
    l: LayoutModel,
    reserved: Seq<(u64, u64)>,
    results: Seq<Option<u64>>,
    at: u64,
    n: int,
)
    requires
        stage_mapped(l, reserved, results, at, n),
        n <= results.len(),
    ensures
        stage_mapped(l, reserved, results, at, results.len() as int),
{
    let (a, b, c) = choose|a: int, b: int, c: int|
        c < n && #[trigger] stage_mapped_by(l, reserved, results, at, a, b, c);
    assert(stage_mapped_by(l, reserved, results, at, a, b, c));
}

/// Allocations that no region holds need not be tried.
proof fn lemma_passed_over(
    l: LayoutModel,
    reserved: Seq<(u64, u64)>,
    results: Seq<Option<u64>>,
    t: Seq<(u64, u64, u64)>,
    source: u64,
    at: u64,
    i: int,
)
    requires
        0 <= i <= l.allocs.len() <= usize::MAX,
        copied_to(l, reserved, results, t, at, i),
    ensures
        copies_hold(l, reserved, results, copy_from(l, source, at, i), t),
    decreases l.allocs.len() - i,
{
    if i < l.allocs.len() && first_region(l.regions, l.allocs[i].0, 0) is None {
        lemma_region_holds(l, l.allocs[i].0, 0);
        lemma_passed_over(l, reserved, results, t, source, at, i + 1);
    }
}

proof fn lemma_copies(l: LayoutModel, reserved: Seq<(u64, u64)>, results: Seq<Option<u64>>)
    requires
        l.allocs.len() <= usize::MAX,
        reservations_fit(l, reserved, results),
    ensures
        copies_hold(
            l,
            reserved,
            results,
            ordinary_run(l, reserved, results),
            ordinary_translations(l, reserved, results),
        ),
    decreases results.len(),
{
    reveal(call_at);
    if results.len() > 0 {
        let front = results.drop_last();
        let n = results.len() - 1;
        let step = ordinary_run(l, reserved, front);
        let t = ordinary_translations(l, reserved, front);
        let result = results.last();
        assert(results.take(n) =~= front);
        assert(call_at(l, reserved, results, n) == ordinary_call(l, step));
        assert forall|j: int| 0 <= j < front.len() implies #[trigger] call_at(
            l,
            reserved,
            front,
            j,
        ) == call_at(l, reserved, results, j) by {
            assert(front.take(j) =~= results.take(j));
        }
        assert(reservations_fit(l, reserved, front));
        lemma_copies(l, reserved, front);
        lemma_longer(l, reserved, results, step, t);
        lemma_copies_step(l, reserved, results, step, t);
    } else {
        assert(Seq::<(u64, u64, u64)>::empty().len() == 0);
    }
}

#[verifier::rlimit(40)]
proof fn lemma_copies_step(
    l: LayoutModel,
    reserved: Seq<(u64, u64)>,
    results: Seq<Option<u64>>,
    step: OrdinaryStep,
    t: Seq<(u64, u64, u64)>,
)
    requires
        l.allocs.len() <= usize::MAX,
        results.len() > 0,
        call_at(l, reserved, results, results.len() - 1) == ordinary_call(l, step),
        reservations_fit(l, reserved, results),
        copies_hold(l, reserved, results.drop_last(), step, t),
        copies_hold(l, reserved, results, step, t),
    ensures
        copies_hold(
            l,
            reserved,
            results,
            next_ordinary_step(l, step, results.last()),
            next_translations(l, step, results.last(), t),
        ),
{
    let n = results.len() - 1;
    let result = results.last();
    match step {
        OrdinaryStep::ImportCopies => {
            lemma_import_step(l, reserved, results);
        },
        OrdinaryStep::ReserveCopies { source } => {
            lemma_reserve_step(l, reserved, results, source);
        },
        OrdinaryStep::MapCopies { source, at } => {
            lemma_map_step(l, reserved, results, source, at);
        },
        OrdinaryStep::AccessCopies { source, at } => {
            assert(copied_to(l, reserved, results, t, at, 0));
            lemma_passed_over(l, reserved, results, t, source, at, 0);
        },
        OrdinaryStep::AllocCopy { source, at, i } => {
            lemma_alloc_step(l, reserved, results, at, i as int, t);
            if result is None {
                lemma_passed_over(l, reserved, results, t, source, at, i + 1);
            }
        },
        OrdinaryStep::FillCopy { source, at, i, own } => {
            let more = t.push((l.allocs[i as int].0, l.allocs[i as int].1, own));
            lemma_fill_step(l, reserved, results, at, i as int, own, t);
            lemma_passed_over(l, reserved, results, more, source, at, i + 1);
        },
        OrdinaryStep::WaitForCopies { source, at } => {
            lemma_wait_step(l, reserved, results, t);
        },
        _ => {},
    }
}

proof fn lemma_import_step(
    l: LayoutModel,
    reserved: Seq<(u64, u64)>,
    results: Seq<Option<u64>>,
)
    requires
        results.len() > 0,
        l.stage is Some,
        call_at(l, reserved, results, results.len() - 1) == Some(
            DriverCall::Import { index: l.stage->Some_0 },
        ),
    ensures
        results.last() matches Some(source) ==> imported(l, reserved, results, source),
        results.last() is None ==> stage_failed(l, reserved, results),
{
    let n = results.len() - 1;
    if results.last() is Some {
        assert(stage_imported(l, reserved, results, results.last()->Some_0, n));
    }
}

proof fn lemma_reserve_step(
    l: LayoutModel,
    reserved: Seq<(u64, u64)>,
    results: Seq<Option<u64>>,
    source: u64,
)
    requires
        results.len() > 0,
        reservations_fit(l, reserved, results),
        imported(l, reserved, results.drop_last(), source),
        call_at(l, reserved, results, results.len() - 1) == Some(
            DriverCall::Reserve { size: regions_total(l.regions) as u64 },
        ),
    ensures
        results.last() matches Some(at) ==> placed(l, reserved, results, source, at),
        results.last() is None ==> stage_failed(l, reserved, results),
{
    reveal(call_at);
    let front = results.drop_last();
    let n = results.len() - 1;
    if results.last() is Some {
        let at = results.last()->Some_0;
        let a = choose|a: int| stage_imported(l, reserved, front, source, a);
        assert(front.take(a) =~= results.take(a));
        assert(stage_ends(l, at));
        assert(stage_placed(l, reserved, results, source, at, a, n));
    }
}

proof fn lemma_map_step(
    l: LayoutModel,
    reserved: Seq<(u64, u64)>,
    results: Seq<Option<u64>>,
    source: u64,
    at: u64,
)
    requires
        results.len() > 0,
        placed(l, reserved, results.drop_last(), source, at),
        call_at(l, reserved, results, results.len() - 1) == Some(
            DriverCall::MapAt { va: at, size: regions_total(l.regions) as u64, handle: source },
        ),
    ensures
        results.last() is Some ==> stage_ready(l, reserved, results, at),
        results.last() is None ==> stage_failed(l, reserved, results),
{
    reveal(call_at);
    let front = results.drop_last();
    let n = results.len() - 1;
    if results.last() is Some {
        let (a, b) = choose|a: int, b: int| stage_placed(l, reserved, front, source, at, a, b);
        assert(front.take(a) =~= results.take(a));
        assert(front.take(b) =~= results.take(b));
        assert(stage_mapped_by(l, reserved, results, at, a, b, n));
    }
}

proof fn lemma_wait_step(
    l: LayoutModel,
    reserved: Seq<(u64, u64)>,
    results: Seq<Option<u64>>,
    t: Seq<(u64, u64, u64)>,
)
    requires
        results.len() > 0,
        all_copies(l, reserved, results.drop_last(), t, results.len() - 1),
        all_tried(l, reserved, results, t, l.allocs.len() as int),
        call_at(l, reserved, results, results.len() - 1) == Some(DriverCall::Synchronize),
    ensures
        copies_waited(l, reserved, results, t),
{
    let front = results.drop_last();
    let n = results.len() - 1;
    assert forall|j: int| 0 <= j < t.len() implies is_copy(
        l,
        reserved,
        results,
        #[trigger] t[j],
        n,
    ) by {
        assert(is_copy(l, reserved, front, t[j], n));
        let (i, k, at, m, c) = choose|i: int, k: int, at: u64, m: int, c: int|
            c < n && #[trigger] translated_by(l, reserved, front, t[j], i, k, at, m, c);
        lemma_translated_longer(l, reserved, results, t[j], i, k, at, m, c);
    }
    assert(all_copies(l, reserved, results, t, n));
}

proof fn lemma_translated_longer(
    l: LayoutModel,
    reserved: Seq<(u64, u64)>,
    results: Seq<Option<u64>>,
    x: (u64, u64, u64),
    i: int,
    k: int,
    at: u64,
    m: int,
    n: int,
)
    requires
        results.len() > 0,
        translated_by(l, reserved, results.drop_last(), x, i, k, at, m, n),
    ensures
        translated_by(l, reserved, results, x, i, k, at, m, n),
{
    reveal(call_at);
    let front = results.drop_last();
    assert forall|j: int| 0 <= j < front.len() implies #[trigger] call_at(l, reserved, front, j)
        == call_at(l, reserved, results, j) by {
        assert(front.take(j) =~= results.take(j));
    }
    let (a, b, c) = choose|a: int, b: int, c: int|
        c < m && #[trigger] stage_mapped_by(l, reserved, front, at, a, b, c);
    assert(call_at(l, reserved, front, a) == call_at(l, reserved, results, a));
    assert(call_at(l, reserved, front, b) == call_at(l, reserved, results, b));
    assert(call_at(l, reserved, front, c) == call_at(l, reserved, results, c));
    assert(stage_mapped_by(l, reserved, results, at, a, b, c));
    assert(call_at(l, reserved, front, m) == call_at(l, reserved, results, m));
    assert(call_at(l, reserved, front, n) == call_at(l, reserved, results, n));
}

/// One more allocation was tried.
proof fn lemma_tried_next(
    l: LayoutModel,
    reserved: Seq<(u64, u64)>,
    results: Seq<Option<u64>>,
    t: Seq<(u64, u64, u64)>,
    i: int,
)
    requires
        all_tried(l, reserved, results, t, i),
        tried(l, reserved, results, t, i),
    ensures
        all_tried(l, reserved, results, t, i + 1),
{
    assert forall|x: int, k: int|
        0 <= x < i + 1 && #[trigger] region_holds(l, k, l.allocs[x].0) implies tried(
        l,
        reserved,
        results,
        t,
        x,
    ) by {
        if x < i {
            assert(region_holds(l, k, l.allocs[x].0));
        }
    }
}

/// What was tried is still tried with one more translation.
proof fn lemma_tried_push(
    l: LayoutModel,
    reserved: Seq<(u64, u64)>,
    results: Seq<Option<u64>>,
    t: Seq<(u64, u64, u64)>,
    one: (u64, u64, u64),
    n: int,
)
    requires
        all_tried(l, reserved, results, t, n),
    ensures
        all_tried(l, reserved, results, t.push(one), n),
{
    let more = t.push(one);
    assert forall|x: int, k: int|
        0 <= x < n && #[trigger] region_holds(l, k, l.allocs[x].0) implies tried(
        l,
        reserved,
        results,
        more,
        x,
    ) by {
        assert(tried(l, reserved, results, t, x));
        let y = choose|y: int|
            {
                &&& 0 <= y < results.len()
                &&& #[trigger] call_at(l, reserved, results, y) == Some(
                    DriverCall::Allocate { size: l.allocs[x].1 },
                )
                &&& results[y] matches Some(o) ==> t.contains((l.allocs[x].0, l.allocs[x].1, o))
            };
        if results[y] is Some {
            lemma_push_members(t, one, (l.allocs[x].0, l.allocs[x].1, results[y]->Some_0));
        }
        assert(call_at(l, reserved, results, y) == Some(
            DriverCall::Allocate { size: l.allocs[x].1 },
        ));
    }
}

proof fn lemma_copies_push(
    l: LayoutModel,
    reserved: Seq<(u64, u64)>,
    results: Seq<Option<u64>>,
    t: Seq<(u64, u64, u64)>,
    one: (u64, u64, u64),
    w: int,
)
    requires
        all_copies(l, reserved, results, t, w),
        is_copy(l, reserved, results, one, w),
    ensures
        all_copies(l, reserved, results, t.push(one), w),
{
    let more = t.push(one);
    assert forall|j: int| 0 <= j < more.len() implies is_copy(
        l,
        reserved,
        results,
        #[trigger] more[j],
        w,
    ) by {
        if j < t.len() {
            assert(more[j] == t[j]);
        }
    }
}

/// A staging area that was mapped stays mapped.
proof fn lemma_mapped_longer(
    l: LayoutModel,
    reserved: Seq<(u64, u64)>,
    results: Seq<Option<u64>>,
    at: u64,
    n: int,
)
    requires
        results.len() > 0,
        stage_mapped(l, reserved, results.drop_last(), at, n),
    ensures
        stage_mapped(l, reserved, results, at, n),
{
    reveal(call_at);
    let front = results.drop_last();
    let (a, b, c) = choose|a: int, b: int, c: int|
        c < n && #[trigger] stage_mapped_by(l, reserved, front, at, a, b, c);
    assert(front.take(a) =~= results.take(a));
    assert(front.take(b) =~= results.take(b));
    assert(front.take(c) =~= results.take(c));
    assert(stage_mapped_by(l, reserved, results, at, a, b, c));
}

proof fn lemma_alloc_step(
    l: LayoutModel,
    reserved: Seq<(u64, u64)>,
    results: Seq<Option<u64>>,
    at: u64,
    i: int,
    t: Seq<(u64, u64, u64)>,
)
    requires
        results.len() > 0,
        in_a_region(l, i),
        call_at(l, reserved, results, results.len() - 1) == Some(
            DriverCall::Allocate { size: l.allocs[i].1 },
        ),
        stage_mapped(l, reserved, results.drop_last(), at, results.len() - 1),
        copied_to(l, reserved, results, t, at, i),
    ensures
        results.last() matches Some(own) ==> allocated(l, reserved, results, at, i, own),
        results.last() is None ==> copied_to(l, reserved, results, t, at, i + 1),
{
    let n = results.len() - 1;
    assert(results[n] == results.last());
    match results.last() {
        Some(own) => {
            lemma_mapped_longer(l, reserved, results, at, n);
            assert(copy_allocated(l, reserved, results, at, i, own, n));
        },
        None => {
            assert(tried(l, reserved, results, t, i));
            lemma_tried_next(l, reserved, results, t, i);
        },
    }
}

#[verifier::rlimit(40)]
proof fn lemma_fill_step(
    l: LayoutModel,
    reserved: Seq<(u64, u64)>,
    results: Seq<Option<u64>>,
    at: u64,
    i: int,
    own: u64,
    t: Seq<(u64, u64, u64)>,
)
    requires
        results.len() > 0,
        0 <= i,
        in_a_region(l, i),
        call_at(l, reserved, results, results.len() - 1) == Some(
            DriverCall::Copy {
                to: own,
                from: staged_address(l, at, i) as u64,
                size: l.allocs[i].1,
            },
        ),
        allocated(l, reserved, results.drop_last(), at, i, own),
        copied_to(l, reserved, results, t, at, i),
    ensures
        copied_to(
            l,
            reserved,
            results,
            t.push((l.allocs[i].0, l.allocs[i].1, own)),
            at,
            i + 1,
        ),
{
    reveal(call_at);
    let front = results.drop_last();
    let n = results.len() - 1;
    let d = l.allocs[i].0;
    let one = (d, l.allocs[i].1, own);
    let more = t.push(one);
    let now = results.len() as int;
    assert(results[n] == results.last());
    lemma_region_holds(l, d, 0);
    let region = first_region(l.regions, d, 0)->Some_0;
    let k = choose|k: int| #[trigger] region_holds(l, k, d) && l.regions[k] == region;
    let m = choose|m: int| copy_allocated(l, reserved, front, at, i, own, m);
    lemma_mapped_longer(l, reserved, results, at, m);
    assert(front.take(m) =~= results.take(m));
    assert(call_at(l, reserved, results, m) == call_at(l, reserved, front, m));
    assert(at + l.regions[k].2 + l.regions[k].1 <= u64::MAX);
    assert(staged_address(l, at, i) == at + l.regions[k].2 + (d - l.regions[k].0));
    assert(translated_by(l, reserved, results, one, i, k, at, m, n));
    assert(is_copy(l, reserved, results, one, now));
    lemma_copies_push(l, reserved, results, t, one, now);
    lemma_tried_push(l, reserved, results, t, one, i);
    lemma_push_members(t, one, one);
    assert(results[m] == Some(own));
    assert(tried(l, reserved, results, more, i));
    lemma_tried_next(l, reserved, results, more, i);
}

// ---------------------------------------------------------------------------
// At their own addresses
// ---------------------------------------------------------------------------

/// Allocations that kept their addresses stand for themselves, all of them, in their
/// order.
pub proof fn law_kept_addresses_stand_for_themselves(
    l: LayoutModel,
    reserved: Seq<(u64, u64)>,
    results: Seq<Option<u64>>,
)
    requires
        ordinary_run(l, reserved, results) is InPlace,
    ensures
        ({
            let t = ordinary_translations(l, reserved, results);
            &&& t.len() == l.allocs.len()
            &&& forall|i: int|
                0 <= i < t.len() ==> (#[trigger] t[i]).0 == l.allocs[i].0 && t[i].1
                    == l.allocs[i].1 && t[i].2 == l.allocs[i].0
        }),
    decreases results.len(),
{
    let front = results.drop_last();
    if results.len() > 0 {
        match ordinary_run(l, reserved, front) {
            OrdinaryStep::InPlace => {
                law_kept_addresses_stand_for_themselves(l, reserved, front);
            },
            OrdinaryStep::AccessCopies { source, at } => {
                lemma_next_copy(l, source, at, 0);
            },
            OrdinaryStep::AllocCopy { source, at, i } => {
                lemma_next_copy(l, source, at, i + 1);
            },
            OrdinaryStep::FillCopy { source, at, i, own } => {
                lemma_next_copy(l, source, at, i + 1);
            },
            _ => {},
        }
    }
}

/// What holds at each step of a run that copies regions to their own addresses.
spec fn stage_holds(
    l: LayoutModel,
    reserved: Seq<(u64, u64)>,
    results: Seq<Option<u64>>,
    step: OrdinaryStep,
) -> bool {
    match step {
        OrdinaryStep::CreateRegion { i } => content_given(l),
        OrdinaryStep::MapRegion { i, own } => content_given(l),
        OrdinaryStep::AccessRegion { i, own } => content_given(l),
        OrdinaryStep::ReleaseRegion { i, own } => content_given(l),
        OrdinaryStep::ImportStage => l.stage is Some,
        OrdinaryStep::ReserveStage { source } => imported(l, reserved, results, source),
        OrdinaryStep::MapStage { source, at } => placed(l, reserved, results, source, at),
        OrdinaryStep::AccessStage { source, at } => stage_ready(l, reserved, results, at),
        OrdinaryStep::CopyRegion { source, at, i } => stage_ready(l, reserved, results, at),
        _ => true,
    }
}

proof fn lemma_stage_longer(
    l: LayoutModel,
    reserved: Seq<(u64, u64)>,
    results: Seq<Option<u64>>,
    at: u64,
)
    requires
        results.len() > 0,
        stage_ready(l, reserved, results.drop_last(), at),
    ensures
        stage_ready(l, reserved, results, at),
{
    let n = results.len() - 1;
    lemma_mapped_longer(l, reserved, results, at, n);
    lemma_mapped_later(l, reserved, results, at, n);
}

proof fn lemma_stage_holds(
    l: LayoutModel,
    reserved: Seq<(u64, u64)>,
    results: Seq<Option<u64>>,
)
    requires
        l.allocs.len() <= usize::MAX,
        reservations_fit(l, reserved, results),
    ensures
        stage_holds(l, reserved, results, ordinary_run(l, reserved, results)),
    decreases results.len(),
{
    reveal(call_at);
    if results.len() > 0 {
        let front = results.drop_last();
        let n = results.len() - 1;
        let step = ordinary_run(l, reserved, front);
        assert(results.take(n) =~= front);
        assert forall|j: int| 0 <= j < front.len() implies #[trigger] call_at(
            l,
            reserved,
            front,
            j,
        ) == call_at(l, reserved, results, j) by {
            assert(front.take(j) =~= results.take(j));
        }
        assert(reservations_fit(l, reserved, front));
        lemma_stage_holds(l, reserved, front);
        match step {
            OrdinaryStep::ImportStage => {
                lemma_import_step(l, reserved, results);
            },
            OrdinaryStep::ReserveStage { source } => {
                lemma_reserve_step(l, reserved, results, source);
            },
            OrdinaryStep::MapStage { source, at } => {
                lemma_map_step(l, reserved, results, source, at);
            },
            OrdinaryStep::AccessStage { source, at } => {
                lemma_stage_longer(l, reserved, results, at);
            },
            OrdinaryStep::CopyRegion { source, at, i } => {
                lemma_stage_longer(l, reserved, results, at);
            },
            OrdinaryStep::AccessCopies { source, at } => {
                lemma_next_copy(l, source, at, 0);
            },
            OrdinaryStep::AllocCopy { source, at, i } => {
                lemma_next_copy(l, source, at, i + 1);
            },
            OrdinaryStep::FillCopy { source, at, i, own } => {
                lemma_next_copy(l, source, at, i + 1);
            },
            _ => {},
        }
    }
}

proof fn lemma_next_copy(l: LayoutModel, source: u64, at: u64, i: int)
    requires
        0 <= i,
    ensures
        copy_from(l, source, at, i) is AllocCopy || copy_from(l, source, at, i) is WaitForCopies,
    decreases l.allocs.len() - i,
{
    if i < l.allocs.len() && first_region(l.regions, l.allocs[i].0, 0) is None {
        lemma_next_copy(l, source, at, i + 1);
    }
}

/// A copy from the staging area, of a region or of an allocation, reads where the area is
/// mapped: a region at its offset, an allocation as far behind its region's offset as it
/// lies in the region.
pub proof fn law_copies_read_the_staging_area(
    l: LayoutModel,
    reserved: Seq<(u64, u64)>,
    results: Seq<Option<u64>>,
    to: u64,
    from: u64,
    size: u64,
)
    requires
        l.allocs.len() <= usize::MAX,
        l.regions.len() <= usize::MAX,
        reservations_fit(l, reserved, results),
        ordinary_call(l, ordinary_run(l, reserved, results)) == Some(
            DriverCall::Copy { to, from, size },
        ),
    ensures
        exists|at: u64|
            {
                &&& #[trigger] stage_mapped(l, reserved, results, at, results.len() as int)
                &&& (exists|k: int|
                    0 <= k < l.regions.len() && to == (#[trigger] l.regions[k]).0 && size
                        == l.regions[k].1 && from == at + l.regions[k].2) || (exists|i: int, k: int|
                    0 <= i < l.allocs.len() && size == l.allocs[i].1 && #[trigger] region_holds(
                        l,
                        k,
                        l.allocs[i].0,
                    ) && from == at + l.regions[k].2 + (l.allocs[i].0 - l.regions[k].0))
            },
{
    lemma_stage_holds(l, reserved, results);
    lemma_copies(l, reserved, results);
    lemma_in_bounds(l, reserved, results);
    match ordinary_run(l, reserved, results) {
        OrdinaryStep::CopyRegion { source, at, i } => {
            assert(stage_mapped(l, reserved, results, at, results.len() as int));
            let r = l.regions[i as int];
            assert(at + r.2 + r.1 <= u64::MAX);
            assert(to == l.regions[i as int].0);
        },
        OrdinaryStep::FillCopy { source, at, i, own } => {
            assert(stage_mapped(l, reserved, results, at, results.len() as int));
            let d = l.allocs[i as int].0;
            lemma_region_holds(l, d, 0);
            let region = first_region(l.regions, d, 0)->Some_0;
            let k = choose|k: int| #[trigger] region_holds(l, k, d) && l.regions[k] == region;
            assert(at + l.regions[k].2 + l.regions[k].1 <= u64::MAX);
            assert(region_holds(l, k, l.allocs[i as int].0));
        },
        _ => {},
    }
}

proof fn lemma_in_bounds(l: LayoutModel, reserved: Seq<(u64, u64)>, results: Seq<Option<u64>>)
    requires
        l.allocs.len() <= usize::MAX,
        l.regions.len() <= usize::MAX,
    ensures
        ordinary_run(l, reserved, results) matches OrdinaryStep::CopyRegion { source, at, i } ==> i
            < l.regions.len(),
    decreases results.len(),
{
    if results.len() > 0 {
        let front = results.drop_last();
        lemma_in_bounds(l, reserved, front);
        match ordinary_run(l, reserved, front) {
            OrdinaryStep::AccessCopies { source, at } => {
                lemma_next_copy(l, source, at, 0);
            },
            OrdinaryStep::AllocCopy { source, at, i } => {
                lemma_next_copy(l, source, at, i + 1);
            },
            OrdinaryStep::FillCopy { source, at, i, own } => {
                lemma_next_copy(l, source, at, i + 1);
            },
            _ => {},
        }
    }
}

} // verus!
