//! What restoring a range leaves behind, and how addresses are reserved.
use crate::daemon::descriptors::{SourcesModel, optional_move};
use crate::daemon::layout::{LayoutModel, MapEntry, is_reserved};
use crate::daemon::memory::{
    DriverCall, MapStep, OrdinaryPlan, first_granularity, made_call, map_call, map_run,
    next_map_step, ordinary_plan_of, power_from, regions_total, unreserved_in,
};
use crate::daemon::worker_env_laws::{lemma_sum_empty, lemma_sum_push, sum_of};
use crate::filtering::lemma_filter_members;
use vstd::prelude::*;

verus! {

// ---------------------------------------------------------------------------
// Shared ranges
// ---------------------------------------------------------------------------

/// The `i`th call of a run was this one, and succeeded.
#[verifier::opaque]
pub open spec fn made(
    entry: MapEntry,
    share: bool,
    results: Seq<Option<u64>>,
    i: int,
    call: DriverCall,
) -> bool {
    made_call(entry, share, results, i, call)
}

/// Call `s` imported the golden's memory as `shared`, `m` mapped it at the range's own
/// address, and `p` made it read only.
pub open spec fn shared_by(
    entry: MapEntry,
    share: bool,
    results: Seq<Option<u64>>,
    shared: u64,
    s: int,
    m: int,
    p: int,
) -> bool {
    let (va, size) = (entry.va, entry.size);
    &&& s < m < p
    &&& made(entry, share, results, s, DriverCall::Import { index: entry.index })
    &&& results[s] == Some(shared)
    &&& made(entry, share, results, m, DriverCall::MapAt { va, size, handle: shared })
    &&& made(entry, share, results, p, DriverCall::AccessReadOnly { va, size })
}

spec fn share_imported(
    entry: MapEntry,
    share: bool,
    results: Seq<Option<u64>>,
    shared: u64,
    s: int,
) -> bool {
    made(entry, share, results, s, DriverCall::Import { index: entry.index }) && results[s]
        == Some(shared)
}

spec fn share_mapped(
    entry: MapEntry,
    share: bool,
    results: Seq<Option<u64>>,
    shared: u64,
    s: int,
    m: int,
) -> bool {
    &&& s < m
    &&& share_imported(entry, share, results, shared, s)
    &&& made(
        entry,
        share,
        results,
        m,
        DriverCall::MapAt { va: entry.va, size: entry.size, handle: shared },
    )
}

spec fn is_imported(
    entry: MapEntry,
    share: bool,
    results: Seq<Option<u64>>,
    shared: u64,
) -> bool {
    exists|s: int| share_imported(entry, share, results, shared, s)
}

spec fn is_mapped(
    entry: MapEntry,
    share: bool,
    results: Seq<Option<u64>>,
    shared: u64,
) -> bool {
    exists|s: int, m: int| share_mapped(entry, share, results, shared, s, m)
}

/// The golden's memory is mapped at the range's own address as `shared`, read only.
pub open spec fn is_shared(
    entry: MapEntry,
    share: bool,
    results: Seq<Option<u64>>,
    shared: u64,
) -> bool {
    exists|s: int, m: int, p: int| shared_by(entry, share, results, shared, s, m, p)
}

/// The golden's memory is mapped at the range's own address, read only; its handle is
/// `kept`, if one is.
pub open spec fn is_shared_as(
    entry: MapEntry,
    share: bool,
    results: Seq<Option<u64>>,
    kept: Option<u64>,
) -> bool {
    exists|shared: u64|
        (kept is Some ==> kept == Some(shared)) && #[trigger] is_shared(
            entry,
            share,
            results,
            shared,
        )
}

spec fn share_holds(
    entry: MapEntry,
    share: bool,
    results: Seq<Option<u64>>,
    step: MapStep,
) -> bool {
    match step {
        MapStep::ShareMap { shared } => is_imported(entry, share, results, shared),
        MapStep::ShareProtect { shared } => is_mapped(entry, share, results, shared),
        MapStep::ShareForget { shared } => entry.handle is None && is_shared(
            entry,
            share,
            results,
            shared,
        ),
        MapStep::Shared { kept } => (kept is Some <==> entry.handle is Some) && is_shared_as(
            entry,
            share,
            results,
            kept,
        ),
        _ => true,
    }
}

proof fn lemma_made_longer(entry: MapEntry, share: bool, results: Seq<Option<u64>>)
    requires
        results.len() > 0,
    ensures
        forall|i: int, call: DriverCall|
            made(entry, share, results.drop_last(), i, call) ==> #[trigger] made(
                entry,
                share,
                results,
                i,
                call,
            ),
{
    reveal(made);
    let front = results.drop_last();
    assert forall|i: int, call: DriverCall|
        made(entry, share, front, i, call) implies #[trigger] made(
        entry,
        share,
        results,
        i,
        call,
    ) by {
        assert(front.take(i) =~= results.take(i));
    }
}

/// The last call of a run.
proof fn lemma_made_last(
    entry: MapEntry,
    share: bool,
    results: Seq<Option<u64>>,
    call: DriverCall,
)
    requires
        results.len() > 0,
        results.last() is Some,
        map_call(entry, map_run(entry, share, results.drop_last())) == Some(call),
    ensures
        made(entry, share, results, results.len() - 1, call),
{
    reveal(made);
    assert(results.take(results.len() - 1) =~= results.drop_last());
}

/// A call that was made is one of the run.
proof fn lemma_made_within(entry: MapEntry, share: bool, results: Seq<Option<u64>>)
    ensures
        forall|i: int, call: DriverCall| #[trigger]
            made(entry, share, results, i, call) ==> 0 <= i < results.len(),
{
    reveal(made);
}

proof fn lemma_share(entry: MapEntry, share: bool, results: Seq<Option<u64>>)
    ensures
        share_holds(entry, share, results, map_run(entry, share, results)),
    decreases results.len(),
{
    if results.len() > 0 {
        let front = results.drop_last();
        let n = results.len() - 1;
        let step = map_run(entry, share, front);
        lemma_share(entry, share, front);
        lemma_made_longer(entry, share, results);
        lemma_made_within(entry, share, front);
        if results.last() is Some && map_call(entry, step) is Some {
            lemma_made_last(entry, share, results, map_call(entry, step)->Some_0);
        }
        let next = map_run(entry, share, results);
        assert(next == next_map_step(entry, step, results.last()));
        assert(results[n] == results.last());
        match step {
            MapStep::ShareImport => {
                if results.last() is Some {
                    assert(share_imported(entry, share, results, results.last()->Some_0, n));
                }
                assert(share_holds(entry, share, results, next));
            },
            MapStep::ShareMap { shared } => {
                let s = choose|s: int| share_imported(entry, share, front, shared, s);
                if results.last() is Some {
                    assert(share_mapped(entry, share, results, shared, s, n));
                }
                assert(share_holds(entry, share, results, next));
            },
            MapStep::ShareProtect { shared } => {
                let (s, m) = choose|s: int, m: int|
                    share_mapped(entry, share, front, shared, s, m);
                if results.last() is Some {
                    assert(shared_by(entry, share, results, shared, s, m, n));
                    assert(is_shared(entry, share, results, shared));
                }
                assert(share_holds(entry, share, results, next));
            },
            MapStep::ShareForget { shared } => {
                let (s, m, p) = choose|s: int, m: int, p: int|
                    shared_by(entry, share, front, shared, s, m, p);
                assert(shared_by(entry, share, results, shared, s, m, p));
                assert(is_shared(entry, share, results, shared));
                assert(share_holds(entry, share, results, next));
            },
            MapStep::Shared { kept } => {
                let shared = choose|shared: u64|
                    (kept is Some ==> kept == Some(shared)) && #[trigger] is_shared(
                        entry,
                        share,
                        front,
                        shared,
                    );
                let (s, m, p) = choose|s: int, m: int, p: int|
                    shared_by(entry, share, front, shared, s, m, p);
                assert(shared_by(entry, share, results, shared, s, m, p));
                assert(is_shared(entry, share, results, shared));
                assert(share_holds(entry, share, results, next));
            },
            _ => {
                assert(share_holds(entry, share, results, next));
            },
        }
    }
}

/// A range that is shared is the golden's memory, mapped at its own address and made read
/// only after that. Its handle is kept exactly where the golden named one, and is then the
/// one that was mapped.
pub proof fn law_shared_range_is_the_goldens(
    entry: MapEntry,
    share: bool,
    results: Seq<Option<u64>>,
)
    requires
        map_run(entry, share, results) is Shared,
    ensures
        ({
            let kept = map_run(entry, share, results)->Shared_kept;
            &&& kept is Some <==> entry.handle is Some
            &&& is_shared_as(entry, share, results, kept)
        }),
{
    lemma_share(entry, share, results);
}

// ---------------------------------------------------------------------------
// Copied ranges
// ---------------------------------------------------------------------------

/// Call `s` imported the golden's memory as `source`, `b` reserved `at` for it, and `m`
/// mapped it there; `u` unmapped it, `f` gave the address back and `r` the memory.
pub open spec fn source_undone(
    entry: MapEntry,
    share: bool,
    results: Seq<Option<u64>>,
    source: u64,
    at: u64,
    s: int,
    b: int,
    m: int,
    u: int,
    f: int,
    r: int,
) -> bool {
    let size = entry.size;
    &&& source_held(entry, share, results, source, at, s, b, m)
    &&& m < u < f < r
    &&& made(entry, share, results, u, DriverCall::Unmap { va: at, size })
    &&& made(entry, share, results, f, DriverCall::Free { va: at, size })
    &&& made(entry, share, results, r, DriverCall::Release { handle: source })
}

/// Call `s` imported the golden's memory as `source`, `b` reserved `at` for it, and `m`
/// mapped it there.
pub open spec fn source_held(
    entry: MapEntry,
    share: bool,
    results: Seq<Option<u64>>,
    source: u64,
    at: u64,
    s: int,
    b: int,
    m: int,
) -> bool {
    let size = entry.size;
    &&& source_placed(entry, share, results, source, at, s, b)
    &&& b < m
    &&& made(entry, share, results, m, DriverCall::MapAt { va: at, size, handle: source })
}

/// Call `s` imported the golden's memory as `source`, and `b` reserved `at` for it.
pub open spec fn source_placed(
    entry: MapEntry,
    share: bool,
    results: Seq<Option<u64>>,
    source: u64,
    at: u64,
    s: int,
    b: int,
) -> bool {
    &&& s < b
    &&& made(entry, share, results, s, DriverCall::Import { index: entry.index })
    &&& results[s] == Some(source)
    &&& made(entry, share, results, b, DriverCall::Reserve { size: entry.size })
    &&& results[b] == Some(at)
}

spec fn unmapped(
    entry: MapEntry,
    share: bool,
    results: Seq<Option<u64>>,
    source: u64,
    at: u64,
    s: int,
    b: int,
    m: int,
    u: int,
) -> bool {
    &&& source_held(entry, share, results, source, at, s, b, m)
    &&& m < u
    &&& made(entry, share, results, u, DriverCall::Unmap { va: at, size: entry.size })
}

spec fn given_back(
    entry: MapEntry,
    share: bool,
    results: Seq<Option<u64>>,
    source: u64,
    at: u64,
    s: int,
    b: int,
    m: int,
    u: int,
    f: int,
) -> bool {
    &&& unmapped(entry, share, results, source, at, s, b, m, u)
    &&& u < f
    &&& made(entry, share, results, f, DriverCall::Free { va: at, size: entry.size })
}

spec fn is_placed(
    entry: MapEntry,
    share: bool,
    results: Seq<Option<u64>>,
    source: u64,
    at: u64,
) -> bool {
    exists|s: int, b: int| source_placed(entry, share, results, source, at, s, b)
}

spec fn is_held(
    entry: MapEntry,
    share: bool,
    results: Seq<Option<u64>>,
    source: u64,
    at: u64,
) -> bool {
    exists|s: int, b: int, m: int| source_held(entry, share, results, source, at, s, b, m)
}

spec fn is_unmapped(
    entry: MapEntry,
    share: bool,
    results: Seq<Option<u64>>,
    source: u64,
    at: u64,
) -> bool {
    exists|s: int, b: int, m: int, u: int|
        unmapped(entry, share, results, source, at, s, b, m, u)
}

spec fn is_given_back(
    entry: MapEntry,
    share: bool,
    results: Seq<Option<u64>>,
    source: u64,
) -> bool {
    exists|at: u64, s: int, b: int, m: int, u: int, f: int|
        given_back(entry, share, results, source, at, s, b, m, u, f)
}

/// The golden's memory was mapped beside the range for a while, and nothing of that is left.
pub open spec fn nothing_left(entry: MapEntry, share: bool, results: Seq<Option<u64>>) -> bool {
    exists|source: u64, at: u64, s: int, b: int, m: int, u: int, f: int, r: int|
        source_undone(entry, share, results, source, at, s, b, m, u, f, r)
}

spec fn source_holds(
    entry: MapEntry,
    share: bool,
    results: Seq<Option<u64>>,
    step: MapStep,
) -> bool {
    match step {
        MapStep::ImportSource { own } => entry.host_offset is None,
        MapStep::FillFromHost { own } => entry.host_offset is Some,
        MapStep::ReserveSource { own, source } => entry.host_offset is None && is_imported(
            entry,
            share,
            results,
            source,
        ),
        MapStep::MapSource { own, source, at } => entry.host_offset is None && is_placed(
            entry,
            share,
            results,
            source,
            at,
        ),
        MapStep::AccessSource { own, source, at } => entry.host_offset is None && is_held(
            entry,
            share,
            results,
            source,
            at,
        ),
        MapStep::CopySource { own, source, at } => entry.host_offset is None && is_held(
            entry,
            share,
            results,
            source,
            at,
        ),
        MapStep::WaitForCopy { own, source, at } => entry.host_offset is None && is_held(
            entry,
            share,
            results,
            source,
            at,
        ),
        MapStep::UnmapSource { own, source, at } => entry.host_offset is None && is_held(
            entry,
            share,
            results,
            source,
            at,
        ),
        MapStep::FreeSource { own, source, at } => entry.host_offset is None && is_unmapped(
            entry,
            share,
            results,
            source,
            at,
        ),
        MapStep::ReleaseSource { own, source } => entry.host_offset is None && is_given_back(
            entry,
            share,
            results,
            source,
        ),
        MapStep::Private { own } => entry.host_offset is Some || nothing_left(
            entry,
            share,
            results,
        ),
        _ => true,
    }
}

proof fn lemma_source_longer(
    entry: MapEntry,
    share: bool,
    results: Seq<Option<u64>>,
    step: MapStep,
)
    requires
        results.len() > 0,
        source_holds(entry, share, results.drop_last(), step),
    ensures
        source_holds(entry, share, results, step),
{
    let front = results.drop_last();
    lemma_made_longer(entry, share, results);
    lemma_made_within(entry, share, front);
    match step {
        MapStep::ReserveSource { own, source } => {
            let s = choose|s: int| share_imported(entry, share, front, source, s);
            assert(share_imported(entry, share, results, source, s));
        },
        MapStep::MapSource { own, source, at } => {
            let (s, b) = choose|s: int, b: int|
                source_placed(entry, share, front, source, at, s, b);
            assert(source_placed(entry, share, results, source, at, s, b));
        },
        MapStep::AccessSource { own, source, at } => {
            lemma_held_longer(entry, share, results, source, at);
        },
        MapStep::CopySource { own, source, at } => {
            lemma_held_longer(entry, share, results, source, at);
        },
        MapStep::WaitForCopy { own, source, at } => {
            lemma_held_longer(entry, share, results, source, at);
        },
        MapStep::UnmapSource { own, source, at } => {
            lemma_held_longer(entry, share, results, source, at);
        },
        MapStep::FreeSource { own, source, at } => {
            let (s, b, m, u) = choose|s: int, b: int, m: int, u: int|
                unmapped(entry, share, front, source, at, s, b, m, u);
            assert(unmapped(entry, share, results, source, at, s, b, m, u));
        },
        MapStep::ReleaseSource { own, source } => {
            let (at, s, b, m, u, f) = choose|at: u64, s: int, b: int, m: int, u: int, f: int|
                given_back(entry, share, front, source, at, s, b, m, u, f);
            assert(given_back(entry, share, results, source, at, s, b, m, u, f));
        },
        MapStep::Private { own } => {
            if entry.host_offset is None {
                let (source, at, s, b, m, u, f, r) = choose|
                    source: u64,
                    at: u64,
                    s: int,
                    b: int,
                    m: int,
                    u: int,
                    f: int,
                    r: int,
                |
                    source_undone(entry, share, front, source, at, s, b, m, u, f, r);
                assert(source_undone(entry, share, results, source, at, s, b, m, u, f, r));
            }
        },
        _ => {},
    }
}

proof fn lemma_held_longer(
    entry: MapEntry,
    share: bool,
    results: Seq<Option<u64>>,
    source: u64,
    at: u64,
)
    requires
        results.len() > 0,
        is_held(entry, share, results.drop_last(), source, at),
    ensures
        is_held(entry, share, results, source, at),
{
    let front = results.drop_last();
    lemma_made_longer(entry, share, results);
    lemma_made_within(entry, share, front);
    let (s, b, m) = choose|s: int, b: int, m: int|
        source_held(entry, share, front, source, at, s, b, m);
    assert(source_held(entry, share, results, source, at, s, b, m));
}

proof fn lemma_source(entry: MapEntry, share: bool, results: Seq<Option<u64>>)
    ensures
        source_holds(entry, share, results, map_run(entry, share, results)),
    decreases results.len(),
{
    if results.len() > 0 {
        let front = results.drop_last();
        let n = results.len() - 1;
        let step = map_run(entry, share, front);
        lemma_source(entry, share, front);
        lemma_source_longer(entry, share, results, step);
        lemma_made_longer(entry, share, results);
        lemma_made_within(entry, share, front);
        if results.last() is Some && map_call(entry, step) is Some {
            lemma_made_last(entry, share, results, map_call(entry, step)->Some_0);
        }
        let next = map_run(entry, share, results);
        assert(next == next_map_step(entry, step, results.last()));
        assert(results[n] == results.last());
        if results.last() is Some {
            match step {
                MapStep::ImportSource { own } => {
                    assert(share_imported(entry, share, results, results.last()->Some_0, n));
                    assert(source_holds(entry, share, results, next));
                },
                MapStep::ReserveSource { own, source } => {
                    let s = choose|s: int| share_imported(entry, share, front, source, s);
                    assert(source_placed(
                        entry,
                        share,
                        results,
                        source,
                        results.last()->Some_0,
                        s,
                        n,
                    ));
                    assert(source_holds(entry, share, results, next));
                },
                MapStep::MapSource { own, source, at } => {
                    let (s, b) = choose|s: int, b: int|
                        source_placed(entry, share, front, source, at, s, b);
                    assert(source_held(entry, share, results, source, at, s, b, n));
                    assert(source_holds(entry, share, results, next));
                },
                MapStep::UnmapSource { own, source, at } => {
                    let (s, b, m) = choose|s: int, b: int, m: int|
                        source_held(entry, share, front, source, at, s, b, m);
                    assert(unmapped(entry, share, results, source, at, s, b, m, n));
                    assert(source_holds(entry, share, results, next));
                },
                MapStep::FreeSource { own, source, at } => {
                    let (s, b, m, u) = choose|s: int, b: int, m: int, u: int|
                        unmapped(entry, share, front, source, at, s, b, m, u);
                    assert(given_back(entry, share, results, source, at, s, b, m, u, n));
                    assert(source_holds(entry, share, results, next));
                },
                MapStep::ReleaseSource { own, source } => {
                    let (at, s, b, m, u, f) = choose|
                        at: u64,
                        s: int,
                        b: int,
                        m: int,
                        u: int,
                        f: int,
                    |
                        given_back(entry, share, front, source, at, s, b, m, u, f);
                    assert(source_undone(
                        entry,
                        share,
                        results,
                        source,
                        at,
                        s,
                        b,
                        m,
                        u,
                        f,
                        n,
                    ));
                    assert(source_holds(entry, share, results, next));
                },
                _ => {
                    assert(source_holds(entry, share, results, next));
                },
            }
        } else {
            assert(source_holds(entry, share, results, next));
        }
    }
}

/// A range that was copied from the golden leaves nothing of the golden mapped: what was
/// imported for the copy was unmapped, and its address and the memory were given back.
pub proof fn law_copy_leaves_nothing_mapped(
    entry: MapEntry,
    share: bool,
    results: Seq<Option<u64>>,
)
    requires
        map_run(entry, share, results) is Private,
        entry.host_offset is None,
    ensures
        nothing_left(entry, share, results),
{
    lemma_source(entry, share, results);
}

/// What a failed attempt to share mapped or imported is undone before the range is made
/// private, and memory that cannot be mapped is given back.
pub proof fn law_failed_attempts_are_undone(entry: MapEntry, shared: u64, own: u64)
    ensures
        next_map_step(entry, MapStep::ShareImport, None) == MapStep::Create,
        next_map_step(entry, MapStep::ShareMap { shared }, None) == (MapStep::ShareDrop { shared }),
        next_map_step(entry, MapStep::ShareProtect { shared }, None) == (MapStep::ShareUnmap {
            shared,
        }),
        map_call(entry, MapStep::ShareUnmap { shared }) == Some(
            DriverCall::Unmap { va: entry.va, size: entry.size },
        ),
        map_call(entry, MapStep::ShareDrop { shared }) == Some(
            DriverCall::Release { handle: shared },
        ),
        forall|r: Option<u64>| #[trigger]
            next_map_step(entry, MapStep::ShareUnmap { shared }, r) == (MapStep::ShareDrop {
                shared,
            }),
        forall|r: Option<u64>| #[trigger]
            next_map_step(entry, MapStep::ShareDrop { shared }, r) == MapStep::Create,
        next_map_step(entry, MapStep::MapPrivate { own }, None) == (MapStep::Abandon { own }),
        map_call(entry, MapStep::Abandon { own }) == Some(DriverCall::Release { handle: own }),
        forall|r: Option<u64>| #[trigger]
            next_map_step(entry, MapStep::Abandon { own }, r) == MapStep::Failed,
{
}

// ---------------------------------------------------------------------------
// Reservations
// ---------------------------------------------------------------------------

/// The granule that reservations start with is a power of two, at least sixty-four
/// kibibytes and at least what the device reports, and the least such.
pub proof fn law_first_granule(reported: Option<u64>)
    requires
        reported matches Some(g) ==> g <= 0x8000_0000_0000_0000,
    ensures
        ({
            let want = match reported {
                Some(g) => g,
                None => 0x20_0000,
            };
            let r = first_granularity(reported);
            &&& r >= 0x1_0000 && r >= want
            &&& exists|k: nat| r as int == #[trigger] vstd::arithmetic::power2::pow2(k)
            &&& r > 0x1_0000 ==> r < 2 * want
        }),
{
    let want = match reported {
        Some(g) => g,
        None => 0x20_0000,
    };
    vstd::arithmetic::power2::lemma2_to64();
    assert(vstd::arithmetic::power2::pow2(16) == 0x1_0000);
    lemma_power_from(want, 0x1_0000, 16);
}

proof fn lemma_power_from(x: u64, p: u64, k: nat)
    requires
        x <= 0x8000_0000_0000_0000,
        p as int == vstd::arithmetic::power2::pow2(k),
        0 < p <= 0x8000_0000_0000_0000,
    ensures
        power_from(x, p) >= p,
        power_from(x, p) >= x,
        exists|j: nat| power_from(x, p) as int == #[trigger] vstd::arithmetic::power2::pow2(j),
        power_from(x, p) > p ==> power_from(x, p) < 2 * x,
    decreases 0x8000_0000_0000_0000 - p,
{
    if p < x {
        vstd::arithmetic::power2::lemma_pow2_unfold(k + 1);
        assert(vstd::arithmetic::power2::pow2(k + 1) == 2 * p);
        assert(p <= 0x4000_0000_0000_0000) by {
            if p > 0x4000_0000_0000_0000 {
                lemma_no_power_between(p, k);
            }
        }
        lemma_power_from(x, (2 * p) as u64, k + 1);
    } else {
        assert(power_from(x, p) as int == vstd::arithmetic::power2::pow2(k));
    }
}

proof fn lemma_no_power_between(p: u64, k: nat)
    requires
        p as int == vstd::arithmetic::power2::pow2(k),
        p > 0x4000_0000_0000_0000,
    ensures
        p >= 0x8000_0000_0000_0000,
{
    vstd::arithmetic::power2::lemma2_to64();
    vstd::arithmetic::power2::lemma2_to64_rest();
    if k <= 62 {
        if k < 62 {
            vstd::arithmetic::power2::lemma_pow2_strictly_increases(k, 62);
        }
    } else if k >= 63 {
        if k > 63 {
            vstd::arithmetic::power2::lemma_pow2_strictly_increases(63, k);
        }
    }
}

/// A range is reserved if one of the reservations holds all of it.
pub proof fn law_reserved_ranges(reserved: Seq<(u64, u64)>, ranges: Seq<(u64, u64)>, r: (u64, u64))
    ensures
        ranges.filter(unreserved_in(reserved)).contains(r) <==> ranges.contains(r)
            && !is_reserved(reserved, r.0, r.1),
        r.0 + r.1 <= u64::MAX && (forall|i: int|
            0 <= i < reserved.len() ==> (#[trigger] reserved[i]).0 + reserved[i].1 <= u64::MAX)
            ==> (is_reserved(reserved, r.0, r.1) <==> exists|i: int|
            0 <= i < reserved.len() && (#[trigger] reserved[i]).0 <= r.0 && r.0 + r.1
                <= reserved[i].0 + reserved[i].1),
{
    lemma_filter_members(ranges, unreserved_in(reserved), r);
}

/// Ordinary allocations are restored in place where every region of them is reserved, from
/// the host snapshot if there is one; where one is not, they are copied elsewhere out of the
/// staging area, and with a host snapshot refused.
pub proof fn law_plan_for_ordinary_allocations(l: LayoutModel, reserved: Seq<(u64, u64)>)
    ensures
        ({
            let plan = ordinary_plan_of(l, reserved);
            let placed = forall|i: int|
                0 <= i < l.regions.len() ==> is_reserved(
                    reserved,
                    (#[trigger] l.regions[i]).0,
                    l.regions[i].1,
                );
            &&& !l.regions_given ==> plan is Nothing
            &&& l.host is None && l.stage is None ==> plan is Nothing
            &&& l.regions_given && placed && l.host is Some ==> plan
                == OrdinaryPlan::InPlaceFromHost(l.host->Some_0)
            &&& l.regions_given && placed && l.host is None && l.stage is Some ==> plan
                == OrdinaryPlan::InPlaceFromStage(l.stage->Some_0)
            &&& l.regions_given && !placed && l.host is Some ==> plan is Refused
            &&& l.regions_given && !placed && l.host is None && l.stage is Some ==> plan
                == OrdinaryPlan::TranslatedFromStage(l.stage->Some_0)
        }),
{
}

/// The size of a staging area is that of its regions together.
pub proof fn law_size_of_a_staging_area(regions: Seq<(u64, u64, u64)>)
    ensures
        regions_total(regions) == sum_of(regions.map_values(|r: (u64, u64, u64)| r.1 as int)),
    decreases regions.len(),
{
    let all = regions.map_values(|r: (u64, u64, u64)| r.1 as int);
    if regions.len() == 0 {
        assert(all =~= Seq::empty());
        lemma_sum_empty();
    } else {
        let front = regions.drop_last();
        law_size_of_a_staging_area(front);
        let before = front.map_values(|r: (u64, u64, u64)| r.1 as int);
        assert(all =~= before.push(regions.last().1 as int));
        lemma_sum_push(before, regions.last().1 as int);
    }
}

// ---------------------------------------------------------------------------
// Descriptors
// ---------------------------------------------------------------------------

/// A worker finds its connection in the third descriptor, the memory from the fourth on in
/// its order, and then each channel that it has where its slots say.
pub proof fn law_descriptors_are_where_slots_say(s: SourcesModel, i: int)
    requires
        s.exports.len() <= 0x7fff_fff0,
    ensures
        ({
            let m = s.moves();
            let n = s.exports.len() as int;
            &&& m.len() >= n + 2
            &&& m[0] == (s.connection, 3i32)
            &&& 0 <= i < n ==> m[i + 1].0 == s.exports[i] && m[i + 1].1 == 4 + i
            &&& m[n + 1] == (s.control, s.slots().control)
            &&& s.publish is Some ==> m.contains((s.publish->Some_0, s.slots().publish->Some_0))
            &&& s.module is Some ==> m.contains((s.module->Some_0, s.slots().module->Some_0))
            &&& s.images is Some ==> m.contains((s.images->Some_0, s.slots().images->Some_0))
        }),
{
    let m = s.moves();
    let n = s.exports.len() as int;
    let slots = s.slots();
    let c = s.channel_moves();
    let head = seq![(s.connection, 3i32)];
    let memory = Seq::new(s.exports.len(), |i: int| (s.exports[i], (4 + i) as i32));
    assert(m =~= head + memory + c);
    let p = optional_move(s.publish, slots.publish);
    let q = optional_move(s.module, slots.module);
    let r = optional_move(s.images, slots.images);
    let one = seq![(s.control, slots.control)];
    assert(c == one + p + q + r);
    assert(m[n + 1] == c[0]);
    if 0 <= i < n {
        assert(m[i + 1] == memory[i]);
    }
    let base = n + 1;
    if s.publish is Some {
        assert(c[1] == p[0]);
        assert(m[base + 1] == c[1]);
    }
    if s.module is Some {
        let k = 1 + p.len() as int;
        assert(c[k] == q[0]);
        assert(m[base + k] == c[k]);
    }
    if s.images is Some {
        let k = 1 + p.len() as int + q.len() as int;
        assert(c[k] == r[0]);
        assert(m[base + k] == c[k]);
    }
}

} // verus!
