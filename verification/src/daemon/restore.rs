//! Rebuilding all of a golden's mapped ranges in a clone worker, one after the other.
use crate::daemon::layout::MapEntry;
use crate::daemon::memory::{
    DriverCall, MapStep, RestoreTally, advance_map, call_of_map, calls_left, first_map_step,
    map_call, next_map_step, start_map,
};
use crate::daemon::ordinary::OrdinaryRestore;
use vstd::prelude::*;

verus! {

/// The mathematical value of a [`RestoreTally`].
#[verifier::ext_equal]
pub struct TallyModel {
    pub count: int,
    pub handles: Seq<(u64, u64)>,
    pub shared: Seq<(u64, u64)>,
}

impl View for RestoreTally {
    type V = TallyModel;

    open spec fn view(&self) -> TallyModel {
        TallyModel { count: self.count as int, handles: self.handles@, shared: self.shared@ }
    }
}

/// Nothing restored yet.
pub open spec fn empty_tally() -> TallyModel {
    TallyModel { count: 0, handles: Seq::empty(), shared: Seq::empty() }
}

/// The tally with one more range: the golden's handle, if the range has one, now stands
/// for the worker's, whether the range is shared or private.
pub open spec fn noted(t: TallyModel, entry: MapEntry, done: MapStep) -> TallyModel {
    TallyModel {
        count: t.count + 1,
        shared: if done is Shared {
            t.shared.push((entry.va, entry.size))
        } else {
            t.shared
        },
        handles: match (entry.handle, done) {
            (Some(g), MapStep::Shared { kept: Some(h) }) => t.handles.push((g, h)),
            (Some(g), MapStep::Private { own }) => t.handles.push((g, own)),
            _ => t.handles,
        },
    }
}

/// Where the restoration of a layout's ranges stands.
#[derive(Debug)]
pub struct RangesRestore {
    /// The range that is being restored.
    pub i: usize,
    /// How far it has got; without meaning once all ranges are restored.
    pub step: MapStep,
    /// What the ranges before it came to.
    pub tally: RestoreTally,
}

/// The mathematical value of a [`RangesRestore`].
#[verifier::ext_equal]
pub struct RangesModel {
    pub i: int,
    pub step: MapStep,
    pub tally: TallyModel,
}

impl View for RangesRestore {
    type V = RangesModel;

    open spec fn view(&self) -> RangesModel {
        RangesModel { i: self.i as int, step: self.step, tally: self.tally@ }
    }
}

/// From range `i` on.
pub open spec fn range_from(
    maps: Seq<MapEntry>,
    share: bool,
    i: int,
    tally: TallyModel,
) -> RangesModel {
    RangesModel {
        i,
        step: if i < maps.len() {
            first_map_step(maps[i], share)
        } else {
            MapStep::Create
        },
        tally,
    }
}

/// What follows a call that gave `result`, or failed: a range that is restored is noted,
/// and the next one begins; one that cannot be restored ends it all.
pub open spec fn next_ranges(
    maps: Seq<MapEntry>,
    share: bool,
    r: RangesModel,
    result: Option<u64>,
) -> RangesModel {
    if r.i >= maps.len() {
        r
    } else {
        let step = next_map_step(maps[r.i], r.step, result);
        if step is Shared || step is Private {
            range_from(maps, share, r.i + 1, noted(r.tally, maps[r.i], step))
        } else {
            RangesModel { step, ..r }
        }
    }
}

/// What is reached after calls that gave `results`.
pub open spec fn ranges_run(
    maps: Seq<MapEntry>,
    share: bool,
    results: Seq<Option<u64>>,
) -> RangesModel
    decreases results.len(),
{
    if results.len() == 0 {
        range_from(maps, share, 0, empty_tally())
    } else {
        next_ranges(maps, share, ranges_run(maps, share, results.drop_last()), results.last())
    }
}

/// The golden's handles that ranges name, in order.
pub open spec fn named_handles(maps: Seq<MapEntry>) -> Seq<u64>
    decreases maps.len(),
{
    if maps.len() == 0 {
        Seq::empty()
    } else {
        match maps.last().handle {
            Some(g) => named_handles(maps.drop_last()).push(g),
            None => named_handles(maps.drop_last()),
        }
    }
}

/// The golden's handles of a tally, in order.
pub open spec fn golden_handles(handles: Seq<(u64, u64)>) -> Seq<u64> {
    handles.map_values(|h: (u64, u64)| h.0)
}

/// The tally accounts for the ranges before the one being restored, and that one is
/// neither restored nor, with a handle to keep, about to give it back.
pub open spec fn accounted(maps: Seq<MapEntry>, r: RangesModel) -> bool {
    &&& 0 <= r.i <= maps.len()
    &&& r.tally.count == r.i
    &&& golden_handles(r.tally.handles) == named_handles(maps.take(r.i))
    &&& !(r.step is Shared) && !(r.step is Private)
    &&& r.i < maps.len() && r.step is ShareForget ==> maps[r.i].handle is None
}

impl RangesRestore {
    /// The start of a restoration.
    pub fn start(maps: &[MapEntry], share: bool) -> (r: Self)
        ensures
            r@ == range_from(maps@, share, 0, empty_tally()),
            accounted(maps@, r@),
    {
        let tally = RestoreTally::new();
        let step = if maps.len() > 0 {
            start_map(&maps[0], share)
        } else {
            MapStep::Create
        };
        let r = RangesRestore { i: 0, step, tally };
        proof {
            assert(r@.tally =~= empty_tally());
            lemma_accounted_start(maps@, share);
        }
        r
    }

    /// The call that comes next; none once all ranges are restored, or one failed.
    pub fn call(&self, maps: &[MapEntry]) -> (r: Option<DriverCall>)
        requires
            accounted(maps@, self@),
        ensures
            r == if self.i < maps@.len() {
                map_call(maps@[self.i as int], self.step)
            } else {
                None
            },
    {
        if self.i < maps.len() {
            call_of_map(&maps[self.i], self.step)
        } else {
            None
        }
    }

    /// Takes what the call came to.
    pub fn advance(&mut self, maps: &[MapEntry], share: bool, result: Option<u64>)
        requires
            accounted(maps@, old(self)@),
        ensures
            final(self)@ == next_ranges(maps@, share, old(self)@, result),
            accounted(maps@, final(self)@),
    {
        let count: usize = maps.len();
        if self.i >= count {
            return ;
        }
        let ghost before = self@;
        let entry = &maps[self.i];
        let step = advance_map(entry, self.step, result);
        match step {
            MapStep::Shared { .. } | MapStep::Private { .. } => {
                self.tally.note(entry, step);
                self.i = self.i + 1;
                self.step =
                if self.i < count {
                    start_map(&maps[self.i], share)
                } else {
                    MapStep::Create
                };
                proof {
                    assert(self@.tally =~= noted(before.tally, maps@[before.i], step));
                }
            },
            _ => {
                self.step = step;
            },
        }
        proof { lemma_accounted(maps@, share, before, result); }
    }
}

/// How many ranges and ordinary allocations were restored.
pub fn restored_total(tally: &RestoreTally, ordinary: &OrdinaryRestore) -> (r: u128)
    ensures
        r == tally.count + ordinary.translations@.len(),
{
    tally.count as u128 + ordinary.translations.len() as u128
}

proof fn lemma_accounted_start(maps: Seq<MapEntry>, share: bool)
    ensures
        accounted(maps, range_from(maps, share, 0, empty_tally())),
{
    assert(maps.take(0) =~= Seq::empty());
    assert(golden_handles(Seq::empty()) =~= Seq::empty());
}

proof fn lemma_accounted(
    maps: Seq<MapEntry>,
    share: bool,
    r: RangesModel,
    result: Option<u64>,
)
    requires
        accounted(maps, r),
    ensures
        accounted(maps, next_ranges(maps, share, r, result)),
{
    if r.i < maps.len() {
        let step = next_map_step(maps[r.i], r.step, result);
        if step is Shared || step is Private {
            let after = noted(r.tally, maps[r.i], step);
            assert(maps.take(r.i + 1).drop_last() =~= maps.take(r.i));
            assert(maps.take(r.i + 1).last() == maps[r.i]);
            assert(golden_handles(after.handles) =~= named_handles(maps.take(r.i + 1)));
        }
    }
}

/// However the calls come out, as many ranges are counted as are restored, and once all
/// are, the handles that stand for others are exactly those that the ranges name, in
/// order.
pub proof fn law_every_range_is_counted(
    maps: Seq<MapEntry>,
    share: bool,
    results: Seq<Option<u64>>,
)
    ensures
        ({
            let r = ranges_run(maps, share, results);
            &&& 0 <= r.i <= maps.len()
            &&& r.tally.count == r.i
            &&& golden_handles(r.tally.handles) == named_handles(maps.take(r.i))
            &&& r.i == maps.len() ==> r.tally.count == maps.len() && golden_handles(
                r.tally.handles,
            ) == named_handles(maps)
        }),
{
    lemma_run_accounted(maps, share, results);
    assert(maps.take(maps.len() as int) =~= maps);
}

proof fn lemma_run_accounted(maps: Seq<MapEntry>, share: bool, results: Seq<Option<u64>>)
    ensures
        accounted(maps, ranges_run(maps, share, results)),
    decreases results.len(),
{
    if results.len() == 0 {
        lemma_accounted_start(maps, share);
    } else {
        let front = results.drop_last();
        lemma_run_accounted(maps, share, front);
        lemma_accounted(maps, share, ranges_run(maps, share, front), results.last());
    }
}

/// Every shared range is one of the layout's that may be shared, and none is where
/// sharing is not wanted.
pub proof fn law_only_frozen_ranges_are_shared(
    maps: Seq<MapEntry>,
    share: bool,
    results: Seq<Option<u64>>,
    range: (u64, u64),
)
    requires
        ranges_run(maps, share, results).tally.shared.contains(range),
    ensures
        share,
        exists|k: int|
            0 <= k < maps.len() && (#[trigger] maps[k]).loaded && range == (
                maps[k].va,
                maps[k].size,
            ),
{
    lemma_shared(maps, share, results);
    let shared = ranges_run(maps, share, results).tally.shared;
    let n = choose|n: int| 0 <= n < shared.len() && shared[n] == range;
    assert(frozen(maps, shared[n]));
}

/// A range of the layout that may be shared.
spec fn frozen(maps: Seq<MapEntry>, range: (u64, u64)) -> bool {
    exists|k: int|
        0 <= k < maps.len() && (#[trigger] maps[k]).loaded && range == (maps[k].va, maps[k].size)
}

/// The step is on the way to sharing a range.
spec fn sharing_step(step: MapStep) -> bool {
    step is ShareImport || step is ShareMap || step is ShareProtect || step is ShareUnmap
        || step is ShareDrop || step is ShareForget || step is Shared
}

proof fn lemma_shared(maps: Seq<MapEntry>, share: bool, results: Seq<Option<u64>>)
    ensures
        ({
            let r = ranges_run(maps, share, results);
            &&& r.i < maps.len() && sharing_step(r.step) ==> share && maps[r.i].loaded
            &&& r.tally.shared.len() > 0 ==> share
            &&& forall|n: int|
                0 <= n < r.tally.shared.len() ==> frozen(maps, #[trigger] r.tally.shared[n])
        }),
    decreases results.len(),
{
    if results.len() > 0 {
        let front = results.drop_last();
        lemma_shared(maps, share, front);
        lemma_run_accounted(maps, share, front);
        let before = ranges_run(maps, share, front);
        let r = ranges_run(maps, share, results);
        if before.i < maps.len() {
            let step = next_map_step(maps[before.i], before.step, results.last());
            if step is Shared {
                assert(maps[before.i].loaded);
                assert(frozen(maps, (maps[before.i].va, maps[before.i].size)));
            }
            assert forall|n: int| 0 <= n < r.tally.shared.len() implies frozen(
                maps,
                #[trigger] r.tally.shared[n],
            ) by {
                if n < before.tally.shared.len() {
                    assert(r.tally.shared[n] == before.tally.shared[n]);
                }
            }
        }
    }
}

/// Restoring all ranges ends after at most seventeen calls for each.
pub proof fn law_restoring_ranges_ends(
    maps: Seq<MapEntry>,
    share: bool,
    results: Seq<Option<u64>>,
)
    requires
        results.len() >= 17 * maps.len(),
    ensures
        ({
            let r = ranges_run(maps, share, results);
            r.i == maps.len() || map_call(maps[r.i], r.step) is None
        }),
{
    lemma_run_accounted(maps, share, results);
    lemma_ranges_progress(maps, share, results);
}

proof fn lemma_ranges_progress(maps: Seq<MapEntry>, share: bool, results: Seq<Option<u64>>)
    ensures
        ({
            let r = ranges_run(maps, share, results);
            let left = calls_left(r.step);
            r.i < maps.len() ==> left == 0 || results.len() + left + 17 * (maps.len() - r.i - 1)
                <= 17 * maps.len()
        }),
    decreases results.len(),
{
    if results.len() > 0 {
        lemma_ranges_progress(maps, share, results.drop_last());
        lemma_run_accounted(maps, share, results.drop_last());
    }
}

} // verus!
