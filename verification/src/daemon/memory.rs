//! Rebuilding a golden's device memory in a clone worker.
//!
//! The driver is somebody else's: the rules here say which call comes next, and
//! take what the last call came to.
use crate::daemon::layout::{
    CloneLayout, LayoutModel, MapEntry, all_reserved, clone_layout_reservation_envelopes,
    envelopes_of, is_reserved, ordinary_regions_are_reserved, range_is_reserved,
};
use crate::daemon::restore::{empty_tally, noted};
use vstd::prelude::*;

verus! {

/// The first inherited descriptor that holds memory.
pub const FIRST_MEMORY_SLOT: i32 = 4;

/// Smallest granularity that is tried for reserving a layout.
pub const MIN_CLONE_RESERVATION_GRANULARITY: u64 = 0x1_0000;

/// Largest granularity that is tried for reserving a layout.
pub const MAX_CLONE_RESERVATION_GRANULARITY: u64 = 0x8000_0000;

/// Granularity where the driver reports none.
pub const DEFAULT_GRANULARITY: u64 = 0x20_0000;

/// The inherited descriptor of a memory index.
pub fn memory_slot(index: i32) -> (r: Option<i32>)
    ensures
        r == if index + FIRST_MEMORY_SLOT <= i32::MAX {
            Some((index + FIRST_MEMORY_SLOT) as i32)
        } else {
            None
        },
{
    if index <= 0x7fff_ffff - FIRST_MEMORY_SLOT {
        Some(index + FIRST_MEMORY_SLOT)
    } else {
        None
    }
}

// ---------------------------------------------------------------------------
// Reserving a layout at its own addresses
// ---------------------------------------------------------------------------

/// An attempt to reserve every envelope of a layout at exactly its address.
#[derive(Debug)]
pub struct ExactReserve {
    /// Granularity of this attempt.
    pub granularity: u64,
    /// Ranges to reserve.
    pub envelopes: Vec<(u64, u64)>,
    /// How many of them are reserved.
    pub taken: usize,
}

/// What comes next in reserving a layout.
#[derive(Debug, Clone, Copy, PartialEq, Eq, Structural)]
pub enum ReserveStep {
    /// Reserve this range: address, length, alignment.
    Reserve(u64, u64, u64),
    /// Every range is reserved.
    Complete,
    /// No granularity worked.
    GaveUp,
}

impl ExactReserve {
    /// The ranges are the envelopes of the layout, none was skipped.
    pub open spec fn for_layout(&self, layout: Seq<char>) -> bool {
        &&& self.granularity > 0
        &&& self.granularity <= MAX_CLONE_RESERVATION_GRANULARITY ==> self.envelopes@
            == envelopes_of(layout, self.granularity)
        &&& self.taken <= self.envelopes@.len()
    }

    /// The first attempt, at the granularity the driver reports, at least the
    /// smallest, and rounded up to a power of two.
    pub fn start(layout: &str, reported: Option<u64>) -> (r: Self)
        requires
            reported matches Some(g) ==> g <= 0x8000_0000_0000_0000,
        ensures
            r.for_layout(layout@),
            r.taken == 0,
            r.granularity == first_granularity(reported),
    {
        let granularity = round_granularity(reported);
        proof { lemma_first_granularity(reported); }
        let envelopes = if granularity <= MAX_CLONE_RESERVATION_GRANULARITY {
            clone_layout_reservation_envelopes(layout, granularity)
        } else {
            Vec::new()
        };
        ExactReserve { granularity, envelopes, taken: 0 }
    }

    /// What comes next.
    pub fn step(&self) -> (r: ReserveStep)
        requires
            self.taken <= self.envelopes@.len(),
        ensures
            r == if self.granularity > MAX_CLONE_RESERVATION_GRANULARITY {
                ReserveStep::GaveUp
            } else if self.taken < self.envelopes@.len() {
                let e = self.envelopes@[self.taken as int];
                ReserveStep::Reserve(e.0, e.1, self.granularity)
            } else {
                ReserveStep::Complete
            },
    {
        if self.granularity > MAX_CLONE_RESERVATION_GRANULARITY {
            ReserveStep::GaveUp
        } else if self.taken < self.envelopes.len() {
            let (va, size) = self.envelopes[self.taken];
            ReserveStep::Reserve(va, size, self.granularity)
        } else {
            ReserveStep::Complete
        }
    }

    /// Takes what the reservation came to. One at exactly the address counts; a
    /// failure, or one that was moved, undoes this attempt and starts the next at
    /// twice the granularity. Returns the ranges to give back.
    pub fn outcome(&mut self, layout: &str, actual: Option<u64>) -> (undo: Vec<(u64, u64)>)
        requires
            old(self).for_layout(layout@),
            old(self).granularity <= MAX_CLONE_RESERVATION_GRANULARITY,
            old(self).taken < old(self).envelopes@.len(),
        ensures
            final(self).for_layout(layout@),
            ({
                let e = old(self).envelopes@[old(self).taken as int];
                if actual == Some(e.0) {
                    &&& undo@.len() == 0
                    &&& final(self).granularity == old(self).granularity
                    &&& final(self).envelopes@ == old(self).envelopes@
                    &&& final(self).taken == old(self).taken + 1
                } else {
                    &&& undo@ == old(self).envelopes@.take(old(self).taken as int) + (
                    match actual {
                        Some(moved) => seq![(moved, e.1)],
                        None => Seq::empty(),
                    })
                    &&& final(self).granularity == 2 * old(self).granularity
                    &&& final(self).taken == 0
                }
            }),
    {
        let (va, size) = self.envelopes[self.taken];
        let exact = match actual {
            Some(a) => a == va,
            None => false,
        };
        let count: usize = self.envelopes.len();
        if exact && self.taken < count {
            self.taken = self.taken + 1;
            return Vec::new();
        }
        let ghost all = self.envelopes@;
        let ghost n = self.taken as int;
        let mut undo: Vec<(u64, u64)> = Vec::new();
        let mut i: usize = 0;
        while i < self.taken
            invariant
                i <= self.taken,
                self.taken < self.envelopes@.len(),
                self.envelopes@ == all,
                undo@ =~= all.take(i as int),
            decreases self.taken - i,
        {
            undo.push(self.envelopes[i]);
            i = i + 1;
        }
        match actual {
            Some(a) => {
                undo.push((a, size));
                proof { assert(undo@ =~= all.take(n) + seq![(a, size)]); }
            },
            None => {
                proof { assert(undo@ =~= all.take(n) + Seq::empty()); }
            },
        }
        let granularity = self.granularity * 2;
        self.granularity = granularity;
        self.taken = 0;
        if granularity <= MAX_CLONE_RESERVATION_GRANULARITY {
            self.envelopes = clone_layout_reservation_envelopes(layout, granularity);
        }
        undo
    }
}

/// The smallest power of two that is at least `x`, from `p` on.
pub open spec fn power_from(x: u64, p: u64) -> u64
    decreases 0x8000_0000_0000_0000 - p,
{
    if p >= x || p == 0 || p > 0x4000_0000_0000_0000 {
        p
    } else {
        power_from(x, (2 * p) as u64)
    }
}

/// The granularity of the first attempt.
pub open spec fn first_granularity(reported: Option<u64>) -> u64 {
    let g = match reported {
        Some(g) => g,
        None => DEFAULT_GRANULARITY,
    };
    power_from(g, MIN_CLONE_RESERVATION_GRANULARITY)
}

fn round_granularity(reported: Option<u64>) -> (r: u64)
    requires
        reported matches Some(g) ==> g <= 0x8000_0000_0000_0000,
    ensures
        r == first_granularity(reported),
{
    let g = match reported {
        Some(g) => g,
        None => DEFAULT_GRANULARITY,
    };
    let mut p: u64 = MIN_CLONE_RESERVATION_GRANULARITY;
    assert(0x1_0000u64 & ((0x1_0000u64 - 1) as u64) == 0) by (bit_vector);
    while p < g
        invariant
            g <= 0x8000_0000_0000_0000,
            0 < p <= 0x8000_0000_0000_0000,
            power_of_two_u64(p),
            power_from(g, MIN_CLONE_RESERVATION_GRANULARITY) == power_from(g, p),
        decreases 0x8000_0000_0000_0000 - p,
    {
        proof { lemma_double(p); }
        p = p * 2;
    }
    p
}

/// `x` has one bit set.
pub open spec fn power_of_two_u64(x: u64) -> bool {
    x != 0 && x & ((x - 1) as u64) == 0
}

proof fn lemma_double(p: u64)
    requires
        power_of_two_u64(p),
        p < 0x8000_0000_0000_0000,
    ensures
        power_of_two_u64((2 * p) as u64),
        2 * p <= 0x8000_0000_0000_0000,
{
    assert(2 * p <= 0x8000_0000_0000_0000u64 && (2 * p) as u64 != 0 && ((2 * p) as u64) & (((2 * p)
        as u64 - 1) as u64) == 0) by (bit_vector)
        requires
            p != 0,
            p & ((p - 1) as u64) == 0,
            p < 0x8000_0000_0000_0000u64,
    ;
}

/// The first granularity is a power of two, at least the smallest and at least
/// what the driver reports.
pub proof fn lemma_first_granularity(reported: Option<u64>)
    requires
        reported matches Some(g) ==> g <= 0x8000_0000_0000_0000,
    ensures
        power_of_two_u64(first_granularity(reported)),
        first_granularity(reported) >= MIN_CLONE_RESERVATION_GRANULARITY,
        first_granularity(reported) >= match reported {
            Some(g) => g,
            None => DEFAULT_GRANULARITY,
        },
{
    let g = match reported {
        Some(g) => g,
        None => DEFAULT_GRANULARITY,
    };
    assert(0x1_0000u64 & ((0x1_0000u64 - 1) as u64) == 0) by (bit_vector);
    lemma_power_from(g, MIN_CLONE_RESERVATION_GRANULARITY);
}

proof fn lemma_power_from(x: u64, p: u64)
    requires
        x <= 0x8000_0000_0000_0000,
        power_of_two_u64(p),
        p <= 0x8000_0000_0000_0000,
    ensures
        power_of_two_u64(power_from(x, p)),
        power_from(x, p) >= p,
        power_from(x, p) >= x,
    decreases 0x8000_0000_0000_0000 - p,
{
    if p < x && p <= 0x4000_0000_0000_0000 {
        lemma_double(p);
        lemma_power_from(x, (2 * p) as u64);
    } else if p < x {
        assert(p == 0x8000_0000_0000_0000u64) by (bit_vector)
            requires
                p != 0,
                p & ((p - 1) as u64) == 0,
                p > 0x4000_0000_0000_0000u64,
                p <= 0x8000_0000_0000_0000u64,
        ;
    }
}

// ---------------------------------------------------------------------------
// One mapped range
// ---------------------------------------------------------------------------

/// A call of the driver.
#[derive(Debug, Clone, Copy, PartialEq, Eq, Structural)]
pub enum DriverCall {
    /// Import the memory behind a descriptor index; gives a handle.
    Import { index: i32 },
    /// Map a handle at an address.
    MapAt { va: u64, size: u64, handle: u64 },
    /// Let the device read a range.
    AccessReadOnly { va: u64, size: u64 },
    /// Let the device read and write a range.
    Access { va: u64, size: u64 },
    /// Unmap a range.
    Unmap { va: u64, size: u64 },
    /// Give a handle back.
    Release { handle: u64 },
    /// Create private memory; gives a handle.
    Create { size: u64 },
    /// Reserve address space anywhere; gives an address.
    Reserve { size: u64 },
    /// Give address space back.
    Free { va: u64, size: u64 },
    /// Copy between device addresses.
    Copy { to: u64, from: u64, size: u64 },
    /// Wait for the device.
    Synchronize,
    /// Allocate device memory anywhere; gives an address.
    Allocate { size: u64 },
    /// Copy bytes of a host snapshot to a device address.
    RestoreHost { index: i32, offset: u64, va: u64, size: u64 },
}

/// Where the restoration of one mapped range stands.
#[derive(Debug, Clone, Copy, PartialEq, Eq, Structural)]
pub enum MapStep {
    /// Import the golden's memory to share it.
    ShareImport,
    /// Map the shared memory.
    ShareMap { shared: u64 },
    /// Make the shared memory read-only.
    ShareProtect { shared: u64 },
    /// Unmap shared memory that could not be made read-only.
    ShareUnmap { shared: u64 },
    /// Give the handle of memory that is not shared back.
    ShareDrop { shared: u64 },
    /// Give the handle of shared memory back that nothing refers to.
    ShareForget { shared: u64 },
    /// Create private memory.
    Create,
    /// Map the private memory.
    MapPrivate { own: u64 },
    /// Give private memory back that could not be mapped.
    Abandon { own: u64 },
    /// Open the private memory.
    AccessPrivate { own: u64 },
    /// Fill it from the host snapshot.
    FillFromHost { own: u64 },
    /// Import the golden's memory to copy it.
    ImportSource { own: u64 },
    /// Reserve address space for the source.
    ReserveSource { own: u64, source: u64 },
    /// Map the source.
    MapSource { own: u64, source: u64, at: u64 },
    /// Open the source.
    AccessSource { own: u64, source: u64, at: u64 },
    /// Copy the source.
    CopySource { own: u64, source: u64, at: u64 },
    /// Wait for the copy.
    WaitForCopy { own: u64, source: u64, at: u64 },
    /// Unmap the source.
    UnmapSource { own: u64, source: u64, at: u64 },
    /// Give the source's address space back.
    FreeSource { own: u64, source: u64, at: u64 },
    /// Give the source back.
    ReleaseSource { own: u64, source: u64 },
    /// The range is shared; the handle that stands for the golden's, if one does.
    Shared { kept: Option<u64> },
    /// The range is private under this handle.
    Private { own: u64 },
    /// A call failed that nothing makes up for.
    Failed,
}

/// The first step: sharing is tried where it is wanted and the content is frozen.
pub open spec fn first_map_step(entry: MapEntry, share: bool) -> MapStep {
    if share && entry.loaded {
        MapStep::ShareImport
    } else {
        MapStep::Create
    }
}

/// The call that a step makes, if it is not the last.
pub open spec fn map_call(entry: MapEntry, step: MapStep) -> Option<DriverCall> {
    let (va, size) = (entry.va, entry.size);
    match step {
        MapStep::ShareImport => Some(DriverCall::Import { index: entry.index }),
        MapStep::ShareMap { shared } => Some(DriverCall::MapAt { va, size, handle: shared }),
        MapStep::ShareProtect { shared } => Some(DriverCall::AccessReadOnly { va, size }),
        MapStep::ShareUnmap { shared } => Some(DriverCall::Unmap { va, size }),
        MapStep::ShareDrop { shared } => Some(DriverCall::Release { handle: shared }),
        MapStep::ShareForget { shared } => Some(DriverCall::Release { handle: shared }),
        MapStep::Create => Some(DriverCall::Create { size }),
        MapStep::MapPrivate { own } => Some(DriverCall::MapAt { va, size, handle: own }),
        MapStep::Abandon { own } => Some(DriverCall::Release { handle: own }),
        MapStep::AccessPrivate { own } => Some(DriverCall::Access { va, size }),
        MapStep::FillFromHost { own } => match entry.host_offset {
            Some(offset) => Some(DriverCall::RestoreHost { index: entry.index, offset, va, size }),
            None => None,
        },
        MapStep::ImportSource { own } => Some(DriverCall::Import { index: entry.index }),
        MapStep::ReserveSource { own, source } => Some(DriverCall::Reserve { size }),
        MapStep::MapSource { own, source, at } => Some(
            DriverCall::MapAt { va: at, size, handle: source },
        ),
        MapStep::AccessSource { own, source, at } => Some(DriverCall::Access { va: at, size }),
        MapStep::CopySource { own, source, at } => Some(
            DriverCall::Copy { to: va, from: at, size },
        ),
        MapStep::WaitForCopy { own, source, at } => Some(DriverCall::Synchronize),
        MapStep::UnmapSource { own, source, at } => Some(DriverCall::Unmap { va: at, size }),
        MapStep::FreeSource { own, source, at } => Some(DriverCall::Free { va: at, size }),
        MapStep::ReleaseSource { own, source } => Some(DriverCall::Release { handle: source }),
        MapStep::Shared { kept } => None,
        MapStep::Private { own } => None,
        MapStep::Failed => None,
    }
}

/// The step after a call that gave `result`, or failed.
///
/// Where sharing fails at any point the range becomes private. Giving back what
/// was taken on the way to that never fails the restoration; every other failure
/// does.
pub open spec fn next_map_step(entry: MapEntry, step: MapStep, result: Option<u64>) -> MapStep {
    match (step, result) {
        (MapStep::ShareImport, Some(shared)) => MapStep::ShareMap { shared },
        (MapStep::ShareImport, None) => MapStep::Create,
        (MapStep::ShareMap { shared }, Some(_)) => MapStep::ShareProtect { shared },
        (MapStep::ShareMap { shared }, None) => MapStep::ShareDrop { shared },
        (MapStep::ShareProtect { shared }, Some(_)) => if entry.handle is Some {
            MapStep::Shared { kept: Some(shared) }
        } else {
            MapStep::ShareForget { shared }
        },
        (MapStep::ShareProtect { shared }, None) => MapStep::ShareUnmap { shared },
        (MapStep::ShareUnmap { shared }, _) => MapStep::ShareDrop { shared },
        (MapStep::ShareDrop { shared }, _) => MapStep::Create,
        (MapStep::ShareForget { shared }, _) => MapStep::Shared { kept: None },
        (MapStep::Create, Some(own)) => MapStep::MapPrivate { own },
        (MapStep::MapPrivate { own }, Some(_)) => MapStep::AccessPrivate { own },
        (MapStep::MapPrivate { own }, None) => MapStep::Abandon { own },
        (MapStep::AccessPrivate { own }, Some(_)) => if entry.host_offset is Some {
            MapStep::FillFromHost { own }
        } else {
            MapStep::ImportSource { own }
        },
        (MapStep::FillFromHost { own }, Some(_)) => MapStep::Private { own },
        (MapStep::ImportSource { own }, Some(source)) => MapStep::ReserveSource { own, source },
        (MapStep::ReserveSource { own, source }, Some(at)) => MapStep::MapSource {
            own,
            source,
            at,
        },
        (MapStep::MapSource { own, source, at }, Some(_)) => MapStep::AccessSource {
            own,
            source,
            at,
        },
        (MapStep::AccessSource { own, source, at }, Some(_)) => MapStep::CopySource {
            own,
            source,
            at,
        },
        (MapStep::CopySource { own, source, at }, Some(_)) => MapStep::WaitForCopy {
            own,
            source,
            at,
        },
        (MapStep::WaitForCopy { own, source, at }, Some(_)) => MapStep::UnmapSource {
            own,
            source,
            at,
        },
        (MapStep::UnmapSource { own, source, at }, Some(_)) => MapStep::FreeSource {
            own,
            source,
            at,
        },
        (MapStep::FreeSource { own, source, at }, Some(_)) => MapStep::ReleaseSource {
            own,
            source,
        },
        (MapStep::ReleaseSource { own, source }, Some(_)) => MapStep::Private { own },
        (MapStep::Shared { kept }, _) => step,
        (MapStep::Private { own }, _) => step,
        _ => MapStep::Failed,
    }
}

/// The first step of restoring a mapped range.
pub fn start_map(entry: &MapEntry, share: bool) -> (r: MapStep)
    ensures
        r == first_map_step(*entry, share),
{
    if share && entry.loaded {
        MapStep::ShareImport
    } else {
        MapStep::Create
    }
}

/// The call that a step makes, if it is not the last.
pub fn call_of_map(entry: &MapEntry, step: MapStep) -> (r: Option<DriverCall>)
    ensures
        r == map_call(*entry, step),
{
    let va = entry.va;
    let size = entry.size;
    match step {
        MapStep::ShareImport => Some(DriverCall::Import { index: entry.index }),
        MapStep::ShareMap { shared } => Some(DriverCall::MapAt { va, size, handle: shared }),
        MapStep::ShareProtect { shared: _ } => Some(DriverCall::AccessReadOnly { va, size }),
        MapStep::ShareUnmap { shared: _ } => Some(DriverCall::Unmap { va, size }),
        MapStep::ShareDrop { shared } => Some(DriverCall::Release { handle: shared }),
        MapStep::ShareForget { shared } => Some(DriverCall::Release { handle: shared }),
        MapStep::Create => Some(DriverCall::Create { size }),
        MapStep::MapPrivate { own } => Some(DriverCall::MapAt { va, size, handle: own }),
        MapStep::Abandon { own } => Some(DriverCall::Release { handle: own }),
        MapStep::AccessPrivate { own: _ } => Some(DriverCall::Access { va, size }),
        MapStep::FillFromHost { own: _ } => match entry.host_offset {
            Some(offset) => Some(DriverCall::RestoreHost { index: entry.index, offset, va, size }),
            None => None,
        },
        MapStep::ImportSource { own: _ } => Some(DriverCall::Import { index: entry.index }),
        MapStep::ReserveSource { own: _, source: _ } => Some(DriverCall::Reserve { size }),
        MapStep::MapSource { own: _, source, at } => Some(
            DriverCall::MapAt { va: at, size, handle: source },
        ),
        MapStep::AccessSource { own: _, source: _, at } => Some(
            DriverCall::Access { va: at, size },
        ),
        MapStep::CopySource { own: _, source: _, at } => Some(
            DriverCall::Copy { to: va, from: at, size },
        ),
        MapStep::WaitForCopy { own: _, source: _, at: _ } => Some(DriverCall::Synchronize),
        MapStep::UnmapSource { own: _, source: _, at } => Some(DriverCall::Unmap { va: at, size }),
        MapStep::FreeSource { own: _, source: _, at } => Some(DriverCall::Free { va: at, size }),
        MapStep::ReleaseSource { own: _, source } => Some(DriverCall::Release { handle: source }),
        MapStep::Shared { kept: _ } => None,
        MapStep::Private { own: _ } => None,
        MapStep::Failed => None,
    }
}

/// The step after a call.
pub fn advance_map(entry: &MapEntry, step: MapStep, result: Option<u64>) -> (r: MapStep)
    ensures
        r == next_map_step(*entry, step, result),
{
    match (step, result) {
        (MapStep::ShareImport, Some(shared)) => MapStep::ShareMap { shared },
        (MapStep::ShareImport, None) => MapStep::Create,
        (MapStep::ShareMap { shared }, Some(_)) => MapStep::ShareProtect { shared },
        (MapStep::ShareMap { shared }, None) => MapStep::ShareDrop { shared },
        (MapStep::ShareProtect { shared }, Some(_)) => {
            if entry.handle.is_some() {
                MapStep::Shared { kept: Some(shared) }
            } else {
                MapStep::ShareForget { shared }
            }
        },
        (MapStep::ShareProtect { shared }, None) => MapStep::ShareUnmap { shared },
        (MapStep::ShareUnmap { shared }, _) => MapStep::ShareDrop { shared },
        (MapStep::ShareDrop { shared: _ }, _) => MapStep::Create,
        (MapStep::ShareForget { shared: _ }, _) => MapStep::Shared { kept: None },
        (MapStep::Create, Some(own)) => MapStep::MapPrivate { own },
        (MapStep::MapPrivate { own }, Some(_)) => MapStep::AccessPrivate { own },
        (MapStep::MapPrivate { own }, None) => MapStep::Abandon { own },
        (MapStep::AccessPrivate { own }, Some(_)) => {
            if entry.host_offset.is_some() {
                MapStep::FillFromHost { own }
            } else {
                MapStep::ImportSource { own }
            }
        },
        (MapStep::FillFromHost { own }, Some(_)) => MapStep::Private { own },
        (MapStep::ImportSource { own }, Some(source)) => MapStep::ReserveSource { own, source },
        (MapStep::ReserveSource { own, source }, Some(at)) => MapStep::MapSource {
            own,
            source,
            at,
        },
        (MapStep::MapSource { own, source, at }, Some(_)) => MapStep::AccessSource {
            own,
            source,
            at,
        },
        (MapStep::AccessSource { own, source, at }, Some(_)) => MapStep::CopySource {
            own,
            source,
            at,
        },
        (MapStep::CopySource { own, source, at }, Some(_)) => MapStep::WaitForCopy {
            own,
            source,
            at,
        },
        (MapStep::WaitForCopy { own, source, at }, Some(_)) => MapStep::UnmapSource {
            own,
            source,
            at,
        },
        (MapStep::UnmapSource { own, source, at }, Some(_)) => MapStep::FreeSource {
            own,
            source,
            at,
        },
        (MapStep::FreeSource { own, source, at: _ }, Some(_)) => MapStep::ReleaseSource {
            own,
            source,
        },
        (MapStep::ReleaseSource { own, source: _ }, Some(_)) => MapStep::Private { own },
        (MapStep::Shared { kept }, _) => MapStep::Shared { kept },
        (MapStep::Private { own }, _) => MapStep::Private { own },
        _ => MapStep::Failed,
    }
}

/// Whether the call of a step is tried again where it fails: importing the golden's
/// memory and mapping what was imported are, because they fail in passing when many
/// workers rebuild at once.
pub fn retries_map(step: MapStep) -> (r: bool)
    ensures
        r == (step is ShareImport || step is ShareMap || step is ImportSource || step is MapSource),
{
    matches!(
        step,
        MapStep::ShareImport
        | MapStep::ShareMap { .. }
        | MapStep::ImportSource { .. }
        | MapStep::MapSource { .. }
    )
}

/// What restoring mapped ranges came to so far.
#[derive(Debug)]
pub struct RestoreTally {
    /// Ranges restored.
    pub count: usize,
    /// Handles of the golden with the handles that stand for them; of two entries for
    /// one handle the later counts.
    pub handles: Vec<(u64, u64)>,
    /// Ranges that are shared.
    pub shared: Vec<(u64, u64)>,
}

impl RestoreTally {
    /// Nothing restored yet.
    pub fn new() -> (r: Self)
        ensures
            r@ == empty_tally(),
    {
        let r = RestoreTally { count: 0, handles: Vec::new(), shared: Vec::new() };
        proof { assert(r@ =~= empty_tally()); }
        r
    }

    /// Notes a restored range.
    pub fn note(&mut self, entry: &MapEntry, done: MapStep)
        requires
            old(self).count < usize::MAX,
            done is Shared || done is Private,
            done matches MapStep::Shared { kept: Some(_) } ==> entry.handle is Some,
        ensures
            final(self)@ == noted(old(self)@, *entry, done),
    {
        self.count = self.count + 1;
        match done {
            MapStep::Shared { kept } => {
                self.shared.push((entry.va, entry.size));
                match (entry.handle, kept) {
                    (Some(g), Some(h)) => self.handles.push((g, h)),
                    _ => {},
                }
            },
            MapStep::Private { own } => match entry.handle {
                Some(g) => self.handles.push((g, own)),
                None => {},
            },
            _ => {},
        }
    }
}

// ---------------------------------------------------------------------------
// Ordinary allocations
// ---------------------------------------------------------------------------

/// How ordinary allocations are restored.
#[derive(Debug, Clone, Copy, PartialEq, Eq, Structural)]
pub enum OrdinaryPlan {
    /// There is nothing to restore.
    Nothing,
    /// At their own addresses, from a host snapshot.
    InPlaceFromHost(i32),
    /// At their own addresses, from the staging area.
    InPlaceFromStage(i32),
    /// Not at all: a host snapshot needs every address, and one is not reserved.
    Refused,
    /// As copies elsewhere with their addresses translated, from the staging area.
    TranslatedFromStage(i32),
}

/// How ordinary allocations are restored: at their own addresses wherever all of
/// those are reserved, as translated copies only from the staging area.
pub open spec fn ordinary_plan_of(l: LayoutModel, reserved: Seq<(u64, u64)>) -> OrdinaryPlan {
    if !l.regions_given {
        OrdinaryPlan::Nothing
    } else if all_reserved(l.regions, reserved) {
        match (l.host, l.stage) {
            (Some(i), _) => OrdinaryPlan::InPlaceFromHost(i),
            (None, Some(i)) => OrdinaryPlan::InPlaceFromStage(i),
            (None, None) => OrdinaryPlan::Nothing,
        }
    } else {
        match (l.host, l.stage) {
            (Some(i), _) => OrdinaryPlan::Refused,
            (None, Some(i)) => OrdinaryPlan::TranslatedFromStage(i),
            (None, None) => OrdinaryPlan::Nothing,
        }
    }
}

/// How ordinary allocations are restored.
pub fn ordinary_plan(l: &CloneLayout, reserved: &[(u64, u64)]) -> (r: OrdinaryPlan)
    ensures
        r == ordinary_plan_of(l@, reserved@),
{
    if !l.regions_given {
        return OrdinaryPlan::Nothing;
    }
    let in_place = ordinary_regions_are_reserved(&l.regions, reserved);
    match (l.host, l.stage) {
        (Some(i), _) => {
            if in_place {
                OrdinaryPlan::InPlaceFromHost(i)
            } else {
                OrdinaryPlan::Refused
            }
        },
        (None, Some(i)) => {
            if in_place {
                OrdinaryPlan::InPlaceFromStage(i)
            } else {
                OrdinaryPlan::TranslatedFromStage(i)
            }
        },
        (None, None) => OrdinaryPlan::Nothing,
    }
}

/// Where a reservation has to be given back: it was asked for at `va`, and the driver
/// put it elsewhere.
pub fn misplaced(va: u64, got: Option<u64>) -> (r: Option<u64>)
    ensures
        r == if got == Some(va) {
            None
        } else {
            got
        },
{
    match got {
        Some(at) => if at == va {
            None
        } else {
            Some(at)
        },
        None => None,
    }
}

/// Holds of the ranges that lie in no reserved range.
pub open spec fn unreserved_in(reserved: Seq<(u64, u64)>) -> spec_fn((u64, u64)) -> bool {
    |r: (u64, u64)| !is_reserved(reserved, r.0, r.1)
}

/// The ranges that still have to be reserved.
pub fn unreserved(ranges: &[(u64, u64)], reserved: &[(u64, u64)]) -> (r: Vec<(u64, u64)>)
    ensures
        r@ == ranges@.filter(unreserved_in(reserved@)),
{
    let ghost p = unreserved_in(reserved@);
    let mut r: Vec<(u64, u64)> = Vec::new();
    let mut i: usize = 0;
    proof {
        reveal(Seq::filter);
        assert(ranges@.take(0).filter(p) =~= r@);
    }
    while i < ranges.len()
        invariant
            i <= ranges@.len(),
            p == unreserved_in(reserved@),
            r@ == ranges@.take(i as int).filter(p),
        decreases ranges@.len() - i,
    {
        proof {
            reveal(Seq::filter);
            assert(ranges@.take(i + 1).drop_last() =~= ranges@.take(i as int));
            assert(ranges@.take(i + 1).last() == ranges@[i as int]);
        }
        if !range_is_reserved(reserved, ranges[i].0, ranges[i].1) {
            r.push(ranges[i]);
        }
        i = i + 1;
    }
    proof { assert(ranges@.take(ranges@.len() as int) =~= ranges@); }
    r
}

/// The range of a region.
pub open spec fn region_range(region: (u64, u64, u64)) -> (u64, u64) {
    (region.0, region.1)
}

/// The ranges of ordinary allocations that still have to be reserved, so that nothing
/// new can land where the golden has something; none where nothing is restored.
pub fn guarded(l: &CloneLayout, reserved: &[(u64, u64)]) -> (r: Vec<(u64, u64)>)
    ensures
        r@ == if ordinary_plan_of(l@, reserved@) is Nothing {
            Seq::empty()
        } else {
            l@.regions.map_values(|region: (u64, u64, u64)| region_range(region)).filter(
                unreserved_in(reserved@),
            )
        },
{
    let mut ranges: Vec<(u64, u64)> = Vec::new();
    if matches!(ordinary_plan(l, reserved), OrdinaryPlan::Nothing) {
        return ranges;
    }
    let mut i: usize = 0;
    while i < l.regions.len()
        invariant
            i <= l.regions@.len(),
            ranges@.len() == i,
            forall|j: int| 0 <= j < i ==> #[trigger] ranges@[j] == region_range(l.regions@[j]),
        decreases l.regions@.len() - i,
    {
        ranges.push((l.regions[i].0, l.regions[i].1));
        i = i + 1;
    }
    proof {
        assert(ranges@ =~= l@.regions.map_values(
            |region: (u64, u64, u64)| region_range(region),
        ));
    }
    unreserved(&ranges, reserved)
}

/// The region that holds an address.
pub open spec fn holds_address(region: (u64, u64, u64), d: u64) -> bool {
    region.0 <= d < region.0 + region.1
}

/// The first region from `i` on that holds an address.
pub open spec fn first_region(regions: Seq<(u64, u64, u64)>, d: u64, i: int) -> Option<
    (u64, u64, u64),
>
    decreases regions.len() - i,
{
    if i >= regions.len() {
        None
    } else if holds_address(regions[i], d) {
        Some(regions[i])
    } else {
        first_region(regions, d, i + 1)
    }
}

/// Where an allocation lies in the staging area: the offset of its region and its
/// place in the region; nothing where no region holds it.
pub fn staging_place(regions: &[(u64, u64, u64)], d: u64) -> (r: Option<(u64, u64)>)
    ensures
        r == match first_region(regions@, d, 0) {
            Some(region) => Some((region.2, (d - region.0) as u64)),
            None => None,
        },
{
    let mut i: usize = 0;
    while i < regions.len()
        invariant
            i <= regions@.len(),
            first_region(regions@, d, 0) == first_region(regions@, d, i as int),
        decreases regions@.len() - i,
    {
        let (base, size, offset) = regions[i];
        if d >= base && d - base < size {
            return Some((offset, d - base));
        }
        i = i + 1;
    }
    None
}

/// Ordinary allocations that kept their addresses, as translations to themselves.
pub fn identity_translations(allocs: &[(u64, u64, Option<u64>)]) -> (r: Vec<(u64, u64, u64)>)
    ensures
        r@ == allocs@.map_values(|a: (u64, u64, Option<u64>)| (a.0, a.1, a.0)),
{
    let mut r: Vec<(u64, u64, u64)> = Vec::new();
    let mut i: usize = 0;
    while i < allocs.len()
        invariant
            i <= allocs@.len(),
            r@.len() == i,
            forall|j: int| 0 <= j < i ==> r@[j] == (allocs@[j].0, allocs@[j].1, allocs@[j].0),
        decreases allocs@.len() - i,
    {
        r.push((allocs[i].0, allocs[i].1, allocs[i].0));
        i = i + 1;
    }
    proof { assert(r@ =~= allocs@.map_values(|a: (u64, u64, Option<u64>)| (a.0, a.1, a.0))); }
    r
}

/// The total length of regions.
pub open spec fn regions_total(regions: Seq<(u64, u64, u64)>) -> nat
    decreases regions.len(),
{
    if regions.len() == 0 {
        0
    } else {
        regions_total(regions.drop_last()) + regions.last().1 as nat
    }
}

/// The size of the staging area.
pub fn staging_total(regions: &[(u64, u64, u64)]) -> (r: Option<u64>)
    ensures
        r == if regions_total(regions@) <= u64::MAX {
            Some(regions_total(regions@) as u64)
        } else {
            None
        },
{
    let mut total: u64 = 0;
    let mut i: usize = 0;
    proof { assert(regions@.take(0) =~= Seq::empty()); }
    while i < regions.len()
        invariant
            i <= regions@.len(),
            total == regions_total(regions@.take(i as int)),
        decreases regions@.len() - i,
    {
        proof {
            assert(regions@.take(i + 1).drop_last() =~= regions@.take(i as int));
            assert(regions@.take(i + 1).last() == regions@[i as int]);
            lemma_total_grows(regions@, i + 1);
        }
        match total.checked_add(regions[i].1) {
            Some(t) => {
                total = t;
            },
            None => {
                return None;
            },
        }
        i = i + 1;
    }
    proof { assert(regions@.take(regions@.len() as int) =~= regions@); }
    Some(total)
}

proof fn lemma_total_grows(regions: Seq<(u64, u64, u64)>, n: int)
    requires
        0 <= n <= regions.len(),
    ensures
        regions_total(regions.take(n)) <= regions_total(regions),
    decreases regions.len() - n,
{
    if n == regions.len() {
        assert(regions.take(n) =~= regions);
    } else {
        lemma_total_grows(regions, n + 1);
        assert(regions.take(n + 1).drop_last() =~= regions.take(n));
    }
}

// ---------------------------------------------------------------------------
// What restoring guarantees
// ---------------------------------------------------------------------------

/// The step reached after calls that gave `results`.
pub open spec fn map_run(entry: MapEntry, share: bool, results: Seq<Option<u64>>) -> MapStep
    decreases results.len(),
{
    if results.len() == 0 {
        first_map_step(entry, share)
    } else {
        next_map_step(entry, map_run(entry, share, results.drop_last()), results.last())
    }
}

/// The `i`th call of a run.
pub open spec fn map_run_call(
    entry: MapEntry,
    share: bool,
    results: Seq<Option<u64>>,
    i: int,
) -> Option<DriverCall> {
    map_call(entry, map_run(entry, share, results.take(i)))
}

/// A run whose `i`th call was `call` and succeeded.
pub open spec fn made_call(
    entry: MapEntry,
    share: bool,
    results: Seq<Option<u64>>,
    i: int,
    call: DriverCall,
) -> bool {
    0 <= i < results.len() && map_run_call(entry, share, results, i) == Some(call) && results[i]
        is Some
}

proof fn lemma_made_earlier(
    entry: MapEntry,
    share: bool,
    results: Seq<Option<u64>>,
    i: int,
    call: DriverCall,
)
    requires
        results.len() > 0,
        made_call(entry, share, results.drop_last(), i, call),
    ensures
        made_call(entry, share, results, i, call),
{
    assert(results.drop_last().take(i) =~= results.take(i));
}

/// A range becomes shared only where sharing was wanted, its content is frozen,
/// and it was made read-only.
pub proof fn law_shared_range_is_read_only(
    entry: MapEntry,
    share: bool,
    results: Seq<Option<u64>>,
)
    requires
        map_run(entry, share, results) is Shared,
    ensures
        share && entry.loaded,
        exists|i: int|
            made_call(
                entry,
                share,
                results,
                i,
                DriverCall::AccessReadOnly { va: entry.va, size: entry.size },
            ),
{
    lemma_share_run(entry, share, results);
}

proof fn lemma_share_run(entry: MapEntry, share: bool, results: Seq<Option<u64>>)
    ensures
        ({
            let s = map_run(entry, share, results);
            let ro = DriverCall::AccessReadOnly { va: entry.va, size: entry.size };
            &&& s is ShareImport || s is ShareMap || s is ShareProtect || s is ShareUnmap
                || s is ShareDrop || s is ShareForget || s is Shared ==> share && entry.loaded
            &&& s is ShareForget || s is Shared ==> exists|i: int|
                made_call(entry, share, results, i, ro)
        }),
    decreases results.len(),
{
    let ro = DriverCall::AccessReadOnly { va: entry.va, size: entry.size };
    if results.len() > 0 {
        let front = results.drop_last();
        lemma_share_run(entry, share, front);
        let before = map_run(entry, share, front);
        let s = map_run(entry, share, results);
        let n = results.len() - 1;
        assert(results.take(n) =~= front);
        if s is ShareForget || s is Shared {
            if before is ShareProtect {
                assert(made_call(entry, share, results, n, ro));
            } else {
                let i = choose|i: int| made_call(entry, share, front, i, ro);
                lemma_made_earlier(entry, share, results, i, ro);
            }
        }
    }
}

/// Call `s` imported the golden's memory as `source`, `m` mapped it at `from`, `c` copied
/// it into the range and `w` waited for the copy, in this order.
pub open spec fn copied_through(
    entry: MapEntry,
    share: bool,
    results: Seq<Option<u64>>,
    source: u64,
    from: u64,
    s: int,
    m: int,
    c: int,
    w: int,
) -> bool {
    let (va, size) = (entry.va, entry.size);
    &&& s < m < c < w
    &&& made_call(entry, share, results, s, DriverCall::Import { index: entry.index })
    &&& results[s] == Some(source)
    &&& made_call(entry, share, results, m, DriverCall::MapAt { va: from, size, handle: source })
    &&& made_call(entry, share, results, c, DriverCall::Copy { to: va, from, size })
    &&& made_call(entry, share, results, w, DriverCall::Synchronize)
}

/// A range that is restored privately lives in memory that this worker created,
/// mapped at the golden's address, opened, and filled: from the snapshot, or by a copy
/// of the golden's memory that was waited for.
pub proof fn law_private_range_is_own_filled_memory(
    entry: MapEntry,
    share: bool,
    results: Seq<Option<u64>>,
)
    requires
        map_run(entry, share, results) is Private,
    ensures
        ({
            let own = map_run(entry, share, results)->Private_own;
            &&& exists|i: int|
                made_call(entry, share, results, i, DriverCall::Create { size: entry.size })
                    && results[i] == Some(own)
            &&& exists|i: int|
                made_call(
                    entry,
                    share,
                    results,
                    i,
                    DriverCall::MapAt { va: entry.va, size: entry.size, handle: own },
                )
            &&& exists|i: int|
                made_call(
                    entry,
                    share,
                    results,
                    i,
                    DriverCall::Access { va: entry.va, size: entry.size },
                )
            &&& match entry.host_offset {
                Some(offset) => exists|i: int|
                    made_call(
                        entry,
                        share,
                        results,
                        i,
                        DriverCall::RestoreHost {
                            index: entry.index,
                            offset,
                            va: entry.va,
                            size: entry.size,
                        },
                    ),
                None => exists|source: u64, from: u64, s: int, m: int, c: int, w: int|
                    copied_through(entry, share, results, source, from, s, m, c, w),
            }
        }),
{
    lemma_created(entry, share, results);
    let own = map_run(entry, share, results)->Private_own;
    let i = choose|i: int| created_own(entry, share, results, own, i);
    assert(made_call(entry, share, results, i, DriverCall::Create { size: entry.size })
        && results[i] == Some(own));
    lemma_mapped(entry, share, results);
    lemma_opened(entry, share, results);
    lemma_copied(entry, share, results);
    lemma_restored(entry, share, results);
}

/// The private memory of a step, if it has got that far.
spec fn own_of(step: MapStep) -> Option<u64> {
    match step {
        MapStep::MapPrivate { own } => Some(own),
        MapStep::AccessPrivate { own } => Some(own),
        MapStep::FillFromHost { own } => Some(own),
        MapStep::ImportSource { own } => Some(own),
        MapStep::ReserveSource { own, source } => Some(own),
        MapStep::MapSource { own, source, at } => Some(own),
        MapStep::AccessSource { own, source, at } => Some(own),
        MapStep::CopySource { own, source, at } => Some(own),
        MapStep::WaitForCopy { own, source, at } => Some(own),
        MapStep::UnmapSource { own, source, at } => Some(own),
        MapStep::FreeSource { own, source, at } => Some(own),
        MapStep::ReleaseSource { own, source } => Some(own),
        MapStep::Private { own } => Some(own),
        _ => None,
    }
}

/// The step is past mapping the private memory.
spec fn past_map(step: MapStep) -> bool {
    own_of(step) is Some && !(step is MapPrivate)
}

/// The step is past opening the private memory.
spec fn past_access(step: MapStep) -> bool {
    past_map(step) && !(step is AccessPrivate)
}

/// The step is past waiting for the copy.
spec fn past_copy(step: MapStep) -> bool {
    step is UnmapSource || step is FreeSource || step is ReleaseSource
}

/// Call `i` created the private memory `own`.
spec fn created_own(
    entry: MapEntry,
    share: bool,
    results: Seq<Option<u64>>,
    own: u64,
    i: int,
) -> bool {
    made_call(entry, share, results, i, DriverCall::Create { size: entry.size }) && results[i]
        == Some(own)
}

spec fn create_done(
    entry: MapEntry,
    share: bool,
    results: Seq<Option<u64>>,
    own: Option<u64>,
) -> bool {
    own is Some ==> exists|i: int| created_own(entry, share, results, own->Some_0, i)
}

proof fn lemma_created(entry: MapEntry, share: bool, results: Seq<Option<u64>>)
    ensures
        create_done(entry, share, results, own_of(map_run(entry, share, results))),
    decreases results.len(),
{
    if results.len() > 0 && own_of(map_run(entry, share, results)) is Some {
        let front = results.drop_last();
        let own = own_of(map_run(entry, share, results))->Some_0;
        let n = results.len() - 1;
        assert(results.take(n) =~= front);
        if map_run(entry, share, front) is Create {
            assert(created_own(entry, share, results, own, n));
        } else {
            lemma_created(entry, share, front);
            let i = choose|i: int| created_own(entry, share, front, own, i);
            lemma_made_earlier(
                entry,
                share,
                results,
                i,
                DriverCall::Create { size: entry.size },
            );
            assert(created_own(entry, share, results, own, i));
        }
    }
}

proof fn lemma_mapped(entry: MapEntry, share: bool, results: Seq<Option<u64>>)
    ensures
        past_map(map_run(entry, share, results)) ==> exists|i: int|
            made_call(
                entry,
                share,
                results,
                i,
                DriverCall::MapAt {
                    va: entry.va,
                    size: entry.size,
                    handle: own_of(map_run(entry, share, results))->Some_0,
                },
            ),
    decreases results.len(),
{
    if results.len() > 0 && past_map(map_run(entry, share, results)) {
        let front = results.drop_last();
        let map = DriverCall::MapAt {
            va: entry.va,
            size: entry.size,
            handle: own_of(map_run(entry, share, results))->Some_0,
        };
        let n = results.len() - 1;
        assert(results.take(n) =~= front);
        if map_run(entry, share, front) is MapPrivate {
            assert(made_call(entry, share, results, n, map));
        } else {
            lemma_mapped(entry, share, front);
            let i = choose|i: int| made_call(entry, share, front, i, map);
            lemma_made_earlier(entry, share, results, i, map);
        }
    }
}

proof fn lemma_opened(entry: MapEntry, share: bool, results: Seq<Option<u64>>)
    ensures
        past_access(map_run(entry, share, results)) ==> exists|i: int|
            made_call(
                entry,
                share,
                results,
                i,
                DriverCall::Access { va: entry.va, size: entry.size },
            ),
    decreases results.len(),
{
    if results.len() > 0 && past_access(map_run(entry, share, results)) {
        let front = results.drop_last();
        let access = DriverCall::Access { va: entry.va, size: entry.size };
        let n = results.len() - 1;
        assert(results.take(n) =~= front);
        if map_run(entry, share, front) is AccessPrivate {
            assert(made_call(entry, share, results, n, access));
        } else {
            lemma_opened(entry, share, front);
            let i = choose|i: int| made_call(entry, share, front, i, access);
            lemma_made_earlier(entry, share, results, i, access);
        }
    }
}

/// Memory is filled from the snapshot exactly where the range has a place there.
proof fn lemma_source(entry: MapEntry, share: bool, results: Seq<Option<u64>>)
    ensures
        ({
            let s = map_run(entry, share, results);
            &&& s is FillFromHost ==> entry.host_offset is Some
            &&& s is ImportSource || s is ReserveSource || s is MapSource || s is AccessSource
                || s is CopySource || s is WaitForCopy || past_copy(s) ==> entry.host_offset is None
        }),
    decreases results.len(),
{
    if results.len() > 0 {
        lemma_source(entry, share, results.drop_last());
    }
}

/// The golden's memory was imported as `source`, by call `s`.
spec fn source_imported(
    entry: MapEntry,
    share: bool,
    results: Seq<Option<u64>>,
    source: u64,
    s: int,
) -> bool {
    made_call(entry, share, results, s, DriverCall::Import { index: entry.index }) && results[s]
        == Some(source)
}

/// It was mapped at `from` after that, by call `m`.
spec fn source_mapped(
    entry: MapEntry,
    share: bool,
    results: Seq<Option<u64>>,
    source: u64,
    from: u64,
    s: int,
    m: int,
) -> bool {
    &&& s < m
    &&& source_imported(entry, share, results, source, s)
    &&& made_call(
        entry,
        share,
        results,
        m,
        DriverCall::MapAt { va: from, size: entry.size, handle: source },
    )
}

/// It was copied after that, by call `c`.
spec fn source_copied(
    entry: MapEntry,
    share: bool,
    results: Seq<Option<u64>>,
    source: u64,
    from: u64,
    s: int,
    m: int,
    c: int,
) -> bool {
    &&& m < c
    &&& source_mapped(entry, share, results, source, from, s, m)
    &&& made_call(
        entry,
        share,
        results,
        c,
        DriverCall::Copy { to: entry.va, from, size: entry.size },
    )
}

spec fn import_done(
    entry: MapEntry,
    share: bool,
    results: Seq<Option<u64>>,
    source: u64,
) -> bool {
    exists|s: int| source_imported(entry, share, results, source, s)
}

spec fn map_done(
    entry: MapEntry,
    share: bool,
    results: Seq<Option<u64>>,
    source: u64,
    from: u64,
) -> bool {
    exists|s: int, m: int| source_mapped(entry, share, results, source, from, s, m)
}

spec fn fill_done(
    entry: MapEntry,
    share: bool,
    results: Seq<Option<u64>>,
    source: u64,
    from: u64,
) -> bool {
    exists|s: int, m: int, c: int| source_copied(entry, share, results, source, from, s, m, c)
}

/// What is done of the copy at each step.
spec fn copy_holds(
    entry: MapEntry,
    share: bool,
    results: Seq<Option<u64>>,
    step: MapStep,
) -> bool {
    match step {
        MapStep::ReserveSource { own, source } => import_done(entry, share, results, source),
        MapStep::MapSource { own, source, at } => import_done(entry, share, results, source),
        MapStep::AccessSource { own, source, at } => map_done(entry, share, results, source, at),
        MapStep::CopySource { own, source, at } => map_done(entry, share, results, source, at),
        MapStep::WaitForCopy { own, source, at } => fill_done(
            entry,
            share,
            results,
            source,
            at,
        ),
        MapStep::UnmapSource { own, source, at } => copy_done(entry, share, results),
        MapStep::FreeSource { own, source, at } => copy_done(entry, share, results),
        MapStep::ReleaseSource { own, source } => copy_done(entry, share, results),
        MapStep::Private { own } => entry.host_offset is Some || copy_done(entry, share, results),
        _ => true,
    }
}

spec fn copy_done(entry: MapEntry, share: bool, results: Seq<Option<u64>>) -> bool {
    exists|source: u64, from: u64, s: int, m: int, c: int, w: int|
        copied_through(entry, share, results, source, from, s, m, c, w)
}

/// What was done before a call is still done after it.
proof fn lemma_copy_lasts(entry: MapEntry, share: bool, results: Seq<Option<u64>>, step: MapStep)
    requires
        results.len() > 0,
        copy_holds(entry, share, results.drop_last(), step),
    ensures
        copy_holds(entry, share, results, step),
{
    let front = results.drop_last();
    assert forall|i: int, call: DriverCall|
        made_call(entry, share, front, i, call) implies #[trigger] made_call(
        entry,
        share,
        results,
        i,
        call,
    ) by {
        lemma_made_earlier(entry, share, results, i, call);
    }
    match step {
        MapStep::ReserveSource { own, source } => {
            let s = choose|s: int| source_imported(entry, share, front, source, s);
            assert(source_imported(entry, share, results, source, s));
        },
        MapStep::MapSource { own, source, at } => {
            let s = choose|s: int| source_imported(entry, share, front, source, s);
            assert(source_imported(entry, share, results, source, s));
        },
        MapStep::AccessSource { own, source, at } => {
            let (s, m) = choose|s: int, m: int|
                source_mapped(entry, share, front, source, at, s, m);
            assert(source_mapped(entry, share, results, source, at, s, m));
        },
        MapStep::CopySource { own, source, at } => {
            let (s, m) = choose|s: int, m: int|
                source_mapped(entry, share, front, source, at, s, m);
            assert(source_mapped(entry, share, results, source, at, s, m));
        },
        MapStep::WaitForCopy { own, source, at } => {
            let (s, m, c) = choose|s: int, m: int, c: int|
                source_copied(entry, share, front, source, at, s, m, c);
            assert(source_copied(entry, share, results, source, at, s, m, c));
        },
        _ => {
            if copy_done(entry, share, front) {
                let (source, from, s, m, c, w) = choose|
                    source: u64,
                    from: u64,
                    s: int,
                    m: int,
                    c: int,
                    w: int,
                |
                    copied_through(entry, share, front, source, from, s, m, c, w);
                assert(copied_through(entry, share, results, source, from, s, m, c, w));
            }
        },
    }
}

proof fn lemma_copied(entry: MapEntry, share: bool, results: Seq<Option<u64>>)
    ensures
        copy_holds(entry, share, results, map_run(entry, share, results)),
    decreases results.len(),
{
    if results.len() > 0 {
        let front = results.drop_last();
        let n = results.len() - 1;
        let step = map_run(entry, share, front);
        assert(results.take(n) =~= front);
        lemma_source(entry, share, front);
        lemma_copied(entry, share, front);
        lemma_copy_lasts(entry, share, results, step);
        if results.last() is Some {
            match step {
                MapStep::ImportSource { own } => {
                    assert(source_imported(entry, share, results, results.last()->Some_0, n));
                },
                MapStep::MapSource { own, source, at } => {
                    let s = choose|s: int| source_imported(entry, share, front, source, s);
                    lemma_made_earlier(
                        entry,
                        share,
                        results,
                        s,
                        DriverCall::Import { index: entry.index },
                    );
                    assert(source_mapped(entry, share, results, source, at, s, n));
                },
                MapStep::CopySource { own, source, at } => {
                    let (s, m) = choose|s: int, m: int|
                        source_mapped(entry, share, front, source, at, s, m);
                    lemma_copy_lasts_mapped(entry, share, results, source, at, s, m);
                    assert(source_copied(entry, share, results, source, at, s, m, n));
                },
                MapStep::WaitForCopy { own, source, at } => {
                    let (s, m, c) = choose|s: int, m: int, c: int|
                        source_copied(entry, share, front, source, at, s, m, c);
                    lemma_copy_lasts_mapped(entry, share, results, source, at, s, m);
                    lemma_made_earlier(
                        entry,
                        share,
                        results,
                        c,
                        DriverCall::Copy { to: entry.va, from: at, size: entry.size },
                    );
                    assert(copied_through(entry, share, results, source, at, s, m, c, n));
                },
                _ => {},
            }
        }
    }
}

proof fn lemma_copy_lasts_mapped(
    entry: MapEntry,
    share: bool,
    results: Seq<Option<u64>>,
    source: u64,
    from: u64,
    s: int,
    m: int,
)
    requires
        results.len() > 0,
        source_mapped(entry, share, results.drop_last(), source, from, s, m),
    ensures
        source_mapped(entry, share, results, source, from, s, m),
{
    lemma_made_earlier(entry, share, results, s, DriverCall::Import { index: entry.index });
    lemma_made_earlier(
        entry,
        share,
        results,
        m,
        DriverCall::MapAt { va: from, size: entry.size, handle: source },
    );
}

proof fn lemma_restored(entry: MapEntry, share: bool, results: Seq<Option<u64>>)
    ensures
        map_run(entry, share, results) is Private && entry.host_offset is Some ==> exists|i: int|
            made_call(
                entry,
                share,
                results,
                i,
                DriverCall::RestoreHost {
                    index: entry.index,
                    offset: entry.host_offset->Some_0,
                    va: entry.va,
                    size: entry.size,
                },
            ),
    decreases results.len(),
{
    if results.len() > 0 && map_run(entry, share, results) is Private && entry.host_offset is Some {
        let restore = DriverCall::RestoreHost {
            index: entry.index,
            offset: entry.host_offset->Some_0,
            va: entry.va,
            size: entry.size,
        };
        let front = results.drop_last();
        let n = results.len() - 1;
        assert(results.take(n) =~= front);
        lemma_source(entry, share, front);
        if map_run(entry, share, front) is FillFromHost {
            assert(made_call(entry, share, results, n, restore));
        } else {
            lemma_restored(entry, share, front);
            let i = choose|i: int| made_call(entry, share, front, i, restore);
            lemma_made_earlier(entry, share, results, i, restore);
        }
    }
}

/// Every restoration ends after at most seventeen calls.
pub proof fn law_restoration_ends(entry: MapEntry, share: bool, results: Seq<Option<u64>>)
    requires
        results.len() >= 17,
    ensures
        map_call(entry, map_run(entry, share, results)) is None,
{
    lemma_progress(entry, share, results);
}

/// How many calls may still come.
pub(crate) open spec fn calls_left(step: MapStep) -> nat {
    match step {
        MapStep::ShareImport => 17,
        MapStep::ShareMap { shared } => 16,
        MapStep::ShareProtect { shared } => 15,
        MapStep::ShareUnmap { shared } => 14,
        MapStep::ShareDrop { shared } => 13,
        MapStep::ShareForget { shared } => 1,
        MapStep::Create => 12,
        MapStep::MapPrivate { own } => 11,
        MapStep::Abandon { own } => 1,
        MapStep::AccessPrivate { own } => 10,
        MapStep::FillFromHost { own } => 1,
        MapStep::ImportSource { own } => 9,
        MapStep::ReserveSource { own, source } => 8,
        MapStep::MapSource { own, source, at } => 7,
        MapStep::AccessSource { own, source, at } => 6,
        MapStep::CopySource { own, source, at } => 5,
        MapStep::WaitForCopy { own, source, at } => 4,
        MapStep::UnmapSource { own, source, at } => 3,
        MapStep::FreeSource { own, source, at } => 2,
        MapStep::ReleaseSource { own, source } => 1,
        _ => 0,
    }
}

proof fn lemma_progress(entry: MapEntry, share: bool, results: Seq<Option<u64>>)
    ensures
        calls_left(map_run(entry, share, results)) == 0 || calls_left(
            map_run(entry, share, results),
        ) + results.len() <= 17,
    decreases results.len(),
{
    if results.len() > 0 {
        lemma_progress(entry, share, results.drop_last());
    }
}

} // verus!
