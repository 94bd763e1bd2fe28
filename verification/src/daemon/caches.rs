//! Layouts kept for clones that have not connected, snapshots kept for goldens,
//! and module handoffs kept for further workers.
use crate::daemon::modules::MAX_MODULE_HANDOFF_BLOB_BYTES;
use crate::daemon::registry::{
    GoldenRegistry, holds_u32, kindred, same_process, settled_owner, with_owner,
};
use crate::numerals::sat_add;
use vstd::prelude::*;

verus! {

// ---------------------------------------------------------------------------
// Waiting clones
// ---------------------------------------------------------------------------

/// A clone for which the layout of a golden process is kept.
#[derive(Debug, Clone, Copy, PartialEq, Eq, Structural)]
pub struct LayoutWaiter {
    /// Golden process.
    pub token: u64,
    /// Clone.
    pub clone_id: u64,
    /// Process of the clone's machine, zero where it is not known.
    pub vm_pid: u32,
}

/// The clones for which layouts are kept.
#[derive(Debug)]
pub struct LayoutWaiters {
    pub waiters: Vec<LayoutWaiter>,
}

/// Holds of the waiters for other golden processes or of other clones.
pub open spec fn other_waiter(token: u64, clone_id: u64) -> spec_fn(LayoutWaiter) -> bool {
    |w: LayoutWaiter| w.token != token || w.clone_id != clone_id
}

/// Holds of the waiters that stay when a clone connects to a golden process.
pub open spec fn not_served(token: u64, clone_id: u64, kin: Seq<(u64, u64)>) -> spec_fn(
    LayoutWaiter,
) -> bool {
    |w: LayoutWaiter| w.clone_id != clone_id || !kindred(kin, w.token, token)
}

/// Holds of the waiters whose machine runs or is not known.
pub open spec fn may_connect(live: Seq<u32>) -> spec_fn(LayoutWaiter) -> bool {
    |w: LayoutWaiter| w.vm_pid == 0 || live.contains(w.vm_pid)
}

/// Whether some waiter waits for the golden process.
pub open spec fn awaited(v: Seq<LayoutWaiter>, token: u64) -> bool {
    exists|i: int| 0 <= i < v.len() && (#[trigger] v[i]).token == token
}

/// The tokens of `before`, in the order of their first waiters, for which nobody in
/// `after` waits.
pub open spec fn released(before: Seq<LayoutWaiter>, after: Seq<LayoutWaiter>) -> Seq<u64>
    decreases before.len(),
{
    if before.len() == 0 {
        Seq::empty()
    } else {
        let front = released(before.drop_last(), after);
        let t = before.last().token;
        if awaited(after, t) || front.contains(t) {
            front
        } else {
            front.push(t)
        }
    }
}

impl LayoutWaiters {
    /// Whether some waiter waits for the golden process.
    pub fn waits_for(&self, token: u64) -> (r: bool)
        ensures
            r == awaited(self.waiters@, token),
    {
        let mut i: usize = 0;
        while i < self.waiters.len()
            invariant
                i <= self.waiters@.len(),
                forall|j: int| 0 <= j < i ==> (#[trigger] self.waiters@[j]).token != token,
            decreases self.waiters@.len() - i,
        {
            if self.waiters[i].token == token {
                return true;
            }
            i = i + 1;
        }
        false
    }

    /// Keeps a layout without memory for a clone. A golden process whose memory is
    /// held by a snapshot is not such a layout, whatever the host says.
    ///
    /// `metadata_only` tells whether the host keeps the layout as one without
    /// memory; it is asked only where there is no snapshot. Returns whether the
    /// layout is kept.
    pub fn retain_metadata_layout_for_clone(
        &mut self,
        waiter: LayoutWaiter,
        has_snapshot: bool,
        metadata_only: bool,
    ) -> (r: bool)
        ensures
            r == (!has_snapshot && metadata_only),
            final(self).waiters@ == if r {
                old(self).waiters@.filter(other_waiter(waiter.token, waiter.clone_id)).push(waiter)
            } else {
                old(self).waiters@
            },
    {
        if has_snapshot || !metadata_only {
            return false;
        }
        let ghost all = self.waiters@;
        let ghost p = other_waiter(waiter.token, waiter.clone_id);
        let mut kept: Vec<LayoutWaiter> = Vec::new();
        let mut i: usize = 0;
        proof {
            reveal(Seq::filter);
            assert(all.take(0).filter(p) =~= kept@);
        }
        while i < self.waiters.len()
            invariant
                i <= all.len(),
                self.waiters@ == all,
                p == other_waiter(waiter.token, waiter.clone_id),
                kept@ == all.take(i as int).filter(p),
            decreases all.len() - i,
        {
            let w = self.waiters[i];
            proof {
                reveal(Seq::filter);
                assert(all.take(i + 1).drop_last() =~= all.take(i as int));
                assert(all.take(i + 1).last() == w);
            }
            if w.token != waiter.token || w.clone_id != waiter.clone_id {
                kept.push(w);
            }
            i = i + 1;
        }
        proof { assert(all.take(all.len() as int) =~= all); }
        kept.push(waiter);
        self.waiters = kept;
        true
    }

    /// The tokens of `before` for which nobody waits any more.
    fn released_since(&self, before: &Vec<LayoutWaiter>) -> (r: Vec<u64>)
        ensures
            r@ == released(before@, self.waiters@),
    {
        let ghost all = before@;
        let mut r: Vec<u64> = Vec::new();
        let mut i: usize = 0;
        proof { assert(released(all.take(0), self.waiters@) =~= r@); }
        while i < before.len()
            invariant
                i <= all.len(),
                all == before@,
                r@ == released(all.take(i as int), self.waiters@),
            decreases all.len() - i,
        {
            let t = before[i].token;
            proof {
                assert(all.take(i + 1).drop_last() =~= all.take(i as int));
                assert(all.take(i + 1).last() == all[i as int]);
            }
            if !self.waits_for(t) && !holds_u64(&r, t) {
                r.push(t);
            }
            i = i + 1;
        }
        proof { assert(all.take(all.len() as int) =~= all); }
        r
    }

    /// A clone has connected to a golden process: it waits no longer. Returns the
    /// layouts that nobody waits for any more.
    pub fn complete(&mut self, token: u64, clone_id: u64, kin: &[(u64, u64)]) -> (r: Vec<u64>)
        ensures
            final(self).waiters@ == old(self).waiters@.filter(not_served(token, clone_id, kin@)),
            r@ == released(old(self).waiters@, final(self).waiters@),
    {
        let ghost all = self.waiters@;
        let ghost p = not_served(token, clone_id, kin@);
        let mut before: Vec<LayoutWaiter> = Vec::new();
        core::mem::swap(&mut self.waiters, &mut before);
        let mut i: usize = 0;
        proof {
            reveal(Seq::filter);
            assert(all.take(0).filter(p) =~= self.waiters@);
        }
        while i < before.len()
            invariant
                i <= all.len(),
                before@ == all,
                p == not_served(token, clone_id, kin@),
                self.waiters@ == all.take(i as int).filter(p),
            decreases all.len() - i,
        {
            let w = before[i];
            proof {
                reveal(Seq::filter);
                assert(all.take(i + 1).drop_last() =~= all.take(i as int));
                assert(all.take(i + 1).last() == w);
            }
            if w.clone_id != clone_id || !same_process(kin, w.token, token) {
                self.waiters.push(w);
            }
            i = i + 1;
        }
        proof { assert(all.take(all.len() as int) =~= all); }
        self.released_since(&before)
    }

    /// Drops the clones whose machines are gone. Returns the layouts that nobody
    /// waits for any more.
    pub fn prune(&mut self, live: &[u32]) -> (r: Vec<u64>)
        ensures
            final(self).waiters@ == old(self).waiters@.filter(may_connect(live@)),
            r@ == released(old(self).waiters@, final(self).waiters@),
    {
        let ghost all = self.waiters@;
        let ghost p = may_connect(live@);
        let mut before: Vec<LayoutWaiter> = Vec::new();
        core::mem::swap(&mut self.waiters, &mut before);
        let mut i: usize = 0;
        proof {
            reveal(Seq::filter);
            assert(all.take(0).filter(p) =~= self.waiters@);
        }
        while i < before.len()
            invariant
                i <= all.len(),
                before@ == all,
                p == may_connect(live@),
                self.waiters@ == all.take(i as int).filter(p),
            decreases all.len() - i,
        {
            let w = before[i];
            proof {
                reveal(Seq::filter);
                assert(all.take(i + 1).drop_last() =~= all.take(i as int));
                assert(all.take(i + 1).last() == w);
            }
            if w.vm_pid == 0 || holds_u32(live, w.vm_pid) {
                self.waiters.push(w);
            }
            i = i + 1;
        }
        proof { assert(all.take(all.len() as int) =~= all); }
        self.released_since(&before)
    }
}

/// The table of waiting clones, as a daemon starts with it.
pub fn metadata_layout_waiters() -> (r: LayoutWaiters)
    ensures
        r.waiters@.len() == 0,
{
    LayoutWaiters { waiters: Vec::new() }
}

/// Whether `v` holds `x`.
pub fn holds_u64(v: &[u64], x: u64) -> (r: bool)
    ensures
        r == v@.contains(x),
{
    let mut i: usize = 0;
    while i < v.len()
        invariant
            i <= v@.len(),
            forall|j: int| 0 <= j < i ==> v@[j] != x,
        decreases v@.len() - i,
    {
        if v[i] == x {
            return true;
        }
        i = i + 1;
    }
    false
}

// ---------------------------------------------------------------------------
// Snapshots
// ---------------------------------------------------------------------------

/// A host snapshot that is kept for a golden process.
#[derive(Debug, Clone, Copy, PartialEq, Eq, Structural)]
pub struct SnapshotEntry {
    /// Golden process.
    pub token: u64,
    /// Machine of the golden, zero where none is bound.
    pub golden_pid: u32,
    /// Size of the snapshot.
    pub host_bytes: u64,
}

/// The host snapshots.
#[derive(Debug)]
pub struct SnapshotCache {
    pub entries: Vec<SnapshotEntry>,
}

/// What becomes of a snapshot.
#[derive(Debug, Clone, Copy, PartialEq, Eq, Structural)]
pub enum SnapshotFate {
    /// Its golden is not bound yet.
    Unbound,
    /// Its golden runs.
    Live,
    /// Its golden is gone, but workers still depend on it.
    Needed,
    /// Its golden is gone and nobody needs it.
    Expired,
}

/// What becomes of a snapshot, given the processes that run and the golden
/// processes that have workers.
pub open spec fn snapshot_fate(
    s: SnapshotEntry,
    live: Seq<u32>,
    workers: Seq<u64>,
    kin: Seq<(u64, u64)>,
) -> SnapshotFate {
    if s.golden_pid == 0 {
        SnapshotFate::Unbound
    } else if live.contains(s.golden_pid) {
        SnapshotFate::Live
    } else if exists|i: int|
        0 <= i < workers.len() && kindred(kin, #[trigger] workers[i], s.token) {
        SnapshotFate::Needed
    } else {
        SnapshotFate::Expired
    }
}

/// Holds of the snapshots that are kept.
pub open spec fn snapshot_kept(live: Seq<u32>, workers: Seq<u64>, kin: Seq<(u64, u64)>) -> spec_fn(
    SnapshotEntry,
) -> bool {
    |s: SnapshotEntry| snapshot_fate(s, live, workers, kin) != SnapshotFate::Expired
}

/// Holds of the snapshots that go.
pub open spec fn snapshot_expired(live: Seq<u32>, workers: Seq<u64>, kin: Seq<(u64, u64)>) -> spec_fn(
    SnapshotEntry,
) -> bool {
    |s: SnapshotEntry| snapshot_fate(s, live, workers, kin) == SnapshotFate::Expired
}

/// Holds of the snapshots whose golden runs.
pub open spec fn snapshot_live(live: Seq<u32>, workers: Seq<u64>, kin: Seq<(u64, u64)>) -> spec_fn(
    SnapshotEntry,
) -> bool {
    |s: SnapshotEntry| snapshot_fate(s, live, workers, kin) == SnapshotFate::Live
}

/// The position, from `i` on, of the snapshot under a token.
pub open spec fn snapshot_at(v: Seq<SnapshotEntry>, token: u64, i: int) -> Option<int>
    decreases v.len() - i,
{
    if i >= v.len() {
        None
    } else if v[i].token == token {
        Some(i)
    } else {
        snapshot_at(v, token, i + 1)
    }
}

/// The position, from `i` on, of a snapshot under a token of the same process.
pub open spec fn kin_snapshot_at(
    v: Seq<SnapshotEntry>,
    token: u64,
    kin: Seq<(u64, u64)>,
    i: int,
) -> Option<int>
    decreases v.len() - i,
{
    if i >= v.len() {
        None
    } else if kindred(kin, v[i].token, token) {
        Some(i)
    } else {
        kin_snapshot_at(v, token, kin, i + 1)
    }
}

/// The position of the snapshot of a golden process: under the token itself if
/// there is one, else under a token of the same process.
pub open spec fn snapshot_for(v: Seq<SnapshotEntry>, token: u64, kin: Seq<(u64, u64)>) -> Option<
    int,
> {
    match snapshot_at(v, token, 0) {
        Some(i) => Some(i),
        None => kin_snapshot_at(v, token, kin, 0),
    }
}

fn fate_of(s: &SnapshotEntry, live: &[u32], workers: &[u64], kin: &[(u64, u64)]) -> (r: SnapshotFate)
    ensures
        r == snapshot_fate(*s, live@, workers@, kin@),
{
    if s.golden_pid == 0 {
        return SnapshotFate::Unbound;
    }
    if holds_u32(live, s.golden_pid) {
        return SnapshotFate::Live;
    }
    let mut i: usize = 0;
    while i < workers.len()
        invariant
            i <= workers@.len(),
            s.golden_pid != 0,
            !live@.contains(s.golden_pid),
            forall|j: int| 0 <= j < i ==> !kindred(kin@, #[trigger] workers@[j], s.token),
        decreases workers@.len() - i,
    {
        if same_process(kin, workers[i], s.token) {
            assert(kindred(kin@, workers@[i as int], s.token));
            return SnapshotFate::Needed;
        }
        i = i + 1;
    }
    SnapshotFate::Expired
}

/// Snapshots after that of a golden process was bound to its machine; the first binding
/// stays.
pub open spec fn bound_to(
    v: Seq<SnapshotEntry>,
    token: u64,
    pid: u32,
    kin: Seq<(u64, u64)>,
) -> Seq<SnapshotEntry> {
    match snapshot_for(v, token, kin) {
        Some(i) if v[i].golden_pid == 0 => v.update(
            i,
            SnapshotEntry { golden_pid: pid, ..v[i] },
        ),
        _ => v,
    }
}

/// What became of a snapshot that was to be kept.
#[derive(Debug, Clone, Copy, PartialEq, Eq, Structural)]
pub enum Retention {
    /// It is kept for the machine that owns the golden process.
    Bound(u32),
    /// Nobody knows whose it is; it is not kept.
    Ambiguous,
    /// The golden process is gone; it is not kept.
    Gone,
}

impl SnapshotCache {
    /// No snapshots.
    pub fn new() -> (r: Self)
        ensures
            r.entries@.len() == 0,
    {
        SnapshotCache { entries: Vec::new() }
    }

    /// The position of the snapshot of a golden process.
    pub fn find(&self, token: u64, kin: &[(u64, u64)]) -> (r: Option<usize>)
        ensures
            match r {
                Some(i) => snapshot_for(self.entries@, token, kin@) == Some(i as int) && i
                    < self.entries@.len(),
                None => snapshot_for(self.entries@, token, kin@) is None,
            },
    {
        let mut i: usize = 0;
        while i < self.entries.len()
            invariant
                i <= self.entries@.len(),
                snapshot_at(self.entries@, token, 0) == snapshot_at(self.entries@, token, i as int),
            decreases self.entries@.len() - i,
        {
            if self.entries[i].token == token {
                return Some(i);
            }
            i = i + 1;
        }
        let mut j: usize = 0;
        while j < self.entries.len()
            invariant
                j <= self.entries@.len(),
                snapshot_at(self.entries@, token, 0) is None,
                kin_snapshot_at(self.entries@, token, kin@, 0) == kin_snapshot_at(
                    self.entries@,
                    token,
                    kin@,
                    j as int,
                ),
            decreases self.entries@.len() - j,
        {
            if same_process(kin, self.entries[j].token, token) {
                return Some(j);
            }
            j = j + 1;
        }
        None
    }

    /// Binds the snapshot of a golden process to its machine; the first binding stays.
    pub fn bind_host_snapshot_owner(&mut self, token: u64, pid: u32, kin: &[(u64, u64)])
        ensures
            final(self).entries@ == bound_to(old(self).entries@, token, pid, kin@),
    {
        match self.find(token, kin) {
            Some(i) => {
                let e = self.entries[i];
                if e.golden_pid == 0 {
                    self.entries[i] = SnapshotEntry {
                        token: e.token,
                        golden_pid: pid,
                        host_bytes: e.host_bytes,
                    };
                }
            },
            None => {},
        }
    }

    /// Keeps a snapshot unless the golden process has one; returns whether it did.
    pub fn retain(&mut self, token: u64, host_bytes: u64, kin: &[(u64, u64)]) -> (r: bool)
        ensures
            r == snapshot_for(old(self).entries@, token, kin@) is None,
            final(self).entries@ == if r {
                old(self).entries@.push(SnapshotEntry { token, golden_pid: 0, host_bytes })
            } else {
                old(self).entries@
            },
    {
        if self.find(token, kin).is_some() {
            return false;
        }
        self.entries.push(SnapshotEntry { token, golden_pid: 0, host_bytes });
        true
    }

    /// Forgets the snapshot that is kept under exactly this token; it was kept before
    /// anybody was known to own it.
    pub fn forget(&mut self, token: u64)
        ensures
            final(self).entries@ == old(self).entries@.filter(
                |e: SnapshotEntry| e.token != token,
            ),
    {
        let ghost all = self.entries@;
        let ghost p = |e: SnapshotEntry| e.token != token;
        let mut kept: Vec<SnapshotEntry> = Vec::new();
        let mut i: usize = 0;
        proof {
            reveal(Seq::filter);
            assert(all.take(0).filter(p) =~= kept@);
        }
        while i < self.entries.len()
            invariant
                i <= all.len(),
                self.entries@ == all,
                p == (|e: SnapshotEntry| e.token != token),
                kept@ == all.take(i as int).filter(p),
            decreases all.len() - i,
        {
            let e = self.entries[i];
            proof {
                reveal(Seq::filter);
                assert(all.take(i + 1).drop_last() =~= all.take(i as int));
                assert(all.take(i + 1).last() == all[i as int]);
            }
            if e.token != token {
                kept.push(e);
            }
            i = i + 1;
        }
        proof { assert(all.take(all.len() as int) =~= all); }
        self.entries = kept;
    }

    /// Drops the snapshots that nobody needs; returns how many belong to a running
    /// golden and which were dropped.
    pub fn live_host_snapshot_count(
        &mut self,
        live: &[u32],
        workers: &[u64],
        kin: &[(u64, u64)],
    ) -> (r: (usize, Vec<SnapshotEntry>))
        ensures
            final(self).entries@ == old(self).entries@.filter(snapshot_kept(live@, workers@, kin@)),
            r.0 == old(self).entries@.filter(snapshot_live(live@, workers@, kin@)).len(),
            r.1@ == old(self).entries@.filter(snapshot_expired(live@, workers@, kin@)),
    {
        let ghost all = self.entries@;
        let ghost p = snapshot_kept(live@, workers@, kin@);
        let ghost q = snapshot_expired(live@, workers@, kin@);
        let ghost l = snapshot_live(live@, workers@, kin@);
        let mut kept: Vec<SnapshotEntry> = Vec::new();
        let mut gone: Vec<SnapshotEntry> = Vec::new();
        let mut n: usize = 0;
        let mut i: usize = 0;
        proof {
            reveal(Seq::filter);
            assert(all.take(0).filter(p) =~= kept@);
            assert(all.take(0).filter(q) =~= gone@);
            assert(all.take(0).filter(l) =~= Seq::empty());
        }
        while i < self.entries.len()
            invariant
                i <= all.len(),
                self.entries@ == all,
                p == snapshot_kept(live@, workers@, kin@),
                q == snapshot_expired(live@, workers@, kin@),
                l == snapshot_live(live@, workers@, kin@),
                kept@ == all.take(i as int).filter(p),
                gone@ == all.take(i as int).filter(q),
                n <= i,
                n == all.take(i as int).filter(l).len(),
            decreases all.len() - i,
        {
            let e = self.entries[i];
            proof {
                reveal(Seq::filter);
                assert(all.take(i + 1).drop_last() =~= all.take(i as int));
                assert(all.take(i + 1).last() == e);
            }
            match fate_of(&e, live, workers, kin) {
                SnapshotFate::Expired => gone.push(e),
                SnapshotFate::Live => {
                    n = n + 1;
                    kept.push(e);
                },
                _ => kept.push(e),
            }
            i = i + 1;
        }
        self.entries = kept;
        proof { assert(all.take(all.len() as int) =~= all); }
        (n, gone)
    }
}

// ---------------------------------------------------------------------------
// Cached handoffs
// ---------------------------------------------------------------------------

/// Keeps a snapshot for further workers of a golden process, if its layout can be kept and
/// it is known whose it is. One that is kept already stays. `layout_kept` tells whether the
/// host keeps the layout; it is asked only where there is no snapshot.
pub fn retain_host_snapshot(
    cache: &mut SnapshotCache,
    goldens: &mut GoldenRegistry,
    token: u64,
    host_bytes: u64,
    kin: &[(u64, u64)],
    layout_kept: bool,
) -> (r: Retention)
    ensures
        ({
            let before = old(cache).entries@;
            let known = snapshot_for(before, token, kin@) is Some;
            let entries = if known {
                before
            } else {
                before.push(SnapshotEntry { token, golden_pid: 0, host_bytes })
            };
            let owner = settled_owner(old(goldens).connections@, old(goldens).owners@, token, kin@);
            &&& final(goldens).connections@ == old(goldens).connections@
            &&& if !known && !layout_kept {
                &&& r == Retention::Gone
                &&& final(cache).entries@ == before
                &&& final(goldens).owners@ == old(goldens).owners@
            } else {
                match owner {
                    Some(pid) => {
                        &&& r == Retention::Bound(pid)
                        &&& final(cache).entries@ == bound_to(entries, token, pid, kin@)
                        &&& final(goldens).owners@ == with_owner(old(goldens).owners@, token, pid)
                    },
                    None => {
                        &&& r == Retention::Ambiguous
                        &&& final(cache).entries@ == entries.filter(
                            |e: SnapshotEntry| e.token != token,
                        )
                        &&& final(goldens).owners@ == old(goldens).owners@
                    },
                }
            }
        }),
{
    if cache.find(token, kin).is_none() {
        if !layout_kept {
            return Retention::Gone;
        }
        cache.retain(token, host_bytes, kin);
    }
    match goldens.settle_owner(token, kin) {
        Some(pid) => {
            cache.bind_host_snapshot_owner(token, pid, kin);
            Retention::Bound(pid)
        },
        None => {
            cache.forget(token);
            Retention::Ambiguous
        },
    }
}

/// Most cached module handoffs.
pub const MAX_CACHED_MODULE_BLOBS: usize = 32;

/// A module handoff that is kept for further workers.
#[derive(Debug, Clone, Copy, PartialEq, Eq, Structural)]
pub struct BlobEntry {
    /// Golden process.
    pub token: u64,
    /// State of its modules that the handoff describes.
    pub revision: u64,
    /// Size of the message.
    pub bytes: u64,
    /// Size of the image store.
    pub image_bytes: u64,
}

/// All bytes of an entry.
pub open spec fn blob_bytes(e: BlobEntry) -> u64 {
    sat_add(e.bytes, e.image_bytes)
}

/// All bytes of the entries.
pub open spec fn blobs_bytes(v: Seq<BlobEntry>) -> u64
    decreases v.len(),
{
    if v.len() == 0 {
        0
    } else {
        sat_add(blobs_bytes(v.drop_last()), blob_bytes(v.last()))
    }
}

/// Holds of the entries that describe the current state; `current` gives the state
/// of each golden process that there is.
pub open spec fn up_to_date(current: Seq<(u64, u64)>) -> spec_fn(BlobEntry) -> bool {
    |e: BlobEntry| current.contains((e.token, e.revision))
}

/// Drops the entries that no longer describe their golden process.
pub fn prune_module_blob_cache(v: &[BlobEntry], current: &[(u64, u64)]) -> (r: Vec<BlobEntry>)
    ensures
        r@ == v@.filter(up_to_date(current@)),
{
    let ghost p = up_to_date(current@);
    let mut r: Vec<BlobEntry> = Vec::new();
    let mut i: usize = 0;
    proof {
        reveal(Seq::filter);
        assert(v@.take(0).filter(p) =~= r@);
    }
    while i < v.len()
        invariant
            i <= v@.len(),
            p == up_to_date(current@),
            r@ == v@.take(i as int).filter(p),
        decreases v@.len() - i,
    {
        proof {
            reveal(Seq::filter);
            assert(v@.take(i + 1).drop_last() =~= v@.take(i as int));
            assert(v@.take(i + 1).last() == v@[i as int]);
        }
        if has_revision(current, v[i].token, v[i].revision) {
            r.push(v[i]);
        }
        i = i + 1;
    }
    proof { assert(v@.take(v@.len() as int) =~= v@); }
    r
}

fn has_revision(current: &[(u64, u64)], token: u64, revision: u64) -> (r: bool)
    ensures
        r == current@.contains((token, revision)),
{
    let mut i: usize = 0;
    while i < current.len()
        invariant
            i <= current@.len(),
            forall|j: int| 0 <= j < i ==> current@[j] != (token, revision),
        decreases current@.len() - i,
    {
        if current[i].0 == token && current[i].1 == revision {
            assert(current@[i as int] == (token, revision));
            return true;
        }
        i = i + 1;
    }
    false
}

/// The first entry from `i` on under exactly this token.
pub open spec fn blob_at(v: Seq<BlobEntry>, token: u64, i: int) -> Option<int>
    decreases v.len() - i,
{
    if i >= v.len() {
        None
    } else if v[i].token == token {
        Some(i)
    } else {
        blob_at(v, token, i + 1)
    }
}

/// The first entry from `i` on of the same golden process.
pub open spec fn kin_blob(
    v: Seq<BlobEntry>,
    token: u64,
    kin: Seq<(u64, u64)>,
    i: int,
) -> Option<int>
    decreases v.len() - i,
{
    if i >= v.len() {
        None
    } else if kindred(kin, v[i].token, token) {
        Some(i)
    } else {
        kin_blob(v, token, kin, i + 1)
    }
}

/// The handoff of a golden process: the one under its token, and otherwise one of the
/// same process.
pub open spec fn blob_for(v: Seq<BlobEntry>, token: u64, kin: Seq<(u64, u64)>) -> Option<int> {
    match blob_at(v, token, 0) {
        Some(i) => Some(i),
        None => kin_blob(v, token, kin, 0),
    }
}

/// The position of the handoff of a golden process.
pub fn cached_module_blob(v: &[BlobEntry], token: u64, kin: &[(u64, u64)]) -> (r: Option<usize>)
    ensures
        match r {
            Some(i) => blob_for(v@, token, kin@) == Some(i as int) && i < v@.len(),
            None => blob_for(v@, token, kin@) is None,
        },
{
    let mut i: usize = 0;
    while i < v.len()
        invariant
            i <= v@.len(),
            blob_at(v@, token, 0) == blob_at(v@, token, i as int),
        decreases v@.len() - i,
    {
        if v[i].token == token {
            return Some(i);
        }
        i = i + 1;
    }
    let mut j: usize = 0;
    while j < v.len()
        invariant
            j <= v@.len(),
            blob_at(v@, token, 0) is None,
            kin_blob(v@, token, kin@, 0) == kin_blob(v@, token, kin@, j as int),
        decreases v@.len() - j,
    {
        if same_process(kin, v[j].token, token) {
            return Some(j);
        }
        j = j + 1;
    }
    None
}

/// Whether a fresh handoff is kept: it describes the current state, and neither the
/// number of entries nor their bytes go over the limit.
pub fn keeps_blob(v: &[BlobEntry], blob: &BlobEntry, current: &[(u64, u64)]) -> (r: bool)
    ensures
        r == (current@.contains((blob.token, blob.revision)) && v@.len() < MAX_CACHED_MODULE_BLOBS
            && sat_add(blobs_bytes(v@), blob_bytes(*blob)) <= MAX_MODULE_HANDOFF_BLOB_BYTES),
{
    let mut total: u64 = 0;
    let mut i: usize = 0;
    proof { assert(v@.take(0) =~= Seq::empty()); }
    while i < v.len()
        invariant
            i <= v@.len(),
            total == blobs_bytes(v@.take(i as int)),
        decreases v@.len() - i,
    {
        proof {
            assert(v@.take(i + 1).drop_last() =~= v@.take(i as int));
            assert(v@.take(i + 1).last() == v@[i as int]);
        }
        total = total.saturating_add(v[i].bytes.saturating_add(v[i].image_bytes));
        i = i + 1;
    }
    proof { assert(v@.take(v@.len() as int) =~= v@); }
    has_revision(current, blob.token, blob.revision) && v.len() < MAX_CACHED_MODULE_BLOBS
        && total.saturating_add(blob.bytes.saturating_add(blob.image_bytes))
        <= MAX_MODULE_HANDOFF_BLOB_BYTES
}

/// What comes next in capturing state that may change meanwhile.
#[derive(Debug, Clone, Copy, PartialEq, Eq, Structural)]
pub enum CaptureStep {
    /// What was captured is consistent.
    Done,
    /// Capture again.
    Again,
    /// It changed too often.
    GiveUp,
}

/// Most attempts at a consistent capture.
pub const CAPTURE_ATTEMPTS: u32 = 3;

/// Whether a capture was consistent: the revision is the same before and after it.
/// `attempts` counts the captures that were not.
pub fn capture_step(before: u64, after: Option<u64>, attempts: u32) -> (r: CaptureStep)
    ensures
        r == if after == Some(before) {
            CaptureStep::Done
        } else if attempts + 1 >= CAPTURE_ATTEMPTS {
            CaptureStep::GiveUp
        } else {
            CaptureStep::Again
        },
{
    let same = match after {
        Some(a) => a == before,
        None => false,
    };
    if same {
        CaptureStep::Done
    } else if attempts >= CAPTURE_ATTEMPTS - 1 {
        CaptureStep::GiveUp
    } else {
        CaptureStep::Again
    }
}

// ---------------------------------------------------------------------------
// What the caches guarantee
// ---------------------------------------------------------------------------

/// A layout is released only when nobody waits for it, and only once.
pub proof fn law_released_layouts_are_unawaited(
    before: Seq<LayoutWaiter>,
    after: Seq<LayoutWaiter>,
    token: u64,
)
    ensures
        released(before, after).contains(token) <==> awaited(before, token) && !awaited(
            after,
            token,
        ),
        released(before, after).no_duplicates(),
    decreases before.len(),
{
    if before.len() > 0 {
        let front = before.drop_last();
        law_released_layouts_are_unawaited(front, after, token);
        let x = before.last();
        let r = released(front, after);
        assert(before[before.len() - 1] == x);
        assert(awaited(before, token) <==> awaited(front, token) || x.token == token) by {
            if awaited(front, token) {
                let i = choose|i: int| 0 <= i < front.len() && (#[trigger] front[i]).token == token;
                assert(before[i].token == token);
            }
            if awaited(before, token) {
                let i = choose|i: int|
                    0 <= i < before.len() && (#[trigger] before[i]).token == token;
                if i < front.len() {
                    assert(front[i].token == token);
                }
            }
        }
        if !awaited(after, x.token) && !r.contains(x.token) {
            let all = r.push(x.token);
            assert(all.contains(token) <==> r.contains(token) || x.token == token) by {
                if r.contains(token) {
                    let i = choose|i: int| 0 <= i < r.len() && r[i] == token;
                    assert(all[i] == token);
                }
                assert(all[r.len() as int] == x.token);
                if all.contains(token) {
                    let i = choose|i: int| 0 <= i < all.len() && all[i] == token;
                    if i < r.len() {
                        assert(r[i] == token);
                    }
                }
            }
            assert(all.no_duplicates()) by {
                assert forall|i: int, j: int|
                    0 <= i < all.len() && 0 <= j < all.len() && i != j implies all[i] != all[j] by {
                    if i == r.len() {
                        assert(r.contains(r[j]));
                    }
                    if j == r.len() {
                        assert(r.contains(r[i]));
                    }
                }
            }
        }
    }
}

/// Keeping a handoff never takes the cache over its limits.
pub proof fn law_cache_stays_within_limits(v: Seq<BlobEntry>, blob: BlobEntry)
    requires
        v.len() < MAX_CACHED_MODULE_BLOBS,
        sat_add(blobs_bytes(v), blob_bytes(blob)) <= MAX_MODULE_HANDOFF_BLOB_BYTES,
    ensures
        v.push(blob).len() <= MAX_CACHED_MODULE_BLOBS,
        blobs_bytes(v.push(blob)) <= MAX_MODULE_HANDOFF_BLOB_BYTES,
{
    assert(v.push(blob).drop_last() =~= v);
}

} // verus!
