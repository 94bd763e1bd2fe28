//! What the daemon remembers of workers, goldens, waiting clones, snapshots and
//! cached handoffs.
//!
//! Tokens name golden processes; two tokens of one process are kin. Which are is
//! asked of the CUDA host and handed in as pairs.
use crate::copying::opt_str;
use crate::daemon::policy::{golden_eviction_enabled, switch};
use vstd::prelude::*;

verus! {

/// Two tokens name the same process.
pub open spec fn kindred(kin: Seq<(u64, u64)>, a: u64, b: u64) -> bool {
    a == b || kin.contains((a, b))
}

/// Whether two tokens name the same process.
pub fn same_process(kin: &[(u64, u64)], a: u64, b: u64) -> (r: bool)
    ensures
        r == kindred(kin@, a, b),
{
    if a == b {
        return true;
    }
    let mut i: usize = 0;
    while i < kin.len()
        invariant
            i <= kin@.len(),
            forall|j: int| 0 <= j < i ==> kin@[j] != (a, b),
        decreases kin@.len() - i,
    {
        if kin[i].0 == a && kin[i].1 == b {
            assert(kin@[i as int] == (a, b));
            return true;
        }
        i = i + 1;
    }
    false
}

/// Whether `v` holds `x`.
pub fn holds_u32(v: &[u32], x: u32) -> (r: bool)
    ensures
        r == v@.contains(x),
{
    let mut i: usize = 0;
    while i < v.len()
        invariant
            i <= v@.len(),
            forall|j: int| 0 <= j < i ==> v@[j] != x,
        decreases v@.len() - i,
    {
        if v[i] == x {
            return true;
        }
        i = i + 1;
    }
    false
}

// ---------------------------------------------------------------------------
// Workers
// ---------------------------------------------------------------------------

/// One clone worker.
#[derive(Debug, Clone, Copy, PartialEq, Eq, Structural)]
pub struct WorkerEntry {
    /// Golden process.
    pub token: u64,
    /// Clone.
    pub clone_id: u64,
    /// Process of the worker.
    pub pid: u32,
    /// Descriptor of its control channel.
    pub control: i32,
}

/// The workers, one for each golden process and clone.
#[derive(Debug)]
pub struct WorkerRegistry {
    pub entries: Vec<WorkerEntry>,
}

/// No two entries are for the same golden process and clone.
pub open spec fn one_per_clone(v: Seq<WorkerEntry>) -> bool {
    forall|i: int, j: int|
        #![trigger v[i], v[j]]
        0 <= i < v.len() && 0 <= j < v.len() && v[i].token == v[j].token && v[i].clone_id
            == v[j].clone_id ==> i == j
}

/// Holds of the entries for another golden process or clone.
pub open spec fn other_worker(token: u64, clone_id: u64) -> spec_fn(WorkerEntry) -> bool {
    |e: WorkerEntry| e.token != token || e.clone_id != clone_id
}

/// Holds of the entries whose worker runs.
pub open spec fn running(live: Seq<u32>) -> spec_fn(WorkerEntry) -> bool {
    |e: WorkerEntry| live.contains(e.pid)
}

/// Holds of the entries whose worker does not run.
pub open spec fn not_running(live: Seq<u32>) -> spec_fn(WorkerEntry) -> bool {
    |e: WorkerEntry| !live.contains(e.pid)
}

/// The entries of a clone that are marked live.
pub open spec fn live_of_clone(v: Seq<WorkerEntry>, clone_id: u64, live: Seq<bool>) -> Seq<
    WorkerEntry,
>
    decreases v.len(),
{
    if v.len() == 0 {
        Seq::empty()
    } else {
        let front = live_of_clone(v.drop_last(), clone_id, live);
        if v.last().clone_id == clone_id && live[v.len() - 1] {
            front.push(v.last())
        } else {
            front
        }
    }
}

/// The one live worker of a clone: none, exactly one, or too many to choose from.
pub open spec fn unique_worker(found: Seq<WorkerEntry>) -> Result<Option<(u32, i32)>, usize> {
    if found.len() == 0 {
        Ok(None)
    } else if found.len() == 1 {
        Ok(Some((found[0].pid, found[0].control)))
    } else {
        Err(found.len() as usize)
    }
}

impl WorkerRegistry {
    /// Each golden process and clone has at most one entry.
    pub open spec fn wf(&self) -> bool {
        one_per_clone(self.entries@)
    }

    /// No workers.
    pub fn new() -> (r: Self)
        ensures
            r.wf(),
            r.entries@.len() == 0,
    {
        WorkerRegistry { entries: Vec::new() }
    }

    /// The position of the worker of a golden process and clone.
    pub fn find(&self, token: u64, clone_id: u64) -> (r: Option<usize>)
        ensures
            match r {
                Some(i) => i < self.entries@.len() && self.entries@[i as int].token == token
                    && self.entries@[i as int].clone_id == clone_id,
                None => forall|i: int|
                    0 <= i < self.entries@.len() ==> !((#[trigger] self.entries@[i]).token == token
                        && self.entries@[i].clone_id == clone_id),
            },
    {
        let mut i: usize = 0;
        while i < self.entries.len()
            invariant
                i <= self.entries@.len(),
                forall|j: int|
                    0 <= j < i ==> !((#[trigger] self.entries@[j]).token == token
                        && self.entries@[j].clone_id == clone_id),
            decreases self.entries@.len() - i,
        {
            if self.entries[i].token == token && self.entries[i].clone_id == clone_id {
                return Some(i);
            }
            i = i + 1;
        }
        None
    }

    /// Forgets the worker of a golden process and clone.
    pub fn forget(&mut self, token: u64, clone_id: u64)
        requires
            old(self).wf(),
        ensures
            final(self).wf(),
            final(self).entries@ == old(self).entries@.filter(other_worker(token, clone_id)),
    {
        let ghost all = self.entries@;
        let ghost p = other_worker(token, clone_id);
        match self.find(token, clone_id) {
            Some(i) => {
                self.entries.remove(i);
                proof {
                    assert(self.entries@ =~= all.remove(i as int));
                    lemma_remove_one(all, p, i as int);
                    lemma_filter_workers(all, p);
                }
            },
            None => {
                proof { lemma_keep_all(all, p); }
            },
        }
    }

    /// Registers a worker, in place of an earlier one.
    pub fn register(&mut self, entry: WorkerEntry)
        requires
            old(self).wf(),
        ensures
            final(self).wf(),
            final(self).entries@ == old(self).entries@.filter(
                other_worker(entry.token, entry.clone_id),
            ).push(entry),
    {
        let ghost all = self.entries@;
        let ghost p = other_worker(entry.token, entry.clone_id);
        self.forget(entry.token, entry.clone_id);
        let ghost kept = self.entries@;
        self.entries.push(entry);
        proof {
            lemma_filter_workers(all, p);
            let now = self.entries@;
            assert forall|i: int, j: int|
                #![trigger now[i], now[j]]
                0 <= i < now.len() && 0 <= j < now.len() && now[i].token == now[j].token
                    && now[i].clone_id == now[j].clone_id implies i == j by {
                if i < kept.len() {
                    assert(now[i] == kept[i]);
                    assert(p(kept[i]));
                }
                if j < kept.len() {
                    assert(now[j] == kept[j]);
                    assert(p(kept[j]));
                }
            }
        }
    }

    /// Drops the workers that no longer run; returns how many are left and the
    /// control channels of those that went.
    pub fn live_clone_worker_count(&mut self, live: &[u32]) -> (r: (usize, Vec<i32>))
        requires
            old(self).wf(),
        ensures
            final(self).wf(),
            final(self).entries@ == old(self).entries@.filter(running(live@)),
            r.0 == final(self).entries@.len(),
            r.1@ == old(self).entries@.filter(not_running(live@)).map_values(
                |e: WorkerEntry| e.control,
            ),
    {
        let ghost all = self.entries@;
        let ghost p = running(live@);
        let ghost q = not_running(live@);
        let mut kept: Vec<WorkerEntry> = Vec::new();
        let mut closed: Vec<i32> = Vec::new();
        let mut i: usize = 0;
        proof {
            reveal(Seq::filter);
            assert(all.take(0).filter(p) =~= kept@);
            assert(all.take(0).filter(q).map_values(|e: WorkerEntry| e.control) =~= closed@);
        }
        while i < self.entries.len()
            invariant
                i <= all.len(),
                self.entries@ == all,
                p == running(live@),
                q == not_running(live@),
                kept@ == all.take(i as int).filter(p),
                closed@ == all.take(i as int).filter(q).map_values(|e: WorkerEntry| e.control),
            decreases all.len() - i,
        {
            let e = self.entries[i];
            proof {
                reveal(Seq::filter);
                assert(all.take(i + 1).drop_last() =~= all.take(i as int));
                assert(all.take(i + 1).last() == e);
            }
            if holds_u32(live, e.pid) {
                kept.push(e);
            } else {
                closed.push(e.control);
            }
            proof {
                assert(all.take(i + 1).filter(q).map_values(|e: WorkerEntry| e.control)
                    =~= closed@);
            }
            i = i + 1;
        }
        self.entries = kept;
        proof {
            assert(all.take(all.len() as int) =~= all);
            lemma_filter_workers(all, p);
        }
        (self.entries.len(), closed)
    }

    /// The one live worker of a clone, of whatever golden process: none, exactly
    /// one, or the number of those that cannot be told apart.
    pub fn unique_live_clone_worker<F: Fn(u32) -> bool>(&self, clone_id: u64, is_live: F) -> (r:
        Result<Option<(u32, i32)>, usize>)
        requires
            forall|pid: u32| call_requires(is_live, (pid,)),
        ensures
            exists|live: Seq<bool>|
                live.len() == self.entries@.len() && (forall|i: int|
                    0 <= i < live.len() && (#[trigger] self.entries@[i]).clone_id == clone_id
                        ==> call_ensures(is_live, (self.entries@[i].pid,), live[i])) && r
                    == #[trigger] unique_worker(live_of_clone(self.entries@, clone_id, live)),
    {
        let ghost all = self.entries@;
        let mut found: Vec<WorkerEntry> = Vec::new();
        let ghost mut flags: Seq<bool> = Seq::empty();
        let mut i: usize = 0;
        while i < self.entries.len()
            invariant
                i <= all.len(),
                all == self.entries@,
                forall|pid: u32| call_requires(is_live, (pid,)),
                flags.len() == i,
                forall|j: int|
                    0 <= j < i && (#[trigger] all[j]).clone_id == clone_id ==> call_ensures(
                        is_live,
                        (all[j].pid,),
                        flags[j],
                    ),
                found@ == live_of_clone(all.take(i as int), clone_id, flags),
            decreases all.len() - i,
        {
            let e = self.entries[i];
            let mine = e.clone_id == clone_id;
            let live = if mine {
                is_live(e.pid)
            } else {
                false
            };
            let ghost before = flags;
            proof {
                flags = flags.push(live);
                assert(all.take(i + 1).drop_last() =~= all.take(i as int));
                assert(all.take(i + 1).last() == e);
                lemma_live_prefix(all.take(i as int), clone_id, before, flags);
            }
            if mine && live {
                found.push(e);
            }
            i = i + 1;
        }
        proof {
            assert(all.take(all.len() as int) =~= all);
            assert(found@ == live_of_clone(self.entries@, clone_id, flags));
        }
        let n: usize = found.len();
        let r = if n == 0 {
            Ok(None)
        } else if n == 1 {
            Ok(Some((found[0].pid, found[0].control)))
        } else {
            Err(n)
        };
        proof { assert(r == unique_worker(live_of_clone(self.entries@, clone_id, flags))); }
        r
    }

    /// How many workers a golden process has.
    pub fn residents(&self, token: u64, kin: &[(u64, u64)]) -> (n: usize)
        ensures
            n == self.entries@.filter(|e: WorkerEntry| kindred(kin@, e.token, token)).len(),
    {
        let ghost all = self.entries@;
        let ghost p = |e: WorkerEntry| kindred(kin@, e.token, token);
        let mut n: usize = 0;
        let mut i: usize = 0;
        proof {
            reveal(Seq::filter);
            assert(all.take(0).filter(p) =~= Seq::empty());
        }
        while i < self.entries.len()
            invariant
                i <= all.len(),
                all == self.entries@,
                p == (|e: WorkerEntry| kindred(kin@, e.token, token)),
                n <= i,
                n == all.take(i as int).filter(p).len(),
            decreases all.len() - i,
        {
            proof {
                reveal(Seq::filter);
                assert(all.take(i + 1).drop_last() =~= all.take(i as int));
                assert(all.take(i + 1).last() == all[i as int]);
            }
            if same_process(kin, self.entries[i].token, token) {
                n = n + 1;
            }
            i = i + 1;
        }
        proof { assert(all.take(all.len() as int) =~= all); }
        n
    }
}

proof fn lemma_live_prefix(v: Seq<WorkerEntry>, clone_id: u64, a: Seq<bool>, b: Seq<bool>)
    requires
        v.len() <= a.len() <= b.len(),
        forall|i: int| 0 <= i < v.len() ==> a[i] == b[i],
    ensures
        live_of_clone(v, clone_id, a) == live_of_clone(v, clone_id, b),
    decreases v.len(),
{
    if v.len() > 0 {
        lemma_live_prefix(v.drop_last(), clone_id, a, b);
    }
}

/// A filter keeps only what satisfies it, and keeps entries apart.
proof fn lemma_filter_workers(v: Seq<WorkerEntry>, p: spec_fn(WorkerEntry) -> bool)
    requires
        one_per_clone(v),
    ensures
        one_per_clone(v.filter(p)),
        forall|i: int| 0 <= i < v.filter(p).len() ==> p(#[trigger] v.filter(p)[i]),
    decreases v.len(),
{
    reveal(Seq::filter);
    if v.len() > 0 {
        let front = v.drop_last();
        assert forall|i: int, j: int|
            #![trigger front[i], front[j]]
            0 <= i < front.len() && 0 <= j < front.len() && front[i].token == front[j].token
                && front[i].clone_id == front[j].clone_id implies i == j by {
            assert(front[i] == v[i]);
            assert(front[j] == v[j]);
        }
        lemma_filter_workers(front, p);
        let kept = front.filter(p);
        if p(v.last()) {
            let w = v.filter(p);
            assert(w == kept.push(v.last()));
            assert forall|i: int| 0 <= i < kept.len() implies !((#[trigger] kept[i]).token
                == v.last().token && kept[i].clone_id == v.last().clone_id) by {
                assert(front.filter(p).contains(kept[i]));
                front.lemma_filter_contains_rev(p, kept[i]);
                let k = choose|k: int| 0 <= k < front.len() && front[k] == kept[i];
                assert(v[k] == front[k]);
                assert(v[v.len() - 1] == v.last());
            }
            assert forall|i: int, j: int|
                #![trigger w[i], w[j]]
                0 <= i < w.len() && 0 <= j < w.len() && w[i].token == w[j].token && w[i].clone_id
                    == w[j].clone_id implies i == j by {
                if i < kept.len() {
                    assert(w[i] == kept[i]);
                }
                if j < kept.len() {
                    assert(w[j] == kept[j]);
                }
            }
        }
    }
}

proof fn lemma_keep_all(v: Seq<WorkerEntry>, p: spec_fn(WorkerEntry) -> bool)
    requires
        forall|i: int| 0 <= i < v.len() ==> p(#[trigger] v[i]),
    ensures
        v.filter(p) == v,
    decreases v.len(),
{
    reveal(Seq::filter);
    if v.len() > 0 {
        assert forall|i: int| 0 <= i < v.drop_last().len() implies p(#[trigger] v.drop_last()[i]) by {
            assert(v.drop_last()[i] == v[i]);
        }
        lemma_keep_all(v.drop_last(), p);
        assert(p(v[v.len() - 1]));
        assert(v.drop_last().push(v.last()) =~= v);
    } else {
        assert(v.filter(p) =~= v);
    }
}

/// Removing the only element that does not satisfy `p` is filtering by `p`.
proof fn lemma_remove_one(v: Seq<WorkerEntry>, p: spec_fn(WorkerEntry) -> bool, i: int)
    requires
        0 <= i < v.len(),
        !p(v[i]),
        forall|j: int| 0 <= j < v.len() && j != i ==> p(#[trigger] v[j]),
    ensures
        v.filter(p) == v.remove(i),
    decreases v.len(),
{
    reveal(Seq::filter);
    let front = v.drop_last();
    if i == v.len() - 1 {
        assert forall|j: int| 0 <= j < front.len() implies p(#[trigger] front[j]) by {
            assert(front[j] == v[j]);
        }
        lemma_keep_all(front, p);
        assert(v.remove(i) =~= front);
    } else {
        assert forall|j: int| 0 <= j < front.len() && j != i implies p(#[trigger] front[j]) by {
            assert(front[j] == v[j]);
        }
        lemma_remove_one(front, p, i);
        assert(p(v[v.len() - 1]));
        assert(v.remove(i) =~= front.remove(i).push(v.last()));
    }
}

// ---------------------------------------------------------------------------
// Goldens
// ---------------------------------------------------------------------------

/// One connection of a golden machine.
#[derive(Debug, Clone, Copy, PartialEq, Eq, Structural)]
pub struct GoldenConnection {
    /// Process of the machine.
    pub pid: u32,
    /// Number of the connection.
    pub id: u64,
    /// Golden process, zero where it is not known.
    pub token: u64,
    /// Descriptor with which the connection can be shut down.
    pub fd: i32,
}

/// The connections of goldens, and which machine owns which golden process.
#[derive(Debug)]
pub struct GoldenRegistry {
    pub connections: Vec<GoldenConnection>,
    pub owners: Vec<(u64, u32)>,
}

/// The candidates for the owner of a golden process: the machines with a matching
/// connection, the machine known to own it if it is still connected, and, failing
/// both, the only machine there is.
pub open spec fn owner_candidates(
    matching: Seq<u32>,
    known_owner: Option<u32>,
    registered: Seq<u32>,
) -> Seq<u32> {
    let known = match known_owner {
        Some(owner) if registered.contains(owner) => matching.push(owner),
        _ => matching,
    };
    if known.len() == 0 && registered.len() == 1 {
        known.push(registered[0])
    } else {
        known
    }
}

/// The owner, if all candidates agree.
pub open spec fn agreed_owner(candidates: Seq<u32>) -> Option<u32> {
    if candidates.len() > 0 && forall|i: int|
        0 <= i < candidates.len() ==> #[trigger] candidates[i] == candidates[0] {
        Some(candidates[0])
    } else {
        None
    }
}

/// The owner of a golden process, if there is no doubt about it.
pub fn select_golden_owner(matching: Vec<u32>, known_owner: Option<u32>, registered: &[u32]) -> (r:
    Option<u32>)
    ensures
        r == agreed_owner(owner_candidates(matching@, known_owner, registered@)),
{
    let mut all = matching;
    match known_owner {
        Some(owner) => {
            if holds_u32(registered, owner) {
                all.push(owner);
            }
        },
        None => {},
    }
    if all.len() == 0 && registered.len() == 1 {
        all.push(registered[0]);
    }
    if all.len() == 0 {
        return None;
    }
    let first = all[0];
    let mut i: usize = 1;
    while i < all.len()
        invariant
            1 <= i <= all@.len(),
            first == all@[0],
            all@ == owner_candidates(matching@, known_owner, registered@),
            forall|j: int| 0 <= j < i ==> #[trigger] all@[j] == first,
        decreases all@.len() - i,
    {
        if all[i] != first {
            assert(all@[i as int] != all@[0]);
            return None;
        }
        i = i + 1;
    }
    Some(first)
}

/// Holds of the owners of other tokens.
pub open spec fn other_token_owner(token: u64) -> spec_fn((u64, u32)) -> bool {
    |o: (u64, u32)| o.0 != token
}

/// Holds of the tokens that another machine owns.
pub open spec fn other_owner(pid: u32) -> spec_fn((u64, u32)) -> bool {
    |o: (u64, u32)| o.1 != pid
}

/// Holds of the connections of other machines.
pub open spec fn other_machine(pid: u32) -> spec_fn(GoldenConnection) -> bool {
    |c: GoldenConnection| c.pid != pid
}

/// The owners with `token` owned by `pid`.
pub open spec fn with_owner(owners: Seq<(u64, u32)>, token: u64, pid: u32) -> Seq<(u64, u32)> {
    owners.filter(other_token_owner(token)).push((token, pid))
}

/// The first known owner of a token, from `i` on.
pub open spec fn owner_of(owners: Seq<(u64, u32)>, token: u64, i: int) -> Option<u32>
    decreases owners.len() - i,
{
    if i >= owners.len() {
        None
    } else if owners[i].0 == token {
        Some(owners[i].1)
    } else {
        owner_of(owners, token, i + 1)
    }
}

/// The machines in the order of their first connections.
pub open spec fn machines_of(v: Seq<GoldenConnection>) -> Seq<u32>
    decreases v.len(),
{
    if v.len() == 0 {
        Seq::empty()
    } else {
        let front = machines_of(v.drop_last());
        if front.contains(v.last().pid) {
            front
        } else {
            front.push(v.last().pid)
        }
    }
}

/// The machines with a connection to a golden process.
pub open spec fn machines_with(v: Seq<GoldenConnection>, token: u64, kin: Seq<(u64, u64)>) -> Seq<
    u32,
> {
    v.filter(|c: GoldenConnection| kindred(kin, c.token, token)).map_values(
        |c: GoldenConnection| c.pid,
    )
}

impl GoldenRegistry {
    /// No goldens.
    pub fn new() -> (r: Self)
        ensures
            r.connections@.len() == 0,
            r.owners@.len() == 0,
    {
        GoldenRegistry { connections: Vec::new(), owners: Vec::new() }
    }

    fn set_owner(&mut self, token: u64, pid: u32)
        ensures
            final(self).connections@ == old(self).connections@,
            final(self).owners@ == with_owner(old(self).owners@, token, pid),
    {
        let ghost all = self.owners@;
        let ghost p = other_token_owner(token);
        let mut kept: Vec<(u64, u32)> = Vec::new();
        let mut i: usize = 0;
        proof {
            reveal(Seq::filter);
            assert(all.take(0).filter(p) =~= kept@);
        }
        while i < self.owners.len()
            invariant
                i <= all.len(),
                self.owners@ == all,
                p == other_token_owner(token),
                kept@ == all.take(i as int).filter(p),
            decreases all.len() - i,
        {
            proof {
                reveal(Seq::filter);
                assert(all.take(i + 1).drop_last() =~= all.take(i as int));
                assert(all.take(i + 1).last() == all[i as int]);
            }
            if self.owners[i].0 != token {
                kept.push(self.owners[i]);
            }
            i = i + 1;
        }
        proof { assert(all.take(all.len() as int) =~= all); }
        kept.push((token, pid));
        self.owners = kept;
    }

    /// Forgets every token that a machine owns.
    pub fn disown(&mut self, pid: u32)
        ensures
            final(self).connections@ == old(self).connections@,
            final(self).owners@ == old(self).owners@.filter(other_owner(pid)),
    {
        let ghost all = self.owners@;
        let ghost p = other_owner(pid);
        let mut kept: Vec<(u64, u32)> = Vec::new();
        let mut i: usize = 0;
        proof {
            reveal(Seq::filter);
            assert(all.take(0).filter(p) =~= kept@);
        }
        while i < self.owners.len()
            invariant
                i <= all.len(),
                self.owners@ == all,
                p == other_owner(pid),
                kept@ == all.take(i as int).filter(p),
            decreases all.len() - i,
        {
            proof {
                reveal(Seq::filter);
                assert(all.take(i + 1).drop_last() =~= all.take(i as int));
                assert(all.take(i + 1).last() == all[i as int]);
            }
            if self.owners[i].1 != pid {
                kept.push(self.owners[i]);
            }
            i = i + 1;
        }
        proof { assert(all.take(all.len() as int) =~= all); }
        self.owners = kept;
    }

    /// Registers a connection; one that names its golden process makes its machine
    /// the owner.
    pub fn register(&mut self, connection: GoldenConnection)
        ensures
            final(self).connections@ == old(self).connections@.push(connection),
            final(self).owners@ == if connection.token != 0 {
                with_owner(old(self).owners@, connection.token, connection.pid)
            } else {
                old(self).owners@
            },
    {
        self.connections.push(connection);
        if connection.token != 0 {
            self.set_owner(connection.token, connection.pid);
        }
    }

    /// The position of a connection.
    fn find(&self, pid: u32, id: u64) -> (r: Option<usize>)
        ensures
            match r {
                Some(i) => i < self.connections@.len() && self.connections@[i as int].pid == pid
                    && self.connections@[i as int].id == id,
                None => forall|i: int|
                    0 <= i < self.connections@.len() ==> !((#[trigger] self.connections@[i]).pid
                        == pid && self.connections@[i].id == id),
            },
    {
        let mut i: usize = 0;
        while i < self.connections.len()
            invariant
                i <= self.connections@.len(),
                forall|j: int|
                    0 <= j < i ==> !((#[trigger] self.connections@[j]).pid == pid
                        && self.connections@[j].id == id),
            decreases self.connections@.len() - i,
        {
            if self.connections[i].pid == pid && self.connections[i].id == id {
                return Some(i);
            }
            i = i + 1;
        }
        None
    }

    /// Whether a machine has a connection.
    fn connected(&self, pid: u32) -> (r: bool)
        ensures
            r == exists|i: int|
                0 <= i < self.connections@.len() && (#[trigger] self.connections@[i]).pid == pid,
    {
        let mut i: usize = 0;
        while i < self.connections.len()
            invariant
                i <= self.connections@.len(),
                forall|j: int| 0 <= j < i ==> (#[trigger] self.connections@[j]).pid != pid,
            decreases self.connections@.len() - i,
        {
            if self.connections[i].pid == pid {
                return true;
            }
            i = i + 1;
        }
        false
    }

    /// Forgets a connection that ended and returns its descriptor. With the last
    /// connection of a machine goes what the machine owned.
    pub fn unregister(&mut self, pid: u32, id: u64) -> (r: Option<i32>)
        ensures
            match r {
                Some(fd) => exists|i: int|
                    0 <= i < old(self).connections@.len() && old(self).connections@[i].pid == pid
                        && old(self).connections@[i].id == id && old(self).connections@[i].fd == fd
                        && final(self).connections@ == #[trigger] old(self).connections@.remove(i),
                None => final(self).connections@ == old(self).connections@ && forall|i: int|
                    0 <= i < old(self).connections@.len() ==> !((
                    #[trigger] old(self).connections@[i]).pid == pid && old(self).connections@[i].id == id),
            },
            final(self).owners@ == if r is Some && !exists|i: int|
                0 <= i < final(self).connections@.len() && (
                #[trigger] final(self).connections@[i]).pid == pid {
                old(self).owners@.filter(other_owner(pid))
            } else {
                old(self).owners@
            },
    {
        match self.find(pid, id) {
            Some(i) => {
                let ghost all = self.connections@;
                let c = self.connections.remove(i);
                proof { assert(self.connections@ == all.remove(i as int)); }
                if !self.connected(pid) {
                    self.disown(pid);
                }
                Some(c.fd)
            },
            None => None,
        }
    }

    /// The machines with a connection to a golden process.
    fn matching(&self, token: u64, kin: &[(u64, u64)]) -> (r: Vec<u32>)
        ensures
            r@ == machines_with(self.connections@, token, kin@),
    {
        let ghost all = self.connections@;
        let ghost p = |c: GoldenConnection| kindred(kin@, c.token, token);
        let ghost f = |c: GoldenConnection| c.pid;
        let mut r: Vec<u32> = Vec::new();
        let mut i: usize = 0;
        proof {
            reveal(Seq::filter);
            assert(all.take(0).filter(p).map_values(f) =~= r@);
        }
        while i < self.connections.len()
            invariant
                i <= all.len(),
                all == self.connections@,
                p == (|c: GoldenConnection| kindred(kin@, c.token, token)),
                f == (|c: GoldenConnection| c.pid),
                r@ == all.take(i as int).filter(p).map_values(f),
            decreases all.len() - i,
        {
            let c = self.connections[i];
            proof {
                reveal(Seq::filter);
                assert(all.take(i + 1).drop_last() =~= all.take(i as int));
                assert(all.take(i + 1).last() == c);
            }
            if same_process(kin, c.token, token) {
                r.push(c.pid);
            }
            proof { assert(all.take(i + 1).filter(p).map_values(f) =~= r@); }
            i = i + 1;
        }
        proof {
            assert(all.take(all.len() as int) =~= all);
            assert(machines_with(all, token, kin@) =~= all.filter(p).map_values(f));
        }
        r
    }

    /// The machines in the order of their first connections.
    fn machines(&self) -> (r: Vec<u32>)
        ensures
            r@ == machines_of(self.connections@),
    {
        let ghost all = self.connections@;
        let mut r: Vec<u32> = Vec::new();
        let mut i: usize = 0;
        proof { assert(machines_of(all.take(0)) =~= r@); }
        while i < self.connections.len()
            invariant
                i <= all.len(),
                all == self.connections@,
                r@ == machines_of(all.take(i as int)),
            decreases all.len() - i,
        {
            proof {
                assert(all.take(i + 1).drop_last() =~= all.take(i as int));
                assert(all.take(i + 1).last() == all[i as int]);
            }
            if !holds_u32(&r, self.connections[i].pid) {
                r.push(self.connections[i].pid);
            }
            i = i + 1;
        }
        proof { assert(all.take(all.len() as int) =~= all); }
        r
    }

    fn known_owner(&self, token: u64) -> (r: Option<u32>)
        ensures
            r == owner_of(self.owners@, token, 0),
    {
        let mut i: usize = 0;
        while i < self.owners.len()
            invariant
                i <= self.owners@.len(),
                owner_of(self.owners@, token, 0) == owner_of(self.owners@, token, i as int),
            decreases self.owners@.len() - i,
        {
            if self.owners[i].0 == token {
                return Some(self.owners[i].1);
            }
            i = i + 1;
        }
        None
    }

    /// Settles which machine owns a golden process, if there is no doubt about it.
    pub fn settle_owner(&mut self, token: u64, kin: &[(u64, u64)]) -> (r: Option<u32>)
        ensures
            final(self).connections@ == old(self).connections@,
            r == settled_owner(old(self).connections@, old(self).owners@, token, kin@),
            final(self).owners@ == match r {
                Some(pid) => with_owner(old(self).owners@, token, pid),
                None => old(self).owners@,
            },
    {
        let matching = self.matching(token, kin);
        let registered = self.machines();
        let known = self.known_owner(token);
        match select_golden_owner(matching, known, &registered) {
            Some(pid) => {
                self.set_owner(token, pid);
                Some(pid)
            },
            None => None,
        }
    }

    /// Takes the connections of the machine that owns a golden process out, to be
    /// shut down; none where the owner is in doubt.
    pub fn evict(&mut self, token: u64, kin: &[(u64, u64)]) -> (r: (Option<u32>, Vec<i32>))
        ensures
            r.0 == settled_owner(old(self).connections@, old(self).owners@, token, kin@),
            match r.0 {
                Some(pid) => {
                    &&& final(self).owners@ == with_owner(old(self).owners@, token, pid)
                    &&& final(self).connections@ == old(self).connections@.filter(
                        other_machine(pid),
                    )
                    &&& r.1@ == old(self).connections@.filter(
                        |c: GoldenConnection| c.pid == pid,
                    ).map_values(|c: GoldenConnection| c.fd)
                },
                None => r.1@.len() == 0 && final(self).owners@ == old(self).owners@
                    && final(self).connections@ == old(self).connections@,
            },
    {
        let pid = match self.settle_owner(token, kin) {
            Some(pid) => pid,
            None => {
                return (None, Vec::new());
            },
        };
        let ghost all = self.connections@;
        let ghost p = other_machine(pid);
        let ghost q = |c: GoldenConnection| c.pid == pid;
        let ghost f = |c: GoldenConnection| c.fd;
        let mut kept: Vec<GoldenConnection> = Vec::new();
        let mut shut: Vec<i32> = Vec::new();
        let mut i: usize = 0;
        proof {
            reveal(Seq::filter);
            assert(all.take(0).filter(p) =~= kept@);
            assert(all.take(0).filter(q).map_values(f) =~= shut@);
        }
        while i < self.connections.len()
            invariant
                i <= all.len(),
                self.connections@ == all,
                p == other_machine(pid),
                q == (|c: GoldenConnection| c.pid == pid),
                f == (|c: GoldenConnection| c.fd),
                kept@ == all.take(i as int).filter(p),
                shut@ == all.take(i as int).filter(q).map_values(f),
            decreases all.len() - i,
        {
            let c = self.connections[i];
            proof {
                reveal(Seq::filter);
                assert(all.take(i + 1).drop_last() =~= all.take(i as int));
                assert(all.take(i + 1).last() == c);
            }
            if c.pid != pid {
                kept.push(c);
            } else {
                shut.push(c.fd);
            }
            proof { assert(all.take(i + 1).filter(q).map_values(f) =~= shut@); }
            i = i + 1;
        }
        self.connections = kept;
        proof { assert(all.take(all.len() as int) =~= all); }
        (Some(pid), shut)
    }
}

/// The machine that owns a golden process, if there is no doubt about it.
pub open spec fn settled_owner(
    connections: Seq<GoldenConnection>,
    owners: Seq<(u64, u32)>,
    token: u64,
    kin: Seq<(u64, u64)>,
) -> Option<u32> {
    agreed_owner(
        owner_candidates(
            machines_with(connections, token, kin),
            owner_of(owners, token, 0),
            machines_of(connections),
        ),
    )
}

/// Whether a golden is to be evicted: its pool is planned and switched on, as many
/// workers as the pool holds are resident, and a snapshot holds its state.
pub fn eviction_due(
    mode: Option<&str>,
    fork_pool_size: Option<u32>,
    residents: usize,
    has_snapshot: bool,
) -> (r: bool)
    ensures
        r == (switch(opt_str(mode)) != Some(false) && has_snapshot && (fork_pool_size matches Some(n)
            && n > 0 && residents >= n)),
{
    if !golden_eviction_enabled(mode, fork_pool_size) {
        return false;
    }
    match fork_pool_size {
        Some(n) => residents as u64 >= n as u64 && has_snapshot,
        None => false,
    }
}

} // verus!
