//! What the daemon's registries keep, and whom they name.
use crate::daemon::caches::{
    BlobEntry, LayoutWaiter, SnapshotEntry, blob_at, blob_for, blobs_bytes, bound_to, kin_blob,
    kin_snapshot_at, may_connect, not_served, other_waiter, snapshot_at, snapshot_expired,
    snapshot_for, snapshot_kept, snapshot_live, up_to_date,
};
use crate::daemon::lifecycle::{log_removals, pipe_removals};
use crate::daemon::registry::{
    GoldenConnection, WorkerEntry, kindred, live_of_clone, machines_of, machines_with, not_running,
    other_machine, other_owner, other_token_owner, other_worker, owner_candidates, owner_of,
    running, settled_owner, unique_worker, with_owner,
};
use crate::daemon::worker_env_laws::{lemma_sum_empty, lemma_sum_push, sum_of};
use crate::filtering::{lemma_filter_members, lemma_push_members};
use crate::paths::joined;
use vstd::prelude::*;

verus! {

// ---------------------------------------------------------------------------
// Workers
// ---------------------------------------------------------------------------

/// Forgetting a worker takes just the one of that token and clone; those that live stay
/// when the others are dropped, and each is one or the other.
pub proof fn law_workers_that_stay(
    v: Seq<WorkerEntry>,
    token: u64,
    clone_id: u64,
    live: Seq<u32>,
    e: WorkerEntry,
)
    ensures
        v.filter(other_worker(token, clone_id)).contains(e) <==> v.contains(e) && !(e.token == token
            && e.clone_id == clone_id),
        v.filter(running(live)).contains(e) <==> v.contains(e) && live.contains(e.pid),
        v.filter(not_running(live)).contains(e) <==> v.contains(e) && !live.contains(e.pid),
{
    lemma_filter_members(v, other_worker(token, clone_id), e);
    lemma_filter_members(v, running(live), e);
    lemma_filter_members(v, not_running(live), e);
}

/// A worker that is registered is there afterwards, in place of one for the same token and
/// clone; every other one stays.
pub proof fn law_registered_worker_is_there(v: Seq<WorkerEntry>, n: WorkerEntry, e: WorkerEntry)
    ensures
        ({
            let after = v.filter(other_worker(n.token, n.clone_id)).push(n);
            after.contains(e) <==> e == n || (v.contains(e) && !(e.token == n.token && e.clone_id
                == n.clone_id))
        }),
{
    lemma_filter_members(v, other_worker(n.token, n.clone_id), e);
    lemma_push_members(v.filter(other_worker(n.token, n.clone_id)), n, e);
}

proof fn lemma_live_of_clone(
    v: Seq<WorkerEntry>,
    clone_id: u64,
    live: Seq<bool>,
    e: WorkerEntry,
)
    requires
        v.len() <= live.len(),
    ensures
        live_of_clone(v, clone_id, live).contains(e) <==> exists|i: int|
            0 <= i < v.len() && #[trigger] v[i] == e && e.clone_id == clone_id && live[i],
    decreases v.len(),
{
    if v.len() > 0 {
        let front = v.drop_last();
        let last = v.len() - 1;
        lemma_live_of_clone(front, clone_id, live, e);
        let before = live_of_clone(front, clone_id, live);
        lemma_push_members(before, v.last(), e);
        assert(v.last() == v[last]);
        if before.contains(e) {
            let i = choose|i: int|
                0 <= i < front.len() && #[trigger] front[i] == e && e.clone_id == clone_id
                    && live[i];
            assert(v[i] == e);
        }
        if exists|i: int|
            0 <= i < v.len() && #[trigger] v[i] == e && e.clone_id == clone_id && live[i] {
            let i = choose|i: int|
                0 <= i < v.len() && #[trigger] v[i] == e && e.clone_id == clone_id && live[i];
            if i < last {
                assert(front[i] == e);
            }
        }
    }
}

/// The worker of a clone is named only where exactly one lives; where none does, none is,
/// and where several do, how many there are is told.
pub proof fn law_only_worker_of_a_clone(v: Seq<WorkerEntry>, clone_id: u64, live: Seq<bool>)
    requires
        v.len() <= live.len(),
        v.len() <= usize::MAX,
    ensures
        ({
            let r = unique_worker(live_of_clone(v, clone_id, live));
            &&& r == Ok::<Option<(u32, i32)>, usize>(None) <==> forall|i: int|
                0 <= i < v.len() ==> !((#[trigger] v[i]).clone_id == clone_id && live[i])
            &&& r matches Ok(Some(w)) ==> exists|i: int|
                0 <= i < v.len() && (#[trigger] v[i]).clone_id == clone_id && live[i] && w == (
                    v[i].pid,
                    v[i].control,
                )
            &&& r matches Err(n) ==> n >= 2
        }),
{
    let found = live_of_clone(v, clone_id, live);
    lemma_found_len(v, clone_id, live);
    if found.len() == 0 {
        assert forall|i: int| 0 <= i < v.len() implies !((#[trigger] v[i]).clone_id == clone_id
            && live[i]) by {
            lemma_live_of_clone(v, clone_id, live, v[i]);
        }
    } else {
        let e = found[0];
        lemma_live_of_clone(v, clone_id, live, e);
        assert(found.contains(e));
        let i = choose|i: int|
            0 <= i < v.len() && #[trigger] v[i] == e && e.clone_id == clone_id && live[i];
        assert(v[i].clone_id == clone_id && live[i]);
    }
}

proof fn lemma_found_len(v: Seq<WorkerEntry>, clone_id: u64, live: Seq<bool>)
    ensures
        live_of_clone(v, clone_id, live).len() <= v.len(),
    decreases v.len(),
{
    if v.len() > 0 {
        lemma_found_len(v.drop_last(), clone_id, live);
    }
}

// ---------------------------------------------------------------------------
// Owners
// ---------------------------------------------------------------------------

/// An owner that was set is the owner, and those of other tokens stay theirs.
pub proof fn law_owner_that_was_set(owners: Seq<(u64, u32)>, token: u64, pid: u32, other: u64)
    ensures
        owner_of(with_owner(owners, token, pid), token, 0) == Some(pid),
        other != token ==> owner_of(with_owner(owners, token, pid), other, 0) == owner_of(
            owners,
            other,
            0,
        ),
{
    let kept = owners.filter(other_token_owner(token));
    let after = kept.push((token, pid));
    assert forall|i: int| 0 <= i < kept.len() implies (#[trigger] kept[i]).0 != token by {
        lemma_filter_members(owners, other_token_owner(token), kept[i]);
        assert(kept.contains(kept[i]));
    }
    lemma_owner_last(after, token, 0);
    if other != token {
        lemma_owner_push(kept, (token, pid), other, 0);
        lemma_owner_filter(owners, token, other);
    }
}

proof fn lemma_owner_last(v: Seq<(u64, u32)>, token: u64, from: int)
    requires
        0 <= from < v.len(),
        v.last().0 == token,
        forall|i: int| 0 <= i < v.len() - 1 ==> (#[trigger] v[i]).0 != token,
    ensures
        owner_of(v, token, from) == Some(v.last().1),
    decreases v.len() - from,
{
    if from < v.len() - 1 {
        lemma_owner_last(v, token, from + 1);
    }
}

proof fn lemma_owner_push(v: Seq<(u64, u32)>, p: (u64, u32), token: u64, from: int)
    requires
        0 <= from <= v.len(),
        p.0 != token,
    ensures
        owner_of(v.push(p), token, from) == owner_of(v, token, from),
    decreases v.len() - from,
{
    if from < v.len() {
        lemma_owner_push(v, p, token, from + 1);
        assert(v.push(p)[from] == v[from]);
    } else {
        assert(v.push(p)[from] == p);
        assert(owner_of(v.push(p), token, from + 1) is None);
    }
}

proof fn lemma_owner_filter(v: Seq<(u64, u32)>, token: u64, other: u64)
    requires
        other != token,
    ensures
        owner_of(v.filter(other_token_owner(token)), other, 0) == owner_of(v, other, 0),
    decreases v.len(),
{
    reveal(Seq::filter);
    if v.len() > 0 {
        let front = v.drop_last();
        let last = v.last();
        lemma_owner_filter(front, token, other);
        assert(front.push(last) =~= v);
        let kept = front.filter(other_token_owner(token));
        lemma_owner_end(front, last, other, 0);
        lemma_owner_end(kept, last, other, 0);
    }
}

proof fn lemma_owner_end(v: Seq<(u64, u32)>, p: (u64, u32), token: u64, from: int)
    requires
        0 <= from <= v.len(),
    ensures
        owner_of(v.push(p), token, from) == match owner_of(v, token, from) {
            Some(o) => Some(o),
            None => if p.0 == token {
                Some(p.1)
            } else {
                None
            },
        },
    decreases v.len() - from,
{
    if from < v.len() {
        lemma_owner_end(v, p, token, from + 1);
        assert(v.push(p)[from] == v[from]);
    } else {
        assert(v.push(p)[from] == p);
        assert(owner_of(v.push(p), token, from + 1) is None);
    }
}

/// A machine is connected.
pub open spec fn is_connected(v: Seq<GoldenConnection>, pid: u32) -> bool {
    exists|i: int| 0 <= i < v.len() && (#[trigger] v[i]).pid == pid
}

proof fn lemma_machines(v: Seq<GoldenConnection>, pid: u32)
    ensures
        machines_of(v).contains(pid) <==> is_connected(v, pid),
        machines_of(v).no_duplicates(),
    decreases v.len(),
{
    if v.len() > 0 {
        let front = v.drop_last();
        lemma_machines(front, pid);
        lemma_machines(front, v.last().pid);
        let before = machines_of(front);
        lemma_push_members(before, v.last().pid, pid);
        if is_connected(front, pid) {
            let i = choose|i: int| 0 <= i < front.len() && (#[trigger] front[i]).pid == pid;
            assert(v[i].pid == pid);
        }
        if is_connected(v, pid) {
            let i = choose|i: int| 0 <= i < v.len() && (#[trigger] v[i]).pid == pid;
            if i < front.len() {
                assert(front[i].pid == pid);
            }
        }
        if v.last().pid == pid {
            assert(v[v.len() - 1].pid == pid);
        }
    }
}

/// A machine has a connection of this golden process or of a kindred one.
pub open spec fn has_golden(
    v: Seq<GoldenConnection>,
    token: u64,
    kin: Seq<(u64, u64)>,
    pid: u32,
) -> bool {
    exists|i: int|
        0 <= i < v.len() && (#[trigger] v[i]).pid == pid && (v[i].token == token || kin.contains(
            (v[i].token, token),
        ))
}

proof fn lemma_machines_with(
    v: Seq<GoldenConnection>,
    token: u64,
    kin: Seq<(u64, u64)>,
    pid: u32,
)
    ensures
        machines_with(v, token, kin).contains(pid) <==> has_golden(v, token, kin, pid),
{
    let p = |c: GoldenConnection| kindred(kin, c.token, token);
    let kept = v.filter(p);
    let all = machines_with(v, token, kin);
    if all.contains(pid) {
        let i = choose|i: int| 0 <= i < all.len() && all[i] == pid;
        let c = kept[i];
        assert(kept.contains(c));
        lemma_filter_members(v, p, c);
        let j = choose|j: int| 0 <= j < v.len() && v[j] == c;
        assert(v[j].pid == pid);
    }
    if has_golden(v, token, kin, pid) {
        let j = choose|j: int|
            0 <= j < v.len() && (#[trigger] v[j]).pid == pid && (v[j].token == token
                || kin.contains((v[j].token, token)));
        assert(v.contains(v[j]));
        lemma_filter_members(v, p, v[j]);
        let i = choose|i: int| 0 <= i < kept.len() && kept[i] == v[j];
        assert(all[i] == pid);
    }
}

/// The owner that is settled on is a machine that is connected, and no connection of the
/// golden process and no registered owner speaks for another.
pub proof fn law_settled_owner_is_undisputed(
    v: Seq<GoldenConnection>,
    owners: Seq<(u64, u32)>,
    token: u64,
    kin: Seq<(u64, u64)>,
    pid: u32,
    other: u32,
)
    requires
        settled_owner(v, owners, token, kin) == Some(pid),
    ensures
        is_connected(v, pid),
        has_golden(v, token, kin, other) ==> other == pid,
        owner_of(owners, token, 0) == Some(other) && is_connected(v, other) ==> other == pid,
{
    let matching = machines_with(v, token, kin);
    let known = owner_of(owners, token, 0);
    let registered = machines_of(v);
    let c = owner_candidates(matching, known, registered);
    lemma_machines(v, pid);
    lemma_machines(v, other);
    lemma_machines_with(v, token, kin, other);
    lemma_machines_with(v, token, kin, pid);
    assert(c[0] == pid);
    if has_golden(v, token, kin, other) {
        let i = choose|i: int| 0 <= i < matching.len() && matching[i] == other;
        assert(c[i] == other);
    }
    if known == Some(other) && is_connected(v, other) {
        assert(c[matching.len() as int] == other);
    }
    if matching.len() > 0 {
        assert(matching[0] == pid);
        assert(matching.contains(pid));
        let i = choose|i: int|
            0 <= i < v.len() && (#[trigger] v[i]).pid == pid && (v[i].token == token
                || kin.contains((v[i].token, token)));
        assert(v[i].pid == pid);
    } else if known is Some && registered.contains(known->Some_0) {
        assert(c[0] == known->Some_0);
    } else {
        assert(c[0] == registered[0]);
        assert(registered.contains(pid));
    }
}

/// A machine that alone has the golden process owns it, unless another one that is
/// connected was registered as its owner; and the only machine there is owns what nobody
/// speaks for.
pub proof fn law_sole_machine_is_the_owner(
    v: Seq<GoldenConnection>,
    owners: Seq<(u64, u32)>,
    token: u64,
    kin: Seq<(u64, u64)>,
    pid: u32,
)
    requires
        is_connected(v, pid),
        forall|other: u32| #[trigger] has_golden(v, token, kin, other) ==> other == pid,
        owner_of(owners, token, 0) matches Some(o) ==> o == pid || !is_connected(v, o),
        has_golden(v, token, kin, pid) || owner_of(owners, token, 0) == Some(pid) || forall|
            other: u32,
        | #[trigger] is_connected(v, other) ==> other == pid,
    ensures
        settled_owner(v, owners, token, kin) == Some(pid),
{
    let matching = machines_with(v, token, kin);
    let known = owner_of(owners, token, 0);
    let registered = machines_of(v);
    let c = owner_candidates(matching, known, registered);
    lemma_machines(v, pid);
    if known is Some {
        lemma_machines(v, known->Some_0);
    }
    assert forall|i: int| 0 <= i < matching.len() implies #[trigger] matching[i] == pid by {
        lemma_machines_with(v, token, kin, matching[i]);
        assert(matching.contains(matching[i]));
        assert(has_golden(v, token, kin, matching[i]));
    }
    lemma_machines_with(v, token, kin, pid);
    assert(registered.contains(pid));
    if matching.len() == 0 && known != Some(pid) {
        assert(!has_golden(v, token, kin, pid)) by {
            if has_golden(v, token, kin, pid) {
                assert(matching.contains(pid));
            }
        }
        assert forall|i: int| 0 <= i < registered.len() implies #[trigger] registered[i]
            == pid by {
            lemma_machines(v, registered[i]);
            assert(registered.contains(registered[i]));
            assert(is_connected(v, registered[i]));
        }
        assert(registered.len() == 1) by {
            if registered.len() > 1 {
                assert(registered[0] == registered[1]);
            }
        }
    }
    assert(c.len() > 0);
    assert forall|i: int| 0 <= i < c.len() implies #[trigger] c[i] == c[0] by {
        if i < matching.len() {
            assert(matching[i] == pid);
        }
        if matching.len() > 0 {
            assert(matching[0] == pid);
        }
    }
}

/// What leaves the registry with a machine is what names that machine.
pub proof fn law_what_leaves_with_a_machine(
    v: Seq<GoldenConnection>,
    owners: Seq<(u64, u32)>,
    pid: u32,
    c: GoldenConnection,
    o: (u64, u32),
)
    ensures
        v.filter(other_machine(pid)).contains(c) <==> v.contains(c) && c.pid != pid,
        owners.filter(other_owner(pid)).contains(o) <==> owners.contains(o) && o.1 != pid,
{
    lemma_filter_members(v, other_machine(pid), c);
    lemma_filter_members(owners, other_owner(pid), o);
}

// ---------------------------------------------------------------------------
// Layouts and snapshots
// ---------------------------------------------------------------------------

/// A clone waits no longer once it is served by its golden process or a kindred one; nor
/// when its machine is known and gone. Every other one waits on.
pub proof fn law_clones_that_wait(
    v: Seq<LayoutWaiter>,
    token: u64,
    clone_id: u64,
    kin: Seq<(u64, u64)>,
    live: Seq<u32>,
    w: LayoutWaiter,
)
    ensures
        v.filter(not_served(token, clone_id, kin)).contains(w) <==> v.contains(w) && !(w.clone_id
            == clone_id && (w.token == token || kin.contains((w.token, token)))),
        v.filter(may_connect(live)).contains(w) <==> v.contains(w) && (w.vm_pid == 0
            || live.contains(w.vm_pid)),
        v.filter(other_waiter(token, clone_id)).contains(w) <==> v.contains(w) && !(w.token == token
            && w.clone_id == clone_id),
{
    lemma_filter_members(v, not_served(token, clone_id, kin), w);
    lemma_filter_members(v, may_connect(live), w);
    lemma_filter_members(v, other_waiter(token, clone_id), w);
}

/// A snapshot goes only when its golden's machine is known and gone and no worker is for
/// it or a kindred one; it counts while that machine lives.
pub proof fn law_snapshots_that_stay(
    v: Seq<SnapshotEntry>,
    live: Seq<u32>,
    workers: Seq<u64>,
    kin: Seq<(u64, u64)>,
    s: SnapshotEntry,
)
    ensures
        ({
            let needed = exists|i: int|
                0 <= i < workers.len() && (#[trigger] workers[i] == s.token || kin.contains(
                    (workers[i], s.token),
                ));
            let gone = s.golden_pid != 0 && !live.contains(s.golden_pid) && !needed;
            &&& v.filter(snapshot_kept(live, workers, kin)).contains(s) <==> v.contains(s) && !gone
            &&& v.filter(snapshot_expired(live, workers, kin)).contains(s) <==> v.contains(s)
                && gone
            &&& v.filter(snapshot_live(live, workers, kin)).contains(s) <==> v.contains(s)
                && s.golden_pid != 0 && live.contains(s.golden_pid)
        }),
{
    lemma_filter_members(v, snapshot_kept(live, workers, kin), s);
    lemma_filter_members(v, snapshot_expired(live, workers, kin), s);
    lemma_filter_members(v, snapshot_live(live, workers, kin), s);
    let needed = exists|i: int|
        0 <= i < workers.len() && (#[trigger] workers[i] == s.token || kin.contains(
            (workers[i], s.token),
        ));
    let found = exists|i: int| 0 <= i < workers.len() && kindred(kin, #[trigger] workers[i], s.token);
    assert(needed == found) by {
        if needed {
            let i = choose|i: int|
                0 <= i < workers.len() && (#[trigger] workers[i] == s.token || kin.contains(
                    (workers[i], s.token),
                ));
            assert(kindred(kin, workers[i], s.token));
        }
        if found {
            let i = choose|i: int|
                0 <= i < workers.len() && kindred(kin, #[trigger] workers[i], s.token);
            assert(workers[i] == s.token || kin.contains((workers[i], s.token)));
        }
    }
}

proof fn lemma_snapshot_at(v: Seq<SnapshotEntry>, token: u64, from: int)
    requires
        0 <= from,
    ensures
        match snapshot_at(v, token, from) {
            Some(i) => from <= i < v.len() && v[i].token == token,
            None => forall|i: int| from <= i < v.len() ==> (#[trigger] v[i]).token != token,
        },
    decreases v.len() - from,
{
    if from < v.len() && v[from].token != token {
        lemma_snapshot_at(v, token, from + 1);
    }
}

proof fn lemma_kin_snapshot_at(
    v: Seq<SnapshotEntry>,
    token: u64,
    kin: Seq<(u64, u64)>,
    from: int,
)
    requires
        0 <= from,
    ensures
        match kin_snapshot_at(v, token, kin, from) {
            Some(i) => from <= i < v.len() && kindred(kin, v[i].token, token),
            None => forall|i: int|
                from <= i < v.len() ==> !kindred(kin, (#[trigger] v[i]).token, token),
        },
    decreases v.len() - from,
{
    if from < v.len() && !kindred(kin, v[from].token, token) {
        lemma_kin_snapshot_at(v, token, kin, from + 1);
    }
}

/// The snapshot for a token is one of that token if there is one, else one of a kindred
/// token if there is one, else none.
pub proof fn law_snapshot_for_a_token(v: Seq<SnapshotEntry>, token: u64, kin: Seq<(u64, u64)>)
    ensures
        ({
            let own = exists|i: int| 0 <= i < v.len() && (#[trigger] v[i]).token == token;
            let related = exists|i: int|
                0 <= i < v.len() && kin.contains(((#[trigger] v[i]).token, token));
            match snapshot_for(v, token, kin) {
                Some(i) => 0 <= i < v.len() && (own ==> v[i].token == token) && (v[i].token == token
                    || kin.contains((v[i].token, token))),
                None => !own && !related,
            }
        }),
{
    lemma_snapshot_at(v, token, 0);
    lemma_kin_snapshot_at(v, token, kin, 0);
}

/// Binding a snapshot to a machine changes at most the machine of the one for its token,
/// and only if that one was bound to none.
pub proof fn law_binding_touches_one_snapshot(
    v: Seq<SnapshotEntry>,
    token: u64,
    pid: u32,
    kin: Seq<(u64, u64)>,
    i: int,
)
    requires
        0 <= i < v.len(),
    ensures
        ({
            let after = bound_to(v, token, pid, kin);
            &&& after.len() == v.len()
            &&& after[i].token == v[i].token && after[i].host_bytes == v[i].host_bytes
            &&& v[i].golden_pid != 0 || snapshot_for(v, token, kin) != Some(i) ==> after[i] == v[i]
            &&& v[i].golden_pid == 0 && snapshot_for(v, token, kin) == Some(i)
                ==> after[i].golden_pid == pid
        }),
{
    law_snapshot_for_a_token(v, token, kin);
}

// ---------------------------------------------------------------------------
// Module handoffs
// ---------------------------------------------------------------------------

/// A handoff that was kept stays as long as its golden process still has the modules that
/// it describes.
pub proof fn law_handoffs_that_stay(v: Seq<BlobEntry>, current: Seq<(u64, u64)>, e: BlobEntry)
    ensures
        v.filter(up_to_date(current)).contains(e) <==> v.contains(e) && current.contains(
            (e.token, e.revision),
        ),
{
    lemma_filter_members(v, up_to_date(current), e);
}

proof fn lemma_blob_at(v: Seq<BlobEntry>, token: u64, from: int)
    requires
        0 <= from,
    ensures
        match blob_at(v, token, from) {
            Some(i) => from <= i < v.len() && v[i].token == token,
            None => forall|i: int| from <= i < v.len() ==> (#[trigger] v[i]).token != token,
        },
    decreases v.len() - from,
{
    if from < v.len() && v[from].token != token {
        lemma_blob_at(v, token, from + 1);
    }
}

proof fn lemma_kin_blob(v: Seq<BlobEntry>, token: u64, kin: Seq<(u64, u64)>, from: int)
    requires
        0 <= from,
    ensures
        match kin_blob(v, token, kin, from) {
            Some(i) => from <= i < v.len() && kindred(kin, v[i].token, token),
            None => forall|i: int|
                from <= i < v.len() ==> !kindred(kin, (#[trigger] v[i]).token, token),
        },
    decreases v.len() - from,
{
    if from < v.len() && !kindred(kin, v[from].token, token) {
        lemma_kin_blob(v, token, kin, from + 1);
    }
}

/// The handoff for a token is one of that token if there is one, else one of a kindred
/// token if there is one, else none.
pub proof fn law_handoff_for_a_token(v: Seq<BlobEntry>, token: u64, kin: Seq<(u64, u64)>)
    ensures
        ({
            let own = exists|i: int| 0 <= i < v.len() && (#[trigger] v[i]).token == token;
            let related = exists|i: int|
                0 <= i < v.len() && kin.contains(((#[trigger] v[i]).token, token));
            match blob_for(v, token, kin) {
                Some(i) => 0 <= i < v.len() && (own ==> v[i].token == token) && (v[i].token == token
                    || kin.contains((v[i].token, token))),
                None => !own && !related,
            }
        }),
{
    lemma_blob_at(v, token, 0);
    lemma_kin_blob(v, token, kin, 0);
}

/// Handoffs take the bytes of their messages and of their images, all together.
pub proof fn law_bytes_of_handoffs(v: Seq<BlobEntry>)
    ensures
        blobs_bytes(v) as int == if sum_of(
            v.map_values(|e: BlobEntry| e.bytes + e.image_bytes),
        ) <= u64::MAX {
            sum_of(v.map_values(|e: BlobEntry| e.bytes + e.image_bytes))
        } else {
            u64::MAX as int
        },
        sum_of(v.map_values(|e: BlobEntry| e.bytes + e.image_bytes)) >= 0,
    decreases v.len(),
{
    let all = v.map_values(|e: BlobEntry| e.bytes + e.image_bytes);
    if v.len() == 0 {
        assert(all =~= Seq::empty());
        lemma_sum_empty();
    } else {
        let front = v.drop_last();
        law_bytes_of_handoffs(front);
        let before = front.map_values(|e: BlobEntry| e.bytes + e.image_bytes);
        let x = v.last().bytes + v.last().image_bytes;
        assert(all =~= before.push(x));
        lemma_sum_push(before, x);
    }
}

// ---------------------------------------------------------------------------
// Services
// ---------------------------------------------------------------------------

/// What is removed behind a private service lies below its directories, and each directory
/// goes after what lies in it.
pub proof fn law_service_leaves_nothing(dir: Seq<char>, i: int)
    ensures
        ({
            let v = pipe_removals(Some(dir));
            &&& v.len() == 6 && v[5] == (true, dir)
            &&& 0 <= i < 5 ==> !v[i].0 && exists|name: Seq<char>|
                v[i].1 == #[trigger] joined(dir, name)
        }),
        ({
            let v = log_removals(Some(dir));
            &&& v.len() == 3 && v[2] == (true, dir)
            &&& 0 <= i < 2 ==> !v[i].0 && exists|name: Seq<char>|
                v[i].1 == #[trigger] joined(dir, name)
        }),
        pipe_removals(None).len() == 0 && log_removals(None).len() == 0,
{
    let v = pipe_removals(Some(dir));
    assert(v[0].1 == joined(dir, "control"@));
    assert(v[1].1 == joined(dir, "control_privileged"@));
    assert(v[2].1 == joined(dir, "control_lock"@));
    assert(v[3].1 == joined(dir, "log"@));
    assert(v[4].1 == joined(dir, "nvidia-cuda-mps-control.pid"@));
    let w = log_removals(Some(dir));
    assert(w[0].1 == joined(dir, "control.log"@));
    assert(w[1].1 == joined(dir, "server.log"@));
}

} // verus!
