//! What each operation of the state database changes, and what it leaves alone.
use crate::db_model::{
    ClaimModel, DbModel, activating_slots, available_slots, claimable, commit_create, completed,
    completed_leases, deletable, deletion_begun, expired, finalized, first_claimable, heartbeaten,
    insert_if_free, is_retry_of, lease_at, lease_in_pool, lease_live, live_leases, live_on_device,
    merge_env, model_claim, ready_deficit, release_create, reserve_create, reserve_slot, resized,
    slot_activating, slot_available, transitioned, workspace_mounted,
};
use crate::records::{ForkLeaseState, ForkPoolSlotState, LeaseModel, SlotModel, VmModel};
use crate::table::lemma_count_zero;
use crate::text::{lemma_text_lt_total, lemma_text_lt_transitive, text_lt};
use vstd::prelude::*;

verus! {

/// The tables of machines, reservations, settings and snapshots are the same.
pub open spec fn same_machines(a: DbModel, b: DbModel) -> bool {
    a.vms == b.vms && a.reservations == b.reservations && a.config == b.config && a.snapshots
        == b.snapshots
}

/// The tables of pools, workers and leases are the same.
pub open spec fn same_pools(a: DbModel, b: DbModel) -> bool {
    a.pools == b.pools && a.slots == b.slots && a.leases == b.leases && a.config == b.config
        && a.snapshots == b.snapshots
}

/// The worker is the same but for its state, the time of its change and its error.
pub open spec fn same_worker(a: SlotModel, b: SlotModel) -> bool {
    a.pool_name == b.pool_name && a.machine_name == b.machine_name && a.lease_id == b.lease_id
        && a.created_at == b.created_at
}

/// The lease is the same but for its state, its times and its error.
pub open spec fn same_claim(a: LeaseModel, b: LeaseModel) -> bool {
    a.id == b.id && a.pool_name == b.pool_name && a.machine_name == b.machine_name
        && a.idempotency_key == b.idempotency_key && a.assignment == b.assignment
        && a.payload_sha256 == b.payload_sha256 && a.created_at == b.created_at && a.ttl_secs
        == b.ttl_secs
}

/// The lease holds its worker and its time is up.
pub open spec fn time_is_up(l: LeaseModel, now: u64) -> bool {
    (l.state == ForkLeaseState::Activating || l.state == ForkLeaseState::Active) && l.expires_at
        <= now
}

// ---------------------------------------------------------------------------
// Expiry
// ---------------------------------------------------------------------------

/// Expiry touches no other worker: one that no lease whose time is up is for stays as it
/// is, and so does every machine, pool, reservation, setting and snapshot.
pub proof fn law_expiry_touches_no_other_worker(db: DbModel, now: u64, machine: Seq<char>)
    requires
        forall|id: Seq<char>| #[trigger]
            db.leases.contains_key(id) && time_is_up(db.leases[id], now)
                ==> db.leases[id].machine_name != machine,
    ensures
        ({
            let after = expired(db, now);
            &&& same_machines(after, db)
            &&& after.pools == db.pools
            &&& after.slots.contains_key(machine) == db.slots.contains_key(machine)
            &&& db.slots.contains_key(machine) ==> after.slots[machine] == db.slots[machine]
        }),
{
}

/// Expiry ends each lease whose time is up and marks its worker for clean-up, with the
/// error it had; it changes nothing else of either, and no other lease.
pub proof fn law_expiry_of_a_lease(db: DbModel, now: u64, id: Seq<char>)
    requires
        db.leases.contains_key(id),
    ensures
        ({
            let l = db.leases[id];
            let after = expired(db, now);
            let k = after.leases[id];
            let machine = l.machine_name;
            &&& after.leases.dom() == db.leases.dom()
            &&& after.slots.dom() == db.slots.dom()
            &&& !time_is_up(l, now) ==> k == l
            &&& time_is_up(l, now) ==> same_claim(k, l) && k.state == ForkLeaseState::Expired
                && k.updated_at == now && k.expires_at == l.expires_at && k.last_error
                == l.last_error
            &&& time_is_up(l, now) && db.slots.contains_key(machine) ==> same_worker(
                after.slots[machine],
                db.slots[machine],
            ) && after.slots[machine].state == ForkPoolSlotState::Retiring
                && after.slots[machine].updated_at == now && after.slots[machine].last_error
                == db.slots[machine].last_error
        }),
{
    let after = expired(db, now);
    assert(after.leases.dom() =~= db.leases.dom());
    assert(after.slots.dom() =~= db.slots.dom());
}

// ---------------------------------------------------------------------------
// Lease transitions
// ---------------------------------------------------------------------------

/// A lease that is not in the state a step starts from is not touched, nor is anything
/// else.
pub proof fn law_step_from_another_state_does_nothing(
    db: DbModel,
    id: Seq<char>,
    expected: ForkLeaseState,
    next: ForkLeaseState,
    slot_next: ForkPoolSlotState,
    now: u64,
    error: Option<Seq<char>>,
)
    requires
        !db.leases.contains_key(id) || db.leases[id].state != expected,
    ensures
        transitioned(db, id, expected, next, slot_next, now, error) == db,
{
}

/// A step of a lease changes that lease and its worker: their states, the time of the
/// change and the error, and from claim to use the time it ends. Every other lease, worker
/// and table stays.
pub proof fn law_step_touches_one_lease(
    db: DbModel,
    id: Seq<char>,
    next: ForkLeaseState,
    slot_next: ForkPoolSlotState,
    now: u64,
    error: Option<Seq<char>>,
    other: Seq<char>,
)
    requires
        db.leases.contains_key(id),
    ensures
        ({
            let l = db.leases[id];
            let machine = l.machine_name;
            let after = transitioned(db, id, l.state, next, slot_next, now, error);
            let k = after.leases[id];
            &&& same_machines(after, db)
            &&& after.pools == db.pools
            &&& after.leases.dom() == db.leases.dom()
            &&& after.slots.dom() == db.slots.dom()
            &&& same_claim(k, l) && k.state == next && k.updated_at == now && k.last_error == error
            &&& l.state == ForkLeaseState::Activating && next == ForkLeaseState::Active
                ==> k.expires_at as int == if now + l.ttl_secs <= u64::MAX {
                now + l.ttl_secs
            } else {
                u64::MAX as int
            }
            &&& !(l.state == ForkLeaseState::Activating && next == ForkLeaseState::Active)
                ==> k.expires_at == l.expires_at
            &&& other != id ==> after.leases[other] == db.leases[other]
            &&& other != machine ==> after.slots[other] == db.slots[other]
            &&& db.slots.contains_key(machine) ==> same_worker(
                after.slots[machine],
                db.slots[machine],
            ) && after.slots[machine].state == slot_next && after.slots[machine].updated_at == now
                && after.slots[machine].last_error == error
        }),
{
    let l = db.leases[id];
    let after = transitioned(db, id, l.state, next, slot_next, now, error);
    assert(after.leases.dom() =~= db.leases.dom());
    assert(after.slots.dom() =~= db.slots.dom());
}

/// A heartbeat moves the end of one lease that is in use and not over, of the pool that
/// was named; nothing else changes.
pub proof fn law_heartbeat_touches_one_lease(
    db: DbModel,
    pool: Seq<char>,
    id: Seq<char>,
    now: u64,
    other: Seq<char>,
)
    ensures
        ({
            let after = heartbeaten(db, pool, id, now);
            let beats = db.leases.contains_key(id) && db.leases[id].pool_name == pool
                && db.leases[id].state == ForkLeaseState::Active && db.leases[id].expires_at > now;
            &&& !beats ==> after == db
            &&& same_machines(after, db) && after.pools == db.pools && after.slots == db.slots
            &&& after.leases.dom() == db.leases.dom()
            &&& other != id ==> after.leases[other] == db.leases[other]
            &&& beats ==> same_claim(after.leases[id], db.leases[id]) && after.leases[id].state
                == ForkLeaseState::Active && after.leases[id].updated_at == now
                && after.leases[id].last_error == db.leases[id].last_error
                && after.leases[id].expires_at as int == if now + db.leases[id].ttl_secs
                <= u64::MAX {
                now + db.leases[id].ttl_secs
            } else {
                u64::MAX as int
            }
        }),
{
    assert(heartbeaten(db, pool, id, now).leases.dom() =~= db.leases.dom());
}

/// A lease of another pool, or one that is not in use, is not completed; one that is ends
/// as completed without an error, and its worker is marked for clean-up.
pub proof fn law_completion_of_a_lease(
    db: DbModel,
    pool: Seq<char>,
    id: Seq<char>,
    now: u64,
    other: Seq<char>,
)
    ensures
        ({
            let after = completed(db, pool, id, now);
            let ends = db.leases.contains_key(id) && db.leases[id].pool_name == pool
                && db.leases[id].state == ForkLeaseState::Active;
            let machine = db.leases[id].machine_name;
            &&& !ends ==> after == db
            &&& same_machines(after, db) && after.pools == db.pools
            &&& after.leases.dom() == db.leases.dom() && after.slots.dom() == db.slots.dom()
            &&& other != id ==> after.leases[other] == db.leases[other]
            &&& ends ==> same_claim(after.leases[id], db.leases[id]) && after.leases[id].state
                == ForkLeaseState::Completed && after.leases[id].last_error is None
                && after.leases[id].expires_at == db.leases[id].expires_at
                && after.leases[id].updated_at == now
            &&& ends && other != machine ==> after.slots[other] == db.slots[other]
            &&& ends && db.slots.contains_key(machine) ==> same_worker(
                after.slots[machine],
                db.slots[machine],
            ) && after.slots[machine].state == ForkPoolSlotState::Retiring
                && after.slots[machine].last_error is None && after.slots[machine].updated_at == now
        }),
{
    let after = completed(db, pool, id, now);
    assert(after.leases.dom() =~= db.leases.dom());
    assert(after.slots.dom() =~= db.slots.dom());
}

/// A lease is found by its name, and in a pool only where it is of that pool.
pub proof fn law_lease_lookup(db: DbModel, pool: Seq<char>, id: Seq<char>)
    ensures
        lease_at(db, id) is Some <==> db.leases.contains_key(id),
        db.leases.contains_key(id) ==> lease_at(db, id) == Some(db.leases[id]),
        lease_in_pool(db, pool, id) is Some <==> db.leases.contains_key(id)
            && db.leases[id].pool_name == pool,
        lease_in_pool(db, pool, id) is Some ==> lease_in_pool(db, pool, id) == Some(db.leases[id]),
{
}

// ---------------------------------------------------------------------------
// Create reservations
// ---------------------------------------------------------------------------

/// Reserving, storing and giving back a name touch no other name and no other table; a
/// refused one stores nothing.
pub proof fn law_reservations_touch_one_name(
    db: DbModel,
    name: Seq<char>,
    token: Seq<char>,
    pid: u32,
    alive: bool,
    now: u64,
    vm: VmModel,
    other: Seq<char>,
)
    ensures
        ({
            let a = reserve_create(db, name, token, pid, alive, now);
            let b = commit_create(db, name, token, vm);
            let c = release_create(db, name, token);
            let d = insert_if_free(db, name, vm);
            &&& same_pools(a.1, db) && same_pools(b.1, db) && same_pools(c, db) && same_pools(
                d.1,
                db,
            )
            &&& a.1.vms == db.vms && c.vms == db.vms && d.1.reservations == db.reservations
            &&& !a.0 ==> a.1.reservations == db.reservations || a.1.reservations
                == db.reservations.remove(name)
            &&& a.0 ==> !db.vms.contains_key(name) && a.1.reservations.contains_key(name)
                && a.1.reservations[name].owner_token == token && a.1.reservations[name].owner_pid
                == pid && a.1.reservations[name].created_at == now
            &&& b.0 <==> db.reservations.contains_key(name) && db.reservations[name].owner_token
                == token && !db.vms.contains_key(name)
            &&& b.0 ==> b.1.vms == db.vms.insert(name, vm)
            &&& !b.0 ==> b.1.vms == db.vms
            &&& d.0 <==> !db.vms.contains_key(name) && !db.reservations.contains_key(name)
            &&& d.0 ==> d.1.vms == db.vms.insert(name, vm)
            &&& !d.0 ==> d.1 == db
            &&& other != name ==> {
                &&& a.1.reservations.contains_key(other) == db.reservations.contains_key(other)
                &&& a.1.reservations[other] == db.reservations[other]
                &&& b.1.reservations.contains_key(other) == db.reservations.contains_key(other)
                &&& b.1.reservations[other] == db.reservations[other]
                &&& c.reservations.contains_key(other) == db.reservations.contains_key(other)
                &&& c.reservations[other] == db.reservations[other]
            }
            &&& db.reservations.contains_key(name) && db.reservations[name].owner_token == token
                ==> !b.1.reservations.contains_key(name) && !c.reservations.contains_key(name)
            &&& db.reservations.contains_key(name) && db.reservations[name].owner_token != token
                ==> b.1 == db && c == db
        }),
{
}

/// A name is refused to a reservation exactly while a machine has it, or another holds it
/// whose owner lives and that is under an hour old.
pub proof fn law_name_is_refused_while_held(
    db: DbModel,
    name: Seq<char>,
    token: Seq<char>,
    pid: u32,
    alive: bool,
    now: u64,
)
    requires
        now >= 3600,
    ensures
        reserve_create(db, name, token, pid, alive, now).0 <==> !db.vms.contains_key(name) && !(
        db.reservations.contains_key(name) && db.reservations[name].owner_pid > 0 && alive
            && db.reservations[name].created_at + 3600 > now),
{
}

// ---------------------------------------------------------------------------
// Pools
// ---------------------------------------------------------------------------

/// A worker that a claim could still get.
pub open spec fn unclaimed(s: SlotModel, pool: Seq<char>) -> bool {
    s.pool_name == pool && (s.state == ForkPoolSlotState::Provisioning || s.state
        == ForkPoolSlotState::Ready)
}

/// What counts of a pool: workers that a claim could get, workers being started, leases
/// that hold a worker, and leases that were completed.
pub proof fn law_what_a_pool_counts(db: DbModel, pool: Seq<char>)
    ensures
        available_slots(db, pool) == db.slots.dom().filter(
            |k: Seq<char>| unclaimed(db.slots[k], pool),
        ).len(),
        activating_slots(db, pool) == db.slots.dom().filter(
            |k: Seq<char>|
                db.slots[k].pool_name == pool && db.slots[k].state == ForkPoolSlotState::Activating,
        ).len(),
        live_leases(db, pool) == db.leases.dom().filter(
            |k: Seq<char>|
                db.leases[k].pool_name == pool && (db.leases[k].state
                    == ForkLeaseState::Activating || db.leases[k].state == ForkLeaseState::Active),
        ).len(),
        completed_leases(db, pool) == db.leases.dom().filter(
            |k: Seq<char>|
                db.leases[k].pool_name == pool && db.leases[k].state == ForkLeaseState::Completed,
        ).len(),
{
    let a = |s: SlotModel| slot_available(s, pool);
    assert(db.slots.dom().filter(|k: Seq<char>| a(db.slots[k])) =~= db.slots.dom().filter(
        |k: Seq<char>| unclaimed(db.slots[k], pool),
    ));
    let b = |s: SlotModel| slot_activating(s, pool);
    assert(db.slots.dom().filter(|k: Seq<char>| b(db.slots[k])) =~= db.slots.dom().filter(
        |k: Seq<char>|
            db.slots[k].pool_name == pool && db.slots[k].state == ForkPoolSlotState::Activating,
    ));
    let c = |l: LeaseModel| l.pool_name == pool && lease_live(l);
    assert(db.leases.dom().filter(|k: Seq<char>| c(db.leases[k])) =~= db.leases.dom().filter(
        |k: Seq<char>|
            db.leases[k].pool_name == pool && (db.leases[k].state == ForkLeaseState::Activating
                || db.leases[k].state == ForkLeaseState::Active),
    ));
    let d = |l: LeaseModel| l.pool_name == pool && l.state == ForkLeaseState::Completed;
    assert(db.leases.dom().filter(|k: Seq<char>| d(db.leases[k])) =~= db.leases.dom().filter(
        |k: Seq<char>|
            db.leases[k].pool_name == pool && db.leases[k].state == ForkLeaseState::Completed,
    ));
}

/// A pool wants as many workers as it lacks of those it is to have ready: none while it is
/// gone or going, or while a claimed worker is being started.
pub proof fn law_workers_a_pool_lacks(db: DbModel, pool: Seq<char>)
    ensures
        !db.pools.contains_key(pool) ==> ready_deficit(db, pool) == 0,
        db.pools.contains_key(pool) && db.pools[pool].deleting ==> ready_deficit(db, pool) == 0,
        activating_slots(db, pool) > 0 ==> ready_deficit(db, pool) == 0,
        db.pools.contains_key(pool) && !db.pools[pool].deleting && activating_slots(db, pool) == 0
            ==> {
            &&& ready_deficit(db, pool) >= 0
            &&& ready_deficit(db, pool) + available_slots(db, pool) >= db.pools[pool].desired_ready
            &&& ready_deficit(db, pool) > 0 ==> ready_deficit(db, pool) + available_slots(db, pool)
                == db.pools[pool].desired_ready
        },
{
}

/// A worker is reserved where the pool lacks one and its name is free: it is new and being
/// made, and nothing else changes.
pub proof fn law_reserving_a_worker(
    db: DbModel,
    pool: Seq<char>,
    machine: Seq<char>,
    now: u64,
    other: Seq<char>,
)
    ensures
        ({
            let (ok, after) = reserve_slot(db, pool, machine, now);
            &&& ok <==> ready_deficit(db, pool) > 0 && !db.slots.contains_key(machine)
            &&& !ok ==> after == db
            &&& same_machines(after, db) && after.pools == db.pools && after.leases == db.leases
            &&& other != machine ==> after.slots.contains_key(other) == db.slots.contains_key(other)
                && after.slots[other] == db.slots[other]
            &&& ok ==> {
                let s = after.slots[machine];
                &&& after.slots.contains_key(machine)
                &&& s.pool_name == pool && s.machine_name == machine && s.lease_id is None
                &&& s.state == ForkPoolSlotState::Provisioning && s.last_error is None
                &&& s.created_at == now && s.updated_at == now
            }
        }),
{
}

/// Resizing a pool sets what it is to have ready, and touches no other pool, no lease and
/// no machine. Of its workers it touches only those that a claim could get, and marks them
/// for clean-up; none while there are no more than wanted.
pub proof fn law_resizing_touches_one_pool(
    db: DbModel,
    pool: Seq<char>,
    desired: u32,
    now: u64,
    other: Seq<char>,
    machine: Seq<char>,
)
    requires
        db.pools.contains_key(pool),
        !db.pools[pool].deleting,
        db.slots.contains_key(machine),
    ensures
        ({
            let after = resized(db, pool, desired, now);
            let p = db.pools[pool];
            let q = after.pools[pool];
            let s = db.slots[machine];
            let t = after.slots[machine];
            &&& same_machines(after, db) && after.leases == db.leases
            &&& after.pools.dom() == db.pools.dom() && after.slots.dom() == db.slots.dom()
            &&& other != pool ==> after.pools[other] == db.pools[other]
            &&& q.desired_ready == desired && q.name == p.name && q.golden == p.golden
                && q.max_active == p.max_active && q.auto_admission == p.auto_admission
                && q.cuda_device_ordinal == p.cuda_device_ordinal && q.share_weights
                == p.share_weights && q.ready_timeout_secs == p.ready_timeout_secs
                && q.lease_ttl_secs == p.lease_ttl_secs && q.created_at == p.created_at
                && !q.deleting
            &&& !unclaimed(s, pool) ==> t == s
            &&& available_slots(db, pool) <= desired ==> t == s
            &&& t == s || (same_worker(t, s) && t.state == ForkPoolSlotState::Retiring
                && t.updated_at == now && t.last_error == s.last_error)
        }),
{
    let after = resized(db, pool, desired, now);
    assert(after.pools.dom() =~= db.pools.dom());
    assert(after.slots.dom() =~= db.slots.dom());
}

/// A pool that is gone or going is not resized.
pub proof fn law_closed_pool_is_not_resized(db: DbModel, pool: Seq<char>, desired: u32, now: u64)
    requires
        !db.pools.contains_key(pool) || db.pools[pool].deleting,
    ensures
        resized(db, pool, desired, now) == db,
{
}

/// Beginning to delete a pool touches no other pool, no worker or lease of another pool,
/// and no machine; of its own it marks every worker for clean-up and, by force, cancels
/// every lease that holds one.
pub proof fn law_deleting_touches_one_pool(
    db: DbModel,
    pool: Seq<char>,
    force: bool,
    now: u64,
    other: Seq<char>,
    machine: Seq<char>,
    id: Seq<char>,
)
    requires
        db.pools.contains_key(pool),
        force || live_leases(db, pool) == 0,
        db.slots.contains_key(machine),
        db.leases.contains_key(id),
    ensures
        ({
            let after = deletion_begun(db, pool, force, now);
            let s = db.slots[machine];
            let t = after.slots[machine];
            let l = db.leases[id];
            let k = after.leases[id];
            let p = db.pools[pool];
            let q = after.pools[pool];
            let live = l.state == ForkLeaseState::Activating || l.state == ForkLeaseState::Active;
            &&& same_machines(after, db)
            &&& after.pools.dom() == db.pools.dom() && after.slots.dom() == db.slots.dom()
            &&& after.leases.dom() == db.leases.dom()
            &&& other != pool ==> after.pools[other] == db.pools[other]
            &&& q.deleting && q.name == p.name && q.golden == p.golden && q.desired_ready
                == p.desired_ready && q.max_active == p.max_active && q.created_at == p.created_at
            &&& s.pool_name != pool ==> t == s
            &&& s.pool_name == pool ==> same_worker(t, s) && t.state == ForkPoolSlotState::Retiring
                && t.updated_at == now && t.last_error == s.last_error
            &&& l.pool_name != pool || !live || !force ==> k == l
            &&& l.pool_name == pool && live && force ==> same_claim(k, l) && k.state
                == ForkLeaseState::Cancelled && k.updated_at == now && k.expires_at == l.expires_at
                && k.last_error == l.last_error
        }),
{
    let after = deletion_begun(db, pool, force, now);
    assert(after.pools.dom() =~= db.pools.dom());
    assert(after.slots.dom() =~= db.slots.dom());
    assert(after.leases.dom() =~= db.leases.dom());
}

/// A pool that may not be deleted is not touched.
pub proof fn law_refused_deletion_changes_nothing(
    db: DbModel,
    pool: Seq<char>,
    force: bool,
    now: u64,
)
    requires
        !db.pools.contains_key(pool) || (!force && live_leases(db, pool) > 0),
    ensures
        deletion_begun(db, pool, force, now) == db,
        !deletable(db, pool, force),
{
}

/// Removing drained pools touches no worker and no machine; it removes a pool exactly when
/// it is being deleted and has no worker left, and a lease exactly when its pool goes.
pub proof fn law_removal_of_drained_pools(db: DbModel, pool: Seq<char>, id: Seq<char>)
    requires
        db.slots.dom().finite(),
    ensures
        ({
            let after = finalized(db);
            let empty = forall|k: Seq<char>| #[trigger]
                db.slots.contains_key(k) ==> db.slots[k].pool_name != pool;
            let goes = db.pools.contains_key(pool) && db.pools[pool].deleting && empty;
            &&& same_machines(after, db) && after.slots == db.slots
            &&& after.pools.contains_key(pool) <==> db.pools.contains_key(pool) && !goes
            &&& after.pools.contains_key(pool) ==> after.pools[pool] == db.pools[pool]
            &&& db.leases.contains_key(id) && db.leases[id].pool_name == pool ==> (
            after.leases.contains_key(id) <==> !goes)
            &&& after.leases.contains_key(id) ==> db.leases.contains_key(id) && after.leases[id]
                == db.leases[id]
        }),
{
    lemma_count_zero(db.slots, |s: SlotModel| s.pool_name == pool);
}

// ---------------------------------------------------------------------------
// Claims
// ---------------------------------------------------------------------------

/// A worker that is ready, of the pool, and whose machine is held where its golden was
/// forked.
pub open spec fn can_be_claimed(db: DbModel, pool: Seq<char>, name: Seq<char>) -> bool {
    &&& db.slots.contains_key(name) && db.slots[name].pool_name == pool && db.slots[name].state
        == ForkPoolSlotState::Ready
    &&& db.vms.contains_key(name) && db.vms[name].forkpoint_held && db.vms[name].golden == Some(
        db.pools[pool].golden,
    )
}

/// A claim stores one lease with what was asked for, gives its worker that lease, and
/// releases its machine with the assignment. No other lease, no other machine, no pool and
/// no worker that is not ready changes.
pub proof fn law_claim_touches_one_worker(db: DbModel, c: ClaimModel, other: Seq<char>)
    requires
        model_claim(db, c).0 is Claimed,
    ensures
        ({
            let l = model_claim(db, c).0->Claimed_0;
            let after = model_claim(db, c).1;
            let m = l.machine_name;
            &&& can_be_claimed(db, c.pool_name, m)
            &&& !db.leases.contains_key(c.lease_id)
            &&& after.leases == db.leases.insert(c.lease_id, l)
            &&& l.id == c.lease_id && l.pool_name == c.pool_name && l.idempotency_key
                == c.idempotency_key && l.assignment == c.assignment && l.payload_sha256
                == c.payload_sha256 && l.ttl_secs == c.ttl_secs
            &&& l.state == ForkLeaseState::Activating && l.created_at == c.now && l.updated_at
                == c.now && l.last_error is None && l.expires_at >= c.now
            &&& after.pools == db.pools && after.reservations == db.reservations && after.config
                == db.config && after.snapshots == db.snapshots
            &&& after.vms.dom() == db.vms.dom() && after.slots.dom() == db.slots.dom()
            &&& after.slots[m].state == ForkPoolSlotState::Activating && after.slots[m].lease_id
                == Some(c.lease_id) && after.slots[m].pool_name == c.pool_name
                && after.slots[m].machine_name == db.slots[m].machine_name
                && after.slots[m].created_at == db.slots[m].created_at && after.slots[m].updated_at
                == c.now
            &&& other != m ==> after.vms[other] == db.vms[other]
            &&& other != m && db.slots.contains_key(other) && (db.slots[other].pool_name
                != c.pool_name || db.slots[other].state != ForkPoolSlotState::Ready)
                ==> after.slots[other] == db.slots[other]
            &&& other != m && can_be_claimed(db, c.pool_name, other) ==> after.slots[other]
                == db.slots[other] && text_lt(m, other)
        }),
{
    let after = model_claim(db, c).1;
    let name = choose|name: Seq<char>| first_claimable(db, c.pool_name, name);
    assert(first_claimable(db, c.pool_name, name));
    assert(claimable(db, c.pool_name, name));
    if can_be_claimed(db, c.pool_name, other) {
        assert(claimable(db, c.pool_name, other));
    }
    assert(after.vms.dom() =~= db.vms.dom());
    assert(after.slots.dom() =~= db.slots.dom());
}

/// The machine of a claimed worker is no longer held, has the assignment among its own
/// variables and those of its fork, and is otherwise as it was.
pub proof fn law_claimed_machine_is_released(db: DbModel, c: ClaimModel)
    requires
        model_claim(db, c).0 is Claimed,
    ensures
        ({
            let m = model_claim(db, c).0->Claimed_0.machine_name;
            let v = db.vms[m];
            let w = model_claim(db, c).1.vms[m];
            &&& !w.forkpoint_held
            &&& w == VmModel {
                forkpoint_held: w.forkpoint_held,
                env: w.env,
                fork_env: w.fork_env,
                ..v
            }
            &&& w.env == merge_env(v.env, c.assignment)
            &&& w.fork_env == merge_env(v.fork_env, c.assignment)
        }),
{
}

/// Each claim that is no retry gets the first of these answers that applies: no such pool,
/// pool going, pool or device full, no worker, workspace not private, lease name taken,
/// claimed.
pub proof fn law_answer_of_a_claim(db: DbModel, c: ClaimModel)
    requires
        forall|id: Seq<char>| #[trigger]
            db.leases.contains_key(id) ==> !(db.leases[id].pool_name == c.pool_name
                && db.leases[id].idempotency_key == c.idempotency_key),
    ensures
        ({
            let answer = model_claim(db, c).0;
            let pool = db.pools[c.pool_name];
            let live = live_leases(db, c.pool_name);
            let full = (pool.max_active is Some && live >= pool.max_active->Some_0) || (
            c.admission_limit is Some && live >= c.admission_limit->Some_0.pool) || (
            c.admission_limit is Some && pool.auto_admission && pool.cuda_device_ordinal is Some
                && live_on_device(db, pool.cuda_device_ordinal->Some_0)
                >= c.admission_limit->Some_0.device);
            let known = db.pools.contains_key(c.pool_name);
            &&& answer is PoolNotFound <==> !known
            &&& answer is PoolDeleting <==> known && pool.deleting
            &&& answer is AtCapacity <==> known && !pool.deleting && full
            &&& answer is Claimed || answer is WorkspaceExternallyMounted || answer is NoReadySlot
                || answer is DuplicateLease <==> known && !pool.deleting && !full
            &&& answer is Claimed && c.require_private_workspace ==> !workspace_mounted(
                db.vms[answer->Claimed_0.machine_name],
            )
            &&& answer is WorkspaceExternallyMounted ==> c.require_private_workspace
            &&& answer is DuplicateLease ==> db.leases.contains_key(c.lease_id)
        }),
{
    assert(!exists|id: Seq<char>| is_retry_of(db, c, id)) by {
        if exists|id: Seq<char>| is_retry_of(db, c, id) {
            let id = choose|id: Seq<char>| is_retry_of(db, c, id);
            assert(db.leases.contains_key(id));
        }
    }
}

/// While the pool of a claim is open and not full, a worker that can be claimed is found.
pub proof fn law_claimable_worker_is_found(db: DbModel, c: ClaimModel, name: Seq<char>)
    requires
        db.slots.dom().finite(),
        can_be_claimed(db, c.pool_name, name),
    ensures
        !(model_claim(db, c).0 is NoReadySlot),
{
    let all = db.slots.dom().filter(|k: Seq<char>| can_be_claimed(db, c.pool_name, k));
    assert(all.contains(name));
    let first = lemma_first_name(all);
    assert forall|other: Seq<char>| #[trigger]
        claimable(db, c.pool_name, other) && other != first implies text_lt(first, other) by {
        assert(all.contains(other));
    }
    assert(claimable(db, c.pool_name, first));
    assert(first_claimable(db, c.pool_name, first));
}

/// A finite set of names that has one has a first one.
proof fn lemma_first_name(names: Set<Seq<char>>) -> (first: Seq<char>)
    requires
        names.finite(),
        names.len() > 0 || !names.is_empty(),
    ensures
        names.contains(first),
        forall|k: Seq<char>| #[trigger] names.contains(k) && k != first ==> text_lt(first, k),
    decreases names.len(),
{
    let x = names.choose();
    let rest = names.remove(x);
    if rest.len() == 0 {
        assert forall|k: Seq<char>| #[trigger] names.contains(k) && k != x implies text_lt(
            x,
            k,
        ) by {
            assert(rest.contains(k));
        }
        x
    } else {
        let y = lemma_first_name(rest);
        lemma_text_lt_total(x, y);
        if text_lt(y, x) {
            assert forall|k: Seq<char>| #[trigger] names.contains(k) && k != y implies text_lt(
                y,
                k,
            ) by {
                if k != x {
                    assert(rest.contains(k));
                }
            }
            y
        } else {
            assert forall|k: Seq<char>| #[trigger] names.contains(k) && k != x implies text_lt(
                x,
                k,
            ) by {
                assert(rest.contains(k));
                if k != y {
                    lemma_text_lt_transitive(x, y, k);
                }
            }
            x
        }
    }
}

} // verus!
