//! What the state database holds and what each operation makes of it.
use crate::numerals::{sat_add, sat_sub};
use crate::records::{
    ForkLeaseState, ForkPoolAdmissionLimit, ForkPoolSlotState, LeaseModel, PoolModel,
    ReservationModel, SlotModel, SnapshotModel, VmModel,
};
use crate::split::split_on;
use crate::table::count_where;
use crate::text::text_lt;
use vstd::prelude::*;

verus! {

/// Seconds after which a create reservation is stale.
pub const CREATE_RESERVATION_TTL_SECS: u64 = 3600;

/// Seconds a claimed worker may take to start before its lease expires: a choice made
/// here, which nothing else in the tables depends on.
pub const FORK_LEASE_ACTIVATION_GRACE_SECS: u64 = 300;

/// The tables of the state database, each as a map from its key.
#[verifier::ext_equal]
pub struct DbModel {
    pub vms: Map<Seq<char>, VmModel>,
    pub reservations: Map<Seq<char>, ReservationModel>,
    pub config: Map<Seq<char>, Seq<char>>,
    pub pools: Map<Seq<char>, PoolModel>,
    pub snapshots: Map<Seq<char>, SnapshotModel>,
    pub slots: Map<Seq<char>, SlotModel>,
    pub leases: Map<Seq<char>, LeaseModel>,
}

/// Keys agree with the records under them, and no two leases of a pool share a
/// retry key.
pub open spec fn db_valid(db: DbModel) -> bool {
    &&& db.vms.dom().finite()
    &&& db.pools.dom().finite()
    &&& db.slots.dom().finite()
    &&& db.leases.dom().finite()
    &&& forall|k: Seq<char>| #[trigger] db.pools.contains_key(k) ==> db.pools[k].name == k
    &&& forall|k: Seq<char>| #[trigger] db.slots.contains_key(k) ==> db.slots[k].machine_name == k
    &&& forall|k: Seq<char>| #[trigger] db.leases.contains_key(k) ==> db.leases[k].id == k
    &&& forall|a: Seq<char>, b: Seq<char>|
        #![trigger db.leases.contains_key(a), db.leases.contains_key(b)]
        db.leases.contains_key(a) && db.leases.contains_key(b) && db.leases[a].pool_name
            == db.leases[b].pool_name && db.leases[a].idempotency_key
            == db.leases[b].idempotency_key ==> a == b
}

/// `m` with each value `v` under `k` replaced by `f(k, v)`.
pub open spec fn map_entries<V>(
    m: Map<Seq<char>, V>,
    f: spec_fn(Seq<char>, V) -> V,
) -> Map<Seq<char>, V> {
    Map::new(|k: Seq<char>| m.contains_key(k), |k: Seq<char>| f(k, m[k]))
}

// ---------------------------------------------------------------------------
// Environment lists
// ---------------------------------------------------------------------------

/// A variable is for another key.
pub open spec fn other_than(key: Seq<char>) -> spec_fn((Seq<char>, Seq<char>)) -> bool {
    |p: (Seq<char>, Seq<char>)| p.0 != key
}

/// `env` with `key` set to `value`: earlier entries of the key are dropped and
/// the new one comes last.
pub open spec fn set_env(
    env: Seq<(Seq<char>, Seq<char>)>,
    key: Seq<char>,
    value: Seq<char>,
) -> Seq<(Seq<char>, Seq<char>)> {
    env.filter(other_than(key)).push((key, value))
}

/// `base` with every pair of `over` set, in order. That a variable is replaced rather than
/// repeated, and moves behind the others, is a choice made here.
pub open spec fn merge_env(
    base: Seq<(Seq<char>, Seq<char>)>,
    over: Seq<(Seq<char>, Seq<char>)>,
) -> Seq<(Seq<char>, Seq<char>)>
    decreases over.len(),
{
    if over.len() == 0 {
        base
    } else {
        set_env(merge_env(base, over.drop_last()), over.last().0, over.last().1)
    }
}

// ---------------------------------------------------------------------------
// Mount targets
// ---------------------------------------------------------------------------

/// The components of a path after `.`, `..` and empty ones are resolved; a `..`
/// at the root stays at the root.
pub open spec fn normalized(parts: Seq<Seq<char>>) -> Seq<Seq<char>>
    decreases parts.len(),
{
    if parts.len() == 0 {
        Seq::empty()
    } else {
        let before = normalized(parts.drop_last());
        let part = parts.last();
        if part.len() == 0 || part == seq!['.'] {
            before
        } else if part == seq!['.', '.'] {
            if before.len() > 0 {
                before.drop_last()
            } else {
                before
            }
        } else {
            before.push(part)
        }
    }
}

/// Whether a mount target lies in the workspace directory.
pub open spec fn in_workspace(target: Seq<char>) -> bool {
    let parts = normalized(split_on(target, '/'));
    parts.len() > 0 && parts[0] == "workspace"@
}

/// Whether some mount of the machine lies in the workspace directory.
pub open spec fn workspace_mounted(vm: VmModel) -> bool {
    exists|i: int| 0 <= i < vm.mounts.len() && in_workspace(#[trigger] vm.mounts[i].1)
}

// ---------------------------------------------------------------------------
// Create reservations
// ---------------------------------------------------------------------------

/// Whether a reservation no longer counts: its owner is gone, or it is too old.
pub open spec fn reservation_stale(r: ReservationModel, owner_alive: bool, now: u64) -> bool {
    !(r.owner_pid > 0 && owner_alive) || r.created_at <= sat_sub(
        now as int,
        CREATE_RESERVATION_TTL_SECS as int,
    )
}

/// The reservations once a stale one for `name` is dropped.
pub open spec fn reap_reservation(
    db: DbModel,
    name: Seq<char>,
    owner_alive: bool,
    now: u64,
) -> Map<Seq<char>, ReservationModel> {
    if db.reservations.contains_key(name) && reservation_stale(
        db.reservations[name],
        owner_alive,
        now,
    ) {
        db.reservations.remove(name)
    } else {
        db.reservations
    }
}

/// Whether `name` can be reserved, and the database afterwards.
pub open spec fn reserve_create(
    db: DbModel,
    name: Seq<char>,
    token: Seq<char>,
    pid: u32,
    owner_alive: bool,
    now: u64,
) -> (bool, DbModel) {
    let reaped = reap_reservation(db, name, owner_alive, now);
    if db.vms.contains_key(name) || reaped.contains_key(name) {
        (false, DbModel { reservations: reaped, ..db })
    } else {
        (
            true,
            DbModel {
                reservations: reaped.insert(
                    name,
                    ReservationModel {
                        owner_token: token,
                        owner_pid: pid as i64,
                        created_at: now,
                    },
                ),
                ..db
            },
        )
    }
}

/// Whether a reserved machine is stored, and the database afterwards.
pub open spec fn commit_create(
    db: DbModel,
    name: Seq<char>,
    token: Seq<char>,
    vm: VmModel,
) -> (bool, DbModel) {
    if !owns_reservation(db, name, token) {
        (false, db)
    } else if db.vms.contains_key(name) {
        (false, DbModel { reservations: db.reservations.remove(name), ..db })
    } else {
        (
            true,
            DbModel {
                vms: db.vms.insert(name, vm),
                reservations: db.reservations.remove(name),
                ..db
            },
        )
    }
}

/// The database after `token` gives its reservation of `name` back.
pub open spec fn release_create(db: DbModel, name: Seq<char>, token: Seq<char>) -> DbModel {
    if owns_reservation(db, name, token) {
        DbModel { reservations: db.reservations.remove(name), ..db }
    } else {
        db
    }
}

/// Whether a machine is stored under a name that must be free, and the database
/// afterwards.
pub open spec fn insert_if_free(db: DbModel, name: Seq<char>, vm: VmModel) -> (bool, DbModel) {
    if db.vms.contains_key(name) || db.reservations.contains_key(name) {
        (false, db)
    } else {
        (true, DbModel { vms: db.vms.insert(name, vm), ..db })
    }
}

/// Whether a worker is reserved, and the database afterwards.
pub open spec fn reserve_slot(
    db: DbModel,
    pool: Seq<char>,
    machine: Seq<char>,
    now: u64,
) -> (bool, DbModel) {
    if ready_deficit(db, pool) > 0 && !db.slots.contains_key(machine) {
        (
            true,
            DbModel { slots: db.slots.insert(machine, fresh_slot(pool, machine, now)), ..db },
        )
    } else {
        (false, db)
    }
}

/// Whether `token` holds the reservation of `name`.
pub open spec fn owns_reservation(db: DbModel, name: Seq<char>, token: Seq<char>) -> bool {
    db.reservations.contains_key(name) && db.reservations[name].owner_token == token
}

// ---------------------------------------------------------------------------
// Slots and leases
// ---------------------------------------------------------------------------

/// A worker that a claim could still get.
pub open spec fn slot_available(s: SlotModel, pool: Seq<char>) -> bool {
    s.pool_name == pool && (s.state == ForkPoolSlotState::Provisioning || s.state
        == ForkPoolSlotState::Ready)
}

/// A worker between its claim and its start.
pub open spec fn slot_activating(s: SlotModel, pool: Seq<char>) -> bool {
    s.pool_name == pool && s.state == ForkPoolSlotState::Activating
}

/// A lease that holds a worker.
pub open spec fn lease_live(l: LeaseModel) -> bool {
    l.state == ForkLeaseState::Activating || l.state == ForkLeaseState::Active
}

/// How many workers of `pool` a claim could still get.
pub open spec fn available_slots(db: DbModel, pool: Seq<char>) -> nat {
    count_where(db.slots, |s: SlotModel| slot_available(s, pool))
}

/// How many workers of `pool` are between claim and start.
pub open spec fn activating_slots(db: DbModel, pool: Seq<char>) -> nat {
    count_where(db.slots, |s: SlotModel| slot_activating(s, pool))
}

/// How many leases of `pool` hold a worker.
pub open spec fn live_leases(db: DbModel, pool: Seq<char>) -> nat {
    count_where(db.leases, |l: LeaseModel| l.pool_name == pool && lease_live(l))
}

/// How many leases of `pool` were completed.
pub open spec fn completed_leases(db: DbModel, pool: Seq<char>) -> nat {
    count_where(
        db.leases,
        |l: LeaseModel| l.pool_name == pool && l.state == ForkLeaseState::Completed,
    )
}

/// A lease that holds a worker of a pool admitted by `device`.
pub open spec fn lease_on_device(
    pools: Map<Seq<char>, PoolModel>,
    l: LeaseModel,
    device: u32,
) -> bool {
    lease_live(l) && pools.contains_key(l.pool_name) && pools[l.pool_name].admission_device()
        == Some(device)
}

/// How many leases hold a worker of any pool admitted by `device`.
pub open spec fn live_on_device(db: DbModel, device: u32) -> nat {
    count_where(db.leases, |l: LeaseModel| lease_on_device(db.pools, l, device))
}

/// The slot once it is to be cleaned up.
pub open spec fn retired(s: SlotModel, now: u64, error: Option<Seq<char>>) -> SlotModel {
    SlotModel { state: ForkPoolSlotState::Retiring, updated_at: now, last_error: error, ..s }
}

/// The slot once it is to be cleaned up, with the error it had.
pub open spec fn retired_silently(s: SlotModel, now: u64) -> SlotModel {
    SlotModel { state: ForkPoolSlotState::Retiring, updated_at: now, ..s }
}

/// The slot once it is to be cleaned up, with `note` as its error where one is given.
pub open spec fn retired_noting(s: SlotModel, now: u64, note: Option<Seq<char>>) -> SlotModel {
    match note {
        Some(e) => retired(s, now, Some(e)),
        None => retired_silently(s, now),
    }
}

/// How many workers to create: none while the pool is gone, going, or a claimed
/// worker is still starting.
pub open spec fn ready_deficit(db: DbModel, pool: Seq<char>) -> int {
    if !db.pools.contains_key(pool) || db.pools[pool].deleting || activating_slots(db, pool) > 0 {
        0
    } else {
        sat_sub(db.pools[pool].desired_ready as int, available_slots(db, pool) as int)
    }
}

/// A worker that has just been reserved.
pub open spec fn fresh_slot(pool: Seq<char>, machine: Seq<char>, now: u64) -> SlotModel {
    SlotModel {
        pool_name: pool,
        machine_name: machine,
        state: ForkPoolSlotState::Provisioning,
        lease_id: None,
        created_at: now,
        updated_at: now,
        last_error: None,
    }
}

/// `a` is retired before `b` when a pool shrinks: unfinished workers first, then
/// by name.
pub open spec fn surplus_before(a: SlotModel, b: SlotModel) -> bool {
    if a.state == b.state {
        text_lt(a.machine_name, b.machine_name)
    } else {
        a.state == ForkPoolSlotState::Provisioning
    }
}

/// How many available workers of `pool` come before `s` when the pool shrinks.
pub open spec fn surplus_rank(db: DbModel, pool: Seq<char>, s: SlotModel) -> nat {
    count_where(db.slots, |t: SlotModel| slot_available(t, pool) && surplus_before(t, s))
}

/// Whether the worker goes when the pool shrinks to `desired`.
pub open spec fn is_surplus(db: DbModel, pool: Seq<char>, s: SlotModel, desired: u32) -> bool {
    slot_available(s, pool) && surplus_rank(db, pool, s) < sat_sub(
        available_slots(db, pool) as int,
        desired as int,
    )
}

/// The database after `pool` is resized.
pub open spec fn resized(db: DbModel, pool: Seq<char>, desired: u32, now: u64) -> DbModel {
    if !db.pools.contains_key(pool) || db.pools[pool].deleting {
        db
    } else {
        DbModel {
            pools: db.pools.insert(
                pool,
                PoolModel { desired_ready: desired, ..db.pools[pool] },
            ),
            slots: map_entries(
                db.slots,
                |k: Seq<char>, s: SlotModel|
                    if is_surplus(db, pool, s, desired) {
                        retired_silently(s, now)
                    } else {
                        s
                    },
            ),
            ..db
        }
    }
}

// ---------------------------------------------------------------------------
// Claims
// ---------------------------------------------------------------------------

/// The mathematical value of a claim.
#[verifier::ext_equal]
pub struct ClaimModel {
    pub pool_name: Seq<char>,
    pub lease_id: Seq<char>,
    pub idempotency_key: Seq<char>,
    pub assignment: Seq<(Seq<char>, Seq<char>)>,
    pub payload_sha256: Option<Seq<char>>,
    pub require_private_workspace: bool,
    pub admission_limit: Option<ForkPoolAdmissionLimit>,
    pub ttl_secs: u64,
    pub now: u64,
}

/// The mathematical value of what a claim returns.
pub enum ClaimOutcome {
    Existing(LeaseModel),
    PoolNotFound,
    PoolDeleting,
    AtCapacity,
    NoReadySlot,
    WorkspaceExternallyMounted,
    Claimed(LeaseModel),
    /// The lease identifier is taken; nothing was changed.
    DuplicateLease,
}

/// `id` is the lease that an earlier claim with the same retry key created.
pub open spec fn is_retry_of(db: DbModel, c: ClaimModel, id: Seq<char>) -> bool {
    db.leases.contains_key(id) && db.leases[id].pool_name == c.pool_name
        && db.leases[id].idempotency_key == c.idempotency_key
}

/// The ceiling of active leases: the smaller of the configured and the measured one.
pub open spec fn max_active(pool: PoolModel, limit: Option<ForkPoolAdmissionLimit>) -> Option<u32> {
    match (pool.max_active, limit) {
        (Some(a), Some(b)) => Some(if a <= b.pool {
            a
        } else {
            b.pool
        }),
        (Some(a), None) => Some(a),
        (None, Some(b)) => Some(b.pool),
        (None, None) => None,
    }
}

/// Whether the pool or its device has no room for another lease.
pub open spec fn at_capacity(db: DbModel, c: ClaimModel) -> bool {
    let pool = db.pools[c.pool_name];
    ||| max_active(pool, c.admission_limit) matches Some(max) && live_leases(db, c.pool_name) >= max
    ||| c.admission_limit matches Some(limit) && pool.admission_device() matches Some(device)
        && live_on_device(db, device) >= limit.device
}

/// `name` is a worker of the pool marked ready.
pub open spec fn slot_ready(db: DbModel, pool: Seq<char>, name: Seq<char>) -> bool {
    db.slots.contains_key(name) && db.slots[name].pool_name == pool && db.slots[name].state
        == ForkPoolSlotState::Ready
}

/// The machine `name` is still parked at the forkpoint it inherited from `golden`.
pub open spec fn worker_held(db: DbModel, golden: Seq<char>, name: Seq<char>) -> bool {
    db.vms.contains_key(name) && db.vms[name].forkpoint_held && db.vms[name].golden == Some(golden)
}

/// A ready worker whose machine can be released.
pub open spec fn claimable(db: DbModel, pool: Seq<char>, name: Seq<char>) -> bool {
    slot_ready(db, pool, name) && worker_held(db, db.pools[pool].golden, name)
}

/// `name` is the first claimable worker of the pool by name.
pub open spec fn first_claimable(db: DbModel, pool: Seq<char>, name: Seq<char>) -> bool {
    claimable(db, pool, name) && forall|other: Seq<char>| #[trigger]
        claimable(db, pool, other) && other != name ==> text_lt(name, other)
}

/// Whether a claim that gets as far as `chosen` finds `name` unusable on its way.
pub open spec fn passed_over(
    db: DbModel,
    pool: Seq<char>,
    chosen: Option<Seq<char>>,
    name: Seq<char>,
) -> bool {
    slot_ready(db, pool, name) && !worker_held(db, db.pools[pool].golden, name) && (
    chosen matches Some(c) ==> text_lt(name, c))
}

/// The slots once the unusable workers before `chosen` are retired.
pub open spec fn slots_after_scan(
    db: DbModel,
    pool: Seq<char>,
    chosen: Option<Seq<char>>,
    now: u64,
) -> Map<Seq<char>, SlotModel> {
    map_entries(
        db.slots,
        |k: Seq<char>, s: SlotModel|
            if passed_over(db, pool, chosen, k) {
                retired(s, now, Some("ready slot no longer has a matching held VM"@))
            } else {
                s
            },
    )
}

/// The lease that a successful claim of `machine` creates.
pub open spec fn new_lease(c: ClaimModel, machine: Seq<char>) -> LeaseModel {
    LeaseModel {
        id: c.lease_id,
        pool_name: c.pool_name,
        machine_name: machine,
        idempotency_key: c.idempotency_key,
        state: ForkLeaseState::Activating,
        assignment: c.assignment,
        payload_sha256: c.payload_sha256,
        created_at: c.now,
        updated_at: c.now,
        expires_at: sat_add(c.now, FORK_LEASE_ACTIVATION_GRACE_SECS),
        ttl_secs: c.ttl_secs,
        last_error: None,
    }
}

/// The machine once it is released with `assignment`. That the assignment reaches the
/// machine's own variables beside those of its fork is a choice made here.
pub open spec fn released_vm(vm: VmModel, assignment: Seq<(Seq<char>, Seq<char>)>) -> VmModel {
    VmModel {
        forkpoint_held: false,
        env: merge_env(vm.env, assignment),
        fork_env: merge_env(vm.fork_env, assignment),
        ..vm
    }
}

/// The database after `machine` is claimed.
pub open spec fn claimed_db(db: DbModel, c: ClaimModel, machine: Seq<char>) -> DbModel {
    let slots = slots_after_scan(db, c.pool_name, Some(machine), c.now);
    DbModel {
        vms: db.vms.insert(machine, released_vm(db.vms[machine], c.assignment)),
        slots: slots.insert(
            machine,
            SlotModel {
                state: ForkPoolSlotState::Activating,
                lease_id: Some(c.lease_id),
                updated_at: c.now,
                ..slots[machine]
            },
        ),
        leases: db.leases.insert(c.lease_id, new_lease(c, machine)),
        ..db
    }
}

/// What a claim returns and what it makes of the database.
pub open spec fn model_claim(db: DbModel, c: ClaimModel) -> (ClaimOutcome, DbModel) {
    if exists|id: Seq<char>| is_retry_of(db, c, id) {
        let id = choose|id: Seq<char>| is_retry_of(db, c, id);
        (ClaimOutcome::Existing(db.leases[id]), db)
    } else if !db.pools.contains_key(c.pool_name) {
        (ClaimOutcome::PoolNotFound, db)
    } else if db.pools[c.pool_name].deleting {
        (ClaimOutcome::PoolDeleting, db)
    } else if at_capacity(db, c) {
        (ClaimOutcome::AtCapacity, db)
    } else if !exists|name: Seq<char>| first_claimable(db, c.pool_name, name) {
        (
            ClaimOutcome::NoReadySlot,
            DbModel { slots: slots_after_scan(db, c.pool_name, None, c.now), ..db },
        )
    } else {
        let name = choose|name: Seq<char>| first_claimable(db, c.pool_name, name);
        if c.require_private_workspace && workspace_mounted(db.vms[name]) {
            (
                ClaimOutcome::WorkspaceExternallyMounted,
                DbModel { slots: slots_after_scan(db, c.pool_name, Some(name), c.now), ..db },
            )
        } else if db.leases.contains_key(c.lease_id) {
            (ClaimOutcome::DuplicateLease, db)
        } else {
            (ClaimOutcome::Claimed(new_lease(c, name)), claimed_db(db, c, name))
        }
    }
}

// ---------------------------------------------------------------------------
// Lease transitions
// ---------------------------------------------------------------------------

/// The lease after a step from its state to `next`; its lifetime starts when it
/// becomes active.
pub open spec fn stepped_lease(
    l: LeaseModel,
    next: ForkLeaseState,
    now: u64,
    error: Option<Seq<char>>,
) -> LeaseModel {
    LeaseModel {
        state: next,
        updated_at: now,
        expires_at: if l.state == ForkLeaseState::Activating && next == ForkLeaseState::Active {
            sat_add(now, l.ttl_secs)
        } else {
            l.expires_at
        },
        last_error: error,
        ..l
    }
}

/// The slots once the worker of a lease follows it to `next`.
pub open spec fn stepped_slots(
    slots: Map<Seq<char>, SlotModel>,
    machine: Seq<char>,
    next: ForkPoolSlotState,
    now: u64,
    error: Option<Seq<char>>,
) -> Map<Seq<char>, SlotModel> {
    if slots.contains_key(machine) {
        slots.insert(
            machine,
            SlotModel { state: next, updated_at: now, last_error: error, ..slots[machine] },
        )
    } else {
        slots
    }
}

/// The database after the lease `id`, if it is in the state `expected`, goes to
/// `next` and its worker to `slot_next`.
pub open spec fn transitioned(
    db: DbModel,
    id: Seq<char>,
    expected: ForkLeaseState,
    next: ForkLeaseState,
    slot_next: ForkPoolSlotState,
    now: u64,
    error: Option<Seq<char>>,
) -> DbModel {
    if db.leases.contains_key(id) && db.leases[id].state == expected {
        DbModel {
            leases: db.leases.insert(id, stepped_lease(db.leases[id], next, now, error)),
            slots: stepped_slots(db.slots, db.leases[id].machine_name, slot_next, now, error),
            ..db
        }
    } else {
        db
    }
}

/// The lease `id` as it stands, if there is one.
pub open spec fn lease_at(db: DbModel, id: Seq<char>) -> Option<LeaseModel> {
    if db.leases.contains_key(id) {
        Some(db.leases[id])
    } else {
        None
    }
}

/// The lease `id` of `pool`, if there is one.
pub open spec fn lease_in_pool(db: DbModel, pool: Seq<char>, id: Seq<char>) -> Option<LeaseModel> {
    if db.leases.contains_key(id) && db.leases[id].pool_name == pool {
        Some(db.leases[id])
    } else {
        None
    }
}

/// The database after a heartbeat of the lease `id` of `pool`.
pub open spec fn heartbeaten(db: DbModel, pool: Seq<char>, id: Seq<char>, now: u64) -> DbModel {
    match lease_in_pool(db, pool, id) {
        Some(l) if l.state == ForkLeaseState::Active && l.expires_at > now => DbModel {
            leases: db.leases.insert(
                id,
                LeaseModel { updated_at: now, expires_at: sat_add(now, l.ttl_secs), ..l },
            ),
            ..db
        },
        _ => db,
    }
}

/// The database after the lease `id` of `pool` is completed.
pub open spec fn completed(db: DbModel, pool: Seq<char>, id: Seq<char>, now: u64) -> DbModel {
    if lease_in_pool(db, pool, id) is Some {
        transitioned(
            db,
            id,
            ForkLeaseState::Active,
            ForkLeaseState::Completed,
            ForkPoolSlotState::Retiring,
            now,
            None,
        )
    } else {
        db
    }
}

/// A lease whose time is up.
pub open spec fn overdue(l: LeaseModel, now: u64) -> bool {
    lease_live(l) && l.expires_at <= now
}

/// Whether the machine is held by a lease whose time is up.
pub open spec fn holds_overdue(db: DbModel, machine: Seq<char>, now: u64) -> bool {
    exists|id: Seq<char>| #[trigger]
        db.leases.contains_key(id) && overdue(db.leases[id], now) && db.leases[id].machine_name
            == machine
}

/// The database after every overdue lease expires and its worker is retired.
pub open spec fn expired(db: DbModel, now: u64) -> DbModel {
    DbModel {
        leases: map_entries(
            db.leases,
            |k: Seq<char>, l: LeaseModel|
                if overdue(l, now) {
                    LeaseModel { state: ForkLeaseState::Expired, updated_at: now, ..l }
                } else {
                    l
                },
        ),
        slots: map_entries(
            db.slots,
            |k: Seq<char>, s: SlotModel|
                if holds_overdue(db, k, now) {
                    retired_silently(s, now)
                } else {
                    s
                },
        ),
        ..db
    }
}

// ---------------------------------------------------------------------------
// Pool deletion
// ---------------------------------------------------------------------------

/// Whether a pool may begin to be deleted.
pub open spec fn deletable(db: DbModel, pool: Seq<char>, force: bool) -> bool {
    db.pools.contains_key(pool) && (force || live_leases(db, pool) == 0)
}

/// The database after `pool` begins to be deleted.
pub open spec fn deletion_begun(db: DbModel, pool: Seq<char>, force: bool, now: u64) -> DbModel {
    if !deletable(db, pool, force) {
        db
    } else {
        DbModel {
            pools: db.pools.insert(pool, PoolModel { deleting: true, ..db.pools[pool] }),
            slots: map_entries(
                db.slots,
                |k: Seq<char>, s: SlotModel|
                    if s.pool_name == pool {
                        retired_silently(s, now)
                    } else {
                        s
                    },
            ),
            leases: if force {
                map_entries(
                    db.leases,
                    |k: Seq<char>, l: LeaseModel|
                        if l.pool_name == pool && lease_live(l) {
                            LeaseModel { state: ForkLeaseState::Cancelled, updated_at: now, ..l }
                        } else {
                            l
                        },
                )
            } else {
                db.leases
            },
            ..db
        }
    }
}

/// A deleting pool whose workers are all gone.
pub open spec fn drained(db: DbModel, pool: Seq<char>) -> bool {
    db.pools.contains_key(pool) && db.pools[pool].deleting && count_where(
        db.slots,
        |s: SlotModel| s.pool_name == pool,
    ) == 0
}

/// The database after every drained pool and its leases are removed.
pub open spec fn finalized(db: DbModel) -> DbModel {
    DbModel {
        pools: db.pools.remove_keys(Set::new(|k: Seq<char>| drained(db, k))),
        leases: db.leases.remove_keys(
            Set::new(|k: Seq<char>| db.leases.contains_key(k) && drained(db, db.leases[k].pool_name)),
        ),
        ..db
    }
}

} // verus!
