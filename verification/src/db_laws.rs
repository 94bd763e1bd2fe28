//! What the operations of the state database guarantee together.
use crate::db_model::{
    CREATE_RESERVATION_TTL_SECS, ClaimModel, ClaimOutcome, DbModel, available_slots, claimable,
    commit_create, completed, db_valid, deletable, deletion_begun, expired, finalized,
    first_claimable, fresh_slot, heartbeaten, holds_overdue, insert_if_free, is_retry_of,
    is_surplus, lease_live, lease_on_device, live_leases, live_on_device, max_active, model_claim,
    new_lease, overdue, ready_deficit, release_create, reserve_create, reserve_slot, resized,
    slot_activating, slot_available, slot_ready, surplus_before, surplus_rank, transitioned,
};
use crate::numerals::{sat_add, sat_sub};
use crate::records::{
    ForkLeaseState, ForkPoolAdmissionLimit, ForkPoolSlotState, LeaseModel, PoolModel, SlotModel,
    VmModel,
};
use crate::table::{lemma_count_insert, lemma_count_zero};
use crate::text::{lemma_text_lt_asymmetric, lemma_text_lt_total, lemma_text_lt_transitive};
use vstd::prelude::*;

verus! {

// ---------------------------------------------------------------------------
// Claims
// ---------------------------------------------------------------------------

/// A claim that is retried with the same key, whatever else it asks for, gets
/// the lease of the first claim and changes nothing.
pub proof fn law_claim_is_idempotent(db: DbModel, first: ClaimModel, retry: ClaimModel)
    requires
        db_valid(db),
        retry.pool_name == first.pool_name,
        retry.idempotency_key == first.idempotency_key,
        model_claim(db, first).0 is Claimed || model_claim(db, first).0 is Existing,
    ensures
        ({
            let after = model_claim(db, first).1;
            let lease = match model_claim(db, first).0 {
                ClaimOutcome::Claimed(l) => l,
                ClaimOutcome::Existing(l) => l,
                _ => arbitrary(),
            };
            model_claim(after, retry) == (ClaimOutcome::Existing(lease), after)
        }),
{
    let after = model_claim(db, first).1;
    if model_claim(db, first).0 is Existing {
        let id = choose|id: Seq<char>| is_retry_of(db, first, id);
        assert(is_retry_of(db, retry, id));
        let again = choose|x: Seq<char>| is_retry_of(db, retry, x);
        assert(is_retry_of(db, retry, again));
        assert(db.leases.contains_key(again) && db.leases.contains_key(id));
    } else {
        let id = first.lease_id;
        assert(is_retry_of(after, retry, id));
        assert forall|x: Seq<char>| is_retry_of(after, retry, x) implies x == id by {
            if x != id {
                assert(is_retry_of(db, first, x));
            }
        }
    }
}

/// A claimed worker is not claimed again: its machine is no longer held.
pub proof fn law_claimed_worker_is_consumed(db: DbModel, c: ClaimModel, next: ClaimModel)
    requires
        model_claim(db, c).0 is Claimed,
    ensures
        ({
            let machine = model_claim(db, c).0->Claimed_0.machine_name;
            let after = model_claim(db, c).1;
            &&& !after.vms[machine].forkpoint_held
            &&& after.slots[machine].state == ForkPoolSlotState::Activating
            &&& model_claim(after, next).0 matches ClaimOutcome::Claimed(l) ==> l.machine_name
                != machine
        }),
{
    let after = model_claim(db, c).1;
    if model_claim(after, next).0 is Claimed {
        let name = choose|name: Seq<char>| first_claimable(after, next.pool_name, name);
        assert(first_claimable(after, next.pool_name, name));
    }
}

/// Only a worker that was ready, of the pool, and held at its golden's forkpoint
/// is ever claimed, and among those the first by name.
pub proof fn law_claim_takes_first_claimable(db: DbModel, c: ClaimModel)
    requires
        model_claim(db, c).0 is Claimed,
    ensures
        first_claimable(db, c.pool_name, model_claim(db, c).0->Claimed_0.machine_name),
{
    let name = choose|name: Seq<char>| first_claimable(db, c.pool_name, name);
    assert(first_claimable(db, c.pool_name, name));
}

/// A successful claim adds exactly one live lease to its pool, and neither the
/// pool nor its device goes over its ceiling.
pub proof fn law_claim_respects_capacity(db: DbModel, c: ClaimModel)
    requires
        db_valid(db),
        model_claim(db, c).0 is Claimed,
    ensures
        ({
            let after = model_claim(db, c).1;
            let pool = db.pools[c.pool_name];
            &&& live_leases(after, c.pool_name) == live_leases(db, c.pool_name) + 1
            &&& max_active(pool, c.admission_limit) matches Some(max) ==> live_leases(
                after,
                c.pool_name,
            ) <= max
            &&& c.admission_limit matches Some(limit) ==> (pool.admission_device() matches Some(
                device,
            ) ==> live_on_device(after, device) <= limit.device)
        }),
{
    let after = model_claim(db, c).1;
    let pool = db.pools[c.pool_name];
    let name = model_claim(db, c).0->Claimed_0.machine_name;
    let lease = new_lease(c, name);
    let p = |l: LeaseModel| l.pool_name == c.pool_name && lease_live(l);
    lemma_count_insert(db.leases, p, c.lease_id, lease);
    if let Some(device) = pool.admission_device() {
        let q = |l: LeaseModel| lease_on_device(db.pools, l, device);
        lemma_count_insert(db.leases, q, c.lease_id, lease);
        assert(after.pools == db.pools);
    }
}

/// The measured ceiling never loosens the configured one.
pub proof fn law_measured_limit_never_loosens(
    pool: PoolModel,
    limit: Option<ForkPoolAdmissionLimit>,
)
    ensures
        pool.max_active matches Some(configured) ==> (max_active(pool, limit) matches Some(max)
            && max <= configured),
        limit matches Some(l) ==> (max_active(pool, limit) matches Some(max) && max <= l.pool),
{
}

/// A claim that is refused for capacity, or because the pool is gone or going,
/// or because its lease identifier is taken, changes nothing.
pub proof fn law_refused_claim_changes_nothing(db: DbModel, c: ClaimModel)
    requires
        model_claim(db, c).0 is PoolNotFound || model_claim(db, c).0 is PoolDeleting
            || model_claim(db, c).0 is AtCapacity || model_claim(db, c).0 is DuplicateLease
            || model_claim(db, c).0 is Existing,
    ensures
        model_claim(db, c).1 == db,
{
}

/// A claim that gets no worker, or refuses one for its external workspace, leaves
/// every machine, lease and pool and every usable worker as they were.
pub proof fn law_claim_without_worker_keeps_usable_slots(
    db: DbModel,
    c: ClaimModel,
    name: Seq<char>,
)
    requires
        model_claim(db, c).0 is NoReadySlot || model_claim(db, c).0 is WorkspaceExternallyMounted,
    ensures
        ({
            let after = model_claim(db, c).1;
            &&& after.vms == db.vms
            &&& after.leases == db.leases
            &&& after.pools == db.pools
            &&& after.slots.dom() == db.slots.dom()
            &&& db.slots.contains_key(name) && (claimable(db, c.pool_name, name)
                || !slot_ready(db, c.pool_name, name)) ==> after.slots[name] == db.slots[name]
        }),
{
    assert(model_claim(db, c).1.slots.dom() =~= db.slots.dom());
}

/// While a claimed worker is starting, its pool asks for no further worker and
/// admits no reservation.
pub proof fn law_refill_waits_for_activation(
    db: DbModel,
    c: ClaimModel,
    machine: Seq<char>,
    now: u64,
)
    requires
        db_valid(db),
        model_claim(db, c).0 is Claimed,
    ensures
        ready_deficit(model_claim(db, c).1, c.pool_name) == 0,
        !reserve_slot(model_claim(db, c).1, c.pool_name, machine, now).0,
{
    let after = model_claim(db, c).1;
    let name = model_claim(db, c).0->Claimed_0.machine_name;
    assert(first_claimable(db, c.pool_name, name)) by {
        law_claim_takes_first_claimable(db, c);
    }
    let p = |s: SlotModel| slot_activating(s, c.pool_name);
    assert(after.slots.dom() =~= db.slots.dom());
    assert(p(after.slots[name]));
    assert(after.slots.contains_key(name));
    lemma_count_zero(after.slots, p);
}

// ---------------------------------------------------------------------------
// Leases
// ---------------------------------------------------------------------------

/// A lease that has ended stays as it is under every lease operation.
pub proof fn law_ended_lease_stays(
    db: DbModel,
    id: Seq<char>,
    other: Seq<char>,
    pool: Seq<char>,
    expected: ForkLeaseState,
    next: ForkLeaseState,
    slot_next: ForkPoolSlotState,
    error: Option<Seq<char>>,
    force: bool,
    now: u64,
)
    requires
        db.leases.contains_key(id),
        !lease_live(db.leases[id]),
        expected == ForkLeaseState::Activating || expected == ForkLeaseState::Active,
    ensures
        transitioned(db, other, expected, next, slot_next, now, error).leases[id] == db.leases[id],
        heartbeaten(db, pool, other, now).leases[id] == db.leases[id],
        completed(db, pool, other, now).leases[id] == db.leases[id],
        expired(db, now).leases[id] == db.leases[id],
        deletion_begun(db, pool, force, now).leases[id] == db.leases[id],
{
}

/// The lifetime of a lease starts when its worker becomes active, whenever it
/// was claimed.
pub proof fn law_lifetime_starts_at_activation(db: DbModel, id: Seq<char>, now: u64)
    requires
        db.leases.contains_key(id),
        db.leases[id].state == ForkLeaseState::Activating,
    ensures
        ({
            let after = transitioned(
                db,
                id,
                ForkLeaseState::Activating,
                ForkLeaseState::Active,
                ForkPoolSlotState::Leased,
                now,
                None,
            );
            &&& after.leases[id].state == ForkLeaseState::Active
            &&& after.leases[id].expires_at == sat_add(now, db.leases[id].ttl_secs)
        }),
{
}

/// A heartbeat in time keeps an active lease from expiring for its lifetime.
pub proof fn law_heartbeat_keeps_lease(
    db: DbModel,
    pool: Seq<char>,
    id: Seq<char>,
    now: u64,
    later: u64,
)
    requires
        db.leases.contains_key(id),
        db.leases[id].pool_name == pool,
        db.leases[id].state == ForkLeaseState::Active,
        db.leases[id].expires_at > now,
        later < sat_add(now, db.leases[id].ttl_secs),
    ensures
        expired(heartbeaten(db, pool, id, now), later).leases[id] == heartbeaten(
            db,
            pool,
            id,
            now,
        ).leases[id],
        heartbeaten(db, pool, id, now).leases[id].state == ForkLeaseState::Active,
{
}

/// After expiry no live lease is overdue, no lease expired before its time, and
/// the worker of each expired lease is retired.
pub proof fn law_expiry_is_exact(db: DbModel, id: Seq<char>, now: u64)
    requires
        db.leases.contains_key(id),
    ensures
        ({
            let after = expired(db, now);
            let machine = db.leases[id].machine_name;
            &&& !overdue(after.leases[id], now)
            &&& lease_live(db.leases[id]) ==> (after.leases[id].state == ForkLeaseState::Expired
                <==> db.leases[id].expires_at <= now)
            &&& overdue(db.leases[id], now) && db.slots.contains_key(machine)
                ==> after.slots[machine].state == ForkPoolSlotState::Retiring
        }),
{
}

/// Expiring twice at the same time is expiring once.
pub proof fn law_expiry_is_idempotent(db: DbModel, now: u64)
    ensures
        expired(expired(db, now), now) == expired(db, now),
{
    let once = expired(db, now);
    let twice = expired(once, now);
    assert forall|k: Seq<char>| db.leases.contains_key(k) implies !overdue(
        #[trigger] once.leases[k],
        now,
    ) by {
        law_expiry_is_exact(db, k, now);
    }
    assert forall|m: Seq<char>| !holds_overdue(once, m, now) by {
        if holds_overdue(once, m, now) {
            let id = choose|id: Seq<char>| #[trigger]
                once.leases.contains_key(id) && overdue(once.leases[id], now)
                    && once.leases[id].machine_name == m;
            assert(!overdue(once.leases[id], now));
        }
    }
    assert(twice.leases =~= once.leases);
    assert(twice.slots =~= once.slots);
}

/// Completing or failing a lease retires its worker for good: the worker is not
/// claimable afterwards.
pub proof fn law_ended_lease_retires_worker(
    db: DbModel,
    id: Seq<char>,
    expected: ForkLeaseState,
    next: ForkLeaseState,
    now: u64,
    error: Option<Seq<char>>,
    pool: Seq<char>,
)
    requires
        db.leases.contains_key(id),
        db.leases[id].state == expected,
    ensures
        !claimable(
            transitioned(db, id, expected, next, ForkPoolSlotState::Retiring, now, error),
            pool,
            db.leases[id].machine_name,
        ),
{
}

// ---------------------------------------------------------------------------
// Pool sizes
// ---------------------------------------------------------------------------

/// Reserving a worker never takes a pool over its desired size.
pub proof fn law_reservation_honors_desired_ready(
    db: DbModel,
    pool: Seq<char>,
    machine: Seq<char>,
    now: u64,
)
    requires
        db_valid(db),
        reserve_slot(db, pool, machine, now).0,
    ensures
        ({
            let after = reserve_slot(db, pool, machine, now).1;
            &&& available_slots(after, pool) == available_slots(db, pool) + 1
            &&& available_slots(after, pool) <= db.pools[pool].desired_ready
        }),
{
    let p = |s: SlotModel| slot_available(s, pool);
    lemma_count_insert(db.slots, p, machine, fresh_slot(pool, machine, now));
}

/// Resizing a pool leaves as many available workers as it may keep: all of them,
/// or the desired number where there were more.
pub proof fn law_resize_keeps_desired(db: DbModel, pool: Seq<char>, desired: u32, now: u64)
    requires
        db_valid(db),
        db.pools.contains_key(pool),
        !db.pools[pool].deleting,
    ensures
        ({
            let before = available_slots(db, pool);
            available_slots(resized(db, pool, desired, now), pool) == if before <= desired {
                before
            } else {
                desired as nat
            }
        }),
{
    let after = resized(db, pool, desired, now);
    let p = |s: SlotModel| slot_available(s, pool);
    let set = db.slots.dom().filter(|k: Seq<char>| p(db.slots[k]));
    let surplus = sat_sub(set.len() as int, desired as int) as nat;
    let kept = after.slots.dom().filter(|k: Seq<char>| p(after.slots[k]));
    let gone = low_ranked(db, set, surplus);
    assert forall|k: Seq<char>| #[trigger] set.contains(k) implies surplus_rank(
        db,
        pool,
        db.slots[k],
    ) == rank_in(db, set, k) by {
        lemma_rank(db, pool, set, k);
    }
    assert(gone =~= set.filter(|k: Seq<char>| is_surplus(db, pool, db.slots[k], desired)));
    assert(kept =~= set.difference(gone));
    lemma_low_ranked(db, set, surplus);
    assert(gone.subset_of(set));
    vstd::set_lib::lemma_set_difference_len(set, gone);
    assert(set.intersect(gone) =~= gone);
}

/// How many machines of `set` are retired before `k` when a pool shrinks.
spec fn rank_in(db: DbModel, set: Set<Seq<char>>, k: Seq<char>) -> nat {
    set.filter(|j: Seq<char>| surplus_before(db.slots[j], db.slots[k])).len()
}

/// The machines of `set` that fewer than `n` others come before.
spec fn low_ranked(db: DbModel, set: Set<Seq<char>>, n: nat) -> Set<Seq<char>> {
    set.filter(|k: Seq<char>| rank_in(db, set, k) < n)
}

proof fn lemma_rank(db: DbModel, pool: Seq<char>, set: Set<Seq<char>>, k: Seq<char>)
    requires
        set =~= db.slots.dom().filter(|j: Seq<char>| slot_available(db.slots[j], pool)),
        set.contains(k),
    ensures
        surplus_rank(db, pool, db.slots[k]) == rank_in(db, set, k),
{
    let q = |t: SlotModel| slot_available(t, pool) && surplus_before(t, db.slots[k]);
    assert(db.slots.dom().filter(|j: Seq<char>| q(db.slots[j])) =~= set.filter(
        |j: Seq<char>| surplus_before(db.slots[j], db.slots[k]),
    ));
}

/// The machines of `set` are workers with distinct names, provisioning or ready.
spec fn orderable(db: DbModel, set: Set<Seq<char>>) -> bool {
    &&& set.finite()
    &&& forall|k: Seq<char>| #[trigger]
        set.contains(k) ==> db.slots[k].machine_name == k && (db.slots[k].state
            == ForkPoolSlotState::Provisioning || db.slots[k].state == ForkPoolSlotState::Ready)
}

/// Some machine of a nonempty set comes after all the others.
proof fn lemma_last_exists(db: DbModel, set: Set<Seq<char>>) -> (last: Seq<char>)
    requires
        orderable(db, set),
        set.len() > 0,
    ensures
        set.contains(last),
        forall|k: Seq<char>| #[trigger]
            set.contains(k) && k != last ==> surplus_before(db.slots[k], db.slots[last]),
    decreases set.len(),
{
    let x = set.choose();
    let rest = set.remove(x);
    if rest.len() == 0 {
        assert forall|k: Seq<char>| #[trigger] set.contains(k) implies k == x by {
            if k != x {
                assert(rest.contains(k));
            }
        }
        x
    } else {
        let y = lemma_last_exists(db, rest);
        lemma_surplus_total(db, set, x, y);
        if surplus_before(db.slots[x], db.slots[y]) {
            y
        } else {
            assert forall|k: Seq<char>| #[trigger] set.contains(k) && k
                != x implies surplus_before(db.slots[k], db.slots[x]) by {
                if k != y {
                    assert(rest.contains(k));
                    lemma_surplus_transitive(db, set, k, y, x);
                }
            }
            x
        }
    }
}

proof fn lemma_surplus_total(db: DbModel, set: Set<Seq<char>>, x: Seq<char>, y: Seq<char>)
    requires
        orderable(db, set),
        set.contains(x),
        set.contains(y),
        x != y,
    ensures
        surplus_before(db.slots[x], db.slots[y]) || surplus_before(db.slots[y], db.slots[x]),
        !(surplus_before(db.slots[x], db.slots[y]) && surplus_before(db.slots[y], db.slots[x])),
{
    lemma_text_lt_total(x, y);
    lemma_text_lt_asymmetric(x, y);
}

proof fn lemma_surplus_transitive(
    db: DbModel,
    set: Set<Seq<char>>,
    x: Seq<char>,
    y: Seq<char>,
    z: Seq<char>,
)
    requires
        orderable(db, set),
        set.contains(x),
        set.contains(y),
        set.contains(z),
        surplus_before(db.slots[x], db.slots[y]),
        surplus_before(db.slots[y], db.slots[z]),
    ensures
        surplus_before(db.slots[x], db.slots[z]),
{
    if db.slots[x].state == db.slots[y].state && db.slots[y].state == db.slots[z].state {
        lemma_text_lt_transitive(x, y, z);
    }
}

/// Exactly `n` machines have fewer than `n` machines before them.
proof fn lemma_low_ranked(db: DbModel, set: Set<Seq<char>>, n: nat)
    requires
        orderable(db, set),
        n <= set.len(),
    ensures
        low_ranked(db, set, n).len() == n,
    decreases set.len(),
{
    if set.len() == 0 {
        assert(low_ranked(db, set, n) =~= Set::empty());
    } else {
        let last = lemma_last_exists(db, set);
        let rest = set.remove(last);
        let before_last = set.filter(|j: Seq<char>| surplus_before(db.slots[j], db.slots[last]));
        assert(before_last =~= rest) by {
            lemma_text_lt_asymmetric(last, last);
        }
        assert(rank_in(db, set, last) == set.len() - 1);
        assert forall|k: Seq<char>| #[trigger] rest.contains(k) implies rank_in(db, set, k)
            == rank_in(db, rest, k) && rank_in(db, set, k) < set.len() - 1 by {
            lemma_surplus_total(db, set, k, last);
            let in_set = set.filter(|j: Seq<char>| surplus_before(db.slots[j], db.slots[k]));
            let in_rest = rest.filter(|j: Seq<char>| surplus_before(db.slots[j], db.slots[k]));
            assert(in_set =~= in_rest);
            assert(!in_rest.contains(k)) by {
                lemma_text_lt_asymmetric(k, k);
            }
            assert(in_rest.subset_of(rest.remove(k)));
            vstd::set_lib::lemma_len_subset(in_rest, rest.remove(k));
        }
        if n < set.len() {
            lemma_low_ranked(db, rest, n);
            assert(low_ranked(db, set, n) =~= low_ranked(db, rest, n));
        } else {
            assert(low_ranked(db, set, n) =~= set);
        }
    }
}

// ---------------------------------------------------------------------------
// Pool deletion
// ---------------------------------------------------------------------------

/// A pool whose workers are held is deleted only by force.
pub proof fn law_delete_refused_while_leased(db: DbModel, pool: Seq<char>, now: u64)
    requires
        live_leases(db, pool) > 0,
    ensures
        deletion_begun(db, pool, false, now) == db,
{
}

/// Once deletion has begun no lease of the pool is live, all its workers are
/// retiring, and claims, reservations and resizes get nothing from it.
pub proof fn law_deleting_pool_is_closed(
    db: DbModel,
    pool: Seq<char>,
    force: bool,
    now: u64,
    c: ClaimModel,
    machine: Seq<char>,
    desired: u32,
)
    requires
        db_valid(db),
        deletable(db, pool, force),
        c.pool_name == pool,
    ensures
        ({
            let after = deletion_begun(db, pool, force, now);
            &&& live_leases(after, pool) == 0
            &&& db.slots.contains_key(machine) && db.slots[machine].pool_name == pool
                ==> after.slots[machine].state == ForkPoolSlotState::Retiring
            &&& model_claim(after, c).0 is PoolDeleting || model_claim(after, c).0 is Existing
            &&& !reserve_slot(after, pool, machine, now).0
            &&& resized(after, pool, desired, now) == after
        }),
{
    let after = deletion_begun(db, pool, force, now);
    let p = |l: LeaseModel| l.pool_name == pool && lease_live(l);
    lemma_count_zero(db.leases, p);
    assert(after.leases.dom() =~= db.leases.dom());
    lemma_count_zero(after.leases, p);
}

/// A pool whose deletion has begun is gone, with its leases, as soon as its last
/// worker is.
pub proof fn law_drained_pool_is_removed(db: DbModel, pool: Seq<char>, id: Seq<char>)
    requires
        db_valid(db),
        db.pools.contains_key(pool),
        db.pools[pool].deleting,
        forall|k: Seq<char>| #[trigger] db.slots.contains_key(k) ==> db.slots[k].pool_name != pool,
    ensures
        !finalized(db).pools.contains_key(pool),
        db.leases.contains_key(id) && db.leases[id].pool_name == pool ==> !finalized(
            db,
        ).leases.contains_key(id),
{
    lemma_count_zero(db.slots, |s: SlotModel| s.pool_name == pool);
}

/// A pool that still has a worker, or that is not being deleted, stays with all
/// its leases.
pub proof fn law_live_pool_is_kept(db: DbModel, pool: Seq<char>, id: Seq<char>)
    requires
        db_valid(db),
        db.pools.contains_key(pool),
        !db.pools[pool].deleting || exists|k: Seq<char>| #[trigger]
            db.slots.contains_key(k) && db.slots[k].pool_name == pool,
    ensures
        finalized(db).pools.contains_key(pool),
        finalized(db).pools[pool] == db.pools[pool],
        db.leases.contains_key(id) && db.leases[id].pool_name == pool ==> finalized(
            db,
        ).leases.contains_key(id),
{
    lemma_count_zero(db.slots, |s: SlotModel| s.pool_name == pool);
}

// ---------------------------------------------------------------------------
// Create reservations
// ---------------------------------------------------------------------------

/// A reserved name is refused to everyone else: to another reservation while its
/// owner lives and it is fresh, and to an unreserved insert at any time.
pub proof fn law_reservation_is_exclusive(
    db: DbModel,
    name: Seq<char>,
    token: Seq<char>,
    pid: u32,
    alive: bool,
    now: u64,
    other: Seq<char>,
    other_pid: u32,
    later: u64,
    vm: VmModel,
)
    requires
        reserve_create(db, name, token, pid, alive, now).0,
        pid > 0,
        later < now + CREATE_RESERVATION_TTL_SECS,
        now > 0,
    ensures
        ({
            let held = reserve_create(db, name, token, pid, alive, now).1;
            &&& reserve_create(held, name, other, other_pid, true, later) == (false, held)
            &&& insert_if_free(held, name, vm) == (false, held)
            &&& other != token ==> commit_create(held, name, other, vm) == (false, held)
            &&& other != token ==> release_create(held, name, other) == held
        }),
{
}

/// The owner of a reservation stores its machine, which frees the reservation;
/// or gives the name back, after which it can be reserved again.
pub proof fn law_reservation_is_usable_and_releasable(
    db: DbModel,
    name: Seq<char>,
    token: Seq<char>,
    pid: u32,
    alive: bool,
    now: u64,
    other: Seq<char>,
    other_pid: u32,
    vm: VmModel,
)
    requires
        reserve_create(db, name, token, pid, alive, now).0,
    ensures
        ({
            let held = reserve_create(db, name, token, pid, alive, now).1;
            let stored = commit_create(held, name, token, vm);
            let freed = release_create(held, name, token);
            &&& stored.0
            &&& stored.1.vms == db.vms.insert(name, vm)
            &&& !stored.1.reservations.contains_key(name)
            &&& reserve_create(freed, name, other, other_pid, true, now).0
            &&& insert_if_free(freed, name, vm).0
        }),
{
}

/// A reservation whose owner is dead, or that is an hour old, does not keep a
/// free name from being reserved.
pub proof fn law_stale_reservation_is_reaped(
    db: DbModel,
    name: Seq<char>,
    token: Seq<char>,
    pid: u32,
    alive: bool,
    now: u64,
)
    requires
        !db.vms.contains_key(name),
        db.reservations.contains_key(name),
        !alive || db.reservations[name].created_at + CREATE_RESERVATION_TTL_SECS <= now,
    ensures
        reserve_create(db, name, token, pid, alive, now).0,
{
}

} // verus!
