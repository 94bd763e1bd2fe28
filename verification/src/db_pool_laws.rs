//! Which workers of a pool go, and which a claim passes over.
use crate::db_frame_laws::{can_be_claimed, unclaimed};
use crate::db_model::{
    ClaimModel, ClaimOutcome, DbModel, at_capacity, claimable, db_valid, first_claimable,
    in_workspace, is_retry_of, is_surplus, lease_on_device, live_leases, live_on_device, max_active,
    model_claim, normalized, resized, slot_available, surplus_before, workspace_mounted,
};
use crate::records::{
    ForkLeaseState, ForkPoolAdmissionLimit, ForkPoolSlotState, LeaseModel, PoolModel, RecordState,
    RestartPolicy, SlotModel, VmModel, fresh_vm,
};
use crate::split::split_on;
use crate::text::{lemma_text_lt_asymmetric, lemma_text_lt_transitive, text_lt};
use vstd::prelude::*;

verus! {

/// Workers are retired in an order: those still being made before those that are ready,
/// and of either by name.
pub proof fn law_order_of_retirement(a: SlotModel, b: SlotModel)
    requires
        a.state == ForkPoolSlotState::Provisioning || a.state == ForkPoolSlotState::Ready,
        b.state == ForkPoolSlotState::Provisioning || b.state == ForkPoolSlotState::Ready,
    ensures
        a.state == ForkPoolSlotState::Provisioning && b.state == ForkPoolSlotState::Ready
            ==> surplus_before(a, b) && !surplus_before(b, a),
        a.state == b.state ==> (surplus_before(a, b) <==> text_lt(a.machine_name, b.machine_name)),
{
}

/// When a pool shrinks, a worker that goes takes with it every one that comes before it: no
/// ready one goes while one that is being made stays, and of two alike the first by name
/// goes first.
pub proof fn law_first_in_order_go_first(
    db: DbModel,
    pool: Seq<char>,
    desired: u32,
    now: u64,
    gone: Seq<char>,
    other: Seq<char>,
)
    requires
        db_valid(db),
        db.pools.contains_key(pool),
        !db.pools[pool].deleting,
        db.slots.contains_key(gone) && unclaimed(db.slots[gone], pool),
        db.slots.contains_key(other) && unclaimed(db.slots[other], pool),
        resized(db, pool, desired, now).slots[gone].state == ForkPoolSlotState::Retiring,
        (db.slots[other].state == ForkPoolSlotState::Provisioning && db.slots[gone].state
            == ForkPoolSlotState::Ready) || (db.slots[other].state == db.slots[gone].state
            && text_lt(other, gone)),
    ensures
        resized(db, pool, desired, now).slots[other].state == ForkPoolSlotState::Retiring,
{
    let a = db.slots[other];
    let b = db.slots[gone];
    assert(surplus_before(a, b));
    assert(is_surplus(db, pool, b, desired));
    let p = |t: SlotModel| slot_available(t, pool) && surplus_before(t, a);
    let q = |t: SlotModel| slot_available(t, pool) && surplus_before(t, b);
    let before_a = db.slots.dom().filter(|k: Seq<char>| p(db.slots[k]));
    let before_b = db.slots.dom().filter(|k: Seq<char>| q(db.slots[k]));
    assert forall|k: Seq<char>| before_a.contains(k) implies before_b.contains(k) by {
        let t = db.slots[k];
        if t.state == a.state && a.state == b.state {
            lemma_text_lt_transitive(t.machine_name, a.machine_name, b.machine_name);
        }
    }
    vstd::set_lib::lemma_len_subset(before_a, before_b);
    assert(is_surplus(db, pool, a, desired));
}

/// Leases that hold a worker count for the device that admits their pool: the one that the
/// pool names, if its admission is automatic.
pub proof fn law_leases_of_a_device(db: DbModel, device: u32)
    ensures
        live_on_device(db, device) == db.leases.dom().filter(
            |k: Seq<char>|
                {
                    let l = db.leases[k];
                    &&& l.state == ForkLeaseState::Activating || l.state == ForkLeaseState::Active
                    &&& db.pools.contains_key(l.pool_name)
                    &&& db.pools[l.pool_name].auto_admission
                    &&& db.pools[l.pool_name].cuda_device_ordinal == Some(device)
                },
        ).len(),
{
    let p = |l: LeaseModel| lease_on_device(db.pools, l, device);
    assert(db.leases.dom().filter(|k: Seq<char>| p(db.leases[k])) =~= db.leases.dom().filter(
        |k: Seq<char>|
            {
                let l = db.leases[k];
                &&& l.state == ForkLeaseState::Activating || l.state == ForkLeaseState::Active
                &&& db.pools.contains_key(l.pool_name)
                &&& db.pools[l.pool_name].auto_admission
                &&& db.pools[l.pool_name].cuda_device_ordinal == Some(device)
            },
    ));
}

/// A worker is ready, but its machine is not held where its pool's golden was forked.
pub open spec fn ready_in_vain(db: DbModel, pool: Seq<char>, name: Seq<char>) -> bool {
    &&& db.slots.contains_key(name) && db.slots[name].pool_name == pool && db.slots[name].state
        == ForkPoolSlotState::Ready
    &&& !(db.vms.contains_key(name) && db.vms[name].forkpoint_held && db.vms[name].golden == Some(
        db.pools[pool].golden,
    ))
}

/// A claim that finds no worker retires every one that is ready in vain and says why; one
/// that takes a worker, or refuses it for its workspace, retires those in vain that come
/// before it by name and no others.
pub proof fn law_workers_in_vain_are_retired(db: DbModel, c: ClaimModel, name: Seq<char>)
    requires
        db.slots.contains_key(name),
    ensures
        ({
            let (answer, after) = model_claim(db, c);
            let s = db.slots[name];
            let t = after.slots[name];
            let told = SlotModel {
                state: ForkPoolSlotState::Retiring,
                updated_at: c.now,
                last_error: Some("ready slot no longer has a matching held VM"@),
                ..s
            };
            &&& answer is NoReadySlot && ready_in_vain(db, c.pool_name, name) ==> t == told
            &&& answer is NoReadySlot && !ready_in_vain(db, c.pool_name, name) ==> t == s
            &&& answer is Claimed && ready_in_vain(db, c.pool_name, name) && text_lt(
                name,
                answer->Claimed_0.machine_name,
            ) ==> t == told
            &&& answer is Claimed && name != answer->Claimed_0.machine_name && !(ready_in_vain(
                db,
                c.pool_name,
                name,
            ) && text_lt(name, answer->Claimed_0.machine_name)) ==> t == s
        }),
{
    if model_claim(db, c).0 is Claimed {
        let m = model_claim(db, c).0->Claimed_0.machine_name;
        let chosen = choose|n: Seq<char>| first_claimable(db, c.pool_name, n);
        assert(first_claimable(db, c.pool_name, chosen));
        assert(m == chosen);
        if ready_in_vain(db, c.pool_name, name) {
            assert(name != m);
        }
    }
}

/// A machine has its workspace from outside if a target of its mounts resolves to the
/// workspace directory or below it.
pub proof fn law_workspaces_from_outside(vm: VmModel, i: int, rest: Seq<Seq<char>>)
    requires
        0 <= i < vm.mounts.len(),
    ensures
        normalized(split_on(vm.mounts[i].1, '/')) == seq!["workspace"@] + rest
            ==> workspace_mounted(vm),
        (forall|j: int|
            0 <= j < vm.mounts.len() ==> normalized(
                split_on((#[trigger] vm.mounts[j]).1, '/'),
            ).len() == 0 || normalized(split_on(vm.mounts[j].1, '/'))[0] != "workspace"@)
            ==> !workspace_mounted(vm),
{
    let parts = normalized(split_on(vm.mounts[i].1, '/'));
    if parts == seq!["workspace"@] + rest {
        assert(parts[0] == "workspace"@);
        assert(in_workspace(vm.mounts[i].1));
    }
}

/// The ceiling of a pool's leases is the lower of the two that are given.
pub proof fn law_lower_ceiling_counts(
    pool: PoolModel,
    limit: Option<ForkPoolAdmissionLimit>,
)
    ensures
        pool.max_active is None && limit is None ==> max_active(pool, limit) is None,
        pool.max_active is Some && limit is None ==> max_active(pool, limit) == pool.max_active,
        pool.max_active is None && limit is Some ==> max_active(pool, limit) == Some(
            limit->Some_0.pool,
        ),
        pool.max_active is Some && limit is Some ==> max_active(pool, limit) is Some && (max_active(
            pool,
            limit,
        ) == pool.max_active || max_active(pool, limit) == Some(limit->Some_0.pool)),
        pool.admission_device() is Some <==> pool.auto_admission && pool.cuda_device_ordinal is Some,
        pool.admission_device() is Some ==> pool.admission_device() == pool.cuda_device_ordinal,
{
}

/// A new machine was never started and has nothing but what it was made with.
pub proof fn law_new_machine(
    name: Seq<char>,
    cpus: u8,
    mem: u32,
    mounts: Seq<(Seq<char>, Seq<char>, bool)>,
    ports: Seq<(u16, u16)>,
    network: bool,
)
    ensures
        ({
            let m = fresh_vm(name, cpus, mem, mounts, ports, network);
            &&& m.name == name && m.cpus == cpus && m.mem == mem
            &&& m.mounts == mounts && m.ports == ports && m.network == network
            &&& m.state == RecordState::Created && m.pid is None && m.last_exit_code is None
            &&& m.golden is None && !m.forkpoint_held && m.fork_env.len() == 0
            &&& m.env.len() == 0 && m.init.len() == 0 && m.cmd.len() == 0 && m.entrypoint.len() == 0
            &&& m.image is None && m.workdir is None && m.user is None
            &&& !m.cuda && !m.ssh_agent && !m.docker_socket && m.gpu is None && m.rosetta is None
            &&& m.allowed_cidrs is None && m.dns_filter_hosts is None
            &&& m.restart.policy == RestartPolicy::Never && m.restart.restart_count == 0
                && !m.restart.user_stopped
        }),
{
}

/// A pool, or the device that admits it, has no room for another lease.
pub open spec fn no_room(db: DbModel, c: ClaimModel) -> bool {
    let pool = db.pools[c.pool_name];
    let live = live_leases(db, c.pool_name);
    ||| pool.max_active is Some && live >= pool.max_active->Some_0
    ||| c.admission_limit is Some && live >= c.admission_limit->Some_0.pool
    ||| c.admission_limit is Some && pool.auto_admission && pool.cuda_device_ordinal is Some
        && live_on_device(db, pool.cuda_device_ordinal->Some_0) >= c.admission_limit->Some_0.device
}

/// A claim that is no retry, of a pool that is open and has room, gets the first worker by
/// name that can be claimed; unless its workspace has to be private and is not, or the
/// lease's name is taken.
pub proof fn law_claim_of_the_first_worker(db: DbModel, c: ClaimModel, name: Seq<char>)
    requires
        forall|id: Seq<char>| #[trigger]
            db.leases.contains_key(id) ==> !(db.leases[id].pool_name == c.pool_name
                && db.leases[id].idempotency_key == c.idempotency_key),
        db.pools.contains_key(c.pool_name),
        !db.pools[c.pool_name].deleting,
        !no_room(db, c),
        can_be_claimed(db, c.pool_name, name),
        forall|other: Seq<char>| #[trigger]
            can_be_claimed(db, c.pool_name, other) && other != name ==> text_lt(name, other),
    ensures
        ({
            let answer = model_claim(db, c).0;
            let mounted = c.require_private_workspace && workspace_mounted(db.vms[name]);
            let taken = db.leases.contains_key(c.lease_id);
            &&& mounted ==> answer is WorkspaceExternallyMounted
            &&& !mounted && taken ==> answer is DuplicateLease
            &&& !mounted && !taken ==> answer is Claimed && answer->Claimed_0.machine_name == name
        }),
{
    assert(!exists|id: Seq<char>| is_retry_of(db, c, id)) by {
        if exists|id: Seq<char>| is_retry_of(db, c, id) {
            let id = choose|id: Seq<char>| is_retry_of(db, c, id);
            assert(db.leases.contains_key(id));
        }
    }
    assert(!at_capacity(db, c));
    assert forall|other: Seq<char>| #[trigger]
        claimable(db, c.pool_name, other) && other != name implies text_lt(name, other) by {
        assert(can_be_claimed(db, c.pool_name, other));
    }
    assert(claimable(db, c.pool_name, name));
    assert(first_claimable(db, c.pool_name, name));
    let chosen = choose|n: Seq<char>| first_claimable(db, c.pool_name, n);
    assert(first_claimable(db, c.pool_name, chosen));
    if chosen != name {
        assert(claimable(db, c.pool_name, chosen));
        lemma_text_lt_asymmetric(name, chosen);
    }
}

/// While no worker of an open pool with room can be claimed, a claim that is no retry says
/// so.
pub proof fn law_claim_without_a_worker(db: DbModel, c: ClaimModel)
    requires
        forall|id: Seq<char>| #[trigger]
            db.leases.contains_key(id) ==> !(db.leases[id].pool_name == c.pool_name
                && db.leases[id].idempotency_key == c.idempotency_key),
        db.pools.contains_key(c.pool_name),
        !db.pools[c.pool_name].deleting,
        !no_room(db, c),
        forall|name: Seq<char>| !#[trigger] can_be_claimed(db, c.pool_name, name),
    ensures
        model_claim(db, c).0 is NoReadySlot,
{
    assert(!exists|id: Seq<char>| is_retry_of(db, c, id)) by {
        if exists|id: Seq<char>| is_retry_of(db, c, id) {
            let id = choose|id: Seq<char>| is_retry_of(db, c, id);
            assert(db.leases.contains_key(id));
        }
    }
    assert(!at_capacity(db, c));
    assert(!exists|name: Seq<char>| first_claimable(db, c.pool_name, name)) by {
        if exists|name: Seq<char>| first_claimable(db, c.pool_name, name) {
            let name = choose|name: Seq<char>| first_claimable(db, c.pool_name, name);
            assert(can_be_claimed(db, c.pool_name, name));
        }
    }
}

/// A claim with the key of an earlier lease of its pool gets that lease, whatever it asks
/// for and whatever has become of the pool, and changes nothing.
pub proof fn law_retried_claim_gets_its_lease(db: DbModel, c: ClaimModel, id: Seq<char>)
    requires
        db_valid(db),
        db.leases.contains_key(id),
        db.leases[id].pool_name == c.pool_name,
        db.leases[id].idempotency_key == c.idempotency_key,
    ensures
        model_claim(db, c) == (ClaimOutcome::Existing(db.leases[id]), db),
{
    assert(is_retry_of(db, c, id));
    let x = choose|x: Seq<char>| is_retry_of(db, c, x);
    assert(is_retry_of(db, c, x));
    assert(db.leases.contains_key(x) && db.leases.contains_key(id));
}

} // verus!
