//! Claims and leases of fork-pool workers, and the deletion of pools.
use crate::copying::{copy_opt_text, copy_pairs, opt_str, opt_text, texts};
use crate::db::{
    ClaimForkPoolSlot, DbError, ForkPoolSlotClaim, SmolvmDb, claim_result, lemma_mapped_end,
    lemma_mapped_start, lemma_mapped_step, lemma_push_unique, lemma_take_push, lists_keys,
    mapped_prefix, merge_env_pairs, mounts_workspace, state_live,
};
use crate::db_model::{
    DbModel, FORK_LEASE_ACTIVATION_GRACE_SECS, claimable, claimed_db, completed, completed_leases,
    db_valid, deletable, deletion_begun, drained, expired, finalized, first_claimable, heartbeaten,
    holds_overdue, is_retry_of, lease_at, lease_in_pool, lease_live, lease_on_device, live_leases,
    live_on_device, map_entries, max_active, model_claim, new_lease, overdue, passed_over,
    released_vm, slot_ready, slots_after_scan, stepped_lease, transitioned, worker_held,
};
use crate::records::{
    ForkLeaseRecord, ForkLeaseState, ForkPoolAdmissionLimit, ForkPoolRecord, ForkPoolSlotState,
    LeaseModel, SlotModel,
};
use crate::table::{Table, count_prefix, count_where, lemma_count};
use crate::text::{
    lemma_text_lt_asymmetric, lemma_text_lt_total, lemma_text_lt_transitive, text_eq, text_less,
    text_lt,
};
use vstd::prelude::*;

verus! {

/// The mathematical values of `leases`, in order.
pub open spec fn leases_view(leases: Seq<ForkLeaseRecord>) -> Seq<LeaseModel> {
    leases.map_values(|l: ForkLeaseRecord| l@)
}

/// The identifiers of `leases`, in order.
pub open spec fn lease_ids(leases: Seq<ForkLeaseRecord>) -> Seq<Seq<char>> {
    leases.map_values(|l: ForkLeaseRecord| l@.id)
}

/// The lease once its time is up.
pub open spec fn expired_lease(l: LeaseModel, now: u64) -> LeaseModel {
    LeaseModel { state: ForkLeaseState::Expired, updated_at: now, ..l }
}

impl SmolvmDb {
    /// How many leases of `pool` hold a worker.
    fn count_live(&self, pool: &str) -> (n: usize)
        requires
            self.wf(),
        ensures
            n == live_leases(self@, pool@),
    {
        let mut n: usize = 0;
        let mut i: usize = 0;
        let ghost keys = self.leases.keys();
        let ghost p = |l: LeaseModel| l.pool_name == pool@ && lease_live(l);
        proof { self.leases.lemma_keys(); }
        while i < self.leases.len()
            invariant
                self.wf(),
                keys == self.leases.keys(),
                p == (|l: LeaseModel| l.pool_name == pool@ && lease_live(l)),
                i <= keys.len(),
                n <= i,
                n == count_prefix(keys, self.leases@, p, i as int),
            decreases keys.len() - i,
        {
            let l = self.leases.value_at(i);
            if text_eq(l.pool_name.as_str(), pool) && state_live(l.state) {
                n = n + 1;
            }
            i = i + 1;
        }
        proof { lemma_count(keys, self.leases@, p); }
        n
    }

    /// How many leases of `pool` were completed.
    fn count_completed(&self, pool: &str) -> (n: usize)
        requires
            self.wf(),
        ensures
            n == completed_leases(self@, pool@),
    {
        let mut n: usize = 0;
        let mut i: usize = 0;
        let ghost keys = self.leases.keys();
        let ghost p = |l: LeaseModel| l.pool_name == pool@ && l.state == ForkLeaseState::Completed;
        proof { self.leases.lemma_keys(); }
        while i < self.leases.len()
            invariant
                self.wf(),
                keys == self.leases.keys(),
                p == (|l: LeaseModel| l.pool_name == pool@ && l.state == ForkLeaseState::Completed),
                i <= keys.len(),
                n <= i,
                n == count_prefix(keys, self.leases@, p, i as int),
            decreases keys.len() - i,
        {
            let l = self.leases.value_at(i);
            if text_eq(l.pool_name.as_str(), pool) && l.state == ForkLeaseState::Completed {
                n = n + 1;
            }
            i = i + 1;
        }
        proof { lemma_count(keys, self.leases@, p); }
        n
    }

    /// How many leases hold a worker of any pool admitted by `device`.
    fn count_on_device(&self, device: u32) -> (n: usize)
        requires
            self.wf(),
        ensures
            n == live_on_device(self@, device),
    {
        let mut n: usize = 0;
        let mut i: usize = 0;
        let ghost keys = self.leases.keys();
        let ghost pools = self@.pools;
        let ghost p = |l: LeaseModel| lease_on_device(pools, l, device);
        proof { self.leases.lemma_keys(); }
        while i < self.leases.len()
            invariant
                self.wf(),
                keys == self.leases.keys(),
                pools == self@.pools,
                p == (|l: LeaseModel| lease_on_device(pools, l, device)),
                i <= keys.len(),
                n <= i,
                n == count_prefix(keys, self.leases@, p, i as int),
            decreases keys.len() - i,
        {
            let l = self.leases.value_at(i);
            if state_live(l.state) {
                let admitted = match self.pools.get(l.pool_name.as_str()) {
                    Some(pool) => match pool.admission_device_ordinal() {
                        Some(d) => d == device,
                        None => false,
                    },
                    None => false,
                };
                if admitted {
                    n = n + 1;
                }
            }
            i = i + 1;
        }
        proof {
            lemma_count(keys, self.leases@, p);
            assert(live_on_device(self@, device) == count_where(self.leases@, p)) by {
                assert((|l: LeaseModel| lease_on_device(self@.pools, l, device)) =~= p);
            }
        }
        n
    }

    /// The leases of a pool that hold a worker, and those that were completed.
    pub fn fork_pool_admission_counts(&self, pool_name: &str) -> (r: Result<(u32, u64), DbError>)
        requires
            self.wf(),
        ensures
            match r {
                Ok((live, done)) => live == live_leases(self@, pool_name@) && done
                    == completed_leases(self@, pool_name@),
                Err(e) => e == DbError::CountOutOfRange && live_leases(self@, pool_name@)
                    > u32::MAX,
            },
    {
        let live = self.count_live(pool_name);
        let done = self.count_completed(pool_name);
        if live as u64 > 0xffff_ffff {
            Err(DbError::CountOutOfRange)
        } else {
            Ok((live as u32, done as u64))
        }
    }

    /// The row of the lease that an earlier claim with the same retry key created.
    fn find_retry(&self, claim: &ForkPoolSlotClaim<'_>) -> (r: Option<usize>)
        requires
            self.wf(),
        ensures
            match r {
                Some(i) => i < self.leases.keys().len() && is_retry_of(
                    self@,
                    claim@,
                    self.leases.keys()[i as int],
                ),
                None => forall|id: Seq<char>| !is_retry_of(self@, claim@, id),
            },
    {
        let ghost keys = self.leases.keys();
        proof { self.leases.lemma_keys(); }
        let mut i: usize = 0;
        while i < self.leases.len()
            invariant
                self.wf(),
                keys == self.leases.keys(),
                keys.to_set() == self.leases@.dom(),
                i <= keys.len(),
                forall|j: int| 0 <= j < i ==> !is_retry_of(self@, claim@, #[trigger] keys[j]),
            decreases keys.len() - i,
        {
            let l = self.leases.value_at(i);
            if text_eq(l.pool_name.as_str(), claim.pool_name) && text_eq(
                l.idempotency_key.as_str(),
                claim.idempotency_key,
            ) {
                return Some(i);
            }
            i = i + 1;
        }
        proof {
            assert forall|id: Seq<char>| !is_retry_of(self@, claim@, id) by {
                if is_retry_of(self@, claim@, id) {
                    assert(keys.to_set().contains(id));
                    let j = choose|j: int| 0 <= j < keys.len() && keys[j] == id;
                    assert(!is_retry_of(self@, claim@, keys[j]));
                }
            }
        }
        None
    }

    /// Whether row `i` of the slot table is a worker of `pool` marked ready.
    fn row_ready(&self, i: usize, pool: &str) -> (r: bool)
        requires
            self.wf(),
            i < self.slots.keys().len(),
        ensures
            r == slot_ready(self@, pool@, self.slots.keys()[i as int]),
    {
        let s = self.slots.value_at(i);
        text_eq(s.pool_name.as_str(), pool) && s.state == ForkPoolSlotState::Ready
    }

    /// Whether the machine of row `i` of the slot table can be released.
    fn row_held(&self, i: usize, golden: &str) -> (r: bool)
        requires
            self.wf(),
            i < self.slots.keys().len(),
        ensures
            r == worker_held(self@, golden@, self.slots.keys()[i as int]),
    {
        match self.vms.get(self.slots.key_at(i).as_str()) {
            Some(vm) => vm.forkpoint_held && match &vm.golden {
                Some(g) => text_eq(g.as_str(), golden),
                None => false,
            },
            None => false,
        }
    }

    /// The row of the first claimable worker of `pool` by name.
    fn find_claimable(&self, pool: &str, golden: &str) -> (r: Option<usize>)
        requires
            self.wf(),
            self@.pools.contains_key(pool@),
            self@.pools[pool@].golden == golden@,
        ensures
            match r {
                Some(i) => i < self.slots.keys().len() && first_claimable(
                    self@,
                    pool@,
                    self.slots.keys()[i as int],
                ),
                None => forall|name: Seq<char>| !claimable(self@, pool@, name),
            },
    {
        let ghost keys = self.slots.keys();
        proof { self.slots.lemma_keys(); }
        let mut best: Option<usize> = None;
        let mut i: usize = 0;
        while i < self.slots.len()
            invariant
                self.wf(),
                self@.pools.contains_key(pool@),
                self@.pools[pool@].golden == golden@,
                keys == self.slots.keys(),
                keys.no_duplicates(),
                keys.to_set() == self.slots@.dom(),
                i <= keys.len(),
                match best {
                    Some(b) => b < i && claimable(self@, pool@, keys[b as int]) && forall|j: int|
                        0 <= j < i && j != b && #[trigger] claimable(self@, pool@, keys[j])
                            ==> text_lt(keys[b as int], keys[j]),
                    None => forall|j: int| 0 <= j < i ==> !claimable(self@, pool@, #[trigger] keys[j]),
                },
            decreases keys.len() - i,
        {
            if self.row_ready(i, pool) && self.row_held(i, golden) {
                let better = match best {
                    Some(b) => text_less(
                        self.slots.key_at(i).as_str(),
                        self.slots.key_at(b).as_str(),
                    ),
                    None => true,
                };
                proof {
                    if let Some(b) = best {
                        let kb = keys[b as int];
                        let ki = keys[i as int];
                        assert(kb != ki);
                        lemma_text_lt_total(kb, ki);
                        if better {
                            assert forall|j: int| 0 <= j < i + 1 && j != i && #[trigger] claimable(
                                self@,
                                pool@,
                                keys[j],
                            ) implies text_lt(ki, keys[j]) by {
                                if j != b {
                                    lemma_text_lt_transitive(ki, kb, keys[j]);
                                }
                            }
                        }
                    }
                }
                if better {
                    best = Some(i);
                }
            }
            i = i + 1;
        }
        proof {
            assert forall|name: Seq<char>| claimable(self@, pool@, name) implies exists|j: int|
                0 <= j < keys.len() && #[trigger] keys[j] == name by {
                assert(keys.to_set().contains(name));
            }
            if let Some(b) = best {
                assert forall|other: Seq<char>| #[trigger] claimable(self@, pool@, other) && other
                    != keys[b as int] implies text_lt(keys[b as int], other) by {
                    let j = choose|j: int| 0 <= j < keys.len() && #[trigger] keys[j] == other;
                    assert(claimable(self@, pool@, keys[j]));
                }
            } else {
                assert forall|name: Seq<char>| !claimable(self@, pool@, name) by {
                    if claimable(self@, pool@, name) {
                        let j = choose|j: int| 0 <= j < keys.len() && #[trigger] keys[j] == name;
                        assert(!claimable(self@, pool@, keys[j]));
                    }
                }
            }
        }
        best
    }

    /// Retires the unusable ready workers before `chosen`, or all of them.
    fn retire_passed_over(&mut self, pool: &str, golden: &str, chosen: Option<&str>, now: u64)
        requires
            old(self).wf(),
            old(self)@.pools.contains_key(pool@),
            old(self)@.pools[pool@].golden == golden@,
        ensures
            final(self).wf(),
            final(self).slots.keys() == old(self).slots.keys(),
            final(self).vms == old(self).vms,
            final(self)@ == (DbModel {
                slots: slots_after_scan(old(self)@, pool@, opt_str(chosen), now),
                ..old(self)@
            }),
    {
        let ghost start = self@;
        let ghost keys = self.slots.keys();
        let ghost test = |k: Seq<char>, s: SlotModel| passed_over(start, pool@, opt_str(chosen), k);
        let mut goes: Vec<bool> = Vec::new();
        let mut i: usize = 0;
        while i < self.slots.len()
            invariant
                self.wf(),
                self@ == start,
                start.pools.contains_key(pool@),
                start.pools[pool@].golden == golden@,
                keys == self.slots.keys(),
                i <= keys.len(),
                goes@.len() == i,
                forall|j: int|
                    0 <= j < i ==> #[trigger] goes@[j] == passed_over(
                        start,
                        pool@,
                        opt_str(chosen),
                        keys[j],
                    ),
            decreases keys.len() - i,
        {
            let before = match chosen {
                Some(c) => text_less(self.slots.key_at(i).as_str(), c),
                None => true,
            };
            let pass = self.row_ready(i, pool) && !self.row_held(i, golden) && before;
            goes.push(pass);
            i = i + 1;
        }
        self.retire_rows(
            &goes,
            now,
            Some("ready slot no longer has a matching held VM"),
            Ghost(test),
        );
        proof {
            assert(self@.slots =~= slots_after_scan(start, pool@, opt_str(chosen), now));
        }
    }

    /// Consumes one held worker and creates its lease in one step.
    ///
    /// The machine's forkpoint is released together with the claim of the worker,
    /// so a released workload never looks ready to a second caller.
    pub fn claim_fork_pool_slot(&mut self, claim: ForkPoolSlotClaim<'_>) -> (r: Result<
        ClaimForkPoolSlot,
        DbError,
    >)
        requires
            old(self).wf(),
        ensures
            final(self).wf(),
            claim_result(r) == model_claim(old(self)@, claim@).0,
            final(self)@ == model_claim(old(self)@, claim@).1,
            r matches Err(e) ==> e == DbError::DuplicateLease,
    {
        let ghost start = self@;
        let ghost c = claim@;
        if let Some(i) = self.find_retry(&claim) {
            proof {
                let id = choose|id: Seq<char>| is_retry_of(start, c, id);
                assert(id == self.leases.keys()[i as int]);
            }
            return Ok(ClaimForkPoolSlot::Existing(self.leases.value_at(i).clone()));
        }
        let pool = match self.pools.get(claim.pool_name) {
            Some(p) => p.clone(),
            None => {
                return Ok(ClaimForkPoolSlot::PoolNotFound);
            },
        };
        if pool.deleting {
            return Ok(ClaimForkPoolSlot::PoolDeleting);
        }
        let ceiling = active_ceiling(&pool, claim.admission_limit);
        if let Some(max) = ceiling {
            if self.count_live(claim.pool_name) as u64 >= max as u64 {
                return Ok(ClaimForkPoolSlot::AtCapacity);
            }
        }
        if let Some(limit) = claim.admission_limit {
            if let Some(device) = pool.admission_device_ordinal() {
                if self.count_on_device(device) as u64 >= limit.device as u64 {
                    return Ok(ClaimForkPoolSlot::AtCapacity);
                }
            }
        }
        let golden = pool.golden.as_str();
        let row = match self.find_claimable(claim.pool_name, golden) {
            Some(i) => i,
            None => {
                proof {
                    assert(!exists|name: Seq<char>| first_claimable(start, c.pool_name, name));
                }
                self.retire_passed_over(claim.pool_name, golden, None, claim.now);
                return Ok(ClaimForkPoolSlot::NoReadySlot);
            },
        };
        let machine = self.slots.key_at(row).clone();
        proof {
            let name = choose|name: Seq<char>| first_claimable(start, c.pool_name, name);
            lemma_first_claimable_unique(start, c.pool_name, name, machine@);
        }
        let vm_row = match self.vms.find(machine.as_str()) {
            Some(i) => i,
            None => {
                proof { assert(false); }
                return Err(DbError::DuplicateLease);
            },
        };
        if claim.require_private_workspace && mounts_workspace(self.vms.value_at(vm_row)) {
            self.retire_passed_over(
                claim.pool_name,
                golden,
                Some(machine.as_str()),
                claim.now,
            );
            return Ok(ClaimForkPoolSlot::WorkspaceExternallyMounted);
        }
        if self.leases.contains(claim.lease_id) {
            return Err(DbError::DuplicateLease);
        }
        self.retire_passed_over(claim.pool_name, golden, Some(machine.as_str()), claim.now);
        let ghost scanned = self@;

        let mut vm = self.vms.value_at(vm_row).clone();
        vm.fork_env = merge_env_pairs(&vm.fork_env, claim.assignment);
        vm.env = merge_env_pairs(&vm.env, claim.assignment);
        vm.forkpoint_held = false;
        proof { assert(vm@ =~= released_vm(start.vms[machine@], c.assignment)); }
        self.vms.set_at(vm_row, vm);

        let mut slot = self.slots.value_at(row).clone();
        slot.state = ForkPoolSlotState::Activating;
        slot.lease_id = Some(claim.lease_id.to_owned());
        slot.updated_at = claim.now;
        proof {
            assert(slot@ =~= (SlotModel {
                state: ForkPoolSlotState::Activating,
                lease_id: Some(c.lease_id),
                updated_at: c.now,
                ..scanned.slots[machine@]
            }));
        }
        self.slots.set_at(row, slot);

        let lease = ForkLeaseRecord {
            id: claim.lease_id.to_owned(),
            pool_name: claim.pool_name.to_owned(),
            machine_name: machine,
            idempotency_key: claim.idempotency_key.to_owned(),
            state: ForkLeaseState::Activating,
            assignment: copy_pairs(claim.assignment),
            payload_sha256: match claim.payload_sha256 {
                Some(d) => Some(d.to_owned()),
                None => None,
            },
            created_at: claim.now,
            updated_at: claim.now,
            expires_at: claim.now.saturating_add(FORK_LEASE_ACTIVATION_GRACE_SECS),
            ttl_secs: claim.ttl_secs,
            last_error: None,
        };
        proof { assert(lease@ =~= new_lease(c, lease@.machine_name)); }
        self.leases.insert(claim.lease_id, lease.clone());
        proof {
            self.lemma_finite();
            assert(self@ =~= claimed_db(start, c, lease@.machine_name));
            assert(db_valid(self@)) by {
                assert forall|a: Seq<char>, b: Seq<char>|
                    #![trigger self@.leases.contains_key(a), self@.leases.contains_key(b)]
                    self@.leases.contains_key(a) && self@.leases.contains_key(b)
                        && self@.leases[a].pool_name == self@.leases[b].pool_name
                        && self@.leases[a].idempotency_key
                        == self@.leases[b].idempotency_key implies a == b by {
                    if a != b && b == c.lease_id {
                        assert(!is_retry_of(start, c, a));
                    }
                    if a != b && a == c.lease_id {
                        assert(!is_retry_of(start, c, b));
                    }
                }
            }
        }
        Ok(ClaimForkPoolSlot::Claimed(lease))
    }
}

impl SmolvmDb {
    /// The lease `lease_id` of a pool.
    pub fn get_fork_lease(&self, pool_name: &str, lease_id: &str) -> (r: Option<ForkLeaseRecord>)
        requires
            self.wf(),
        ensures
            opt_lease(r) == lease_in_pool(self@, pool_name@, lease_id@),
    {
        match self.leases.get(lease_id) {
            Some(l) => {
                if text_eq(l.pool_name.as_str(), pool_name) {
                    Some(l.clone())
                } else {
                    None
                }
            },
            None => None,
        }
    }

    /// The lease `lease_id`.
    pub fn get_fork_lease_by_id(&self, lease_id: &str) -> (r: Option<ForkLeaseRecord>)
        requires
            self.wf(),
        ensures
            opt_lease(r) == lease_at(self@, lease_id@),
    {
        match self.leases.get(lease_id) {
            Some(l) => Some(l.clone()),
            None => None,
        }
    }

    /// Moves a lease in the state `expected` to `next` and its worker to
    /// `slot_next`; returns the lease as it then stands.
    fn transition_fork_lease(
        &mut self,
        lease_id: &str,
        expected: ForkLeaseState,
        next: ForkLeaseState,
        slot_next: ForkPoolSlotState,
        now: u64,
        error: Option<String>,
    ) -> (r: Option<ForkLeaseRecord>)
        requires
            old(self).wf(),
        ensures
            final(self).wf(),
            final(self)@ == transitioned(
                old(self)@,
                lease_id@,
                expected,
                next,
                slot_next,
                now,
                opt_text(error),
            ),
            opt_lease(r) == lease_at(final(self)@, lease_id@),
    {
        let i = match self.leases.find(lease_id) {
            Some(i) => i,
            None => {
                return None;
            },
        };
        let mut lease = self.leases.value_at(i).clone();
        if lease.state != expected {
            return Some(lease);
        }
        let ghost start = self@;
        lease.state = next;
        lease.updated_at = now;
        if expected == ForkLeaseState::Activating && next == ForkLeaseState::Active {
            lease.expires_at = now.saturating_add(lease.ttl_secs);
        }
        lease.last_error = copy_opt_text(&error);
        proof {
            assert(lease@ =~= stepped_lease(start.leases[lease_id@], next, now, opt_text(error)));
        }
        self.leases.set_at(i, lease.clone());
        proof {
            self.lemma_finite();
            assert(db_valid(self@)) by {
                lemma_same_keys_valid(start, self@);
            }
        }
        self.update_fork_pool_slot_state(
            lease.machine_name.as_str(),
            None,
            slot_next,
            now,
            error,
        );
        proof {
            assert(self@ =~= transitioned(
                start,
                lease_id@,
                expected,
                next,
                slot_next,
                now,
                opt_text(error),
            ));
        }
        Some(lease)
    }

    /// Marks a claimed worker active once its guest is released.
    pub fn mark_fork_lease_active(&mut self, lease_id: &str, now: u64) -> (r: Option<
        ForkLeaseRecord,
    >)
        requires
            old(self).wf(),
        ensures
            final(self).wf(),
            final(self)@ == transitioned(
                old(self)@,
                lease_id@,
                ForkLeaseState::Activating,
                ForkLeaseState::Active,
                ForkPoolSlotState::Leased,
                now,
                None,
            ),
            opt_lease(r) == lease_at(final(self)@, lease_id@),
    {
        self.transition_fork_lease(
            lease_id,
            ForkLeaseState::Activating,
            ForkLeaseState::Active,
            ForkPoolSlotState::Leased,
            now,
            None,
        )
    }

    /// Fails a lease whose worker could not be started, and retires the worker.
    pub fn fail_fork_lease(&mut self, lease_id: &str, now: u64, error: String) -> (r: Option<
        ForkLeaseRecord,
    >)
        requires
            old(self).wf(),
        ensures
            final(self).wf(),
            final(self)@ == transitioned(
                old(self)@,
                lease_id@,
                ForkLeaseState::Activating,
                ForkLeaseState::Failed,
                ForkPoolSlotState::Retiring,
                now,
                Some(error@),
            ),
            opt_lease(r) == lease_at(final(self)@, lease_id@),
    {
        self.transition_fork_lease(
            lease_id,
            ForkLeaseState::Activating,
            ForkLeaseState::Failed,
            ForkPoolSlotState::Retiring,
            now,
            Some(error),
        )
    }

    /// Fails an active lease whose worker exited, and retires the worker.
    pub fn fail_active_fork_lease(&mut self, lease_id: &str, now: u64, error: String) -> (r: Option<
        ForkLeaseRecord,
    >)
        requires
            old(self).wf(),
        ensures
            final(self).wf(),
            final(self)@ == transitioned(
                old(self)@,
                lease_id@,
                ForkLeaseState::Active,
                ForkLeaseState::Failed,
                ForkPoolSlotState::Retiring,
                now,
                Some(error@),
            ),
            opt_lease(r) == lease_at(final(self)@, lease_id@),
    {
        self.transition_fork_lease(
            lease_id,
            ForkLeaseState::Active,
            ForkLeaseState::Failed,
            ForkPoolSlotState::Retiring,
            now,
            Some(error),
        )
    }

    /// Extends an active lease that has not run out by its lifetime.
    pub fn heartbeat_fork_lease(&mut self, pool_name: &str, lease_id: &str, now: u64) -> (r: Option<
        ForkLeaseRecord,
    >)
        requires
            old(self).wf(),
        ensures
            final(self).wf(),
            final(self)@ == heartbeaten(old(self)@, pool_name@, lease_id@, now),
            opt_lease(r) == lease_in_pool(final(self)@, pool_name@, lease_id@),
    {
        let i = match self.leases.find(lease_id) {
            Some(i) => i,
            None => {
                return None;
            },
        };
        let mut lease = self.leases.value_at(i).clone();
        if !text_eq(lease.pool_name.as_str(), pool_name) {
            return None;
        }
        if lease.state == ForkLeaseState::Active && lease.expires_at > now {
            let ghost start = self@;
            lease.updated_at = now;
            lease.expires_at = now.saturating_add(lease.ttl_secs);
            self.leases.set_at(i, lease.clone());
            proof {
                self.lemma_finite();
                lemma_same_keys_valid(start, self@);
            }
        }
        Some(lease)
    }

    /// Completes an active lease and retires its worker.
    pub fn complete_fork_lease(&mut self, pool_name: &str, lease_id: &str, now: u64) -> (r: Option<
        ForkLeaseRecord,
    >)
        requires
            old(self).wf(),
        ensures
            final(self).wf(),
            final(self)@ == completed(old(self)@, pool_name@, lease_id@, now),
            opt_lease(r) == lease_in_pool(final(self)@, pool_name@, lease_id@),
    {
        match self.get_fork_lease(pool_name, lease_id) {
            Some(_) => self.transition_fork_lease(
                lease_id,
                ForkLeaseState::Active,
                ForkLeaseState::Completed,
                ForkPoolSlotState::Retiring,
                now,
                None,
            ),
            None => None,
        }
    }

    /// Whether the machine is held by a lease whose time is up.
    fn machine_overdue(&self, machine: &str, now: u64) -> (r: bool)
        requires
            self.wf(),
        ensures
            r == holds_overdue(self@, machine@, now),
    {
        let ghost keys = self.leases.keys();
        proof { self.leases.lemma_keys(); }
        let mut i: usize = 0;
        while i < self.leases.len()
            invariant
                self.wf(),
                keys == self.leases.keys(),
                keys.to_set() == self.leases@.dom(),
                i <= keys.len(),
                forall|j: int|
                    0 <= j < i ==> !(overdue(self@.leases[#[trigger] keys[j]], now)
                        && self@.leases[keys[j]].machine_name == machine@),
            decreases keys.len() - i,
        {
            let l = self.leases.value_at(i);
            if state_live(l.state) && l.expires_at <= now && text_eq(
                l.machine_name.as_str(),
                machine,
            ) {
                proof { assert(self@.leases.contains_key(keys[i as int])); }
                return true;
            }
            i = i + 1;
        }
        proof {
            assert forall|id: Seq<char>| #[trigger] self@.leases.contains_key(id) implies !(overdue(
                self@.leases[id],
                now,
            ) && self@.leases[id].machine_name == machine@) by {
                assert(keys.to_set().contains(id));
                let j = choose|j: int| 0 <= j < keys.len() && #[trigger] keys[j] == id;
            }
        }
        false
    }

    /// Expires every live lease whose time is up and retires its worker; returns
    /// the expired leases.
    pub fn expire_fork_leases(&mut self, now: u64) -> (r: Vec<ForkLeaseRecord>)
        requires
            old(self).wf(),
        ensures
            final(self).wf(),
            final(self)@ == expired(old(self)@, now),
            lease_ids(r@).no_duplicates(),
            forall|l: LeaseModel| #[trigger]
                leases_view(r@).contains(l) <==> old(self)@.leases.contains_key(l.id) && overdue(
                    old(self)@.leases[l.id],
                    now,
                ) && l == expired_lease(old(self)@.leases[l.id], now),
    {
        let ghost start = self@;
        let ghost slot_keys = self.slots.keys();
        let ghost test = |k: Seq<char>, s: SlotModel| holds_overdue(start, k, now);
        let mut goes: Vec<bool> = Vec::new();
        let mut i: usize = 0;
        while i < self.slots.len()
            invariant
                self.wf(),
                self@ == start,
                slot_keys == self.slots.keys(),
                i <= slot_keys.len(),
                goes@.len() == i,
                forall|j: int|
                    0 <= j < i ==> #[trigger] goes@[j] == holds_overdue(start, slot_keys[j], now),
            decreases slot_keys.len() - i,
        {
            let late = self.machine_overdue(self.slots.key_at(i).as_str(), now);
            goes.push(late);
            i = i + 1;
        }
        self.retire_rows(&goes, now, None, Ghost(test));

        let ghost keys = self.leases.keys();
        let ghost m = start.leases;
        let ghost middle = self@;
        let ghost f = |k: Seq<char>, l: LeaseModel|
            if overdue(l, now) {
                expired_lease(l, now)
            } else {
                l
            };
        let mut r: Vec<ForkLeaseRecord> = Vec::new();
        let mut j: usize = 0;
        proof {
            self.leases.lemma_keys();
            lemma_mapped_start(m, keys, f);
        }
        while j < self.leases.len()
            invariant
                self.tables_wf(),
                self@ == (DbModel { leases: self.leases@, ..middle }),
                db_valid(start),
                m == start.leases,
                self.leases.keys() == keys,
                keys.no_duplicates(),
                keys.to_set() == m.dom(),
                f == (|k: Seq<char>, l: LeaseModel|
                    if overdue(l, now) {
                        expired_lease(l, now)
                    } else {
                        l
                    }),
                j <= keys.len(),
                self.leases@ == mapped_prefix(m, keys, f, j as int),
                lease_ids(r@).no_duplicates(),
                forall|n: int|
                    0 <= n < r@.len() ==> m.contains_key((#[trigger] r@[n])@.id) && overdue(
                        m[r@[n]@.id],
                        now,
                    ) && r@[n]@ == expired_lease(m[r@[n]@.id], now),
                forall|k: Seq<char>| #[trigger]
                    lease_ids(r@).contains(k) <==> keys.take(j as int).contains(k) && overdue(
                        m[k],
                        now,
                    ),
            decreases keys.len() - j,
        {
            let ghost before = lease_ids(r@);
            let ghost key = keys[j as int];
            proof {
                lemma_mapped_step(m, keys, f, j as int);
                lemma_take_push(keys, j as int);
            }
            let mut lease = self.leases.value_at(j).clone();
            if state_live(lease.state) && lease.expires_at <= now {
                lease.state = ForkLeaseState::Expired;
                lease.updated_at = now;
                proof { assert(lease@ =~= expired_lease(m[key], now)); }
                self.leases.set_at(j, lease.clone());
                r.push(lease);
                proof { lemma_push_unique(before, key, lease_ids(r@)); }
            }
            j = j + 1;
        }
        proof {
            lemma_mapped_end(m, keys, f);
            self.lemma_finite();
            assert(self@ =~= expired(start, now)) by {
                assert(self@.slots =~= expired(start, now).slots);
                assert(self@.leases =~= expired(start, now).leases);
            }
            lemma_same_keys_valid(start, self@);
            assert(keys.take(keys.len() as int) =~= keys);
            assert forall|l: LeaseModel| #[trigger]
                leases_view(r@).contains(l) <==> start.leases.contains_key(l.id) && overdue(
                    start.leases[l.id],
                    now,
                ) && l == expired_lease(start.leases[l.id], now) by {
                if leases_view(r@).contains(l) {
                    let n = choose|n: int| 0 <= n < leases_view(r@).len() && leases_view(r@)[n] == l;
                    assert(r@[n]@ == l);
                }
                if start.leases.contains_key(l.id) && overdue(start.leases[l.id], now) && l
                    == expired_lease(start.leases[l.id], now) {
                    assert(keys.to_set().contains(l.id));
                    assert(lease_ids(r@).contains(l.id));
                    let n = choose|n: int|
                        0 <= n < lease_ids(r@).len() && lease_ids(r@)[n] == l.id;
                    assert(r@[n]@.id == l.id);
                    assert(leases_view(r@)[n] == l);
                }
            }
        }
        r
    }

    /// The active leases.
    pub fn list_active_fork_leases(&self) -> (r: Vec<ForkLeaseRecord>)
        requires
            self.wf(),
        ensures
            lease_ids(r@).no_duplicates(),
            forall|l: LeaseModel| #[trigger]
                leases_view(r@).contains(l) <==> self@.leases.contains_key(l.id)
                    && self@.leases[l.id] == l && l.state == ForkLeaseState::Active,
    {
        let mut r: Vec<ForkLeaseRecord> = Vec::new();
        let mut i: usize = 0;
        let ghost keys = self.leases.keys();
        proof { self.leases.lemma_keys(); }
        while i < self.leases.len()
            invariant
                self.wf(),
                keys == self.leases.keys(),
                keys.no_duplicates(),
                keys.to_set() == self.leases@.dom(),
                i <= keys.len(),
                lease_ids(r@).no_duplicates(),
                forall|j: int|
                    0 <= j < r@.len() ==> self.leases@.contains_key((#[trigger] r@[j])@.id)
                        && self.leases@[r@[j]@.id] == r@[j]@ && r@[j]@.state
                        == ForkLeaseState::Active,
                forall|k: Seq<char>| #[trigger]
                    lease_ids(r@).contains(k) <==> keys.take(i as int).contains(k)
                        && self.leases@[k].state == ForkLeaseState::Active,
            decreases keys.len() - i,
        {
            let ghost before = lease_ids(r@);
            let ghost key = keys[i as int];
            proof {
                lemma_take_push(keys, i as int);
                assert(keys.to_set().contains(key));
            }
            if self.leases.value_at(i).state == ForkLeaseState::Active {
                r.push(self.leases.value_at(i).clone());
                proof { lemma_push_unique(before, key, lease_ids(r@)); }
            }
            i = i + 1;
        }
        proof {
            assert(keys.take(keys.len() as int) =~= keys);
            assert forall|l: LeaseModel| #[trigger]
                leases_view(r@).contains(l) <==> self@.leases.contains_key(l.id)
                    && self@.leases[l.id] == l && l.state == ForkLeaseState::Active by {
                if leases_view(r@).contains(l) {
                    let n = choose|n: int| 0 <= n < leases_view(r@).len() && leases_view(r@)[n] == l;
                    assert(r@[n]@ == l);
                }
                if self@.leases.contains_key(l.id) && self@.leases[l.id] == l && l.state
                    == ForkLeaseState::Active {
                    assert(keys.to_set().contains(l.id));
                    assert(lease_ids(r@).contains(l.id));
                    let n = choose|n: int|
                        0 <= n < lease_ids(r@).len() && lease_ids(r@)[n] == l.id;
                    assert(r@[n]@.id == l.id);
                    assert(leases_view(r@)[n] == l);
                }
            }
        }
        r
    }

    /// Cancels the live leases of a pool.
    fn cancel_leases(&mut self, pool: &str, now: u64)
        requires
            old(self).wf(),
        ensures
            final(self).wf(),
            final(self)@ == (DbModel {
                leases: map_entries(
                    old(self)@.leases,
                    |k: Seq<char>, l: LeaseModel|
                        if l.pool_name == pool@ && lease_live(l) {
                            LeaseModel { state: ForkLeaseState::Cancelled, updated_at: now, ..l }
                        } else {
                            l
                        },
                ),
                ..old(self)@
            }),
    {
        let ghost start = self@;
        let ghost keys = self.leases.keys();
        let ghost m = start.leases;
        let ghost f = |k: Seq<char>, l: LeaseModel|
            if l.pool_name == pool@ && lease_live(l) {
                LeaseModel { state: ForkLeaseState::Cancelled, updated_at: now, ..l }
            } else {
                l
            };
        let mut i: usize = 0;
        proof {
            self.leases.lemma_keys();
            lemma_mapped_start(m, keys, f);
        }
        while i < self.leases.len()
            invariant
                self.tables_wf(),
                self@ == (DbModel { leases: self.leases@, ..start }),
                m == start.leases,
                self.leases.keys() == keys,
                keys.no_duplicates(),
                keys.to_set() == m.dom(),
                f == (|k: Seq<char>, l: LeaseModel|
                    if l.pool_name == pool@ && lease_live(l) {
                        LeaseModel { state: ForkLeaseState::Cancelled, updated_at: now, ..l }
                    } else {
                        l
                    }),
                i <= keys.len(),
                self.leases@ == mapped_prefix(m, keys, f, i as int),
            decreases keys.len() - i,
        {
            proof { lemma_mapped_step(m, keys, f, i as int); }
            let mut lease = self.leases.value_at(i).clone();
            if text_eq(lease.pool_name.as_str(), pool) && state_live(lease.state) {
                lease.state = ForkLeaseState::Cancelled;
                lease.updated_at = now;
                self.leases.set_at(i, lease);
            }
            i = i + 1;
        }
        proof {
            lemma_mapped_end(m, keys, f);
            self.lemma_finite();
            lemma_same_keys_valid(start, self@);
        }
    }

    /// Which rows of the slot table belong to `pool`.
    fn rows_in_pool(&self, pool: &str) -> (r: Vec<bool>)
        requires
            self.wf(),
        ensures
            r@.len() == self.slots.keys().len(),
            forall|j: int|
                0 <= j < r@.len() ==> #[trigger] r@[j] == (
                self.slots@[self.slots.keys()[j]].pool_name == pool@),
    {
        let mut r: Vec<bool> = Vec::new();
        let mut i: usize = 0;
        while i < self.slots.len()
            invariant
                self.wf(),
                i <= self.slots.keys().len(),
                r@.len() == i,
                forall|j: int|
                    0 <= j < i ==> #[trigger] r@[j] == (
                    self.slots@[self.slots.keys()[j]].pool_name == pool@),
            decreases self.slots.keys().len() - i,
        {
            let mine = text_eq(self.slots.value_at(i).pool_name.as_str(), pool);
            r.push(mine);
            i = i + 1;
        }
        r
    }

    /// Begins to delete a pool and retires its workers.
    ///
    /// Returns nothing when there is no such pool, and false when leases hold its
    /// workers and `force` is not set.
    pub fn begin_delete_fork_pool(&mut self, name: &str, force: bool, now: u64) -> (r: Option<bool>)
        requires
            old(self).wf(),
        ensures
            final(self).wf(),
            r == if old(self)@.pools.contains_key(name@) {
                Some(deletable(old(self)@, name@, force))
            } else {
                None
            },
            final(self)@ == deletion_begun(old(self)@, name@, force, now),
    {
        let i = match self.pools.find(name) {
            Some(i) => i,
            None => {
                return None;
            },
        };
        if self.count_live(name) > 0 && !force {
            return Some(false);
        }
        let ghost start = self@;
        let mut pool = self.pools.value_at(i).clone();
        pool.deleting = true;
        self.pools.set_at(i, pool);
        proof { self.lemma_finite(); }
        let goes = self.rows_in_pool(name);
        let ghost test = |k: Seq<char>, s: SlotModel| s.pool_name == name@;
        self.retire_rows(&goes, now, None, Ghost(test));
        if force {
            self.cancel_leases(name, now);
        }
        proof {
            let target = deletion_begun(start, name@, force, now);
            assert(self@.slots =~= target.slots);
            assert(self@.leases =~= target.leases);
        }
        Some(true)
    }

    /// Whether the pool in row `i` is being deleted and has no worker left.
    fn row_drained(&self, i: usize) -> (r: bool)
        requires
            self.wf(),
            i < self.pools.keys().len(),
        ensures
            r == drained(self@, self.pools.keys()[i as int]),
    {
        if !self.pools.value_at(i).deleting {
            return false;
        }
        self.count_in_pool(self.pools.key_at(i).as_str()) == 0
    }

    /// Removes every pool whose deletion is finished, with its leases; returns
    /// the names of the pools.
    pub fn finalize_deleted_fork_pools(&mut self) -> (r: Vec<String>)
        requires
            old(self).wf(),
        ensures
            final(self).wf(),
            final(self)@ == finalized(old(self)@),
            lists_keys(r@, Set::new(|k: Seq<char>| drained(old(self)@, k))),
    {
        let ghost start = self@;
        let ghost keys = self.pools.keys();
        let ghost lease_keys = self.leases.keys();
        proof {
            self.pools.lemma_keys();
            self.leases.lemma_keys();
        }
        let mut r: Vec<String> = Vec::new();
        let mut i: usize = 0;
        while i < self.pools.len()
            invariant
                self.wf(),
                self@ == start,
                keys == self.pools.keys(),
                keys.no_duplicates(),
                keys.to_set() == self.pools@.dom(),
                i <= keys.len(),
                texts(r@).no_duplicates(),
                forall|k: Seq<char>| #[trigger]
                    texts(r@).contains(k) <==> keys.take(i as int).contains(k) && drained(start, k),
            decreases keys.len() - i,
        {
            let ghost before = texts(r@);
            let ghost key = keys[i as int];
            proof { lemma_take_push(keys, i as int); }
            if self.row_drained(i) {
                r.push(self.pools.key_at(i).clone());
                proof { lemma_push_unique(before, key, texts(r@)); }
            }
            i = i + 1;
        }
        proof {
            assert(keys.take(keys.len() as int) =~= keys);
            assert forall|k: Seq<char>| #[trigger] texts(r@).contains(k) <==> drained(start, k) by {
                if drained(start, k) {
                    assert(keys.to_set().contains(k));
                }
            }
        }
        let mut gone: Vec<String> = Vec::new();
        let mut j: usize = 0;
        while j < self.leases.len()
            invariant
                self.wf(),
                self@ == start,
                lease_keys == self.leases.keys(),
                lease_keys.no_duplicates(),
                lease_keys.to_set() == self.leases@.dom(),
                forall|k: Seq<char>| #[trigger] texts(r@).contains(k) <==> drained(start, k),
                j <= lease_keys.len(),
                forall|k: Seq<char>| #[trigger]
                    texts(gone@).contains(k) <==> lease_keys.take(j as int).contains(k) && drained(
                        start,
                        start.leases[k].pool_name,
                    ),
                texts(gone@).no_duplicates(),
            decreases lease_keys.len() - j,
        {
            let ghost before = texts(gone@);
            let ghost key = lease_keys[j as int];
            proof { lemma_take_push(lease_keys, j as int); }
            if has_text(&r, self.leases.value_at(j).pool_name.as_str()) {
                gone.push(self.leases.key_at(j).clone());
                proof { lemma_push_unique(before, key, texts(gone@)); }
            }
            j = j + 1;
        }
        proof { assert(lease_keys.take(lease_keys.len() as int) =~= lease_keys); }
        remove_all(&mut self.leases, &gone);
        remove_all(&mut self.pools, &r);
        proof {
            self.lemma_finite();
            assert forall|k: Seq<char>| start.leases.contains_key(k) implies (texts(gone@).contains(k)
                <==> drained(start, start.leases[k].pool_name)) by {
                assert(lease_keys.to_set().contains(k));
            }
            assert(self@.leases =~= finalized(start).leases);
            assert(self@.pools =~= finalized(start).pools);
        }
        r
    }
}

/// Whether `list` holds `t`.
pub fn has_text(list: &[String], t: &str) -> (r: bool)
    ensures
        r == texts(list@).contains(t@),
{
    let mut i: usize = 0;
    while i < list.len()
        invariant
            i <= list@.len(),
            forall|j: int| 0 <= j < i ==> texts(list@)[j] != t@,
        decreases list@.len() - i,
    {
        if text_eq(list[i].as_str(), t) {
            proof { assert(texts(list@)[i as int] == t@); }
            return true;
        }
        i = i + 1;
    }
    false
}

/// Removes the rows under each of `keys`.
fn remove_all<V: View>(table: &mut Table<V>, keys: &[String])
    requires
        old(table).wf(),
    ensures
        final(table).wf(),
        final(table)@ == old(table)@.remove_keys(
            Set::new(|k: Seq<char>| texts(keys@).contains(k)),
        ),
{
    let ghost start = table@;
    let mut i: usize = 0;
    proof {
        assert(start.remove_keys(Set::new(|k: Seq<char>| texts(keys@).take(0).contains(k)))
            =~= start);
    }
    while i < keys.len()
        invariant
            table.wf(),
            i <= keys@.len(),
            table@ == start.remove_keys(
                Set::new(|k: Seq<char>| texts(keys@).take(i as int).contains(k)),
            ),
        decreases keys@.len() - i,
    {
        table.remove(keys[i].as_str());
        proof {
            let all = texts(keys@);
            assert(all.take(i + 1) =~= all.take(i as int).push(all[i as int]));
            assert forall|k: Seq<char>| all.take(i + 1).contains(k) <==> all.take(
                i as int,
            ).contains(k) || k == all[i as int] by {
                assert(all.take(i + 1)[i as int] == all[i as int]);
                if all.take(i as int).contains(k) {
                    let n = choose|n: int| 0 <= n < i && #[trigger] all.take(i as int)[n] == k;
                    assert(all.take(i + 1)[n] == k);
                }
                if all.take(i + 1).contains(k) {
                    let n = choose|n: int| 0 <= n < i + 1 && #[trigger] all.take(i + 1)[n] == k;
                    if n < i {
                        assert(all.take(i as int)[n] == k);
                    }
                }
            }
            assert(table@ =~= start.remove_keys(
                Set::new(|k: Seq<char>| texts(keys@).take(i + 1).contains(k)),
            ));
        }
        i = i + 1;
    }
    proof {
        assert(texts(keys@).take(keys@.len() as int) =~= texts(keys@));
        assert(table@ =~= start.remove_keys(Set::new(|k: Seq<char>| texts(keys@).contains(k))));
    }
}

/// The mathematical value of an optional lease.
pub open spec fn opt_lease(l: Option<ForkLeaseRecord>) -> Option<LeaseModel> {
    match l {
        Some(l) => Some(l@),
        None => None,
    }
}

/// A change that keeps the keys of slots and leases and what identifies each
/// record keeps the database valid.
proof fn lemma_same_keys_valid(a: DbModel, b: DbModel)
    requires
        db_valid(a),
        b.vms.dom().finite(),
        b.pools == a.pools,
        b.slots.dom() =~= a.slots.dom(),
        b.leases.dom() =~= a.leases.dom(),
        forall|k: Seq<char>| #[trigger]
            b.slots.contains_key(k) ==> b.slots[k].machine_name == a.slots[k].machine_name,
        forall|k: Seq<char>| #[trigger]
            b.leases.contains_key(k) ==> b.leases[k].id == a.leases[k].id && b.leases[k].pool_name
                == a.leases[k].pool_name && b.leases[k].idempotency_key
                == a.leases[k].idempotency_key,
    ensures
        db_valid(b),
{
    assert forall|k: Seq<char>| #[trigger] b.slots.contains_key(k) implies b.slots[k].machine_name
        == k by {
        assert(a.slots.contains_key(k));
    }
    assert forall|k: Seq<char>| #[trigger] b.leases.contains_key(k) implies b.leases[k].id == k by {
        assert(a.leases.contains_key(k));
    }
    assert forall|x: Seq<char>, y: Seq<char>|
        #![trigger b.leases.contains_key(x), b.leases.contains_key(y)]
        b.leases.contains_key(x) && b.leases.contains_key(y) && b.leases[x].pool_name
            == b.leases[y].pool_name && b.leases[x].idempotency_key
            == b.leases[y].idempotency_key implies x == y by {
        assert(a.leases.contains_key(x));
        assert(a.leases.contains_key(y));
    }
}

/// Two first claimable workers are the same one.
pub proof fn lemma_first_claimable_unique(
    db: DbModel,
    pool: Seq<char>,
    a: Seq<char>,
    b: Seq<char>,
)
    requires
        first_claimable(db, pool, a),
        first_claimable(db, pool, b),
    ensures
        a == b,
{
    if a != b {
        assert(claimable(db, pool, a));
        assert(claimable(db, pool, b));
        lemma_text_lt_asymmetric(a, b);
    }
}

/// The ceiling of active leases: the smaller of the configured and the measured one.
pub fn active_ceiling(pool: &ForkPoolRecord, limit: Option<ForkPoolAdmissionLimit>) -> (r: Option<
    u32,
>)
    ensures
        r == max_active(pool@, limit),
{
    match (pool.max_active, limit) {
        (Some(a), Some(b)) => Some(if a <= b.pool {
            a
        } else {
            b.pool
        }),
        (Some(a), None) => Some(a),
        (None, Some(b)) => Some(b.pool),
        (None, None) => None,
    }
}

} // verus!
