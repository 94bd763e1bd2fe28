//! The state database: machines, create reservations, settings and fork pools.
//!
//! A [`SmolvmDb`] holds the tables of one transaction. Each method is one atomic
//! step on them; reading them from and writing them back to storage is the
//! caller's part.
use crate::copying::{copy_pairs, opt_str, pairs, texts};
use crate::db_model::{
    CREATE_RESERVATION_TTL_SECS, ClaimModel, ClaimOutcome, DbModel, commit_create, db_valid,
    in_workspace, insert_if_free, map_entries, merge_env, normalized, other_than, owns_reservation,
    release_create, reserve_create, set_env, workspace_mounted,
};
use crate::records::{
    CreateReservation, ForkLeaseRecord, ForkLeaseState, ForkPoolAdmissionLimit, ForkPoolRecord,
    ForkPoolSlotRecord, ForkPoolSlotState, RetainedForkSnapshot, VmModel, VmRecord,
};
use crate::split::{pieces, same_chars, split_chars};
use crate::table::Table;
use crate::text::{chars_of, text_eq};
use vstd::prelude::*;

pub mod connections;
pub mod leases;
pub mod pools;
pub mod rows;

verus! {

/// The tables of the state database.
pub struct SmolvmDb {
    vms: Table<VmRecord>,
    reservations: Table<CreateReservation>,
    config: Table<String>,
    pools: Table<ForkPoolRecord>,
    snapshots: Table<RetainedForkSnapshot>,
    slots: Table<ForkPoolSlotRecord>,
    leases: Table<ForkLeaseRecord>,
}

impl View for SmolvmDb {
    type V = DbModel;

    closed spec fn view(&self) -> DbModel {
        DbModel {
            vms: self.vms@,
            reservations: self.reservations@,
            config: self.config@,
            pools: self.pools@,
            snapshots: self.snapshots@,
            slots: self.slots@,
            leases: self.leases@,
        }
    }
}

/// Inputs committed together when one ready fork-pool worker is claimed.
pub struct ForkPoolSlotClaim<'a> {
    /// Pool that owns the ready worker.
    pub pool_name: &'a str,
    /// New opaque lease identifier.
    pub lease_id: &'a str,
    /// Caller-provided retry key, unique within the pool.
    pub idempotency_key: &'a str,
    /// Environment installed before the held workload is released.
    pub assignment: &'a [(String, String)],
    /// Canonical digest of any files staged before release.
    pub payload_sha256: Option<&'a str>,
    /// Reject workers whose `/workspace` is backed by an external mount.
    pub require_private_workspace: bool,
    /// Runtime-calibrated active-lease ceiling, applied with the durable limit.
    pub admission_limit: Option<ForkPoolAdmissionLimit>,
    /// Lease lifetime renewed by each heartbeat.
    pub ttl_secs: u64,
    /// Timestamp used for every record in this transaction.
    pub now: u64,
}

impl<'a> View for ForkPoolSlotClaim<'a> {
    type V = ClaimModel;

    open spec fn view(&self) -> ClaimModel {
        ClaimModel {
            pool_name: self.pool_name@,
            lease_id: self.lease_id@,
            idempotency_key: self.idempotency_key@,
            assignment: pairs(self.assignment@),
            payload_sha256: opt_str(self.payload_sha256),
            require_private_workspace: self.require_private_workspace,
            admission_limit: self.admission_limit,
            ttl_secs: self.ttl_secs,
            now: self.now,
        }
    }
}

/// What a claim of a fork-pool worker came to.
#[derive(Debug, PartialEq, Eq)]
pub enum ClaimForkPoolSlot {
    /// The retry key was used before; this is its lease.
    Existing(ForkLeaseRecord),
    /// There is no such pool.
    PoolNotFound,
    /// The pool is being deleted.
    PoolDeleting,
    /// The pool or its device admits no further lease.
    AtCapacity,
    /// No worker is ready.
    NoReadySlot,
    /// The worker's workspace is an external mount.
    WorkspaceExternallyMounted,
    /// A worker was claimed under this lease.
    Claimed(ForkLeaseRecord),
}

/// Why a step on the tables was refused.
#[derive(Debug, Clone, Copy, PartialEq, Eq, Structural)]
pub enum DbError {
    /// The new lease identifier is already in use.
    DuplicateLease,
    /// A count does not fit its result type.
    CountOutOfRange,
}

/// The mathematical value of what a claim returns.
pub open spec fn claim_result(r: Result<ClaimForkPoolSlot, DbError>) -> ClaimOutcome {
    match r {
        Ok(ClaimForkPoolSlot::Existing(l)) => ClaimOutcome::Existing(l@),
        Ok(ClaimForkPoolSlot::PoolNotFound) => ClaimOutcome::PoolNotFound,
        Ok(ClaimForkPoolSlot::PoolDeleting) => ClaimOutcome::PoolDeleting,
        Ok(ClaimForkPoolSlot::AtCapacity) => ClaimOutcome::AtCapacity,
        Ok(ClaimForkPoolSlot::NoReadySlot) => ClaimOutcome::NoReadySlot,
        Ok(ClaimForkPoolSlot::WorkspaceExternallyMounted) => {
            ClaimOutcome::WorkspaceExternallyMounted
        },
        Ok(ClaimForkPoolSlot::Claimed(l)) => ClaimOutcome::Claimed(l@),
        Err(_) => ClaimOutcome::DuplicateLease,
    }
}

/// Whether a mount target lies in the workspace directory.
pub fn targets_workspace_tree(target: &str) -> (r: bool)
    ensures
        r == in_workspace(target@),
{
    let chars = chars_of(target);
    let parts = split_chars(&chars, '/');
    let ghost all = pieces(parts@);
    let mut components: Vec<usize> = Vec::new();
    let mut i: usize = 0;
    while i < parts.len()
        invariant
            i <= parts@.len(),
            all == pieces(parts@),
            forall|j: int| 0 <= j < components@.len() ==> components@[j] < parts@.len(),
            normalized(all.take(i as int)) =~= components@.map_values(|k: usize| all[k as int]),
        decreases parts@.len() - i,
    {
        let ghost before = components@;
        proof {
            assert(all.take(i + 1).drop_last() =~= all.take(i as int));
            assert(all.take(i + 1).last() == parts@[i as int]@);
        }
        let part = &parts[i];
        if part.len() == 0 || (part.len() == 1 && part[0] == '.') {
            proof {
                if part@.len() == 1 {
                    assert(part@ =~= seq!['.']);
                }
            }
        } else if part.len() == 2 && part[0] == '.' && part[1] == '.' {
            proof {
                assert(part@ =~= seq!['.', '.']);
                assert(seq!['.', '.'].len() == 2);
                assert(seq!['.'].len() == 1);
            }
            if components.len() > 0 {
                components.pop();
                proof { assert(components@ =~= before.drop_last()); }
            }
        } else {
            proof {
                assert(part@ != seq!['.']) by {
                    if part@ == seq!['.'] {
                        assert(part@[0] == '.');
                    }
                }
                assert(part@ != seq!['.', '.']) by {
                    if part@ == seq!['.', '.'] {
                        assert(part@[0] == '.');
                        assert(part@[1] == '.');
                    }
                }
            }
            components.push(i);
        }
        i = i + 1;
    }
    proof { assert(all.take(all.len() as int) =~= all); }
    if components.len() == 0 {
        false
    } else {
        let workspace = chars_of("workspace");
        same_chars(&parts[components[0]], &workspace)
    }
}

/// The first `n` entries along `keys` are mapped by `f`, the others as they were.
pub(crate) open spec fn mapped_prefix<V>(
    m: Map<Seq<char>, V>,
    keys: Seq<Seq<char>>,
    f: spec_fn(Seq<char>, V) -> V,
    n: int,
) -> Map<Seq<char>, V> {
    map_entries(
        m,
        |k: Seq<char>, v: V|
            if keys.take(n).contains(k) {
                f(k, v)
            } else {
                v
            },
    )
}

pub(crate) proof fn lemma_mapped_start<V>(
    m: Map<Seq<char>, V>,
    keys: Seq<Seq<char>>,
    f: spec_fn(Seq<char>, V) -> V,
)
    ensures
        mapped_prefix(m, keys, f, 0) == m,
{
    assert(mapped_prefix(m, keys, f, 0) =~= m);
}

pub(crate) proof fn lemma_mapped_step<V>(
    m: Map<Seq<char>, V>,
    keys: Seq<Seq<char>>,
    f: spec_fn(Seq<char>, V) -> V,
    n: int,
)
    requires
        keys.no_duplicates(),
        keys.to_set() == m.dom(),
        0 <= n < keys.len(),
    ensures
        m.contains_key(keys[n]),
        mapped_prefix(m, keys, f, n).contains_key(keys[n]),
        mapped_prefix(m, keys, f, n)[keys[n]] == m[keys[n]],
        mapped_prefix(m, keys, f, n + 1) == mapped_prefix(m, keys, f, n).insert(
            keys[n],
            f(keys[n], m[keys[n]]),
        ),
        f(keys[n], m[keys[n]]) == m[keys[n]] ==> mapped_prefix(m, keys, f, n + 1) == mapped_prefix(
            m,
            keys,
            f,
            n,
        ),
{
    assert(keys.to_set().contains(keys[n]));
    assert(!keys.take(n).contains(keys[n])) by {
        if keys.take(n).contains(keys[n]) {
            let i = choose|i: int| 0 <= i < n && #[trigger] keys.take(n)[i] == keys[n];
            assert(keys[i] == keys[n]);
        }
    }
    assert(keys.take(n + 1)[n] == keys[n]);
    assert forall|k: Seq<char>| k != keys[n] implies keys.take(n + 1).contains(k) == keys.take(
        n,
    ).contains(k) by {
        if keys.take(n + 1).contains(k) {
            let i = choose|i: int| 0 <= i < n + 1 && #[trigger] keys.take(n + 1)[i] == k;
            assert(keys.take(n)[i] == k);
        }
        if keys.take(n).contains(k) {
            let i = choose|i: int| 0 <= i < n && #[trigger] keys.take(n)[i] == k;
            assert(keys.take(n + 1)[i] == k);
        }
    }
    let a = mapped_prefix(m, keys, f, n + 1);
    let b = mapped_prefix(m, keys, f, n);
    assert(a =~= b.insert(keys[n], f(keys[n], m[keys[n]])));
    if f(keys[n], m[keys[n]]) == m[keys[n]] {
        assert(a =~= b);
    }
}

pub(crate) proof fn lemma_mapped_end<V>(
    m: Map<Seq<char>, V>,
    keys: Seq<Seq<char>>,
    f: spec_fn(Seq<char>, V) -> V,
)
    requires
        keys.to_set() == m.dom(),
    ensures
        mapped_prefix(m, keys, f, keys.len() as int) == map_entries(m, f),
{
    assert(keys.take(keys.len() as int) =~= keys);
    assert forall|k: Seq<char>| m.contains_key(k) implies keys.contains(k) by {
        assert(keys.to_set().contains(k));
    }
    assert(mapped_prefix(m, keys, f, keys.len() as int) =~= map_entries(m, f));
}

/// Whether `s` is the state of an available worker.
pub(crate) fn state_available(s: ForkPoolSlotState) -> (r: bool)
    ensures
        r == (s == ForkPoolSlotState::Provisioning || s == ForkPoolSlotState::Ready),
{
    s == ForkPoolSlotState::Provisioning || s == ForkPoolSlotState::Ready
}

/// Whether `s` is the state of a lease that holds a worker.
pub(crate) fn state_live(s: ForkLeaseState) -> (r: bool)
    ensures
        r == (s == ForkLeaseState::Activating || s == ForkLeaseState::Active),
{
    s == ForkLeaseState::Activating || s == ForkLeaseState::Active
}

/// `base` with `key` set to `value`.
pub fn set_env_pair(base: Vec<(String, String)>, key: &str, value: &str) -> (r: Vec<
    (String, String),
>)
    ensures
        pairs(r@) == set_env(pairs(base@), key@, value@),
{
    let mut r: Vec<(String, String)> = Vec::new();
    let ghost all = pairs(base@);
    let ghost keep = other_than(key@);
    let mut i: usize = 0;
    while i < base.len()
        invariant
            i <= base@.len(),
            all == pairs(base@),
            keep == other_than(key@),
            pairs(r@) =~= all.take(i as int).filter(keep),
        decreases base@.len() - i,
    {
        proof {
            assert(all.take(i + 1).drop_last() =~= all.take(i as int));
            assert(all.take(i + 1).last() == all[i as int]);
            reveal(Seq::filter);
        }
        if !text_eq(base[i].0.as_str(), key) {
            let ghost before = pairs(r@);
            r.push((base[i].0.clone(), base[i].1.clone()));
            proof { assert(pairs(r@) =~= before.push(all[i as int])); }
        }
        i = i + 1;
    }
    let ghost before = pairs(r@);
    r.push((key.to_owned(), value.to_owned()));
    proof {
        assert(all.take(all.len() as int) =~= all);
        assert(pairs(r@) =~= before.push((key@, value@)));
    }
    r
}

/// `base` with every pair of `over` set, in order.
pub fn merge_env_pairs(base: &[(String, String)], over: &[(String, String)]) -> (r: Vec<
    (String, String),
>)
    ensures
        pairs(r@) == merge_env(pairs(base@), pairs(over@)),
{
    let mut r = copy_pairs(base);
    let ghost all = pairs(over@);
    let mut i: usize = 0;
    proof { assert(all.take(0) =~= Seq::empty()); }
    while i < over.len()
        invariant
            i <= over@.len(),
            all == pairs(over@),
            pairs(r@) == merge_env(pairs(base@), all.take(i as int)),
        decreases over@.len() - i,
    {
        proof {
            assert(all.take(i + 1).drop_last() =~= all.take(i as int));
            assert(all.take(i + 1).last() == all[i as int]);
        }
        r = set_env_pair(r, over[i].0.as_str(), over[i].1.as_str());
        i = i + 1;
    }
    proof { assert(all.take(all.len() as int) =~= all); }
    r
}

/// Whether some mount of the machine lies in the workspace directory.
pub(crate) fn mounts_workspace(vm: &VmRecord) -> (r: bool)
    ensures
        r == workspace_mounted(vm@),
{
    let mut i: usize = 0;
    while i < vm.mounts.len()
        invariant
            i <= vm.mounts@.len(),
            forall|j: int| 0 <= j < i ==> !in_workspace(#[trigger] vm@.mounts[j].1),
        decreases vm.mounts@.len() - i,
    {
        if targets_workspace_tree(vm.mounts[i].1.as_str()) {
            proof { assert(in_workspace(vm@.mounts[i as int].1)); }
            return true;
        }
        i = i + 1;
    }
    false
}

impl SmolvmDb {
    /// The tables hold each key once and agree with each other.
    pub closed spec fn wf(&self) -> bool {
        &&& self.tables_wf()
        &&& db_valid(self@)
    }

    spec fn tables_wf(&self) -> bool {
        &&& self.vms.wf()
        &&& self.reservations.wf()
        &&& self.config.wf()
        &&& self.pools.wf()
        &&& self.snapshots.wf()
        &&& self.slots.wf()
        &&& self.leases.wf()
    }

    /// A well-formed database has a valid mathematical value.
    pub proof fn lemma_valid(&self)
        requires
            self.wf(),
        ensures
            db_valid(self@),
    {
    }

    proof fn lemma_finite(&self)
        requires
            self.tables_wf(),
        ensures
            self.vms@.dom().finite(),
            self.pools@.dom().finite(),
            self.slots@.dom().finite(),
            self.leases@.dom().finite(),
    {
        self.vms.lemma_keys();
        self.pools.lemma_keys();
        self.slots.lemma_keys();
        self.leases.lemma_keys();
    }

    /// An empty database.
    pub fn new() -> (db: Self)
        ensures
            db.wf(),
            db@ == (DbModel {
                vms: Map::empty(),
                reservations: Map::empty(),
                config: Map::empty(),
                pools: Map::empty(),
                snapshots: Map::empty(),
                slots: Map::empty(),
                leases: Map::empty(),
            }),
    {
        SmolvmDb {
            vms: Table::new(),
            reservations: Table::new(),
            config: Table::new(),
            pools: Table::new(),
            snapshots: Table::new(),
            slots: Table::new(),
            leases: Table::new(),
        }
    }

    // -----------------------------------------------------------------------
    // Machines
    // -----------------------------------------------------------------------

    /// Stores a machine, in place of any machine of that name.
    pub fn insert_vm(&mut self, name: &str, record: &VmRecord)
        requires
            old(self).wf(),
        ensures
            final(self).wf(),
            final(self)@ == (DbModel { vms: old(self)@.vms.insert(name@, record@), ..old(self)@ }),
    {
        self.vms.insert(name, record.clone());
        proof { self.lemma_finite(); }
    }

    /// Stores a machine if its name is neither used nor reserved.
    pub fn insert_vm_if_not_exists(&mut self, name: &str, record: &VmRecord) -> (r: bool)
        requires
            old(self).wf(),
        ensures
            final(self).wf(),
            (r, final(self)@) == insert_if_free(old(self)@, name@, record@),
    {
        if self.vms.contains(name) || self.reservations.contains(name) {
            return false;
        }
        self.vms.insert(name, record.clone());
        proof { self.lemma_finite(); }
        true
    }

    /// The process that holds the reservation of `name`.
    pub fn reservation_owner(&self, name: &str) -> (r: Option<i64>)
        requires
            self.wf(),
        ensures
            match r {
                Some(pid) => self@.reservations.contains_key(name@)
                    && self@.reservations[name@].owner_pid == pid,
                None => !self@.reservations.contains_key(name@),
            },
    {
        match self.reservations.get(name) {
            Some(r) => Some(r.owner_pid),
            None => None,
        }
    }

    /// Reserves a machine name before its data directory is touched.
    ///
    /// `owner_alive` tells whether the process that holds a reservation of the
    /// name, if there is one, still runs. Returns false when the machine exists
    /// or another live creator owns the reservation; a dead or stale reservation
    /// is dropped first.
    pub fn reserve_vm_create(
        &mut self,
        name: &str,
        owner_token: &str,
        owner_pid: u32,
        owner_alive: bool,
        now: u64,
    ) -> (r: bool)
        requires
            old(self).wf(),
        ensures
            final(self).wf(),
            (r, final(self)@) == reserve_create(
                old(self)@,
                name@,
                owner_token@,
                owner_pid,
                owner_alive,
                now,
            ),
    {
        let stale_before = now.saturating_sub(CREATE_RESERVATION_TTL_SECS);
        let stale = match self.reservations.get(name) {
            Some(r) => !(r.owner_pid > 0 && owner_alive) || r.created_at <= stale_before,
            None => false,
        };
        if stale {
            self.reservations.remove(name);
        }
        if self.vms.contains(name) || self.reservations.contains(name) {
            return false;
        }
        self.reservations.insert(
            name,
            CreateReservation {
                owner_token: owner_token.to_owned(),
                owner_pid: owner_pid as i64,
                created_at: now,
            },
        );
        true
    }

    /// Whether `token` holds the reservation of `name`.
    fn owns(&self, name: &str, token: &str) -> (r: bool)
        requires
            self.wf(),
        ensures
            r == owns_reservation(self@, name@, token@),
    {
        match self.reservations.get(name) {
            Some(r) => text_eq(r.owner_token.as_str(), token),
            None => false,
        }
    }

    /// Stores a reserved machine and releases its reservation in one step.
    ///
    /// Returns whether the machine was stored: false when the token does not own
    /// the reservation, or when a machine of that name exists.
    pub fn commit_reserved_vm(
        &mut self,
        name: &str,
        owner_token: &str,
        record: &VmRecord,
    ) -> (r: bool)
        requires
            old(self).wf(),
        ensures
            final(self).wf(),
            (r, final(self)@) == commit_create(old(self)@, name@, owner_token@, record@),
    {
        if !self.owns(name, owner_token) {
            return false;
        }
        let fresh = !self.vms.contains(name);
        if fresh {
            self.vms.insert(name, record.clone());
        }
        self.reservations.remove(name);
        proof { self.lemma_finite(); }
        fresh
    }

    /// Gives a reservation back if the token owns it.
    pub fn release_vm_create_reservation(&mut self, name: &str, owner_token: &str)
        requires
            old(self).wf(),
        ensures
            final(self).wf(),
            final(self)@ == release_create(old(self)@, name@, owner_token@),
    {
        if self.owns(name, owner_token) {
            self.reservations.remove(name);
        }
    }

    /// The machine `name`.
    pub fn get_vm(&self, name: &str) -> (r: Option<VmRecord>)
        requires
            self.wf(),
        ensures
            match r {
                Some(vm) => self@.vms.contains_key(name@) && vm@ == self@.vms[name@],
                None => !self@.vms.contains_key(name@),
            },
    {
        match self.vms.get(name) {
            Some(vm) => Some(vm.clone()),
            None => None,
        }
    }

    /// Removes a machine together with the snapshot retained of it.
    pub fn remove_vm(&mut self, name: &str) -> (r: Option<VmRecord>)
        requires
            old(self).wf(),
        ensures
            final(self).wf(),
            match r {
                Some(vm) => old(self)@.vms.contains_key(name@) && vm@ == old(self)@.vms[name@]
                    && final(self)@ == (DbModel {
                    vms: old(self)@.vms.remove(name@),
                    snapshots: old(self)@.snapshots.remove(name@),
                    ..old(self)@
                }),
                None => !old(self)@.vms.contains_key(name@) && final(self)@ == old(self)@,
            },
    {
        match self.vms.find(name) {
            Some(_) => {
                let r = self.vms.remove(name);
                self.snapshots.remove(name);
                proof { self.lemma_finite(); }
                r
            },
            None => None,
        }
    }

    /// Every machine with its name, in stored order.
    pub fn list_vms(&self) -> (r: Vec<(String, VmRecord)>)
        requires
            self.wf(),
        ensures
            lists_map(r@, self@.vms),
    {
        let mut r: Vec<(String, VmRecord)> = Vec::new();
        let mut i: usize = 0;
        while i < self.vms.len()
            invariant
                self.wf(),
                i <= self.vms.keys().len(),
                r@.len() == i,
                forall|j: int|
                    0 <= j < i ==> (#[trigger] r@[j]).0@ == self.vms.keys()[j] && r@[j].1@
                        == self.vms@[self.vms.keys()[j]],
            decreases self.vms.keys().len() - i,
        {
            r.push((self.vms.key_at(i).clone(), self.vms.value_at(i).clone()));
            i = i + 1;
        }
        proof {
            self.vms.lemma_keys();
            assert(listed_keys(r@) =~= self.vms.keys());
            assert forall|j: int| 0 <= j < r@.len() implies #[trigger] self@.vms.contains_key(
                r@[j].0@,
            ) && r@[j].1@ == self@.vms[r@[j].0@] by {
                assert(self.vms.keys().to_set().contains(self.vms.keys()[j]));
            }
        }
        r
    }

    /// Applies `f` to the machine `name` and returns the result, if there is one.
    pub fn update_vm<F>(&mut self, name: &str, f: F) -> (r: Option<VmRecord>) where
        F: FnOnce(&mut VmRecord),

        requires
            old(self).wf(),
            forall|vm: &mut VmRecord|
                old(self)@.vms.contains_key(name@) && vm@ == old(self)@.vms[name@]
                    ==> call_requires(f, (vm,)),
        ensures
            final(self).wf(),
            match r {
                Some(after) => {
                    &&& old(self)@.vms.contains_key(name@)
                    &&& exists|vm: &mut VmRecord|
                        vm@ == old(self)@.vms[name@] && #[trigger] call_ensures(f, (vm,), ())
                            && final(vm)@ == after@
                    &&& final(self)@ == (DbModel {
                        vms: old(self)@.vms.insert(name@, after@),
                        ..old(self)@
                    })
                },
                None => !old(self)@.vms.contains_key(name@) && final(self)@ == old(self)@,
            },
    {
        match self.vms.find(name) {
            Some(i) => {
                let mut record = self.vms.value_at(i).clone();
                f(&mut record);
                let after = record.clone();
                self.vms.set_at(i, record);
                proof { self.lemma_finite(); }
                Some(after)
            },
            None => None,
        }
    }

    /// The setting `key`.
    pub fn get_config(&self, key: &str) -> (r: Option<String>)
        requires
            self.wf(),
        ensures
            match r {
                Some(v) => self@.config.contains_key(key@) && v@ == self@.config[key@],
                None => !self@.config.contains_key(key@),
            },
    {
        match self.config.get(key) {
            Some(v) => Some(v.clone()),
            None => None,
        }
    }

    /// Sets `key` to `value`.
    pub fn set_config(&mut self, key: &str, value: &str)
        requires
            old(self).wf(),
        ensures
            final(self).wf(),
            final(self)@ == (DbModel {
                config: old(self)@.config.insert(key@, value@),
                ..old(self)@
            }),
    {
        self.config.insert(key, value.to_owned());
    }

    /// Sets several keys in one step; a later pair wins over an earlier one.
    pub fn save_config(&mut self, settings: &[(&str, &str)])
        requires
            old(self).wf(),
        ensures
            final(self).wf(),
            final(self)@ == (DbModel {
                config: saved_config(old(self)@.config, settings@),
                ..old(self)@
            }),
    {
        let ghost start = self@;
        let mut i: usize = 0;
        proof { assert(settings@.take(0) =~= Seq::empty()); }
        while i < settings.len()
            invariant
                self.wf(),
                i <= settings@.len(),
                self@ == (DbModel {
                    config: saved_config(start.config, settings@.take(i as int)),
                    ..start
                }),
            decreases settings@.len() - i,
        {
            proof {
                assert(settings@.take(i + 1).drop_last() =~= settings@.take(i as int));
                assert(settings@.take(i + 1).last() == settings@[i as int]);
            }
            self.set_config(settings[i].0, settings[i].1);
            i = i + 1;
        }
        proof { assert(settings@.take(settings@.len() as int) =~= settings@); }
    }

    /// Every setting with its key, in stored order.
    pub fn list_config(&self) -> (r: Vec<(String, String)>)
        requires
            self.wf(),
        ensures
            lists_config(pairs(r@), self@.config),
    {
        let mut r: Vec<(String, String)> = Vec::new();
        let mut i: usize = 0;
        while i < self.config.len()
            invariant
                self.wf(),
                i <= self.config.keys().len(),
                r@.len() == i,
                forall|j: int|
                    0 <= j < i ==> (#[trigger] r@[j]).0@ == self.config.keys()[j] && r@[j].1@
                        == self.config@[self.config.keys()[j]],
            decreases self.config.keys().len() - i,
        {
            r.push((self.config.key_at(i).clone(), self.config.value_at(i).clone()));
            i = i + 1;
        }
        proof {
            self.config.lemma_keys();
            assert(pairs(r@).map_values(|p: (Seq<char>, Seq<char>)| p.0) =~= self.config.keys());
            assert forall|j: int| 0 <= j < r@.len() implies #[trigger] self@.config.contains_key(
                pairs(r@)[j].0,
            ) && pairs(r@)[j].1 == self@.config[pairs(r@)[j].0] by {
                assert(self.config.keys().to_set().contains(self.config.keys()[j]));
            }
        }
        r
    }

    /// Every machine with its name.
    pub fn load_all_vms(&self) -> (r: Vec<(String, VmRecord)>)
        requires
            self.wf(),
        ensures
            lists_map(r@, self@.vms),
    {
        self.list_vms()
    }

    /// Every setting and every machine, read in one step.
    pub fn load_all(&self) -> (r: (Vec<(String, String)>, Vec<(String, VmRecord)>))
        requires
            self.wf(),
        ensures
            lists_config(pairs(r.0@), self@.config),
            lists_map(r.1@, self@.vms),
    {
        (self.list_config(), self.list_vms())
    }

    /// The names of the machines forked from `golden`, in stored order.
    pub fn dependent_clones(&self, golden: &str) -> (r: Vec<String>)
        requires
            self.wf(),
        ensures
            lists_keys(
                r@,
                Set::new(
                    |k: Seq<char>|
                        self@.vms.contains_key(k) && self@.vms[k].golden == Some(golden@),
                ),
            ),
    {
        let mut r: Vec<String> = Vec::new();
        let mut i: usize = 0;
        let ghost keys = self.vms.keys();
        proof { self.vms.lemma_keys(); }
        while i < self.vms.len()
            invariant
                self.wf(),
                keys == self.vms.keys(),
                keys.no_duplicates(),
                keys.to_set() == self.vms@.dom(),
                i <= keys.len(),
                texts(r@).no_duplicates(),
                forall|k: Seq<char>| #[trigger]
                    texts(r@).contains(k) <==> keys.take(i as int).contains(k)
                        && self@.vms[k].golden == Some(golden@),
            decreases keys.len() - i,
        {
            let ghost before = texts(r@);
            let ghost key = keys[i as int];
            proof { lemma_take_push(keys, i as int); }
            let matching = match &self.vms.value_at(i).golden {
                Some(g) => text_eq(g.as_str(), golden),
                None => false,
            };
            if matching {
                r.push(self.vms.key_at(i).clone());
                proof { lemma_push_unique(before, key, texts(r@)); }
            }
            i = i + 1;
        }
        proof {
            assert(keys.take(keys.len() as int) =~= keys);
            assert forall|k: Seq<char>| #[trigger] texts(r@).contains(k) <==> self@.vms.contains_key(
                k,
            ) && self@.vms[k].golden == Some(golden@) by {
                assert(keys.to_set().contains(k) == keys.contains(k));
            }
        }
        r
    }
}

/// The keys of a listing, in order.
pub open spec fn listed_keys(rows: Seq<(String, VmRecord)>) -> Seq<Seq<char>> {
    rows.map_values(|r: (String, VmRecord)| r.0@)
}

/// `rows` lists every entry of `m` once.
pub open spec fn lists_map(rows: Seq<(String, VmRecord)>, m: Map<Seq<char>, VmModel>) -> bool {
    &&& listed_keys(rows).no_duplicates()
    &&& listed_keys(rows).to_set() == m.dom()
    &&& forall|j: int|
        0 <= j < rows.len() ==> #[trigger] m.contains_key(rows[j].0@) && rows[j].1@ == m[rows[j].0@]
}

/// `rows` lists every setting once.
pub open spec fn lists_config(
    rows: Seq<(Seq<char>, Seq<char>)>,
    m: Map<Seq<char>, Seq<char>>,
) -> bool {
    &&& rows.map_values(|p: (Seq<char>, Seq<char>)| p.0).no_duplicates()
    &&& rows.map_values(|p: (Seq<char>, Seq<char>)| p.0).to_set() == m.dom()
    &&& forall|j: int|
        0 <= j < rows.len() ==> #[trigger] m.contains_key(rows[j].0) && rows[j].1 == m[rows[j].0]
}

/// The settings after each pair of `settings` is set, in order.
pub open spec fn saved_config(
    config: Map<Seq<char>, Seq<char>>,
    settings: Seq<(&str, &str)>,
) -> Map<Seq<char>, Seq<char>>
    decreases settings.len(),
{
    if settings.len() == 0 {
        config
    } else {
        saved_config(config, settings.drop_last()).insert(settings.last().0@, settings.last().1@)
    }
}

/// `rows` lists every element of `keys` once.
pub open spec fn lists_keys(rows: Seq<String>, keys: Set<Seq<char>>) -> bool {
    &&& texts(rows).no_duplicates()
    &&& forall|k: Seq<char>| #[trigger] texts(rows).contains(k) <==> keys.contains(k)
}

pub(crate) proof fn lemma_take_push(keys: Seq<Seq<char>>, n: int)
    requires
        keys.no_duplicates(),
        0 <= n < keys.len(),
    ensures
        keys.take(n + 1) == keys.take(n).push(keys[n]),
        !keys.take(n).contains(keys[n]),
        forall|k: Seq<char>| #[trigger]
            keys.take(n + 1).contains(k) <==> keys.take(n).contains(k) || k == keys[n],
{
    assert(keys.take(n + 1) =~= keys.take(n).push(keys[n]));
    assert(!keys.take(n).contains(keys[n])) by {
        if keys.take(n).contains(keys[n]) {
            let i = choose|i: int| 0 <= i < n && #[trigger] keys.take(n)[i] == keys[n];
            assert(keys[i] == keys[n]);
        }
    }
    assert forall|k: Seq<char>| #[trigger] keys.take(n + 1).contains(k) <==> keys.take(n).contains(k)
        || k == keys[n] by {
        if keys.take(n + 1).contains(k) {
            let i = choose|i: int| 0 <= i < n + 1 && #[trigger] keys.take(n + 1)[i] == k;
            if i < n {
                assert(keys.take(n)[i] == k);
            }
        }
        if keys.take(n).contains(k) {
            let i = choose|i: int| 0 <= i < n && #[trigger] keys.take(n)[i] == k;
            assert(keys.take(n + 1)[i] == k);
        }
        assert(keys.take(n + 1)[n] == keys[n]);
    }
}

pub(crate) proof fn lemma_push_unique(before: Seq<Seq<char>>, key: Seq<char>, after: Seq<Seq<char>>)
    requires
        before.no_duplicates(),
        !before.contains(key),
        after =~= before.push(key),
    ensures
        after.no_duplicates(),
        forall|k: Seq<char>| #[trigger] after.contains(k) <==> before.contains(k) || k == key,
{
    assert forall|k: Seq<char>| #[trigger] after.contains(k) <==> before.contains(k) || k
        == key by {
        if before.contains(k) {
            let i = choose|i: int| 0 <= i < before.len() && #[trigger] before[i] == k;
            assert(after[i] == k);
        }
        assert(after[before.len() as int] == key);
        if after.contains(k) {
            let i = choose|i: int| 0 <= i < after.len() && #[trigger] after[i] == k;
            if i < before.len() {
                assert(before[i] == k);
            }
        }
    }
    assert forall|i: int, j: int|
        0 <= i < after.len() && 0 <= j < after.len() && i != j implies after[i] != after[j] by {
        if i == before.len() {
            assert(before.contains(before[j]));
        }
        if j == before.len() {
            assert(before.contains(before[i]));
        }
    }
}

} // verus!
