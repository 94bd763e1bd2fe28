//! Fork pools, their workers and the snapshots retained for them.
use crate::copying::{opt_str, opt_text};
use crate::db::{
    SmolvmDb, lemma_mapped_end, lemma_mapped_start, lemma_mapped_step, lemma_push_unique,
    lemma_take_push, mapped_prefix, state_available,
};
use crate::db_model::{
    DbModel, activating_slots, available_slots, fresh_slot, is_surplus, map_entries, ready_deficit,
    reserve_slot, resized, retired, retired_noting, slot_activating, slot_available, stepped_slots,
    surplus_before, surplus_rank,
};
use crate::numerals::sat_sub;
use crate::records::{
    ForkPoolRecord, ForkPoolSlotRecord, ForkPoolSlotState, PoolModel, RetainedForkSnapshot,
    SlotModel, SnapshotModel,
};
use crate::table::{count_prefix, count_where, key_order, lemma_count};
use crate::text::{text_eq, text_less, text_lt};
use vstd::prelude::*;

verus! {

/// The mathematical values of `pools`, in order.
pub open spec fn pools_view(pools: Seq<ForkPoolRecord>) -> Seq<PoolModel> {
    pools.map_values(|p: ForkPoolRecord| p@)
}

/// The mathematical values of `slots`, in order.
pub open spec fn slots_view(slots: Seq<ForkPoolSlotRecord>) -> Seq<SlotModel> {
    slots.map_values(|s: ForkPoolSlotRecord| s@)
}

/// The mathematical values of `rows`, in order.
pub open spec fn snapshots_view(rows: Seq<(String, RetainedForkSnapshot)>) -> Seq<
    (Seq<char>, SnapshotModel),
> {
    rows.map_values(|p: (String, RetainedForkSnapshot)| (p.0@, p.1@))
}

/// The names of `slots`, in order.
pub open spec fn slot_names(slots: Seq<ForkPoolSlotRecord>) -> Seq<Seq<char>> {
    slots.map_values(|s: ForkPoolSlotRecord| s@.machine_name)
}

/// `names` is in strictly increasing order.
pub open spec fn increasing(names: Seq<Seq<char>>) -> bool {
    forall|a: int, b: int| #![trigger names[a], names[b]]
        0 <= a < b < names.len() ==> text_lt(names[a], names[b])
}

impl SmolvmDb {
    /// Adds a pool if there is none of its name.
    pub fn insert_fork_pool_if_not_exists(&mut self, pool: &ForkPoolRecord) -> (r: bool)
        requires
            old(self).wf(),
        ensures
            final(self).wf(),
            r == !old(self)@.pools.contains_key(pool@.name),
            final(self)@ == if r {
                DbModel { pools: old(self)@.pools.insert(pool@.name, pool@), ..old(self)@ }
            } else {
                old(self)@
            },
    {
        if self.pools.contains(pool.name.as_str()) {
            return false;
        }
        self.pools.insert(pool.name.as_str(), pool.clone());
        proof { self.lemma_finite(); }
        true
    }

    /// The pool `name`.
    pub fn get_fork_pool(&self, name: &str) -> (r: Option<ForkPoolRecord>)
        requires
            self.wf(),
        ensures
            match r {
                Some(p) => self@.pools.contains_key(name@) && p@ == self@.pools[name@],
                None => !self@.pools.contains_key(name@),
            },
    {
        match self.pools.get(name) {
            Some(p) => Some(p.clone()),
            None => None,
        }
    }

    /// Every pool, by name.
    pub fn list_fork_pools(&self) -> (r: Vec<ForkPoolRecord>)
        requires
            self.wf(),
        ensures
            increasing(r@.map_values(|p: ForkPoolRecord| p@.name)),
            forall|p: PoolModel| #[trigger]
                pools_view(r@).contains(p) <==> self@.pools.contains_key(
                    p.name,
                ) && self@.pools[p.name] == p,
    {
        let order = self.pools.sorted();
        let ghost keys = self.pools.keys();
        let mut r: Vec<ForkPoolRecord> = Vec::new();
        let mut i: usize = 0;
        proof { self.pools.lemma_keys(); }
        while i < order.len()
            invariant
                self.wf(),
                keys == self.pools.keys(),
                keys.to_set() == self.pools@.dom(),
                i <= order@.len(),
                key_order(order@, keys),
                r@.len() == i,
                forall|j: int|
                    0 <= j < i ==> (#[trigger] r@[j])@ == self.pools@[keys[order@[j] as int]]
                        && r@[j]@.name == keys[order@[j] as int],
            decreases order@.len() - i,
        {
            proof { assert(keys.to_set().contains(keys[order@[i as int] as int])); }
            r.push(self.pools.value_at(order[i]).clone());
            i = i + 1;
        }
        proof {
            let listed = pools_view(r@);
            assert forall|p: PoolModel| #[trigger] listed.contains(p) <==> self@.pools.contains_key(
                p.name,
            ) && self@.pools[p.name] == p by {
                if listed.contains(p) {
                    let j = choose|j: int| 0 <= j < listed.len() && listed[j] == p;
                    assert(r@[j]@ == p);
                    assert(keys.to_set().contains(keys[order@[j] as int]));
                }
                if self@.pools.contains_key(p.name) && self@.pools[p.name] == p {
                    assert(keys.to_set().contains(p.name));
                    let k = choose|k: int| 0 <= k < keys.len() && keys[k] == p.name;
                    assert(order@.contains(k as usize));
                    let j = choose|j: int| 0 <= j < order@.len() && order@[j] == k as usize;
                    assert(listed[j] == r@[j]@);
                    assert(listed[j] == p);
                }
            }
        }
        r
    }

    /// Retains a snapshot of `golden`, in place of an earlier one.
    pub fn set_retained_fork_snapshot(&mut self, golden: &str, snapshot: &RetainedForkSnapshot)
        requires
            old(self).wf(),
        ensures
            final(self).wf(),
            final(self)@ == (DbModel {
                snapshots: old(self)@.snapshots.insert(golden@, snapshot@),
                ..old(self)@
            }),
    {
        self.snapshots.insert(golden, snapshot.clone());
    }

    /// The snapshot retained of `golden`.
    pub fn retained_fork_snapshot(&self, golden: &str) -> (r: Option<RetainedForkSnapshot>)
        requires
            self.wf(),
        ensures
            match r {
                Some(s) => self@.snapshots.contains_key(golden@) && s@ == self@.snapshots[golden@],
                None => !self@.snapshots.contains_key(golden@),
            },
    {
        match self.snapshots.get(golden) {
            Some(s) => Some(s.clone()),
            None => None,
        }
    }

    /// Every retained snapshot with its golden, by name of the golden.
    pub fn list_retained_fork_snapshots(&self) -> (r: Vec<(String, RetainedForkSnapshot)>)
        requires
            self.wf(),
        ensures
            increasing(r@.map_values(|p: (String, RetainedForkSnapshot)| p.0@)),
            forall|k: Seq<char>, s: SnapshotModel| #[trigger]
                snapshots_view(r@).contains((k, s))
                    <==> self@.snapshots.contains_key(k) && self@.snapshots[k] == s,
    {
        let order = self.snapshots.sorted();
        let ghost keys = self.snapshots.keys();
        let mut r: Vec<(String, RetainedForkSnapshot)> = Vec::new();
        let mut i: usize = 0;
        proof { self.snapshots.lemma_keys(); }
        while i < order.len()
            invariant
                self.wf(),
                keys == self.snapshots.keys(),
                i <= order@.len(),
                key_order(order@, keys),
                r@.len() == i,
                forall|j: int|
                    0 <= j < i ==> (#[trigger] r@[j]).0@ == keys[order@[j] as int] && r@[j].1@
                        == self.snapshots@[keys[order@[j] as int]],
            decreases order@.len() - i,
        {
            r.push(
                (
                    self.snapshots.key_at(order[i]).clone(),
                    self.snapshots.value_at(order[i]).clone(),
                ),
            );
            i = i + 1;
        }
        proof {
            let listed = snapshots_view(r@);
            assert forall|k: Seq<char>, s: SnapshotModel| #[trigger] listed.contains((k, s))
                <==> self@.snapshots.contains_key(k) && self@.snapshots[k] == s by {
                if listed.contains((k, s)) {
                    let j = choose|j: int| 0 <= j < listed.len() && listed[j] == (k, s);
                    assert(r@[j].0@ == k);
                    assert(keys.to_set().contains(keys[order@[j] as int]));
                }
                if self@.snapshots.contains_key(k) && self@.snapshots[k] == s {
                    assert(keys.to_set().contains(k));
                    let n = choose|n: int| 0 <= n < keys.len() && keys[n] == k;
                    assert(order@.contains(n as usize));
                    let j = choose|j: int| 0 <= j < order@.len() && order@[j] == n as usize;
                    assert(listed[j] == (r@[j].0@, r@[j].1@));
                    assert(listed[j] == (k, s));
                }
            }
        }
        r
    }

    /// Forgets the snapshot retained of `golden` and returns whether there was one.
    pub fn remove_retained_fork_snapshot(&mut self, golden: &str) -> (r: bool)
        requires
            old(self).wf(),
        ensures
            final(self).wf(),
            r == old(self)@.snapshots.contains_key(golden@),
            final(self)@ == (DbModel {
                snapshots: old(self)@.snapshots.remove(golden@),
                ..old(self)@
            }),
    {
        self.snapshots.remove(golden).is_some()
    }

    /// How many workers of `pool` a claim could still get.
    pub(super) fn count_available(&self, pool: &str) -> (n: usize)
        requires
            self.wf(),
        ensures
            n == available_slots(self@, pool@),
    {
        let mut n: usize = 0;
        let mut i: usize = 0;
        let ghost keys = self.slots.keys();
        let ghost p = |s: SlotModel| slot_available(s, pool@);
        proof { self.slots.lemma_keys(); }
        while i < self.slots.len()
            invariant
                self.wf(),
                keys == self.slots.keys(),
                p == (|s: SlotModel| slot_available(s, pool@)),
                i <= keys.len(),
                n <= i,
                n == count_prefix(keys, self.slots@, p, i as int),
            decreases keys.len() - i,
        {
            let s = self.slots.value_at(i);
            if text_eq(s.pool_name.as_str(), pool) && state_available(s.state) {
                n = n + 1;
            }
            i = i + 1;
        }
        proof { lemma_count(keys, self.slots@, p); }
        n
    }

    /// How many workers of `pool` are between claim and start.
    fn count_activating(&self, pool: &str) -> (n: usize)
        requires
            self.wf(),
        ensures
            n == activating_slots(self@, pool@),
    {
        let mut n: usize = 0;
        let mut i: usize = 0;
        let ghost keys = self.slots.keys();
        let ghost p = |s: SlotModel| slot_activating(s, pool@);
        proof { self.slots.lemma_keys(); }
        while i < self.slots.len()
            invariant
                self.wf(),
                keys == self.slots.keys(),
                p == (|s: SlotModel| slot_activating(s, pool@)),
                i <= keys.len(),
                n <= i,
                n == count_prefix(keys, self.slots@, p, i as int),
            decreases keys.len() - i,
        {
            let s = self.slots.value_at(i);
            if text_eq(s.pool_name.as_str(), pool) && s.state == ForkPoolSlotState::Activating {
                n = n + 1;
            }
            i = i + 1;
        }
        proof { lemma_count(keys, self.slots@, p); }
        n
    }

    /// How many workers `pool` has.
    pub(super) fn count_in_pool(&self, pool: &str) -> (n: usize)
        requires
            self.wf(),
        ensures
            n == count_where(self@.slots, |s: SlotModel| s.pool_name == pool@),
    {
        let mut n: usize = 0;
        let mut i: usize = 0;
        let ghost keys = self.slots.keys();
        let ghost p = |s: SlotModel| s.pool_name == pool@;
        proof { self.slots.lemma_keys(); }
        while i < self.slots.len()
            invariant
                self.wf(),
                keys == self.slots.keys(),
                p == (|s: SlotModel| s.pool_name == pool@),
                i <= keys.len(),
                n <= i,
                n == count_prefix(keys, self.slots@, p, i as int),
            decreases keys.len() - i,
        {
            let s = self.slots.value_at(i);
            if text_eq(s.pool_name.as_str(), pool) {
                n = n + 1;
            }
            i = i + 1;
        }
        proof { lemma_count(keys, self.slots@, p); }
        n
    }

    /// How many available workers of `pool` come before `slot` when the pool shrinks.
    fn count_surplus_rank(&self, pool: &str, slot: &ForkPoolSlotRecord) -> (n: usize)
        requires
            self.wf(),
        ensures
            n == surplus_rank(self@, pool@, slot@),
    {
        let mut n: usize = 0;
        let mut i: usize = 0;
        let ghost keys = self.slots.keys();
        let ghost p = |t: SlotModel| slot_available(t, pool@) && surplus_before(t, slot@);
        proof { self.slots.lemma_keys(); }
        while i < self.slots.len()
            invariant
                self.wf(),
                keys == self.slots.keys(),
                p == (|t: SlotModel| slot_available(t, pool@) && surplus_before(t, slot@)),
                i <= keys.len(),
                n <= i,
                n == count_prefix(keys, self.slots@, p, i as int),
            decreases keys.len() - i,
        {
            let t = self.slots.value_at(i);
            let before = if t.state == slot.state {
                text_less(t.machine_name.as_str(), slot.machine_name.as_str())
            } else {
                t.state == ForkPoolSlotState::Provisioning
            };
            if text_eq(t.pool_name.as_str(), pool) && state_available(t.state) && before {
                n = n + 1;
            }
            i = i + 1;
        }
        proof { lemma_count(keys, self.slots@, p); }
        n
    }

    /// Which rows of the slot table go when `pool` shrinks to `desired`.
    fn surplus_rows(&self, pool: &str, desired: u32) -> (r: Vec<bool>)
        requires
            self.wf(),
        ensures
            r@.len() == self.slots.keys().len(),
            forall|j: int|
                0 <= j < r@.len() ==> #[trigger] r@[j] == is_surplus(
                    self@,
                    pool@,
                    self.slots@[self.slots.keys()[j]],
                    desired,
                ),
    {
        let available = self.count_available(pool);
        let surplus: usize = if available as u64 > desired as u64 {
            (available as u64 - desired as u64) as usize
        } else {
            0
        };
        let mut r: Vec<bool> = Vec::new();
        let mut i: usize = 0;
        while i < self.slots.len()
            invariant
                self.wf(),
                i <= self.slots.keys().len(),
                surplus == sat_sub(available_slots(self@, pool@) as int, desired as int),
                r@.len() == i,
                forall|j: int|
                    0 <= j < i ==> #[trigger] r@[j] == is_surplus(
                        self@,
                        pool@,
                        self.slots@[self.slots.keys()[j]],
                        desired,
                    ),
            decreases self.slots.keys().len() - i,
        {
            let s = self.slots.value_at(i);
            let goes = text_eq(s.pool_name.as_str(), pool) && state_available(s.state)
                && self.count_surplus_rank(pool, s) < surplus;
            r.push(goes);
            i = i + 1;
        }
        r
    }

    /// Retires the rows marked in `goes`, with `note` as their error where one is given.
    pub(super) fn retire_rows(
        &mut self,
        goes: &Vec<bool>,
        now: u64,
        note: Option<&str>,
        Ghost(chosen): Ghost<spec_fn(Seq<char>, SlotModel) -> bool>,
    )
        requires
            old(self).wf(),
            goes@.len() == old(self).slots.keys().len(),
            forall|j: int|
                0 <= j < goes@.len() ==> #[trigger] goes@[j] == chosen(
                    old(self).slots.keys()[j],
                    old(self).slots@[old(self).slots.keys()[j]],
                ),
        ensures
            final(self).wf(),
            final(self).slots.keys() == old(self).slots.keys(),
            final(self).leases == old(self).leases,
            final(self).vms == old(self).vms,
            final(self)@ == (DbModel {
                slots: map_entries(
                    old(self)@.slots,
                    |k: Seq<char>, s: SlotModel|
                        if chosen(k, s) {
                            retired_noting(s, now, opt_str(note))
                        } else {
                            s
                        },
                ),
                ..old(self)@
            }),
    {
        let ghost start = *self;
        let ghost m = self.slots@;
        let ghost keys = self.slots.keys();
        let ghost f = |k: Seq<char>, s: SlotModel|
            if chosen(k, s) {
                retired_noting(s, now, opt_str(note))
            } else {
                s
            };
        proof {
            self.slots.lemma_keys();
            lemma_mapped_start(m, keys, f);
        }
        let mut i: usize = 0;
        while i < self.slots.len()
            invariant
                goes@.len() == keys.len(),
                start.wf(),
                m == start.slots@,
                keys == start.slots.keys(),
                keys.no_duplicates(),
                keys.to_set() == m.dom(),
                forall|j: int|
                    0 <= j < goes@.len() ==> #[trigger] goes@[j] == chosen(keys[j], m[keys[j]]),
                f == (|k: Seq<char>, s: SlotModel|
                    if chosen(k, s) {
                        retired_noting(s, now, opt_str(note))
                    } else {
                        s
                    }),
                self.tables_wf(),
                self@ == (DbModel { slots: self.slots@, ..start@ }),
                self.slots.keys() == keys,
                self.leases == start.leases,
                self.vms == start.vms,
                i <= keys.len(),
                self.slots@ == mapped_prefix(m, keys, f, i as int),
            decreases keys.len() - i,
        {
            proof { lemma_mapped_step(m, keys, f, i as int); }
            if goes[i] {
                let mut s = self.slots.value_at(i).clone();
                s.state = ForkPoolSlotState::Retiring;
                s.updated_at = now;
                match note {
                    Some(e) => {
                        s.last_error = Some(e.to_owned());
                    },
                    None => {},
                }
                proof { assert(s@ =~= retired_noting(m[keys[i as int]], now, opt_str(note))); }
                self.slots.set_at(i, s);
            }
            i = i + 1;
        }
        proof {
            lemma_mapped_end(m, keys, f);
            self.lemma_finite();
        }
    }

    /// Changes how many workers the pool keeps ready and retires the surplus,
    /// unfinished workers first, then by name. A pool that is being deleted stays
    /// as it is.
    pub fn resize_fork_pool(&mut self, name: &str, desired_ready: u32, now: u64) -> (r: Option<
        ForkPoolRecord,
    >)
        requires
            old(self).wf(),
        ensures
            final(self).wf(),
            final(self)@ == resized(old(self)@, name@, desired_ready, now),
            match r {
                Some(p) => final(self)@.pools.contains_key(name@) && p@ == final(self)@.pools[name@],
                None => !old(self)@.pools.contains_key(name@),
            },
    {
        let i = match self.pools.find(name) {
            Some(i) => i,
            None => {
                return None;
            },
        };
        let mut pool = self.pools.value_at(i).clone();
        if pool.deleting {
            return Some(pool);
        }
        let ghost start = self@;
        let goes = self.surplus_rows(name, desired_ready);
        let ghost chosen = |k: Seq<char>, s: SlotModel| is_surplus(start, name@, s, desired_ready);
        pool.desired_ready = desired_ready;
        self.pools.set_at(i, pool.clone());
        proof { self.lemma_finite(); }
        self.retire_rows(&goes, now, None, Ghost(chosen));
        proof {
            assert(self@.slots =~= resized(start, name@, desired_ready, now).slots);
        }
        Some(pool)
    }

    /// The workers of a pool, by machine name.
    pub fn list_fork_pool_slots(&self, pool_name: &str) -> (r: Vec<ForkPoolSlotRecord>)
        requires
            self.wf(),
        ensures
            increasing(slot_names(r@)),
            forall|s: SlotModel| #[trigger]
                slots_view(r@).contains(s)
                    <==> self@.slots.contains_key(s.machine_name)
                    && self@.slots[s.machine_name] == s && s.pool_name == pool_name@,
    {
        let order = self.slots.sorted();
        let ghost keys = self.slots.keys();
        let mut r: Vec<ForkPoolSlotRecord> = Vec::new();
        let ghost mut from: Seq<int> = Seq::empty();
        let mut i: usize = 0;
        proof { self.slots.lemma_keys(); }
        while i < order.len()
            invariant
                self.wf(),
                keys == self.slots.keys(),
                keys.to_set() == self.slots@.dom(),
                i <= order@.len(),
                key_order(order@, keys),
                r@.len() == from.len(),
                forall|j: int| 0 <= j < from.len() ==> 0 <= #[trigger] from[j] < i,
                forall|a: int, b: int| 0 <= a < b < from.len() ==> from[a] < from[b],
                forall|j: int|
                    0 <= j < from.len() ==> (#[trigger] r@[j])@
                        == self.slots@[keys[order@[from[j]] as int]] && r@[j]@.machine_name
                        == keys[order@[from[j]] as int] && r@[j]@.pool_name == pool_name@,
                forall|n: int|
                    0 <= n < i && self.slots@[keys[#[trigger] order@[n] as int]].pool_name
                        == pool_name@ ==> from.contains(n),
            decreases order@.len() - i,
        {
            proof { assert(keys.to_set().contains(keys[order@[i as int] as int])); }
            let ghost before = from;
            if text_eq(self.slots.value_at(order[i]).pool_name.as_str(), pool_name) {
                r.push(self.slots.value_at(order[i]).clone());
                proof {
                    from = from.push(i as int);
                    assert(from[before.len() as int] == i);
                    assert forall|n: int|
                        0 <= n < i + 1 && self.slots@[keys[#[trigger] order@[n] as int]].pool_name
                            == pool_name@ implies from.contains(n) by {
                        if n < i {
                            assert(before.contains(n));
                            let a = choose|a: int| 0 <= a < before.len() && before[a] == n;
                            assert(from[a] == n);
                        }
                    }
                }
            }
            i = i + 1;
        }
        proof {
            let listed = slots_view(r@);
            assert forall|a: int, b: int| 0 <= a < b < r@.len() implies text_lt(
                #[trigger] slot_names(r@)[a],
                #[trigger] slot_names(r@)[b],
            ) by {
                assert(r@[a]@.machine_name == keys[order@[from[a]] as int]);
                assert(r@[b]@.machine_name == keys[order@[from[b]] as int]);
            }
            assert forall|s: SlotModel| #[trigger] listed.contains(s) <==> self@.slots.contains_key(
                s.machine_name,
            ) && self@.slots[s.machine_name] == s && s.pool_name == pool_name@ by {
                if listed.contains(s) {
                    let j = choose|j: int| 0 <= j < listed.len() && listed[j] == s;
                    assert(r@[j]@ == s);
                    assert(keys.to_set().contains(keys[order@[from[j]] as int]));
                }
                if self@.slots.contains_key(s.machine_name) && self@.slots[s.machine_name] == s
                    && s.pool_name == pool_name@ {
                    assert(keys.to_set().contains(s.machine_name));
                    let k = choose|k: int| 0 <= k < keys.len() && keys[k] == s.machine_name;
                    assert(order@.contains(k as usize));
                    let n = choose|n: int| 0 <= n < order@.len() && order@[n] == k as usize;
                    assert(from.contains(n));
                    let j = choose|j: int| 0 <= j < from.len() && from[j] == n;
                    assert(listed[j] == r@[j]@);
                    assert(listed[j] == s);
                }
            }
        }
        r
    }

    /// The worker on the machine `machine_name`.
    pub fn get_fork_pool_slot(&self, machine_name: &str) -> (r: Option<ForkPoolSlotRecord>)
        requires
            self.wf(),
        ensures
            match r {
                Some(s) => self@.slots.contains_key(machine_name@) && s@
                    == self@.slots[machine_name@],
                None => !self@.slots.contains_key(machine_name@),
            },
    {
        match self.slots.get(machine_name) {
            Some(s) => Some(s.clone()),
            None => None,
        }
    }

    /// How many workers the pool lacks.
    pub fn fork_pool_ready_deficit(&self, pool_name: &str) -> (r: u32)
        requires
            self.wf(),
        ensures
            r == ready_deficit(self@, pool_name@),
    {
        let desired = match self.pools.get(pool_name) {
            Some(p) => {
                if p.deleting {
                    return 0;
                }
                p.desired_ready
            },
            None => {
                return 0;
            },
        };
        if self.count_activating(pool_name) > 0 {
            return 0;
        }
        let available = self.count_available(pool_name);
        if available as u64 >= desired as u64 {
            0
        } else {
            desired - available as u32
        }
    }

    /// Adds a worker in provisioning if the pool lacks one and the machine is not
    /// a worker yet; returns whether it did.
    pub fn reserve_fork_pool_slot(&mut self, pool_name: &str, machine_name: &str, now: u64) -> (r:
        bool)
        requires
            old(self).wf(),
        ensures
            final(self).wf(),
            (r, final(self)@) == reserve_slot(old(self)@, pool_name@, machine_name@, now),
    {
        if self.fork_pool_ready_deficit(pool_name) == 0 || self.slots.contains(machine_name) {
            return false;
        }
        let slot = ForkPoolSlotRecord {
            pool_name: pool_name.to_owned(),
            machine_name: machine_name.to_owned(),
            state: ForkPoolSlotState::Provisioning,
            lease_id: None,
            created_at: now,
            updated_at: now,
            last_error: None,
        };
        proof { assert(slot@ =~= fresh_slot(pool_name@, machine_name@, now)); }
        self.slots.insert(machine_name, slot);
        proof { self.lemma_finite(); }
        true
    }

    /// Marks a worker in provisioning as ready; returns whether it did.
    pub fn mark_fork_pool_slot_ready(&mut self, machine_name: &str, now: u64) -> (r: bool)
        requires
            old(self).wf(),
        ensures
            final(self).wf(),
            r == (old(self)@.slots.contains_key(machine_name@)
                && old(self)@.slots[machine_name@].state == ForkPoolSlotState::Provisioning),
            final(self)@ == if r {
                DbModel {
                    slots: old(self)@.slots.insert(
                        machine_name@,
                        SlotModel {
                            state: ForkPoolSlotState::Ready,
                            updated_at: now,
                            last_error: None,
                            ..old(self)@.slots[machine_name@]
                        },
                    ),
                    ..old(self)@
                }
            } else {
                old(self)@
            },
    {
        self.update_fork_pool_slot_state(
            machine_name,
            Some(ForkPoolSlotState::Provisioning),
            ForkPoolSlotState::Ready,
            now,
            None,
        )
    }

    /// Retires a worker whatever its state; returns whether there was one.
    pub fn mark_fork_pool_slot_retiring(
        &mut self,
        machine_name: &str,
        now: u64,
        error: Option<String>,
    ) -> (r: bool)
        requires
            old(self).wf(),
        ensures
            final(self).wf(),
            r == old(self)@.slots.contains_key(machine_name@),
            final(self)@ == if r {
                DbModel {
                    slots: old(self)@.slots.insert(
                        machine_name@,
                        retired(old(self)@.slots[machine_name@], now, opt_text(error)),
                    ),
                    ..old(self)@
                }
            } else {
                old(self)@
            },
    {
        self.update_fork_pool_slot_state(
            machine_name,
            None,
            ForkPoolSlotState::Retiring,
            now,
            error,
        )
    }

    /// Moves a worker to the state `next` if it is in the state `expected`, where
    /// one is given; returns whether it did.
    pub(super) fn update_fork_pool_slot_state(
        &mut self,
        machine_name: &str,
        expected: Option<ForkPoolSlotState>,
        next: ForkPoolSlotState,
        now: u64,
        error: Option<String>,
    ) -> (r: bool)
        requires
            old(self).wf(),
        ensures
            final(self).wf(),
            r == (old(self)@.slots.contains_key(machine_name@) && (expected matches Some(e)
                ==> old(self)@.slots[machine_name@].state == e)),
            final(self)@ == if r {
                DbModel {
                    slots: stepped_slots(
                        old(self)@.slots,
                        machine_name@,
                        next,
                        now,
                        opt_text(error),
                    ),
                    ..old(self)@
                }
            } else {
                old(self)@
            },
    {
        let i = match self.slots.find(machine_name) {
            Some(i) => i,
            None => {
                return false;
            },
        };
        let mut slot = self.slots.value_at(i).clone();
        match expected {
            Some(e) => {
                if slot.state != e {
                    return false;
                }
            },
            None => {},
        }
        slot.state = next;
        slot.updated_at = now;
        slot.last_error = error;
        self.slots.set_at(i, slot);
        proof { self.lemma_finite(); }
        true
    }

    /// The workers that wait to be cleaned up.
    pub fn list_retiring_fork_pool_slots(&self) -> (r: Vec<ForkPoolSlotRecord>)
        requires
            self.wf(),
        ensures
            slot_names(r@).no_duplicates(),
            forall|s: SlotModel| #[trigger]
                slots_view(r@).contains(s)
                    <==> self@.slots.contains_key(s.machine_name)
                    && self@.slots[s.machine_name] == s && s.state == ForkPoolSlotState::Retiring,
    {
        let mut r: Vec<ForkPoolSlotRecord> = Vec::new();
        let mut i: usize = 0;
        let ghost keys = self.slots.keys();
        proof { self.slots.lemma_keys(); }
        while i < self.slots.len()
            invariant
                self.wf(),
                keys == self.slots.keys(),
                keys.no_duplicates(),
                keys.to_set() == self.slots@.dom(),
                i <= keys.len(),
                slot_names(r@).no_duplicates(),
                forall|j: int|
                    0 <= j < r@.len() ==> self.slots@.contains_key((#[trigger] r@[j])@.machine_name)
                        && self.slots@[r@[j]@.machine_name] == r@[j]@ && r@[j]@.state
                        == ForkPoolSlotState::Retiring,
                forall|k: Seq<char>| #[trigger]
                    slot_names(r@).contains(k) <==> keys.take(i as int).contains(k)
                        && self.slots@[k].state == ForkPoolSlotState::Retiring,
            decreases keys.len() - i,
        {
            let ghost before = slot_names(r@);
            let ghost key = keys[i as int];
            proof {
                lemma_take_push(keys, i as int);
                assert(keys.to_set().contains(key));
            }
            if self.slots.value_at(i).state == ForkPoolSlotState::Retiring {
                r.push(self.slots.value_at(i).clone());
                proof { lemma_push_unique(before, key, slot_names(r@)); }
            }
            i = i + 1;
        }
        proof {
            assert(keys.take(keys.len() as int) =~= keys);
            let listed = slots_view(r@);
            assert forall|s: SlotModel| #[trigger] listed.contains(s) <==> self@.slots.contains_key(
                s.machine_name,
            ) && self@.slots[s.machine_name] == s && s.state == ForkPoolSlotState::Retiring by {
                if listed.contains(s) {
                    let j = choose|j: int| 0 <= j < listed.len() && listed[j] == s;
                    assert(r@[j]@ == s);
                }
                if self@.slots.contains_key(s.machine_name) && self@.slots[s.machine_name] == s
                    && s.state == ForkPoolSlotState::Retiring {
                    assert(keys.to_set().contains(s.machine_name));
                    assert(slot_names(r@).contains(s.machine_name));
                    let j = choose|j: int|
                        0 <= j < slot_names(r@).len() && slot_names(r@)[j] == s.machine_name;
                    assert(r@[j]@.machine_name == s.machine_name);
                    assert(listed[j] == s);
                }
            }
        }
        r
    }

    /// Forgets a worker and returns whether there was one.
    pub fn remove_fork_pool_slot(&mut self, machine_name: &str) -> (r: bool)
        requires
            old(self).wf(),
        ensures
            final(self).wf(),
            r == old(self)@.slots.contains_key(machine_name@),
            final(self)@ == (DbModel {
                slots: old(self)@.slots.remove(machine_name@),
                ..old(self)@
            }),
    {
        let r = self.slots.remove(machine_name).is_some();
        proof { self.lemma_finite(); }
        r
    }
}

} // verus!
