//! The rows of the database, as storage holds them.
use crate::db::SmolvmDb;
use crate::db::pools::increasing;
use crate::db_model::DbModel;
use crate::numerals::{decimal, decimal_chars, digit_value, lemma_numeral_value};
use crate::records::{
    CreateReservation, ForkLeaseRecord, ForkPoolSlotRecord, LeaseModel, ReservationModel, SlotModel,
};
use crate::table::key_order;
use crate::text::{say5, string_of, text_eq};
use vstd::prelude::*;

verus! {

/// Reservations with the names they hold.
pub open spec fn reservations_view(v: Seq<(String, CreateReservation)>) -> Seq<
    (Seq<char>, ReservationModel),
> {
    v.map_values(|p: (String, CreateReservation)| (p.0@, p.1@))
}

/// Workers by what they are.
pub open spec fn all_slots_view(v: Seq<ForkPoolSlotRecord>) -> Seq<SlotModel> {
    v.map_values(|s: ForkPoolSlotRecord| s@)
}

/// Leases by what they are.
pub open spec fn all_leases_view(v: Seq<ForkLeaseRecord>) -> Seq<LeaseModel> {
    v.map_values(|l: ForkLeaseRecord| l@)
}

/// Another lease of the pool has this retry key.
pub open spec fn retry_key_taken(db: DbModel, l: LeaseModel) -> bool {
    exists|id: Seq<char>| #[trigger]
        db.leases.contains_key(id) && id != l.id && db.leases[id].pool_name == l.pool_name
            && db.leases[id].idempotency_key == l.idempotency_key
}

/// Two processes that run at once never have the same token.
pub proof fn law_tokens_of_processes_differ(
    a: u32,
    b: u32,
    time_a: u64,
    time_b: u64,
    nanos_a: u128,
    nanos_b: u128,
)
    requires
        decimal(a as nat) + "-"@ + decimal(time_a as nat) + "-"@ + decimal(nanos_a as nat)
            == decimal(b as nat) + "-"@ + decimal(time_b as nat) + "-"@ + decimal(nanos_b as nat),
    ensures
        a == b,
{
    reveal_strlit("-");
    let x = decimal(a as nat);
    let y = decimal(b as nat);
    let l = x + "-"@ + decimal(time_a as nat) + "-"@ + decimal(nanos_a as nat);
    let r = y + "-"@ + decimal(time_b as nat) + "-"@ + decimal(nanos_b as nat);
    lemma_numeral_value(a as nat, 10);
    lemma_numeral_value(b as nat, 10);
    if x.len() < y.len() {
        assert(l[x.len() as int] == '-');
        assert(r[x.len() as int] == y[x.len() as int]);
        assert(digit_value(y[x.len() as int]) < 10);
    } else if y.len() < x.len() {
        assert(r[y.len() as int] == '-');
        assert(l[y.len() as int] == x[y.len() as int]);
        assert(digit_value(x[y.len() as int]) < 10);
    }
    assert forall|i: int| 0 <= i < x.len() implies x[i] == y[i] by {
        assert(l[i] == x[i]);
        assert(r[i] == y[i]);
    }
    assert(x =~= y);
}

impl SmolvmDb {
    /// A token that tells the reservations of one process from those of others.
    pub fn create_reservation_token(pid: u32, timestamp: u64, nanos: u128) -> (r: String)
        ensures
            r@ == decimal(pid as nat) + "-"@ + decimal(timestamp as nat) + "-"@ + decimal(nanos as nat),
    {
        say5(
            string_of(&decimal_chars(pid as u128)).as_str(),
            "-",
            string_of(&decimal_chars(timestamp as u128)).as_str(),
            "-",
            string_of(&decimal_chars(nanos)).as_str(),
        )
    }

    /// Puts a reservation back.
    pub fn restore_reservation(&mut self, name: &str, reservation: CreateReservation)
        requires
            old(self).wf(),
        ensures
            final(self).wf(),
            final(self)@ == (DbModel {
                reservations: old(self)@.reservations.insert(name@, reservation@),
                ..old(self)@
            }),
    {
        self.reservations.insert(name, reservation);
    }

    /// Puts a worker back, under its machine's name.
    pub fn restore_slot(&mut self, slot: ForkPoolSlotRecord)
        requires
            old(self).wf(),
        ensures
            final(self).wf(),
            final(self)@ == (DbModel {
                slots: old(self)@.slots.insert(slot@.machine_name, slot@),
                ..old(self)@
            }),
    {
        let name = slot.machine_name.clone();
        self.slots.insert(name.as_str(), slot);
        proof { self.lemma_finite(); }
    }

    /// Puts a lease back, under its identifier, unless another lease of its pool has its
    /// retry key.
    pub fn restore_lease(&mut self, lease: ForkLeaseRecord) -> (r: bool)
        requires
            old(self).wf(),
        ensures
            final(self).wf(),
            r == !retry_key_taken(old(self)@, lease@),
            final(self)@ == if r {
                DbModel { leases: old(self)@.leases.insert(lease@.id, lease@), ..old(self)@ }
            } else {
                old(self)@
            },
    {
        let ghost keys = self.leases.keys();
        proof { self.leases.lemma_keys(); }
        let mut i: usize = 0;
        while i < self.leases.len()
            invariant
                self.wf(),
                *self == *old(self),
                keys == self.leases.keys(),
                keys.to_set() == self.leases@.dom(),
                i <= keys.len(),
                forall|j: int|
                    0 <= j < i ==> !(#[trigger] keys[j] != lease@.id && self@.leases[keys[j]].pool_name
                        == lease@.pool_name && self@.leases[keys[j]].idempotency_key
                        == lease@.idempotency_key),
            decreases keys.len() - i,
        {
            let other = self.leases.value_at(i);
            if !text_eq(self.leases.key_at(i).as_str(), lease.id.as_str()) && text_eq(
                other.pool_name.as_str(),
                lease.pool_name.as_str(),
            ) && text_eq(other.idempotency_key.as_str(), lease.idempotency_key.as_str()) {
                proof {
                    assert(self@.leases.contains_key(keys[i as int]));
                }
                return false;
            }
            i = i + 1;
        }
        proof {
            if retry_key_taken(self@, lease@) {
                let id = choose|id: Seq<char>| #[trigger]
                    self@.leases.contains_key(id) && id != lease@.id && self@.leases[id].pool_name
                        == lease@.pool_name && self@.leases[id].idempotency_key
                        == lease@.idempotency_key;
                assert(keys.to_set().contains(id));
                let j = choose|j: int| 0 <= j < keys.len() && keys[j] == id;
                assert(keys[j] == id);
            }
        }
        let ghost start = self@;
        let id = lease.id.clone();
        self.leases.insert(id.as_str(), lease);
        proof {
            self.lemma_finite();
            assert forall|a: Seq<char>, b: Seq<char>|
                #![trigger self@.leases.contains_key(a), self@.leases.contains_key(b)]
                self@.leases.contains_key(a) && self@.leases.contains_key(b)
                    && self@.leases[a].pool_name == self@.leases[b].pool_name
                    && self@.leases[a].idempotency_key == self@.leases[b].idempotency_key implies a
                == b by {
                if a != b && a == lease@.id {
                    assert(start.leases.contains_key(b));
                    assert(retry_key_taken(start, lease@));
                } else if a != b && b == lease@.id {
                    assert(start.leases.contains_key(a));
                    assert(retry_key_taken(start, lease@));
                } else if a != b {
                    assert(start.leases.contains_key(a));
                    assert(start.leases.contains_key(b));
                }
            }
        }
        true
    }

    /// Every reservation with the name it holds, by name.
    pub fn list_reservations(&self) -> (r: Vec<(String, CreateReservation)>)
        requires
            self.wf(),
        ensures
            increasing(r@.map_values(|p: (String, CreateReservation)| p.0@)),
            forall|k: Seq<char>, s: ReservationModel| #[trigger]
                reservations_view(r@).contains((k, s))
                    <==> self@.reservations.contains_key(k) && self@.reservations[k] == s,
    {
        let order = self.reservations.sorted();
        let ghost keys = self.reservations.keys();
        let mut r: Vec<(String, CreateReservation)> = Vec::new();
        let mut i: usize = 0;
        proof { self.reservations.lemma_keys(); }
        while i < order.len()
            invariant
                self.wf(),
                keys == self.reservations.keys(),
                i <= order@.len(),
                key_order(order@, keys),
                r@.len() == i,
                forall|j: int|
                    0 <= j < i ==> (#[trigger] r@[j]).0@ == keys[order@[j] as int] && r@[j].1@
                        == self.reservations@[keys[order@[j] as int]],
            decreases order@.len() - i,
        {
            let row = self.reservations.value_at(order[i]);
            r.push(
                (
                    self.reservations.key_at(order[i]).clone(),
                    CreateReservation {
                        owner_token: row.owner_token.clone(),
                        owner_pid: row.owner_pid,
                        created_at: row.created_at,
                    },
                ),
            );
            i = i + 1;
        }
        proof {
            let listed = reservations_view(r@);
            assert forall|k: Seq<char>, s: ReservationModel| #[trigger] listed.contains((k, s))
                <==> self@.reservations.contains_key(k) && self@.reservations[k] == s by {
                if listed.contains((k, s)) {
                    let j = choose|j: int| 0 <= j < listed.len() && listed[j] == (k, s);
                    assert(r@[j].0@ == k);
                    assert(keys.to_set().contains(keys[order@[j] as int]));
                }
                if self@.reservations.contains_key(k) && self@.reservations[k] == s {
                    assert(keys.to_set().contains(k));
                    let n = choose|n: int| 0 <= n < keys.len() && keys[n] == k;
                    assert(order@.contains(n as usize));
                    let j = choose|j: int| 0 <= j < order@.len() && order@[j] == n as usize;
                    assert(listed[j] == (r@[j].0@, r@[j].1@));
                    assert(listed[j] == (k, s));
                }
            }
        }
        r
    }

    /// Every worker of every pool, by machine name.
    pub fn list_all_slots(&self) -> (r: Vec<ForkPoolSlotRecord>)
        requires
            self.wf(),
        ensures
            increasing(r@.map_values(|s: ForkPoolSlotRecord| s@.machine_name)),
            forall|s: SlotModel| #[trigger]
                all_slots_view(r@).contains(s) <==> self@.slots.contains_key(s.machine_name)
                    && self@.slots[s.machine_name] == s,
    {
        let order = self.slots.sorted();
        let ghost keys = self.slots.keys();
        let mut r: Vec<ForkPoolSlotRecord> = Vec::new();
        let mut i: usize = 0;
        proof { self.slots.lemma_keys(); }
        while i < order.len()
            invariant
                self.wf(),
                keys == self.slots.keys(),
                keys.to_set() == self.slots@.dom(),
                i <= order@.len(),
                key_order(order@, keys),
                r@.len() == i,
                forall|j: int|
                    0 <= j < i ==> (#[trigger] r@[j])@ == self.slots@[keys[order@[j] as int]]
                        && r@[j]@.machine_name == keys[order@[j] as int],
            decreases order@.len() - i,
        {
            proof { assert(keys.to_set().contains(keys[order@[i as int] as int])); }
            r.push(self.slots.value_at(order[i]).clone());
            i = i + 1;
        }
        proof {
            let listed = all_slots_view(r@);
            assert forall|s: SlotModel| #[trigger] listed.contains(s) <==> self@.slots.contains_key(
                s.machine_name,
            ) && self@.slots[s.machine_name] == s by {
                if listed.contains(s) {
                    let j = choose|j: int| 0 <= j < listed.len() && listed[j] == s;
                    assert(r@[j]@ == s);
                    assert(keys.to_set().contains(keys[order@[j] as int]));
                }
                if self@.slots.contains_key(s.machine_name) && self@.slots[s.machine_name] == s {
                    assert(keys.to_set().contains(s.machine_name));
                    let k = choose|k: int| 0 <= k < keys.len() && keys[k] == s.machine_name;
                    assert(order@.contains(k as usize));
                    let j = choose|j: int| 0 <= j < order@.len() && order@[j] == k as usize;
                    assert(listed[j] == r@[j]@);
                    assert(listed[j] == s);
                }
            }
        }
        r
    }

    /// Every lease of every pool, by identifier.
    pub fn list_all_leases(&self) -> (r: Vec<ForkLeaseRecord>)
        requires
            self.wf(),
        ensures
            increasing(r@.map_values(|l: ForkLeaseRecord| l@.id)),
            forall|l: LeaseModel| #[trigger]
                all_leases_view(r@).contains(l) <==> self@.leases.contains_key(l.id)
                    && self@.leases[l.id] == l,
    {
        let order = self.leases.sorted();
        let ghost keys = self.leases.keys();
        let mut r: Vec<ForkLeaseRecord> = Vec::new();
        let mut i: usize = 0;
        proof { self.leases.lemma_keys(); }
        while i < order.len()
            invariant
                self.wf(),
                keys == self.leases.keys(),
                keys.to_set() == self.leases@.dom(),
                i <= order@.len(),
                key_order(order@, keys),
                r@.len() == i,
                forall|j: int|
                    0 <= j < i ==> (#[trigger] r@[j])@ == self.leases@[keys[order@[j] as int]]
                        && r@[j]@.id == keys[order@[j] as int],
            decreases order@.len() - i,
        {
            proof { assert(keys.to_set().contains(keys[order@[i as int] as int])); }
            r.push(self.leases.value_at(order[i]).clone());
            i = i + 1;
        }
        proof {
            let listed = all_leases_view(r@);
            assert forall|l: LeaseModel| #[trigger] listed.contains(l) <==> self@.leases.contains_key(
                l.id,
            ) && self@.leases[l.id] == l by {
                if listed.contains(l) {
                    let j = choose|j: int| 0 <= j < listed.len() && listed[j] == l;
                    assert(r@[j]@ == l);
                    assert(keys.to_set().contains(keys[order@[j] as int]));
                }
                if self@.leases.contains_key(l.id) && self@.leases[l.id] == l {
                    assert(keys.to_set().contains(l.id));
                    let k = choose|k: int| 0 <= k < keys.len() && keys[k] == l.id;
                    assert(order@.contains(k as usize));
                    let j = choose|j: int| 0 <= j < order@.len() && order@[j] == k as usize;
                    assert(listed[j] == r@[j]@);
                    assert(listed[j] == l);
                }
            }
        }
        r
    }
}

} // verus!
