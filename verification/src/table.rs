//! A table of rows with a text key, in insertion order.
use crate::text::{lemma_text_lt_total, lemma_text_lt_transitive, text_eq, text_less, text_lt};
use vstd::prelude::*;

verus! {

/// Rows with distinct text keys.
///
/// The mathematical value of a table is a finite map from keys to the values'
/// own views; [`Table::keys`] is the order in which the rows are stored.
#[derive(Debug)]
pub struct Table<V> {
    rows: Vec<(String, V)>,
}

impl<V: View> View for Table<V> {
    type V = Map<Seq<char>, V::V>;

    closed spec fn view(&self) -> Map<Seq<char>, V::V> {
        Map::new(
            |k: Seq<char>| self.keys().contains(k),
            |k: Seq<char>| self.rows@[self.keys().index_of(k)].1@,
        )
    }
}

/// How many entries of `m` have a value that satisfies `p`.
pub open spec fn count_where<V>(m: Map<Seq<char>, V>, p: spec_fn(V) -> bool) -> nat {
    m.dom().filter(|k: Seq<char>| p(m[k])).len()
}

/// How many of the first `n` keys of `keys` have a value in `m` that satisfies `p`.
pub open spec fn count_prefix<V>(
    keys: Seq<Seq<char>>,
    m: Map<Seq<char>, V>,
    p: spec_fn(V) -> bool,
    n: int,
) -> nat
    decreases n,
{
    if n <= 0 {
        0
    } else {
        count_prefix(keys, m, p, n - 1) + if p(m[keys[n - 1]]) {
            1nat
        } else {
            0nat
        }
    }
}

/// Counting along the stored order counts the matching entries of the map.
pub proof fn lemma_count<V>(keys: Seq<Seq<char>>, m: Map<Seq<char>, V>, p: spec_fn(V) -> bool)
    requires
        keys.no_duplicates(),
        keys.to_set() == m.dom(),
    ensures
        count_prefix(keys, m, p, keys.len() as int) == count_where(m, p),
{
    lemma_count_prefix(keys, m, p, keys.len() as int);
    let q = |k: Seq<char>| p(m[k]);
    assert(keys.take(keys.len() as int) =~= keys);
    assert(keys.to_set().filter(q) =~= m.dom().filter(|k: Seq<char>| p(m[k])));
}

/// Storing one entry changes a count by at most that entry.
pub proof fn lemma_count_insert<V>(
    m: Map<Seq<char>, V>,
    p: spec_fn(V) -> bool,
    k: Seq<char>,
    v: V,
)
    requires
        m.dom().finite(),
    ensures
        count_where(m.insert(k, v), p) == count_where(m, p) - (if m.contains_key(k) && p(m[k]) {
            1int
        } else {
            0
        }) + (if p(v) {
            1int
        } else {
            0
        }),
{
    let n = m.insert(k, v);
    let before = m.dom().filter(|x: Seq<char>| p(m[x]));
    let after = n.dom().filter(|x: Seq<char>| p(n[x]));
    let rest = before.remove(k);
    assert(rest =~= after.remove(k));
    assert(before.len() == rest.len() + if m.contains_key(k) && p(m[k]) {
        1int
    } else {
        0
    });
    assert(after.len() == rest.len() + if p(v) {
        1int
    } else {
        0
    });
}

/// A count is zero exactly when no entry satisfies `p`.
pub proof fn lemma_count_zero<V>(m: Map<Seq<char>, V>, p: spec_fn(V) -> bool)
    requires
        m.dom().finite(),
    ensures
        count_where(m, p) == 0 <==> forall|k: Seq<char>| #[trigger]
            m.contains_key(k) ==> !p(m[k]),
{
    let s = m.dom().filter(|x: Seq<char>| p(m[x]));
    if s.len() == 0 {
        assert forall|k: Seq<char>| #[trigger] m.contains_key(k) implies !p(m[k]) by {
            if p(m[k]) {
                assert(s.contains(k));
            }
        }
    }
    if forall|k: Seq<char>| #[trigger] m.contains_key(k) ==> !p(m[k]) {
        assert(s =~= Set::empty());
    }
}

proof fn lemma_count_prefix<V>(
    keys: Seq<Seq<char>>,
    m: Map<Seq<char>, V>,
    p: spec_fn(V) -> bool,
    n: int,
)
    requires
        keys.no_duplicates(),
        0 <= n <= keys.len(),
    ensures
        keys.take(n).to_set().finite(),
        count_prefix(keys, m, p, n) == keys.take(n).to_set().filter(
            |k: Seq<char>| p(m[k]),
        ).len(),
        count_prefix(keys, m, p, n) <= n,
    decreases n,
{
    let q = |k: Seq<char>| p(m[k]);
    vstd::seq_lib::seq_to_set_is_finite(keys.take(n));
    if n == 0 {
        assert(keys.take(0).to_set().filter(q) =~= Set::<Seq<char>>::empty());
    } else {
        lemma_count_prefix(keys, m, p, n - 1);
        let before = keys.take(n - 1).to_set();
        let k = keys[n - 1];
        assert(!before.contains(k)) by {
            if before.contains(k) {
                let i = choose|i: int| 0 <= i < n - 1 && #[trigger] keys.take(n - 1)[i] == k;
                assert(keys[i] == keys[n - 1]);
            }
        }
        assert(keys.take(n).to_set() =~= before.insert(k)) by {
            assert(keys.take(n) =~= keys.take(n - 1).push(k));
            assert forall|x: Seq<char>| keys.take(n).to_set().contains(x) == before.insert(
                k,
            ).contains(x) by {
                if before.contains(x) {
                    let i = choose|i: int| 0 <= i < n - 1 && #[trigger] keys.take(n - 1)[i] == x;
                    assert(keys.take(n)[i] == x);
                }
                if x == k {
                    assert(keys.take(n)[n - 1] == x);
                }
                if keys.take(n).contains(x) {
                    let i = choose|i: int| 0 <= i < n && #[trigger] keys.take(n)[i] == x;
                    if i < n - 1 {
                        assert(keys.take(n - 1)[i] == x);
                    }
                }
            }
        }
        if q(k) {
            assert(before.insert(k).filter(q) =~= before.filter(q).insert(k));
        } else {
            assert(before.insert(k).filter(q) =~= before.filter(q));
        }
    }
}

/// `positions` point into `keys` in strictly increasing order of the keys.
pub open spec fn key_order(positions: Seq<usize>, keys: Seq<Seq<char>>) -> bool {
    &&& forall|j: int| 0 <= j < positions.len() ==> #[trigger] positions[j] < keys.len()
    &&& forall|a: int, b: int|
        0 <= a < b < positions.len() ==> text_lt(
            keys[#[trigger] positions[a] as int],
            keys[#[trigger] positions[b] as int],
        )
}

impl<V: View> Table<V> {
    /// The keys in stored order.
    pub closed spec fn keys(&self) -> Seq<Seq<char>> {
        self.rows@.map_values(|r: (String, V)| r.0@)
    }

    /// No key is stored twice.
    pub closed spec fn wf(&self) -> bool {
        self.keys().no_duplicates()
    }

    /// The stored order lists the keys of the map, each once.
    pub proof fn lemma_keys(&self)
        requires
            self.wf(),
        ensures
            self.keys().no_duplicates(),
            self.keys().to_set() == self@.dom(),
            self@.dom().finite(),
            self@.dom().len() == self.keys().len(),
    {
        vstd::seq_lib::seq_to_set_is_finite(self.keys());
        assert(self.keys().to_set() =~= self@.dom());
        self.keys().unique_seq_to_set();
    }

    proof fn lemma_row(&self, i: int)
        requires
            self.wf(),
            0 <= i < self.rows@.len(),
        ensures
            self@.contains_key(self.rows@[i].0@),
            self@[self.rows@[i].0@] == self.rows@[i].1@,
            self.keys()[i] == self.rows@[i].0@,
    {
        let k = self.rows@[i].0@;
        assert(self.keys()[i] == k);
        assert(self.keys().contains(k));
        let j = self.keys().index_of(k);
        assert(self.keys()[j] == k);
    }

    /// The empty table.
    pub fn new() -> (t: Self)
        ensures
            t.wf(),
            t@ == Map::<Seq<char>, V::V>::empty(),
    {
        let t = Table { rows: Vec::new() };
        proof {
            assert(t@ =~= Map::<Seq<char>, V::V>::empty());
        }
        t
    }

    /// The number of rows.
    pub fn len(&self) -> (n: usize)
        ensures
            n == self.keys().len(),
    {
        self.rows.len()
    }

    /// The key of row `i`.
    pub fn key_at(&self, i: usize) -> (k: &String)
        requires
            i < self.keys().len(),
        ensures
            k@ == self.keys()[i as int],
    {
        &self.rows[i].0
    }

    /// The value of row `i`.
    pub fn value_at(&self, i: usize) -> (v: &V)
        requires
            self.wf(),
            i < self.keys().len(),
        ensures
            self@.contains_key(self.keys()[i as int]),
            v@ == self@[self.keys()[i as int]],
    {
        proof { self.lemma_row(i as int); }
        &self.rows[i].1
    }

    /// The row that holds `key`, if there is one.
    pub fn find(&self, key: &str) -> (r: Option<usize>)
        requires
            self.wf(),
        ensures
            match r {
                Some(i) => i < self.keys().len() && self.keys()[i as int] == key@
                    && self@.contains_key(key@),
                None => !self@.contains_key(key@),
            },
    {
        let mut i: usize = 0;
        while i < self.rows.len()
            invariant
                self.wf(),
                i <= self.rows@.len(),
                forall|j: int| 0 <= j < i ==> self.keys()[j] != key@,
            decreases self.rows@.len() - i,
        {
            if text_eq(self.rows[i].0.as_str(), key) {
                proof { self.lemma_row(i as int); }
                return Some(i);
            }
            i = i + 1;
        }
        proof { assert(!self.keys().contains(key@)); }
        None
    }

    /// Whether `key` is in the table.
    pub fn contains(&self, key: &str) -> (r: bool)
        requires
            self.wf(),
        ensures
            r == self@.contains_key(key@),
    {
        self.find(key).is_some()
    }

    /// The value under `key`.
    pub fn get(&self, key: &str) -> (r: Option<&V>)
        requires
            self.wf(),
        ensures
            match r {
                Some(v) => self@.contains_key(key@) && v@ == self@[key@],
                None => !self@.contains_key(key@),
            },
    {
        match self.find(key) {
            Some(i) => Some(self.value_at(i)),
            None => None,
        }
    }

    /// Replaces the value of row `i`.
    pub fn set_at(&mut self, i: usize, value: V)
        requires
            old(self).wf(),
            i < old(self).keys().len(),
        ensures
            final(self).wf(),
            final(self).keys() == old(self).keys(),
            final(self)@ == old(self)@.insert(old(self).keys()[i as int], value@),
    {
        let ghost before = *self;
        let key = self.rows[i].0.clone();
        self.rows[i] = (key, value);
        proof {
            assert(self.keys() =~= before.keys());
            before.lemma_row(i as int);
            assert forall|k: Seq<char>| self@.contains_key(k) implies self@[k] == before@.insert(
                before.keys()[i as int],
                value@,
            )[k] by {
                let j = self.keys().index_of(k);
                self.lemma_row(j);
                before.lemma_row(j);
            }
            assert(self@ =~= before@.insert(before.keys()[i as int], value@));
        }
    }

    /// The positions of all rows, in the order of their keys.
    pub fn sorted(&self) -> (r: Vec<usize>)
        requires
            self.wf(),
        ensures
            key_order(r@, self.keys()),
            self.keys().len() <= usize::MAX,
            forall|i: int| 0 <= i < self.keys().len() ==> #[trigger] r@.contains(i as usize),
    {
        let mut r: Vec<usize> = Vec::new();
        let mut i: usize = 0;
        while i < self.rows.len()
            invariant
                self.wf(),
                i <= self.rows@.len(),
                self.rows@.len() == self.keys().len(),
                key_order(r@, self.keys()),
                forall|j: int| 0 <= j < r@.len() ==> #[trigger] r@[j] < i,
                forall|j: int| 0 <= j < i ==> #[trigger] r@.contains(j as usize),
            decreases self.rows@.len() - i,
        {
            let ghost before = r@;
            let ghost keys = self.keys();
            let mut p: usize = 0;
            while p < r.len() && !text_less(self.rows[i].0.as_str(), self.rows[r[p]].0.as_str())
                invariant
                    self.wf(),
                    r@ == before,
                    i < self.rows@.len(),
                    keys == self.keys(),
                    self.rows@.len() == keys.len(),
                    p <= r@.len(),
                    forall|j: int| 0 <= j < r@.len() ==> #[trigger] r@[j] < i,
                    forall|j: int|
                        0 <= j < p ==> !text_lt(keys[i as int], keys[#[trigger] r@[j] as int]),
                decreases r@.len() - p,
            {
                p = p + 1;
            }
            r.insert(p, i);
            proof {
                let key = keys[i as int];
                assert forall|j: int| 0 <= j < p implies text_lt(
                    keys[#[trigger] before[j] as int],
                    key,
                ) by {
                    assert(keys[before[j] as int] != key);
                    lemma_text_lt_total(keys[before[j] as int], key);
                }
                assert forall|j: int| p <= j < before.len() implies text_lt(
                    key,
                    keys[#[trigger] before[j] as int],
                ) by {
                    if j > p {
                        assert(text_lt(keys[before[p as int] as int], keys[before[j] as int]));
                        lemma_text_lt_transitive(
                            key,
                            keys[before[p as int] as int],
                            keys[before[j] as int],
                        );
                    }
                }
                assert forall|a: int, b: int| 0 <= a < b < r@.len() implies text_lt(
                    keys[#[trigger] r@[a] as int],
                    keys[#[trigger] r@[b] as int],
                ) by {
                    let a2 = if a < p { a } else { a - 1 };
                    let b2 = if b < p { b } else { b - 1 };
                    assert(a != p ==> r@[a] == before[a2]);
                    assert(b != p ==> r@[b] == before[b2]);
                }
                assert forall|j: int| 0 <= j < i + 1 implies #[trigger] r@.contains(
                    j as usize,
                ) by {
                    if j == i {
                        assert(r@[p as int] == i);
                    } else {
                        assert(before.contains(j as usize));
                        let q = choose|q: int| 0 <= q < before.len() && before[q] == j as usize;
                        let q2 = if q < p { q } else { q + 1 };
                        assert(r@[q2] == j as usize);
                    }
                }
            }
            i = i + 1;
        }
        r
    }

    /// Stores `value` under `key`, in place of any value there.
    pub fn insert(&mut self, key: &str, value: V)
        requires
            old(self).wf(),
        ensures
            final(self).wf(),
            final(self)@ == old(self)@.insert(key@, value@),
    {
        match self.find(key) {
            Some(i) => self.set_at(i, value),
            None => self.append_row(key, value),
        }
    }

    /// Appends a row under a key that is not in the table.
    fn append_row(&mut self, key: &str, value: V)
        requires
            old(self).wf(),
            !old(self)@.contains_key(key@),
        ensures
            final(self).wf(),
            final(self).keys() == old(self).keys().push(key@),
            final(self)@ == old(self)@.insert(key@, value@),
    {
        let ghost before = *self;
        self.rows.push((key.to_owned(), value));
        proof {
            assert(self.keys() =~= before.keys().push(key@));
            assert(self.wf()) by {
                assert forall|a: int, b: int|
                    0 <= a < self.keys().len() && 0 <= b < self.keys().len() && a
                        != b implies self.keys()[a] != self.keys()[b] by {
                    if b == before.keys().len() {
                        assert(before.keys().contains(before.keys()[a]));
                    }
                    if a == before.keys().len() {
                        assert(before.keys().contains(before.keys()[b]));
                    }
                }
            }
            let n = before.rows@.len() as int;
            assert(self.keys()[n] == key@);
            assert forall|k: Seq<char>|
                self@.contains_key(k) == before@.insert(key@, value@).contains_key(k) by {
                if before.keys().contains(k) {
                    let j = before.keys().index_of(k);
                    assert(self.keys()[j] == k);
                }
                if self.keys().contains(k) {
                    let j = self.keys().index_of(k);
                    if j < n {
                        assert(before.keys()[j] == k);
                    }
                }
            }
            assert forall|k: Seq<char>| self@.contains_key(k) implies self@[k] == before@.insert(
                key@,
                value@,
            )[k] by {
                let j = self.keys().index_of(k);
                self.lemma_row(j);
                if j < n {
                    before.lemma_row(j);
                    assert(before.keys().contains(before.keys()[j]));
                }
            }
            assert(self@ =~= before@.insert(key@, value@));
        }
    }

    /// Removes the row under `key` and returns its value.
    pub fn remove(&mut self, key: &str) -> (r: Option<V>)
        requires
            old(self).wf(),
        ensures
            final(self).wf(),
            final(self)@ == old(self)@.remove(key@),
            match r {
                Some(v) => old(self)@.contains_key(key@) && v@ == old(self)@[key@],
                None => !old(self)@.contains_key(key@),
            },
    {
        match self.find(key) {
            Some(i) => {
                let ghost before = *self;
                proof { self.lemma_row(i as int); }
                let row = self.rows.remove(i);
                proof {
                    assert(self.keys() =~= before.keys().remove(i as int));
                    assert forall|j: int| 0 <= j < self.rows@.len() implies self.rows@[j]
                        == before.rows@[if j < i { j } else { j + 1 }] by {}
                    assert(self.wf()) by {
                        assert forall|a: int, b: int|
                            0 <= a < self.keys().len() && 0 <= b < self.keys().len() && a
                                != b implies self.keys()[a] != self.keys()[b] by {
                            let a2 = if a < i { a } else { a + 1 };
                            let b2 = if b < i { b } else { b + 1 };
                            assert(before.keys()[a2] != before.keys()[b2]);
                        }
                    }
                    assert forall|k: Seq<char>|
                        self@.contains_key(k) == before@.remove(key@).contains_key(k) by {
                        if self.keys().contains(k) {
                            let j = self.keys().index_of(k);
                            let j2 = if j < i { j } else { j + 1 };
                            assert(before.keys()[j2] == k);
                            assert(before.keys()[j2] != before.keys()[i as int]);
                        }
                        if before.keys().contains(k) && k != key@ {
                            let j2 = before.keys().index_of(k);
                            let j = if j2 < i { j2 } else { j2 - 1 };
                            assert(self.keys()[j] == k);
                        }
                    }
                    assert forall|k: Seq<char>| self@.contains_key(k) implies self@[k]
                        == before@.remove(key@)[k] by {
                        let j = self.keys().index_of(k);
                        self.lemma_row(j);
                        let j2 = if j < i { j } else { j + 1 };
                        before.lemma_row(j2);
                    }
                    assert(self@ =~= before@.remove(key@));
                }
                Some(row.1)
            },
            None => {
                proof { assert(self@.remove(key@) =~= self@); }
                None
            },
        }
    }
}

} // verus!
