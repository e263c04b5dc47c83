//! A keyed table from principals to values: the per-address part of a
//! contract's persistent state.

use crate::address::Address;
use crate::sums::amounts;
use crate::sums::lemma_sum_insert;
use crate::sums::sum_of;
use vstd::prelude::*;

verus! {

/// A finite map from addresses to values of type `V`.
///
/// Entries are kept in the order in which their keys were first written; no
/// key occurs twice. The view is the map from each key's bytes to its value.
pub struct AddressMap<V> {
    keys: Vec<Address>,
    values: Vec<V>,
}

impl<V> View for AddressMap<V> {
    type V = Map<Seq<u8>, V>;

    closed spec fn view(&self) -> Map<Seq<u8>, V> {
        Map::new(
            |k: Seq<u8>| self.slot_of(k).is_some(),
            |k: Seq<u8>| self.values@[self.slot_of(k).unwrap()],
        )
    }
}

impl<V> AddressMap<V> {
    /// Whether slot `i` holds the key `k`.
    spec fn holds(&self, i: int, k: Seq<u8>) -> bool {
        0 <= i < self.keys@.len() && self.keys@[i]@ == k
    }

    /// The slot that holds `k`, if any does.
    spec fn slot_of(&self, k: Seq<u8>) -> Option<int> {
        if exists|i: int| self.holds(i, k) {
            Some(choose|i: int| self.holds(i, k))
        } else {
            None
        }
    }

    /// The table's invariant: one value per key, no key twice, finitely many.
    pub closed spec fn wf(&self) -> bool {
        &&& self.keys@.len() == self.values@.len()
        &&& forall|i: int, j: int|
            0 <= j < self.keys@.len() && self.holds(i, self.keys@[j]@) ==> i == j
        &&& self@.dom().finite()
        &&& self@.dom().len() == self.keys@.len()
    }

    /// The key that was written `i`-th, counting from 0.
    pub closed spec fn key_at(&self, i: int) -> Seq<u8> {
        self.keys@[i]@
    }

    /// The keys of a table are enumerated by `key_at`, each once.
    pub proof fn lemma_keys_are_enumerated(&self)
        requires
            self.wf(),
        ensures
            self@.dom().finite(),
            forall|i: int|
                0 <= i < self@.dom().len() ==> self@.dom().contains(#[trigger] self.key_at(i)),
            forall|i: int, j: int|
                0 <= i < j < self@.dom().len() ==> self.key_at(i) != self.key_at(j),
            forall|k: Seq<u8>|
                self@.dom().contains(k) ==> exists|i: int|
                    0 <= i < self@.dom().len() && #[trigger] self.key_at(i) == k,
    {
        assert forall|i: int| 0 <= i < self@.dom().len() implies self@.dom().contains(
            #[trigger] self.key_at(i),
        ) by {
            self.lemma_slot(i);
        }
        assert forall|i: int, j: int| 0 <= i < j < self@.dom().len() implies self.key_at(i)
            != self.key_at(j) by {
            if self.key_at(i) == self.key_at(j) {
                assert(self.holds(i, self.keys@[j]@));
            }
        }
        assert forall|k: Seq<u8>| self@.dom().contains(k) implies exists|i: int|
            0 <= i < self@.dom().len() && #[trigger] self.key_at(i) == k by {
            let i = choose|i: int| self.holds(i, k);
            assert(self.holds(i, k));
            assert(self.key_at(i) == k);
        }
    }

    /// In a well-formed table, the slot of a key that is present is the one
    /// slot that holds it.
    proof fn lemma_slot(&self, i: int)
        requires
            self.wf(),
            0 <= i < self.keys@.len(),
        ensures
            self.slot_of(self.keys@[i]@) == Some(i),
            self@.dom().contains(self.keys@[i]@),
            self@[self.keys@[i]@] == self.values@[i],
    {
        let k = self.keys@[i]@;
        assert(self.holds(i, k));
        let c = choose|c: int| self.holds(c, k);
        assert(self.holds(c, k));
    }

    /// The empty table.
    pub fn new() -> (m: Self)
        ensures
            m.wf(),
            m@ == Map::<Seq<u8>, V>::empty(),
    {
        let m = AddressMap { keys: Vec::new(), values: Vec::new() };
        assert(m@ =~= Map::<Seq<u8>, V>::empty()) by {
            assert forall|k: Seq<u8>| !m@.dom().contains(k) by {
                if exists|i: int| m.holds(i, k) {
                    let i = choose|i: int| m.holds(i, k);
                    assert(m.holds(i, k));
                }
            }
        }
        m
    }

    /// The slot that holds `key`, found by scanning the keys in order.
    fn position(&self, key: &Address) -> (r: Option<usize>)
        requires
            self.wf(),
        ensures
            match r {
                Some(i) => self.holds(i as int, key@),
                None => forall|i: int| !self.holds(i, key@),
            },
    {
        let mut i: usize = 0;
        while i < self.keys.len()
            invariant
                i <= self.keys@.len(),
                forall|j: int| 0 <= j < i ==> !self.holds(j, key@),
            decreases self.keys@.len() - i,
        {
            if self.keys[i].same(key) {
                return Some(i);
            }
            i += 1;
        }
        None
    }

    /// The number of keys.
    pub fn len(&self) -> (n: usize)
        requires
            self.wf(),
        ensures
            n == self@.dom().len(),
    {
        self.keys.len()
    }

    /// The key that was written `i`-th, counting from 0, and its value.
    pub fn entry(&self, i: usize) -> (r: (&Address, &V))
        requires
            self.wf(),
            i < self@.dom().len(),
        ensures
            r.0@ == self.key_at(i as int),
            self@.dom().contains(r.0@),
            *r.1 == self@[r.0@],
    {
        proof {
            self.lemma_slot(i as int);
        }
        (&self.keys[i], &self.values[i])
    }

    /// Whether `key` has a value.
    pub fn contains(&self, key: &Address) -> (r: bool)
        requires
            self.wf(),
        ensures
            r == self@.dom().contains(key@),
    {
        match self.position(key) {
            Some(i) => {
                proof {
                    self.lemma_slot(i as int);
                }
                true
            },
            None => false,
        }
    }

    /// The value under `key`, if it has one.
    pub fn get(&self, key: &Address) -> (r: Option<&V>)
        requires
            self.wf(),
        ensures
            match r {
                Some(v) => self@.dom().contains(key@) && *v == self@[key@],
                None => !self@.dom().contains(key@),
            },
    {
        match self.position(key) {
            Some(i) => {
                proof {
                    self.lemma_slot(i as int);
                }
                Some(&self.values[i])
            },
            None => None,
        }
    }

    /// Writes `value` under `key`, replacing what it held.
    pub fn set(&mut self, key: Address, value: V)
        requires
            old(self).wf(),
        ensures
            final(self).wf(),
            final(self)@ == old(self)@.insert(key@, value),
    {
        let found = self.position(&key);
        match found {
            Some(i) => {
                self.values.set(i, value);
                proof {
                    let before = *old(self);
                    let after = *self;
                    assert forall|k: Seq<u8>| after.slot_of(k) == before.slot_of(k) by {
                        assert forall|j: int| after.holds(j, k) == before.holds(j, k) by {}
                    }
                    before.lemma_slot(i as int);
                    assert(after@ =~= before@.insert(key@, value));
                    assert(after@.dom() =~= before@.dom());
                    assert forall|a: int, b: int|
                        0 <= b < after.keys@.len() && after.holds(a, after.keys@[b]@) implies a == b by {
                        assert(before.holds(a, before.keys@[b]@));
                    }
                }
            },
            None => {
                self.keys.push(key);
                self.values.push(value);
                proof {
                    let before = *old(self);
                    let after = *self;
                    let n = before.keys@.len() as int;
                    assert(after.holds(n, key@));
                    assert forall|k: Seq<u8>| k != key@ implies after.slot_of(k) == before.slot_of(k) by {
                        assert forall|j: int| after.holds(j, k) == before.holds(j, k) by {}
                    }
                    assert forall|j: int| after.holds(j, key@) implies j == n by {
                        if j != n {
                            assert(before.holds(j, key@));
                        }
                    }
                    assert(after.slot_of(key@) == Some(n));
                    assert forall|k: Seq<u8>| k != key@ && before.slot_of(k).is_some() implies
                        after.values@[after.slot_of(k).unwrap()] == before.values@[before.slot_of(k).unwrap()] by {
                        let c = before.slot_of(k).unwrap();
                        assert(before.holds(c, k));
                    }
                    assert(after@ =~= before@.insert(key@, value));
                    assert forall|a: int, b: int|
                        0 <= b < after.keys@.len() && after.holds(a, after.keys@[b]@) implies a == b by {
                        if b < n {
                            assert(before.holds(b, before.keys@[b]@));
                            if a == n {
                                assert(before.holds(b, key@));
                            } else {
                                assert(before.holds(a, before.keys@[b]@));
                            }
                        } else {
                            if a != n {
                                assert(before.holds(a, key@));
                            }
                        }
                    }
                }
            },
        }
    }
}

impl AddressMap<u64> {
    /// The amounts in the first `n` slots, by key.
    spec fn partial(&self, n: int) -> Map<Seq<u8>, nat>
        decreases n,
    {
        if n <= 0 {
            Map::empty()
        } else {
            self.partial(n - 1).insert(self.keys@[n - 1]@, self.values@[n - 1] as nat)
        }
    }

    /// The first `n` slots hold exactly the keys in them, each with its
    /// amount, and their total is at most `n` of the largest amounts.
    proof fn lemma_partial(&self, n: int)
        requires
            self.wf(),
            0 <= n <= self.keys@.len(),
        ensures
            self.partial(n).dom().finite(),
            forall|k: Seq<u8>|
                self.partial(n).dom().contains(k) <==> exists|j: int| 0 <= j < n && self.holds(j, k),
            forall|j: int|
                0 <= j < n ==> self.partial(n)[self.keys@[j]@] == self.values@[j] as nat,
            sum_of(self.partial(n)) <= n * u64::MAX,
            n > 0 ==> sum_of(self.partial(n)) == sum_of(self.partial(n - 1)) + self.values@[n - 1],
        decreases n,
    {
        if n > 0 {
            self.lemma_partial(n - 1);
            let before = self.partial(n - 1);
            let k = self.keys@[n - 1]@;
            assert(self.holds(n - 1, k));
            if before.dom().contains(k) {
                let j = choose|j: int| 0 <= j < n - 1 && self.holds(j, k);
                assert(self.holds(j, self.keys@[n - 1]@));
            }
            lemma_sum_insert(before, k, self.values@[n - 1] as nat);
            assert forall|j: int| 0 <= j < n implies self.partial(n)[self.keys@[j]@]
                == self.values@[j] as nat by {
                if j < n - 1 && self.keys@[j]@ == k {
                    assert(self.holds(j, self.keys@[n - 1]@));
                }
            }
            assert forall|x: Seq<u8>| self.partial(n).dom().contains(x) implies exists|j: int|
                0 <= j < n && self.holds(j, x) by {
                if x == k {
                    assert(self.holds(n - 1, x));
                } else {
                    let j = choose|j: int| 0 <= j < n - 1 && self.holds(j, x);
                    assert(0 <= j < n && self.holds(j, x));
                }
            }
        } else {
            assert(sum_of(self.partial(n)) == 0);
        }
    }

    /// The sum of all amounts in the table.
    pub fn total(&self) -> (r: u128)
        requires
            self.wf(),
        ensures
            r == sum_of(amounts(self@)),
    {
        let mut sum: u128 = 0;
        let mut i: usize = 0;
        while i < self.values.len()
            invariant
                self.wf(),
                i <= self.values@.len(),
                sum == sum_of(self.partial(i as int)),
                sum <= i * u64::MAX,
            decreases self.values@.len() - i,
        {
            proof {
                self.lemma_partial(i as int + 1);
            }
            sum = sum + self.values[i] as u128;
            i += 1;
        }
        proof {
            let n = self.keys@.len() as int;
            self.lemma_partial(n);
            assert forall|k: Seq<u8>| self@.dom().contains(k) implies self.partial(n).dom().contains(k)
                && self.partial(n)[k] == self@[k] as nat by {
                let j = choose|j: int| self.holds(j, k);
                assert(self.holds(j, k));
                self.lemma_slot(j);
            }
            assert forall|k: Seq<u8>| self.partial(n).dom().contains(k) implies self@.dom().contains(
                k,
            ) by {
                let j = choose|j: int| 0 <= j < n && self.holds(j, k);
                assert(self.holds(j, k));
            }
            assert(self.partial(n) =~= amounts(self@));
        }
        sum
    }
}

} // verus!
