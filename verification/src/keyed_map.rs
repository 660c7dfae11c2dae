//! A key-addressed container adapter for keys compared with `==`.
//!
//! Entries live at stable positions of an insertion-ordered store, so the
//! storage slot a key resolves to is the position of its entry: equal keys
//! resolve to the same slot and distinct keys to distinct slots. The key type
//! supplies `==`; the map demands that it agree with its specification and
//! behave as an equivalence, which integer keys for instance do.

use vstd::prelude::*;
use vstd::std_specs::cmp::PartialEqSpec;

use crate::access::SplitMut;

verus! {

/// Key equality means what its specification says and behaves as an
/// equivalence: every key equals itself, and equality is symmetric and
/// carries over transitively.
pub open spec fn eq_well_behaved<K: PartialEq>() -> bool {
    &&& K::obeys_eq_spec()
    &&& forall|x: K| #[trigger] x.eq_spec(&x)
    &&& forall|x: K, y: K| #[trigger] x.eq_spec(&y) ==> y.eq_spec(&x)
    &&& forall|x: K, y: K, z: K|
        #![trigger x.eq_spec(&y), y.eq_spec(&z)]
        x.eq_spec(&y) && y.eq_spec(&z) ==> x.eq_spec(&z)
}

/// A map from keys to values, addressed by key equality, holding at most one
/// value per key.
pub struct KeyedMap<K: PartialEq, V> {
    keys: Vec<K>,
    vals: Vec<V>,
}

impl<K: PartialEq, V> KeyedMap<K, V> {
    /// Creates an empty map.
    pub fn new() -> (r: KeyedMap<K, V>)
        ensures
            eq_well_behaved::<K>() ==> r.wf(),
            forall|k: K| r.slot_of(k) is None,
            forall|s: usize| !r.valid_slot(s),
    {
        let r = KeyedMap { keys: Vec::new(), vals: Vec::new() };
        proof {
            assert forall|k: K| r.slot_of(k) is None by {
                r.lemma_slot_of_none(k);
            }
        }
        r
    }

    /// Every position whose stored key equals `k` is the slot `k` resolves
    /// to; under well-formedness there is at most one such position.
    proof fn lemma_slot_of_some(&self, k: K, i: int)
        requires
            self.wf(),
            0 <= i < self.keys@.len(),
            self.keys@[i].eq_spec(&k),
        ensures
            self.slot_of(k) == Some(i as usize),
    {
        assert(0 <= i < self.keys@.len() && self.keys@[i].eq_spec(&k));
        let j = choose|j: int| 0 <= j < self.keys@.len() && self.keys@[j].eq_spec(&k);
        if j != i {
            assert(self.keys@[j].eq_spec(&k));
            assert(k.eq_spec(&self.keys@[j]));
            assert(self.keys@[i].eq_spec(&self.keys@[j]));
            if i < j {
                assert(!self.keys@[i].eq_spec(&self.keys@[j]));
            } else {
                assert(self.keys@[j].eq_spec(&self.keys@[i]));
                assert(!self.keys@[j].eq_spec(&self.keys@[i]));
            }
        }
    }

    /// A key no stored key equals resolves to no slot.
    proof fn lemma_slot_of_none(&self, k: K)
        requires
            forall|j: int| 0 <= j < self.keys@.len() ==> !(#[trigger] self.keys@[j].eq_spec(&k)),
        ensures
            self.slot_of(k) is None,
    {
        if self.slot_of(k) is Some {
            let j = choose|j: int| 0 <= j < self.keys@.len() && self.keys@[j].eq_spec(&k);
            assert(!self.keys@[j].eq_spec(&k));
        }
    }

    /// Two maps over one key store resolve every key alike.
    proof fn lemma_same_keys_same_slots(&self, other: &KeyedMap<K, V>)
        requires
            self.wf(),
            other.wf(),
            self.keys@ == other.keys@,
        ensures
            forall|k: K| self.slot_of(k) == other.slot_of(k),
    {
        assert forall|k: K| self.slot_of(k) == other.slot_of(k) by {
            if exists|j: int| 0 <= j < self.keys@.len() && self.keys@[j].eq_spec(&k) {
                let j = choose|j: int| 0 <= j < self.keys@.len() && self.keys@[j].eq_spec(&k);
                self.lemma_slot_of_some(k, j);
                other.lemma_slot_of_some(k, j);
            } else {
                self.lemma_slot_of_none(k);
                other.lemma_slot_of_none(k);
            }
        }
    }

    /// Keys that are equal resolve to the same slot.
    pub proof fn lemma_equal_keys_same_slot(&self, k1: K, k2: K)
        requires
            self.wf(),
            k1.eq_spec(&k2),
        ensures
            self.slot_of(k1) == self.slot_of(k2),
    {
        if exists|j: int| 0 <= j < self.keys@.len() && self.keys@[j].eq_spec(&k1) {
            let j = choose|j: int| 0 <= j < self.keys@.len() && self.keys@[j].eq_spec(&k1);
            assert(self.keys@[j].eq_spec(&k2));
            self.lemma_slot_of_some(k1, j);
            self.lemma_slot_of_some(k2, j);
        } else {
            assert(k2.eq_spec(&k1));
            self.lemma_slot_of_none(k1);
            assert forall|j: int| 0 <= j < self.keys@.len() implies !(
            #[trigger] self.keys@[j].eq_spec(&k2)) by {
                assert(!self.keys@[j].eq_spec(&k1));
            }
            self.lemma_slot_of_none(k2);
        }
    }

    /// Keys that are not equal resolve to distinct slots, when they resolve
    /// at all: each key addresses at most one value of its own.
    pub proof fn lemma_distinct_keys_distinct_slots(&self, k1: K, k2: K)
        requires
            self.wf(),
            !k1.eq_spec(&k2),
        ensures
            self.slot_of(k1) is Some ==> self.slot_of(k1) != self.slot_of(k2),
    {
        if self.slot_of(k1) is Some && self.slot_of(k1) == self.slot_of(k2) {
            vstd::std_specs::vec::axiom_spec_len(&self.keys);
            let i = choose|j: int| 0 <= j < self.keys@.len() && self.keys@[j].eq_spec(&k1);
            let j = choose|j: int| 0 <= j < self.keys@.len() && self.keys@[j].eq_spec(&k2);
            self.lemma_slot_of_some(k1, i);
            self.lemma_slot_of_some(k2, j);
            assert(i == j);
            assert(k1.eq_spec(&self.keys@[i]));
            assert(k1.eq_spec(&k2));
        }
    }

    /// The position of the entry whose key equals `*k`, if there is one.
    fn find_slot(&self, k: &K) -> (r: Option<usize>)
        requires
            self.wf(),
        ensures
            r == self.slot_of(*k),
            (r matches Some(s) ==> s < self.vals@.len() && self.keys@[s as int].eq_spec(k)),
    {
        let mut i: usize = 0;
        while i < self.keys.len()
            invariant
                self.wf(),
                0 <= i <= self.keys@.len(),
                forall|j: int| 0 <= j < i ==> !(#[trigger] self.keys@[j].eq_spec(k)),
            decreases self.keys@.len() - i,
        {
            if self.keys[i] == *k {
                proof {
                    self.lemma_slot_of_some(*k, i as int);
                }
                return Some(i);
            }
            i += 1;
        }
        proof {
            self.lemma_slot_of_none(*k);
        }
        None
    }

    /// Ordinary single lookup: a reference to the value stored for `k`.
    pub fn get(&self, k: &K) -> (r: Option<&V>)
        requires
            self.wf(),
        ensures
            r is Some <==> self.slot_of(*k) is Some,
            (r matches Some(v) ==> *v == self.value_at(self.slot_of(*k)->Some_0)),
    {
        match self.find_slot(k) {
            Some(s) => Some(self.read_at(s)),
            None => None,
        }
    }

    /// Binds `v` to `k`: the value stored in the slot of an already present
    /// key is replaced, and a new key is given a slot no key resolved to
    /// before. No other slot's value changes and no other key resolves
    /// differently.
    pub fn insert(&mut self, k: K, v: V)
        requires
            old(self).wf(),
        ensures
            final(self).wf(),
            final(self).slot_of(k) is Some,
            final(self).valid_slot(final(self).slot_of(k)->Some_0),
            final(self).value_at(final(self).slot_of(k)->Some_0) == v,
            old(self).slot_of(k) is Some ==> final(self).slot_of(k) == old(self).slot_of(k) && (
            forall|s: usize| final(self).valid_slot(s) <==> old(self).valid_slot(s)),
            forall|s: usize| old(self).valid_slot(s) ==> final(self).valid_slot(s),
            old(self).slot_of(k) is None ==> (forall|s: usize|
                old(self).valid_slot(s) ==> final(self).slot_of(k) != Some(s)),
            forall|k2: K|
                old(self).slot_of(k2) is Some ==> final(self).slot_of(k2) == old(self).slot_of(k2),
            forall|k2: K|
                !k.eq_spec(&k2) ==> final(self).slot_of(k2) == old(self).slot_of(k2),
            forall|s: usize|
                old(self).valid_slot(s) && old(self).slot_of(k) != Some(s)
                    ==> final(self).value_at(s) == old(self).value_at(s),
    {
        match self.find_slot(&k) {
            Some(s) => {
                self.vals.set(s, v);
                proof {
                    old(self).lemma_same_keys_same_slots(self);
                    old(self).lemma_slot_of_some(k, s as int);
                }
            },
            None => {
                let n: usize = self.keys.len();
                self.keys.push(k);
                self.vals.push(v);
                proof {
                    assert forall|i: int, j: int| 0 <= i < j < self.keys@.len() implies !(
                    #[trigger] self.keys@[i].eq_spec(&self.keys@[j])) by {
                        if j < n as int {
                            assert(!old(self).keys@[i].eq_spec(&old(self).keys@[j]));
                        } else {
                            assert(!old(self).keys@[i].eq_spec(&k));
                        }
                    }
                    assert(self.keys@[n as int] == k);
                    assert(self.keys@[n as int].eq_spec(&k));
                    self.lemma_slot_of_some(k, n as int);
                    assert(final(self).slot_of(k) == Some(n));
                    assert(self.vals@[n as int] == v);
                    assert forall|k2: K| old(self).slot_of(k2) is Some implies final(self).slot_of(
                        k2,
                    ) == old(self).slot_of(k2) by {
                        let j = choose|j: int|
                            0 <= j < old(self).keys@.len() && old(self).keys@[j].eq_spec(&k2);
                        old(self).lemma_slot_of_some(k2, j);
                        self.lemma_slot_of_some(k2, j);
                    }
                    assert forall|k2: K| !k.eq_spec(&k2) implies final(self).slot_of(k2) == old(
                        self,
                    ).slot_of(k2) by {
                        if old(self).slot_of(k2) is Some {
                            let j = choose|j: int|
                                0 <= j < old(self).keys@.len() && old(self).keys@[j].eq_spec(&k2);
                            old(self).lemma_slot_of_some(k2, j);
                            self.lemma_slot_of_some(k2, j);
                        } else {
                            old(self).lemma_slot_of_none(k2);
                            assert forall|j: int| 0 <= j < self.keys@.len() implies !(
                            #[trigger] self.keys@[j].eq_spec(&k2)) by {
                                if j < n as int {
                                    assert(!old(self).keys@[j].eq_spec(&k2));
                                }
                            }
                            self.lemma_slot_of_none(k2);
                        }
                    }
                }
            },
        }
    }
}

impl<K: PartialEq, V> SplitMut<K, V> for KeyedMap<K, V> {
    /// Key equality is well behaved, both stores pair up, and no two stored
    /// keys are equal.
    closed spec fn wf(&self) -> bool {
        &&& eq_well_behaved::<K>()
        &&& self.keys@.len() == self.vals@.len()
        &&& forall|i: int, j: int|
            0 <= i < j < self.keys@.len() ==> !(#[trigger] self.keys@[i].eq_spec(
                &self.keys@[j],
            ))
    }

    /// The position of the entry whose stored key equals `k`.
    closed spec fn slot_of(&self, k: K) -> Option<usize> {
        if exists|j: int| 0 <= j < self.keys@.len() && self.keys@[j].eq_spec(&k) {
            Some(
                (choose|j: int| 0 <= j < self.keys@.len() && self.keys@[j].eq_spec(&k)) as usize,
            )
        } else {
            None
        }
    }

    closed spec fn valid_slot(&self, s: usize) -> bool {
        s < self.vals@.len()
    }

    closed spec fn value_at(&self, s: usize) -> V {
        self.vals@[s as int]
    }

    fn get1_mut(&self, k: K) -> (r: Option<usize>) {
        self.find_slot(&k)
    }

    fn get1_unchecked_mut(&self, k: K) -> (r: usize) {
        match self.find_slot(&k) {
            Some(s) => s,
            None => {
                proof {
                    assert(false);
                }
                0
            },
        }
    }

    fn read_at(&self, s: usize) -> (r: &V) {
        &self.vals[s]
    }

    fn set_at(&mut self, s: usize, v: V) -> (prev: V) {
        let mut prev = v;
        self.vals.set_and_swap(s, &mut prev);
        proof {
            old(self).lemma_same_keys_same_slots(self);
        }
        prev
    }
}

} // verus!
