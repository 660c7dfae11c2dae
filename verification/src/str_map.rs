//! A key-addressed container adapter for string keys.
//!
//! Entries live at stable positions of an insertion-ordered store, so the
//! storage slot a key resolves to is the position of its entry: keys with
//! equal text resolve to the same slot and keys with different text to
//! distinct slots.

use vstd::prelude::*;

use crate::access::SplitMut;

verus! {

/// A map from string keys to values, addressed by the keys' text, holding at
/// most one value per key.
pub struct StrMap<V> {
    keys: Vec<String>,
    vals: Vec<V>,
}

impl<V> StrMap<V> {
    /// Creates an empty map.
    pub fn new() -> (r: StrMap<V>)
        ensures
            r.wf(),
            forall|k: String| r.slot_of(k) is None,
            forall|s: usize| !r.valid_slot(s),
    {
        let r = StrMap { keys: Vec::new(), vals: Vec::new() };
        proof {
            assert forall|k: String| r.slot_of(k) is None by {
                r.lemma_slot_of_none(k);
            }
        }
        r
    }

    /// Every position whose stored key has the text of `k` is the slot `k`
    /// resolves to; under well-formedness there is at most one such position.
    proof fn lemma_slot_of_some(&self, k: String, i: int)
        requires
            self.wf(),
            0 <= i < self.keys@.len(),
            self.keys@[i]@ == k@,
        ensures
            self.slot_of(k) == Some(i as usize),
    {
        assert(0 <= i < self.keys@.len() && self.keys@[i]@ == k@);
        let j = choose|j: int| 0 <= j < self.keys@.len() && self.keys@[j]@ == k@;
        if j != i {
            assert(self.keys@[i]@ == self.keys@[j]@);
        }
    }

    /// A key whose text no stored key has resolves to no slot.
    proof fn lemma_slot_of_none(&self, k: String)
        requires
            forall|j: int| 0 <= j < self.keys@.len() ==> (#[trigger] self.keys@[j]@) != k@,
        ensures
            self.slot_of(k) is None,
    {
        if self.slot_of(k) is Some {
            let j = choose|j: int| 0 <= j < self.keys@.len() && self.keys@[j]@ == k@;
            assert(self.keys@[j]@ != k@);
        }
    }

    /// Two maps over one key store resolve every key alike.
    proof fn lemma_same_keys_same_slots(&self, other: &StrMap<V>)
        requires
            self.wf(),
            other.wf(),
            self.keys@ == other.keys@,
        ensures
            forall|k: String| self.slot_of(k) == other.slot_of(k),
    {
        assert forall|k: String| self.slot_of(k) == other.slot_of(k) by {
            if exists|j: int| 0 <= j < self.keys@.len() && self.keys@[j]@ == k@ {
                let j = choose|j: int| 0 <= j < self.keys@.len() && self.keys@[j]@ == k@;
                self.lemma_slot_of_some(k, j);
                other.lemma_slot_of_some(k, j);
            } else {
                self.lemma_slot_of_none(k);
                other.lemma_slot_of_none(k);
            }
        }
    }

    /// Keys with the same text resolve to the same slot.
    pub proof fn lemma_same_text_same_slot(&self, k1: String, k2: String)
        requires
            self.wf(),
            k1@ == k2@,
        ensures
            self.slot_of(k1) == self.slot_of(k2),
    {
        if exists|j: int| 0 <= j < self.keys@.len() && self.keys@[j]@ == k1@ {
            let j = choose|j: int| 0 <= j < self.keys@.len() && self.keys@[j]@ == k1@;
            self.lemma_slot_of_some(k1, j);
            self.lemma_slot_of_some(k2, j);
        } else {
            self.lemma_slot_of_none(k1);
            assert forall|j: int| 0 <= j < self.keys@.len() implies (#[trigger] self.keys@[j]@)
                != k2@ by {
                assert(self.keys@[j]@ != k1@);
            }
            self.lemma_slot_of_none(k2);
        }
    }

    /// Keys with different text resolve to distinct slots, when they resolve
    /// at all: each key addresses at most one value of its own.
    pub proof fn lemma_distinct_text_distinct_slots(&self, k1: String, k2: String)
        requires
            self.wf(),
            k1@ != k2@,
        ensures
            self.slot_of(k1) is Some ==> self.slot_of(k1) != self.slot_of(k2),
    {
        if self.slot_of(k1) is Some && self.slot_of(k1) == self.slot_of(k2) {
            vstd::std_specs::vec::axiom_spec_len(&self.keys);
            let i = choose|j: int| 0 <= j < self.keys@.len() && self.keys@[j]@ == k1@;
            let j = choose|j: int| 0 <= j < self.keys@.len() && self.keys@[j]@ == k2@;
            self.lemma_slot_of_some(k1, i);
            self.lemma_slot_of_some(k2, j);
            assert(i == j);
            assert(k1@ == k2@);
        }
    }

    /// The position of the entry whose key has the text of `*k`, if any.
    fn find_slot(&self, k: &String) -> (r: Option<usize>)
        requires
            self.wf(),
        ensures
            r == self.slot_of(*k),
            (r matches Some(s) ==> s < self.vals@.len() && self.keys@[s as int]@ == k@),
    {
        let mut i: usize = 0;
        while i < self.keys.len()
            invariant
                self.wf(),
                0 <= i <= self.keys@.len(),
                forall|j: int| 0 <= j < i ==> (#[trigger] self.keys@[j]@) != k@,
            decreases self.keys@.len() - i,
        {
            if self.keys[i] == *k {
                proof {
                    self.lemma_slot_of_some(*k, i as int);
                }
                return Some(i);
            }
            i += 1;
        }
        proof {
            self.lemma_slot_of_none(*k);
        }
        None
    }

    /// Ordinary single lookup: a reference to the value stored for `k`.
    pub fn get(&self, k: &String) -> (r: Option<&V>)
        requires
            self.wf(),
        ensures
            r is Some <==> self.slot_of(*k) is Some,
            (r matches Some(v) ==> *v == self.value_at(self.slot_of(*k)->Some_0)),
    {
        match self.find_slot(k) {
            Some(s) => Some(self.read_at(s)),
            None => None,
        }
    }

    /// Binds `v` to `k`: the value stored in the slot of an already present
    /// key is replaced, and a new key is given a slot no key resolved to
    /// before. No other slot's value changes and no other key resolves
    /// differently.
    pub fn insert(&mut self, k: String, v: V)
        requires
            old(self).wf(),
        ensures
            final(self).wf(),
            final(self).slot_of(k) is Some,
            final(self).valid_slot(final(self).slot_of(k)->Some_0),
            final(self).value_at(final(self).slot_of(k)->Some_0) == v,
            old(self).slot_of(k) is Some ==> final(self).slot_of(k) == old(self).slot_of(k) && (
            forall|s: usize| final(self).valid_slot(s) <==> old(self).valid_slot(s)),
            forall|s: usize| old(self).valid_slot(s) ==> final(self).valid_slot(s),
            old(self).slot_of(k) is None ==> (forall|s: usize|
                old(self).valid_slot(s) ==> final(self).slot_of(k) != Some(s)),
            forall|k2: String|
                old(self).slot_of(k2) is Some ==> final(self).slot_of(k2) == old(self).slot_of(k2),
            forall|k2: String| k@ != k2@ ==> final(self).slot_of(k2) == old(self).slot_of(k2),
            forall|s: usize|
                old(self).valid_slot(s) && old(self).slot_of(k) != Some(s)
                    ==> final(self).value_at(s) == old(self).value_at(s),
    {
        match self.find_slot(&k) {
            Some(s) => {
                self.vals.set(s, v);
                proof {
                    old(self).lemma_same_keys_same_slots(self);
                    old(self).lemma_slot_of_some(k, s as int);
                }
            },
            None => {
                let n: usize = self.keys.len();
                self.keys.push(k);
                self.vals.push(v);
                proof {
                    assert forall|i: int, j: int| 0 <= i < j < self.keys@.len() implies (
                    #[trigger] self.keys@[i]@) != (#[trigger] self.keys@[j]@) by {
                        if j < n as int {
                            assert(old(self).keys@[i]@ != old(self).keys@[j]@);
                        } else {
                            assert(old(self).keys@[i]@ != k@);
                        }
                    }
                    assert(self.keys@[n as int] == k);
                    self.lemma_slot_of_some(k, n as int);
                    assert(final(self).slot_of(k) == Some(n));
                    assert(self.vals@[n as int] == v);
                    assert forall|k2: String| old(self).slot_of(k2) is Some implies final(self).slot_of(
                        k2,
                    ) == old(self).slot_of(k2) by {
                        let j = choose|j: int|
                            0 <= j < old(self).keys@.len() && old(self).keys@[j]@ == k2@;
                        old(self).lemma_slot_of_some(k2, j);
                        self.lemma_slot_of_some(k2, j);
                    }
                    assert forall|k2: String| k@ != k2@ implies final(self).slot_of(k2)
                        == old(self).slot_of(k2) by {
                        if old(self).slot_of(k2) is Some {
                            let j = choose|j: int|
                                0 <= j < old(self).keys@.len() && old(self).keys@[j]@ == k2@;
                            old(self).lemma_slot_of_some(k2, j);
                            self.lemma_slot_of_some(k2, j);
                        } else {
                            old(self).lemma_slot_of_none(k2);
                            assert forall|j: int| 0 <= j < self.keys@.len() implies (
                            #[trigger] self.keys@[j]@) != k2@ by {
                                if j < n as int {
                                    assert(old(self).keys@[j]@ != k2@);
                                }
                            }
                            self.lemma_slot_of_none(k2);
                        }
                    }
                }
            },
        }
    }
}

impl<V> SplitMut<String, V> for StrMap<V> {
    /// Both stores pair up and no two stored keys have the same text.
    closed spec fn wf(&self) -> bool {
        &&& self.keys@.len() == self.vals@.len()
        &&& forall|i: int, j: int|
            0 <= i < j < self.keys@.len() ==> (#[trigger] self.keys@[i]@) != (
            #[trigger] self.keys@[j]@)
    }

    /// The position of the entry whose stored key has the text of `k`.
    closed spec fn slot_of(&self, k: String) -> Option<usize> {
        if exists|j: int| 0 <= j < self.keys@.len() && self.keys@[j]@ == k@ {
            Some((choose|j: int| 0 <= j < self.keys@.len() && self.keys@[j]@ == k@) as usize)
        } else {
            None
        }
    }

    closed spec fn valid_slot(&self, s: usize) -> bool {
        s < self.vals@.len()
    }

    closed spec fn value_at(&self, s: usize) -> V {
        self.vals@[s as int]
    }

    fn get1_mut(&self, k: String) -> (r: Option<usize>) {
        self.find_slot(&k)
    }

    fn get1_unchecked_mut(&self, k: String) -> (r: usize) {
        match self.find_slot(&k) {
            Some(s) => s,
            None => {
                proof {
                    assert(false);
                }
                0
            },
        }
    }

    fn read_at(&self, s: usize) -> (r: &V) {
        &self.vals[s]
    }

    fn set_at(&mut self, s: usize, v: V) -> (prev: V) {
        let mut prev = v;
        self.vals.set_and_swap(s, &mut prev);
        proof {
            old(self).lemma_same_keys_same_slots(self);
        }
        prev
    }
}

} // verus!
