//! Index-keyed container adapters: growable arrays and double-ended queues.
//!
//! For a sequence the storage slot a key resolves to is the index itself, so
//! the slot is stable as long as the sequence's length does not change, which
//! the primitives here guarantee.

use vstd::pervasive::VecAdditionalExecFns;
use vstd::prelude::*;

use crate::access::SplitMut;

verus! {

impl<V> SplitMut<usize, V> for Vec<V> {
    open spec fn wf(&self) -> bool {
        true
    }

    open spec fn slot_of(&self, k: usize) -> Option<usize> {
        if k < self@.len() {
            Some(k)
        } else {
            None
        }
    }

    open spec fn valid_slot(&self, s: usize) -> bool {
        s < self@.len()
    }

    open spec fn value_at(&self, s: usize) -> V {
        self@[s as int]
    }

    fn get1_mut(&self, k: usize) -> (r: Option<usize>) {
        if k < self.len() {
            Some(k)
        } else {
            None
        }
    }

    fn get1_unchecked_mut(&self, k: usize) -> (r: usize) {
        k
    }

    fn read_at(&self, s: usize) -> (r: &V) {
        &self[s]
    }

    fn set_at(&mut self, s: usize, v: V) -> (prev: V) {
        let mut prev = v;
        self.set_and_swap(s, &mut prev);
        prev
    }
}

impl<V> SplitMut<usize, V> for std::collections::VecDeque<V> {
    open spec fn wf(&self) -> bool {
        true
    }

    open spec fn slot_of(&self, k: usize) -> Option<usize> {
        if k < self@.len() {
            Some(k)
        } else {
            None
        }
    }

    open spec fn valid_slot(&self, s: usize) -> bool {
        s < self@.len()
    }

    open spec fn value_at(&self, s: usize) -> V {
        self@[s as int]
    }

    fn get1_mut(&self, k: usize) -> (r: Option<usize>) {
        if k < self.len() {
            Some(k)
        } else {
            None
        }
    }

    fn get1_unchecked_mut(&self, k: usize) -> (r: usize) {
        k
    }

    fn read_at(&self, s: usize) -> (r: &V) {
        &self[s]
    }

    fn set_at(&mut self, s: usize, v: V) -> (prev: V) {
        let prev = match self.remove(s) {
            Some(prev) => prev,
            None => {
                proof {
                    assert(false);
                }
                return v;
            },
        };
        self.insert(s, v);
        proof {
            assert(self@ =~= old(self)@.update(s as int, v));
        }
        prev
    }
}

} // verus!
