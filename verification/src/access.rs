//! The capability interface and the fixed-arity accessors derived from it.
//!
//! A container exposes two resolution primitives — a checked one and one
//! whose precondition demands that the key exists — together with a read and
//! a write primitive over resolved slots. Everything else here is derived
//! generically: the fixed-arity checked accessors classify each key with
//! [`slot_outcome`], and every slot they return with `Ok` is proved distinct
//! from every other, so the values those slots denote can be mutated
//! independently through `set_at`.

use vstd::prelude::*;

use crate::error::SplitMutError;
use crate::outcome::check_r;
use crate::outcome::lemma_ok_slots_distinct;
use crate::outcome::lemma_outcome_pos0;
use crate::outcome::lemma_outcome_pos1;
use crate::outcome::lemma_outcome_pos2;
use crate::outcome::lemma_outcome_pos3;
use crate::outcome::slot_outcome;
use crate::outcome::to_r;

verus! {

/// Both results of a pair are distinct whenever both succeed.
pub open spec fn distinct_ok(
    a: Result<usize, SplitMutError>,
    b: Result<usize, SplitMutError>,
) -> bool {
    a is Ok && b is Ok ==> a->Ok_0 != b->Ok_0
}

/// A container whose keys resolve to stable storage slots.
///
/// Implement the four primitives — `get1_mut`, `get1_unchecked_mut`,
/// `read_at` and `set_at` — and the checked accessors `get2_mut`, `get3_mut`
/// and `get4_mut` and their unchecked counterparts are provided; the session
/// accessors `get_muts` and `get_mut_iter` work over any implementation. A
/// primitive must not change which slot a key resolves to, so that a slot
/// issued earlier in the same borrow keeps denoting the same value.
pub trait SplitMut<K, V>: Sized {
    /// The container is in a state its primitives may be called in.
    spec fn wf(&self) -> bool;

    /// The storage slot that key `k` resolves to, if any.
    spec fn slot_of(&self, k: K) -> Option<usize>;

    /// Whether `s` denotes one of the container's storage slots.
    spec fn valid_slot(&self, s: usize) -> bool;

    /// The value stored in slot `s`.
    spec fn value_at(&self, s: usize) -> V;

    /// Checked single lookup: the identity of the slot `k` denotes, or
    /// `None` when the container holds no value for `k`.
    fn get1_mut(&self, k: K) -> (r: Option<usize>)
        requires
            self.wf(),
        ensures
            r == self.slot_of(k),
            (r matches Some(s) ==> self.valid_slot(s)),
    ;

    /// Unchecked single lookup: the caller must prove that `k` denotes a
    /// value; there is no runtime check.
    fn get1_unchecked_mut(&self, k: K) -> (r: usize)
        requires
            self.wf(),
            self.slot_of(k) is Some,
        ensures
            Some(r) == self.slot_of(k),
            self.valid_slot(r),
    ;

    /// Reads the value in slot `s`.
    fn read_at(&self, s: usize) -> (r: &V)
        requires
            self.wf(),
            self.valid_slot(s),
        ensures
            *r == self.value_at(s),
    ;

    /// Writes `v` into slot `s` and returns the value it replaces. No other
    /// slot changes, and no key resolves differently afterwards.
    fn set_at(&mut self, s: usize, v: V) -> (prev: V)
        requires
            old(self).wf(),
            old(self).valid_slot(s),
        ensures
            final(self).wf(),
            prev == old(self).value_at(s),
            final(self).value_at(s) == v,
            forall|t: usize|
                old(self).valid_slot(t) && t != s ==> final(self).value_at(t) == old(
                    self,
                ).value_at(t),
            forall|t: usize| final(self).valid_slot(t) <==> old(self).valid_slot(t),
            forall|k: K| final(self).slot_of(k) == old(self).slot_of(k),
    ;

    /// Resolves two keys at once and classifies each against the other:
    /// the slots of any two successful results are distinct.
    fn get2_mut(&self, k1: K, k2: K) -> (r: (
        Result<usize, SplitMutError>,
        Result<usize, SplitMutError>,
    ))
        requires
            self.wf(),
        ensures
            r.0 == slot_outcome(seq![self.slot_of(k1), self.slot_of(k2)], 0),
            r.1 == slot_outcome(seq![self.slot_of(k1), self.slot_of(k2)], 1),
            (r.0 matches Ok(s) ==> Some(s) == self.slot_of(k1) && self.valid_slot(s)),
            (r.1 matches Ok(s) ==> Some(s) == self.slot_of(k2) && self.valid_slot(s)),
            distinct_ok(r.0, r.1),
    {
        let ghost ids = seq![self.slot_of(k1), self.slot_of(k2)];
        let p1 = to_r(self.get1_mut(k1));
        let p2 = to_r(self.get1_mut(k2));
        let p2 = check_r(&p1, p2);
        proof {
            assert(ids[0] == self.slot_of(k1));
            assert(ids[1] == self.slot_of(k2));
            lemma_outcome_pos0(ids);
            lemma_outcome_pos1(ids);
            if slot_outcome(ids, 0) is Ok && slot_outcome(ids, 1) is Ok {
                lemma_ok_slots_distinct(ids, 0, 1);
            }
        }
        (p1, p2)
    }

    /// Resolves three keys at once and classifies each against all earlier
    /// ones: the slots of any two successful results are distinct.
    fn get3_mut(&self, k1: K, k2: K, k3: K) -> (r: (
        Result<usize, SplitMutError>,
        Result<usize, SplitMutError>,
        Result<usize, SplitMutError>,
    ))
        requires
            self.wf(),
        ensures
            r.0 == slot_outcome(seq![self.slot_of(k1), self.slot_of(k2), self.slot_of(k3)], 0),
            r.1 == slot_outcome(seq![self.slot_of(k1), self.slot_of(k2), self.slot_of(k3)], 1),
            r.2 == slot_outcome(seq![self.slot_of(k1), self.slot_of(k2), self.slot_of(k3)], 2),
            (r.0 matches Ok(s) ==> Some(s) == self.slot_of(k1) && self.valid_slot(s)),
            (r.1 matches Ok(s) ==> Some(s) == self.slot_of(k2) && self.valid_slot(s)),
            (r.2 matches Ok(s) ==> Some(s) == self.slot_of(k3) && self.valid_slot(s)),
            distinct_ok(r.0, r.1),
            distinct_ok(r.0, r.2),
            distinct_ok(r.1, r.2),
    {
        let ghost ids = seq![self.slot_of(k1), self.slot_of(k2), self.slot_of(k3)];
        let p1 = to_r(self.get1_mut(k1));
        let p2 = to_r(self.get1_mut(k2));
        let p3 = to_r(self.get1_mut(k3));
        let p2 = check_r(&p1, p2);
        let p3 = check_r(&p1, p3);
        let p3 = check_r(&p2, p3);
        proof {
            assert(ids[0] == self.slot_of(k1));
            assert(ids[1] == self.slot_of(k2));
            assert(ids[2] == self.slot_of(k3));
            lemma_outcome_pos0(ids);
            lemma_outcome_pos1(ids);
            lemma_outcome_pos2(ids);
            lemma_all_distinct(ids);
        }
        (p1, p2, p3)
    }

    /// Resolves four keys at once and classifies each against all earlier
    /// ones: the slots of any two successful results are distinct.
    fn get4_mut(&self, k1: K, k2: K, k3: K, k4: K) -> (r: (
        Result<usize, SplitMutError>,
        Result<usize, SplitMutError>,
        Result<usize, SplitMutError>,
        Result<usize, SplitMutError>,
    ))
        requires
            self.wf(),
        ensures
            r.0 == slot_outcome(
                seq![self.slot_of(k1), self.slot_of(k2), self.slot_of(k3), self.slot_of(k4)],
                0,
            ),
            r.1 == slot_outcome(
                seq![self.slot_of(k1), self.slot_of(k2), self.slot_of(k3), self.slot_of(k4)],
                1,
            ),
            r.2 == slot_outcome(
                seq![self.slot_of(k1), self.slot_of(k2), self.slot_of(k3), self.slot_of(k4)],
                2,
            ),
            r.3 == slot_outcome(
                seq![self.slot_of(k1), self.slot_of(k2), self.slot_of(k3), self.slot_of(k4)],
                3,
            ),
            (r.0 matches Ok(s) ==> Some(s) == self.slot_of(k1) && self.valid_slot(s)),
            (r.1 matches Ok(s) ==> Some(s) == self.slot_of(k2) && self.valid_slot(s)),
            (r.2 matches Ok(s) ==> Some(s) == self.slot_of(k3) && self.valid_slot(s)),
            (r.3 matches Ok(s) ==> Some(s) == self.slot_of(k4) && self.valid_slot(s)),
            distinct_ok(r.0, r.1),
            distinct_ok(r.0, r.2),
            distinct_ok(r.0, r.3),
            distinct_ok(r.1, r.2),
            distinct_ok(r.1, r.3),
            distinct_ok(r.2, r.3),
    {
        let ghost ids = seq![
            self.slot_of(k1),
            self.slot_of(k2),
            self.slot_of(k3),
            self.slot_of(k4),
        ];
        let p1 = to_r(self.get1_mut(k1));
        let p2 = to_r(self.get1_mut(k2));
        let p3 = to_r(self.get1_mut(k3));
        let p4 = to_r(self.get1_mut(k4));
        let p2 = check_r(&p1, p2);
        let p3 = check_r(&p1, p3);
        let p3 = check_r(&p2, p3);
        let p4 = check_r(&p1, p4);
        let p4 = check_r(&p2, p4);
        let p4 = check_r(&p3, p4);
        proof {
            assert(ids[0] == self.slot_of(k1));
            assert(ids[1] == self.slot_of(k2));
            assert(ids[2] == self.slot_of(k3));
            assert(ids[3] == self.slot_of(k4));
            lemma_outcome_pos0(ids);
            lemma_outcome_pos1(ids);
            lemma_outcome_pos2(ids);
            lemma_outcome_pos3(ids);
            lemma_all_distinct(ids);
        }
        (p1, p2, p3, p4)
    }

    /// Resolves two keys without any existence or aliasing check: the caller
    /// proves instead that both keys exist and denote distinct slots.
    fn get2_unchecked_mut(&self, k1: K, k2: K) -> (r: (usize, usize))
        requires
            self.wf(),
            self.slot_of(k1) is Some,
            self.slot_of(k2) is Some,
            self.slot_of(k1) != self.slot_of(k2),
        ensures
            Some(r.0) == self.slot_of(k1),
            Some(r.1) == self.slot_of(k2),
            self.valid_slot(r.0),
            self.valid_slot(r.1),
            r.0 != r.1,
    {
        (self.get1_unchecked_mut(k1), self.get1_unchecked_mut(k2))
    }

    /// Resolves three keys without any existence or aliasing check: the
    /// caller proves that all keys exist and denote pairwise distinct slots.
    fn get3_unchecked_mut(&self, k1: K, k2: K, k3: K) -> (r: (usize, usize, usize))
        requires
            self.wf(),
            self.slot_of(k1) is Some,
            self.slot_of(k2) is Some,
            self.slot_of(k3) is Some,
            self.slot_of(k1) != self.slot_of(k2),
            self.slot_of(k1) != self.slot_of(k3),
            self.slot_of(k2) != self.slot_of(k3),
        ensures
            Some(r.0) == self.slot_of(k1),
            Some(r.1) == self.slot_of(k2),
            Some(r.2) == self.slot_of(k3),
            self.valid_slot(r.0),
            self.valid_slot(r.1),
            self.valid_slot(r.2),
            r.0 != r.1 && r.0 != r.2 && r.1 != r.2,
    {
        (self.get1_unchecked_mut(k1), self.get1_unchecked_mut(k2), self.get1_unchecked_mut(k3))
    }

    /// Resolves four keys without any existence or aliasing check: the
    /// caller proves that all keys exist and denote pairwise distinct slots.
    fn get4_unchecked_mut(&self, k1: K, k2: K, k3: K, k4: K) -> (r: (usize, usize, usize, usize))
        requires
            self.wf(),
            self.slot_of(k1) is Some,
            self.slot_of(k2) is Some,
            self.slot_of(k3) is Some,
            self.slot_of(k4) is Some,
            self.slot_of(k1) != self.slot_of(k2),
            self.slot_of(k1) != self.slot_of(k3),
            self.slot_of(k1) != self.slot_of(k4),
            self.slot_of(k2) != self.slot_of(k3),
            self.slot_of(k2) != self.slot_of(k4),
            self.slot_of(k3) != self.slot_of(k4),
        ensures
            Some(r.0) == self.slot_of(k1),
            Some(r.1) == self.slot_of(k2),
            Some(r.2) == self.slot_of(k3),
            Some(r.3) == self.slot_of(k4),
            self.valid_slot(r.0),
            self.valid_slot(r.1),
            self.valid_slot(r.2),
            self.valid_slot(r.3),
            r.0 != r.1 && r.0 != r.2 && r.0 != r.3 && r.1 != r.2 && r.1 != r.3 && r.2 != r.3,
    {
        (
            self.get1_unchecked_mut(k1),
            self.get1_unchecked_mut(k2),
            self.get1_unchecked_mut(k3),
            self.get1_unchecked_mut(k4),
        )
    }
}

/// Every pair of successful outcomes of one resolution sequence carries
/// distinct slots.
proof fn lemma_all_distinct(ids: Seq<Option<usize>>)
    ensures
        forall|i: int, j: int|
            0 <= i < j < ids.len() && #[trigger] slot_outcome(ids, i) is Ok && #[trigger] slot_outcome(
                ids,
                j,
            ) is Ok ==> slot_outcome(ids, i)->Ok_0 != slot_outcome(ids, j)->Ok_0,
{
    assert forall|i: int, j: int|
        0 <= i < j < ids.len() && #[trigger] slot_outcome(ids, i) is Ok && #[trigger] slot_outcome(
            ids,
            j,
        ) is Ok implies slot_outcome(ids, i)->Ok_0 != slot_outcome(ids, j)->Ok_0 by {
        lemma_ok_slots_distinct(ids, i, j);
    }
}

} // verus!
