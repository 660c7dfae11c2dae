//! Classification of resolved slot identities into per-key results.
//!
//! A key resolves to `Some(slot)` when the container holds a value for it and
//! to `None` otherwise. [`slot_outcome`] says what the checked accessors
//! return for each position of such a resolution sequence: `NoValue` for an
//! absent key, `SameValue` when the same slot already appeared earlier in the
//! sequence, and `Ok` with the slot the first time the slot appears.

use vstd::prelude::*;

use crate::error::SplitMutError;

verus! {

/// The per-key result of a single resolution, before any aliasing check:
/// an absent key yields `NoValue`.
pub open spec fn resolve1(s: Option<usize>) -> Result<usize, SplitMutError> {
    match s {
        Some(i) => Ok(i),
        None => Err(SplitMutError::NoValue),
    }
}

/// One pairwise aliasing check: a later result `b` is demoted to `SameValue`
/// when it carries the same slot as an earlier successful result `a`.
pub open spec fn check_against(
    a: Result<usize, SplitMutError>,
    b: Result<usize, SplitMutError>,
) -> Result<usize, SplitMutError> {
    if a is Ok && b is Ok && a->Ok_0 == b->Ok_0 {
        Err(SplitMutError::SameValue)
    } else {
        b
    }
}

/// The result at position `i` of a left-to-right checked resolution of the
/// whole sequence `ids`: absence yields `NoValue` and never collides, and a
/// slot collides exactly when it appeared at any earlier position.
pub open spec fn slot_outcome(ids: Seq<Option<usize>>, i: int) -> Result<usize, SplitMutError>
    recommends
        0 <= i < ids.len(),
{
    match ids[i] {
        None => Err(SplitMutError::NoValue),
        Some(s) => if exists|j: int| 0 <= j < i && ids[j] == Some(s) {
            Err(SplitMutError::SameValue)
        } else {
            Ok(s)
        },
    }
}

/// Two successful outcomes of one checked resolution never carry the same
/// slot: the first occurrence of a slot succeeds and every later occurrence
/// is demoted, so all `Ok` results denote pairwise distinct values.
pub proof fn lemma_ok_slots_distinct(ids: Seq<Option<usize>>, i: int, j: int)
    requires
        0 <= i < j < ids.len(),
        slot_outcome(ids, i) is Ok,
        slot_outcome(ids, j) is Ok,
    ensures
        slot_outcome(ids, i)->Ok_0 != slot_outcome(ids, j)->Ok_0,
{
    let si = slot_outcome(ids, i)->Ok_0;
    let sj = slot_outcome(ids, j)->Ok_0;
    assert(ids[i] == Some(si));
    assert(ids[j] == Some(sj));
    if si == sj {
        assert(0 <= i < j && ids[i] == Some(sj));
        assert(slot_outcome(ids, j) is Err);
    }
}

/// The first position of a checked resolution has nothing to collide with.
pub proof fn lemma_outcome_pos0(ids: Seq<Option<usize>>)
    requires
        ids.len() >= 1,
    ensures
        slot_outcome(ids, 0) == resolve1(ids[0]),
{
}

/// The second position equals its bare resolution checked against the first
/// outcome.
pub proof fn lemma_outcome_pos1(ids: Seq<Option<usize>>)
    requires
        ids.len() >= 2,
    ensures
        slot_outcome(ids, 1) == check_against(slot_outcome(ids, 0), resolve1(ids[1])),
{
    match ids[1] {
        None => {},
        Some(s) => if ids[0] == Some(s) {
            assert(0 <= 0 < 1 && ids[0] == Some(s));
        } else {
            assert(forall|j: int| 0 <= j < 1 ==> ids[j] != Some(s)) by {
                assert(ids[0] != Some(s));
            }
        },
    }
}

/// The third position equals its bare resolution checked against the first
/// and second outcomes in turn.
pub proof fn lemma_outcome_pos2(ids: Seq<Option<usize>>)
    requires
        ids.len() >= 3,
    ensures
        slot_outcome(ids, 2) == check_against(
            slot_outcome(ids, 1),
            check_against(slot_outcome(ids, 0), resolve1(ids[2])),
        ),
{
    lemma_outcome_pos1(ids);
    match ids[2] {
        None => {},
        Some(s) => if ids[0] == Some(s) {
            assert(0 <= 0 < 2 && ids[0] == Some(s));
        } else if ids[1] == Some(s) {
            assert(0 <= 1 < 2 && ids[1] == Some(s));
        } else {
            assert(forall|j: int| 0 <= j < 2 ==> ids[j] != Some(s)) by {
                assert(ids[0] != Some(s));
                assert(ids[1] != Some(s));
            }
        },
    }
}

/// The fourth position equals its bare resolution checked against the first
/// three outcomes in turn.
pub proof fn lemma_outcome_pos3(ids: Seq<Option<usize>>)
    requires
        ids.len() >= 4,
    ensures
        slot_outcome(ids, 3) == check_against(
            slot_outcome(ids, 2),
            check_against(
                slot_outcome(ids, 1),
                check_against(slot_outcome(ids, 0), resolve1(ids[3])),
            ),
        ),
{
    lemma_outcome_pos1(ids);
    lemma_outcome_pos2(ids);
    match ids[3] {
        None => {},
        Some(s) => if ids[0] == Some(s) {
            assert(0 <= 0 < 3 && ids[0] == Some(s));
        } else if ids[1] == Some(s) {
            assert(0 <= 1 < 3 && ids[1] == Some(s));
        } else if ids[2] == Some(s) {
            assert(0 <= 2 < 3 && ids[2] == Some(s));
        } else {
            assert(forall|j: int| 0 <= j < 3 ==> ids[j] != Some(s)) by {
                assert(ids[0] != Some(s));
                assert(ids[1] != Some(s));
                assert(ids[2] != Some(s));
            }
        },
    }
}

/// Converts one resolved identity into its slot result.
pub fn to_r(s: Option<usize>) -> (r: Result<usize, SplitMutError>)
    ensures
        r == resolve1(s),
{
    match s {
        Some(i) => Ok(i),
        None => Err(SplitMutError::NoValue),
    }
}

/// Demotes `b` to `SameValue` when it succeeded with the same slot as the
/// earlier result `a`.
pub fn check_r(
    a: &Result<usize, SplitMutError>,
    b: Result<usize, SplitMutError>,
) -> (r: Result<usize, SplitMutError>)
    ensures
        r == check_against(*a, b),
{
    match (a, &b) {
        (Ok(aa), Ok(bb)) => {
            if aa == bb {
                return Err(SplitMutError::SameValue);
            }
        },
        _ => {},
    }
    b
}

} // verus!
