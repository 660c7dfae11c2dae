//! The guarantees of the checked accessors, stated once over the
//! classification and session specifications that every accessor's contract
//! uses.

use vstd::prelude::*;

use crate::access::SplitMut;
use crate::error::SplitMutError;
use crate::outcome::slot_outcome;
use crate::session::at_issued;
use crate::session::at_outcome;
use crate::session::session_results;

verus! {

/// Two keys that both exist and denote distinct slots both succeed in one
/// checked pair resolution, each with its own slot.
pub proof fn lemma_get2_distinct_ok<K, V, A: SplitMut<K, V>>(c: A, k1: K, k2: K)
    requires
        c.slot_of(k1) is Some,
        c.slot_of(k2) is Some,
        c.slot_of(k1) != c.slot_of(k2),
    ensures
        slot_outcome(seq![c.slot_of(k1), c.slot_of(k2)], 0) == Ok::<usize, SplitMutError>(
            c.slot_of(k1)->Some_0,
        ),
        slot_outcome(seq![c.slot_of(k1), c.slot_of(k2)], 1) == Ok::<usize, SplitMutError>(
            c.slot_of(k2)->Some_0,
        ),
{
    let ids = seq![c.slot_of(k1), c.slot_of(k2)];
    let s2 = c.slot_of(k2)->Some_0;
    assert(forall|j: int| 0 <= j < 1 ==> ids[j] != Some(s2)) by {
        assert(ids[0] != Some(s2));
    }
}

/// One existing key given twice to a checked pair resolution succeeds at its
/// first position and yields `SameValue` at its second.
pub proof fn lemma_get2_same_key<K, V, A: SplitMut<K, V>>(c: A, k: K)
    requires
        c.slot_of(k) is Some,
    ensures
        slot_outcome(seq![c.slot_of(k), c.slot_of(k)], 0) == Ok::<usize, SplitMutError>(
            c.slot_of(k)->Some_0,
        ),
        slot_outcome(seq![c.slot_of(k), c.slot_of(k)], 1) == Err::<usize, SplitMutError>(
            SplitMutError::SameValue,
        ),
{
    let ids = seq![c.slot_of(k), c.slot_of(k)];
    assert(0 <= 0 < 1 && ids[0] == Some(c.slot_of(k)->Some_0));
}

/// A key that resolves to no slot yields `NoValue` at its position of any
/// checked resolution, whatever the other positions hold.
pub proof fn lemma_no_value_independent(ids: Seq<Option<usize>>, i: int)
    requires
        0 <= i < ids.len(),
        ids[i] is None,
    ensures
        slot_outcome(ids, i) == Err::<usize, SplitMutError>(SplitMutError::NoValue),
{
}

/// A fresh session has no history: its first resolution of any key depends
/// on the key's existence alone.
pub proof fn lemma_fresh_session<K, V, A: SplitMut<K, V>>(c: A, k: K)
    ensures
        c.slot_of(k) is Some ==> at_outcome(c, Set::<usize>::empty(), k) == Ok::<
            usize,
            SplitMutError,
        >(c.slot_of(k)->Some_0),
        c.slot_of(k) is None ==> at_outcome(c, Set::<usize>::empty(), k) == Err::<
            usize,
            SplitMutError,
        >(SplitMutError::NoValue),
{
}

/// Session monotonicity: once a key has succeeded within a session, every
/// later resolution of a key denoting the same slot yields `SameValue`.
pub proof fn lemma_session_monotonic<K, V, A: SplitMut<K, V>>(
    c: A,
    issued: Set<usize>,
    k1: K,
    k2: K,
)
    requires
        c.slot_of(k1) == c.slot_of(k2),
        at_outcome(c, issued, k1) is Ok,
    ensures
        at_outcome(c, at_issued(c, issued, k1), k2) == Err::<usize, SplitMutError>(
            SplitMutError::SameValue,
        ),
{
}

/// The identities a session has issued after resolving a whole key sequence.
pub open spec fn issued_after<K, V, A: SplitMut<K, V>>(
    c: A,
    issued: Set<usize>,
    keys: Seq<K>,
) -> Set<usize>
    decreases keys.len(),
{
    if keys.len() == 0 {
        issued
    } else {
        issued_after(c, at_issued(c, issued, keys[0]), keys.drop_first())
    }
}

/// Resolving one more key after a key sequence issues what the sequence
/// issued, advanced by that key.
pub proof fn lemma_issued_after_snoc<K, V, A: SplitMut<K, V>>(
    c: A,
    issued: Set<usize>,
    keys: Seq<K>,
    k: K,
)
    ensures
        issued_after(c, issued, keys.push(k)) == at_issued(c, issued_after(c, issued, keys), k),
    decreases keys.len(),
{
    let kp = keys.push(k);
    if keys.len() == 0 {
        assert(kp[0] == k);
        assert(kp.drop_first() =~= Seq::<K>::empty());
        assert(issued_after(c, issued, kp) == issued_after(c, at_issued(c, issued, k), kp.drop_first()));
        assert(issued_after(c, at_issued(c, issued, k), kp.drop_first()) == at_issued(c, issued, k));
        assert(issued_after(c, issued, keys) == issued);
    } else {
        assert(kp[0] == keys[0]);
        assert(kp.drop_first() =~= keys.drop_first().push(k));
        lemma_issued_after_snoc(c, at_issued(c, issued, keys[0]), keys.drop_first(), k);
        assert(issued_after(c, issued, kp) == issued_after(c, at_issued(c, issued, keys[0]), kp.drop_first()));
        assert(issued_after(c, issued, keys) == issued_after(c, at_issued(c, issued, keys[0]), keys.drop_first()));
    }
}

/// A session never forgets: every identity issued before a resolution
/// sequence is still issued after it.
pub proof fn lemma_issued_after_monotone<K, V, A: SplitMut<K, V>>(
    c: A,
    issued: Set<usize>,
    keys: Seq<K>,
    s: usize,
)
    requires
        issued.contains(s),
    ensures
        issued_after(c, issued, keys).contains(s),
    decreases keys.len(),
{
    if keys.len() > 0 {
        lemma_issued_after_monotone(c, at_issued(c, issued, keys[0]), keys.drop_first(), s);
    }
}

/// Issuing over a concatenation is issuing over the two parts in turn.
pub proof fn lemma_issued_after_concat<K, V, A: SplitMut<K, V>>(
    c: A,
    issued: Set<usize>,
    fst: Seq<K>,
    snd: Seq<K>,
)
    ensures
        issued_after(c, issued, fst + snd) == issued_after(c, issued_after(c, issued, fst), snd),
    decreases fst.len(),
{
    let ab = fst + snd;
    if fst.len() == 0 {
        assert(ab =~= snd);
        assert(issued_after(c, issued, fst) == issued);
    } else {
        assert(ab[0] == fst[0]);
        assert(ab.drop_first() =~= fst.drop_first() + snd);
        lemma_issued_after_concat(c, at_issued(c, issued, fst[0]), fst.drop_first(), snd);
        assert(issued_after(c, issued, ab) == issued_after(c, at_issued(c, issued, fst[0]), ab.drop_first()));
        assert(issued_after(c, issued, fst) == issued_after(c, at_issued(c, issued, fst[0]), fst.drop_first()));
    }
}

/// Within one session over a key sequence, no two successful results carry
/// the same slot: the first success on a slot bars every later one.
pub proof fn lemma_session_ok_slots_distinct<K, V, A: SplitMut<K, V>>(
    c: A,
    issued: Set<usize>,
    keys: Seq<K>,
    i: int,
    j: int,
)
    requires
        0 <= i < j < keys.len(),
        session_results(c, issued, keys)[i] is Ok,
        session_results(c, issued, keys)[j] is Ok,
    ensures
        session_results(c, issued, keys)[i]->Ok_0 != session_results(c, issued, keys)[j]->Ok_0,
{
    lemma_session_results_ordered(c, issued, keys, i);
    lemma_session_results_ordered(c, issued, keys, j);
    let si = session_results(c, issued, keys)[i]->Ok_0;
    let mi = issued_after(c, issued, keys.take(i));
    assert(keys.take(i + 1) =~= keys.take(i).push(keys[i]));
    lemma_issued_after_snoc(c, issued, keys.take(i), keys[i]);
    let mi1 = issued_after(c, issued, keys.take(i + 1));
    assert(mi1.contains(si));
    assert(keys.take(j) =~= keys.take(i + 1) + keys.subrange(i + 1, j));
    lemma_issued_after_concat(c, issued, keys.take(i + 1), keys.subrange(i + 1, j));
    lemma_issued_after_monotone(c, mi1, keys.subrange(i + 1, j), si);
}

/// The sequence adapter preserves input order: its result at any position is
/// the session resolution of the key at that same position, against the
/// identities issued by exactly the keys before it.
pub proof fn lemma_session_results_ordered<K, V, A: SplitMut<K, V>>(
    c: A,
    issued: Set<usize>,
    keys: Seq<K>,
    i: int,
)
    requires
        0 <= i < keys.len(),
    ensures
        session_results(c, issued, keys)[i] == at_outcome(
            c,
            issued_after(c, issued, keys.take(i)),
            keys[i],
        ),
    decreases i,
{
    crate::session::lemma_session_results_len::<K, V, A>(
        c,
        at_issued(c, issued, keys[0]),
        keys.drop_first(),
    );
    if i == 0 {
        assert(keys.take(0) =~= Seq::<K>::empty());
    } else {
        let issued1 = at_issued(c, issued, keys[0]);
        lemma_session_results_ordered(c, issued1, keys.drop_first(), i - 1);
        assert(session_results(c, issued, keys)[i] == session_results(c, issued1, keys.drop_first())[i
            - 1]);
        assert(keys.drop_first().take(i - 1) =~= keys.take(i).drop_first());
        assert(keys.drop_first()[i - 1] == keys[i]);
        assert(keys.take(i)[0] == keys[0]);
        assert(keys.take(i).len() == i);
        assert(issued_after(c, issued, keys.take(i)) == issued_after(
            c,
            at_issued(c, issued, keys.take(i)[0]),
            keys.take(i).drop_first(),
        ));
        assert(issued_after(c, issued1, keys.drop_first().take(i - 1)) == issued_after(
            c,
            issued,
            keys.take(i),
        ));
    }
}

} // verus!
