//! The dynamic-arity session accessor and its sequence adapter.
//!
//! A session borrows one container and hands out as many distinct slots as
//! the caller asks for, one key at a time. It keeps the set of identities it
//! has already issued: the first time a slot is resolved within the session
//! it succeeds, and every later resolution of the same slot yields
//! `SameValue`. A fresh session starts with no history. The sequence adapter
//! applies the session to a whole key sequence in order.

use core::marker::PhantomData;
use vstd::prelude::*;

use crate::access::SplitMut;
use crate::error::SplitMutError;

verus! {

/// What one session resolution of key `k` returns, given the identities
/// already issued: absence yields `NoValue`, an already-issued slot yields
/// `SameValue`, and a fresh slot succeeds.
pub open spec fn at_outcome<K, V, A: SplitMut<K, V>>(c: A, issued: Set<usize>, k: K) -> Result<
    usize,
    SplitMutError,
> {
    match c.slot_of(k) {
        None => Err(SplitMutError::NoValue),
        Some(s) => if issued.contains(s) {
            Err(SplitMutError::SameValue)
        } else {
            Ok(s)
        },
    }
}

/// The issued identities after one session resolution of key `k`: the slot
/// the key denotes is recorded, and an absent key records nothing.
pub open spec fn at_issued<K, V, A: SplitMut<K, V>>(c: A, issued: Set<usize>, k: K) -> Set<
    usize,
> {
    match c.slot_of(k) {
        None => issued,
        Some(s) => issued.insert(s),
    }
}

/// The results of resolving a whole key sequence through one session, in
/// source order: one result per key, each against the identities issued by
/// the keys before it.
pub open spec fn session_results<K, V, A: SplitMut<K, V>>(
    c: A,
    issued: Set<usize>,
    keys: Seq<K>,
) -> Seq<Result<usize, SplitMutError>>
    decreases keys.len(),
{
    if keys.len() == 0 {
        Seq::empty()
    } else {
        seq![at_outcome(c, issued, keys[0])] + session_results(
            c,
            at_issued(c, issued, keys[0]),
            keys.drop_first(),
        )
    }
}

/// A session over one borrow of a container: the set of slot identities it
/// has issued only ever grows, and no slot is issued twice.
pub struct GetMuts<'a, K, V, A: SplitMut<K, V>> {
    c: &'a A,
    issued: Vec<usize>,
    _marker: PhantomData<(K, V)>,
}

/// Whether the sequence `issued` holds the identity `s`.
fn issued_contains(issued: &Vec<usize>, s: usize) -> (r: bool)
    ensures
        r == issued@.to_set().contains(s),
{
    let mut i: usize = 0;
    while i < issued.len()
        invariant
            0 <= i <= issued@.len(),
            forall|j: int| 0 <= j < i ==> issued@[j] != s,
        decreases issued@.len() - i,
    {
        if issued[i] == s {
            return true;
        }
        i += 1;
    }
    false
}

impl<'a, K, V, A: SplitMut<K, V>> GetMuts<'a, K, V, A> {
    /// The container the session resolves keys against.
    pub closed spec fn container(&self) -> A {
        *self.c
    }

    /// The slot identities the session has issued so far.
    pub closed spec fn issued(&self) -> Set<usize> {
        self.issued@.to_set()
    }

    /// The session's container is well formed and every issued identity is
    /// one of its slots.
    pub open spec fn wf(&self) -> bool {
        &&& self.container().wf()
        &&& forall|s: usize| self.issued().contains(s) ==> self.container().valid_slot(s)
    }

    /// Opens a session over `c` with no history.
    pub fn new(c: &'a A) -> (r: GetMuts<'a, K, V, A>)
        requires
            c.wf(),
        ensures
            r.container() == *c,
            r.issued() == Set::<usize>::empty(),
            r.wf(),
    {
        let r = GetMuts { c, issued: Vec::new(), _marker: PhantomData };
        proof {
            assert(r.issued() =~= Set::<usize>::empty());
        }
        r
    }

    /// Resolves one key against the session: a slot not issued before is
    /// returned and recorded, a slot issued earlier in the same session
    /// yields `SameValue`, and an absent key yields `NoValue` and records
    /// nothing.
    pub fn at(&mut self, k: K) -> (r: Result<usize, SplitMutError>)
        requires
            old(self).wf(),
        ensures
            final(self).wf(),
            final(self).container() == old(self).container(),
            r == at_outcome(old(self).container(), old(self).issued(), k),
            final(self).issued() == at_issued(old(self).container(), old(self).issued(), k),
            (r matches Ok(s) ==> Some(s) == old(self).container().slot_of(k) && old(
                self,
            ).container().valid_slot(s) && !old(self).issued().contains(s)),
    {
        let p = match self.c.get1_mut(k) {
            Some(p) => p,
            None => {
                return Err(SplitMutError::NoValue);
            },
        };
        if issued_contains(&self.issued, p) {
            proof {
                assert(final(self).issued() =~= at_issued(
                    old(self).container(),
                    old(self).issued(),
                    k,
                ));
            }
            return Err(SplitMutError::SameValue);
        }
        self.issued.push(p);
        proof {
            assert(self.issued@ == old(self).issued@.push(p));
            assert(self.issued@.to_set() =~= old(self).issued@.to_set().insert(p)) by {
                assert(forall|x: usize|
                    old(self).issued@.push(p).contains(x) <==> (old(self).issued@.contains(x) || x
                        == p)) by {
                    assert(forall|x: usize| #[trigger] old(self).issued@.push(p).contains(x) ==> (
                    old(self).issued@.contains(x) || x == p)) by {
                        lemma_push_contains_only::<usize>(old(self).issued@, p);
                    }
                    assert(forall|x: usize| old(self).issued@.contains(x) || x == p ==> old(
                        self,
                    ).issued@.push(p).contains(x)) by {
                        lemma_push_contains_all::<usize>(old(self).issued@, p);
                    }
                }
            }
        }
        Ok(p)
    }
}

/// The sequence adapter: applies one session to a key sequence, yielding one
/// result per key in source order. It is tied to its session's state and is
/// not restartable: keys already consumed are gone.
pub struct GetMutIter<'a, K, V, A: SplitMut<K, V>> {
    inner: GetMuts<'a, K, V, A>,
    keys: Vec<K>,
}

impl<'a, K, V, A: SplitMut<K, V>> GetMutIter<'a, K, V, A> {
    /// The container the adapter's session resolves keys against.
    pub closed spec fn container(&self) -> A {
        self.inner.container()
    }

    /// The slot identities the adapter's session has issued so far.
    pub closed spec fn issued(&self) -> Set<usize> {
        self.inner.issued()
    }

    /// The keys not yet resolved, in the order they will be resolved.
    pub closed spec fn remaining(&self) -> Seq<K> {
        self.keys@
    }

    /// The adapter's container is well formed and every issued identity is
    /// one of its slots.
    pub open spec fn wf(&self) -> bool {
        &&& self.container().wf()
        &&& forall|s: usize| self.issued().contains(s) ==> self.container().valid_slot(s)
    }

    /// Opens a fresh session over `c` that will resolve `keys` in order.
    pub fn new(c: &'a A, keys: Vec<K>) -> (r: GetMutIter<'a, K, V, A>)
        requires
            c.wf(),
        ensures
            r.container() == *c,
            r.issued() == Set::<usize>::empty(),
            r.remaining() == keys@,
            r.wf(),
    {
        GetMutIter { inner: GetMuts::new(c), keys }
    }

    /// Resolves the next key through the session, or returns `None` when
    /// every key has been resolved.
    pub fn next(&mut self) -> (r: Option<Result<usize, SplitMutError>>)
        requires
            old(self).wf(),
        ensures
            final(self).wf(),
            final(self).container() == old(self).container(),
            old(self).remaining().len() == 0 ==> r is None && final(self).issued() == old(
                self,
            ).issued() && final(self).remaining() == old(self).remaining(),
            old(self).remaining().len() > 0 ==> {
                &&& r == Some(
                    at_outcome(old(self).container(), old(self).issued(), old(self).remaining()[0]),
                )
                &&& final(self).issued() == at_issued(
                    old(self).container(),
                    old(self).issued(),
                    old(self).remaining()[0],
                )
                &&& final(self).remaining() == old(self).remaining().drop_first()
            },
    {
        if self.keys.len() == 0 {
            return None;
        }
        let k = self.keys.remove(0);
        proof {
            assert(self.keys@ =~= old(self).keys@.drop_first());
        }
        Some(self.inner.at(k))
    }

    /// Resolves every remaining key in source order: the results sequence has
    /// exactly one entry per key, in the order the keys were given.
    pub fn collect(&mut self) -> (r: Vec<Result<usize, SplitMutError>>)
        requires
            old(self).wf(),
        ensures
            final(self).wf(),
            final(self).container() == old(self).container(),
            final(self).remaining().len() == 0,
            r@ == session_results(old(self).container(), old(self).issued(), old(self).remaining()),
            r@.len() == old(self).remaining().len(),
    {
        let ghost c = old(self).container();
        let mut r: Vec<Result<usize, SplitMutError>> = Vec::new();
        while self.keys.len() != 0
            invariant
                self.wf(),
                self.container() == c,
                session_results(c, old(self).issued(), old(self).remaining()) == r@
                    + session_results(c, self.issued(), self.remaining()),
            decreases self.keys@.len(),
        {
            let ghost issued0 = self.issued();
            let ghost keys0 = self.remaining();
            let ghost rpre = r@;
            let p = self.next();
            let p = match p {
                Some(p) => p,
                None => {
                    proof {
                        assert(false);
                    }
                    return r;
                },
            };
            r.push(p);
            proof {
                assert(session_results(c, issued0, keys0) == seq![
                    at_outcome(c, issued0, keys0[0]),
                ] + session_results(c, at_issued(c, issued0, keys0[0]), keys0.drop_first()));
                assert(rpre + (seq![at_outcome(c, issued0, keys0[0])] + session_results(
                    c,
                    self.issued(),
                    self.remaining(),
                )) =~= r@ + session_results(c, self.issued(), self.remaining()));
            }
        }
        proof {
            assert(session_results(c, self.issued(), self.remaining()) =~= Seq::empty());
            assert(r@ =~= r@ + Seq::<Result<usize, SplitMutError>>::empty());
            lemma_session_results_len::<K, V, A>(c, old(self).issued(), old(self).remaining());
        }
        r
    }
}

/// Opens a session over the container `c`: any number of distinct slots can
/// be obtained from it, one key at a time, with no history to begin with.
pub fn get_muts<'a, K, V, A: SplitMut<K, V>>(c: &'a A) -> (r: GetMuts<'a, K, V, A>)
    requires
        c.wf(),
    ensures
        r.container() == *c,
        r.issued() == Set::<usize>::empty(),
        r.wf(),
{
    GetMuts::new(c)
}

/// Opens a session over the container `c` that maps the key sequence to one
/// result per key, in source order.
pub fn get_mut_iter<'a, K, V, A: SplitMut<K, V>>(c: &'a A, keys: Vec<K>) -> (r: GetMutIter<
    'a,
    K,
    V,
    A,
>)
    requires
        c.wf(),
    ensures
        r.container() == *c,
        r.issued() == Set::<usize>::empty(),
        r.remaining() == keys@,
        r.wf(),
{
    GetMutIter::new(c, keys)
}

/// A session over a key sequence yields exactly one result per key.
pub proof fn lemma_session_results_len<K, V, A: SplitMut<K, V>>(
    c: A,
    issued: Set<usize>,
    keys: Seq<K>,
)
    ensures
        session_results(c, issued, keys).len() == keys.len(),
    decreases keys.len(),
{
    if keys.len() > 0 {
        lemma_session_results_len::<K, V, A>(c, at_issued(c, issued, keys[0]), keys.drop_first());
    }
}

/// Whatever the pushed sequence holds was either there before or is the
/// pushed element.
proof fn lemma_push_contains_only<T>(s: Seq<T>, x: T)
    ensures
        forall|y: T| #[trigger] s.push(x).contains(y) ==> (s.contains(y) || y == x),
{
    assert forall|y: T| #[trigger] s.push(x).contains(y) implies (s.contains(y) || y == x) by {
        let i = choose|i: int| 0 <= i < s.push(x).len() && s.push(x)[i] == y;
        if i < s.len() {
            assert(s[i] == y);
        }
    }
}

/// The pushed sequence holds everything it held before, and the pushed
/// element.
proof fn lemma_push_contains_all<T>(s: Seq<T>, x: T)
    ensures
        forall|y: T| s.contains(y) ==> #[trigger] s.push(x).contains(y),
        s.push(x).contains(x),
{
    assert forall|y: T| s.contains(y) implies #[trigger] s.push(x).contains(y) by {
        let i = choose|i: int| 0 <= i < s.len() && s[i] == y;
        assert(s.push(x)[i] == y);
    }
    assert(s.push(x)[s.len() as int] == x);
}

} // verus!
