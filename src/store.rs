//! The body store: the simulated bodies, each under an identifier that is
//! never reused.
use crate::collision::{disjoint_pairs, involved, lemma_survivor_count, survivors};
use vstd::prelude::*;

verus! {

/// Identifier of a body in a store.
#[derive(Clone, Copy, Debug, PartialEq, Eq, Hash, Structural)]
pub struct BodyId(pub u64);

/// The identifiers `first`, `first + 1`, ... , `first + count - 1`.
pub open spec fn fresh_ids(first: nat, count: nat) -> Seq<BodyId> {
    Seq::new(count, |k: int| BodyId((first + k) as u64))
}

/// Bodies with their identifiers, in insertion order.
pub struct BodyStore<B> {
    ids: Vec<BodyId>,
    bodies: Vec<B>,
    next_id: u64,
}

impl<B> BodyStore<B> {
    /// The identifiers, in store order.
    pub closed spec fn id_seq(&self) -> Seq<BodyId> {
        self.ids@
    }

    /// The bodies, in store order.
    pub closed spec fn body_seq(&self) -> Seq<B> {
        self.bodies@
    }

    /// The identifier that the next inserted body gets.
    pub closed spec fn fresh(&self) -> nat {
        self.next_id as nat
    }

    /// One identifier per body, increasing along the store (so no two
    /// alike), all below the next fresh one.
    pub open spec fn wf(&self) -> bool {
        &&& self.id_seq().len() == self.body_seq().len()
        &&& forall|i: int, j: int|
            0 <= i < j < self.id_seq().len() ==> (#[trigger] self.id_seq()[i]).0 < (
            #[trigger] self.id_seq()[j]).0
        &&& forall|i: int| 0 <= i < self.id_seq().len() ==> (#[trigger] self.id_seq()[i]).0 < self.fresh()
        &&& self.fresh() <= u64::MAX
    }

    /// An empty store.
    pub fn new() -> (s: Self)
        ensures
            s.wf(),
            s.id_seq() == Seq::<BodyId>::empty(),
            s.body_seq() == Seq::<B>::empty(),
            s.fresh() == 0,
    {
        BodyStore { ids: Vec::new(), bodies: Vec::new(), next_id: 0 }
    }

    /// Number of bodies.
    pub fn len(&self) -> (n: usize)
        requires
            self.wf(),
        ensures
            n == self.body_seq().len(),
    {
        self.bodies.len()
    }

    /// The bodies, in store order: the read-only snapshot a phase works from.
    pub fn bodies(&self) -> (r: &Vec<B>)
        ensures
            r@ == self.body_seq(),
    {
        &self.bodies
    }

    /// The identifiers, in store order.
    pub fn ids(&self) -> (r: &Vec<BodyId>)
        ensures
            r@ == self.id_seq(),
    {
        &self.ids
    }

    /// The identifier that the next inserted body gets.
    pub fn next_id(&self) -> (r: u64)
        ensures
            r == self.fresh(),
    {
        self.next_id
    }

    /// Adds `b` at the end of the store under a fresh identifier; `None`,
    /// with the store unchanged, once every identifier has been handed out.
    pub fn insert(&mut self, b: B) -> (r: Option<BodyId>)
        requires
            old(self).wf(),
        ensures
            final(self).wf(),
            old(self).fresh() < u64::MAX <==> r is Some,
            match r {
                Some(id) => {
                    &&& id.0 == old(self).fresh()
                    &&& final(self).id_seq() == old(self).id_seq().push(id)
                    &&& final(self).body_seq() == old(self).body_seq().push(b)
                    &&& final(self).fresh() == old(self).fresh() + 1
                },
                None => {
                    &&& final(self).id_seq() == old(self).id_seq()
                    &&& final(self).body_seq() == old(self).body_seq()
                    &&& final(self).fresh() == old(self).fresh()
                },
            },
    {
        if self.next_id == u64::MAX {
            return None;
        }
        let id = BodyId(self.next_id);
        self.ids.push(id);
        self.bodies.push(b);
        self.next_id = self.next_id + 1;
        Some(id)
    }

    /// Position of the body with identifier `id`, if the store holds it.
    pub fn index_of(&self, id: BodyId) -> (r: Option<usize>)
        requires
            self.wf(),
        ensures
            match r {
                Some(i) => i < self.id_seq().len() && self.id_seq()[i as int] == id,
                None => forall|i: int| 0 <= i < self.id_seq().len() ==> self.id_seq()[i] != id,
            },
    {
        let mut i: usize = 0;
        while i < self.ids.len()
            invariant
                i <= self.ids@.len(),
                forall|k: int| 0 <= k < i ==> self.ids@[k] != id,
            decreases self.ids@.len() - i,
        {
            if self.ids[i].0 == id.0 {
                return Some(i);
            }
            i = i + 1;
        }
        None
    }

    /// Removes the body with identifier `id` and hands it back; `None`, with
    /// the store unchanged, when no body has that identifier.
    pub fn remove(&mut self, id: BodyId) -> (r: Option<B>)
        requires
            old(self).wf(),
        ensures
            final(self).wf(),
            final(self).fresh() == old(self).fresh(),
            match r {
                Some(b) => exists|i: int|
                    0 <= i < old(self).id_seq().len() && old(self).id_seq()[i] == id && b
                        == old(self).body_seq()[i] && final(self).id_seq() == old(
                        self,
                    ).id_seq().remove(i) && final(self).body_seq() == old(self).body_seq().remove(i),
                None => {
                    &&& forall|i: int|
                        0 <= i < old(self).id_seq().len() ==> old(self).id_seq()[i] != id
                    &&& final(self).id_seq() == old(self).id_seq()
                    &&& final(self).body_seq() == old(self).body_seq()
                },
            },
    {
        match self.index_of(id) {
            Some(i) => {
                let ghost before = self.ids@;
                self.ids.remove(i);
                let b = self.bodies.remove(i);
                assert forall|k: int, l: int|
                    0 <= k < l < self.ids@.len() implies (#[trigger] self.ids@[k]).0 < (
                    #[trigger] self.ids@[l]).0 by {
                    let k0 = if k < i { k } else { k + 1 };
                    let l0 = if l < i { l } else { l + 1 };
                    assert(self.ids@[k] == before[k0]);
                    assert(self.ids@[l] == before[l0]);
                }
                assert forall|k: int| 0 <= k < self.ids@.len() implies (
                #[trigger] self.ids@[k]).0 < self.next_id by {
                    let k0 = if k < i { k } else { k + 1 };
                    assert(self.ids@[k] == before[k0]);
                }
                Some(b)
            },
            None => None,
        }
    }

    /// Replaces every body by the one at the same position of `next`,
    /// keeping the identifiers: the write half of a phase that computed the
    /// new bodies from a snapshot.
    pub fn replace_bodies(&mut self, next: Vec<B>)
        requires
            old(self).wf(),
            next@.len() == old(self).body_seq().len(),
        ensures
            final(self).wf(),
            final(self).id_seq() == old(self).id_seq(),
            final(self).body_seq() == next@,
            final(self).fresh() == old(self).fresh(),
    {
        self.bodies = next;
    }

    /// Carries out one tick's merges: the bodies that no pair consumes stay,
    /// in their order and under their identifiers, and the merged bodies
    /// follow, one per pair and in the order of the pairs, under fresh
    /// identifiers.
    pub fn apply_merges(&mut self, pairs: &Vec<(usize, usize)>, merged: Vec<B>)
        requires
            old(self).wf(),
            disjoint_pairs(pairs@, old(self).body_seq().len()),
            merged@.len() == pairs@.len(),
            old(self).fresh() + pairs@.len() <= u64::MAX,
        ensures
            final(self).wf(),
            final(self).body_seq() == survivors(
                old(self).body_seq(),
                pairs@,
                old(self).body_seq().len(),
            ) + merged@,
            final(self).id_seq() == survivors(old(self).id_seq(), pairs@, old(self).id_seq().len())
                + fresh_ids(old(self).fresh(), pairs@.len()),
            final(self).fresh() == old(self).fresh() + pairs@.len(),
            final(self).body_seq().len() + pairs@.len() == old(self).body_seq().len(),
    {
        proof {
            lemma_survivor_count(self.bodies@, pairs@);
        }
        let n = self.bodies.len();
        let mut consumed: Vec<bool> = vec![false; n];
        let mut q: usize = 0;
        while q < pairs.len()
            invariant
                q <= pairs@.len(),
                consumed@.len() == n,
                disjoint_pairs(pairs@, n as nat),
                forall|x: int|
                    0 <= x < n ==> (#[trigger] consumed@[x] <==> exists|k: int|
                        0 <= k < q && ((#[trigger] pairs@[k]).0 == x || pairs@[k].1 == x)),
            decreases pairs@.len() - q,
        {
            let (a, b) = pairs[q];
            assert(crate::collision::pair_in(pairs@[q as int], n as nat));
            let ghost before = consumed@;
            consumed.set(a, true);
            consumed.set(b, true);
            assert forall|x: int| 0 <= x < n implies (#[trigger] consumed@[x] <==> exists|k: int|
                0 <= k < q + 1 && ((#[trigger] pairs@[k]).0 == x || pairs@[k].1 == x)) by {
                if x != a && x != b {
                    assert(consumed@[x] == before[x]);
                    if exists|k: int| 0 <= k < q + 1 && ((#[trigger] pairs@[k]).0 == x || pairs@[k].1 == x) {
                        let k = choose|k: int| 0 <= k < q + 1 && ((#[trigger] pairs@[k]).0 == x || pairs@[k].1 == x);
                        assert(k < q);
                    }
                } else {
                    assert(pairs@[q as int].0 == x || pairs@[q as int].1 == x);
                }
            }
            q = q + 1;
        }
        assert forall|x: int| 0 <= x < n implies (#[trigger] consumed@[x] <==> involved(pairs@, x)) by {
            if consumed@[x] {
                let k = choose|k: int| 0 <= k < q && ((#[trigger] pairs@[k]).0 == x || pairs@[k].1 == x);
            }
        }

        let ghost ob = self.bodies@;
        let ghost oi = self.ids@;
        let ghost f = self.next_id;
        let mut old_bodies: Vec<B> = Vec::new();
        std::mem::swap(&mut old_bodies, &mut self.bodies);
        let mut old_ids: Vec<BodyId> = Vec::new();
        std::mem::swap(&mut old_ids, &mut self.ids);
        let mut i: usize = 0;
        for b in it: old_bodies.into_iter()
            invariant
                i == it.index(),
                it.seq() == ob,
                old_ids@ == oi,
                oi.len() == n,
                ob.len() == n,
                consumed@.len() == n,
                forall|x: int| 0 <= x < n ==> (#[trigger] consumed@[x] <==> involved(pairs@, x)),
                forall|k: int, l: int| 0 <= k < l < n ==> (#[trigger] oi[k]).0 < (#[trigger] oi[l]).0,
                forall|k: int| 0 <= k < n ==> (#[trigger] oi[k]).0 < f,
                self.next_id == f,
                self.bodies@ == survivors(ob, pairs@, i as nat),
                self.ids@ == survivors(oi, pairs@, i as nat),
                self.ids@.len() == self.bodies@.len(),
                forall|k: int, l: int|
                    0 <= k < l < self.ids@.len() ==> (#[trigger] self.ids@[k]).0 < (
                    #[trigger] self.ids@[l]).0,
                forall|k: int| 0 <= k < self.ids@.len() ==> (#[trigger] self.ids@[k]).0 < f,
                i < n ==> forall|k: int| 0 <= k < self.ids@.len() ==> (#[trigger] self.ids@[k]).0 < oi[i as int].0,
        {
            if !consumed[i] {
                self.bodies.push(b);
                self.ids.push(old_ids[i]);
            }
            i = i + 1;
        }
        let ghost kept = self.ids@.len();
        for b in it: merged.into_iter()
            invariant
                it.seq() == merged@,
                pairs@.len() == merged@.len(),
                f + pairs@.len() <= u64::MAX,
                self.next_id == f + it.index(),
                self.bodies@ == survivors(ob, pairs@, n as nat) + it.seq().subrange(0, it.index() as int),
                self.ids@ == survivors(oi, pairs@, n as nat) + fresh_ids(f as nat, it.index() as nat),
                kept == survivors(oi, pairs@, n as nat).len(),
                self.ids@.len() == self.bodies@.len(),
                forall|k: int, l: int|
                    0 <= k < l < self.ids@.len() ==> (#[trigger] self.ids@[k]).0 < (
                    #[trigger] self.ids@[l]).0,
                forall|k: int| 0 <= k < self.ids@.len() ==> (#[trigger] self.ids@[k]).0 < self.next_id,
        {
            self.bodies.push(b);
            self.ids.push(BodyId(self.next_id));
            self.next_id = self.next_id + 1;
        }
    }
}

} // verus!
