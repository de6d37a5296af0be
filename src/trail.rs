//! Bounded history of a body's past positions, oldest first.
use std::collections::VecDeque;
use vstd::prelude::*;

verus! {

/// The last `cap` items of `s` (all of `s` when it is no longer than `cap`).
pub open spec fn bounded<P>(s: Seq<P>, cap: nat) -> Seq<P> {
    if s.len() <= cap {
        s
    } else {
        s.subrange(s.len() - cap, s.len() as int)
    }
}

/// A trail after one more position was recorded in it.
pub open spec fn recorded<P>(s: Seq<P>, cap: nat, p: P) -> Seq<P> {
    bounded(s.push(p), cap)
}

/// A trail after each position of `ps` was recorded in it, in order.
pub open spec fn recorded_all<P>(s: Seq<P>, cap: nat, ps: Seq<P>) -> Seq<P>
    decreases ps.len(),
{
    if ps.len() == 0 {
        s
    } else {
        recorded(recorded_all(s, cap, ps.drop_last()), cap, ps.last())
    }
}

/// A body's trail: the positions it held, oldest first, and how many of
/// them are kept.
#[derive(Clone)]
pub struct Trail<P> {
    pub points: VecDeque<P>,
    pub length: u32,
}

impl<P> Trail<P> {
    /// An empty trail that keeps at most `length` positions.
    pub fn new(length: u32) -> (t: Self)
        ensures
            t.points@ == Seq::<P>::empty(),
            t.length == length,
    {
        Trail { points: VecDeque::new(), length }
    }

    /// Appends `p` and drops the oldest positions until at most `length`
    /// remain.
    pub fn record(&mut self, p: P)
        ensures
            final(self).points@ == recorded(old(self).points@, old(self).length as nat, p),
            final(self).length == old(self).length,
            final(self).points@.len() <= final(self).length,
    {
        let ghost full = self.points@.push(p);
        self.points.push_back(p);
        while self.points.len() > self.length as usize
            invariant
                self.points@.len() <= full.len(),
                self.points@ == full.subrange(full.len() - self.points@.len(), full.len() as int),
                full.len() > self.length ==> self.points@.len() >= self.length,
                full.len() <= self.length ==> self.points@ == full,
                self.length == old(self).length,
                full == old(self).points@.push(p),
            decreases self.points@.len(),
        {
            self.points.pop_front();
        }
        assert(full.len() > self.length ==> self.points@.len() == self.length);
        assert(full.len() <= self.length ==> self.points@ =~= full);
    }

    /// Number of positions held.
    pub fn len(&self) -> (n: usize)
        ensures
            n == self.points@.len(),
    {
        self.points.len()
    }
}

/// Recording a run of positions keeps exactly the last `cap` positions of
/// the old trail followed by the run; so after more recordings than the
/// capacity, the trail holds exactly `cap` positions and the oldest of them
/// is the one recorded at tick `ps.len() - cap + 1` (counting from one).
pub proof fn lemma_trail_bound<P>(s: Seq<P>, cap: nat, ps: Seq<P>)
    requires
        ps.len() > 0,
    ensures
        recorded_all(s, cap, ps) == bounded(s + ps, cap),
        ps.len() > cap ==> recorded_all(s, cap, ps) == ps.subrange(ps.len() - cap, ps.len() as int),
        ps.len() > cap ==> recorded_all(s, cap, ps).len() == cap,
        ps.len() > cap && cap > 0 ==> recorded_all(s, cap, ps)[0] == ps[ps.len() - cap],
    decreases ps.len(),
{
    let q = ps.drop_last();
    let p = ps.last();
    assert(ps =~= q.push(p));
    assert(recorded_all(s, cap, ps) == recorded(recorded_all(s, cap, q), cap, p));
    if q.len() == 0 {
        assert(s + ps =~= s.push(p));
        assert(recorded_all(s, cap, q) == s);
    } else {
        lemma_trail_bound(s, cap, q);
        let prev = bounded(s + q, cap);
        assert(s + ps =~= (s + q).push(p));
        let all = (s + q).push(p);
        if (s + q).len() <= cap {
            assert(prev == s + q);
        } else {
            assert(bounded(prev.push(p), cap) =~= bounded(all, cap));
        }
        assert(recorded(prev, cap, p) == bounded(all, cap));
    }
    if ps.len() > cap {
        assert(bounded(s + ps, cap) =~= ps.subrange(ps.len() - cap, ps.len() as int));
    }
}

} // verus!
