//! Collision bookkeeping: which body each body collides with this tick, and
//! which pairs of bodies merge, with no body consumed by two merges.
use vstd::prelude::*;

verus! {

/// Every collision target is the index of one of the bodies.
pub open spec fn targets_valid(pending: Seq<Option<usize>>) -> bool {
    forall|i: int|
        0 <= i < pending.len() ==> match #[trigger] pending[i] {
            Some(j) => j < pending.len(),
            None => true,
        }
}

/// Body `x` is one of the two bodies of some pair.
pub open spec fn involved(pairs: Seq<(usize, usize)>, x: int) -> bool {
    exists|k: int| 0 <= k < pairs.len() && ((#[trigger] pairs[k]).0 == x || pairs[k].1 == x)
}

/// The pairs chosen while scanning the first `k` bodies: body `i` merges with
/// its target `j` when `j` is another body and neither was consumed by an
/// earlier merge of this tick.
pub open spec fn merge_plan(pending: Seq<Option<usize>>, k: nat) -> Seq<(usize, usize)>
    decreases k,
{
    if k == 0 {
        Seq::empty()
    } else {
        let prev = merge_plan(pending, (k - 1) as nat);
        let i = k - 1;
        match pending[i] {
            Some(j) => if j != i && !involved(prev, i) && !involved(prev, j as int) {
                prev.push((i as usize, j))
            } else {
                prev
            },
            None => prev,
        }
    }
}

/// Two bodies among `n` that are not the same body.
pub open spec fn pair_in(p: (usize, usize), n: nat) -> bool {
    p.0 < n && p.1 < n && p.0 != p.1
}

/// Two pairs that share no body.
pub open spec fn apart(p: (usize, usize), q: (usize, usize)) -> bool {
    p.0 != q.0 && p.0 != q.1 && p.1 != q.0 && p.1 != q.1
}

/// Pairs of distinct bodies among `n`, no body in two pairs.
pub open spec fn disjoint_pairs(pairs: Seq<(usize, usize)>, n: nat) -> bool {
    &&& forall|k: int| 0 <= k < pairs.len() ==> pair_in(#[trigger] pairs[k], n)
    &&& forall|k: int, l: int|
        0 <= k < l < pairs.len() ==> apart(#[trigger] pairs[k], #[trigger] pairs[l])
}

/// Each pair joins a body with its own collision target.
pub open spec fn pairs_follow_targets(pairs: Seq<(usize, usize)>, pending: Seq<Option<usize>>) -> bool {
    forall|q: int| 0 <= q < pairs.len() ==> pending[#[trigger] pairs[q].0 as int] == Some(pairs[q].1)
}

/// Every claim of body `i` among the first `k` on another body is honoured,
/// unless one of the two was consumed already.
pub open spec fn claims_settled(pairs: Seq<(usize, usize)>, pending: Seq<Option<usize>>, k: nat) -> bool {
    forall|i: int|
        0 <= i < k ==> match #[trigger] pending[i] {
            Some(j) => j != i ==> involved(pairs, i) || involved(pairs, j as int),
            None => true,
        }
}

/// The bodies that the pairs consume, gathered pair by pair.
spec fn consumed_set(pairs: Seq<(usize, usize)>) -> Set<int>
    decreases pairs.len(),
{
    if pairs.len() == 0 {
        Set::empty()
    } else {
        consumed_set(pairs.drop_last()).insert(pairs.last().0 as int).insert(pairs.last().1 as int)
    }
}

/// A body is in a lengthened list of pairs when it was in the list or is in
/// the new pair.
proof fn lemma_involved_push(pairs: Seq<(usize, usize)>, p: (usize, usize), x: int)
    ensures
        involved(pairs.push(p), x) <==> (involved(pairs, x) || p.0 == x || p.1 == x),
{
    let s = pairs.push(p);
    if involved(pairs, x) {
        let k = choose|k: int| 0 <= k < pairs.len() && ((#[trigger] pairs[k]).0 == x || pairs[k].1 == x);
        assert(s[k] == pairs[k]);
    }
    if p.0 == x || p.1 == x {
        assert(s[pairs.len() as int] == p);
    }
    if involved(s, x) {
        let k = choose|k: int| 0 <= k < s.len() && ((#[trigger] s[k]).0 == x || s[k].1 == x);
        if k < pairs.len() {
            assert(s[k] == pairs[k]);
        }
    }
}

/// Disjoint pairs consume exactly twice as many bodies as there are pairs.
proof fn lemma_consumed_set(pairs: Seq<(usize, usize)>, n: nat)
    requires
        disjoint_pairs(pairs, n),
    ensures
        consumed_set(pairs).finite(),
        consumed_set(pairs).len() == 2 * pairs.len(),
        forall|x: int| #[trigger] consumed_set(pairs).contains(x) <==> involved(pairs, x),
    decreases pairs.len(),
{
    if pairs.len() > 0 {
        let prev = pairs.drop_last();
        let p = pairs.last();
        assert(pairs == prev.push(p));
        assert(disjoint_pairs(prev, n)) by {
            assert forall|k: int| 0 <= k < prev.len() implies pair_in(#[trigger] prev[k], n) by {
                assert(prev[k] == pairs[k]);
            }
            assert forall|k: int, l: int| 0 <= k < l < prev.len() implies apart(
                #[trigger] prev[k],
                #[trigger] prev[l],
            ) by {
                assert(prev[k] == pairs[k]);
                assert(prev[l] == pairs[l]);
            }
        }
        lemma_consumed_set(prev, n);
        assert forall|x: int| #[trigger] consumed_set(pairs).contains(x) <==> involved(pairs, x) by {
            lemma_involved_push(prev, p, x);
        }
        assert(!involved(prev, p.0 as int) && !involved(prev, p.1 as int)) by {
            if involved(prev, p.0 as int) || involved(prev, p.1 as int) {
                let x = if involved(prev, p.0 as int) { p.0 as int } else { p.1 as int };
                let k = choose|k: int| 0 <= k < prev.len() && ((#[trigger] prev[k]).0 == x || prev[k].1 == x);
                assert(apart(pairs[k], pairs[prev.len() as int]));
            }
        }
        assert(pair_in(pairs[prev.len() as int], n));
    }
}

/// What holds of the pairs chosen among the first `k` bodies.
proof fn lemma_merge_plan_prefix(pending: Seq<Option<usize>>, k: nat)
    requires
        targets_valid(pending),
        pending.len() <= usize::MAX,
        k <= pending.len(),
    ensures
        disjoint_pairs(merge_plan(pending, k), pending.len()),
        pairs_follow_targets(merge_plan(pending, k), pending),
        claims_settled(merge_plan(pending, k), pending, k),
    decreases k,
{
    if k > 0 {
        let n = pending.len();
        let prev = merge_plan(pending, (k - 1) as nat);
        let i = k - 1;
        lemma_merge_plan_prefix(pending, (k - 1) as nat);
        let plan = merge_plan(pending, k);
        assert(forall|x: int| involved(prev, x) ==> #[trigger] involved(plan, x)) by {
            if plan != prev {
                assert forall|x: int| involved(prev, x) implies #[trigger] involved(plan, x) by {
                    lemma_involved_push(prev, plan.last(), x);
                    assert(plan == prev.push(plan.last()));
                }
            }
        }
        if let Some(j) = pending[i] {
            if j != i && !involved(prev, i) && !involved(prev, j as int) {
                assert(j < n);
                let p = (i as usize, j);
                assert(plan == prev.push(p));
                assert forall|q: int| 0 <= q < plan.len() implies pair_in(#[trigger] plan[q], n) by {
                    if q < prev.len() {
                        assert(plan[q] == prev[q]);
                    }
                }
                assert forall|q: int, l: int| 0 <= q < l < plan.len() implies apart(
                    #[trigger] plan[q],
                    #[trigger] plan[l],
                ) by {
                    assert(plan[q] == prev[q]);
                    if l < prev.len() {
                        assert(plan[l] == prev[l]);
                    } else {
                        if !apart(prev[q], p) {
                            assert(prev[q].0 == i || prev[q].1 == i || prev[q].0 == j || prev[q].1 == j);
                        }
                    }
                }
                assert forall|q: int| 0 <= q < plan.len() implies pending[#[trigger] plan[q].0 as int] == Some(plan[q].1) by {
                    if q < prev.len() {
                        assert(plan[q] == prev[q]);
                    }
                }
                lemma_involved_push(prev, p, i);
            }
        }
        assert forall|x: int| 0 <= x < k implies match #[trigger] pending[x] {
            Some(j) => j != x ==> involved(plan, x) || involved(plan, j as int),
            None => true,
        } by {
            if x < k - 1 {
                assert(claims_settled(prev, pending, (k - 1) as nat));
            }
        }
    }
}

/// The merges chosen in one tick never consume a body twice: each pair is two
/// distinct bodies, no body is in two pairs, and so `n` bodies give at most
/// `n / 2` merges. Each pair joins a body with its own collision target, and
/// every claim of one body on another is honoured unless one of the two was
/// consumed by an earlier merge of the same tick.
pub proof fn lemma_no_double_merge(pending: Seq<Option<usize>>)
    requires
        targets_valid(pending),
        pending.len() <= usize::MAX,
    ensures
        disjoint_pairs(merge_plan(pending, pending.len()), pending.len()),
        2 * merge_plan(pending, pending.len()).len() <= pending.len(),
        pairs_follow_targets(merge_plan(pending, pending.len()), pending),
        claims_settled(merge_plan(pending, pending.len()), pending, pending.len()),
{
    let n = pending.len();
    let plan = merge_plan(pending, n);
    lemma_merge_plan_prefix(pending, n);
    lemma_consumed_set(plan, n);
    assert(consumed_set(plan).subset_of(vstd::set_lib::set_int_range(0, n as int))) by {
        assert forall|x: int| #[trigger] consumed_set(plan).contains(x) implies 0 <= x < n by {
            let k = choose|k: int| 0 <= k < plan.len() && ((#[trigger] plan[k]).0 == x || plan[k].1 == x);
            assert(pair_in(plan[k], n));
        }
    }
    vstd::set_lib::lemma_int_range(0, n as int);
    vstd::set_lib::lemma_len_subset(consumed_set(plan), vstd::set_lib::set_int_range(0, n as int));
}

/// The items of `s` at the positions below `k` that no pair consumes, in
/// their order.
pub open spec fn survivors<T>(s: Seq<T>, pairs: Seq<(usize, usize)>, k: nat) -> Seq<T>
    decreases k,
{
    if k == 0 {
        Seq::empty()
    } else if involved(pairs, k - 1) {
        survivors(s, pairs, (k - 1) as nat)
    } else {
        survivors(s, pairs, (k - 1) as nat).push(s[k - 1])
    }
}

/// The consumed bodies among the first `k`.
spec fn involved_below(pairs: Seq<(usize, usize)>, k: nat) -> Set<int> {
    Set::new(|x: int| 0 <= x < k && involved(pairs, x))
}

/// Among the first `k` bodies, each either survives or is consumed.
proof fn lemma_survivors_prefix<T>(s: Seq<T>, pairs: Seq<(usize, usize)>, k: nat)
    ensures
        involved_below(pairs, k).finite(),
        survivors(s, pairs, k).len() + involved_below(pairs, k).len() == k,
    decreases k,
{
    if k == 0 {
        assert(involved_below(pairs, 0) =~= Set::empty());
    } else {
        let k1 = (k - 1) as nat;
        lemma_survivors_prefix(s, pairs, k1);
        if involved(pairs, k - 1) {
            assert(involved_below(pairs, k) =~= involved_below(pairs, k1).insert(k - 1));
        } else {
            assert(involved_below(pairs, k) =~= involved_below(pairs, k1));
        }
    }
}

/// Merging never duplicates or loses a body: of `n` bodies, the ones that no
/// pair consumes number `n` less two for each pair, so after each pair is
/// replaced by one merged body the store holds one body less per pair.
pub proof fn lemma_survivor_count<T>(s: Seq<T>, pairs: Seq<(usize, usize)>)
    requires
        disjoint_pairs(pairs, s.len()),
    ensures
        survivors(s, pairs, s.len()).len() + 2 * pairs.len() == s.len(),
{
    let n = s.len();
    lemma_survivors_prefix(s, pairs, n);
    lemma_consumed_set(pairs, n);
    assert(involved_below(pairs, n) =~= consumed_set(pairs)) by {
        assert forall|x: int| involved(pairs, x) implies 0 <= x < n by {
            let k = choose|k: int| 0 <= k < pairs.len() && ((#[trigger] pairs[k]).0 == x || pairs[k].1 == x);
            assert(pair_in(pairs[k], n));
        }
    }
}

/// The collision target of body `i`, given for each body whether `i`
/// overlaps it: the first other body found wins, and a body never targets
/// itself.
pub fn pending_target(overlaps: &Vec<bool>, i: usize) -> (r: Option<usize>)
    ensures
        match r {
            Some(j) => j < overlaps.len() && j != i && overlaps[j as int] && forall|k: int|
                0 <= k < j && k != i ==> !overlaps[k],
            None => forall|k: int| 0 <= k < overlaps.len() && k != i ==> !overlaps[k],
        },
{
    let mut j: usize = 0;
    while j < overlaps.len()
        invariant
            j <= overlaps.len(),
            forall|k: int| 0 <= k < j && k != i ==> !overlaps[k],
        decreases overlaps.len() - j,
    {
        if j != i && overlaps[j] {
            return Some(j);
        }
        j = j + 1;
    }
    None
}

/// Chooses the merges of one tick from each body's collision target,
/// scanning the bodies in order: body `i` merges with its target `j` when
/// `j` is another body and neither has been consumed by a merge of this tick.
pub fn plan_merges(pending: &Vec<Option<usize>>) -> (pairs: Vec<(usize, usize)>)
    requires
        targets_valid(pending@),
    ensures
        pairs@ == merge_plan(pending@, pending@.len() as nat),
        disjoint_pairs(pairs@, pending@.len() as nat),
        2 * pairs@.len() <= pending@.len(),
        pairs_follow_targets(pairs@, pending@),
        claims_settled(pairs@, pending@, pending@.len() as nat),
{
    let n = pending.len();
    let mut consumed: Vec<bool> = vec![false; n];
    let mut pairs: Vec<(usize, usize)> = Vec::new();
    let mut i: usize = 0;
    while i < n
        invariant
            n == pending@.len(),
            i <= n,
            targets_valid(pending@),
            consumed@.len() == n,
            pairs@ == merge_plan(pending@, i as nat),
            forall|x: int| 0 <= x < n ==> (consumed@[x] <==> #[trigger] involved(pairs@, x)),
        decreases n - i,
    {
        if let Some(j) = pending[i] {
            assert(j < n);
            if j != i && !consumed[i] && !consumed[j] {
                let ghost prev = pairs@;
                let ghost before = consumed@;
                pairs.push((i, j));
                consumed.set(i, true);
                consumed.set(j, true);
                assert forall|x: int| 0 <= x < n implies (consumed@[x] <==> #[trigger] involved(
                    pairs@,
                    x,
                )) by {
                    lemma_involved_push(prev, (i, j), x);
                    if x != i && x != j {
                        assert(consumed@[x] == before[x]);
                    }
                }
            }
        }
        i = i + 1;
    }
    proof {
        lemma_no_double_merge(pending@);
    }
    pairs
}

} // verus!
