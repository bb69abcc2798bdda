//! In-flight event bookkeeping: the swap-remove pruning pass that drops
//! completed events from the event list without losing any pending one.
//!
//! Removals are limited to indices strictly below `len - completed_count`:
//! a swap-remove moves the last element down, so removing a higher index
//! could displace an entry that the scan has not visited yet. Entries left
//! at the tail are picked up by a later pass. When every event has
//! completed the list is simply cleared.

use vstd::prelude::*;
use vstd::multiset::Multiset;

verus! {

broadcast use vstd::seq_lib::group_to_multiset_ensures, vstd::multiset::group_multiset_axioms;

/// One swap-remove: the last element moves into slot `i` and the sequence
/// shortens by one.
pub open spec fn swap_removed(s: Seq<u64>, i: int) -> Seq<u64> {
    s.update(i, s.last()).drop_last()
}

/// The indices holding `true`, in increasing order.
pub open spec fn completed_indices(c: Seq<bool>) -> Seq<int>
    decreases c.len(),
{
    if c.len() == 0 {
        Seq::empty()
    } else if c.last() {
        completed_indices(c.drop_last()).push(c.len() - 1)
    } else {
        completed_indices(c.drop_last())
    }
}

/// Applies one removal pass: each listed index strictly below `bound` is
/// swap-removed; the rest are left for a later pass.
pub open spec fn prune_rec(s: Seq<u64>, idxs: Seq<int>, bound: int) -> Seq<u64>
    decreases idxs.len(),
{
    if idxs.len() == 0 {
        s
    } else if idxs[0] < bound {
        prune_rec(swap_removed(s, idxs[0]), idxs.drop_first(), bound)
    } else {
        prune_rec(s, idxs.drop_first(), bound)
    }
}

/// The removal bound of a pass over `n` events of which `k` completed:
/// indices at or above it are left for a later pass.
pub open spec fn prune_bound(n: int, k: int) -> int {
    if n - k > 1 {
        n - k
    } else {
        1
    }
}

/// What pruning leaves of the event list `s` under the completion flags
/// `c`: everything goes when every event has completed; otherwise the
/// completed indices below `len - completed_count` are swap-removed.
pub open spec fn prune_spec(s: Seq<u64>, c: Seq<bool>) -> Seq<u64> {
    let idxs = completed_indices(c);
    if idxs.len() == s.len() {
        Seq::empty()
    } else {
        prune_rec(s, idxs, prune_bound(s.len() as int, idxs.len() as int))
    }
}

/// The indices among `idxs` that lie strictly below `bound`, in order:
/// the swap-removals one prune pass applies.
pub open spec fn below_bound(idxs: Seq<int>, bound: int) -> Seq<int>
    decreases idxs.len(),
{
    if idxs.len() == 0 {
        Seq::empty()
    } else if idxs.last() < bound {
        below_bound(idxs.drop_last(), bound).push(idxs.last())
    } else {
        below_bound(idxs.drop_last(), bound)
    }
}

/// What one prune pass does, stated so that a list kept index-aligned
/// with the event list can have the very same pass applied to it: clear
/// outright, or these swap-removals in this order.
#[derive(Debug, PartialEq)]
pub enum PrunePlan {
    ClearAll,
    SwapRemovals(Vec<usize>),
}

/// The events of `s` whose flag in `c` is still false.
pub open spec fn pending_ms(s: Seq<u64>, c: Seq<bool>) -> Multiset<u64>
    decreases c.len(),
{
    if c.len() == 0 {
        Multiset::empty()
    } else if c.last() {
        pending_ms(s, c.drop_last())
    } else {
        pending_ms(s, c.drop_last()).insert(s[c.len() - 1])
    }
}

/// The events of `s` whose flag in `c` is true.
pub open spec fn completed_ms(s: Seq<u64>, c: Seq<bool>) -> Multiset<u64>
    decreases c.len(),
{
    if c.len() == 0 {
        Multiset::empty()
    } else if c.last() {
        completed_ms(s, c.drop_last()).insert(s[c.len() - 1])
    } else {
        completed_ms(s, c.drop_last())
    }
}

/// What one removal pass takes out: the elements of `s` at the listed
/// indices below `bound`.
spec fn taken_ms(s: Seq<u64>, idxs: Seq<int>, bound: int) -> Multiset<u64>
    decreases idxs.len(),
{
    if idxs.len() == 0 {
        Multiset::empty()
    } else if idxs[0] < bound {
        taken_ms(s, idxs.drop_first(), bound).insert(s[idxs[0]])
    } else {
        taken_ms(s, idxs.drop_first(), bound)
    }
}

/// How many listed indices lie below `bound`.
spec fn count_lt(idxs: Seq<int>, bound: int) -> int
    decreases idxs.len(),
{
    if idxs.len() == 0 {
        0
    } else {
        count_lt(idxs.drop_first(), bound) + if idxs[0] < bound {
            1int
        } else {
            0int
        }
    }
}

proof fn lemma_count_lt_le_len(idxs: Seq<int>, bound: int)
    ensures
        0 <= count_lt(idxs, bound) <= idxs.len(),
    decreases idxs.len(),
{
    if idxs.len() > 0 {
        lemma_count_lt_le_len(idxs.drop_first(), bound);
    }
}

proof fn lemma_count_lt_skip(idxs: Seq<int>, bound: int, j: int)
    requires
        0 <= j < idxs.len(),
    ensures
        count_lt(idxs.skip(j), bound) == count_lt(idxs.skip(j + 1), bound) + if idxs[j] < bound {
            1int
        } else {
            0int
        },
{
    assert(idxs.skip(j).drop_first() =~= idxs.skip(j + 1));
    assert(idxs.skip(j)[0] == idxs[j]);
}

/// The completed indices are within range, strictly increasing, and
/// exactly the positions whose flag is true; there are as many of them as
/// flags only when every flag is true.
proof fn lemma_completed_indices_props(c: Seq<bool>)
    ensures
        0 <= completed_indices(c).len() <= c.len(),
        forall|k: int|
            0 <= k < completed_indices(c).len() ==> 0 <= #[trigger] completed_indices(c)[k]
                < c.len() && c[completed_indices(c)[k]],
        forall|k1: int, k2: int|
            0 <= k1 < k2 < completed_indices(c).len() ==> completed_indices(c)[k1]
                < completed_indices(c)[k2],
        (completed_indices(c).len() == c.len()) <==> (forall|j: int|
            0 <= j < c.len() ==> c[j]),
    decreases c.len(),
{
    if c.len() > 0 {
        lemma_completed_indices_props(c.drop_last());
        if completed_indices(c).len() == c.len() {
            assert(c.last());
            assert forall|j: int| 0 <= j < c.len() implies c[j] by {
                if j < c.len() - 1 {
                    assert(c.drop_last()[j] == c[j]);
                }
            }
        }
        if forall|j: int| 0 <= j < c.len() ==> c[j] {
            assert(forall|j: int|
                0 <= j < c.drop_last().len() ==> #[trigger] c.drop_last()[j] == c[j]);
        }
    }
}

proof fn lemma_pending_all_completed(s: Seq<u64>, c: Seq<bool>)
    requires
        forall|j: int| 0 <= j < c.len() ==> c[j],
    ensures
        pending_ms(s, c) == Multiset::<u64>::empty(),
    decreases c.len(),
{
    if c.len() > 0 {
        assert(forall|j: int| 0 <= j < c.drop_last().len() ==> #[trigger] c.drop_last()[j] == c[j]);
        lemma_pending_all_completed(s, c.drop_last());
    }
}

/// A swap-remove takes exactly one occurrence of the element it removed.
proof fn lemma_ms_swap_removed(s: Seq<u64>, i: int)
    requires
        0 <= i < s.len(),
    ensures
        swap_removed(s, i).to_multiset() == s.to_multiset().remove(s[i]),
{
    let u = s.update(i, s.last());
    let t = swap_removed(s, i);
    assert(t =~= u.remove(u.len() - 1));
    assert(u.remove(u.len() - 1).to_multiset() =~= u.to_multiset().remove(u[u.len() - 1]));
    assert(u[u.len() - 1] == s.last());
    assert(u.remove(i) =~= s.remove(i));
    assert(u.remove(i).to_multiset() =~= u.to_multiset().remove(u[i]));
    assert(s.remove(i).to_multiset() =~= s.to_multiset().remove(s[i]));
    assert(u[i] == s.last());
    // u without its slot i equals s without its slot i, so the two
    // multisets differ only in swapping one occurrence of s[i] for one of
    // s.last(); removing each gives the stated equality.
    assert(u.to_multiset().remove(s.last()) =~= s.to_multiset().remove(s[i])) by {
        assert(u.to_multiset().remove(u[i]) =~= s.to_multiset().remove(s[i]));
        assert(u.to_multiset().contains(u[i])) by {
            assert(u[i] == u[i] && 0 <= i < u.len());
            assert(u.contains(u[i]));
        }
        assert(s.to_multiset().contains(s[i])) by {
            assert(s.contains(s[i]));
        }
        assert forall|x: u64|
            u.to_multiset().remove(s.last()).count(x) == s.to_multiset().remove(
                s[i],
            ).count(x) by {
            assert(u.to_multiset().remove(u[i]).count(x) == s.to_multiset().remove(
                s[i],
            ).count(x));
        }
    }
    assert(t.to_multiset() =~= s.to_multiset().remove(s[i]));
}

/// The events split into the pending ones and the completed ones.
proof fn lemma_split_ms(s: Seq<u64>, c: Seq<bool>)
    requires
        c.len() <= s.len(),
    ensures
        s.subrange(0, c.len() as int).to_multiset() == pending_ms(s, c).add(completed_ms(s, c)),
    decreases c.len(),
{
    if c.len() == 0 {
        assert(s.subrange(0, 0).to_multiset() =~= Multiset::<u64>::empty()) by {
            assert(s.subrange(0, 0) =~= Seq::<u64>::empty());
            Seq::<u64>::empty().to_multiset_ensures();
            assert(Seq::<u64>::empty().to_multiset().len() == 0);
        }
        assert(pending_ms(s, c).add(completed_ms(s, c)) =~= Multiset::<u64>::empty());
    } else {
        let n = c.len() as int;
        lemma_split_ms(s, c.drop_last());
        assert(s.subrange(0, n) =~= s.subrange(0, n - 1).push(s[n - 1]));
        assert(s.subrange(0, n - 1).push(s[n - 1]).to_multiset() =~= s.subrange(
            0,
            n - 1,
        ).to_multiset().insert(s[n - 1]));
        if c.last() {
            assert(s.subrange(0, n).to_multiset() =~= pending_ms(s, c).add(completed_ms(s, c)));
        } else {
            assert(s.subrange(0, n).to_multiset() =~= pending_ms(s, c).add(completed_ms(s, c)));
        }
    }
}

proof fn lemma_taken_push(s: Seq<u64>, idxs: Seq<int>, p: int, bound: int)
    ensures
        taken_ms(s, idxs.push(p), bound) == if p < bound {
            taken_ms(s, idxs, bound).insert(s[p])
        } else {
            taken_ms(s, idxs, bound)
        },
    decreases idxs.len(),
{
    if idxs.len() == 0 {
        assert(idxs.push(p).drop_first() =~= Seq::<int>::empty());
        assert(taken_ms(s, Seq::<int>::empty(), bound) == Multiset::<u64>::empty());
    } else {
        assert(idxs.push(p).drop_first() =~= idxs.drop_first().push(p));
        lemma_taken_push(s, idxs.drop_first(), p, bound);
        if idxs[0] < bound && p < bound {
            assert(taken_ms(s, idxs.drop_first(), bound).insert(s[p]).insert(s[idxs[0]]) =~= taken_ms(
                s,
                idxs.drop_first(),
                bound,
            ).insert(s[idxs[0]]).insert(s[p]));
        }
    }
}

/// What a pass takes out is part of what has completed.
proof fn lemma_taken_le_completed(s: Seq<u64>, c: Seq<bool>, bound: int)
    requires
        c.len() <= s.len(),
    ensures
        taken_ms(s, completed_indices(c), bound) <= completed_ms(s, c),
    decreases c.len(),
{
    if c.len() == 0 {
    } else {
        let n = c.len() as int;
        lemma_taken_le_completed(s, c.drop_last(), bound);
        if c.last() {
            lemma_taken_push(s, completed_indices(c.drop_last()), n - 1, bound);
        }
    }
}

/// Prunes completed events out of the in-flight list, in place.
///
/// `completed[i]` says whether `sim_events[i]` has finished. When every
/// event has completed, the list is cleared outright. Otherwise each
/// completed index strictly below `len - completed_count` is swap-removed;
/// completed entries at the tail survive until a later pass, so that a
/// swap-remove never displaces an unvisited entry. No pending event is
/// ever dropped, and nothing is ever added. The returned plan names what
/// the pass did — a clear, or the removed indices in application order —
/// so a caller holding a parallel list can apply the identical pass.
pub fn trim_completed_events(sim_events: &mut Vec<u64>, completed: &Vec<bool>) -> (plan: PrunePlan)
    requires
        completed@.len() == old(sim_events)@.len(),
    ensures
        final(sim_events)@ == prune_spec(old(sim_events)@, completed@),
        pending_ms(old(sim_events)@, completed@) <= final(sim_events)@.to_multiset(),
        final(sim_events)@.to_multiset() <= old(sim_events)@.to_multiset(),
        (forall|j: int| 0 <= j < completed@.len() ==> completed@[j]) ==> final(sim_events)@.len()
            == 0,
        plan matches PrunePlan::ClearAll <==> completed_indices(completed@).len() == old(
            sim_events,
        )@.len(),
        plan matches PrunePlan::SwapRemovals(v) ==> v@.map_values(|u: usize| u as int)
            == below_bound(
            completed_indices(completed@),
            prune_bound(
                old(sim_events)@.len() as int,
                completed_indices(completed@).len() as int,
            ),
        ),
        plan matches PrunePlan::SwapRemovals(v) ==> (forall|p: int|
            0 <= p < v@.len() ==> ((#[trigger] v@[p]) as int) < prune_bound(
                old(sim_events)@.len() as int,
                completed_indices(completed@).len() as int,
            )),
{
    let ghost s0 = sim_events@;
    let ghost c = completed@;
    let n = sim_events.len();
    proof {
        lemma_completed_indices_props(c);
        lemma_split_ms(s0, c);
        assert(s0.subrange(0, c.len() as int) =~= s0);
    }

    let mut to_remove: Vec<usize> = Vec::new();
    let mut i: usize = 0;
    while i < n
        invariant
            i <= n,
            n == c.len(),
            completed@ == c,
            to_remove@.map_values(|u: usize| u as int) == completed_indices(c.subrange(0, i as int)),
        decreases n - i,
    {
        let ghost pre = c.subrange(0, i as int);
        let ghost post = c.subrange(0, i as int + 1);
        proof {
            assert(post.drop_last() =~= pre);
            assert(post.last() == c[i as int]);
        }
        if completed[i] {
            to_remove.push(i);
            proof {
                assert(to_remove@.map_values(|u: usize| u as int) =~= completed_indices(post));
            }
        }
        i += 1;
    }
    proof {
        assert(c.subrange(0, n as int) =~= c);
    }
    let ghost idxs = completed_indices(c);
    let ghost idxs_usize = to_remove@;

    if to_remove.len() == sim_events.len() {
        sim_events.clear();
        proof {
            assert(idxs.len() == to_remove@.len());
            lemma_pending_all_completed(s0, c);
            assert(final(sim_events)@.to_multiset().len() == 0);
            assert(final(sim_events)@.to_multiset() =~= Multiset::<u64>::empty());
        }
        return PrunePlan::ClearAll;
    }

    let bound = sim_events.len() - to_remove.len();
    proof {
        assert(idxs.len() < n);
        assert(bound == n - idxs.len());
        assert(bound >= 1);
        lemma_taken_le_completed(s0, c, bound as int);
        lemma_count_lt_le_len(idxs, bound as int);
        assert(idxs.skip(0) =~= idxs);
    }

    let k = to_remove.len();
    let mut removed: Vec<usize> = Vec::new();
    let mut j: usize = 0;
    while j < k
        invariant
            0 <= j <= k,
            removed@.map_values(|u: usize| u as int) == below_bound(
                idxs.subrange(0, j as int),
                bound as int,
            ),
            forall|p: int| 0 <= p < removed@.len() ==> (#[trigger] removed@[p]) < bound,
            k == idxs.len(),
            idxs_usize.map_values(|u: usize| u as int) == idxs,
            to_remove@ == idxs_usize,
            k < n,
            bound == n - k,
            bound >= 1,
            completed@ == c,
            c.len() == n,
            prune_rec(sim_events@, idxs.skip(j as int), bound as int) == prune_rec(
                s0,
                idxs,
                bound as int,
            ),
            pending_ms(s0, c).add(taken_ms(s0, idxs.skip(j as int), bound as int))
                <= sim_events@.to_multiset(),
            sim_events@.to_multiset() <= s0.to_multiset(),
            sim_events@.len() >= bound + count_lt(idxs.skip(j as int), bound as int),
            sim_events@.len() <= n,
            forall|jj: int|
                j <= jj < k && #[trigger] idxs[jj] < bound ==> idxs[jj] < sim_events@.len()
                    && sim_events@[idxs[jj]] == s0[idxs[jj]],
            forall|k1: int, k2: int| 0 <= k1 < k2 < k ==> idxs[k1] < idxs[k2],
        decreases k - j,
    {
        let idx = to_remove[j];
        let ghost plan_pre = idxs.subrange(0, j as int);
        let ghost plan_post = idxs.subrange(0, j as int + 1);
        proof {
            assert(plan_post.drop_last() =~= plan_pre);
            assert(plan_post.last() == idxs[j as int]);
            assert(idxs_usize.map_values(|u: usize| u as int)[j as int] == idxs[j as int]);
            assert(idx as int == idxs[j as int]);
            lemma_count_lt_skip(idxs, bound as int, j as int);
            assert(idxs.skip(j as int)[0] == idxs[j as int]);
            assert(idxs.skip(j as int).drop_first() =~= idxs.skip(j as int + 1));
        }
        if idx < bound {
            removed.push(idx);
            proof {
                assert(removed@.map_values(|u: usize| u as int) =~= below_bound(
                    plan_post,
                    bound as int,
                ));
            }
            let ghost before = sim_events@;
            proof {
                lemma_count_lt_le_len(idxs.skip(j as int + 1), bound as int);
                assert(count_lt(idxs.skip(j as int), bound as int) >= 1);
                assert(before.len() >= bound + 1);
                assert(idx < before.len());
                assert(before[idx as int] == s0[idxs[j as int]]);
            }
            sim_events.swap_remove(idx);
            proof {
                let after = sim_events@;
                assert(after == swap_removed(before, idx as int));
                lemma_ms_swap_removed(before, idx as int);
                let v = s0[idxs[j as int]];
                // budget: the removed occurrence came out of the taken share
                assert(taken_ms(s0, idxs.skip(j as int), bound as int) == taken_ms(
                    s0,
                    idxs.skip(j as int + 1),
                    bound as int,
                ).insert(v));
                assert forall|x: u64|
                    pending_ms(s0, c).add(
                        taken_ms(s0, idxs.skip(j as int + 1), bound as int),
                    ).count(x) <= after.to_multiset().count(x) by {
                    assert(pending_ms(s0, c).add(
                        taken_ms(s0, idxs.skip(j as int), bound as int),
                    ).count(x) <= before.to_multiset().count(x));
                }
                // surviving positions below the bound keep their entries
                assert forall|jj: int|
                    j + 1 <= jj < k && #[trigger] idxs[jj] < bound implies idxs[jj] < after.len()
                    && after[idxs[jj]] == s0[idxs[jj]] by {
                    assert(idxs[j as int] < idxs[jj]);
                    assert(count_lt(idxs.skip(j as int), bound as int) >= 1);
                    assert(idxs[jj] < before.len() - 1);
                }
            }
        } else {
        }
        j += 1;
    }
    proof {
        assert(idxs.skip(k as int) =~= Seq::<int>::empty());
        assert(taken_ms(s0, Seq::<int>::empty(), bound as int) == Multiset::<u64>::empty());
        assert forall|x: u64|
            pending_ms(s0, c).count(x) <= sim_events@.to_multiset().count(x) by {
            assert(pending_ms(s0, c).add(Multiset::<u64>::empty()).count(x)
                <= sim_events@.to_multiset().count(x));
        }
        assert(idxs.subrange(0, k as int) =~= idxs);
    }
    PrunePlan::SwapRemovals(removed)
}

} // verus!
