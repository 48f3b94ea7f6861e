//! What it means for a ledger to be in a safe state, and the facts about
//! completion orders that the oracle's proof rests on.
//!
//! A state is safe when the live threads can be lined up so that each one, in
//! its turn, finds all of its outstanding need covered by the free units plus
//! everything the threads before it have handed back on finishing.

use crate::ledger::Ledger;
use vstd::prelude::*;

verus! {

/// Every entry of `need_row` is covered by the matching entry of `work`.
pub open spec fn fits(need_row: Seq<nat>, work: Seq<nat>) -> bool {
    forall|r: int| 0 <= r < work.len() ==> need_row[r] <= work[r]
}

impl Ledger {
    /// Units of `r` held by the threads listed in `order`, counted once per
    /// listing.
    pub open spec fn held_by(self, order: Seq<int>, r: int) -> nat
        decreases order.len(),
    {
        if order.len() == 0 {
            0
        } else {
            self.held_by(order.drop_last(), r) + self.allocation[order.last()][r]
        }
    }

    /// The capacity that can be drawn on once the threads in `order` have
    /// finished and returned what they hold.
    pub open spec fn reclaimed(self, order: Seq<int>) -> Seq<nat> {
        Seq::new(self.available.len(), |r: int| self.available[r] + self.held_by(order, r))
    }

    /// Thread `t` can run to completion once the threads in `order` have
    /// finished: all of its need, on every resource, is covered.
    pub open spec fn can_finish(self, order: Seq<int>, t: int) -> bool {
        fits(self.need[t], self.reclaimed(order))
    }

    /// `order` lists live threads, none twice, and each of them can finish
    /// once those listed before it have.
    pub open spec fn admits(self, live: Seq<bool>, order: Seq<int>) -> bool {
        &&& order.no_duplicates()
        &&& forall|k: int|
            0 <= k < order.len() ==> 0 <= #[trigger] order[k] < live.len() && live[order[k]]
        &&& forall|k: int|
            0 <= k < order.len() ==> #[trigger] self.can_finish(order.take(k), order[k])
    }

    /// `order` is a completion order: it is admitted and leaves no live thread
    /// out.
    pub open spec fn completes(self, live: Seq<bool>, order: Seq<int>) -> bool {
        &&& self.admits(live, order)
        &&& forall|t: int| 0 <= t < live.len() && #[trigger] live[t] ==> order.contains(t)
    }

    /// The state is safe for the threads marked in `live`: a completion order
    /// exists.  Positions not marked live count as already finished.
    pub open spec fn is_safe(self, live: Seq<bool>) -> bool {
        exists|order: Seq<int>| self.completes(live, order)
    }

    /// The tables once thread `t` has asked for a unit of `r` and the oracle
    /// has answered for the threads marked in `live`: with the request
    /// written in where the state it leads to is safe, and as they were where
    /// it is not.
    pub open spec fn after_request(self, live: Seq<bool>, t: int, r: int) -> Ledger {
        if self.request(t, r).is_safe(live) {
            self.request(t, r)
        } else {
            self
        }
    }

    /// No live thread outside `order` can finish on what `order` gives back.
    pub open spec fn stuck_after(self, live: Seq<bool>, order: Seq<int>) -> bool {
        forall|t: int|
            0 <= t < live.len() && #[trigger] live[t] && !order.contains(t) ==> !self.can_finish(
                order,
                t,
            )
    }

    /// Listing one more thread adds what that thread holds.
    pub proof fn lemma_held_by_push(self, order: Seq<int>, t: int, r: int)
        ensures
            self.held_by(order.push(t), r) == self.held_by(order, r) + self.allocation[t][r],
    {
        assert(order.push(t).drop_last() =~= order);
    }

    /// Striking one listing out removes what that thread holds.
    pub proof fn lemma_held_by_remove(self, order: Seq<int>, j: int, r: int)
        requires
            0 <= j < order.len(),
        ensures
            self.held_by(order, r) == self.held_by(order.remove(j), r)
                + self.allocation[order[j]][r],
        decreases order.len(),
    {
        if j == order.len() - 1 {
            assert(order.remove(j) =~= order.drop_last());
        } else {
            assert(order.remove(j).drop_last() =~= order.drop_last().remove(j));
            assert(order.remove(j).last() == order.last());
            self.lemma_held_by_remove(order.drop_last(), j, r);
        }
    }

    /// Threads drawn without repetition from `pool` hold no more than the
    /// threads of `pool` do.
    pub proof fn lemma_held_by_subset(self, part: Seq<int>, pool: Seq<int>, r: int)
        requires
            part.no_duplicates(),
            forall|k: int| 0 <= k < part.len() ==> pool.contains(#[trigger] part[k]),
        ensures
            self.held_by(part, r) <= self.held_by(pool, r),
        decreases part.len(),
    {
        if part.len() > 0 {
            let x = part.last();
            let rest = part.drop_last();
            assert(pool.contains(part[part.len() - 1]));
            let j = choose|j: int| 0 <= j < pool.len() && pool[j] == x;
            let pool_rest = pool.remove(j);
            assert forall|k: int| 0 <= k < rest.len() implies pool_rest.contains(
                #[trigger] rest[k],
            ) by {
                assert(rest[k] == part[k]);
                assert(pool.contains(part[k]));
                let i = choose|i: int| 0 <= i < pool.len() && pool[i] == part[k];
                assert(part[k] != x);
                if i < j {
                    assert(pool_rest[i] == pool[i]);
                } else {
                    assert(pool_rest[i - 1] == pool[i]);
                }
            }
            self.lemma_held_by_subset(rest, pool_rest, r);
            self.lemma_held_by_remove(pool, j, r);
        }
    }

    /// A thread that can finish next extends an admitted order.
    pub proof fn lemma_admits_push(self, live: Seq<bool>, order: Seq<int>, t: int)
        requires
            self.admits(live, order),
            0 <= t < live.len(),
            live[t],
            !order.contains(t),
            self.can_finish(order, t),
        ensures
            self.admits(live, order.push(t)),
    {
        let longer = order.push(t);
        assert forall|k: int| 0 <= k < longer.len() implies #[trigger] self.can_finish(
            longer.take(k),
            longer[k],
        ) by {
            if k < order.len() {
                assert(longer.take(k) =~= order.take(k));
                assert(self.can_finish(order.take(k), order[k]));
            } else {
                assert(longer.take(k) =~= order);
            }
        }
        assert forall|i: int, j: int|
            0 <= i < longer.len() && 0 <= j < longer.len() && i != j implies longer[i]
            != longer[j] by {
            if i < order.len() && j < order.len() {
            } else if i < order.len() {
                assert(order.contains(order[i]));
            } else {
                assert(order.contains(order[j]));
            }
        }
    }

    /// A thread that can finish on some capacity can finish on any capacity
    /// that is at least as large on every resource.
    pub proof fn lemma_can_finish_monotone(self, fewer: Seq<int>, more: Seq<int>, t: int)
        requires
            self.can_finish(fewer, t),
            forall|r: int|
                0 <= r < self.available.len() ==> self.held_by(fewer, r) <= self.held_by(more, r),
        ensures
            self.can_finish(more, t),
    {
        assert forall|r: int| 0 <= r < self.reclaimed(more).len() implies self.need[t][r]
            <= self.reclaimed(more)[r] by {
            assert(self.need[t][r] <= self.reclaimed(fewer)[r]);
        }
    }

    /// The greedy search is complete: if it halts on an admitted order that
    /// leaves some live thread out, while no thread left out can finish, then
    /// no completion order exists at all.
    pub proof fn lemma_stuck_is_unsafe(self, live: Seq<bool>, done: Seq<int>, left_out: int)
        requires
            self.stuck_after(live, done),
            0 <= left_out < live.len(),
            live[left_out],
            !done.contains(left_out),
        ensures
            !self.is_safe(live),
    {
        if self.is_safe(live) {
            let order = choose|order: Seq<int>| self.completes(live, order);
            assert(order.contains(left_out));
            let n = choose|n: int| 0 <= n < order.len() && order[n] == left_out;
            let k = first_outside(order, done, n);
            let before = order.take(k);
            let t = order[k];
            assert(self.can_finish(before, t));
            assert forall|r: int| 0 <= r < self.available.len() implies self.held_by(before, r)
                <= self.held_by(done, r) by {
                assert forall|i: int| 0 <= i < before.len() implies done.contains(
                    #[trigger] before[i],
                ) by {
                    assert(before[i] == order[i]);
                }
                self.lemma_held_by_subset(before, done, r);
            }
            self.lemma_can_finish_monotone(before, done, t);
            assert(live[t]);
        }
    }
}

/// The first position of `order`, at or before `n`, whose thread is not in
/// `done`.
pub proof fn first_outside(order: Seq<int>, done: Seq<int>, n: int) -> (k: int)
    requires
        0 <= n < order.len(),
        !done.contains(order[n]),
    ensures
        0 <= k <= n,
        !done.contains(order[k]),
        forall|j: int| 0 <= j < k ==> done.contains(#[trigger] order[j]),
    decreases n,
{
    if forall|j: int| 0 <= j < n ==> done.contains(#[trigger] order[j]) {
        n
    } else {
        let j = choose|j: int| 0 <= j < n && !done.contains(#[trigger] order[j]);
        first_outside(order, done, j)
    }
}

} // verus!
