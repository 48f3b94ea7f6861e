//! The executable resource tables and the operations that keep them.

use crate::laws::{lemma_resource_growth, lemma_thread_growth};
use crate::ledger::{clear_column, pad_row, pad_table, zero_row, Ledger};
use crate::safety::fits;
use crate::task::{live_mask, TaskControlBlock};
use vstd::prelude::*;

verus! {

/// The counts of one row, as natural numbers.
pub open spec fn row_view(row: Seq<u32>) -> Seq<nat> {
    Seq::new(row.len(), |r: int| row[r] as nat)
}

/// The counts of a whole table, row by row.
pub open spec fn table_view(rows: Seq<Vec<u32>>) -> Seq<Seq<nat>> {
    Seq::new(rows.len(), |t: int| row_view(rows[t]@))
}

/// The three resource tables of one process.
///
/// Rows are addressed by the position of a thread in the live-thread table,
/// columns by the identifier of a binary lock.  Both axes only ever grow.
#[derive(Clone, Debug, PartialEq, Eq)]
pub struct DeadlockDetectorInner {
    pub available: Vec<u32>,
    pub allocation: Vec<Vec<u32>>,
    pub need: Vec<Vec<u32>>,
}

/// The detector as a process owns it.
#[derive(Clone, Debug, PartialEq, Eq)]
pub struct DeadlockDetector {
    pub inner: DeadlockDetectorInner,
}

impl View for DeadlockDetectorInner {
    type V = Ledger;

    open spec fn view(&self) -> Ledger {
        Ledger {
            available: row_view(self.available@),
            allocation: table_view(self.allocation@),
            need: table_view(self.need@),
        }
    }
}

impl View for DeadlockDetector {
    type V = Ledger;

    open spec fn view(&self) -> Ledger {
        self.inner@
    }
}

impl DeadlockDetector {
    /// The detector of a fresh process: a row for its first thread and no
    /// resource yet.
    pub fn new() -> (detector: Self)
        ensures
            detector@ == Ledger::initial(),
            detector.inner.wf(),
    {
        let detector = Self {
            inner: DeadlockDetectorInner {
                available: vec![],
                allocation: vec![vec![]],
                need: vec![vec![]],
            },
        };
        assert(detector@ =~~= Ledger::initial());
        detector
    }

    /// Grows the thread axis to `len` rows; see
    /// [`DeadlockDetectorInner::resize_update_thread_cnt`].
    pub fn resize_update_thread_cnt(&mut self, len: usize)
        requires
            old(self).inner.wf(),
        ensures
            final(self)@ == old(self)@.with_threads(len as nat),
            final(self).inner.wf(),
    {
        self.inner.resize_update_thread_cnt(len);
    }

    /// Grows the resource axis to `len` columns; see
    /// [`DeadlockDetectorInner::resize_update_res_cnt`].
    pub fn resize_update_res_cnt(&mut self, len: usize)
        requires
            old(self).inner.wf(),
        ensures
            final(self)@ == old(self)@.with_resources(len as nat),
            final(self).inner.wf(),
    {
        self.inner.resize_update_res_cnt(len);
    }
}

impl Default for DeadlockDetector {
    /// A detector with no thread and no resource.
    fn default() -> (detector: Self)
        ensures
            detector@ == Ledger::empty(),
            detector.inner.wf(),
    {
        let detector = Self {
            inner: DeadlockDetectorInner {
                available: Vec::new(),
                allocation: Vec::new(),
                need: Vec::new(),
            },
        };
        assert(detector@ =~~= Ledger::empty());
        detector
    }
}

impl DeadlockDetectorInner {
    /// The tables share their axes.
    pub open spec fn wf(&self) -> bool {
        self@.wf()
    }

    /// Checks at run time that the tables share their axes.
    pub fn well_formed(&self) -> (ok: bool)
        ensures
            ok == self.wf(),
    {
        let width = self.available.len();
        let rows = self.allocation.len();
        if self.need.len() != rows {
            return false;
        }
        let mut t: usize = 0;
        while t < rows
            invariant
                0 <= t <= rows,
                rows == self.allocation@.len(),
                rows == self.need@.len(),
                width == self.available@.len(),
                forall|i: int| 0 <= i < t ==> (#[trigger] self@.allocation[i]).len() == width,
                forall|i: int| 0 <= i < t ==> (#[trigger] self@.need[i]).len() == width,
            decreases rows - t,
        {
            assert(self@.allocation[t as int].len() == self.allocation[t as int]@.len());
            assert(self@.need[t as int].len() == self.need[t as int]@.len());
            if self.allocation[t].len() != width || self.need[t].len() != width {
                return false;
            }
            t += 1;
        }
        true
    }

    /// Grows the thread axis to `len` rows.  Every new row is zero and as wide
    /// as the resource axis; a table that already has `len` rows or more is
    /// left as it is.
    pub fn resize_update_thread_cnt(&mut self, len: usize)
        requires
            old(self).wf(),
        ensures
            final(self)@ == old(self)@.with_threads(len as nat),
            final(self).wf(),
            final(self)@.available == old(self)@.available,
            final(self)@.threads() == if len > old(self)@.threads() {
                len as nat
            } else {
                old(self)@.threads()
            },
            forall|t: int|
                0 <= t < old(self)@.threads() ==> #[trigger] final(self)@.allocation[t]
                    == old(self)@.allocation[t],
            forall|t: int|
                0 <= t < old(self)@.threads() ==> #[trigger] final(self)@.need[t]
                    == old(self)@.need[t],
            forall|t: int|
                old(self)@.threads() <= t < len ==> #[trigger] final(self)@.allocation[t]
                    == zero_row(old(self)@.resources()),
            forall|t: int|
                old(self)@.threads() <= t < len ==> #[trigger] final(self)@.need[t] == zero_row(
                    old(self)@.resources(),
                ),
            forall|r: int|
                0 <= r < old(self)@.resources() ==> final(self)@.total(r) == old(self)@.total(r),
    {
        let res_len = self.available.len();
        if len > self.allocation.len() {
            self.allocation.resize(len, vec![0; res_len]);
            self.need.resize(len, vec![0; res_len]);
        }
        proof {
            let before = old(self)@;
            let after = self@;
            let width = before.resources();
            assert(after.allocation =~~= pad_table(before.allocation, len as nat, width));
            assert(after.need =~~= pad_table(before.need, len as nat, width));
            if len >= before.threads() {
                lemma_thread_growth(before, len as nat);
            }
        }
    }

    /// Grows the resource axis to `len` columns.  `available` and every thread
    /// row get zeros for the new columns; existing counts stay where they are.
    /// Tables that already have `len` columns or more are left as they are.
    pub fn resize_update_res_cnt(&mut self, len: usize)
        requires
            old(self).wf(),
        ensures
            final(self)@ == old(self)@.with_resources(len as nat),
            final(self).wf(),
            final(self)@.threads() == old(self)@.threads(),
            final(self)@.resources() == if len > old(self)@.resources() {
                len as nat
            } else {
                old(self)@.resources()
            },
            forall|r: int|
                0 <= r < old(self)@.resources() ==> final(self)@.available[r]
                    == old(self)@.available[r],
            forall|r: int|
                old(self)@.resources() <= r < len ==> final(self)@.available[r] == 0,
            forall|t: int, r: int|
                0 <= t < old(self)@.threads() && 0 <= r < old(self)@.resources() ==> {
                    &&& final(self)@.allocation[t][r] == old(self)@.allocation[t][r]
                    &&& final(self)@.need[t][r] == old(self)@.need[t][r]
                },
            forall|t: int, r: int|
                0 <= t < old(self)@.threads() && old(self)@.resources() <= r < len ==> {
                    &&& final(self)@.allocation[t][r] == 0
                    &&& final(self)@.need[t][r] == 0
                },
            forall|r: int|
                0 <= r < old(self)@.resources() ==> final(self)@.total(r) == old(self)@.total(r),
            forall|r: int| old(self)@.resources() <= r < len ==> final(self)@.total(r) == 0,
    {
        let ghost before = self@;
        let ghost old_allocation = self.allocation@;
        let ghost old_need = self.need@;
        if len > self.available.len() {
            self.available.resize(len, 0);
            let rows = self.allocation.len();
            let mut t: usize = 0;
            while t < rows
                invariant
                    0 <= t <= rows,
                    rows == old_allocation.len(),
                    rows == old_need.len(),
                    self.allocation.len() == rows,
                    self.need.len() == rows,
                    before.wf(),
                    before.allocation == table_view(old_allocation),
                    before.need == table_view(old_need),
                    len > before.resources(),
                    row_view(self.available@) == pad_row(before.available, len as nat),
                    forall|i: int|
                        0 <= i < t ==> row_view(#[trigger] self.allocation[i]@) == pad_row(
                            before.allocation[i],
                            len as nat,
                        ),
                    forall|i: int|
                        0 <= i < t ==> row_view(#[trigger] self.need[i]@) == pad_row(
                            before.need[i],
                            len as nat,
                        ),
                    forall|i: int|
                        t <= i < rows ==> #[trigger] self.allocation[i] == old_allocation[i],
                    forall|i: int| t <= i < rows ==> #[trigger] self.need[i] == old_need[i],
                decreases rows - t,
            {
                assert(before.allocation[t as int].len() == before.resources());
                assert(before.need[t as int].len() == before.resources());
                self.allocation[t].resize(len, 0);
                self.need[t].resize(len, 0);
                assert(row_view(self.allocation[t as int]@) =~= pad_row(
                    before.allocation[t as int],
                    len as nat,
                ));
                assert(row_view(self.need[t as int]@) =~= pad_row(
                    before.need[t as int],
                    len as nat,
                ));
                t += 1;
            }
            assert(self@.allocation =~= before.with_resources(len as nat).allocation);
            assert(self@.need =~= before.with_resources(len as nat).need);
            proof {
                lemma_resource_growth(before, len as nat);
            }
        } else {
            assert(self@.allocation =~= before.with_resources(len as nat).allocation);
            assert(self@.need =~= before.with_resources(len as nat).need);
        }
    }

    /// Starts resource `rid` afresh with `units` free units, as for a lock
    /// that has just been created: in every thread row the column of `rid` is
    /// set to zero, so that nothing an earlier lock of that identifier left
    /// behind counts against the new one.
    pub fn reset_resource(&mut self, rid: usize, units: u32)
        requires
            old(self).wf(),
            rid < old(self)@.resources(),
        ensures
            final(self)@ == old(self)@.restock(rid as int, units as nat),
            final(self).wf(),
            final(self)@.total(rid as int) == units,
            forall|r: int|
                0 <= r < old(self)@.resources() && r != rid ==> final(self)@.total(r)
                    == old(self)@.total(r),
    {
        let ghost before = self@;
        self.available[rid] = units;
        let rows = self.allocation.len();
        let mut t: usize = 0;
        while t < rows
            invariant
                0 <= t <= rows,
                before.wf(),
                rid < before.resources(),
                self.allocation.len() == rows,
                self.need.len() == rows,
                rows == before.threads(),
                row_view(self.available@) == before.available.update(rid as int, units as nat),
                forall|i: int|
                    0 <= i < t ==> row_view(#[trigger] self.allocation[i]@)
                        == before.allocation[i].update(rid as int, 0nat),
                forall|i: int|
                    0 <= i < t ==> row_view(#[trigger] self.need[i]@) == before.need[i].update(
                        rid as int,
                        0nat,
                    ),
                forall|i: int|
                    t <= i < rows ==> row_view(#[trigger] self.allocation[i]@)
                        == before.allocation[i],
                forall|i: int|
                    t <= i < rows ==> row_view(#[trigger] self.need[i]@) == before.need[i],
            decreases rows - t,
        {
            assert(before.allocation[t as int].len() == before.resources());
            assert(before.need[t as int].len() == before.resources());
            assert(row_view(self.allocation[t as int]@).len() == self.allocation[t as int]@.len());
            assert(row_view(self.need[t as int]@).len() == self.need[t as int]@.len());
            let ghost old_allocation = self.allocation@;
            let ghost old_need = self.need@;
            self.allocation[t][rid] = 0;
            self.need[t][rid] = 0;
            assert(row_view(self.allocation[t as int]@) =~= before.allocation[t as int].update(
                rid as int,
                0nat,
            ));
            assert(row_view(self.need[t as int]@) =~= before.need[t as int].update(
                rid as int,
                0nat,
            ));
            assert forall|i: int| 0 <= i < rows && i != t implies #[trigger] self.allocation[i]
                == old_allocation[i] && self.need[i] == old_need[i] by {}
            t += 1;
        }
        proof {
            assert(self@.allocation =~= clear_column(before.allocation, rid as int));
            assert(self@.need =~= clear_column(before.need, rid as int));
            before.lemma_restock_totals(rid as int, units as nat);
        }
    }

    /// Starts thread position `tidx` afresh, as for a thread that has just been
    /// entered into a slot that may have been used before: its rows in
    /// `allocation` and `need` are set to zero.  What the earlier thread held
    /// is not handed back to the free pool.
    pub fn reset_thread(&mut self, tidx: usize)
        requires
            old(self).wf(),
            tidx < old(self)@.threads(),
        ensures
            final(self)@ == old(self)@.reset_thread(tidx as int),
            final(self).wf(),
            final(self)@.available == old(self)@.available,
            final(self)@.threads() == old(self)@.threads(),
            final(self)@.allocation[tidx as int] == zero_row(old(self)@.resources()),
            final(self)@.need[tidx as int] == zero_row(old(self)@.resources()),
            forall|t: int|
                0 <= t < old(self)@.threads() && t != tidx
                    ==> #[trigger] final(self)@.allocation[t] == old(self)@.allocation[t],
            forall|t: int|
                0 <= t < old(self)@.threads() && t != tidx ==> #[trigger] final(self)@.need[t]
                    == old(self)@.need[t],
    {
        let width = self.available.len();
        self.allocation[tidx] = vec![0; width];
        self.need[tidx] = vec![0; width];
        proof {
            let before = old(self)@;
            assert(row_view(self.allocation[tidx as int]@) =~= zero_row(before.resources()));
            assert(row_view(self.need[tidx as int]@) =~= zero_row(before.resources()));
            assert(self@ =~~= before.reset_thread(tidx as int));
        }
    }

    /// Decides whether thread `tidx` may go on to contend for resource `rid`.
    ///
    /// The request is first written into `need`.  The state that results is
    /// then examined for the threads that `tasks` shows alive: if they can
    /// all still finish in some order the request stands and the answer is
    /// `true`; if not, the request is struck out again, cell for cell, and the
    /// answer is `false`.
    pub fn request(
        &mut self,
        tasks: &[Option<TaskControlBlock>],
        tidx: usize,
        rid: usize,
    ) -> (granted: bool)
        requires
            old(self).wf(),
            old(self)@.in_bounds(tidx as int, rid as int),
            old(self)@.need[tidx as int][rid as int] < u32::MAX,
            forall|i: int|
                0 <= i < tasks@.len() && (#[trigger] tasks@[i]).is_some() ==> i < old(
                    self,
                )@.threads(),
        ensures
            granted == old(self)@.request(tidx as int, rid as int).is_safe(live_mask(tasks@)),
            final(self)@ == old(self)@.after_request(live_mask(tasks@), tidx as int, rid as int),
            granted ==> final(self)@ == old(self)@.request(tidx as int, rid as int),
            !granted ==> final(self)@ == old(self)@,
            final(self).wf(),
    {
        let ghost before = self@;
        self.need[tidx][rid] += 1;
        let ghost state = self@;
        let ghost live = live_mask(tasks@);
        assert(state =~~= before.request(tidx as int, rid as int));

        let n = tasks.len();
        let mut work = self.available.clone();
        let mut finish: Vec<bool> = Vec::new();
        let mut i: usize = 0;
        while i < n
            invariant
                0 <= i <= n,
                n == tasks@.len(),
                finish@.len() == i,
                forall|j: int| 0 <= j < i ==> finish@[j] == !live_mask(tasks@)[j],
            decreases n - i,
        {
            finish.push(tasks[i].is_none());
            i += 1;
        }
        let ghost mut done: Seq<int> = Seq::empty();
        assert(work@ =~= self.available@);
        loop
            invariant
                self@ == state,
                state.wf(),
                live == live_mask(tasks@),
                n == tasks@.len(),
                forall|j: int| 0 <= j < n && #[trigger] live[j] ==> j < state.threads(),
                finish@.len() == n,
                work@.len() == state.resources(),
                state.admits(live, done),
                forall|j: int|
                    0 <= j < n ==> #[trigger] finish@[j] == (!live[j] || done.contains(j)),
                forall|r: int|
                    0 <= r < work@.len() ==> (#[trigger] work@[r]) as nat == capped(
                        state.reclaimed(done)[r],
                    ),
            ensures
                state.stuck_after(live, done),
            decreases unfinished(finish@),
        {
            let mut found = false;
            let ghost start = unfinished(finish@);
            let mut i: usize = 0;
            while i < n
                invariant
                    0 <= i <= n,
                    self@ == state,
                    state.wf(),
                    live == live_mask(tasks@),
                    n == tasks@.len(),
                    forall|j: int| 0 <= j < n && #[trigger] live[j] ==> j < state.threads(),
                    finish@.len() == n,
                    work@.len() == state.resources(),
                    state.admits(live, done),
                    forall|j: int|
                        0 <= j < n ==> #[trigger] finish@[j] == (!live[j] || done.contains(j)),
                    forall|r: int|
                        0 <= r < work@.len() ==> (#[trigger] work@[r]) as nat == capped(
                            state.reclaimed(done)[r],
                        ),
                    !found ==> forall|j: int|
                        0 <= j < i && !#[trigger] finish@[j] ==> !state.can_finish(done, j),
                    unfinished(finish@) <= start,
                    found ==> unfinished(finish@) < start,
                decreases n - i,
            {
                if !finish[i] {
                    assert(live[i as int]);
                    assert(state.need[i as int] == row_view(self.need[i as int]@));
                    assert(state.allocation[i as int] == row_view(self.allocation[i as int]@));
                    assert(state.need[i as int].len() == state.resources());
                    assert(state.allocation[i as int].len() == state.resources());
                    let able = covers(&self.need[i], &work);
                    proof {
                        lemma_fits_capped(
                            state.need[i as int],
                            state.reclaimed(done),
                            self.need[i as int]@,
                            work@,
                        );
                    }
                    if able {
                        let ghost old_work = work@;
                        reclaim(&mut work, &self.allocation[i]);
                        proof {
                            let longer = done.push(i as int);
                            state.lemma_admits_push(live, done, i as int);
                            assert forall|r: int| 0 <= r < work@.len() implies (
                            #[trigger] work@[r]) as nat == capped(state.reclaimed(longer)[r]) by {
                                state.lemma_held_by_push(done, i as int, r);
                                assert(old_work[r] as nat == capped(state.reclaimed(done)[r]));
                            }
                            lemma_unfinished_set(finish@, i as int);
                            assert forall|j: int| 0 <= j < n implies #[trigger] finish@.update(
                                i as int,
                                true,
                            )[j] == (!live[j] || longer.contains(j)) by {
                                lemma_push_contains(done, i as int, j);
                            }
                            done = longer;
                        }
                        finish[i] = true;
                        found = true;
                    }
                }
                i += 1;
            }
            if !found {
                proof {
                    assert forall|t: int|
                        0 <= t < live.len() && #[trigger] live[t] && !done.contains(
                            t,
                        ) implies !state.can_finish(done, t) by {
                        assert(!finish@[t]);
                    }
                }
                break ;
            }
        }
        let mut all = true;
        let mut j: usize = 0;
        while j < n
            invariant
                0 <= j <= n,
                finish@.len() == n,
                all == forall|k: int| 0 <= k < j ==> #[trigger] finish@[k],
            decreases n - j,
        {
            if !finish[j] {
                all = false;
            }
            j += 1;
        }
        if all {
            proof {
                assert forall|t: int|
                    0 <= t < live.len() && #[trigger] live[t] implies done.contains(t) by {
                    assert(finish@[t]);
                }
                assert(state.completes(live, done));
            }
            true
        } else {
            proof {
                let k = choose|k: int| 0 <= k < n && !#[trigger] finish@[k];
                state.lemma_stuck_is_unsafe(live, done, k);
            }
            self.need[tidx][rid] -= 1;
            assert(self@ =~~= before);
            false
        }
    }

    /// Commits an acquisition that `request` has approved: one unit of `rid`
    /// leaves the free pool, thread `tidx` holds one more, and one unit of its
    /// need is settled.  Nothing is validated again.
    pub fn allocate(&mut self, tidx: usize, rid: usize)
        requires
            old(self).wf(),
            old(self)@.in_bounds(tidx as int, rid as int),
            old(self)@.available[rid as int] >= 1,
            old(self)@.need[tidx as int][rid as int] >= 1,
            old(self)@.allocation[tidx as int][rid as int] < u32::MAX,
        ensures
            final(self)@ == old(self)@.allocate(tidx as int, rid as int),
            final(self).wf(),
            forall|r: int|
                0 <= r < old(self)@.resources() ==> final(self)@.total(r) == old(self)@.total(r),
    {
        self.available[rid] -= 1;
        self.need[tidx][rid] -= 1;
        self.allocation[tidx][rid] += 1;
        proof {
            assert(self@ =~~= old(self)@.allocate(tidx as int, rid as int));
            old(self)@.lemma_allocate_conserves(tidx as int, rid as int);
        }
    }

    /// Records a release: one unit of `rid` goes from thread `tidx` back to the
    /// free pool.  `need` is not touched.
    pub fn free(&mut self, tidx: usize, rid: usize)
        requires
            old(self).wf(),
            old(self)@.in_bounds(tidx as int, rid as int),
            old(self)@.allocation[tidx as int][rid as int] >= 1,
            old(self)@.available[rid as int] < u32::MAX,
        ensures
            final(self)@ == old(self)@.free(tidx as int, rid as int),
            final(self).wf(),
            forall|r: int|
                0 <= r < old(self)@.resources() ==> final(self)@.total(r) == old(self)@.total(r),
    {
        self.available[rid] += 1;
        self.allocation[tidx][rid] -= 1;
        proof {
            assert(self@ =~~= old(self)@.free(tidx as int, rid as int));
            old(self)@.lemma_free_conserves(tidx as int, rid as int);
        }
    }
}

/// A count as the machine keeps it: anything beyond the largest `u32` is held
/// at that bound.
spec fn capped(units: nat) -> nat {
    if units > u32::MAX {
        u32::MAX as nat
    } else {
        units
    }
}

/// How many entries of `finish` are still `false`.
spec fn unfinished(finish: Seq<bool>) -> nat
    decreases finish.len(),
{
    if finish.len() == 0 {
        0
    } else {
        unfinished(finish.drop_last()) + if finish.last() {
            0nat
        } else {
            1nat
        }
    }
}

proof fn lemma_unfinished_set(finish: Seq<bool>, i: int)
    requires
        0 <= i < finish.len(),
        !finish[i],
    ensures
        unfinished(finish.update(i, true)) + 1 == unfinished(finish),
    decreases finish.len(),
{
    let marked = finish.update(i, true);
    if i == finish.len() - 1 {
        assert(marked.drop_last() =~= finish.drop_last());
    } else {
        assert(marked.drop_last() =~= finish.drop_last().update(i, true));
        lemma_unfinished_set(finish.drop_last(), i);
    }
}

proof fn lemma_push_contains(order: Seq<int>, t: int, x: int)
    ensures
        order.push(t).contains(x) <==> (order.contains(x) || x == t),
{
    let longer = order.push(t);
    if order.contains(x) {
        let k = choose|k: int| 0 <= k < order.len() && order[k] == x;
        assert(longer[k] == x);
    }
    if x == t {
        assert(longer[order.len() as int] == x);
    }
    if longer.contains(x) {
        let k = choose|k: int| 0 <= k < longer.len() && longer[k] == x;
        if k < order.len() {
            assert(order[k] == x);
        }
    }
}

/// Comparing machine counts against capped capacity decides the same as
/// comparing the true numbers.
proof fn lemma_fits_capped(need_row: Seq<nat>, capacity: Seq<nat>, need: Seq<u32>, work: Seq<u32>)
    requires
        need_row == row_view(need),
        need.len() == capacity.len(),
        work.len() == capacity.len(),
        forall|r: int| 0 <= r < work.len() ==> (#[trigger] work[r]) as nat == capped(capacity[r]),
    ensures
        fits(need_row, capacity) <==> forall|r: int|
            0 <= r < work.len() ==> need[r] <= #[trigger] work[r],
{
    if fits(need_row, capacity) {
        assert forall|r: int| 0 <= r < work.len() implies need[r] <= #[trigger] work[r] by {
            assert(need_row[r] <= capacity[r]);
        }
    }
    if forall|r: int| 0 <= r < work.len() ==> need[r] <= #[trigger] work[r] {
        assert forall|r: int| 0 <= r < capacity.len() implies need_row[r] <= capacity[r] by {
            assert(need[r] <= work[r]);
        }
    }
}

/// Whether `work` covers `need`, resource by resource.
fn covers(need: &Vec<u32>, work: &Vec<u32>) -> (able: bool)
    requires
        need@.len() == work@.len(),
    ensures
        able == forall|r: int| 0 <= r < work@.len() ==> need@[r] <= #[trigger] work@[r],
{
    let mut r: usize = 0;
    while r < work.len()
        invariant
            0 <= r <= work@.len(),
            need@.len() == work@.len(),
            forall|k: int| 0 <= k < r ==> need@[k] <= #[trigger] work@[k],
        decreases work@.len() - r,
    {
        if need[r] > work[r] {
            return false;
        }
        r += 1;
    }
    true
}

/// Adds what a finishing thread holds to `work`, holding each count at the
/// largest `u32` instead of wrapping.
fn reclaim(work: &mut Vec<u32>, held: &Vec<u32>)
    requires
        held@.len() == old(work)@.len(),
    ensures
        final(work)@.len() == old(work)@.len(),
        forall|r: int|
            0 <= r < old(work)@.len() ==> (#[trigger] final(work)@[r]) as nat == capped(
                (old(work)@[r] + held@[r]) as nat,
            ),
{
    let ghost start = work@;
    let mut r: usize = 0;
    while r < work.len()
        invariant
            0 <= r <= work@.len(),
            work@.len() == start.len(),
            held@.len() == start.len(),
            forall|k: int|
                0 <= k < r ==> (#[trigger] work@[k]) as nat == capped((start[k] + held@[k]) as nat),
            forall|k: int| r <= k < work@.len() ==> #[trigger] work@[k] == start[k],
        decreases work@.len() - r,
    {
        work[r] = work[r].saturating_add(held[r]);
        r += 1;
    }
}

} // verus!
