//! Laws of the ledger: what the operations on the resource tables promise
//! beyond the single call.

use crate::ledger::{
    column_sum, lemma_column_sum_agree, lemma_column_sum_append, lemma_column_sum_zero, pad_table,
    zero_row, Ledger,
};
use vstd::prelude::*;

verus! {

/// One bookkeeping step of the lock path.
pub enum LedgerStep {
    /// Thread `t` asks for a unit of `r`.
    Request { t: int, r: int },
    /// A unit of `r` that thread `t` had asked for is handed to it.
    Allocate { t: int, r: int },
    /// A unit of `r` is handed to thread `t` unasked.
    Grant { t: int, r: int },
    /// Thread `t` gives a unit of `r` back.
    Free { t: int, r: int },
}

impl Ledger {
    /// The step names a cell of the tables and the units it moves are there.
    pub open spec fn admits_step(self, step: LedgerStep) -> bool {
        match step {
            LedgerStep::Request { t, r } => self.in_bounds(t, r),
            LedgerStep::Allocate { t, r } => self.in_bounds(t, r) && self.available[r] >= 1
                && self.need[t][r] >= 1,
            LedgerStep::Grant { t, r } => self.in_bounds(t, r) && self.available[r] >= 1,
            LedgerStep::Free { t, r } => self.in_bounds(t, r) && self.allocation[t][r] >= 1,
        }
    }

    /// The tables after the step.
    pub open spec fn step(self, step: LedgerStep) -> Ledger {
        match step {
            LedgerStep::Request { t, r } => self.request(t, r),
            LedgerStep::Allocate { t, r } => self.allocate(t, r),
            LedgerStep::Grant { t, r } => self.grant(t, r),
            LedgerStep::Free { t, r } => self.free(t, r),
        }
    }

    /// The tables after all of `steps`, first to last.
    pub open spec fn run(self, steps: Seq<LedgerStep>) -> Ledger
        decreases steps.len(),
    {
        if steps.len() == 0 {
            self
        } else {
            self.run(steps.drop_last()).step(steps.last())
        }
    }

    /// Each of `steps` is admitted by the tables it meets.
    pub open spec fn admits_run(self, steps: Seq<LedgerStep>) -> bool
        decreases steps.len(),
    {
        steps.len() > 0 ==> self.admits_run(steps.drop_last()) && self.run(
            steps.drop_last(),
        ).admits_step(steps.last())
    }
}

/// Growing the thread axis to `count` gives every table exactly `count` rows,
/// each as wide as the resource axis.  The rows that were there keep their
/// values, the new rows are zero, `available` is untouched, and so is the
/// total of every resource.
pub proof fn lemma_thread_growth(s: Ledger, count: nat)
    requires
        s.wf(),
        count >= s.threads(),
    ensures
        s.with_threads(count).wf(),
        s.with_threads(count).allocation.len() == count,
        s.with_threads(count).need.len() == count,
        s.with_threads(count).available == s.available,
        forall|t: int|
            0 <= t < s.threads() ==> #[trigger] s.with_threads(count).allocation[t]
                == s.allocation[t],
        forall|t: int|
            0 <= t < s.threads() ==> #[trigger] s.with_threads(count).need[t] == s.need[t],
        forall|t: int|
            s.threads() <= t < count ==> #[trigger] s.with_threads(count).allocation[t] == zero_row(
                s.resources(),
            ),
        forall|t: int|
            s.threads() <= t < count ==> #[trigger] s.with_threads(count).need[t] == zero_row(
                s.resources(),
            ),
        forall|r: int| 0 <= r < s.resources() ==> s.with_threads(count).total(r) == s.total(r),
{
    let grown = s.with_threads(count);
    if count > s.threads() {
        let fresh = Seq::new((count - s.threads()) as nat, |t: int| zero_row(s.resources()));
        assert(grown.allocation == s.allocation + fresh);
        assert forall|r: int| 0 <= r < s.resources() implies grown.total(r) == s.total(r) by {
            lemma_column_sum_append(s.allocation, fresh, r);
            lemma_column_sum_zero(fresh, r);
        }
    }
}

/// A thread axis that is already `count` long or longer stays as it is.
pub proof fn lemma_thread_axis_never_shrinks(s: Ledger, count: nat)
    requires
        count <= s.threads(),
        s.wf(),
    ensures
        s.with_threads(count) == s,
{
}

/// Growing the resource axis to `width` gives `available` and every thread
/// row exactly `width` entries.  The entries that were there keep their
/// values and the new ones are zero; the total of an old resource is what it
/// was, and the total of a new one is zero.
pub proof fn lemma_resource_growth(s: Ledger, width: nat)
    requires
        s.wf(),
        width >= s.resources(),
    ensures
        s.with_resources(width).wf(),
        s.with_resources(width).available.len() == width,
        s.with_resources(width).threads() == s.threads(),
        forall|t: int|
            0 <= t < s.threads() ==> (#[trigger] s.with_resources(width).allocation[t]).len()
                == width && s.with_resources(width).need[t].len() == width,
        forall|r: int|
            0 <= r < s.resources() ==> s.with_resources(width).available[r] == s.available[r],
        forall|r: int| s.resources() <= r < width ==> s.with_resources(width).available[r] == 0,
        forall|t: int, r: int|
            0 <= t < s.threads() && 0 <= r < s.resources() ==> s.with_resources(
                width,
            ).allocation[t][r] == s.allocation[t][r] && s.with_resources(width).need[t][r]
                == s.need[t][r],
        forall|t: int, r: int|
            0 <= t < s.threads() && s.resources() <= r < width ==> s.with_resources(
                width,
            ).allocation[t][r] == 0 && s.with_resources(width).need[t][r] == 0,
        forall|r: int| 0 <= r < s.resources() ==> s.with_resources(width).total(r) == s.total(r),
        forall|r: int| s.resources() <= r < width ==> s.with_resources(width).total(r) == 0,
{
    let grown = s.with_resources(width);
    assert forall|r: int| 0 <= r < s.resources() implies grown.total(r) == s.total(r) by {
        assert forall|t: int| 0 <= t < s.threads() implies (#[trigger] grown.allocation[t])[r]
            == s.allocation[t][r] by {
            assert(s.allocation[t].len() == s.resources());
        }
        lemma_column_sum_agree(grown.allocation, s.allocation, r);
    }
    assert forall|r: int| s.resources() <= r < width implies grown.total(r) == 0 by {
        assert forall|t: int| 0 <= t < grown.allocation.len() implies (
        #[trigger] grown.allocation[t])[r] == 0 by {
            assert(s.allocation[t].len() == s.resources());
        }
        lemma_column_sum_zero(grown.allocation, r);
    }
    assert forall|t: int, r: int| 0 <= t < s.threads() && 0 <= r < width implies (r
        < s.resources() ==> grown.allocation[t][r] == s.allocation[t][r] && grown.need[t][r]
        == s.need[t][r]) && (r >= s.resources() ==> grown.allocation[t][r] == 0
        && grown.need[t][r] == 0) by {
        assert(s.allocation[t].len() == s.resources());
        assert(s.need[t].len() == s.resources());
    }
    assert forall|t: int| 0 <= t < s.threads() implies (#[trigger] grown.allocation[t]).len()
        == width && grown.need[t].len() == width by {
        assert(s.allocation[t].len() == s.resources());
        assert(s.need[t].len() == s.resources());
    }
}

/// A resource axis that is already `width` long or longer stays as it is.
pub proof fn lemma_resource_axis_never_shrinks(s: Ledger, width: nat)
    requires
        width <= s.resources(),
        s.wf(),
    ensures
        s.with_resources(width) == s,
{
    let same = s.with_resources(width);
    assert forall|t: int| 0 <= t < s.threads() implies #[trigger] same.allocation[t]
        == s.allocation[t] by {
        assert(s.allocation[t].len() == s.resources());
    }
    assert forall|t: int| 0 <= t < s.need.len() implies #[trigger] same.need[t] == s.need[t] by {
        assert(s.need[t].len() == s.resources());
    }
    assert(same.allocation =~= s.allocation);
    assert(same.need =~= s.need);
}

/// The two resizes commute: growing the thread axis and then the resource
/// axis gives the same tables as growing them the other way round.
pub proof fn lemma_resizes_commute(s: Ledger, count: nat, width: nat)
    requires
        s.wf(),
    ensures
        s.with_threads(count).with_resources(width) == s.with_resources(width).with_threads(count),
{
    let a = s.with_threads(count).with_resources(width);
    let b = s.with_resources(width).with_threads(count);
    assert(a.available =~= b.available);
    assert forall|t: int| 0 <= t < a.allocation.len() implies #[trigger] a.allocation[t]
        =~= b.allocation[t] by {
        if t < s.threads() {
            assert(s.allocation[t].len() == s.resources());
        }
    }
    assert forall|t: int| 0 <= t < a.need.len() implies #[trigger] a.need[t] =~= b.need[t] by {
        if t < s.need.len() {
            assert(s.need[t].len() == s.resources());
        }
    }
    assert(a.allocation =~= b.allocation);
    assert(a.need =~= b.need);
}

/// No bookkeeping step of the lock path creates or loses a unit: for every
/// resource, the free units and the held units together stay what they were.
pub proof fn lemma_step_conserves(s: Ledger, step: LedgerStep)
    requires
        s.wf(),
        s.admits_step(step),
    ensures
        s.step(step).wf(),
        s.step(step).resources() == s.resources(),
        s.step(step).threads() == s.threads(),
        forall|r: int| 0 <= r < s.resources() ==> s.step(step).total(r) == s.total(r),
{
    match step {
        LedgerStep::Request { t, r } => {},
        LedgerStep::Allocate { t, r } => {
            s.lemma_allocate_conserves(t, r);
        },
        LedgerStep::Grant { t, r } => {
            s.lemma_allocate_conserves(t, r);
        },
        LedgerStep::Free { t, r } => {
            s.lemma_free_conserves(t, r);
        },
    }
}

/// Conservation: whatever sequence of requests, allocations, grants and
/// releases the tables go through, the total of every resource at the end is
/// the total at the start.
pub proof fn lemma_conservation(s: Ledger, steps: Seq<LedgerStep>)
    requires
        s.wf(),
        s.admits_run(steps),
    ensures
        s.run(steps).wf(),
        s.run(steps).resources() == s.resources(),
        s.run(steps).threads() == s.threads(),
        forall|r: int| 0 <= r < s.resources() ==> s.run(steps).total(r) == s.total(r),
    decreases steps.len(),
{
    if steps.len() > 0 {
        lemma_conservation(s, steps.drop_last());
        lemma_step_conserves(s.run(steps.drop_last()), steps.last());
    }
}

/// Rollback exactness: a request that the oracle refuses leaves every table
/// as it was, cell for cell and length for length.  This holds of any tables,
/// any thread, any resource and any set of live threads.
pub proof fn lemma_refusal_restores(s: Ledger, live: Seq<bool>, t: int, r: int)
    requires
        !s.request(t, r).is_safe(live),
    ensures
        s.after_request(live, t, r) == s,
        s.after_request(live, t, r).available == s.available,
        s.after_request(live, t, r).allocation == s.allocation,
        s.after_request(live, t, r).need == s.need,
{
}

/// A request, granted or refused, touches neither `available` nor
/// `allocation`, and in `need` at most the one cell it asks for.
pub proof fn lemma_request_touches_one_cell(s: Ledger, live: Seq<bool>, t: int, r: int)
    requires
        s.wf(),
        s.in_bounds(t, r),
    ensures
        s.after_request(live, t, r).available == s.available,
        s.after_request(live, t, r).allocation == s.allocation,
        s.after_request(live, t, r).need.len() == s.need.len(),
        forall|i: int, c: int|
            0 <= i < s.threads() && 0 <= c < s.resources() && !(i == t && c == r)
                ==> s.after_request(live, t, r).need[i][c] == s.need[i][c],
        s.after_request(live, t, r).wf(),
{
}

/// `free` undoes `allocate` on `available` and `allocation`.
pub proof fn lemma_free_undoes_allocate(s: Ledger, t: int, r: int)
    requires
        s.wf(),
        s.in_bounds(t, r),
        s.available[r] >= 1,
    ensures
        s.allocate(t, r).free(t, r).available == s.available,
        s.allocate(t, r).free(t, r).allocation == s.allocation,
{
    let back = s.allocate(t, r).free(t, r);
    assert(back.available =~= s.available);
    assert(back.allocation[t] =~= s.allocation[t]);
    assert(back.allocation =~= s.allocation);
}

/// `allocate` undoes `free` on `available` and `allocation`.
pub proof fn lemma_allocate_undoes_free(s: Ledger, t: int, r: int)
    requires
        s.wf(),
        s.in_bounds(t, r),
        s.allocation[t][r] >= 1,
    ensures
        s.free(t, r).allocate(t, r).available == s.available,
        s.free(t, r).allocate(t, r).allocation == s.allocation,
{
    let back = s.free(t, r).allocate(t, r);
    assert(back.available =~= s.available);
    assert(back.allocation[t] =~= s.allocation[t]);
    assert(back.allocation =~= s.allocation);
}

/// `free` never touches `need`.
pub proof fn lemma_free_keeps_need(s: Ledger, t: int, r: int)
    ensures
        s.free(t, r).need == s.need,
{
}

/// A request that is approved and committed leaves `need` as it found it:
/// what `request` adds, `allocate` settles.
pub proof fn lemma_allocate_settles_request(s: Ledger, t: int, r: int)
    requires
        s.wf(),
        s.in_bounds(t, r),
    ensures
        s.request(t, r).allocate(t, r).need == s.need,
        s.request(t, r).allocate(t, r) == s.grant(t, r),
{
    let done = s.request(t, r).allocate(t, r);
    assert(done.need[t] =~= s.need[t]);
    assert(done.need =~= s.need);
    assert(done.allocation =~= s.grant(t, r).allocation);
    assert(done.available =~= s.grant(t, r).available);
}

} // verus!
