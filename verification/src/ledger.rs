//! The mathematical picture of the resource tables.
//!
//! A [`Ledger`] is what the executable tables mean: unbounded counts arranged
//! along a thread axis and a resource axis.  Every contract in this crate that
//! talks about the tables is phrased over a `Ledger` and the operations below.

use vstd::prelude::*;

verus! {

/// The three tables of the detector, as sequences of natural numbers.
///
/// `available[r]` counts the units of resource `r` that no thread holds,
/// `allocation[t][r]` the units of `r` that thread `t` holds, and `need[t][r]`
/// the units of `r` that thread `t` has asked for and not yet been given.
#[verifier::ext_equal]
pub struct Ledger {
    pub available: Seq<nat>,
    pub allocation: Seq<Seq<nat>>,
    pub need: Seq<Seq<nat>>,
}

/// A row of `width` zeros.
pub open spec fn zero_row(width: nat) -> Seq<nat> {
    Seq::new(width, |r: int| 0nat)
}

/// `row` extended with zeros up to `width`; a row that is already that wide is
/// left alone.
pub open spec fn pad_row(row: Seq<nat>, width: nat) -> Seq<nat> {
    if width > row.len() {
        row + zero_row((width - row.len()) as nat)
    } else {
        row
    }
}

/// `table` extended with zero rows of the given `width` up to `count` rows; a
/// table that already has that many rows is left alone.
pub open spec fn pad_table(table: Seq<Seq<nat>>, count: nat, width: nat) -> Seq<Seq<nat>> {
    if count > table.len() {
        table + Seq::new((count - table.len()) as nat, |t: int| zero_row(width))
    } else {
        table
    }
}

/// Every row of `table` padded to `width`.
pub open spec fn widen_table(table: Seq<Seq<nat>>, width: nat) -> Seq<Seq<nat>> {
    Seq::new(table.len(), |t: int| pad_row(table[t], width))
}

/// `table` with the single cell `(t, r)` replaced by `value`.
pub open spec fn set_cell(table: Seq<Seq<nat>>, t: int, r: int, value: nat) -> Seq<Seq<nat>> {
    table.update(t, table[t].update(r, value))
}

/// `table` with column `r` set to zero in every row.
pub open spec fn clear_column(table: Seq<Seq<nat>>, r: int) -> Seq<Seq<nat>> {
    Seq::new(table.len(), |t: int| table[t].update(r, 0nat))
}

/// The sum of column `r` over all rows of `table`.
pub open spec fn column_sum(table: Seq<Seq<nat>>, r: int) -> nat
    decreases table.len(),
{
    if table.len() == 0 {
        0
    } else {
        column_sum(table.drop_last(), r) + table.last()[r]
    }
}

impl Ledger {
    /// Tables with no thread and no resource.
    pub open spec fn empty() -> Ledger {
        Ledger { available: Seq::empty(), allocation: Seq::empty(), need: Seq::empty() }
    }

    /// The tables of a fresh process: one thread row, no resource yet.
    pub open spec fn initial() -> Ledger {
        Ledger::empty().with_threads(1)
    }

    /// Length of the thread axis.
    pub open spec fn threads(self) -> nat {
        self.allocation.len()
    }

    /// Length of the resource axis.
    pub open spec fn resources(self) -> nat {
        self.available.len()
    }

    /// The tables share their axes: `allocation` and `need` have one row per
    /// thread, and every row has one cell per resource.
    pub open spec fn wf(self) -> bool {
        &&& self.need.len() == self.allocation.len()
        &&& forall|t: int|
            0 <= t < self.allocation.len() ==> (#[trigger] self.allocation[t]).len()
                == self.available.len()
        &&& forall|t: int|
            0 <= t < self.need.len() ==> (#[trigger] self.need[t]).len() == self.available.len()
    }

    /// `(t, r)` names a cell of the tables.
    pub open spec fn in_bounds(self, t: int, r: int) -> bool {
        0 <= t < self.threads() && 0 <= r < self.resources()
    }

    /// The thread axis grown to `count` rows, new rows all zero.
    pub open spec fn with_threads(self, count: nat) -> Ledger {
        Ledger {
            available: self.available,
            allocation: pad_table(self.allocation, count, self.resources()),
            need: pad_table(self.need, count, self.resources()),
        }
    }

    /// The resource axis grown to `width` columns, new columns all zero.
    pub open spec fn with_resources(self, width: nat) -> Ledger {
        Ledger {
            available: pad_row(self.available, width),
            allocation: widen_table(self.allocation, width),
            need: widen_table(self.need, width),
        }
    }

    /// One more unit of `r` asked for by thread `t`.
    pub open spec fn request(self, t: int, r: int) -> Ledger {
        Ledger { need: set_cell(self.need, t, r, self.need[t][r] + 1), ..self }
    }

    /// One unit of `r` moves from the free pool to thread `t`, settling one
    /// unit of its outstanding need.
    pub open spec fn allocate(self, t: int, r: int) -> Ledger {
        Ledger {
            available: self.available.update(r, (self.available[r] - 1) as nat),
            allocation: set_cell(self.allocation, t, r, self.allocation[t][r] + 1),
            need: set_cell(self.need, t, r, (self.need[t][r] - 1) as nat),
        }
    }

    /// One unit of `r` moves from the free pool to thread `t` without touching
    /// `need`: a grant that no request announced.
    pub open spec fn grant(self, t: int, r: int) -> Ledger {
        Ledger {
            available: self.available.update(r, (self.available[r] - 1) as nat),
            allocation: set_cell(self.allocation, t, r, self.allocation[t][r] + 1),
            need: self.need,
        }
    }

    /// One unit of `r` moves from thread `t` back to the free pool.
    pub open spec fn free(self, t: int, r: int) -> Ledger {
        Ledger {
            available: self.available.update(r, self.available[r] + 1),
            allocation: set_cell(self.allocation, t, r, (self.allocation[t][r] - 1) as nat),
            need: self.need,
        }
    }

    /// Resource `r` starts afresh with `units` free units: whatever its column
    /// said of units held or asked for is struck out.
    pub open spec fn restock(self, r: int, units: nat) -> Ledger {
        Ledger {
            available: self.available.update(r, units),
            allocation: clear_column(self.allocation, r),
            need: clear_column(self.need, r),
        }
    }

    /// Thread position `t` starts afresh: its row says nothing held and
    /// nothing asked for, whatever an earlier thread at that position left.
    pub open spec fn reset_thread(self, t: int) -> Ledger {
        Ledger {
            available: self.available,
            allocation: self.allocation.update(t, zero_row(self.resources())),
            need: self.need.update(t, zero_row(self.resources())),
        }
    }

    /// Units of `r` held by all threads together.
    pub open spec fn held(self, r: int) -> nat {
        column_sum(self.allocation, r)
    }

    /// All units of `r` there are: the free ones and the held ones.
    pub open spec fn total(self, r: int) -> nat {
        self.available[r] + self.held(r)
    }
}

/// Replacing one row changes a column sum by the difference in that row.
pub proof fn lemma_column_sum_update(table: Seq<Seq<nat>>, t: int, row: Seq<nat>, r: int)
    requires
        0 <= t < table.len(),
    ensures
        column_sum(table.update(t, row), r) + table[t][r] == column_sum(table, r) + row[r],
    decreases table.len(),
{
    let changed = table.update(t, row);
    if t == table.len() - 1 {
        assert(changed.drop_last() =~= table.drop_last());
    } else {
        assert(changed.drop_last() =~= table.drop_last().update(t, row));
        lemma_column_sum_update(table.drop_last(), t, row, r);
    }
}

/// A column that is zero in every row sums to zero.
pub proof fn lemma_column_sum_zero(table: Seq<Seq<nat>>, r: int)
    requires
        forall|t: int| 0 <= t < table.len() ==> (#[trigger] table[t])[r] == 0,
    ensures
        column_sum(table, r) == 0,
    decreases table.len(),
{
    if table.len() > 0 {
        lemma_column_sum_zero(table.drop_last(), r);
    }
}

/// Two tables that agree on column `r` in every row have the same sum there.
pub proof fn lemma_column_sum_agree(a: Seq<Seq<nat>>, b: Seq<Seq<nat>>, r: int)
    requires
        a.len() == b.len(),
        forall|t: int| 0 <= t < a.len() ==> (#[trigger] a[t])[r] == b[t][r],
    ensures
        column_sum(a, r) == column_sum(b, r),
    decreases a.len(),
{
    if a.len() > 0 {
        assert(a.last()[r] == b.last()[r]);
        lemma_column_sum_agree(a.drop_last(), b.drop_last(), r);
    }
}

/// Rows appended to a table add their own column sum.
pub proof fn lemma_column_sum_append(a: Seq<Seq<nat>>, b: Seq<Seq<nat>>, r: int)
    ensures
        column_sum(a + b, r) == column_sum(a, r) + column_sum(b, r),
    decreases b.len(),
{
    if b.len() == 0 {
        assert(a + b =~= a);
    } else {
        assert((a + b).drop_last() =~= a + b.drop_last());
        lemma_column_sum_append(a, b.drop_last(), r);
    }
}

impl Ledger {
    /// `allocate` moves a unit between the free pool and a thread: the total
    /// of every resource stays what it was.
    pub proof fn lemma_allocate_conserves(self, t: int, r: int)
        requires
            self.wf(),
            self.in_bounds(t, r),
            self.available[r] >= 1,
        ensures
            forall|c: int|
                0 <= c < self.resources() ==> self.allocate(t, r).total(c) == self.total(c),
            forall|c: int| 0 <= c < self.resources() ==> self.grant(t, r).total(c) == self.total(c),
    {
        let row = self.allocation[t].update(r, self.allocation[t][r] + 1);
        assert(self.grant(t, r).allocation == self.allocate(t, r).allocation);
        assert forall|c: int| 0 <= c < self.resources() implies self.allocate(t, r).total(c)
            == self.total(c) by {
            lemma_column_sum_update(self.allocation, t, row, c);
        }
    }

    /// `free` moves a unit between a thread and the free pool: the total of
    /// every resource stays what it was.
    pub proof fn lemma_free_conserves(self, t: int, r: int)
        requires
            self.wf(),
            self.in_bounds(t, r),
            self.allocation[t][r] >= 1,
        ensures
            forall|c: int| 0 <= c < self.resources() ==> self.free(t, r).total(c) == self.total(c),
    {
        let row = self.allocation[t].update(r, (self.allocation[t][r] - 1) as nat);
        assert forall|c: int| 0 <= c < self.resources() implies self.free(t, r).total(c)
            == self.total(c) by {
            lemma_column_sum_update(self.allocation, t, row, c);
        }
    }
}

impl Ledger {
    /// A resource that starts afresh has exactly the units it was stocked
    /// with, and no other resource gains or loses any.
    pub proof fn lemma_restock_totals(self, r: int, units: nat)
        requires
            self.wf(),
            0 <= r < self.resources(),
        ensures
            self.restock(r, units).wf(),
            self.restock(r, units).total(r) == units,
            forall|c: int|
                0 <= c < self.resources() && c != r ==> self.restock(r, units).total(c)
                    == self.total(c),
    {
        let fresh = self.restock(r, units);
        lemma_column_sum_zero(fresh.allocation, r);
        assert forall|c: int| 0 <= c < self.resources() && c != r implies fresh.total(c)
            == self.total(c) by {
            lemma_column_sum_agree(fresh.allocation, self.allocation, c);
        }
    }
}

} // verus!
