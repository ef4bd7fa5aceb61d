//! The multiplexing controller: an R×C grid of virtual pins realized onto
//! R row drivers and C column drivers, one row per scan step.

use vstd::prelude::*;
use crate::driver::{DigitalOutput, DriverError, VirtualPinOutput};

verus! {

/// How many of the given drive lines are asserted.
pub open spec fn count_asserted(s: Seq<bool>) -> nat
    decreases s.len(),
{
    if s.len() == 0 {
        0
    } else {
        count_asserted(s.drop_last()) + if s.last() {
            1nat
        } else {
            0nat
        }
    }
}

proof fn lemma_count_asserted_none(s: Seq<bool>)
    requires
        forall|i: int| 0 <= i < s.len() ==> !(#[trigger] s[i]),
    ensures
        count_asserted(s) == 0,
    decreases s.len(),
{
    if s.len() > 0 {
        lemma_count_asserted_none(s.drop_last());
    }
}

proof fn lemma_count_asserted_single(s: Seq<bool>, k: int)
    requires
        0 <= k < s.len(),
        forall|i: int| 0 <= i < s.len() ==> ((#[trigger] s[i]) <==> i == k),
    ensures
        count_asserted(s) == 1,
    decreases s.len(),
{
    if k == s.len() - 1 {
        lemma_count_asserted_none(s.drop_last());
    } else {
        lemma_count_asserted_single(s.drop_last(), k);
    }
}

/// The cursor value after n scan steps from a freshly constructed
/// multiplexer: 0 to begin with, then one wrapping increment per step,
/// exactly as `advance_scan` ensures of each call.
pub open spec fn cursor_after(n: nat, rows: nat) -> nat
    decreases n,
{
    if n == 0 {
        0
    } else {
        (cursor_after((n - 1) as nat, rows) + 1) % rows
    }
}

/// Progression law: starting from 0, the cursor after n scan steps over a
/// grid of `rows` rows is n % rows.
pub proof fn lemma_cursor_progression(n: nat, rows: nat)
    requires
        rows > 0,
    ensures
        cursor_after(n, rows) == n % rows,
    decreases n,
{
    if n > 0 {
        let prev: nat = (n - 1) as nat;
        lemma_cursor_progression(prev, rows);
        assert(((prev % rows) + 1) % rows == (prev + 1) % rows) by (nonlinear_arith)
            requires rows > 0;
    } else {
        vstd::arithmetic::div_mod::lemma_small_mod(0, rows);
    }
}

/// Time-division multiplexer over a row-major grid of virtual pins.
///
/// `R` drives the row lines, `C` the column lines; the two may differ.
pub struct Multiplexer<R: DigitalOutput, C: DigitalOutput> {
    grid: Vec<VirtualPinOutput>,
    rows: usize,
    cols: usize,
    row_drivers: Vec<R>,
    col_drivers: Vec<C>,
    cursor: usize,
}

impl<R: DigitalOutput, C: DigitalOutput> Multiplexer<R, C> {
    /// Shape and cursor are in range and the grid covers every cell.
    pub closed spec fn wf(&self) -> bool {
        &&& self.rows > 0
        &&& self.cols > 0
        &&& self.rows * self.cols <= usize::MAX
        &&& self.grid@.len() == self.rows * self.cols
        &&& self.row_drivers@.len() == self.rows
        &&& self.col_drivers@.len() == self.cols
        &&& self.cursor < self.rows
    }

    pub closed spec fn spec_rows(&self) -> nat {
        self.rows as nat
    }

    pub closed spec fn spec_cols(&self) -> nat {
        self.cols as nat
    }

    pub closed spec fn spec_cursor(&self) -> nat {
        self.cursor as nat
    }

    /// The grid of virtual pins, row-major.
    pub closed spec fn spec_grid(&self) -> Seq<VirtualPinOutput> {
        self.grid@
    }

    /// The whole grid of desired states, as the caller sees it: row-major,
    /// one boolean per virtual pin.
    pub open spec fn grid_states(&self) -> Seq<bool> {
        self.spec_grid().map(|i: int, p: VirtualPinOutput| p.asserted())
    }

    /// The desired state of cell (r, c), read from the row-major grid.
    pub open spec fn cell(&self, r: int, c: int) -> bool {
        self.grid_states()[r * self.spec_cols() + c]
    }

    /// The asserted/deasserted states of the row drive lines, in index order.
    pub closed spec fn row_states(&self) -> Seq<bool> {
        self.row_drivers@.map(|i: int, d: R| d.asserted())
    }

    /// The asserted/deasserted states of the column drive lines, in index order.
    pub closed spec fn col_states(&self) -> Seq<bool> {
        self.col_drivers@.map(|i: int, d: C| d.asserted())
    }

    /// Construct a multiplexer owning the given driver handles, every grid
    /// cell unasserted and the cursor on row 0. Construction is rejected
    /// (`None`) exactly when the shape is degenerate, a driver count does not
    /// match it, or the grid size would not fit in `usize`. No physical line
    /// is driven here: the lines keep whatever state they had.
    pub fn new(rows: usize, cols: usize, row_drivers: Vec<R>, col_drivers: Vec<C>) -> (r: Option<Self>)
        ensures
            r is Some <==> {
                &&& rows > 0
                &&& cols > 0
                &&& rows * cols <= usize::MAX
                &&& row_drivers@.len() == rows
                &&& col_drivers@.len() == cols
            },
            r is Some ==> {
                &&& r->0.wf()
                &&& r->0.spec_rows() == rows
                &&& r->0.spec_cols() == cols
                &&& r->0.spec_cursor() == 0
                &&& r->0.row_states() == row_drivers@.map(|i: int, d: R| d.asserted())
                &&& r->0.col_states() == col_drivers@.map(|i: int, d: C| d.asserted())
                &&& r->0.grid_states() == Seq::new((rows * cols) as nat, |i: int| false)
            },
    {
        if rows == 0 || cols == 0 {
            return None;
        }
        if !(cols <= usize::MAX / rows) {
            assert(rows * cols > usize::MAX) by (nonlinear_arith)
                requires rows > 0 && cols > usize::MAX / rows;
            return None;
        }
        assert(rows * cols <= usize::MAX) by (nonlinear_arith)
            requires rows > 0 && cols <= usize::MAX / rows;
        if row_drivers.len() != rows || col_drivers.len() != cols {
            return None;
        }
        let size: usize = rows * cols;
        let mut grid: Vec<VirtualPinOutput> = Vec::new();
        while grid.len() < size
            invariant
                grid@.len() <= size,
                forall|i: int| 0 <= i < grid@.len() ==> !(#[trigger] grid@[i].asserted()),
            decreases size - grid@.len(),
        {
            grid.push(VirtualPinOutput::new());
        }
        let m = Multiplexer { grid, rows, cols, row_drivers, col_drivers, cursor: 0 };
        proof {
            assert(m.grid_states() =~= Seq::new((rows * cols) as nat, |i: int| false));
        }
        Some(m)
    }

    /// A mutable view of the whole row-major grid: the sole write path into
    /// desired display content. The caller may assert or deassert any cell
    /// at any time; writes are visible to the next scan step. Everything
    /// else — shape, cursor, drive lines — stays as it is, and as long as
    /// the view's length is left alone, well-formedness is kept too.
    pub fn virtual_outputs(&mut self) -> (pins: &mut Vec<VirtualPinOutput>)
        ensures
            pins@ == old(self).spec_grid(),
            final(self).spec_grid() == final(pins)@,
            final(self).spec_rows() == old(self).spec_rows(),
            final(self).spec_cols() == old(self).spec_cols(),
            final(self).spec_cursor() == old(self).spec_cursor(),
            final(self).row_states() == old(self).row_states(),
            final(self).col_states() == old(self).col_states(),
            old(self).wf() && final(pins)@.len() == old(self).spec_grid().len()
                ==> final(self).wf(),
    {
        &mut self.grid
    }

    /// What a successful blanking leaves behind: every row and column driver
    /// deasserted, with the grid, the cursor and the shape untouched.
    pub open spec fn all_low_ok(pre: Self, post: Self) -> bool {
        &&& post.row_states().len() == pre.row_states().len()
        &&& post.col_states().len() == pre.col_states().len()
        &&& forall|i: int| 0 <= i < post.row_states().len() ==> !(#[trigger] post.row_states()[i])
        &&& forall|c: int| 0 <= c < post.col_states().len() ==> !(#[trigger] post.col_states()[c])
        &&& post.grid_states() == pre.grid_states()
        &&& post.spec_cursor() == pre.spec_cursor()
        &&& post.spec_rows() == pre.spec_rows()
        &&& post.spec_cols() == pre.spec_cols()
    }

    /// Deassert every row and every column driver.
    ///
    /// Every drive operation is attempted even after one of them fails, so a
    /// single bad line does not leave the others in a stale state; the first
    /// error encountered is then returned. After a failure nothing is known
    /// about the physical lines, but the grid, the cursor and the shape are
    /// untouched either way.
    pub fn set_all_low(&mut self) -> (r: Result<(), DriverError>)
        requires
            old(self).wf(),
        ensures
            final(self).wf(),
            final(self).spec_rows() == old(self).spec_rows(),
            final(self).spec_cols() == old(self).spec_cols(),
            final(self).spec_cursor() == old(self).spec_cursor(),
            final(self).spec_grid() == old(self).spec_grid(),
            final(self).grid_states() == old(self).grid_states(),
            r is Ok ==> Self::all_low_ok(*old(self), *final(self)),
    {
        let mut result: Result<(), DriverError> = Ok(());
        let rows: usize = self.row_drivers.len();
        let mut i: usize = 0;
        while i < rows
            invariant
                i <= rows,
                rows == self.row_drivers@.len(),
                self.wf(),
                self.rows == old(self).rows,
                self.cols == old(self).cols,
                self.cursor == old(self).cursor,
                self.grid@ == old(self).grid@,
                self.col_drivers@ == old(self).col_drivers@,
                result is Ok ==> forall|j: int| 0 <= j < i ==> !(#[trigger] self.row_drivers@[j]).asserted(),
            decreases rows - i,
        {
            let one = self.row_drivers[i].set_low();
            if one.is_err() && result.is_ok() {
                result = one;
            }
            i = i + 1;
        }
        let cols: usize = self.col_drivers.len();
        let mut c: usize = 0;
        while c < cols
            invariant
                c <= cols,
                cols == self.col_drivers@.len(),
                self.wf(),
                self.rows == old(self).rows,
                self.cols == old(self).cols,
                self.cursor == old(self).cursor,
                self.grid@ == old(self).grid@,
                result is Ok ==> forall|j: int| 0 <= j < self.row_drivers@.len()
                    ==> !(#[trigger] self.row_drivers@[j]).asserted(),
                result is Ok ==> forall|j: int| 0 <= j < c ==> !(#[trigger] self.col_drivers@[j]).asserted(),
            decreases cols - c,
        {
            let one = self.col_drivers[c].set_low();
            if one.is_err() && result.is_ok() {
                result = one;
            }
            c = c + 1;
        }
        proof {
            if result is Ok {
                assert forall|j: int| 0 <= j < self.row_states().len()
                    implies !(#[trigger] self.row_states()[j]) by {
                    assert(!self.row_drivers@[j].asserted());
                }
                assert forall|j: int| 0 <= j < self.col_states().len()
                    implies !(#[trigger] self.col_states()[j]) by {
                    assert(!self.col_drivers@[j].asserted());
                }
            }
        }
        result
    }

    /// The drive pattern a successful scan step leaves behind: the row line
    /// whose index was the cursor before the call asserted and every other
    /// row line deasserted, while each column line mirrors that row's cells.
    pub open spec fn scan_pattern_ok(pre: Self, post: Self) -> bool {
        &&& post.row_states().len() == pre.spec_rows()
        &&& post.col_states().len() == pre.spec_cols()
        &&& forall|i: int| 0 <= i < pre.spec_rows()
            ==> ((#[trigger] post.row_states()[i]) <==> i == pre.spec_cursor())
        &&& forall|c: int| 0 <= c < pre.spec_cols()
            ==> (#[trigger] post.col_states()[c]) == pre.cell(pre.spec_cursor() as int, c)
    }

    /// Realize the current cursor's row onto the physical lines, then move
    /// the cursor to the next row, wrapping around after the last one.
    ///
    /// In order: every driver is deasserted, the cursor's row driver is
    /// asserted, and each column driver whose cell in that row is asserted is
    /// driven high; nothing else touches the column lines, so no other row's
    /// content can leak onto them. Every drive operation is attempted even
    /// after one of them fails, and the first error encountered is returned;
    /// the cursor advances either way, so the scan stays in a well-defined
    /// state for the next call.
    pub fn advance_scan(&mut self) -> (r: Result<(), DriverError>)
        requires
            old(self).wf(),
        ensures
            final(self).wf(),
            final(self).spec_rows() == old(self).spec_rows(),
            final(self).spec_cols() == old(self).spec_cols(),
            final(self).grid_states() == old(self).grid_states(),
            final(self).spec_cursor()
                == (old(self).spec_cursor() + 1) % old(self).spec_rows(),
            r is Ok ==> Self::scan_pattern_ok(*old(self), *final(self)),
    {
        let mut result = self.set_all_low();
        let ghost blanked = *self;
        let cur: usize = self.cursor;
        let one = self.row_drivers[cur].set_high();
        if one.is_err() && result.is_ok() {
            result = one;
        }
        proof {
            if result is Ok {
                assert forall|j: int| 0 <= j < self.row_drivers@.len()
                    implies ((#[trigger] self.row_drivers@[j]).asserted() <==> j == cur) by {
                    if j != cur {
                        assert(blanked.row_states()[j] == blanked.row_drivers@[j].asserted());
                    }
                }
                assert forall|j: int| 0 <= j < self.col_drivers@.len()
                    implies !(#[trigger] self.col_drivers@[j]).asserted() by {
                    assert(blanked.col_states()[j] == blanked.col_drivers@[j].asserted());
                }
            }
        }
        assert(cur * self.cols + self.cols <= self.rows * self.cols) by (nonlinear_arith)
            requires cur < self.rows, self.cols >= 0;
        let base: usize = cur * self.cols;
        let cols: usize = self.cols;
        let mut c: usize = 0;
        while c < cols
            invariant
                c <= cols,
                cols == self.cols,
                self.wf(),
                self.rows == old(self).rows,
                self.cols == old(self).cols,
                self.cursor == old(self).cursor,
                cur == self.cursor,
                base == cur * self.cols,
                base + cols <= self.grid@.len(),
                self.grid@ == old(self).grid@,
                result is Ok ==> forall|j: int| 0 <= j < self.row_drivers@.len()
                    ==> ((#[trigger] self.row_drivers@[j]).asserted() <==> j == cur),
                result is Ok ==> forall|j: int| 0 <= j < c
                    ==> (#[trigger] self.col_drivers@[j]).asserted()
                        == self.grid@[base + j].asserted(),
                result is Ok ==> forall|j: int| c <= j < cols
                    ==> !(#[trigger] self.col_drivers@[j]).asserted(),
            decreases cols - c,
        {
            if self.grid[base + c].is_asserted() {
                let one = self.col_drivers[c].set_high();
                if one.is_err() && result.is_ok() {
                    result = one;
                }
            }
            c = c + 1;
        }
        let ghost mid = *self;
        let next: usize = self.cursor + 1;
        self.cursor = if next == self.rows { 0 } else { next };
        proof {
            if next == mid.rows {
                vstd::arithmetic::div_mod::lemma_mod_self_0(mid.rows as int);
            } else {
                vstd::arithmetic::div_mod::lemma_small_mod(next as nat, mid.rows as nat);
            }
            if result is Ok {
                assert forall|i: int| 0 <= i < old(self).spec_rows()
                    implies ((#[trigger] self.row_states()[i]) <==> i == old(self).spec_cursor()) by {
                    assert(self.row_states()[i] == self.row_drivers@[i].asserted());
                }
                assert forall|j: int| 0 <= j < old(self).spec_cols()
                    implies (#[trigger] self.col_states()[j])
                        == old(self).cell(old(self).spec_cursor() as int, j) by {
                    assert(self.col_states()[j] == self.col_drivers@[j].asserted());
                    assert(old(self).grid_states()[base + j] == old(self).grid@[base + j].asserted());
                }
            }
        }
        result
    }

    /// The number of rows, fixed at construction.
    pub fn rows(&self) -> (r: usize)
        ensures
            r == self.spec_rows(),
    {
        self.rows
    }

    /// The number of columns, fixed at construction.
    pub fn cols(&self) -> (r: usize)
        ensures
            r == self.spec_cols(),
    {
        self.cols
    }

    /// The row the next scan step will realize.
    pub fn cursor(&self) -> (r: usize)
        ensures
            r == self.spec_cursor(),
    {
        self.cursor
    }

    /// The row driver at the given index, for inspection; `row_states`
    /// reports its level.
    pub fn row_driver(&self, i: usize) -> (d: &R)
        requires
            i < self.row_states().len(),
        ensures
            d.asserted() == self.row_states()[i as int],
    {
        &self.row_drivers[i]
    }

    /// The column driver at the given index, for inspection; `col_states`
    /// reports its level.
    pub fn col_driver(&self, c: usize) -> (d: &C)
        requires
            c < self.col_states().len(),
        ensures
            d.asserted() == self.col_states()[c as int],
    {
        &self.col_drivers[c]
    }

    /// What well-formedness guarantees of the shape, for callers: positive
    /// dimensions, a cursor in range, a full grid, and one driver per row
    /// and per column.
    pub proof fn lemma_wf_shape(&self)
        requires
            self.wf(),
        ensures
            self.spec_rows() > 0,
            self.spec_cols() > 0,
            self.spec_cursor() < self.spec_rows(),
            self.grid_states().len() == self.spec_rows() * self.spec_cols(),
            self.row_states().len() == self.spec_rows(),
            self.col_states().len() == self.spec_cols(),
    {
    }

    /// Single active row: a successful scan step leaves exactly one row
    /// driver asserted, the one whose index was the cursor value
    /// immediately preceding the call.
    pub proof fn lemma_single_active_row(pre: Self, post: Self)
        requires
            pre.wf(),
            Self::scan_pattern_ok(pre, post),
        ensures
            count_asserted(post.row_states()) == 1,
            post.row_states()[pre.spec_cursor() as int],
    {
        lemma_count_asserted_single(post.row_states(), pre.spec_cursor() as int);
    }

    /// Column fidelity: during a successful scan step each column driver is
    /// asserted exactly when the active row's cell is asserted, and
    /// deasserted otherwise.
    pub proof fn lemma_column_fidelity(pre: Self, post: Self, c: int)
        requires
            pre.wf(),
            Self::scan_pattern_ok(pre, post),
            0 <= c < pre.spec_cols(),
        ensures
            post.col_states()[c] == pre.cell(pre.spec_cursor() as int, c),
    {
    }

    /// No ghosting: after a successful scan step no drive line carries
    /// another row's content — every row line but the active one is
    /// deasserted, and a column line is asserted only where the active
    /// row's cell asks for it.
    pub proof fn lemma_no_ghosting(pre: Self, post: Self)
        requires
            pre.wf(),
            Self::scan_pattern_ok(pre, post),
        ensures
            forall|i: int| 0 <= i < pre.spec_rows() && i != pre.spec_cursor()
                ==> !(#[trigger] post.row_states()[i]),
            forall|c: int| 0 <= c < pre.spec_cols() && (#[trigger] post.col_states()[c])
                ==> pre.cell(pre.spec_cursor() as int, c),
    {
    }

    /// Idempotent blanking: a second successful `set_all_low` leaves every
    /// driver deasserted and has no further effect — drive lines, grid and
    /// cursor all stay exactly as the first call left them.
    pub proof fn lemma_blanking_idempotent(s0: Self, s1: Self, s2: Self)
        requires
            Self::all_low_ok(s0, s1),
            Self::all_low_ok(s1, s2),
        ensures
            forall|i: int| 0 <= i < s2.row_states().len()
                ==> !(#[trigger] s2.row_states()[i]),
            forall|c: int| 0 <= c < s2.col_states().len()
                ==> !(#[trigger] s2.col_states()[c]),
            s2.row_states() == s1.row_states(),
            s2.col_states() == s1.col_states(),
            s2.grid_states() == s1.grid_states(),
            s2.spec_cursor() == s1.spec_cursor(),
    {
        assert(s2.row_states() =~= s1.row_states());
        assert(s2.col_states() =~= s1.col_states());
    }
}

} // verus!
