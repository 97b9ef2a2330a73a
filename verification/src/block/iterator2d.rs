//! Region views over a two-dimensional block.
//!
//! A view walks a rectangular window of the padded grid row by row. Each step
//! yields the tail of the block's buffer that starts at the current cell, so
//! that adding a plane offset to index 0 of the tail reaches any variable of
//! that cell.
use vstd::prelude::*;
use crate::block::block2d::plane_index;

verus! {

/// A read-only view over a rectangular window of a block.
pub struct Iterator2D<'a, T> {
    pub data: &'a Vec<T>,
    pub current1: usize,
    pub current2: usize,
    pub start1: usize,
    pub len1: usize,
    pub end1: usize,
    pub end2: usize,
}

impl<'a, T> Iterator2D<'a, T> {
    /// The window lies inside the rows of the buffer and the cursor inside the
    /// window.
    pub open spec fn wf(&self) -> bool {
        &&& self.start1 <= self.current1 <= self.end1 <= self.len1
        &&& self.len1 * self.end2 <= self.data@.len()
    }

    /// Row of the next cell.
    pub open spec fn row(&self) -> int {
        if self.current1 >= self.end1 {
            self.current2 + 1
        } else {
            self.current2 as int
        }
    }

    /// Column of the next cell.
    pub open spec fn col(&self) -> int {
        if self.current1 >= self.end1 {
            self.start1 as int
        } else {
            self.current1 as int
        }
    }

    /// No cell is left.
    pub open spec fn exhausted(&self) -> bool {
        self.start1 >= self.end1 || self.row() >= self.end2
    }

    /// Number of cells that are still to come.
    pub open spec fn remaining(&self) -> nat {
        if self.exhausted() {
            0
        } else {
            ((self.end2 - self.row()) * (self.end1 - self.start1) - (self.col() - self.start1)) as nat
        }
    }

    /// Buffer index of the next cell.
    pub open spec fn index(&self) -> int {
        plane_index(self.len1 as int, self.row(), self.col())
    }

    /// Buffer indices of the cells that are still to come, in the order in
    /// which the view yields them.
    pub open spec fn cells(&self) -> Seq<int> {
        cells_from(
            self.len1 as int,
            self.row(),
            self.col(),
            self.end2 as int,
            self.start1 as int,
            self.end1 as int,
        )
    }

    /// The view has as many cells to come as `remaining` counts.
    pub proof fn lemma_cells_remaining(&self)
        requires
            self.start1 <= self.current1 <= self.end1,
        ensures
            self.cells().len() == self.remaining(),
    {
        lemma_cells_len(
            self.len1 as int,
            self.row(),
            self.col(),
            self.end2 as int,
            self.start1 as int,
            self.end1 as int,
        );
    }

    /// A view that has not started on its first row holds as many cells as
    /// its window.
    pub proof fn lemma_fresh_remaining(&self)
        requires
            self.current1 == self.start1,
            self.start1 <= self.end1,
        ensures
            self.current2 <= self.end2 ==> self.remaining() == (self.end1 - self.start1) * (self.end2
                - self.current2),
            self.current2 >= self.end2 ==> self.remaining() == 0,
            self.cells() == window_cells(
                self.len1 as int,
                self.current2 as int,
                self.end2 as int,
                self.start1 as int,
                self.end1 as int,
            ),
    {
        let width = self.end1 - self.start1;
        let rows = self.end2 - self.current2;
        assert(width * rows == rows * width) by (nonlinear_arith);
        assert(width == 0 || rows == 0 ==> width * rows == 0) by (nonlinear_arith);
        let window = window_cells(
            self.len1 as int,
            self.current2 as int,
            self.end2 as int,
            self.start1 as int,
            self.end1 as int,
        );
        assert(window.skip(0) =~= window);
    }

    /// Steps to the next cell of the window and returns the tail of the buffer
    /// that starts there, or `None` once the window is used up.
    pub fn next(&mut self) -> (r: Option<&'a [T]>)
        requires
            old(self).wf(),
        ensures
            final(self).wf(),
            r is None <==> old(self).exhausted(),
            r is None <==> old(self).remaining() == 0,
            r is None <==> old(self).cells().len() == 0,
            r is None ==> *final(self) == *old(self),
            r matches Some(cell) ==> {
                &&& old(self).index() == old(self).cells()[0]
                &&& final(self).cells() == old(self).cells().skip(1)
                &&& old(self).index() < old(self).data@.len()
                &&& cell@ == old(self).data@.subrange(old(self).index(), old(self).data@.len() as int)
                &&& final(self).current1 == old(self).col() + 1
                &&& final(self).current2 == old(self).row()
                &&& final(self).remaining() == old(self).remaining() - 1
                &&& final(self).data == old(self).data
                &&& final(self).start1 == old(self).start1
                &&& final(self).len1 == old(self).len1
                &&& final(self).end1 == old(self).end1
                &&& final(self).end2 == old(self).end2
            },
    {
        proof {
            self.lemma_cells_remaining();
        }
        if self.start1 >= self.end1 || self.current2 >= self.end2 {
            return None;
        }
        let mut row: usize = self.current2;
        let mut col: usize = self.current1;
        if col >= self.end1 {
            col = self.start1;
            row = row + 1;
            if row >= self.end2 {
                return None;
            }
        }
        proof {
            lemma_cells_step(
                self.len1 as int,
                row as int,
                col as int,
                self.end2 as int,
                self.start1 as int,
                self.end1 as int,
            );
            lemma_cell_in_rows(self.len1 as int, self.end2 as int, row as int, col as int);
            lemma_remaining_step(
                self.end2 as int - row as int,
                self.end1 as int - self.start1 as int,
                col as int - self.start1 as int,
            );
        }
        let data: &'a Vec<T> = self.data;
        let size: usize = data.len();
        let index: usize = self.len1 * row + col;
        self.current1 = col + 1;
        self.current2 = row;
        Some(vstd::slice::slice_subrange(data.as_slice(), index, size))
    }
}

/// An exclusive view over a rectangular window of a block.
///
/// Each step lends out the tail of the buffer that starts at the current
/// cell. The loan ends before the next step, so at any time at most one cell
/// of the block is open for writing.
pub struct Iterator2DMut<'a, T> {
    pub data: &'a mut Vec<T>,
    pub len1: usize,
    pub current1: usize,
    pub current2: usize,
    pub start1: usize,
    pub end1: usize,
    pub end2: usize,
}

impl<'a, T> Iterator2DMut<'a, T> {
    /// The window lies inside the rows of the buffer and the cursor inside the
    /// window.
    pub open spec fn wf(&self) -> bool {
        &&& self.start1 <= self.current1 <= self.end1 <= self.len1
        &&& self.len1 * self.end2 <= self.data@.len()
    }

    /// Row of the next cell.
    pub open spec fn row(&self) -> int {
        if self.current1 >= self.end1 {
            self.current2 + 1
        } else {
            self.current2 as int
        }
    }

    /// Column of the next cell.
    pub open spec fn col(&self) -> int {
        if self.current1 >= self.end1 {
            self.start1 as int
        } else {
            self.current1 as int
        }
    }

    /// No cell is left.
    pub open spec fn exhausted(&self) -> bool {
        self.start1 >= self.end1 || self.row() >= self.end2
    }

    /// Number of cells that are still to come.
    pub open spec fn remaining(&self) -> nat {
        if self.exhausted() {
            0
        } else {
            ((self.end2 - self.row()) * (self.end1 - self.start1) - (self.col() - self.start1)) as nat
        }
    }

    /// Buffer index of the next cell.
    pub open spec fn index(&self) -> int {
        plane_index(self.len1 as int, self.row(), self.col())
    }

    /// Buffer indices of the cells that are still to come, in the order in
    /// which the view yields them.
    pub open spec fn cells(&self) -> Seq<int> {
        cells_from(
            self.len1 as int,
            self.row(),
            self.col(),
            self.end2 as int,
            self.start1 as int,
            self.end1 as int,
        )
    }

    /// The view has as many cells to come as `remaining` counts.
    pub proof fn lemma_cells_remaining(&self)
        requires
            self.start1 <= self.current1 <= self.end1,
        ensures
            self.cells().len() == self.remaining(),
    {
        lemma_cells_len(
            self.len1 as int,
            self.row(),
            self.col(),
            self.end2 as int,
            self.start1 as int,
            self.end1 as int,
        );
    }

    /// The view stands at the first cell of rows `[row0, row1)` and columns
    /// `[col0, col1)` of a grid `len1` wide.
    pub open spec fn at_window(&self, len1: int, row0: int, row1: int, col0: int, col1: int) -> bool {
        &&& self.len1 == len1
        &&& self.current1 == col0
        &&& self.current2 == row0
        &&& self.start1 == col0
        &&& self.end1 == col1
        &&& self.end2 == row1
    }

    /// A view that has not started on its first row holds as many cells as
    /// its window.
    pub proof fn lemma_fresh_remaining(&self)
        requires
            self.current1 == self.start1,
            self.start1 <= self.end1,
        ensures
            self.current2 <= self.end2 ==> self.remaining() == (self.end1 - self.start1) * (self.end2
                - self.current2),
            self.current2 >= self.end2 ==> self.remaining() == 0,
            self.cells() == window_cells(
                self.len1 as int,
                self.current2 as int,
                self.end2 as int,
                self.start1 as int,
                self.end1 as int,
            ),
    {
        let width = self.end1 - self.start1;
        let rows = self.end2 - self.current2;
        assert(width * rows == rows * width) by (nonlinear_arith);
        assert(width == 0 || rows == 0 ==> width * rows == 0) by (nonlinear_arith);
        let window = window_cells(
            self.len1 as int,
            self.current2 as int,
            self.end2 as int,
            self.start1 as int,
            self.end1 as int,
        );
        assert(window.skip(0) =~= window);
    }

    /// Steps to the next cell of the window and lends out the tail of the
    /// buffer that starts there, or returns `None` once the window is used up.
    /// What the caller writes through the loan is what the buffer holds from
    /// that cell on; the elements before the cell keep their values. The view
    /// stays well formed as long as the loan is returned at its old length,
    /// which every write through `&mut [T]` guarantees.
    pub fn next(&mut self) -> (r: Option<&mut [T]>)
        requires
            old(self).wf(),
        ensures
            r is None <==> old(self).exhausted(),
            r is None <==> old(self).remaining() == 0,
            r is None <==> old(self).cells().len() == 0,
            r is None ==> {
                &&& final(self).data@ == old(self).data@
                &&& final(self).current1 == old(self).current1
                &&& final(self).current2 == old(self).current2
            },
            r matches Some(cell) ==> {
                &&& old(self).index() == old(self).cells()[0]
                &&& final(self).cells() == old(self).cells().skip(1)
                &&& old(self).index() < old(self).data@.len()
                &&& cell@ == old(self).data@.subrange(old(self).index(), old(self).data@.len() as int)
                &&& final(self).data@ == old(self).data@.subrange(0, old(self).index()) + final(cell)@
                &&& final(self).current1 == old(self).col() + 1
                &&& final(self).current2 == old(self).row()
                &&& final(self).remaining() == old(self).remaining() - 1
            },
            final(self).start1 == old(self).start1,
            final(self).len1 == old(self).len1,
            final(self).end1 == old(self).end1,
            final(self).end2 == old(self).end2,
            *final(final(self).data) == *final(old(self).data),
    {
        proof {
            self.lemma_cells_remaining();
        }
        if self.start1 >= self.end1 || self.current2 >= self.end2 {
            return None;
        }
        let mut row: usize = self.current2;
        let mut col: usize = self.current1;
        if col >= self.end1 {
            col = self.start1;
            row = row + 1;
            if row >= self.end2 {
                return None;
            }
        }
        proof {
            lemma_cells_step(
                self.len1 as int,
                row as int,
                col as int,
                self.end2 as int,
                self.start1 as int,
                self.end1 as int,
            );
            lemma_cell_in_rows(self.len1 as int, self.end2 as int, row as int, col as int);
            lemma_remaining_step(
                self.end2 as int - row as int,
                self.end1 as int - self.start1 as int,
                col as int - self.start1 as int,
            );
        }
        let size: usize = self.data.len();
        let index: usize = self.len1 * row + col;
        self.current1 = col + 1;
        self.current2 = row;
        let (_, cell) = self.data.as_mut_slice().split_at_mut(index);
        Some(cell)
    }
}

/// Buffer indices of the cells in rows `[row0, row1)` and columns
/// `[col0, col1)` of a grid `len1` wide, row by row.
pub open spec fn window_cells(len1: int, row0: int, row1: int, col0: int, col1: int) -> Seq<int> {
    if row0 < row1 && col0 < col1 {
        Seq::new(
            ((row1 - row0) * (col1 - col0)) as nat,
            |k: int| plane_index(len1, row0 + k / (col1 - col0), col0 + k % (col1 - col0)),
        )
    } else {
        Seq::empty()
    }
}

/// Buffer indices of the cells that a view over rows up to `end2` and columns
/// `[start1, end1)` still has to visit when its next cell is `(row, col)`.
pub open spec fn cells_from(len1: int, row: int, col: int, end2: int, start1: int, end1: int) -> Seq<
    int,
> {
    if row < end2 && start1 <= col < end1 {
        window_cells(len1, row, end2, start1, end1).skip(col - start1)
    } else {
        Seq::empty()
    }
}

/// The cells still to visit are as many as the rows left times the width of
/// the window, less what is done of the current row.
pub proof fn lemma_cells_len(len1: int, row: int, col: int, end2: int, start1: int, end1: int)
    requires
        start1 <= col,
        col < end1 || col == start1,
    ensures
        cells_from(len1, row, col, end2, start1, end1).len() == (if row < end2 && start1 < end1 {
            (end2 - row) * (end1 - start1) - (col - start1)
        } else {
            0
        }),
{
    if row < end2 && start1 < end1 {
        lemma_remaining_step(end2 - row, end1 - start1, col - start1);
    }
}

/// The first cell still to visit is the one the cursor stands at, and the
/// rest are the cells to visit from the position after it.
pub proof fn lemma_cells_step(len1: int, row: int, col: int, end2: int, start1: int, end1: int)
    requires
        row < end2,
        start1 <= col < end1,
    ensures
        cells_from(len1, row, col, end2, start1, end1).len() > 0,
        cells_from(len1, row, col, end2, start1, end1)[0] == plane_index(len1, row, col),
        col + 1 < end1 ==> cells_from(len1, row, col, end2, start1, end1).skip(1) == cells_from(
            len1,
            row,
            col + 1,
            end2,
            start1,
            end1,
        ),
        col + 1 == end1 ==> cells_from(len1, row, col, end2, start1, end1).skip(1) == cells_from(
            len1,
            row + 1,
            start1,
            end2,
            start1,
            end1,
        ),
{
    let width = end1 - start1;
    let done = col - start1;
    let all = window_cells(len1, row, end2, start1, end1);
    let here = cells_from(len1, row, col, end2, start1, end1);
    lemma_remaining_step(end2 - row, width, done);
    assert(here[0] == all[done]);
    vstd::arithmetic::div_mod::lemma_basic_div(done, width);
    vstd::arithmetic::div_mod::lemma_small_mod(done as nat, width as nat);
    if col + 1 < end1 {
        assert(here.skip(1) =~= all.skip(done + 1));
    } else {
        let next = window_cells(len1, row + 1, end2, start1, end1);
        assert(all.skip(width) =~= next) by {
            if row + 1 < end2 {
                lemma_remaining_step(end2 - row - 1, width, 0);
                assert forall|k: int| 0 <= k < next.len() implies all.skip(width)[k] == next[k] by {
                    vstd::arithmetic::div_mod::lemma_div_plus_one(k, width);
                    vstd::arithmetic::div_mod::lemma_mod_add_multiples_vanish(k, width);
                    assert(k + width == width + k);
                }
            }
        }
        assert(here.skip(1) =~= all.skip(width));
        assert(next.skip(0) =~= next);
    }
}

/// A cell in row `row` and column `col` of a grid `len1` wide lies before the
/// end of row `end2 - 1`.
pub proof fn lemma_cell_in_rows(len1: int, end2: int, row: int, col: int)
    requires
        0 <= row < end2,
        0 <= col < len1,
    ensures
        0 <= len1 * row,
        len1 * row + col < len1 * end2,
        len1 * row + col == plane_index(len1, row, col),
{
    assert(len1 * row == row * len1) by (nonlinear_arith);
    assert(len1 * row + len1 <= len1 * end2) by (nonlinear_arith)
        requires
            0 <= row < end2,
            0 <= len1,
    ;
    assert(0 <= len1 * row) by (nonlinear_arith)
        requires
            0 <= row,
            0 <= len1,
    ;
}

/// With `rows` rows of `width` cells left and `done` cells of the first row
/// consumed, at least one cell is left.
pub proof fn lemma_remaining_step(rows: int, width: int, done: int)
    requires
        1 <= rows,
        0 <= done < width,
    ensures
        rows * width - done >= 1,
        (rows - 1) * width == rows * width - width,
        rows == 1 ==> rows * width == width,
{
    assert(rows * width >= width) by (nonlinear_arith)
        requires
            1 <= rows,
            0 <= width,
    ;
    assert((rows - 1) * width == rows * width - width) by (nonlinear_arith);
}

} // verus!
