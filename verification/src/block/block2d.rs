//! Two-dimensional field storage.
//!
//! A `Block2D` holds `nvar` variables over a grid of `dim2` rows and `dim1`
//! columns that is padded by `nghost` ghost cells on every side. The buffer
//! is one contiguous vector: `nvar` planes of `len12 = len1 * len2` elements,
//! each plane stored row by row.
use vstd::prelude::*;
use crate::block::iterator2d::{window_cells, Iterator2D, Iterator2DMut};

verus! {

/// A 2D data block with `nvar` variables, `len2` padded rows, `len1` padded
/// columns and `nghost` ghost cells on each side.
pub struct Block2D<T> {
    pub nvar: usize,
    pub len2: usize,
    pub len1: usize,
    pub len12: usize,
    pub nghost: usize,
    pub data: Vec<T>,
}

impl<T> Block2D<T> {
    /// The extents are consistent with each other and with the buffer.
    pub open spec fn wf(&self) -> bool {
        &&& 2 * self.nghost <= self.len1
        &&& 2 * self.nghost <= self.len2
        &&& self.len12 == self.len1 * self.len2
        &&& self.data@.len() == self.nvar * self.len12
    }

    /// Number of active columns.
    pub open spec fn dim1(&self) -> int {
        self.len1 - 2 * self.nghost
    }

    /// Number of active rows.
    pub open spec fn dim2(&self) -> int {
        self.len2 - 2 * self.nghost
    }

    /// Row `j` and column `i`, counted from the first active cell, lie inside
    /// the padded grid.
    pub open spec fn in_grid(&self, j: int, i: int) -> bool {
        &&& 0 <= j + self.nghost < self.len2
        &&& 0 <= i + self.nghost < self.len1
    }

    /// Variable `n` exists and `(j, i)` lies inside the padded grid.
    pub open spec fn in_range(&self, n: int, j: int, i: int) -> bool {
        &&& 0 <= n < self.nvar
        &&& self.in_grid(j, i)
    }

    /// Index of cell `(j, i)` within a plane.
    pub open spec fn base(&self, j: int, i: int) -> int {
        plane_index(self.len1 as int, j + self.nghost, i + self.nghost)
    }

    /// Buffer index of variable `n` at cell `(j, i)`.
    pub open spec fn offset(&self, n: int, j: int, i: int) -> int {
        n * self.len12 + self.base(j, i)
    }

    /// Value of variable `n` at cell `(j, i)`.
    pub open spec fn cell(&self, n: int, j: int, i: int) -> T {
        self.data@[self.offset(n, j, i)]
    }

    /// A block of `nvar` variables over `dim2` by `dim1` active cells with
    /// `nghost` ghost cells can be addressed with `usize` indices.
    pub open spec fn room_for(nvar: int, dim2: int, dim1: int, nghost: int) -> bool {
        &&& dim2 + 2 * nghost <= usize::MAX
        &&& dim1 + 2 * nghost <= usize::MAX
        &&& (dim1 + 2 * nghost) * (dim2 + 2 * nghost) <= usize::MAX
        &&& nvar * ((dim1 + 2 * nghost) * (dim2 + 2 * nghost)) <= usize::MAX
    }

    /// Every element holds a default value of `T`, and all hold the same.
    pub open spec fn all_default(&self) -> bool where T: Default {
        &&& forall|k: int|
            0 <= k < self.data@.len() ==> call_ensures(T::default, (), #[trigger] self.data@[k])
        &&& forall|k: int| 0 <= k < self.data@.len() ==> #[trigger] self.data@[k] == self.data@[0]
    }

    /// Two blocks have the same extents.
    pub open spec fn same_shape(&self, other: &Block2D<T>) -> bool {
        &&& self.nvar == other.nvar
        &&& self.len2 == other.len2
        &&& self.len1 == other.len1
        &&& self.len12 == other.len12
        &&& self.nghost == other.nghost
    }

    /// The view over rows `[row0, row1)` and columns `[col0, col1)` of the
    /// padded grid, positioned at its first cell.
    pub open spec fn window(&self, row0: int, row1: int, col0: int, col1: int) -> Iterator2D<'_, T> {
        Iterator2D {
            data: &self.data,
            current1: col0 as usize,
            current2: row0 as usize,
            start1: col0 as usize,
            len1: self.len1,
            end1: col1 as usize,
            end2: row1 as usize,
        }
    }

    /// Plane-local indices of the cells in rows `[j0, j1)` and columns
    /// `[i0, i1)`, counted from the first active cell, row by row.
    pub open spec fn region(&self, j0: int, j1: int, i0: int, i1: int) -> Seq<int> {
        window_cells(
            self.len1 as int,
            j0 + self.nghost,
            j1 + self.nghost,
            i0 + self.nghost,
            i1 + self.nghost,
        )
    }

    /// A region of `j1 - j0` rows and `i1 - i0` columns holds the product of
    /// the two in cells, and its `k`-th cell is the one in row `k / (i1 - i0)`
    /// and column `k % (i1 - i0)` of the region.
    pub proof fn lemma_region(&self, j0: int, j1: int, i0: int, i1: int)
        requires
            j0 <= j1,
            i0 <= i1,
        ensures
            self.region(j0, j1, i0, i1).len() == (j1 - j0) * (i1 - i0),
            forall|k: int|
                0 <= k < (j1 - j0) * (i1 - i0) ==> #[trigger] self.region(j0, j1, i0, i1)[k] == self.base(
                    j0 + k / (i1 - i0),
                    i0 + k % (i1 - i0),
                ),
    {
        let rows = j1 - j0;
        let cols = i1 - i0;
        assert(rows == 0 || cols == 0 ==> rows * cols == 0) by (nonlinear_arith);
        assert(rows > 0 && cols > 0 ==> rows * cols > 0) by (nonlinear_arith);
    }

    /// An in-range cell has an in-range buffer index, and its plane-local
    /// index lies inside one plane.
    pub proof fn lemma_offset_in_buffer(&self, n: int, j: int, i: int)
        requires
            self.wf(),
            self.in_range(n, j, i),
        ensures
            0 <= self.base(j, i) < self.len12,
            0 <= n * self.len12,
            self.base(j, i) <= self.offset(n, j, i) < self.data@.len(),
    {
        lemma_plane_index(self.len1 as int, self.len2 as int, j + self.nghost, i + self.nghost);
        lemma_plane_offset(self.nvar as int, self.len12 as int, n);
    }

    /// Writing and reading back: in a block that differs from `self` by a
    /// write of `v` to variable `n` at cell `(j, i)`, reading variable `m` at
    /// cell `(k, l)` gives `v` at the written place and what `self` holds
    /// everywhere else, ghost cells included.
    pub proof fn lemma_set_then_get(
        &self,
        written: &Block2D<T>,
        n: int,
        j: int,
        i: int,
        v: T,
        m: int,
        k: int,
        l: int,
    )
        requires
            self.wf(),
            self.in_range(n, j, i),
            self.in_range(m, k, l),
            written.same_shape(self),
            written.data@ == self.data@.update(self.offset(n, j, i), v),
        ensures
            written.wf(),
            written.cell(m, k, l) == (if m == n && k == j && l == i {
                v
            } else {
                self.cell(m, k, l)
            }),
    {
        self.lemma_offset_in_buffer(n, j, i);
        self.lemma_offset_in_buffer(m, k, l);
        if self.offset(n, j, i) == self.offset(m, k, l) {
            self.lemma_offset_injective(n, j, i, m, k, l);
        }
    }

    /// Distinct in-range cells have distinct buffer indices.
    pub proof fn lemma_offset_injective(&self, n: int, j: int, i: int, m: int, k: int, l: int)
        requires
            self.wf(),
            self.in_range(n, j, i),
            self.in_range(m, k, l),
            self.offset(n, j, i) == self.offset(m, k, l),
        ensures
            n == m,
            j == k,
            i == l,
    {
        self.lemma_offset_in_buffer(n, j, i);
        self.lemma_offset_in_buffer(m, k, l);
        lemma_mixed_radix(self.len12 as int, n, self.base(j, i), m, self.base(k, l));
        lemma_mixed_radix(
            self.len1 as int,
            j + self.nghost,
            i + self.nghost,
            k + self.nghost,
            l + self.nghost,
        );
    }
}

/// Index within a plane of the cell in padded row `row` and padded column
/// `col` of a grid `len1` wide.
pub open spec fn plane_index(len1: int, row: int, col: int) -> int {
    row * len1 + col
}

/// Cell `(row, col)` comes before cell `(r, c)` in row-major order.
pub open spec fn before(row: int, col: int, r: int, c: int) -> bool {
    row < r || (row == r && col < c)
}

/// In a grid of `len2` rows of `len1` cells, the row-major index of a cell
/// lies inside the grid.
pub proof fn lemma_plane_index(len1: int, len2: int, row: int, col: int)
    requires
        0 <= row < len2,
        0 <= col < len1,
    ensures
        0 <= row * len1,
        0 <= plane_index(len1, row, col) < len1 * len2,
{
    assert(0 <= row * len1 && row * len1 + len1 <= len1 * len2) by (nonlinear_arith)
        requires
            0 <= row < len2,
            0 <= len1,
    ;
}

/// Plane `n` of `nvar` planes of `len12` elements ends inside the buffer.
pub proof fn lemma_plane_offset(nvar: int, len12: int, n: int)
    requires
        0 <= n < nvar,
        0 <= len12,
    ensures
        0 <= n * len12,
        n * len12 + len12 <= nvar * len12,
{
    assert(0 <= n * len12 && n * len12 + len12 <= nvar * len12) by (nonlinear_arith)
        requires
            0 <= n < nvar,
            0 <= len12,
    ;
}

/// A number written as `hi * radix + lo` with `0 <= lo < radix` has only one
/// such writing.
pub proof fn lemma_mixed_radix(radix: int, hi1: int, lo1: int, hi2: int, lo2: int)
    requires
        0 <= lo1 < radix,
        0 <= lo2 < radix,
        hi1 * radix + lo1 == hi2 * radix + lo2,
    ensures
        hi1 == hi2,
        lo1 == lo2,
{
    assert(hi1 == hi2) by (nonlinear_arith)
        requires
            0 <= lo1 < radix,
            0 <= lo2 < radix,
            hi1 * radix + lo1 == hi2 * radix + lo2,
    {
        if hi1 < hi2 {
            assert((hi2 - hi1) * radix >= radix);
            assert(hi2 * radix - hi1 * radix == (hi2 - hi1) * radix);
        } else if hi2 < hi1 {
            assert((hi1 - hi2) * radix >= radix);
            assert(hi1 * radix - hi2 * radix == (hi1 - hi2) * radix);
        }
    }
}

/// Tells whether `position` displaced by `by` lies in `[0, limit)`.
pub fn reaches(position: usize, by: i32, limit: usize) -> (ok: bool)
    ensures
        ok == (0 <= position + by < limit),
{
    if by >= 0 {
        match position.checked_add(by as usize) {
            Some(moved) => moved < limit,
            None => false,
        }
    } else {
        let back: i64 = -(by as i64);
        if (back as usize) > position {
            false
        } else {
            position - (back as usize) < limit
        }
    }
}

/// Adds a signed displacement to an unsigned position.
pub fn shift(position: usize, by: i32) -> (r: usize)
    requires
        0 <= position + by <= usize::MAX,
    ensures
        r == position + by,
{
    if by >= 0 {
        position + (by as usize)
    } else {
        let back: i64 = -(by as i64);
        position - (back as usize)
    }
}

impl<T: Default + Copy> Block2D<T> {
    /// Allocates a block in which every element holds the default value of `T`.
    pub fn new(nvar: usize, dim2: usize, dim1: usize, nghost: usize) -> (b: Self)
        requires
            Self::room_for(nvar as int, dim2 as int, dim1 as int, nghost as int),
        ensures
            b.wf(),
            b.nvar == nvar,
            b.nghost == nghost,
            b.len2 == dim2 + 2 * nghost,
            b.len1 == dim1 + 2 * nghost,
            b.len12 == (dim1 + 2 * nghost) * (dim2 + 2 * nghost),
            b.data@.len() == nvar * ((dim1 + 2 * nghost) * (dim2 + 2 * nghost)),
            b.all_default(),
    {
        let len2: usize = dim2 + 2 * nghost;
        let len1: usize = dim1 + 2 * nghost;
        let len12: usize = len1 * len2;
        let size: usize = nvar * len12;
        let zero = T::default();
        let mut data: Vec<T> = Vec::with_capacity(size);
        let mut k: usize = 0;
        while k < size
            invariant
                k <= size,
                data@.len() == k,
                call_ensures(T::default, (), zero),
                forall|m: int| 0 <= m < k ==> #[trigger] data@[m] == zero,
            decreases size - k,
        {
            data.push(zero);
            k += 1;
        }
        Self { nvar, len2, len1, len12, nghost, data }
    }

    /// Tells whether `new` can build a block of these extents.
    pub fn fits(nvar: usize, dim2: usize, dim1: usize, nghost: usize) -> (ok: bool)
        ensures
            ok == Self::room_for(nvar as int, dim2 as int, dim1 as int, nghost as int),
    {
        let twice: usize = match nghost.checked_mul(2) {
            Some(t) => t,
            None => {
                return false;
            },
        };
        let len2: usize = match dim2.checked_add(twice) {
            Some(l) => l,
            None => {
                return false;
            },
        };
        let len1: usize = match dim1.checked_add(twice) {
            Some(l) => l,
            None => {
                return false;
            },
        };
        let len12: usize = match len1.checked_mul(len2) {
            Some(l) => l,
            None => {
                return false;
            },
        };
        nvar.checked_mul(len12).is_some()
    }

    /// Tells whether the extents are consistent with each other and with the
    /// buffer.
    pub fn is_wf(&self) -> (ok: bool)
        ensures
            ok == self.wf(),
    {
        let twice: usize = match self.nghost.checked_mul(2) {
            Some(t) => t,
            None => {
                return false;
            },
        };
        if twice > self.len1 || twice > self.len2 {
            return false;
        }
        let plane: usize = match self.len1.checked_mul(self.len2) {
            Some(p) => p,
            None => {
                return false;
            },
        };
        if plane != self.len12 {
            return false;
        }
        let held: usize = self.data.len();
        match self.nvar.checked_mul(self.len12) {
            Some(size) => size == held,
            None => false,
        }
    }

    /// Tells whether variable `n` exists and cell `(j, i)` lies inside the
    /// padded grid.
    pub fn holds(&self, n: usize, j: i32, i: i32) -> (ok: bool)
        ensures
            ok == self.in_range(n as int, j as int, i as int),
    {
        n < self.nvar && reaches(self.nghost, j, self.len2) && reaches(self.nghost, i, self.len1)
    }

    /// Tells whether `other` has the same extents.
    pub fn is_same_shape(&self, other: &Block2D<T>) -> (ok: bool)
        ensures
            ok == self.same_shape(other),
    {
        self.nvar == other.nvar && self.len2 == other.len2 && self.len1 == other.len1 && self.len12
            == other.len12 && self.nghost == other.nghost
    }

    /// Number of elements in the buffer.
    pub fn size(&self) -> (r: usize)
        ensures
            r == self.data@.len(),
    {
        self.data.len()
    }

    /// Number of variables, padded rows and padded columns.
    pub fn shape(&self) -> (r: (usize, usize, usize))
        ensures
            r == (self.nvar, self.len2, self.len1),
    {
        (self.nvar, self.len2, self.len1)
    }

    /// Offset of the plane of variable `n` in the buffer.
    pub fn icomp(&self, n: usize) -> (r: usize)
        requires
            self.wf(),
            n < self.nvar,
        ensures
            r == n * self.len12,
            r == n * (self.len1 * self.len2),
            r + self.len12 <= self.data@.len(),
    {
        proof {
            lemma_plane_offset(self.nvar as int, self.len12 as int, n as int);
        }
        let size: usize = self.data.len();
        n * self.len12
    }

    /// The view over the active cells.
    pub fn interior(&self) -> (it: Iterator2D<'_, T>)
        requires
            self.wf(),
        ensures
            it == self.window(
                self.nghost as int,
                self.len2 - self.nghost,
                self.nghost as int,
                self.len1 - self.nghost,
            ),
            it.remaining() == self.dim1() * self.dim2(),
            it.cells() == self.region(0, self.dim2(), 0, self.dim1()),
            self.data@.len() >= self.len12 ==> it.wf(),
    {
        let it = Iterator2D {
            data: &self.data,
            current1: self.nghost,
            current2: self.nghost,
            start1: self.nghost,
            len1: self.len1,
            end1: self.len1 - self.nghost,
            end2: self.len2 - self.nghost,
        };
        proof {
            it.lemma_fresh_remaining();
            lemma_rows_in_plane(self.len1 as int, self.len2 as int, it.end2 as int);
        }
        it
    }

    /// The exclusive view over the active cells.
    pub fn interior_mut(&mut self) -> (it: Iterator2DMut<'_, T>)
        requires
            old(self).wf(),
        ensures
            it.at_window(
                old(self).len1 as int,
                old(self).nghost as int,
                old(self).len2 - old(self).nghost,
                old(self).nghost as int,
                old(self).len1 - old(self).nghost,
            ),
            it.remaining() == old(self).dim1() * old(self).dim2(),
            it.cells() == old(self).region(0, old(self).dim2(), 0, old(self).dim1()),
            it.data@ == old(self).data@,
            old(self).data@.len() >= old(self).len12 ==> it.wf(),
            final(self).data@ == final(it.data)@,
            final(self).same_shape(old(self)),
    {
        let nghost: usize = self.nghost;
        let len2: usize = self.len2;
        let len1: usize = self.len1;
        let it = Iterator2DMut {
            data: &mut self.data,
            len1: len1,
            current1: nghost,
            current2: nghost,
            start1: nghost,
            end1: len1 - nghost,
            end2: len2 - nghost,
        };
        proof {
            it.lemma_fresh_remaining();
            lemma_rows_in_plane(len1 as int, self.len2 as int, it.end2 as int);
        }
        it
    }

    /// The view over the active cells, widened by one cell on each side along
    /// the first axis and then moved by `offset` cells along that axis.
    pub fn interior_x1(&self, offset: i32) -> (it: Iterator2D<'_, T>)
        requires
            self.wf(),
            1 <= self.nghost + offset,
            offset + 1 <= self.nghost,
        ensures
            it == self.window(
                self.nghost as int,
                self.len2 - self.nghost,
                self.nghost + offset - 1,
                self.len1 - self.nghost + offset + 1,
            ),
            it.remaining() == (self.dim1() + 2) * self.dim2(),
            it.cells() == self.region(0, self.dim2(), offset - 1, self.dim1() + offset + 1),
            self.data@.len() >= self.len12 ==> it.wf(),
    {
        let start: usize = shift(self.nghost - 1, offset);
        let end: usize = shift(self.len1 - self.nghost + 1, offset);
        let it = Iterator2D {
            data: &self.data,
            current1: start,
            current2: self.nghost,
            start1: start,
            len1: self.len1,
            end1: end,
            end2: self.len2 - self.nghost,
        };
        proof {
            it.lemma_fresh_remaining();
            lemma_rows_in_plane(self.len1 as int, self.len2 as int, it.end2 as int);
        }
        it
    }

    /// The exclusive view over the active cells, widened by one cell on each
    /// side along the first axis and then moved by `offset` cells along that
    /// axis.
    pub fn interior_x1_mut(&mut self, offset: i32) -> (it: Iterator2DMut<'_, T>)
        requires
            old(self).wf(),
            1 <= old(self).nghost + offset,
            offset + 1 <= old(self).nghost,
        ensures
            it.at_window(
                old(self).len1 as int,
                old(self).nghost as int,
                old(self).len2 - old(self).nghost,
                old(self).nghost + offset - 1,
                old(self).len1 - old(self).nghost + offset + 1,
            ),
            it.remaining() == (old(self).dim1() + 2) * old(self).dim2(),
            it.cells() == old(self).region(0, old(self).dim2(), offset - 1, old(self).dim1() + offset + 1),
            it.data@ == old(self).data@,
            old(self).data@.len() >= old(self).len12 ==> it.wf(),
            final(self).data@ == final(it.data)@,
            final(self).same_shape(old(self)),
    {
        let nghost: usize = self.nghost;
        let len2: usize = self.len2;
        let start: usize = shift(self.nghost - 1, offset);
        let end: usize = shift(self.len1 - self.nghost + 1, offset);
        let len1: usize = self.len1;
        let it = Iterator2DMut {
            data: &mut self.data,
            len1: len1,
            current1: start,
            current2: nghost,
            start1: start,
            end1: end,
            end2: len2 - nghost,
        };
        proof {
            it.lemma_fresh_remaining();
            lemma_rows_in_plane(len1 as int, self.len2 as int, it.end2 as int);
        }
        it
    }

    /// The view over the faces between active cells along the first axis: one
    /// more column than there are active columns.
    pub fn interior_f1(&self) -> (it: Iterator2D<'_, T>)
        requires
            self.wf(),
            self.nghost >= 1,
        ensures
            it == self.window(
                self.nghost as int,
                self.len2 - self.nghost,
                self.nghost as int,
                self.len1 - self.nghost + 1,
            ),
            it.remaining() == (self.dim1() + 1) * self.dim2(),
            it.cells() == self.region(0, self.dim2(), 0, self.dim1() + 1),
            self.data@.len() >= self.len12 ==> it.wf(),
    {
        let it = Iterator2D {
            data: &self.data,
            current1: self.nghost,
            current2: self.nghost,
            start1: self.nghost,
            len1: self.len1,
            end1: self.len1 - self.nghost + 1,
            end2: self.len2 - self.nghost,
        };
        proof {
            it.lemma_fresh_remaining();
            lemma_rows_in_plane(self.len1 as int, self.len2 as int, it.end2 as int);
        }
        it
    }

    /// The exclusive view over the faces between active cells along the first
    /// axis.
    pub fn interior_f1_mut(&mut self) -> (it: Iterator2DMut<'_, T>)
        requires
            old(self).wf(),
            old(self).nghost >= 1,
        ensures
            it.at_window(
                old(self).len1 as int,
                old(self).nghost as int,
                old(self).len2 - old(self).nghost,
                old(self).nghost as int,
                old(self).len1 - old(self).nghost + 1,
            ),
            it.remaining() == (old(self).dim1() + 1) * old(self).dim2(),
            it.cells() == old(self).region(0, old(self).dim2(), 0, old(self).dim1() + 1),
            it.data@ == old(self).data@,
            old(self).data@.len() >= old(self).len12 ==> it.wf(),
            final(self).data@ == final(it.data)@,
            final(self).same_shape(old(self)),
    {
        let nghost: usize = self.nghost;
        let len2: usize = self.len2;
        let len1: usize = self.len1;
        let it = Iterator2DMut {
            data: &mut self.data,
            len1: len1,
            current1: nghost,
            current2: nghost,
            start1: nghost,
            end1: len1 - nghost + 1,
            end2: len2 - nghost,
        };
        proof {
            it.lemma_fresh_remaining();
            lemma_rows_in_plane(len1 as int, self.len2 as int, it.end2 as int);
        }
        it
    }

    /// The view over the faces between active cells along the second axis:
    /// one more row than there are active rows.
    pub fn interior_f2(&self) -> (it: Iterator2D<'_, T>)
        requires
            self.wf(),
            self.nghost >= 1,
        ensures
            it == self.window(
                self.nghost as int,
                self.len2 - self.nghost + 1,
                self.nghost as int,
                self.len1 - self.nghost,
            ),
            it.remaining() == self.dim1() * (self.dim2() + 1),
            it.cells() == self.region(0, self.dim2() + 1, 0, self.dim1()),
            self.data@.len() >= self.len12 ==> it.wf(),
    {
        let it = Iterator2D {
            data: &self.data,
            current1: self.nghost,
            current2: self.nghost,
            start1: self.nghost,
            len1: self.len1,
            end1: self.len1 - self.nghost,
            end2: self.len2 - self.nghost + 1,
        };
        proof {
            it.lemma_fresh_remaining();
            lemma_rows_in_plane(self.len1 as int, self.len2 as int, it.end2 as int);
        }
        it
    }

    /// The exclusive view over the faces between active cells along the second
    /// axis.
    pub fn interior_f2_mut(&mut self) -> (it: Iterator2DMut<'_, T>)
        requires
            old(self).wf(),
            old(self).nghost >= 1,
        ensures
            it.at_window(
                old(self).len1 as int,
                old(self).nghost as int,
                old(self).len2 - old(self).nghost + 1,
                old(self).nghost as int,
                old(self).len1 - old(self).nghost,
            ),
            it.remaining() == old(self).dim1() * (old(self).dim2() + 1),
            it.cells() == old(self).region(0, old(self).dim2() + 1, 0, old(self).dim1()),
            it.data@ == old(self).data@,
            old(self).data@.len() >= old(self).len12 ==> it.wf(),
            final(self).data@ == final(it.data)@,
            final(self).same_shape(old(self)),
    {
        let nghost: usize = self.nghost;
        let len2: usize = self.len2;
        let len1: usize = self.len1;
        let it = Iterator2DMut {
            data: &mut self.data,
            len1: len1,
            current1: nghost,
            current2: nghost,
            start1: nghost,
            end1: len1 - nghost,
            end2: len2 - nghost + 1,
        };
        proof {
            it.lemma_fresh_remaining();
            lemma_rows_in_plane(len1 as int, self.len2 as int, it.end2 as int);
        }
        it
    }

    /// The view over the active cells, widened by one cell on each side along
    /// the second axis and then moved by `offset` cells along that axis.
    pub fn interior_x2(&self, offset: i32) -> (it: Iterator2D<'_, T>)
        requires
            self.wf(),
            1 <= self.nghost + offset,
            offset + 1 <= self.nghost,
        ensures
            it == self.window(
                self.nghost + offset - 1,
                self.len2 - self.nghost + offset + 1,
                self.nghost as int,
                self.len1 - self.nghost,
            ),
            it.remaining() == self.dim1() * (self.dim2() + 2),
            it.cells() == self.region(offset - 1, self.dim2() + offset + 1, 0, self.dim1()),
            self.data@.len() >= self.len12 ==> it.wf(),
    {
        let start: usize = shift(self.nghost - 1, offset);
        let end: usize = shift(self.len2 - self.nghost + 1, offset);
        let it = Iterator2D {
            data: &self.data,
            current1: self.nghost,
            current2: start,
            start1: self.nghost,
            len1: self.len1,
            end1: self.len1 - self.nghost,
            end2: end,
        };
        proof {
            it.lemma_fresh_remaining();
            lemma_rows_in_plane(self.len1 as int, self.len2 as int, it.end2 as int);
        }
        it
    }

    /// The exclusive view over the active cells, widened by one cell on each
    /// side along the second axis and then moved by `offset` cells along that
    /// axis.
    pub fn interior_x2_mut(&mut self, offset: i32) -> (it: Iterator2DMut<'_, T>)
        requires
            old(self).wf(),
            1 <= old(self).nghost + offset,
            offset + 1 <= old(self).nghost,
        ensures
            it.at_window(
                old(self).len1 as int,
                old(self).nghost + offset - 1,
                old(self).len2 - old(self).nghost + offset + 1,
                old(self).nghost as int,
                old(self).len1 - old(self).nghost,
            ),
            it.remaining() == old(self).dim1() * (old(self).dim2() + 2),
            it.cells() == old(self).region(offset - 1, old(self).dim2() + offset + 1, 0, old(self).dim1()),
            it.data@ == old(self).data@,
            old(self).data@.len() >= old(self).len12 ==> it.wf(),
            final(self).data@ == final(it.data)@,
            final(self).same_shape(old(self)),
    {
        let nghost: usize = self.nghost;
        let start: usize = shift(self.nghost - 1, offset);
        let end: usize = shift(self.len2 - self.nghost + 1, offset);
        let len1: usize = self.len1;
        let it = Iterator2DMut {
            data: &mut self.data,
            len1: len1,
            current1: nghost,
            current2: start,
            start1: nghost,
            end1: len1 - nghost,
            end2: end,
        };
        proof {
            it.lemma_fresh_remaining();
            lemma_rows_in_plane(len1 as int, self.len2 as int, it.end2 as int);
        }
        it
    }

    /// The view over the whole padded grid, ghost cells included.
    pub fn all(&self) -> (it: Iterator2D<'_, T>)
        requires
            self.wf(),
        ensures
            it == self.window(0, self.len2 as int, 0, self.len1 as int),
            it.remaining() == self.len1 * self.len2,
            it.cells() == self.region(-self.nghost, self.len2 - self.nghost, -self.nghost, self.len1 - self.nghost),
            self.data@.len() >= self.len12 ==> it.wf(),
    {
        let it = Iterator2D {
            data: &self.data,
            current1: 0,
            current2: 0,
            start1: 0,
            len1: self.len1,
            end1: self.len1,
            end2: self.len2,
        };
        proof {
            it.lemma_fresh_remaining();
            assert(self.len2 * self.len1 == self.len1 * self.len2) by (nonlinear_arith);
        }
        it
    }

    /// The exclusive view over the whole padded grid, ghost cells included.
    pub fn all_mut(&mut self) -> (it: Iterator2DMut<'_, T>)
        requires
            old(self).wf(),
        ensures
            it.at_window(
                old(self).len1 as int,
                0,
                old(self).len2 as int,
                0,
                old(self).len1 as int,
            ),
            it.remaining() == old(self).len1 * old(self).len2,
            it.cells() == old(self).region(-old(self).nghost, old(self).len2 - old(self).nghost, -old(self).nghost, old(self).len1 - old(self).nghost),
            it.data@ == old(self).data@,
            old(self).data@.len() >= old(self).len12 ==> it.wf(),
            final(self).data@ == final(it.data)@,
            final(self).same_shape(old(self)),
    {
        let len2: usize = self.len2;
        let len1: usize = self.len1;
        let it = Iterator2DMut {
            data: &mut self.data,
            len1: len1,
            current1: 0,
            current2: 0,
            start1: 0,
            end1: len1,
            end2: len2,
        };
        proof {
            it.lemma_fresh_remaining();
            assert(len2 * len1 == len1 * len2) by (nonlinear_arith);
        }
        it
    }

    /// The tail of the buffer that starts at cell `(j, i)` of the first plane.
    pub fn at(&self, j: i32, i: i32) -> (r: &[T])
        requires
            self.wf(),
            self.in_range(0, j as int, i as int),
        ensures
            r@ == self.data@.subrange(self.base(j as int, i as int), self.data@.len() as int),
    {
        proof {
            self.lemma_offset_in_buffer(0, j as int, i as int);
        }
        let size: usize = self.data.len();
        let j1: usize = shift(self.nghost, j);
        let i1: usize = shift(self.nghost, i);
        let index: usize = j1 * self.len1 + i1;
        vstd::slice::slice_subrange(self.data.as_slice(), index, size)
    }

    /// Reads variable `n` at cell `(j, i)`; negative coordinates reach into
    /// the ghost cells.
    pub fn get(&self, n: usize, j: i32, i: i32) -> (r: T)
        requires
            self.wf(),
            self.in_range(n as int, j as int, i as int),
        ensures
            r == self.cell(n as int, j as int, i as int),
    {
        proof {
            self.lemma_offset_in_buffer(n as int, j as int, i as int);
        }
        let size: usize = self.data.len();
        let j1: usize = shift(self.nghost, j);
        let i1: usize = shift(self.nghost, i);
        let index: usize = n * self.len12 + (j1 * self.len1 + i1);
        self.data[index]
    }

    /// Reads variable `n` at cell `(j, i)` if it exists, and reports an index
    /// outside the block as `None`.
    pub fn try_get(&self, n: usize, j: i32, i: i32) -> (r: Option<T>)
        requires
            self.wf(),
        ensures
            r == (if self.in_range(n as int, j as int, i as int) {
                Some(self.cell(n as int, j as int, i as int))
            } else {
                None
            }),
    {
        if self.holds(n, j, i) {
            Some(self.get(n, j, i))
        } else {
            None
        }
    }

    /// Writes `value` to variable `n` at cell `(j, i)` if it exists and tells
    /// whether it did; on an index outside the block nothing is written.
    pub fn try_set(&mut self, n: usize, j: i32, i: i32, value: T) -> (done: bool)
        requires
            old(self).wf(),
        ensures
            final(self).wf(),
            final(self).same_shape(old(self)),
            done == old(self).in_range(n as int, j as int, i as int),
            done ==> final(self).data@ == old(self).data@.update(
                old(self).offset(n as int, j as int, i as int),
                value,
            ),
            !done ==> final(self).data@ == old(self).data@,
    {
        if self.holds(n, j, i) {
            *self.set(n, j, i) = value;
            true
        } else {
            false
        }
    }

    /// Hands out variable `n` at cell `(j, i)` for writing; every other
    /// element keeps its value.
    pub fn set(&mut self, n: usize, j: i32, i: i32) -> (r: &mut T)
        requires
            old(self).wf(),
            old(self).in_range(n as int, j as int, i as int),
        ensures
            *r == old(self).cell(n as int, j as int, i as int),
            final(self).data@ == old(self).data@.update(
                old(self).offset(n as int, j as int, i as int),
                *final(r),
            ),
            final(self).same_shape(old(self)),
            final(self).wf(),
    {
        proof {
            self.lemma_offset_in_buffer(n as int, j as int, i as int);
        }
        let size: usize = self.data.len();
        let j1: usize = shift(self.nghost, j);
        let i1: usize = shift(self.nghost, i);
        let index: usize = n * self.len12 + (j1 * self.len1 + i1);
        &mut self.data[index]
    }
}

/// The first `rows` rows of a plane of `len2` rows end inside the plane.
pub proof fn lemma_rows_in_plane(len1: int, len2: int, rows: int)
    requires
        0 <= rows <= len2,
        0 <= len1,
    ensures
        len1 * rows <= len1 * len2,
{
    assert(len1 * rows <= len1 * len2) by (nonlinear_arith)
        requires
            0 <= rows <= len2,
            0 <= len1,
    ;
}

} // verus!
