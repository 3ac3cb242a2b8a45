use vstd::prelude::*;
use std::ops::Range;
use crate::utils::algebra::{elem_add, elem_sub, wrap};
use crate::utils::matrix::slice2d::combined;
use crate::utils::matrix::{
    all_rows_have, cell_at, extent, rows_reach, same_grid, same_outside, Row, Shape, Slice2d, Vec2d,
};
use crate::utils::ops::{IntoRange, Slice, SliceMut, Len};

verus! {

/// A rectangular window, rows `row` and columns `col`, into rows of cells that
/// it borrows exclusively, through which the cells can be changed.
#[derive(Debug)]
pub struct Slice2dMut<'a, T: 'a> {
    pub slice: &'a mut [T],
    pub row: Range<usize>,
    pub col: Range<usize>,
}

impl<'a, T: Row> Slice2dMut<'a, T> {
    /// The window lies within the backing rows.
    pub open spec fn wf(&self) -> bool {
        &&& self.row.start <= self.row.end <= self.slice@.len()
        &&& self.col.start <= self.col.end
        &&& rows_reach(self.slice@, self.row.start as int, self.row.end as int, self.col.end as int)
    }

    /// The backing rows as they are now.
    pub open spec fn backing(&self) -> Seq<T> {
        self.slice@
    }

    pub open spec fn rows(&self) -> int {
        self.row.end - self.row.start
    }

    pub open spec fn cols(&self) -> int {
        self.col.end - self.col.start
    }

    /// The entry at row `i`, column `j` of the window, as it is now.
    pub open spec fn at(&self, i: int, j: int) -> i32 {
        cell_at(self.slice@, self.row.start + i, self.col.start + j)
    }

    /// A window over all of `slice`, whose rows must all have the length of the first.
    pub fn new(slice: &'a mut [T]) -> (r: Self)
        requires
            old(slice)@.len() > 0 ==> all_rows_have(old(slice)@, old(slice)@[0].cells().len()),
        ensures
            r.wf(),
            r.slice@ == old(slice)@,
            final(r.slice)@ == final(slice)@,
            r.row.start == 0,
            r.row.end == old(slice)@.len(),
            r.col.start == 0,
            r.col.end == (if old(slice)@.len() == 0 { 0 } else { old(slice)@[0].cells().len() }),
    {
        let row_len = slice.len();
        let col_len = if row_len == 0 {
            0
        } else {
            proof {
                slice@[0].lemma_cells_len();
            }
            slice[0].len()
        };
        Slice2dMut { slice, row: Range { start: 0, end: row_len }, col: Range { start: 0, end: col_len } }
    }

    fn window(&self) -> (r: Slice2d<'_, T>)
        ensures
            r.slice@ == self.backing(),
            r.row == self.row,
            r.col == self.col,
    {
        Slice2d {
            slice: &*self.slice,
            row: Range { start: self.row.start, end: self.row.end },
            col: Range { start: self.col.start, end: self.col.end },
        }
    }

    /// Whether the window lies within the backing rows, checked at run time.
    pub fn is_valid(&self) -> (r: bool)
        ensures
            r == self.wf(),
    {
        self.window().is_valid()
    }

    /// Whether `other` has the same shape and the same entries as the window.
    pub fn equals<R: Shape>(&self, other: &R) -> (r: bool)
        requires
            self.wf(),
            other.well_formed(),
        ensures
            r == same_grid(self, other),
    {
        let w = self.window();
        let r = w.equals(other);
        proof {
            assert forall|i: int, j: int| 0 <= i < self.rows() && 0 <= j < self.cols() implies #[trigger] self.at(i, j)
                == w.at(i, j) by {}
            if same_grid(self, other) {
                assert forall|i: int, j: int| 0 <= i < w.rows() && 0 <= j < w.cols() implies #[trigger] w.at(i, j)
                    == other.entry(i, j) by {
                    assert(self.entry(i, j) == other.entry(i, j));
                }
            }
            if r {
                assert forall|i: int, j: int| 0 <= i < self.rows() && 0 <= j < self.cols() implies #[trigger] self.at(
                    i,
                    j,
                ) == other.entry(i, j) by {
                    assert(w.entry(i, j) == other.entry(i, j));
                }
            }
        }
        r
    }

    /// A read-only window over the same cells.
    pub fn as_slice2d(&self) -> (r: Slice2d<'_, T>)
        requires
            self.wf(),
        ensures
            r.wf(),
            r.slice@ == self.backing(),
            r.row == self.row,
            r.col == self.col,
    {
        Slice2d {
            slice: &*self.slice,
            row: Range { start: self.row.start, end: self.row.end },
            col: Range { start: self.col.start, end: self.col.end },
        }
    }

    /// The entries of the window, copied into a matrix of their own.
    pub fn to_vec2d(&self) -> (r: Vec2d<i32>)
        requires
            self.wf(),
        ensures
            r.well_formed(),
            r.n_rows() == self.rows(),
            r.n_rows() > 0 ==> r.n_cols() == self.cols(),
            forall|i: int, j: int|
                0 <= i < self.rows() && 0 <= j < self.cols() ==> #[trigger] r.entry(i, j) == self.at(i, j),
    {
        self.as_slice2d().to_vec2d()
    }

    /// A read-only sub-window of rows `range.0` and columns `range.1`, both
    /// taken relative to this window.
    pub fn slice<R1: IntoRange, R2: IntoRange>(&self, range: (R1, R2)) -> (r: Slice2d<'_, T>)
        requires
            self.wf(),
            range.0.resolvable(),
            range.1.resolvable(),
            0 <= range.0.start_in(extent(self.rows())) <= range.0.end_in(extent(self.rows())) <= self.rows(),
            0 <= range.1.start_in(extent(self.cols())) <= range.1.end_in(extent(self.cols())) <= self.cols(),
        ensures
            r.wf(),
            r.slice@ == self.backing(),
            r.row.start == self.row.start + range.0.start_in(extent(self.rows())),
            r.row.end == self.row.start + range.0.end_in(extent(self.rows())),
            r.col.start == self.col.start + range.1.start_in(extent(self.cols())),
            r.col.end == self.col.start + range.1.end_in(extent(self.cols())),
    {
        self.as_slice2d().slice(range)
    }

    /// A mutable sub-window of rows `range.0` and columns `range.1`, both taken
    /// relative to this window. What is written through it is what this window
    /// holds once it is dropped.
    pub fn slice_mut<R1: IntoRange, R2: IntoRange>(&mut self, range: (R1, R2)) -> (r: Slice2dMut<'_, T>)
        requires
            old(self).wf(),
            range.0.resolvable(),
            range.1.resolvable(),
            0 <= range.0.start_in(extent(old(self).rows())) <= range.0.end_in(extent(old(self).rows()))
                <= old(self).rows(),
            0 <= range.1.start_in(extent(old(self).cols())) <= range.1.end_in(extent(old(self).cols()))
                <= old(self).cols(),
        ensures
            r.wf(),
            r.slice@ == old(self).slice@,
            r.row.start == old(self).row.start + range.0.start_in(extent(old(self).rows())),
            r.row.end == old(self).row.start + range.0.end_in(extent(old(self).rows())),
            r.col.start == old(self).col.start + range.1.start_in(extent(old(self).cols())),
            r.col.end == old(self).col.start + range.1.end_in(extent(old(self).cols())),
            final(self).row == old(self).row,
            final(self).col == old(self).col,
            final(self).slice@ == final(r.slice)@,
            final(final(self).slice)@ == final(old(self).slice)@,
    {
        let (row, col) = range;
        let row = row.into_range(Range { start: 0, end: self.row.end - self.row.start });
        let col = col.into_range(Range { start: 0, end: self.col.end - self.col.start });
        Slice2dMut {
            slice: &mut *self.slice,
            row: Range { start: self.row.start + row.start, end: self.row.start + row.end },
            col: Range { start: self.col.start + col.start, end: self.col.start + col.end },
        }
    }

    /// The entry at row `idx.0`, column `idx.1` of the window, to be changed in place.
    pub fn index_mut(&mut self, idx: (usize, usize)) -> (r: &mut i32)
        requires
            old(self).wf(),
            idx.0 < old(self).rows(),
            idx.1 < old(self).cols(),
        ensures
            *r == old(self).at(idx.0 as int, idx.1 as int),
            final(self).row == old(self).row,
            final(self).col == old(self).col,
            final(final(self).slice)@ == final(old(self).slice)@,
            final(self).backing().len() == old(self).backing().len(),
            forall|k: int|
                0 <= k < old(self).backing().len() && k != old(self).row.start + idx.0
                    ==> #[trigger] final(self).backing()[k] == old(self).backing()[k],
            final(self).backing()[old(self).row.start + idx.0].cells() == old(self).backing()[old(self).row.start
                + idx.0].cells().update(old(self).col.start + idx.1, *final(r)),
    {
        let ri = self.row.start + idx.0;
        let cj = self.col.start + idx.1;
        self.slice[ri].cell_mut(cj)
    }

    /// The entrywise (wrapping) sum of the window and `rhs`, of the same shape.
    pub fn add<R: Shape>(&self, rhs: R) -> (r: Vec2d<i32>)
        requires
            self.wf(),
            rhs.well_formed(),
            rhs.n_rows() == self.rows(),
            rhs.n_cols() == self.cols(),
        ensures
            r.well_formed(),
            r.n_rows() == self.rows(),
            r.n_rows() > 0 ==> r.n_cols() == self.cols(),
            forall|i: int, j: int|
                0 <= i < self.rows() && 0 <= j < self.cols() ==> #[trigger] r.entry(i, j) == wrap(
                    self.at(i, j) + rhs.entry(i, j),
                ),
    {
        self.as_slice2d().add(rhs)
    }

    /// The entrywise (wrapping) difference of the window and `rhs`, of the same shape.
    pub fn sub<R: Shape>(&self, rhs: R) -> (r: Vec2d<i32>)
        requires
            self.wf(),
            rhs.well_formed(),
            rhs.n_rows() == self.rows(),
            rhs.n_cols() == self.cols(),
        ensures
            r.well_formed(),
            r.n_rows() == self.rows(),
            r.n_rows() > 0 ==> r.n_cols() == self.cols(),
            forall|i: int, j: int|
                0 <= i < self.rows() && 0 <= j < self.cols() ==> #[trigger] r.entry(i, j) == wrap(
                    self.at(i, j) - rhs.entry(i, j),
                ),
    {
        self.as_slice2d().sub(rhs)
    }

    fn combine_assign<R: Shape>(&mut self, rhs: &R, subtract: bool)
        requires
            old(self).wf(),
            rhs.well_formed(),
            rhs.n_rows() == old(self).rows(),
            rhs.n_cols() == old(self).cols(),
        ensures
            final(self).row == old(self).row,
            final(self).col == old(self).col,
            final(final(self).slice)@ == final(old(self).slice)@,
            same_outside(
                old(self).slice@,
                final(self).slice@,
                old(self).row.start as int,
                old(self).row.end as int,
                old(self).col.start as int,
                old(self).col.end as int,
            ),
            forall|i: int, j: int|
                0 <= i < old(self).rows() && 0 <= j < old(self).cols() ==> #[trigger] final(self).at(i, j)
                    == combined(old(self).at(i, j), rhs.entry(i, j), subtract),
    {
        let rows = self.row.end - self.row.start;
        let cols = self.col.end - self.col.start;
        let ghost before = self.slice@;
        for i in 0..rows
            invariant
                self.row == old(self).row,
                self.col == old(self).col,
                final(self.slice)@ == final(old(self).slice)@,
                old(self).wf(),
                self.wf(),
                before == old(self).slice@,
                rhs.well_formed(),
                rhs.n_rows() == old(self).rows(),
                rhs.n_cols() == old(self).cols(),
                rows == old(self).rows(),
                cols == old(self).cols(),
                same_outside(
                    before,
                    self.slice@,
                    self.row.start as int,
                    self.row.start + i,
                    self.col.start as int,
                    self.col.end as int,
                ),
                forall|r: int, c: int|
                    0 <= r < i && 0 <= c < cols ==> #[trigger] cell_at(
                        self.slice@,
                        self.row.start + r,
                        self.col.start + c,
                    ) == combined(old(self).at(r, c), rhs.entry(r, c), subtract),
        {
            for j in 0..cols
                invariant
                    self.row == old(self).row,
                    self.col == old(self).col,
                    final(self.slice)@ == final(old(self).slice)@,
                    old(self).wf(),
                    self.wf(),
                    before == old(self).slice@,
                    rhs.well_formed(),
                    rhs.n_rows() == old(self).rows(),
                    rhs.n_cols() == old(self).cols(),
                    rows == old(self).rows(),
                    cols == old(self).cols(),
                    i < rows,
                    same_outside(
                        before,
                        self.slice@,
                        self.row.start as int,
                        self.row.start + i + 1,
                        self.col.start as int,
                        self.col.end as int,
                    ),
                    forall|c: int|
                        j <= c < cols ==> #[trigger] cell_at(self.slice@, self.row.start + i, self.col.start + c)
                            == cell_at(before, self.row.start + i, self.col.start + c),
                    forall|r: int, c: int|
                        (0 <= r < i && 0 <= c < cols) || (r == i && 0 <= c < j) ==> #[trigger] cell_at(
                            self.slice@,
                            self.row.start + r,
                            self.col.start + c,
                        ) == combined(old(self).at(r, c), rhs.entry(r, c), subtract),
            {
                let ri = self.row.start + i;
                let cj = self.col.start + j;
                let x = self.slice[ri].cell(cj);
                let y = rhs.get(i, j);
                let v = if subtract {
                    elem_sub(x, y)
                } else {
                    elem_add(x, y)
                };
                let ghost prev = self.slice@;
                self.slice[ri].set_cell(cj, v);
                proof {
                    assert(self.slice@.len() == prev.len());
                    assert(self.slice@[ri as int].cells() == prev[ri as int].cells().update(cj as int, v));
                    assert forall|r: int| 0 <= r < self.slice@.len() && r != ri implies #[trigger] self.slice@[r]
                        == prev[r] by {}
                    assert forall|c: int| j + 1 <= c < cols implies #[trigger] cell_at(
                        self.slice@,
                        self.row.start + i,
                        self.col.start + c,
                    ) == cell_at(before, self.row.start + i, self.col.start + c) by {
                        assert(cell_at(prev, self.row.start + i, self.col.start + c) == cell_at(
                            before,
                            self.row.start + i,
                            self.col.start + c,
                        ));
                    }
                    assert forall|r: int, c: int|
                        (0 <= r < i && 0 <= c < cols) || (r == i && 0 <= c < j + 1) implies #[trigger] cell_at(
                        self.slice@,
                        self.row.start + r,
                        self.col.start + c,
                    ) == combined(old(self).at(r, c), rhs.entry(r, c), subtract) by {
                        if r == i && c == j {
                            assert(cell_at(prev, self.row.start + i, self.col.start + j) == cell_at(
                                before,
                                self.row.start + i,
                                self.col.start + j,
                            ));
                        } else {
                            assert(cell_at(prev, self.row.start + r, self.col.start + c) == combined(
                                old(self).at(r, c),
                                rhs.entry(r, c),
                                subtract,
                            ));
                        }
                    }
                    assert forall|r: int, c: int|
                        0 <= r < before.len() && 0 <= c < before[r].cells().len() && !(self.row.start <= r
                            < self.row.start + i + 1 && self.col.start <= c < self.col.end) implies #[trigger] cell_at(
                        self.slice@,
                        r,
                        c,
                    ) == cell_at(before, r, c) by {
                        assert(cell_at(prev, r, c) == cell_at(before, r, c));
                    }
                }
            }
        }
    }

    /// Adds `rhs`, of the same shape, into the window, entry by entry (wrapping).
    pub fn add_assign<R: Shape>(&mut self, rhs: R)
        requires
            old(self).wf(),
            rhs.well_formed(),
            rhs.n_rows() == old(self).rows(),
            rhs.n_cols() == old(self).cols(),
        ensures
            final(self).row == old(self).row,
            final(self).col == old(self).col,
            final(final(self).slice)@ == final(old(self).slice)@,
            same_outside(
                old(self).slice@,
                final(self).slice@,
                old(self).row.start as int,
                old(self).row.end as int,
                old(self).col.start as int,
                old(self).col.end as int,
            ),
            forall|i: int, j: int|
                0 <= i < old(self).rows() && 0 <= j < old(self).cols() ==> #[trigger] final(self).at(i, j)
                    == wrap(old(self).at(i, j) + rhs.entry(i, j)),
    {
        self.combine_assign(&rhs, false)
    }

    /// Subtracts `rhs`, of the same shape, from the window, entry by entry (wrapping).
    pub fn sub_assign<R: Shape>(&mut self, rhs: R)
        requires
            old(self).wf(),
            rhs.well_formed(),
            rhs.n_rows() == old(self).rows(),
            rhs.n_cols() == old(self).cols(),
        ensures
            final(self).row == old(self).row,
            final(self).col == old(self).col,
            final(final(self).slice)@ == final(old(self).slice)@,
            same_outside(
                old(self).slice@,
                final(self).slice@,
                old(self).row.start as int,
                old(self).row.end as int,
                old(self).col.start as int,
                old(self).col.end as int,
            ),
            forall|i: int, j: int|
                0 <= i < old(self).rows() && 0 <= j < old(self).cols() ==> #[trigger] final(self).at(i, j)
                    == wrap(old(self).at(i, j) - rhs.entry(i, j)),
    {
        self.combine_assign(&rhs, true)
    }
}

impl<'a, T: Row> Shape for Slice2dMut<'a, T> {
    open spec fn n_rows(&self) -> nat {
        self.rows() as nat
    }

    open spec fn n_cols(&self) -> nat {
        self.cols() as nat
    }

    open spec fn well_formed(&self) -> bool {
        self.wf()
    }

    open spec fn entry(&self, i: int, j: int) -> i32 {
        self.at(i, j)
    }

    fn shape(&self) -> (usize, usize) {
        (self.row.end - self.row.start, self.col.end - self.col.start)
    }

    fn get(&self, i: usize, j: usize) -> i32 {
        self.slice[self.row.start + i].cell(self.col.start + j)
    }
}

impl<'a, 'b, T: Row, U: Row> PartialEq<Slice2dMut<'b, U>> for Slice2dMut<'a, T> {
    fn eq(&self, other: &Slice2dMut<'b, U>) -> (r: bool) {
        self.is_valid() && other.is_valid() && self.equals(other)
    }
}

impl<'a, 'b, T: Row, U: Row> vstd::std_specs::cmp::PartialEqSpecImpl<Slice2dMut<'b, U>> for Slice2dMut<'a, T> {
    open spec fn obeys_eq_spec() -> bool {
        true
    }

    open spec fn eq_spec(&self, other: &Slice2dMut<'b, U>) -> bool {
        self.wf() && other.wf() && same_grid(self, other)
    }
}

impl<'a, 'b, T: Row + 'b, R1: IntoRange, R2: IntoRange> Slice<'b, (R1, R2)> for Slice2dMut<'a, T> {
    type Output = Slice2d<'b, T>;

    open spec fn slice_ok(&self, range: (R1, R2)) -> bool {
        self.wf() && range.0.resolvable() && range.1.resolvable() && 0 <= range.0.start_in(extent(self.rows()))
            <= range.0.end_in(extent(self.rows())) <= self.rows() && 0 <= range.1.start_in(extent(self.cols()))
            <= range.1.end_in(extent(self.cols())) <= self.cols()
    }

    fn slice(&'b self, range: (R1, R2)) -> Slice2d<'b, T> {
        Slice2dMut::<'a, T>::slice(self, range)
    }
}

impl<'a, 'b, T: Row + 'b, R1: IntoRange, R2: IntoRange> SliceMut<'b, (R1, R2)> for Slice2dMut<'a, T> {
    type Output = Slice2dMut<'b, T>;

    open spec fn slice_mut_ok(&self, range: (R1, R2)) -> bool {
        self.wf() && range.0.resolvable() && range.1.resolvable() && 0 <= range.0.start_in(extent(self.rows()))
            <= range.0.end_in(extent(self.rows())) <= self.rows() && 0 <= range.1.start_in(extent(self.cols()))
            <= range.1.end_in(extent(self.cols())) <= self.cols()
    }

    fn slice_mut(&'b mut self, range: (R1, R2)) -> Slice2dMut<'b, T> {
        Slice2dMut::<'a, T>::slice_mut(self, range)
    }
}

} // verus!
