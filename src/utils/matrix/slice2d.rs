use vstd::prelude::*;
use std::ops::Range;
use crate::utils::algebra::{elem_add, elem_sub, wrap};
use crate::utils::matrix::{all_rows_have, extent, rows_reach, same_grid, Row, Shape, Vec2d};
use crate::utils::ops::{IntoRange, Slice, Len};

verus! {

/// A read-only rectangular window, rows `row` and columns `col`, into rows of
/// cells that it borrows.
#[derive(Debug)]
pub struct Slice2d<'a, T: 'a> {
    pub slice: &'a [T],
    pub row: Range<usize>,
    pub col: Range<usize>,
}

/// `x + y` or `x - y`, wrapping.
pub open spec fn combined(x: i32, y: i32, subtract: bool) -> i32 {
    if subtract {
        wrap(x - y)
    } else {
        wrap(x + y)
    }
}

impl<'a, T: Row> Slice2d<'a, T> {
    /// The window lies within the backing rows.
    pub open spec fn wf(&self) -> bool {
        &&& self.row.start <= self.row.end <= self.slice@.len()
        &&& self.col.start <= self.col.end
        &&& rows_reach(self.slice@, self.row.start as int, self.row.end as int, self.col.end as int)
    }

    pub open spec fn rows(&self) -> int {
        self.row.end - self.row.start
    }

    pub open spec fn cols(&self) -> int {
        self.col.end - self.col.start
    }

    /// The entry at row `i`, column `j` of the window.
    pub open spec fn at(&self, i: int, j: int) -> i32 {
        self.slice@[self.row.start + i].cells()[self.col.start + j]
    }

    /// The window as a function of row and column.
    pub open spec fn mat(&self) -> spec_fn(int, int) -> int {
        |i: int, j: int| self.at(i, j) as int
    }

    /// Whether the window lies within the backing rows, checked at run time.
    pub fn is_valid(&self) -> (r: bool)
        ensures
            r == self.wf(),
    {
        if !(self.row.start <= self.row.end && self.row.end <= self.slice.len() && self.col.start <= self.col.end) {
            return false;
        }
        let mut r = self.row.start;
        while r < self.row.end
            invariant
                self.row.start <= r <= self.row.end <= self.slice@.len(),
                self.col.start <= self.col.end,
                rows_reach(self.slice@, self.row.start as int, r as int, self.col.end as int),
            decreases self.row.end - r,
        {
            proof {
                self.slice@[r as int].lemma_cells_len();
            }
            if self.slice[r].len() < self.col.end {
                return false;
            }
            r += 1;
        }
        true
    }

    /// Whether `other` has the same shape and the same entries as the window.
    pub fn equals<R: Shape>(&self, other: &R) -> (r: bool)
        requires
            self.wf(),
            other.well_formed(),
        ensures
            r == same_grid(self, other),
    {
        let (rows, cols) = other.shape();
        if rows != self.row.end - self.row.start || cols != self.col.end - self.col.start {
            return false;
        }
        for i in 0..rows
            invariant
                self.wf(),
                other.well_formed(),
                rows == self.rows() == other.n_rows(),
                cols == self.cols() == other.n_cols(),
                forall|x: int, y: int| 0 <= x < i && 0 <= y < cols ==> #[trigger] self.at(x, y) == other.entry(x, y),
        {
            for j in 0..cols
                invariant
                    self.wf(),
                    other.well_formed(),
                    i < rows,
                    rows == self.rows() == other.n_rows(),
                    cols == self.cols() == other.n_cols(),
                    forall|x: int, y: int|
                        (0 <= x < i && 0 <= y < cols) || (x == i && 0 <= y < j) ==> #[trigger] self.at(x, y)
                            == other.entry(x, y),
            {
                if self.get(i, j) != other.get(i, j) {
                    return false;
                }
            }
        }
        true
    }

    /// A window over all of `slice`, whose rows must all have the length of the first.
    pub fn new(slice: &'a [T]) -> (r: Self)
        requires
            slice@.len() > 0 ==> all_rows_have(slice@, slice@[0].cells().len()),
        ensures
            r.wf(),
            r.slice == slice,
            r.row.start == 0,
            r.row.end == slice@.len(),
            r.col.start == 0,
            r.col.end == (if slice@.len() == 0 { 0 } else { slice@[0].cells().len() }),
    {
        let n = slice.len();
        let m = if n == 0 {
            0
        } else {
            proof {
                slice@[0].lemma_cells_len();
            }
            slice[0].len()
        };
        Slice2d { slice, row: Range { start: 0, end: n }, col: Range { start: 0, end: m } }
    }

    /// The entries of the window, copied into a matrix of their own.
    pub fn to_vec2d(&self) -> (r: Vec2d<i32>)
        requires
            self.wf(),
        ensures
            r.well_formed(),
            r.n_rows() == self.rows(),
            r.n_rows() > 0 ==> r.n_cols() == self.cols(),
            forall|i: int, j: int|
                0 <= i < self.rows() && 0 <= j < self.cols() ==> #[trigger] r.entry(i, j) == self.at(i, j),
    {
        let rows = self.row.end - self.row.start;
        let cols = self.col.end - self.col.start;
        let mut result: Vec<Vec<i32>> = Vec::with_capacity(rows);
        for i in 0..rows
            invariant
                self.wf(),
                rows == self.rows(),
                cols == self.cols(),
                result@.len() == i,
                forall|r: int| 0 <= r < i ==> (#[trigger] result@[r])@.len() == cols,
                forall|r: int, c: int|
                    0 <= r < i && 0 <= c < cols ==> result@[r]@[c] == self.at(r, c),
        {
            let mut result_row: Vec<i32> = Vec::with_capacity(cols);
            for j in 0..cols
                invariant
                    self.wf(),
                    rows == self.rows(),
                    cols == self.cols(),
                    i < rows,
                    result_row@.len() == j,
                    forall|c: int| 0 <= c < j ==> result_row@[c] == self.at(i as int, c),
            {
                result_row.push(self.slice[self.row.start + i].cell(self.col.start + j));
            }
            result.push(result_row);
        }
        Vec2d(result)
    }

    /// The sub-window of rows `range.0` and columns `range.1`, both taken
    /// relative to this window and resolved against its own extent.
    pub fn slice<R1: IntoRange, R2: IntoRange>(&self, range: (R1, R2)) -> (r: Slice2d<'a, T>)
        requires
            self.wf(),
            range.0.resolvable(),
            range.1.resolvable(),
            0 <= range.0.start_in(extent(self.rows())) <= range.0.end_in(extent(self.rows())) <= self.rows(),
            0 <= range.1.start_in(extent(self.cols())) <= range.1.end_in(extent(self.cols())) <= self.cols(),
        ensures
            r.wf(),
            r.slice == self.slice,
            r.row.start == self.row.start + range.0.start_in(extent(self.rows())),
            r.row.end == self.row.start + range.0.end_in(extent(self.rows())),
            r.col.start == self.col.start + range.1.start_in(extent(self.cols())),
            r.col.end == self.col.start + range.1.end_in(extent(self.cols())),
    {
        let (row, col) = range;
        let row = row.into_range(Range { start: 0, end: self.row.end - self.row.start });
        let col = col.into_range(Range { start: 0, end: self.col.end - self.col.start });
        Slice2d {
            slice: self.slice,
            row: Range { start: self.row.start + row.start, end: self.row.start + row.end },
            col: Range { start: self.col.start + col.start, end: self.col.start + col.end },
        }
    }

    fn combine<R: Shape>(&self, rhs: &R, subtract: bool) -> (r: Vec2d<i32>)
        requires
            self.wf(),
            rhs.well_formed(),
            rhs.n_rows() == self.rows(),
            rhs.n_cols() == self.cols(),
        ensures
            r.well_formed(),
            r.n_rows() == self.rows(),
            r.n_rows() > 0 ==> r.n_cols() == self.cols(),
            forall|i: int, j: int|
                0 <= i < self.rows() && 0 <= j < self.cols() ==> #[trigger] r.entry(i, j) == combined(
                    self.at(i, j),
                    rhs.entry(i, j),
                    subtract,
                ),
    {
        let rows = self.row.end - self.row.start;
        let cols = self.col.end - self.col.start;
        let mut result: Vec<Vec<i32>> = Vec::with_capacity(rows);
        for i in 0..rows
            invariant
                self.wf(),
                rhs.well_formed(),
                rhs.n_rows() == self.rows(),
                rhs.n_cols() == self.cols(),
                rows == self.rows(),
                cols == self.cols(),
                result@.len() == i,
                forall|r: int| 0 <= r < i ==> (#[trigger] result@[r])@.len() == cols,
                forall|r: int, c: int|
                    0 <= r < i && 0 <= c < cols ==> result@[r]@[c] == combined(
                        self.at(r, c),
                        rhs.entry(r, c),
                        subtract,
                    ),
        {
            let mut result_row: Vec<i32> = Vec::with_capacity(cols);
            for j in 0..cols
                invariant
                    self.wf(),
                    rhs.well_formed(),
                    rhs.n_rows() == self.rows(),
                    rhs.n_cols() == self.cols(),
                    rows == self.rows(),
                    cols == self.cols(),
                    i < rows,
                    result_row@.len() == j,
                    forall|c: int|
                        0 <= c < j ==> result_row@[c] == combined(
                            self.at(i as int, c),
                            rhs.entry(i as int, c),
                            subtract,
                        ),
            {
                let x = self.slice[self.row.start + i].cell(self.col.start + j);
                let y = rhs.get(i, j);
                let v = if subtract {
                    elem_sub(x, y)
                } else {
                    elem_add(x, y)
                };
                result_row.push(v);
            }
            result.push(result_row);
        }
        Vec2d(result)
    }

    /// The entrywise (wrapping) sum of the window and `rhs`, of the same shape.
    pub fn add<R: Shape>(&self, rhs: R) -> (r: Vec2d<i32>)
        requires
            self.wf(),
            rhs.well_formed(),
            rhs.n_rows() == self.rows(),
            rhs.n_cols() == self.cols(),
        ensures
            r.well_formed(),
            r.n_rows() == self.rows(),
            r.n_rows() > 0 ==> r.n_cols() == self.cols(),
            forall|i: int, j: int|
                0 <= i < self.rows() && 0 <= j < self.cols() ==> #[trigger] r.entry(i, j) == wrap(
                    self.at(i, j) + rhs.entry(i, j),
                ),
    {
        self.combine(&rhs, false)
    }

    /// The entrywise (wrapping) difference of the window and `rhs`, of the same shape.
    pub fn sub<R: Shape>(&self, rhs: R) -> (r: Vec2d<i32>)
        requires
            self.wf(),
            rhs.well_formed(),
            rhs.n_rows() == self.rows(),
            rhs.n_cols() == self.cols(),
        ensures
            r.well_formed(),
            r.n_rows() == self.rows(),
            r.n_rows() > 0 ==> r.n_cols() == self.cols(),
            forall|i: int, j: int|
                0 <= i < self.rows() && 0 <= j < self.cols() ==> #[trigger] r.entry(i, j) == wrap(
                    self.at(i, j) - rhs.entry(i, j),
                ),
    {
        self.combine(&rhs, true)
    }
}

/// Slices compose by adding offsets: reading entry `(i, j)` of `w`, the
/// sub-window of `v` at rows from `r0` and columns from `c0`, reads entry
/// `(r0 + i, c0 + j)` of `v`.
pub proof fn lemma_reslice_reads_parent<T: Row>(v: Slice2d<T>, w: Slice2d<T>, r0: int, c0: int, i: int, j: int)
    requires
        v.wf(),
        w.slice == v.slice,
        w.row.start == v.row.start + r0,
        w.col.start == v.col.start + c0,
        0 <= i < w.rows(),
        0 <= j < w.cols(),
    ensures
        w.at(i, j) == v.at(r0 + i, c0 + j),
{
}

impl<'a, T: Row> Shape for Slice2d<'a, T> {
    open spec fn n_rows(&self) -> nat {
        self.rows() as nat
    }

    open spec fn n_cols(&self) -> nat {
        self.cols() as nat
    }

    open spec fn well_formed(&self) -> bool {
        self.wf()
    }

    open spec fn entry(&self, i: int, j: int) -> i32 {
        self.at(i, j)
    }

    fn shape(&self) -> (usize, usize) {
        (self.row.end - self.row.start, self.col.end - self.col.start)
    }

    fn get(&self, i: usize, j: usize) -> i32 {
        self.slice[self.row.start + i].cell(self.col.start + j)
    }
}

impl<'a, 'b, T: Row, U: Row> PartialEq<Slice2d<'b, U>> for Slice2d<'a, T> {
    fn eq(&self, other: &Slice2d<'b, U>) -> (r: bool) {
        self.is_valid() && other.is_valid() && self.equals(other)
    }
}

impl<'a, 'b, T: Row, U: Row> vstd::std_specs::cmp::PartialEqSpecImpl<Slice2d<'b, U>> for Slice2d<'a, T> {
    open spec fn obeys_eq_spec() -> bool {
        true
    }

    open spec fn eq_spec(&self, other: &Slice2d<'b, U>) -> bool {
        self.wf() && other.wf() && same_grid(self, other)
    }
}

impl<'a, 'b, T: Row, R1: IntoRange, R2: IntoRange> Slice<'b, (R1, R2)> for Slice2d<'a, T> {
    type Output = Slice2d<'a, T>;

    open spec fn slice_ok(&self, range: (R1, R2)) -> bool {
        self.wf() && range.0.resolvable() && range.1.resolvable() && 0 <= range.0.start_in(extent(self.rows()))
            <= range.0.end_in(extent(self.rows())) <= self.rows() && 0 <= range.1.start_in(extent(self.cols()))
            <= range.1.end_in(extent(self.cols())) <= self.cols()
    }

    fn slice(&'b self, range: (R1, R2)) -> Slice2d<'a, T> {
        Slice2d::<'a, T>::slice(self, range)
    }
}

} // verus!
