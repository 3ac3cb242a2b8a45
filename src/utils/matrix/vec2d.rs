use vstd::prelude::*;
use crate::utils::algebra::wrap;
use crate::utils::matrix::{cell_at, extent, Row, Shape, Slice2d, Slice2dMut};
use crate::utils::ops::{IntoRange, Slice};

verus! {

/// A matrix held as a vector of rows, whose shape is known at run time.
#[derive(Debug, PartialEq, Clone)]
pub struct Vec2d<T>(pub Vec<Vec<T>>);

impl Vec2d<i32> {
    /// A `row_len` by `col_len` matrix of zeros.
    pub fn defaults(shape: (usize, usize)) -> (r: Self)
        ensures
            r.well_formed(),
            r.0@.len() == shape.0,
            forall|i: int| 0 <= i < shape.0 ==> (#[trigger] r.0@[i])@.len() == shape.1,
            forall|i: int, j: int| 0 <= i < shape.0 && 0 <= j < shape.1 ==> #[trigger] r.entry(i, j) == 0,
    {
        let (row_len, col_len) = shape;
        let mut result: Vec<Vec<i32>> = Vec::with_capacity(row_len);
        for i in 0..row_len
            invariant
                result@.len() == i,
                forall|r: int| 0 <= r < i ==> (#[trigger] result@[r])@.len() == col_len,
                forall|r: int, c: int| 0 <= r < i && 0 <= c < col_len ==> result@[r]@[c] == 0,
        {
            let mut result_row: Vec<i32> = Vec::with_capacity(col_len);
            for j in 0..col_len
                invariant
                    result_row@.len() == j,
                    forall|c: int| 0 <= c < j ==> result_row@[c] == 0,
            {
                result_row.push(0);
            }
            result.push(result_row);
        }
        Vec2d(result)
    }

    /// The entry at row `idx.0`, column `idx.1`, to be changed in place.
    pub fn index_mut(&mut self, idx: (usize, usize)) -> (r: &mut i32)
        requires
            idx.0 < old(self).0@.len(),
            idx.1 < old(self).0@[idx.0 as int]@.len(),
        ensures
            *r == old(self).entry(idx.0 as int, idx.1 as int),
            final(self).0@.len() == old(self).0@.len(),
            forall|k: int| 0 <= k < old(self).0@.len() && k != idx.0 ==> #[trigger] final(self).0@[k] == old(self).0@[k],
            final(self).0@[idx.0 as int]@ == old(self).0@[idx.0 as int]@.update(idx.1 as int, *final(r)),
    {
        self.0[idx.0].cell_mut(idx.1)
    }

    /// A read-only window over the whole matrix.
    pub fn as_slice2d(&self) -> (r: Slice2d<'_, Vec<i32>>)
        requires
            self.well_formed(),
        ensures
            r.wf(),
            r.slice@ == self.0@,
            r.row.start == 0,
            r.row.end == self.n_rows(),
            r.col.start == 0,
            r.col.end == self.n_cols(),
    {
        Slice2d::new(self.0.as_slice())
    }

    /// A mutable window over the whole matrix.
    pub fn as_slice2d_mut(&mut self) -> (r: Slice2dMut<'_, Vec<i32>>)
        requires
            old(self).well_formed(),
        ensures
            r.wf(),
            r.slice@ == old(self).0@,
            final(self).0@ == final(r.slice)@,
            r.row.start == 0,
            r.row.end == old(self).n_rows(),
            r.col.start == 0,
            r.col.end == old(self).n_cols(),
    {
        Slice2dMut::new(self.0.as_mut_slice())
    }

    /// A read-only window of rows `range.0` and columns `range.1`.
    pub fn slice<R1: IntoRange, R2: IntoRange>(&self, range: (R1, R2)) -> (r: Slice2d<'_, Vec<i32>>)
        requires
            self.well_formed(),
            range.0.resolvable(),
            range.1.resolvable(),
            0 <= range.0.start_in(extent(self.n_rows() as int)) <= range.0.end_in(extent(self.n_rows() as int))
                <= self.n_rows(),
            0 <= range.1.start_in(extent(self.n_cols() as int)) <= range.1.end_in(extent(self.n_cols() as int))
                <= self.n_cols(),
        ensures
            r.wf(),
            r.slice@ == self.0@,
            r.row.start == range.0.start_in(extent(self.n_rows() as int)),
            r.row.end == range.0.end_in(extent(self.n_rows() as int)),
            r.col.start == range.1.start_in(extent(self.n_cols() as int)),
            r.col.end == range.1.end_in(extent(self.n_cols() as int)),
    {
        self.as_slice2d().slice(range)
    }

    /// The entrywise (wrapping) sum with `rhs`, of the same shape.
    pub fn add<R: Shape>(&self, rhs: R) -> (r: Vec2d<i32>)
        requires
            self.well_formed(),
            rhs.well_formed(),
            rhs.n_rows() == self.n_rows(),
            rhs.n_cols() == self.n_cols(),
        ensures
            r.well_formed(),
            r.n_rows() == self.n_rows(),
            r.n_cols() == self.n_cols(),
            forall|i: int, j: int|
                0 <= i < self.n_rows() && 0 <= j < self.n_cols() ==> #[trigger] r.entry(i, j) == wrap(
                    self.entry(i, j) + rhs.entry(i, j),
                ),
    {
        self.as_slice2d().add(rhs)
    }

    /// The entrywise (wrapping) difference with `rhs`, of the same shape.
    pub fn sub<R: Shape>(&self, rhs: R) -> (r: Vec2d<i32>)
        requires
            self.well_formed(),
            rhs.well_formed(),
            rhs.n_rows() == self.n_rows(),
            rhs.n_cols() == self.n_cols(),
        ensures
            r.well_formed(),
            r.n_rows() == self.n_rows(),
            r.n_cols() == self.n_cols(),
            forall|i: int, j: int|
                0 <= i < self.n_rows() && 0 <= j < self.n_cols() ==> #[trigger] r.entry(i, j) == wrap(
                    self.entry(i, j) - rhs.entry(i, j),
                ),
    {
        self.as_slice2d().sub(rhs)
    }

    /// Adds `rhs`, of the same shape, into the matrix, entry by entry (wrapping).
    pub fn add_assign<R: Shape>(&mut self, rhs: R)
        requires
            old(self).well_formed(),
            rhs.well_formed(),
            rhs.n_rows() == old(self).n_rows(),
            rhs.n_cols() == old(self).n_cols(),
        ensures
            final(self).well_formed(),
            final(self).0@.len() == old(self).0@.len(),
            final(self).n_cols() == old(self).n_cols(),
            forall|i: int, j: int|
                0 <= i < old(self).n_rows() && 0 <= j < old(self).n_cols() ==> #[trigger] final(self).entry(i, j)
                    == wrap(old(self).entry(i, j) + rhs.entry(i, j)),
    {
        let mut v = self.as_slice2d_mut();
        v.add_assign(rhs);
        proof {
            assert forall|i: int, j: int|
                0 <= i < old(self).n_rows() && 0 <= j < old(self).n_cols() implies #[trigger] cell_at(
                v.slice@,
                i,
                j,
            ) == wrap(old(self).entry(i, j) + rhs.entry(i, j)) by {
                assert(v.at(i, j) == wrap(old(self).entry(i, j) + rhs.entry(i, j)));
            }
        }
        proof {
            assert forall|r: int| 0 <= r < self.0@.len() implies (#[trigger] self.0@[r])@.len()
                == old(self).n_cols() by {
                assert(self.0@[r].cells().len() == old(self).0@[r].cells().len());
            }
            if self.0@.len() > 0 {
                assert(self.0@[0].cells().len() == old(self).0@[0].cells().len());
            }
            assert forall|i: int, j: int|
                0 <= i < old(self).n_rows() && 0 <= j < old(self).n_cols() implies #[trigger] self.entry(i, j)
                == wrap(old(self).entry(i, j) + rhs.entry(i, j)) by {
                assert(cell_at(self.0@, i, j) == self.0@[i]@[j]);
            }
        }
    }

    /// Subtracts `rhs`, of the same shape, from the matrix, entry by entry (wrapping).
    pub fn sub_assign<R: Shape>(&mut self, rhs: R)
        requires
            old(self).well_formed(),
            rhs.well_formed(),
            rhs.n_rows() == old(self).n_rows(),
            rhs.n_cols() == old(self).n_cols(),
        ensures
            final(self).well_formed(),
            final(self).0@.len() == old(self).0@.len(),
            final(self).n_cols() == old(self).n_cols(),
            forall|i: int, j: int|
                0 <= i < old(self).n_rows() && 0 <= j < old(self).n_cols() ==> #[trigger] final(self).entry(i, j)
                    == wrap(old(self).entry(i, j) - rhs.entry(i, j)),
    {
        let mut v = self.as_slice2d_mut();
        v.sub_assign(rhs);
        proof {
            assert forall|i: int, j: int|
                0 <= i < old(self).n_rows() && 0 <= j < old(self).n_cols() implies #[trigger] cell_at(
                v.slice@,
                i,
                j,
            ) == wrap(old(self).entry(i, j) - rhs.entry(i, j)) by {
                assert(v.at(i, j) == wrap(old(self).entry(i, j) - rhs.entry(i, j)));
            }
        }
        proof {
            assert forall|r: int| 0 <= r < self.0@.len() implies (#[trigger] self.0@[r])@.len()
                == old(self).n_cols() by {
                assert(self.0@[r].cells().len() == old(self).0@[r].cells().len());
            }
            if self.0@.len() > 0 {
                assert(self.0@[0].cells().len() == old(self).0@[0].cells().len());
            }
            assert forall|i: int, j: int|
                0 <= i < old(self).n_rows() && 0 <= j < old(self).n_cols() implies #[trigger] self.entry(i, j)
                == wrap(old(self).entry(i, j) - rhs.entry(i, j)) by {
                assert(cell_at(self.0@, i, j) == self.0@[i]@[j]);
            }
        }
    }
}

impl Shape for Vec2d<i32> {
    open spec fn n_rows(&self) -> nat {
        self.0@.len()
    }

    open spec fn n_cols(&self) -> nat {
        if self.0@.len() == 0 {
            0
        } else {
            self.0@[0]@.len()
        }
    }

    open spec fn well_formed(&self) -> bool {
        forall|r: int| 0 <= r < self.0@.len() ==> (#[trigger] self.0@[r])@.len() == self.n_cols()
    }

    open spec fn entry(&self, i: int, j: int) -> i32 {
        self.0@[i]@[j]
    }

    fn shape(&self) -> (usize, usize) {
        let n = self.0.len();
        (n, if n == 0 { 0 } else { self.0[0].len() })
    }

    fn get(&self, i: usize, j: usize) -> i32 {
        self.0[i][j]
    }
}

impl<'a, R1: IntoRange, R2: IntoRange> Slice<'a, (R1, R2)> for Vec2d<i32> {
    type Output = Slice2d<'a, Vec<i32>>;

    open spec fn slice_ok(&self, range: (R1, R2)) -> bool {
        self.well_formed() && range.0.resolvable() && range.1.resolvable() && 0 <= range.0.start_in(
            extent(self.n_rows() as int),
        ) <= range.0.end_in(extent(self.n_rows() as int)) <= self.n_rows() && 0 <= range.1.start_in(
            extent(self.n_cols() as int),
        ) <= range.1.end_in(extent(self.n_cols() as int)) <= self.n_cols()
    }

    fn slice(&'a self, range: (R1, R2)) -> Slice2d<'a, Vec<i32>> {
        Vec2d::<i32>::slice(self, range)
    }
}

} // verus!
