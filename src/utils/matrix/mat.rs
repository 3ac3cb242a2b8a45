use vstd::prelude::*;
use crate::utils::algebra::{elem_add, elem_sub, wrap};
use crate::utils::matrix::{extent, Row, Shape, Slice2d, Slice2dMut, Vec2d};
use crate::utils::ops::{IntoRange, Slice};

verus! {

broadcast use vstd::array::group_array_axioms;

/// An `M` by `N` matrix whose shape is fixed by its type, held row by row.
#[derive(Debug, PartialEq, Clone)]
pub struct Mat<T, const M: usize, const N: usize>(pub [[T; N]; M]);

impl<const M: usize, const N: usize> Mat<i32, M, N> {
    /// The entry at row `i`, column `j`.
    pub open spec fn at(&self, i: int, j: int) -> i32 {
        self.0@[i]@[j]
    }

    /// The matrix as a function of row and column.
    pub open spec fn mat(&self) -> spec_fn(int, int) -> int {
        |i: int, j: int| self.at(i, j) as int
    }

    /// The entry at row `idx.0`, column `idx.1`, to be changed in place.
    pub fn index_mut(&mut self, idx: (usize, usize)) -> (r: &mut i32)
        requires
            idx.0 < M,
            idx.1 < N,
        ensures
            *r == old(self).at(idx.0 as int, idx.1 as int),
            forall|k: int| 0 <= k < M && k != idx.0 ==> #[trigger] final(self).0@[k] == old(self).0@[k],
            final(self).0@[idx.0 as int]@ == old(self).0@[idx.0 as int]@.update(idx.1 as int, *final(r)),
    {
        self.0[idx.0].cell_mut(idx.1)
    }

    /// A read-only window over the whole matrix.
    pub fn as_slice2d(&self) -> (r: Slice2d<'_, [i32; N]>)
        ensures
            r.wf(),
            r.slice@ == self.0@,
            r.row.start == 0,
            r.row.end == M,
            r.col.start == 0,
            r.col.end == (if M == 0 { 0 } else { N }),
    {
        Slice2d::new(self.0.as_slice())
    }

    /// A mutable window over the whole matrix.
    pub fn as_slice2d_mut(&mut self) -> (r: Slice2dMut<'_, [i32; N]>)
        ensures
            r.wf(),
            r.slice@ == old(self).0@,
            final(self).0@ == final(r.slice)@,
            r.row.start == 0,
            r.row.end == M,
            r.col.start == 0,
            r.col.end == (if M == 0 { 0 } else { N }),
    {
        Slice2dMut::new(&mut self.0)
    }

    /// The entries, copied into a matrix whose shape is known at run time.
    pub fn to_vec2d(&self) -> (r: Vec2d<i32>)
        ensures
            r.well_formed(),
            r.n_rows() == M,
            M > 0 ==> r.n_cols() == N,
            forall|i: int, j: int| 0 <= i < M && 0 <= j < N ==> #[trigger] r.entry(i, j) == self.at(i, j),
    {
        self.as_slice2d().to_vec2d()
    }

    /// A read-only window of rows `range.0` and columns `range.1`.
    pub fn slice<R1: IntoRange, R2: IntoRange>(&self, range: (R1, R2)) -> (r: Slice2d<'_, [i32; N]>)
        requires
            range.0.resolvable(),
            range.1.resolvable(),
            0 <= range.0.start_in(extent(M as int)) <= range.0.end_in(extent(M as int)) <= M,
            M > 0 ==> 0 <= range.1.start_in(extent(N as int)) <= range.1.end_in(extent(N as int)) <= N,
            M == 0 ==> range.1.start_in(extent(0)) == 0 && range.1.end_in(extent(0)) == 0,
        ensures
            r.wf(),
            r.slice@ == self.0@,
            r.row.start == range.0.start_in(extent(M as int)),
            r.row.end == range.0.end_in(extent(M as int)),
            M > 0 ==> r.col.start == range.1.start_in(extent(N as int)),
            M > 0 ==> r.col.end == range.1.end_in(extent(N as int)),
    {
        self.as_slice2d().slice(range)
    }

    fn combine(&self, rhs: &Mat<i32, M, N>, subtract: bool) -> (r: Mat<i32, M, N>)
        ensures
            forall|i: int, j: int| 0 <= i < M && 0 <= j < N ==> #[trigger] r.at(i, j) == (if subtract {
                wrap(self.at(i, j) - rhs.at(i, j))
            } else {
                wrap(self.at(i, j) + rhs.at(i, j))
            }),
    {
        let mut result = Mat([[0i32; N]; M]);
        for i in 0..M
            invariant
                forall|r: int, c: int| 0 <= r < i && 0 <= c < N ==> #[trigger] result.at(r, c) == (if subtract {
                    wrap(self.at(r, c) - rhs.at(r, c))
                } else {
                    wrap(self.at(r, c) + rhs.at(r, c))
                }),
        {
            let mut row = [0i32; N];
            for j in 0..N
                invariant
                    i < M,
                    forall|c: int| 0 <= c < j ==> #[trigger] row@[c] == (if subtract {
                        wrap(self.at(i as int, c) - rhs.at(i as int, c))
                    } else {
                        wrap(self.at(i as int, c) + rhs.at(i as int, c))
                    }),
            {
                let x = self.0[i][j];
                let y = rhs.0[i][j];
                row[j] = if subtract {
                    elem_sub(x, y)
                } else {
                    elem_add(x, y)
                };
            }
            let ghost prev = result;
            result.0[i] = row;
            proof {
                assert forall|r: int, c: int| 0 <= r < i + 1 && 0 <= c < N implies #[trigger] result.at(r, c)
                    == (if subtract {
                    wrap(self.at(r, c) - rhs.at(r, c))
                } else {
                    wrap(self.at(r, c) + rhs.at(r, c))
                }) by {
                    if r < i {
                        assert(result.0@[r] == prev.0@[r]);
                        assert(prev.at(r, c) == result.at(r, c));
                    } else {
                        assert(result.0@[r] == row);
                    }
                }
            }
        }
        result
    }

    /// The entrywise (wrapping) sum.
    pub fn add(&self, rhs: &Mat<i32, M, N>) -> (r: Mat<i32, M, N>)
        ensures
            forall|i: int, j: int| 0 <= i < M && 0 <= j < N ==> #[trigger] r.at(i, j) == wrap(
                self.at(i, j) + rhs.at(i, j),
            ),
    {
        self.combine(rhs, false)
    }

    /// The entrywise (wrapping) difference.
    pub fn sub(&self, rhs: &Mat<i32, M, N>) -> (r: Mat<i32, M, N>)
        ensures
            forall|i: int, j: int| 0 <= i < M && 0 <= j < N ==> #[trigger] r.at(i, j) == wrap(
                self.at(i, j) - rhs.at(i, j),
            ),
    {
        self.combine(rhs, true)
    }

    /// Adds `rhs` into the matrix, entry by entry (wrapping).
    pub fn add_assign(&mut self, rhs: &Mat<i32, M, N>)
        ensures
            forall|i: int, j: int| 0 <= i < M && 0 <= j < N ==> #[trigger] final(self).at(i, j) == wrap(
                old(self).at(i, j) + rhs.at(i, j),
            ),
    {
        *self = self.combine(rhs, false);
    }

    /// Subtracts `rhs` from the matrix, entry by entry (wrapping).
    pub fn sub_assign(&mut self, rhs: &Mat<i32, M, N>)
        ensures
            forall|i: int, j: int| 0 <= i < M && 0 <= j < N ==> #[trigger] final(self).at(i, j) == wrap(
                old(self).at(i, j) - rhs.at(i, j),
            ),
    {
        *self = self.combine(rhs, true);
    }
}

/// A window sliced from a matrix reads the matrix: entry `(i, j)` of the
/// window of rows `r` and columns `c` is entry `(r.start + i, c.start + j)` of
/// the matrix.
pub proof fn lemma_slice_reads_matrix<const M: usize, const N: usize>(
    m: Mat<i32, M, N>,
    r: std::ops::Range<usize>,
    c: std::ops::Range<usize>,
    v: Slice2d<[i32; N]>,
    i: int,
    j: int,
)
    requires
        r.start <= r.end <= M,
        c.start <= c.end <= N,
        v.slice@ == m.0@,
        v.row == r,
        v.col == c,
        0 <= i < r.end - r.start,
        0 <= j < c.end - c.start,
    ensures
        v.at(i, j) == m.at(r.start + i, c.start + j),
{
}

impl<const M: usize, const N: usize> Shape for Mat<i32, M, N> {
    open spec fn n_rows(&self) -> nat {
        M as nat
    }

    open spec fn n_cols(&self) -> nat {
        N as nat
    }

    open spec fn well_formed(&self) -> bool {
        true
    }

    open spec fn entry(&self, i: int, j: int) -> i32 {
        self.at(i, j)
    }

    fn shape(&self) -> (usize, usize) {
        (M, N)
    }

    fn get(&self, i: usize, j: usize) -> i32 {
        self.0[i][j]
    }
}

impl<'a, const M: usize, const N: usize, R1: IntoRange, R2: IntoRange> Slice<'a, (R1, R2)> for Mat<i32, M, N> {
    type Output = Slice2d<'a, [i32; N]>;

    open spec fn slice_ok(&self, range: (R1, R2)) -> bool {
        range.0.resolvable() && range.1.resolvable() && 0 <= range.0.start_in(extent(M as int))
            <= range.0.end_in(extent(M as int)) <= M && (M > 0 ==> 0 <= range.1.start_in(extent(N as int))
            <= range.1.end_in(extent(N as int)) <= N) && (M == 0 ==> range.1.start_in(extent(0)) == 0
            && range.1.end_in(extent(0)) == 0)
    }

    fn slice(&'a self, range: (R1, R2)) -> Slice2d<'a, [i32; N]> {
        Mat::<i32, M, N>::slice(self, range)
    }
}

} // verus!
