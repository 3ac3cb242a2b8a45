use vstd::prelude::*;
use crate::utils::algebra::{lemma_wrap_add, lemma_wrap_id, wrap};
use crate::utils::ops::Len;

pub mod mat;
pub mod slice2d;
pub mod slice2d_mut;
pub mod vec2d;

pub use mat::Mat;
pub use slice2d::Slice2d;
pub use slice2d_mut::Slice2dMut;
pub use vec2d::Vec2d;

verus! {

broadcast use vstd::array::group_array_axioms;

/// A rectangular grid of `i32` entries that can be read by row and column.
pub trait Shape {
    spec fn n_rows(&self) -> nat;

    spec fn n_cols(&self) -> nat;

    /// Whether the value is a proper rectangle that can be read.
    spec fn well_formed(&self) -> bool;

    /// The entry at row `i`, column `j`.
    spec fn entry(&self, i: int, j: int) -> i32;

    fn shape(&self) -> (r: (usize, usize))
        requires
            self.well_formed(),
        ensures
            r.0 as nat == self.n_rows(),
            r.1 as nat == self.n_cols(),
    ;

    fn get(&self, i: usize, j: usize) -> (r: i32)
        requires
            self.well_formed(),
            i < self.n_rows(),
            j < self.n_cols(),
        ensures
            r == self.entry(i as int, j as int),
    ;
}

impl<T: Shape> Shape for &T {
    open spec fn n_rows(&self) -> nat {
        (**self).n_rows()
    }

    open spec fn n_cols(&self) -> nat {
        (**self).n_cols()
    }

    open spec fn well_formed(&self) -> bool {
        (**self).well_formed()
    }

    open spec fn entry(&self, i: int, j: int) -> i32 {
        (**self).entry(i, j)
    }

    fn shape(&self) -> (usize, usize) {
        T::shape(*self)
    }

    fn get(&self, i: usize, j: usize) -> i32 {
        T::get(*self, i, j)
    }
}

/// A row of `i32` cells that backs a matrix.
pub trait Row: Len {
    spec fn cells(&self) -> Seq<i32>;

    proof fn lemma_cells_len(&self)
        ensures
            self.cells().len() == self.spec_len(),
    ;

    fn cell(&self, j: usize) -> (r: i32)
        requires
            j < self.cells().len(),
        ensures
            r == self.cells()[j as int],
    ;

    fn set_cell(&mut self, j: usize, v: i32)
        requires
            j < old(self).cells().len(),
        ensures
            final(self).cells() == old(self).cells().update(j as int, v),
    ;

    fn cell_mut(&mut self, j: usize) -> (r: &mut i32)
        requires
            j < old(self).cells().len(),
        ensures
            *r == old(self).cells()[j as int],
            final(self).cells() == old(self).cells().update(j as int, *final(r)),
    ;
}

impl<const N: usize> Row for [i32; N] {
    open spec fn cells(&self) -> Seq<i32> {
        self@
    }

    proof fn lemma_cells_len(&self) {
    }

    fn cell(&self, j: usize) -> i32 {
        self[j]
    }

    fn set_cell(&mut self, j: usize, v: i32) {
        self[j] = v;
    }

    fn cell_mut(&mut self, j: usize) -> &mut i32 {
        &mut self[j]
    }
}

impl Row for Vec<i32> {
    open spec fn cells(&self) -> Seq<i32> {
        self@
    }

    proof fn lemma_cells_len(&self) {
    }

    fn cell(&self, j: usize) -> i32 {
        self[j]
    }

    fn set_cell(&mut self, j: usize, v: i32) {
        self.set(j, v);
    }

    fn cell_mut(&mut self, j: usize) -> &mut i32 {
        &mut self[j]
    }
}

/// The cell at row `r`, column `c` of a sequence of rows.
pub open spec fn cell_at<T: Row>(rows: Seq<T>, r: int, c: int) -> i32 {
    rows[r].cells()[c]
}

/// Every row of `rows` has exactly `n` cells.
pub open spec fn all_rows_have<T: Row>(rows: Seq<T>, n: nat) -> bool {
    forall|r: int| 0 <= r < rows.len() ==> (#[trigger] rows[r].cells()).len() == n
}

/// The rows from `lo` up to `hi` all hold at least `n` cells.
pub open spec fn rows_reach<T: Row>(rows: Seq<T>, lo: int, hi: int, n: int) -> bool {
    forall|r: int| lo <= r < hi ==> n <= (#[trigger] rows[r].cells()).len()
}

/// `b` is `a` with only the cells inside rows `[r0, r1)` and columns `[c0, c1)`
/// possibly changed: same number of rows, same row lengths.
pub open spec fn same_outside<T: Row>(a: Seq<T>, b: Seq<T>, r0: int, r1: int, c0: int, c1: int) -> bool {
    &&& a.len() == b.len()
    &&& forall|r: int| 0 <= r < a.len() ==> (#[trigger] b[r].cells()).len() == a[r].cells().len()
    &&& forall|r: int, c: int|
        0 <= r < a.len() && 0 <= c < a[r].cells().len() && !(r0 <= r < r1 && c0 <= c < c1)
            ==> #[trigger] cell_at(b, r, c) == cell_at(a, r, c)
}

/// `x` and `y` have the same shape and the same entries.
pub open spec fn same_grid<X: Shape, Y: Shape>(x: &X, y: &Y) -> bool {
    &&& x.n_rows() == y.n_rows()
    &&& x.n_cols() == y.n_cols()
    &&& forall|i: int, j: int|
        0 <= i < x.n_rows() && 0 <= j < x.n_cols() ==> #[trigger] x.entry(i, j) == y.entry(i, j)
}

/// Adding `y` and then subtracting it gives back `x`: for any two matrix-like
/// values of the same shape, with `s` their entrywise (wrapping) sum and `d`
/// the entrywise difference of `s` and `y`, `d` equals `x`.
pub proof fn lemma_add_then_sub<X: Shape, Y: Shape, S: Shape, D: Shape>(x: &X, y: &Y, s: &S, d: &D)
    requires
        y.n_rows() == x.n_rows() && y.n_cols() == x.n_cols(),
        s.n_rows() == x.n_rows() && s.n_cols() == x.n_cols(),
        d.n_rows() == x.n_rows() && d.n_cols() == x.n_cols(),
        forall|i: int, j: int|
            0 <= i < x.n_rows() && 0 <= j < x.n_cols() ==> #[trigger] s.entry(i, j) == wrap(x.entry(i, j) + y.entry(i, j)),
        forall|i: int, j: int|
            0 <= i < x.n_rows() && 0 <= j < x.n_cols() ==> #[trigger] d.entry(i, j) == wrap(s.entry(i, j) - y.entry(i, j)),
    ensures
        same_grid(d, x),
{
    assert forall|i: int, j: int| 0 <= i < d.n_rows() && 0 <= j < d.n_cols() implies #[trigger] d.entry(i, j)
        == x.entry(i, j) by {
        let a = x.entry(i, j) as int;
        let b = y.entry(i, j) as int;
        assert(s.entry(i, j) == wrap(a + b));
        lemma_wrap_id(y.entry(i, j));
        lemma_wrap_id(x.entry(i, j));
        lemma_wrap_add(a + b, b);
        assert(a + b - b == a);
    }
}

/// The default range `[0, n)` that range expressions are resolved against.
pub open spec fn extent(n: int) -> std::ops::Range<usize> {
    std::ops::Range { start: 0usize, end: n as usize }
}

} // verus!
