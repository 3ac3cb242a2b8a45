use vstd::prelude::*;
use vstd::string::StringExecFns;
use crate::utils::algebra::{
    cong, dot, elem_add, elem_mul, lemma_cong_add, lemma_cong_refl, lemma_cong_trans, lemma_cong_wrap,
    lemma_dot_combination, lemma_dot_ext, lemma_dot_split, lemma_wrap_add, lemma_wrap_id, lemma_cong_implies_wrap_eq, wrap,
};
use crate::utils::is_power_of_two;
use crate::utils::is_pow2;
use crate::utils::matrix::{cell_at, rows_reach, same_outside, Mat, Row, Shape, Slice2d, Slice2dMut, Vec2d};

verus! {

/// Strassen's identities: when each of the seven products is congruent to
/// its combination of quadrant products, the four wrapped sums that make the
/// quadrants of the result are congruent to the quadrants of the product.
proof fn lemma_strassen_combination(
    p1: int,
    p2: int,
    p3: int,
    p4: int,
    p5: int,
    p6: int,
    p7: int,
    d00_00: int,
    d00_01: int,
    d00_11: int,
    d01_10: int,
    d01_11: int,
    d10_00: int,
    d10_01: int,
    d11_00: int,
    d11_10: int,
    d11_11: int,
)
    requires
        cong(p1, d00_01 - d00_11),
        cong(p2, d00_11 + d01_11),
        cong(p3, d10_00 + d11_00),
        cong(p4, d11_10 - d11_00),
        cong(p5, d00_00 + d00_11 + d11_00 + d11_11),
        cong(p6, d01_10 + d01_11 - d11_10 - d11_11),
        cong(p7, d00_00 + d00_01 - d10_00 - d10_01),
    ensures
        cong(wrap(wrap(wrap(p5 + p4) - p2) + p6) as int, d00_00 + d01_10),
        cong(wrap(p1 + p2) as int, d00_01 + d01_11),
        cong(wrap(p3 + p4) as int, d10_00 + d11_10),
        cong(wrap(wrap(wrap(p5 + p1) - p3) - p7) as int, d10_01 + d11_11),
{
    let q5 = d00_00 + d00_11 + d11_00 + d11_11;
    let q4 = d11_10 - d11_00;
    let q2 = d00_11 + d01_11;
    let q6 = d01_10 + d01_11 - d11_10 - d11_11;
    let q1 = d00_01 - d00_11;
    let q3 = d10_00 + d11_00;
    let q7 = d00_00 + d00_01 - d10_00 - d10_01;
    // upper left
    lemma_cong_add(p5, q5, p4, q4);
    lemma_cong_wrap(p5 + p4);
    lemma_cong_trans(wrap(p5 + p4) as int, p5 + p4, q5 + q4);
    lemma_cong_add(wrap(p5 + p4) as int, q5 + q4, p2, q2);
    lemma_cong_wrap(wrap(p5 + p4) - p2);
    lemma_cong_trans(wrap(wrap(p5 + p4) - p2) as int, wrap(p5 + p4) - p2, q5 + q4 - q2);
    lemma_cong_add(wrap(wrap(p5 + p4) - p2) as int, q5 + q4 - q2, p6, q6);
    lemma_cong_wrap(wrap(wrap(p5 + p4) - p2) + p6);
    lemma_cong_trans(
        wrap(wrap(wrap(p5 + p4) - p2) + p6) as int,
        wrap(wrap(p5 + p4) - p2) + p6,
        q5 + q4 - q2 + q6,
    );
    // upper right
    lemma_cong_add(p1, q1, p2, q2);
    lemma_cong_wrap(p1 + p2);
    lemma_cong_trans(wrap(p1 + p2) as int, p1 + p2, q1 + q2);
    // lower left
    lemma_cong_add(p3, q3, p4, q4);
    lemma_cong_wrap(p3 + p4);
    lemma_cong_trans(wrap(p3 + p4) as int, p3 + p4, q3 + q4);
    // lower right
    lemma_cong_add(p5, q5, p1, q1);
    lemma_cong_wrap(p5 + p1);
    lemma_cong_trans(wrap(p5 + p1) as int, p5 + p1, q5 + q1);
    lemma_cong_add(wrap(p5 + p1) as int, q5 + q1, p3, q3);
    lemma_cong_wrap(wrap(p5 + p1) - p3);
    lemma_cong_trans(wrap(wrap(p5 + p1) - p3) as int, wrap(p5 + p1) - p3, q5 + q1 - q3);
    lemma_cong_add(wrap(wrap(p5 + p1) - p3) as int, q5 + q1 - q3, p7, q7);
    lemma_cong_wrap(wrap(wrap(p5 + p1) - p3) - p7);
    lemma_cong_trans(
        wrap(wrap(wrap(p5 + p1) - p3) - p7) as int,
        wrap(wrap(p5 + p1) - p3) - p7,
        q5 + q1 - q3 - q7,
    );
}


/// The dot product of row `i` of `x` with column `j` of `y`, over `k` terms.
pub open spec fn view_dot<X: Row, Y: Row>(x: Slice2d<X>, y: Slice2d<Y>, i: int, j: int, k: nat) -> int {
    dot(x.mat(), y.mat(), i, j, k)
}

/// An entry computed as the wrapped dot product of two factors that are each
/// congruent, term by term, to a combination of two matrices.
proof fn lemma_product_entry(
    p: int,
    f: spec_fn(int, int) -> int,
    f1: spec_fn(int, int) -> int,
    f2: spec_fn(int, int) -> int,
    sf: int,
    g: spec_fn(int, int) -> int,
    g1: spec_fn(int, int) -> int,
    g2: spec_fn(int, int) -> int,
    sg: int,
    i: int,
    j: int,
    k: nat,
)
    requires
        p == wrap(dot(f, g, i, j, k)) as int,
        forall|t: int| 0 <= t < k ==> cong(#[trigger] f(i, t), f1(i, t) + sf * f2(i, t)),
        forall|t: int| 0 <= t < k ==> cong(#[trigger] g(t, j), g1(t, j) + sg * g2(t, j)),
    ensures
        cong(
            p,
            dot(f1, g1, i, j, k) + sg * dot(f1, g2, i, j, k) + sf * dot(f2, g1, i, j, k) + sf * sg * dot(
                f2,
                g2,
                i,
                j,
                k,
            ),
        ),
{
    lemma_dot_combination(f, f1, f2, sf, g, g1, g2, sg, i, j, k);
    lemma_cong_wrap(dot(f, g, i, j, k));
    lemma_cong_trans(
        p,
        dot(f, g, i, j, k),
        dot(f1, g1, i, j, k) + sg * dot(f1, g2, i, j, k) + sf * dot(f2, g1, i, j, k) + sf * sg * dot(
            f2,
            g2,
            i,
            j,
            k,
        ),
    );
}

/// The shape of a product buffer is kept by the recursion that fills it.
proof fn lemma_filled_shape(before: Vec2d<i32>, after: Vec2d<i32>, h: nat)
    requires
        h > 0,
        before.0@.len() == h,
        forall|r: int| 0 <= r < h ==> (#[trigger] before.0@[r])@.len() == h,
        same_outside(before.0@, after.0@, 0, h as int, 0, h as int),
    ensures
        after.well_formed(),
        after.n_rows() == h,
        after.n_cols() == h,
{
    assert forall|r: int| 0 <= r < after.0@.len() implies (#[trigger] after.0@[r])@.len() == h by {
        assert(after.0@[r].cells().len() == before.0@[r].cells().len());
    }
}

/// Entries that are the wrapped value of `g1 + s * g2` are congruent to it.
proof fn lemma_wrapped_combination(
    g: spec_fn(int, int) -> int,
    g1: spec_fn(int, int) -> int,
    g2: spec_fn(int, int) -> int,
    s: int,
    h: nat,
)
    requires
        forall|t: int, j: int| 0 <= t < h && 0 <= j < h ==> #[trigger] g(t, j) == wrap(g1(t, j) + s * g2(t, j)) as int,
    ensures
        forall|t: int, j: int| 0 <= t < h && 0 <= j < h ==> cong(#[trigger] g(t, j), g1(t, j) + s * g2(t, j)),
{
    assert forall|t: int, j: int| 0 <= t < h && 0 <= j < h implies cong(#[trigger] g(t, j), g1(t, j) + s * g2(t, j)) by {
        lemma_cong_wrap(g1(t, j) + s * g2(t, j));
    }
}

/// Every function is congruent to itself plus nothing.
proof fn lemma_plain_combination(g: spec_fn(int, int) -> int, h: nat)
    ensures
        forall|t: int, j: int| 0 <= t < h && 0 <= j < h ==> cong(#[trigger] g(t, j), g(t, j) + 0 * g(t, j)),
{
    assert forall|t: int, j: int| 0 <= t < h && 0 <= j < h implies cong(#[trigger] g(t, j), g(t, j) + 0 * g(t, j)) by {
        lemma_cong_refl(g(t, j));
    }
}

/// A half-size product, entry by entry, against the expanded combination of
/// the quadrant products that its two factors stand for.
proof fn lemma_product_all(
    p: Vec2d<i32>,
    f: spec_fn(int, int) -> int,
    f1: spec_fn(int, int) -> int,
    f2: spec_fn(int, int) -> int,
    sf: int,
    g: spec_fn(int, int) -> int,
    g1: spec_fn(int, int) -> int,
    g2: spec_fn(int, int) -> int,
    sg: int,
    h: nat,
)
    requires
        forall|i: int, j: int| 0 <= i < h && 0 <= j < h ==> #[trigger] p.entry(i, j) == wrap(dot(f, g, i, j, h)),
        forall|i: int, t: int| 0 <= i < h && 0 <= t < h ==> cong(#[trigger] f(i, t), f1(i, t) + sf * f2(i, t)),
        forall|t: int, j: int| 0 <= t < h && 0 <= j < h ==> cong(#[trigger] g(t, j), g1(t, j) + sg * g2(t, j)),
    ensures
        forall|i: int, j: int|
            0 <= i < h && 0 <= j < h ==> cong(
                #[trigger] p.entry(i, j) as int,
                dot(f1, g1, i, j, h) + sg * dot(f1, g2, i, j, h) + sf * dot(f2, g1, i, j, h) + sf * sg * dot(
                    f2,
                    g2,
                    i,
                    j,
                    h,
                ),
            ),
{
    assert forall|i: int, j: int| 0 <= i < h && 0 <= j < h implies cong(
        #[trigger] p.entry(i, j) as int,
        dot(f1, g1, i, j, h) + sg * dot(f1, g2, i, j, h) + sf * dot(f2, g1, i, j, h) + sf * sg * dot(
            f2,
            g2,
            i,
            j,
            h,
        ),
    ) by {
        assert forall|t: int| 0 <= t < h implies cong(#[trigger] f(i, t), f1(i, t) + sf * f2(i, t)) by {}
        assert forall|t: int| 0 <= t < h implies cong(#[trigger] g(t, j), g1(t, j) + sg * g2(t, j)) by {}
        lemma_product_entry(p.entry(i, j) as int, f, f1, f2, sf, g, g1, g2, sg, i, j, h);
    }
}

/// The four quadrants of the product of two `2h` by `2h` windows, each as
/// the sum of two half-size quadrant products.
proof fn lemma_quadrant_dots<A: Row, B: Row>(
    a: Slice2d<A>,
    b: Slice2d<B>,
    g00: Slice2d<A>,
    g01: Slice2d<A>,
    g10: Slice2d<A>,
    g11: Slice2d<A>,
    e00: Slice2d<B>,
    e01: Slice2d<B>,
    e10: Slice2d<B>,
    e11: Slice2d<B>,
    h: nat,
)
    requires
        g00.slice == a.slice && g00.row.start == a.row.start && g00.col.start == a.col.start,
        g01.slice == a.slice && g01.row.start == a.row.start && g01.col.start == a.col.start + h,
        g10.slice == a.slice && g10.row.start == a.row.start + h && g10.col.start == a.col.start,
        g11.slice == a.slice && g11.row.start == a.row.start + h && g11.col.start == a.col.start + h,
        e00.slice == b.slice && e00.row.start == b.row.start && e00.col.start == b.col.start,
        e01.slice == b.slice && e01.row.start == b.row.start && e01.col.start == b.col.start + h,
        e10.slice == b.slice && e10.row.start == b.row.start + h && e10.col.start == b.col.start,
        e11.slice == b.slice && e11.row.start == b.row.start + h && e11.col.start == b.col.start + h,
    ensures
        forall|i: int, j: int|
            0 <= i < h && 0 <= j < h ==> {
                &&& #[trigger] view_dot(a, b, i, j, 2 * h) == view_dot(g00, e00, i, j, h) + view_dot(g01, e10, i, j, h)
                &&& view_dot(a, b, i, j + h, 2 * h) == view_dot(g00, e01, i, j, h) + view_dot(g01, e11, i, j, h)
                &&& view_dot(a, b, i + h, j, 2 * h) == view_dot(g10, e00, i, j, h) + view_dot(g11, e10, i, j, h)
                &&& view_dot(a, b, i + h, j + h, 2 * h) == view_dot(g10, e01, i, j, h) + view_dot(g11, e11, i, j, h)
            },
{
    assert forall|i: int, j: int| 0 <= i < h && 0 <= j < h implies {
        &&& #[trigger] view_dot(a, b, i, j, 2 * h) == view_dot(g00, e00, i, j, h) + view_dot(g01, e10, i, j, h)
        &&& view_dot(a, b, i, j + h, 2 * h) == view_dot(g00, e01, i, j, h) + view_dot(g01, e11, i, j, h)
        &&& view_dot(a, b, i + h, j, 2 * h) == view_dot(g10, e00, i, j, h) + view_dot(g11, e10, i, j, h)
        &&& view_dot(a, b, i + h, j + h, 2 * h) == view_dot(g10, e01, i, j, h) + view_dot(g11, e11, i, j, h)
    } by {
        lemma_quadrant_dots_at(a, b, g00, g01, g10, g11, e00, e01, e10, e11, h, i, j);
    }
}

/// The four quadrant entries `(i, j)` of the product of two `2h` by `2h`
/// windows, each as the sum of two half-size quadrant products.
#[verifier::spinoff_prover]
proof fn lemma_quadrant_dots_at<A: Row, B: Row>(
    a: Slice2d<A>,
    b: Slice2d<B>,
    g00: Slice2d<A>,
    g01: Slice2d<A>,
    g10: Slice2d<A>,
    g11: Slice2d<A>,
    e00: Slice2d<B>,
    e01: Slice2d<B>,
    e10: Slice2d<B>,
    e11: Slice2d<B>,
    h: nat,
    i: int,
    j: int,
)
    requires
        g00.slice == a.slice && g00.row.start == a.row.start && g00.col.start == a.col.start,
        g01.slice == a.slice && g01.row.start == a.row.start && g01.col.start == a.col.start + h,
        g10.slice == a.slice && g10.row.start == a.row.start + h && g10.col.start == a.col.start,
        g11.slice == a.slice && g11.row.start == a.row.start + h && g11.col.start == a.col.start + h,
        e00.slice == b.slice && e00.row.start == b.row.start && e00.col.start == b.col.start,
        e01.slice == b.slice && e01.row.start == b.row.start && e01.col.start == b.col.start + h,
        e10.slice == b.slice && e10.row.start == b.row.start + h && e10.col.start == b.col.start,
        e11.slice == b.slice && e11.row.start == b.row.start + h && e11.col.start == b.col.start + h,
        0 <= i < h,
        0 <= j < h,
    ensures
        view_dot(a, b, i, j, 2 * h) == view_dot(g00, e00, i, j, h) + view_dot(g01, e10, i, j, h),
        view_dot(a, b, i, j + h, 2 * h) == view_dot(g00, e01, i, j, h) + view_dot(g01, e11, i, j, h),
        view_dot(a, b, i + h, j, 2 * h) == view_dot(g10, e00, i, j, h) + view_dot(g11, e10, i, j, h),
        view_dot(a, b, i + h, j + h, 2 * h) == view_dot(g10, e01, i, j, h) + view_dot(g11, e11, i, j, h),
{
    let fa = a.mat();
    let fb = b.mat();
    let sa = |r: int, c: int| fa(r, c + h);
    let sb = |r: int, c: int| fb(r + h, c);
    assert((h + h) as nat == 2 * h);
    lemma_dot_split(fa, fb, i, j, h, h);
    lemma_dot_split(fa, fb, i, j + h, h, h);
    lemma_dot_split(fa, fb, i + h, j, h, h);
    lemma_dot_split(fa, fb, i + h, j + h, h, h);
    lemma_dot_ext(fa, fb, i, j, g00.mat(), e00.mat(), i, j, h);
    lemma_dot_ext(sa, sb, i, j, g01.mat(), e10.mat(), i, j, h);
    lemma_dot_ext(fa, fb, i, j + h, g00.mat(), e01.mat(), i, j, h);
    lemma_dot_ext(sa, sb, i, j + h, g01.mat(), e11.mat(), i, j, h);
    lemma_dot_ext(fa, fb, i + h, j, g10.mat(), e00.mat(), i, j, h);
    lemma_dot_ext(sa, sb, i + h, j, g11.mat(), e10.mat(), i, j, h);
    lemma_dot_ext(fa, fb, i + h, j + h, g10.mat(), e01.mat(), i, j, h);
    lemma_dot_ext(sa, sb, i + h, j + h, g11.mat(), e11.mat(), i, j, h);
}

/// Four in-place additions, one into each quadrant of a `2h` by `2h` window,
/// add into the whole window whatever each addend is congruent to.
#[verifier::spinoff_prover]
proof fn lemma_strassen_assemble<C: Row>(
    c0: Seq<C>,
    c1: Seq<C>,
    c2: Seq<C>,
    c3: Seq<C>,
    c4: Seq<C>,
    r0: int,
    s0: int,
    h: int,
    x00: Vec2d<i32>,
    x01: Vec2d<i32>,
    x10: Vec2d<i32>,
    x11: Vec2d<i32>,
    tot: spec_fn(int, int) -> int,
)
    requires
        h > 0,
        0 <= r0,
        0 <= s0,
        r0 + 2 * h <= c0.len(),
        rows_reach(c0, r0, r0 + 2 * h, s0 + 2 * h),
        same_outside(c0, c1, r0, r0 + h, s0, s0 + h),
        same_outside(c1, c2, r0, r0 + h, s0 + h, s0 + 2 * h),
        same_outside(c2, c3, r0 + h, r0 + 2 * h, s0, s0 + h),
        same_outside(c3, c4, r0 + h, r0 + 2 * h, s0 + h, s0 + 2 * h),
        forall|i: int, j: int|
            0 <= i < h && 0 <= j < h ==> #[trigger] cell_at(c1, r0 + i, s0 + j) == wrap(
                cell_at(c0, r0 + i, s0 + j) + x00.entry(i, j),
            ),
        forall|i: int, j: int|
            0 <= i < h && 0 <= j < h ==> #[trigger] cell_at(c2, r0 + i, s0 + h + j) == wrap(
                cell_at(c1, r0 + i, s0 + h + j) + x01.entry(i, j),
            ),
        forall|i: int, j: int|
            0 <= i < h && 0 <= j < h ==> #[trigger] cell_at(c3, r0 + h + i, s0 + j) == wrap(
                cell_at(c2, r0 + h + i, s0 + j) + x10.entry(i, j),
            ),
        forall|i: int, j: int|
            0 <= i < h && 0 <= j < h ==> #[trigger] cell_at(c4, r0 + h + i, s0 + h + j) == wrap(
                cell_at(c3, r0 + h + i, s0 + h + j) + x11.entry(i, j),
            ),
        forall|i: int, j: int|
            0 <= i < h && 0 <= j < h ==> {
                &&& cong(#[trigger] x00.entry(i, j) as int, tot(i, j))
                &&& cong(x01.entry(i, j) as int, tot(i, j + h))
                &&& cong(x10.entry(i, j) as int, tot(i + h, j))
                &&& cong(x11.entry(i, j) as int, tot(i + h, j + h))
            },
    ensures
        same_outside(c0, c4, r0, r0 + 2 * h, s0, s0 + 2 * h),
        forall|i: int, j: int|
            0 <= i < 2 * h && 0 <= j < 2 * h ==> #[trigger] cell_at(c4, r0 + i, s0 + j) == wrap(
                cell_at(c0, r0 + i, s0 + j) + tot(i, j),
            ),
{
    assert forall|r: int| 0 <= r < c0.len() implies (#[trigger] c4[r].cells()).len() == c0[r].cells().len() by {
        assert(c1[r].cells().len() == c0[r].cells().len());
        assert(c2[r].cells().len() == c1[r].cells().len());
        assert(c3[r].cells().len() == c2[r].cells().len());
    }
    assert forall|r: int, c: int|
        0 <= r < c0.len() && 0 <= c < c0[r].cells().len() && !(r0 <= r < r0 + 2 * h && s0 <= c < s0 + 2 * h)
            implies #[trigger] cell_at(c4, r, c) == cell_at(c0, r, c) by {
        assert(c1[r].cells().len() == c0[r].cells().len());
        assert(c2[r].cells().len() == c1[r].cells().len());
        assert(c3[r].cells().len() == c2[r].cells().len());
        assert(cell_at(c1, r, c) == cell_at(c0, r, c));
        assert(cell_at(c2, r, c) == cell_at(c1, r, c));
        assert(cell_at(c3, r, c) == cell_at(c2, r, c));
    }
    assert forall|i: int, j: int| 0 <= i < 2 * h && 0 <= j < 2 * h implies #[trigger] cell_at(c4, r0 + i, s0 + j)
        == wrap(cell_at(c0, r0 + i, s0 + j) + tot(i, j)) by {
        let r = r0 + i;
        let c = s0 + j;
        assert(c0[r].cells().len() >= s0 + 2 * h);
        assert(c1[r].cells().len() == c0[r].cells().len());
        assert(c2[r].cells().len() == c1[r].cells().len());
        assert(c3[r].cells().len() == c2[r].cells().len());
        let x: int = if i < h && j < h {
            x00.entry(i, j) as int
        } else if i < h {
            x01.entry(i, j - h) as int
        } else if j < h {
            x10.entry(i - h, j) as int
        } else {
            x11.entry(i - h, j - h) as int
        };
        if i < h && j < h {
            assert(cell_at(c1, r0 + i, s0 + j) == wrap(cell_at(c0, r0 + i, s0 + j) + x00.entry(i, j)));
            assert(cell_at(c2, r, c) == cell_at(c1, r, c));
            assert(cell_at(c3, r, c) == cell_at(c2, r, c));
            assert(cell_at(c4, r, c) == cell_at(c3, r, c));
        } else if i < h {
            assert(cell_at(c1, r, c) == cell_at(c0, r, c));
            assert(cell_at(c2, r0 + i, s0 + h + (j - h)) == wrap(
                cell_at(c1, r0 + i, s0 + h + (j - h)) + x01.entry(i, j - h),
            ));
            assert(cell_at(c3, r, c) == cell_at(c2, r, c));
            assert(cell_at(c4, r, c) == cell_at(c3, r, c));
            assert(cong(x00.entry(i, j - h) as int, tot(i, j - h)));
            assert(cong(x01.entry(i, j - h) as int, tot(i, j - h + h)));
        } else if j < h {
            assert(cell_at(c1, r, c) == cell_at(c0, r, c));
            assert(cell_at(c2, r, c) == cell_at(c1, r, c));
            assert(cell_at(c3, r0 + h + (i - h), s0 + j) == wrap(
                cell_at(c2, r0 + h + (i - h), s0 + j) + x10.entry(i - h, j),
            ));
            assert(cell_at(c4, r, c) == cell_at(c3, r, c));
            assert(cong(x00.entry(i - h, j) as int, tot(i - h, j)));
            assert(cong(x10.entry(i - h, j) as int, tot(i - h + h, j)));
        } else {
            assert(cell_at(c1, r, c) == cell_at(c0, r, c));
            assert(cell_at(c2, r, c) == cell_at(c1, r, c));
            assert(cell_at(c3, r, c) == cell_at(c2, r, c));
            assert(cell_at(c4, r0 + h + (i - h), s0 + h + (j - h)) == wrap(
                cell_at(c3, r0 + h + (i - h), s0 + h + (j - h)) + x11.entry(i - h, j - h),
            ));
            assert(cong(x00.entry(i - h, j - h) as int, tot(i - h, j - h)));
            assert(cong(x11.entry(i - h, j - h) as int, tot(i - h + h, j - h + h)));
        }
        assert(cong(x, tot(i, j)));
        lemma_cong_refl(cell_at(c0, r, c) as int);
        lemma_cong_add(cell_at(c0, r, c) as int, cell_at(c0, r, c) as int, x, tot(i, j));
        lemma_cong_implies_wrap_eq(cell_at(c0, r, c) + x, cell_at(c0, r, c) + tot(i, j));
    }
}

/// Each of the seven half-size products, entry by entry, is congruent to the
/// combination of quadrant products that Strassen's identities give.
#[verifier::spinoff_prover]
proof fn lemma_strassen_products<A: Row, B: Row>(
    g00: Slice2d<A>,
    g01: Slice2d<A>,
    g10: Slice2d<A>,
    g11: Slice2d<A>,
    e00: Slice2d<B>,
    e01: Slice2d<B>,
    e10: Slice2d<B>,
    e11: Slice2d<B>,
    w1: Slice2d<Vec<i32>>,
    w2: Slice2d<Vec<i32>>,
    w3: Slice2d<Vec<i32>>,
    w4: Slice2d<Vec<i32>>,
    w5: Slice2d<Vec<i32>>,
    w6: Slice2d<Vec<i32>>,
    w7: Slice2d<Vec<i32>>,
    w8: Slice2d<Vec<i32>>,
    w9: Slice2d<Vec<i32>>,
    w10: Slice2d<Vec<i32>>,
    p1: Vec2d<i32>,
    p2: Vec2d<i32>,
    p3: Vec2d<i32>,
    p4: Vec2d<i32>,
    p5: Vec2d<i32>,
    p6: Vec2d<i32>,
    p7: Vec2d<i32>,
    h: nat,
)
    requires
        forall|t: int, j: int| 0 <= t < h && 0 <= j < h ==> #[trigger] w1.at(t, j) == wrap(e01.at(t, j) - e11.at(t, j)),
        forall|t: int, j: int| 0 <= t < h && 0 <= j < h ==> #[trigger] w2.at(t, j) == wrap(g00.at(t, j) + g01.at(t, j)),
        forall|t: int, j: int| 0 <= t < h && 0 <= j < h ==> #[trigger] w3.at(t, j) == wrap(g10.at(t, j) + g11.at(t, j)),
        forall|t: int, j: int| 0 <= t < h && 0 <= j < h ==> #[trigger] w4.at(t, j) == wrap(e10.at(t, j) - e00.at(t, j)),
        forall|t: int, j: int| 0 <= t < h && 0 <= j < h ==> #[trigger] w5.at(t, j) == wrap(g00.at(t, j) + g11.at(t, j)),
        forall|t: int, j: int| 0 <= t < h && 0 <= j < h ==> #[trigger] w6.at(t, j) == wrap(e00.at(t, j) + e11.at(t, j)),
        forall|t: int, j: int| 0 <= t < h && 0 <= j < h ==> #[trigger] w7.at(t, j) == wrap(g01.at(t, j) - g11.at(t, j)),
        forall|t: int, j: int| 0 <= t < h && 0 <= j < h ==> #[trigger] w8.at(t, j) == wrap(e10.at(t, j) + e11.at(t, j)),
        forall|t: int, j: int| 0 <= t < h && 0 <= j < h ==> #[trigger] w9.at(t, j) == wrap(g00.at(t, j) - g10.at(t, j)),
        forall|t: int, j: int| 0 <= t < h && 0 <= j < h ==> #[trigger] w10.at(t, j) == wrap(e00.at(t, j) + e01.at(t, j)),
        forall|i: int, j: int| 0 <= i < h && 0 <= j < h ==> #[trigger] p1.entry(i, j) == wrap(view_dot(g00, w1, i, j, h)),
        forall|i: int, j: int| 0 <= i < h && 0 <= j < h ==> #[trigger] p2.entry(i, j) == wrap(view_dot(w2, e11, i, j, h)),
        forall|i: int, j: int| 0 <= i < h && 0 <= j < h ==> #[trigger] p3.entry(i, j) == wrap(view_dot(w3, e00, i, j, h)),
        forall|i: int, j: int| 0 <= i < h && 0 <= j < h ==> #[trigger] p4.entry(i, j) == wrap(view_dot(g11, w4, i, j, h)),
        forall|i: int, j: int| 0 <= i < h && 0 <= j < h ==> #[trigger] p5.entry(i, j) == wrap(view_dot(w5, w6, i, j, h)),
        forall|i: int, j: int| 0 <= i < h && 0 <= j < h ==> #[trigger] p6.entry(i, j) == wrap(view_dot(w7, w8, i, j, h)),
        forall|i: int, j: int| 0 <= i < h && 0 <= j < h ==> #[trigger] p7.entry(i, j) == wrap(view_dot(w9, w10, i, j, h)),
    ensures
        forall|i: int, j: int| 0 <= i < h && 0 <= j < h ==> cong(#[trigger] p1.entry(i, j) as int, view_dot(g00, e01, i, j, h) - view_dot(g00, e11, i, j, h)),
        forall|i: int, j: int| 0 <= i < h && 0 <= j < h ==> cong(#[trigger] p2.entry(i, j) as int, view_dot(g00, e11, i, j, h) + view_dot(g01, e11, i, j, h)),
        forall|i: int, j: int| 0 <= i < h && 0 <= j < h ==> cong(#[trigger] p3.entry(i, j) as int, view_dot(g10, e00, i, j, h) + view_dot(g11, e00, i, j, h)),
        forall|i: int, j: int| 0 <= i < h && 0 <= j < h ==> cong(#[trigger] p4.entry(i, j) as int, view_dot(g11, e10, i, j, h) - view_dot(g11, e00, i, j, h)),
        forall|i: int, j: int| 0 <= i < h && 0 <= j < h ==> cong(#[trigger] p5.entry(i, j) as int, view_dot(g00, e00, i, j, h) + view_dot(g00, e11, i, j, h) + view_dot(g11, e00, i, j, h) + view_dot(g11, e11, i, j, h)),
        forall|i: int, j: int| 0 <= i < h && 0 <= j < h ==> cong(#[trigger] p6.entry(i, j) as int, view_dot(g01, e10, i, j, h) + view_dot(g01, e11, i, j, h) - view_dot(g11, e10, i, j, h) - view_dot(g11, e11, i, j, h)),
        forall|i: int, j: int| 0 <= i < h && 0 <= j < h ==> cong(#[trigger] p7.entry(i, j) as int, view_dot(g00, e00, i, j, h) + view_dot(g00, e01, i, j, h) - view_dot(g10, e00, i, j, h) - view_dot(g10, e01, i, j, h)),
{
    assert forall|t: int, j: int| 0 <= t < h && 0 <= j < h implies #[trigger] w1.mat()(t, j) == wrap(
        e01.mat()(t, j) + -1 * e11.mat()(t, j),
    ) as int by {
        assert(w1.at(t, j) == wrap(e01.at(t, j) - e11.at(t, j)));
    }
    lemma_wrapped_combination(w1.mat(), e01.mat(), e11.mat(), -1, h);
    assert forall|t: int, j: int| 0 <= t < h && 0 <= j < h implies #[trigger] w2.mat()(t, j) == wrap(
        g00.mat()(t, j) + 1 * g01.mat()(t, j),
    ) as int by {
        assert(w2.at(t, j) == wrap(g00.at(t, j) + g01.at(t, j)));
    }
    lemma_wrapped_combination(w2.mat(), g00.mat(), g01.mat(), 1, h);
    assert forall|t: int, j: int| 0 <= t < h && 0 <= j < h implies #[trigger] w3.mat()(t, j) == wrap(
        g10.mat()(t, j) + 1 * g11.mat()(t, j),
    ) as int by {
        assert(w3.at(t, j) == wrap(g10.at(t, j) + g11.at(t, j)));
    }
    lemma_wrapped_combination(w3.mat(), g10.mat(), g11.mat(), 1, h);
    assert forall|t: int, j: int| 0 <= t < h && 0 <= j < h implies #[trigger] w4.mat()(t, j) == wrap(
        e10.mat()(t, j) + -1 * e00.mat()(t, j),
    ) as int by {
        assert(w4.at(t, j) == wrap(e10.at(t, j) - e00.at(t, j)));
    }
    lemma_wrapped_combination(w4.mat(), e10.mat(), e00.mat(), -1, h);
    assert forall|t: int, j: int| 0 <= t < h && 0 <= j < h implies #[trigger] w5.mat()(t, j) == wrap(
        g00.mat()(t, j) + 1 * g11.mat()(t, j),
    ) as int by {
        assert(w5.at(t, j) == wrap(g00.at(t, j) + g11.at(t, j)));
    }
    lemma_wrapped_combination(w5.mat(), g00.mat(), g11.mat(), 1, h);
    assert forall|t: int, j: int| 0 <= t < h && 0 <= j < h implies #[trigger] w6.mat()(t, j) == wrap(
        e00.mat()(t, j) + 1 * e11.mat()(t, j),
    ) as int by {
        assert(w6.at(t, j) == wrap(e00.at(t, j) + e11.at(t, j)));
    }
    lemma_wrapped_combination(w6.mat(), e00.mat(), e11.mat(), 1, h);
    assert forall|t: int, j: int| 0 <= t < h && 0 <= j < h implies #[trigger] w7.mat()(t, j) == wrap(
        g01.mat()(t, j) + -1 * g11.mat()(t, j),
    ) as int by {
        assert(w7.at(t, j) == wrap(g01.at(t, j) - g11.at(t, j)));
    }
    lemma_wrapped_combination(w7.mat(), g01.mat(), g11.mat(), -1, h);
    assert forall|t: int, j: int| 0 <= t < h && 0 <= j < h implies #[trigger] w8.mat()(t, j) == wrap(
        e10.mat()(t, j) + 1 * e11.mat()(t, j),
    ) as int by {
        assert(w8.at(t, j) == wrap(e10.at(t, j) + e11.at(t, j)));
    }
    lemma_wrapped_combination(w8.mat(), e10.mat(), e11.mat(), 1, h);
    assert forall|t: int, j: int| 0 <= t < h && 0 <= j < h implies #[trigger] w9.mat()(t, j) == wrap(
        g00.mat()(t, j) + -1 * g10.mat()(t, j),
    ) as int by {
        assert(w9.at(t, j) == wrap(g00.at(t, j) - g10.at(t, j)));
    }
    lemma_wrapped_combination(w9.mat(), g00.mat(), g10.mat(), -1, h);
    assert forall|t: int, j: int| 0 <= t < h && 0 <= j < h implies #[trigger] w10.mat()(t, j) == wrap(
        e00.mat()(t, j) + 1 * e01.mat()(t, j),
    ) as int by {
        assert(w10.at(t, j) == wrap(e00.at(t, j) + e01.at(t, j)));
    }
    lemma_wrapped_combination(w10.mat(), e00.mat(), e01.mat(), 1, h);
    lemma_plain_combination(g00.mat(), h);
    lemma_plain_combination(g11.mat(), h);
    lemma_plain_combination(e00.mat(), h);
    lemma_plain_combination(e11.mat(), h);
    assert forall|i: int, j: int| 0 <= i < h && 0 <= j < h implies #[trigger] p1.entry(i, j) == wrap(
        dot(g00.mat(), w1.mat(), i, j, h),
    ) by {}
    lemma_product_all(p1, g00.mat(), g00.mat(), g00.mat(), 0, w1.mat(), e01.mat(), e11.mat(), -1, h);
    assert forall|i: int, j: int| 0 <= i < h && 0 <= j < h implies #[trigger] p2.entry(i, j) == wrap(
        dot(w2.mat(), e11.mat(), i, j, h),
    ) by {}
    lemma_product_all(p2, w2.mat(), g00.mat(), g01.mat(), 1, e11.mat(), e11.mat(), e11.mat(), 0, h);
    assert forall|i: int, j: int| 0 <= i < h && 0 <= j < h implies #[trigger] p3.entry(i, j) == wrap(
        dot(w3.mat(), e00.mat(), i, j, h),
    ) by {}
    lemma_product_all(p3, w3.mat(), g10.mat(), g11.mat(), 1, e00.mat(), e00.mat(), e00.mat(), 0, h);
    assert forall|i: int, j: int| 0 <= i < h && 0 <= j < h implies #[trigger] p4.entry(i, j) == wrap(
        dot(g11.mat(), w4.mat(), i, j, h),
    ) by {}
    lemma_product_all(p4, g11.mat(), g11.mat(), g11.mat(), 0, w4.mat(), e10.mat(), e00.mat(), -1, h);
    assert forall|i: int, j: int| 0 <= i < h && 0 <= j < h implies #[trigger] p5.entry(i, j) == wrap(
        dot(w5.mat(), w6.mat(), i, j, h),
    ) by {}
    lemma_product_all(p5, w5.mat(), g00.mat(), g11.mat(), 1, w6.mat(), e00.mat(), e11.mat(), 1, h);
    assert forall|i: int, j: int| 0 <= i < h && 0 <= j < h implies #[trigger] p6.entry(i, j) == wrap(
        dot(w7.mat(), w8.mat(), i, j, h),
    ) by {}
    lemma_product_all(p6, w7.mat(), g01.mat(), g11.mat(), -1, w8.mat(), e10.mat(), e11.mat(), 1, h);
    assert forall|i: int, j: int| 0 <= i < h && 0 <= j < h implies #[trigger] p7.entry(i, j) == wrap(
        dot(w9.mat(), w10.mat(), i, j, h),
    ) by {}
    lemma_product_all(p7, w9.mat(), g00.mat(), g10.mat(), -1, w10.mat(), e00.mat(), e01.mat(), 1, h);
}

/// The four sums that go into the quadrants of the result are, entry by
/// entry, congruent to the quadrants of the full product.
#[verifier::spinoff_prover]
proof fn lemma_strassen_sums<A: Row, B: Row>(
    a: Slice2d<A>,
    b: Slice2d<B>,
    g00: Slice2d<A>,
    g01: Slice2d<A>,
    g10: Slice2d<A>,
    g11: Slice2d<A>,
    e00: Slice2d<B>,
    e01: Slice2d<B>,
    e10: Slice2d<B>,
    e11: Slice2d<B>,
    p1: Vec2d<i32>,
    p2: Vec2d<i32>,
    p3: Vec2d<i32>,
    p4: Vec2d<i32>,
    p5: Vec2d<i32>,
    p6: Vec2d<i32>,
    p7: Vec2d<i32>,
    x00: Vec2d<i32>,
    x01: Vec2d<i32>,
    x10: Vec2d<i32>,
    x11: Vec2d<i32>,
    h: nat,
)
    requires
        g00.slice == a.slice && g00.row.start == a.row.start && g00.col.start == a.col.start,
        g01.slice == a.slice && g01.row.start == a.row.start && g01.col.start == a.col.start + h,
        g10.slice == a.slice && g10.row.start == a.row.start + h && g10.col.start == a.col.start,
        g11.slice == a.slice && g11.row.start == a.row.start + h && g11.col.start == a.col.start + h,
        e00.slice == b.slice && e00.row.start == b.row.start && e00.col.start == b.col.start,
        e01.slice == b.slice && e01.row.start == b.row.start && e01.col.start == b.col.start + h,
        e10.slice == b.slice && e10.row.start == b.row.start + h && e10.col.start == b.col.start,
        e11.slice == b.slice && e11.row.start == b.row.start + h && e11.col.start == b.col.start + h,
        forall|i: int, j: int| 0 <= i < h && 0 <= j < h ==> cong(#[trigger] p1.entry(i, j) as int, view_dot(g00, e01, i, j, h) - view_dot(g00, e11, i, j, h)),
        forall|i: int, j: int| 0 <= i < h && 0 <= j < h ==> cong(#[trigger] p2.entry(i, j) as int, view_dot(g00, e11, i, j, h) + view_dot(g01, e11, i, j, h)),
        forall|i: int, j: int| 0 <= i < h && 0 <= j < h ==> cong(#[trigger] p3.entry(i, j) as int, view_dot(g10, e00, i, j, h) + view_dot(g11, e00, i, j, h)),
        forall|i: int, j: int| 0 <= i < h && 0 <= j < h ==> cong(#[trigger] p4.entry(i, j) as int, view_dot(g11, e10, i, j, h) - view_dot(g11, e00, i, j, h)),
        forall|i: int, j: int| 0 <= i < h && 0 <= j < h ==> cong(#[trigger] p5.entry(i, j) as int, view_dot(g00, e00, i, j, h) + view_dot(g00, e11, i, j, h) + view_dot(g11, e00, i, j, h) + view_dot(g11, e11, i, j, h)),
        forall|i: int, j: int| 0 <= i < h && 0 <= j < h ==> cong(#[trigger] p6.entry(i, j) as int, view_dot(g01, e10, i, j, h) + view_dot(g01, e11, i, j, h) - view_dot(g11, e10, i, j, h) - view_dot(g11, e11, i, j, h)),
        forall|i: int, j: int| 0 <= i < h && 0 <= j < h ==> cong(#[trigger] p7.entry(i, j) as int, view_dot(g00, e00, i, j, h) + view_dot(g00, e01, i, j, h) - view_dot(g10, e00, i, j, h) - view_dot(g10, e01, i, j, h)),
        forall|i: int, j: int| 0 <= i < h && 0 <= j < h ==> #[trigger] x00.entry(i, j) == wrap(
            wrap(wrap(p5.entry(i, j) + p4.entry(i, j)) - p2.entry(i, j)) + p6.entry(i, j),
        ),
        forall|i: int, j: int| 0 <= i < h && 0 <= j < h ==> #[trigger] x01.entry(i, j) == wrap(p1.entry(i, j) + p2.entry(i, j)),
        forall|i: int, j: int| 0 <= i < h && 0 <= j < h ==> #[trigger] x10.entry(i, j) == wrap(p3.entry(i, j) + p4.entry(i, j)),
        forall|i: int, j: int| 0 <= i < h && 0 <= j < h ==> #[trigger] x11.entry(i, j) == wrap(
            wrap(wrap(p5.entry(i, j) + p1.entry(i, j)) - p3.entry(i, j)) - p7.entry(i, j),
        ),
    ensures
        forall|i: int, j: int|
            0 <= i < h && 0 <= j < h ==> {
                &&& cong(#[trigger] x00.entry(i, j) as int, view_dot(a, b, i, j, 2 * h))
                &&& cong(x01.entry(i, j) as int, view_dot(a, b, i, j + h, 2 * h))
                &&& cong(x10.entry(i, j) as int, view_dot(a, b, i + h, j, 2 * h))
                &&& cong(x11.entry(i, j) as int, view_dot(a, b, i + h, j + h, 2 * h))
            },
{
    lemma_quadrant_dots(a, b, g00, g01, g10, g11, e00, e01, e10, e11, h);
    assert forall|i: int, j: int| 0 <= i < h && 0 <= j < h implies {
        &&& cong(#[trigger] x00.entry(i, j) as int, view_dot(a, b, i, j, 2 * h))
        &&& cong(x01.entry(i, j) as int, view_dot(a, b, i, j + h, 2 * h))
        &&& cong(x10.entry(i, j) as int, view_dot(a, b, i + h, j, 2 * h))
        &&& cong(x11.entry(i, j) as int, view_dot(a, b, i + h, j + h, 2 * h))
    } by {
        assert(cong(p1.entry(i, j) as int, view_dot(g00, e01, i, j, h) - view_dot(g00, e11, i, j, h)));
        assert(cong(p2.entry(i, j) as int, view_dot(g00, e11, i, j, h) + view_dot(g01, e11, i, j, h)));
        assert(cong(p3.entry(i, j) as int, view_dot(g10, e00, i, j, h) + view_dot(g11, e00, i, j, h)));
        assert(cong(p4.entry(i, j) as int, view_dot(g11, e10, i, j, h) - view_dot(g11, e00, i, j, h)));
        assert(cong(p5.entry(i, j) as int, view_dot(g00, e00, i, j, h) + view_dot(g00, e11, i, j, h) + view_dot(g11, e00, i, j, h) + view_dot(g11, e11, i, j, h)));
        assert(cong(p6.entry(i, j) as int, view_dot(g01, e10, i, j, h) + view_dot(g01, e11, i, j, h) - view_dot(g11, e10, i, j, h) - view_dot(g11, e11, i, j, h)));
        assert(cong(p7.entry(i, j) as int, view_dot(g00, e00, i, j, h) + view_dot(g00, e01, i, j, h) - view_dot(g10, e00, i, j, h) - view_dot(g10, e01, i, j, h)));
        lemma_strassen_combination(
            p1.entry(i, j) as int,
            p2.entry(i, j) as int,
            p3.entry(i, j) as int,
            p4.entry(i, j) as int,
            p5.entry(i, j) as int,
            p6.entry(i, j) as int,
            p7.entry(i, j) as int,
            view_dot(g00, e00, i, j, h),
            view_dot(g00, e01, i, j, h),
            view_dot(g00, e11, i, j, h),
            view_dot(g01, e10, i, j, h),
            view_dot(g01, e11, i, j, h),
            view_dot(g10, e00, i, j, h),
            view_dot(g10, e01, i, j, h),
            view_dot(g11, e00, i, j, h),
            view_dot(g11, e10, i, j, h),
            view_dot(g11, e11, i, j, h),
        );
        assert(x00.entry(i, j) == wrap(wrap(wrap(p5.entry(i, j) + p4.entry(i, j)) - p2.entry(i, j)) + p6.entry(i, j)));
        assert(x01.entry(i, j) == wrap(p1.entry(i, j) + p2.entry(i, j)));
        assert(x10.entry(i, j) == wrap(p3.entry(i, j) + p4.entry(i, j)));
        assert(x11.entry(i, j) == wrap(wrap(wrap(p5.entry(i, j) + p1.entry(i, j)) - p3.entry(i, j)) - p7.entry(i, j)));
    }
}

/// Adds the product of the `n` by `n` windows `a` and `b` into the `n` by `n`
/// window `c`, by Strassen's seven half-size products; `n` is a power of two.
#[verifier::rlimit(60)]
#[verifier::spinoff_prover]
fn matrix_multiply_strassen_aux<A: Row, B: Row, C: Row>(
    a: Slice2d<'_, A>,
    b: Slice2d<'_, B>,
    mut c: Slice2dMut<'_, C>,
    n: usize,
)
    requires
        a.wf(),
        b.wf(),
        c.wf(),
        a.rows() == n,
        a.cols() == n,
        b.rows() == n,
        b.cols() == n,
        c.rows() == n,
        c.cols() == n,
        is_pow2(n as nat),
    ensures
        same_outside(
            c.backing(),
            final(c.slice)@,
            c.row.start as int,
            c.row.end as int,
            c.col.start as int,
            c.col.end as int,
        ),
        forall|i: int, j: int|
            0 <= i < n && 0 <= j < n ==> #[trigger] cell_at(final(c.slice)@, c.row.start + i, c.col.start + j)
                == wrap(c.at(i, j) + view_dot(a, b, i, j, n as nat)),
    decreases n,
{
    let ghost c_in = c;
    if n == 1 {
        let x = elem_mul(a.get(0, 0), b.get(0, 0));
        let cur = c.get(0, 0);
        let e = c.index_mut((0, 0));
        *e = elem_add(cur, x);
        proof {
            lemma_wrap_id(cur);
            lemma_wrap_add(cur as int, a.at(0, 0) * b.at(0, 0));
            assert(dot(a.mat(), b.mat(), 0, 0, 0) == 0);
            assert(view_dot(a, b, 0, 0, 1) == a.at(0, 0) * b.at(0, 0));
        }
        return;
    }
    let h = n / 2;
    let a00 = a.slice((0..h, 0..h));
    let a01 = a.slice((0..h, h..n));
    let a10 = a.slice((h..n, 0..h));
    let a11 = a.slice((h..n, h..n));

    let b00 = b.slice((0..h, 0..h));
    let b01 = b.slice((0..h, h..n));
    let b10 = b.slice((h..n, 0..h));
    let b11 = b.slice((h..n, h..n));

    let s1 = b01.sub(&b11);
    let s2 = a00.add(&a01);
    let s3 = a10.add(&a11);
    let s4 = b10.sub(&b00);
    let s5 = a00.add(&a11);
    let s6 = b00.add(&b11);
    let s7 = a01.sub(&a11);
    let s8 = b10.add(&b11);
    let s9 = a00.sub(&a10);
    let s10 = b00.add(&b01);

    let mut p1 = Vec2d::defaults((h, h));
    let mut p2 = Vec2d::defaults((h, h));
    let mut p3 = Vec2d::defaults((h, h));
    let mut p4 = Vec2d::defaults((h, h));
    let mut p5 = Vec2d::defaults((h, h));
    let mut p6 = Vec2d::defaults((h, h));
    let mut p7 = Vec2d::defaults((h, h));
    let ghost (q1, q2, q3, q4, q5, q6, q7) = (p1, p2, p3, p4, p5, p6, p7);

    let v1 = s1.as_slice2d();
    let v2 = s2.as_slice2d();
    let v3 = s3.as_slice2d();
    let v4 = s4.as_slice2d();
    let v5 = s5.as_slice2d();
    let v6 = s6.as_slice2d();
    let v7 = s7.as_slice2d();
    let v8 = s8.as_slice2d();
    let v9 = s9.as_slice2d();
    let v10 = s10.as_slice2d();
    let ghost (g00, g01, g10, g11) = (a00, a01, a10, a11);
    let ghost (e00, e01, e10, e11) = (b00, b01, b10, b11);
    let ghost (w1, w2, w3, w4, w5, w6, w7, w8, w9, w10) = (v1, v2, v3, v4, v5, v6, v7, v8, v9, v10);

    let m1 = p1.as_slice2d_mut();
    let ghost n1 = m1;
    matrix_multiply_strassen_aux(a00, v1, m1, h);
    let m2 = p2.as_slice2d_mut();
    let ghost n2 = m2;
    matrix_multiply_strassen_aux(v2, b11, m2, h);
    let m3 = p3.as_slice2d_mut();
    let ghost n3 = m3;
    matrix_multiply_strassen_aux(v3, b00, m3, h);
    let m4 = p4.as_slice2d_mut();
    let ghost n4 = m4;
    matrix_multiply_strassen_aux(a11, v4, m4, h);
    let m5 = p5.as_slice2d_mut();
    let ghost n5 = m5;
    matrix_multiply_strassen_aux(v5, v6, m5, h);
    let m6 = p6.as_slice2d_mut();
    let ghost n6 = m6;
    matrix_multiply_strassen_aux(v7, v8, m6, h);
    let m7 = p7.as_slice2d_mut();
    let ghost n7 = m7;
    matrix_multiply_strassen_aux(v9, v10, m7, h);
    proof {
        lemma_filled_shape(q1, p1, h as nat);
        lemma_filled_shape(q2, p2, h as nat);
        lemma_filled_shape(q3, p3, h as nat);
        lemma_filled_shape(q4, p4, h as nat);
        lemma_filled_shape(q5, p5, h as nat);
        lemma_filled_shape(q6, p6, h as nat);
        lemma_filled_shape(q7, p7, h as nat);
        assert forall|i: int, j: int| 0 <= i < h && 0 <= j < h implies #[trigger] p1.entry(i, j) == wrap(
            view_dot(g00, w1, i, j, h as nat),
        ) by {
            assert(cell_at(final(n1.slice)@, n1.row.start + i, n1.col.start + j) == wrap(
                n1.at(i, j) + view_dot(g00, w1, i, j, h as nat),
            ));
            assert(n1.at(i, j) == q1.entry(i, j));
        }
        assert forall|i: int, j: int| 0 <= i < h && 0 <= j < h implies #[trigger] p2.entry(i, j) == wrap(
            view_dot(w2, e11, i, j, h as nat),
        ) by {
            assert(cell_at(final(n2.slice)@, n2.row.start + i, n2.col.start + j) == wrap(
                n2.at(i, j) + view_dot(w2, e11, i, j, h as nat),
            ));
            assert(n2.at(i, j) == q2.entry(i, j));
        }
        assert forall|i: int, j: int| 0 <= i < h && 0 <= j < h implies #[trigger] p3.entry(i, j) == wrap(
            view_dot(w3, e00, i, j, h as nat),
        ) by {
            assert(cell_at(final(n3.slice)@, n3.row.start + i, n3.col.start + j) == wrap(
                n3.at(i, j) + view_dot(w3, e00, i, j, h as nat),
            ));
            assert(n3.at(i, j) == q3.entry(i, j));
        }
        assert forall|i: int, j: int| 0 <= i < h && 0 <= j < h implies #[trigger] p4.entry(i, j) == wrap(
            view_dot(g11, w4, i, j, h as nat),
        ) by {
            assert(cell_at(final(n4.slice)@, n4.row.start + i, n4.col.start + j) == wrap(
                n4.at(i, j) + view_dot(g11, w4, i, j, h as nat),
            ));
            assert(n4.at(i, j) == q4.entry(i, j));
        }
        assert forall|i: int, j: int| 0 <= i < h && 0 <= j < h implies #[trigger] p5.entry(i, j) == wrap(
            view_dot(w5, w6, i, j, h as nat),
        ) by {
            assert(cell_at(final(n5.slice)@, n5.row.start + i, n5.col.start + j) == wrap(
                n5.at(i, j) + view_dot(w5, w6, i, j, h as nat),
            ));
            assert(n5.at(i, j) == q5.entry(i, j));
        }
        assert forall|i: int, j: int| 0 <= i < h && 0 <= j < h implies #[trigger] p6.entry(i, j) == wrap(
            view_dot(w7, w8, i, j, h as nat),
        ) by {
            assert(cell_at(final(n6.slice)@, n6.row.start + i, n6.col.start + j) == wrap(
                n6.at(i, j) + view_dot(w7, w8, i, j, h as nat),
            ));
            assert(n6.at(i, j) == q6.entry(i, j));
        }
        assert forall|i: int, j: int| 0 <= i < h && 0 <= j < h implies #[trigger] p7.entry(i, j) == wrap(
            view_dot(w9, w10, i, j, h as nat),
        ) by {
            assert(cell_at(final(n7.slice)@, n7.row.start + i, n7.col.start + j) == wrap(
                n7.at(i, j) + view_dot(w9, w10, i, j, h as nat),
            ));
            assert(n7.at(i, j) == q7.entry(i, j));
        }
        assert forall|t: int, j: int| 0 <= t < h && 0 <= j < h implies #[trigger] w1.at(t, j) == wrap(
            e01.at(t, j) - e11.at(t, j),
        ) by {
            assert(w1.at(t, j) == s1.entry(t, j));
        }
        assert forall|t: int, j: int| 0 <= t < h && 0 <= j < h implies #[trigger] w2.at(t, j) == wrap(
            g00.at(t, j) + g01.at(t, j),
        ) by {
            assert(w2.at(t, j) == s2.entry(t, j));
        }
        assert forall|t: int, j: int| 0 <= t < h && 0 <= j < h implies #[trigger] w3.at(t, j) == wrap(
            g10.at(t, j) + g11.at(t, j),
        ) by {
            assert(w3.at(t, j) == s3.entry(t, j));
        }
        assert forall|t: int, j: int| 0 <= t < h && 0 <= j < h implies #[trigger] w4.at(t, j) == wrap(
            e10.at(t, j) - e00.at(t, j),
        ) by {
            assert(w4.at(t, j) == s4.entry(t, j));
        }
        assert forall|t: int, j: int| 0 <= t < h && 0 <= j < h implies #[trigger] w5.at(t, j) == wrap(
            g00.at(t, j) + g11.at(t, j),
        ) by {
            assert(w5.at(t, j) == s5.entry(t, j));
        }
        assert forall|t: int, j: int| 0 <= t < h && 0 <= j < h implies #[trigger] w6.at(t, j) == wrap(
            e00.at(t, j) + e11.at(t, j),
        ) by {
            assert(w6.at(t, j) == s6.entry(t, j));
        }
        assert forall|t: int, j: int| 0 <= t < h && 0 <= j < h implies #[trigger] w7.at(t, j) == wrap(
            g01.at(t, j) - g11.at(t, j),
        ) by {
            assert(w7.at(t, j) == s7.entry(t, j));
        }
        assert forall|t: int, j: int| 0 <= t < h && 0 <= j < h implies #[trigger] w8.at(t, j) == wrap(
            e10.at(t, j) + e11.at(t, j),
        ) by {
            assert(w8.at(t, j) == s8.entry(t, j));
        }
        assert forall|t: int, j: int| 0 <= t < h && 0 <= j < h implies #[trigger] w9.at(t, j) == wrap(
            g00.at(t, j) - g10.at(t, j),
        ) by {
            assert(w9.at(t, j) == s9.entry(t, j));
        }
        assert forall|t: int, j: int| 0 <= t < h && 0 <= j < h implies #[trigger] w10.at(t, j) == wrap(
            e00.at(t, j) + e01.at(t, j),
        ) by {
            assert(w10.at(t, j) == s10.entry(t, j));
        }
        lemma_strassen_products(
            g00, g01, g10, g11, e00, e01, e10, e11,
            w1, w2, w3, w4, w5, w6, w7, w8, w9, w10,
            p1, p2, p3, p4, p5, p6, p7,
            h as nat,
        );
    }

    let x00 = p5.add(&p4).sub(&p2).add(&p6);
    let x01 = p1.add(&p2);
    let x10 = p3.add(&p4);
    let x11 = p5.add(&p1).sub(&p3).sub(&p7);
    proof {
        assert forall|i: int, j: int| 0 <= i < h && 0 <= j < h implies #[trigger] x00.entry(i, j) == wrap(
            wrap(wrap(p5.entry(i, j) + p4.entry(i, j)) - p2.entry(i, j)) + p6.entry(i, j),
        ) by {}
        assert forall|i: int, j: int| 0 <= i < h && 0 <= j < h implies #[trigger] x11.entry(i, j) == wrap(
            wrap(wrap(p5.entry(i, j) + p1.entry(i, j)) - p3.entry(i, j)) - p7.entry(i, j),
        ) by {}
        lemma_strassen_sums(
            a, b, g00, g01, g10, g11, e00, e01, e10, e11,
            p1, p2, p3, p4, p5, p6, p7,
            x00, x01, x10, x11,
            h as nat,
        );
    }
    let ghost (y00, y01, y10, y11) = (x00, x01, x10, x11);
    let ghost r0 = c.row.start as int;
    let ghost s0 = c.col.start as int;

    let ghost c0 = c.backing();
    let mut c00 = c.slice_mut((0..h, 0..h));
    c00.add_assign(x00);
    let ghost k1 = c00.backing();
    proof {
        assert forall|i: int, j: int| 0 <= i < h && 0 <= j < h implies #[trigger] cell_at(k1, r0 + i, s0 + j)
            == wrap(cell_at(c0, r0 + i, s0 + j) + y00.entry(i, j)) by {
            assert(c00.at(i, j) == cell_at(k1, r0 + i, s0 + j));
        }
    }
    let ghost c1 = c.backing();
    let mut c01 = c.slice_mut((0..h, h..n));
    c01.add_assign(x01);
    let ghost k2 = c01.backing();
    proof {
        assert forall|i: int, j: int| 0 <= i < h && 0 <= j < h implies #[trigger] cell_at(k2, r0 + i, s0 + h + j)
            == wrap(cell_at(c1, r0 + i, s0 + h + j) + y01.entry(i, j)) by {
            assert(c01.at(i, j) == cell_at(k2, r0 + i, s0 + h + j));
        }
    }
    let ghost c2 = c.backing();
    let mut c10 = c.slice_mut((h..n, 0..h));
    c10.add_assign(x10);
    let ghost k3 = c10.backing();
    proof {
        assert forall|i: int, j: int| 0 <= i < h && 0 <= j < h implies #[trigger] cell_at(k3, r0 + h + i, s0 + j)
            == wrap(cell_at(c2, r0 + h + i, s0 + j) + y10.entry(i, j)) by {
            assert(c10.at(i, j) == cell_at(k3, r0 + h + i, s0 + j));
        }
    }
    let ghost c3 = c.backing();
    let mut c11 = c.slice_mut((h..n, h..n));
    c11.add_assign(x11);
    let ghost k4 = c11.backing();
    proof {
        assert forall|i: int, j: int| 0 <= i < h && 0 <= j < h implies #[trigger] cell_at(k4, r0 + h + i, s0 + h + j)
            == wrap(cell_at(c3, r0 + h + i, s0 + h + j) + y11.entry(i, j)) by {
            assert(c11.at(i, j) == cell_at(k4, r0 + h + i, s0 + h + j));
        }
    }
    let ghost c4 = c.backing();
    proof {
        assert(c1 == k1);
        assert(c2 == k2);
        assert(c3 == k3);
        assert(c4 == k4);
        let tot = |i: int, j: int| view_dot(a, b, i, j, n as nat);
        assert forall|i: int, j: int| 0 <= i < h && 0 <= j < h implies {
            &&& cong(#[trigger] y00.entry(i, j) as int, tot(i, j))
            &&& cong(y01.entry(i, j) as int, tot(i, j + h))
            &&& cong(y10.entry(i, j) as int, tot(i + h, j))
            &&& cong(y11.entry(i, j) as int, tot(i + h, j + h))
        } by {
            assert(cong(x00.entry(i, j) as int, view_dot(a, b, i, j, 2 * (h as nat))));
        }
        lemma_strassen_assemble(c0, c1, c2, c3, c4, r0, s0, h as int, y00, y01, y10, y11, tot);
    }
}

/// The error for a square matrix whose dimension is not a power of two.
#[derive(Debug, Clone, Copy, PartialEq, Eq, Structural)]
pub struct DimensionError {
    /// The offending dimension.
    pub dimension: usize,
}

/// The decimal digit for `d`, below ten.
pub open spec fn digit_char(d: nat) -> char {
    if d == 0 { '0' } else if d == 1 { '1' } else if d == 2 { '2' } else if d == 3 { '3' } else if d == 4 {
        '4'
    } else if d == 5 { '5' } else if d == 6 { '6' } else if d == 7 { '7' } else if d == 8 { '8' } else { '9' }
}

/// `n` written in decimal, without leading zeros.
pub open spec fn decimal(n: nat) -> Seq<char>
    decreases n,
{
    if n < 10 {
        seq![digit_char(n)]
    } else {
        decimal(n / 10) + seq![digit_char(n % 10)]
    }
}

/// The message for a dimension that is not a power of two.
pub open spec fn dimension_message(n: nat) -> Seq<char> {
    "matrix dimension "@ + decimal(n) + " is not an exact power of 2"@
}

fn push_decimal(s: &mut String, n: usize)
    ensures
        final(s)@ == old(s)@ + decimal(n as nat),
    decreases n,
{
    if n >= 10 {
        push_decimal(s, n / 10);
    }
    let d = n % 10;
    let text = if d == 0 { "0" } else if d == 1 { "1" } else if d == 2 { "2" } else if d == 3 { "3" } else if d == 4 {
        "4"
    } else if d == 5 { "5" } else if d == 6 { "6" } else if d == 7 { "7" } else if d == 8 { "8" } else { "9" };
    proof {
        reveal_strlit("0");
        reveal_strlit("1");
        reveal_strlit("2");
        reveal_strlit("3");
        reveal_strlit("4");
        reveal_strlit("5");
        reveal_strlit("6");
        reveal_strlit("7");
        reveal_strlit("8");
        reveal_strlit("9");
        assert(text@ =~= seq![digit_char(d as nat)]);
    }
    s.append(text);
    proof {
        assert(s@ =~= old(s)@ + decimal(n as nat));
    }
}

impl DimensionError {
    /// Names the offending dimension: `matrix dimension 3 is not an exact power of 2`.
    pub fn message(&self) -> (r: String)
        ensures
            r@ == dimension_message(self.dimension as nat),
    {
        let mut s = String::from_str("matrix dimension ");
        push_decimal(&mut s, self.dimension);
        s.append(" is not an exact power of 2");
        s
    }
}

/// Entry `(i, j)` of the product of `a` and `b`: the textbook sum over `k` of
/// `a[i][k] * b[k][j]`, reduced into `i32` as wrapping arithmetic does.
pub open spec fn product_entry<const N: usize>(a: Mat<i32, N, N>, b: Mat<i32, N, N>, i: int, j: int) -> i32 {
    wrap(dot(a.mat(), b.mat(), i, j, N as nat))
}

/// `c` is the product of `a` and `b`.
pub open spec fn is_product<const N: usize>(a: Mat<i32, N, N>, b: Mat<i32, N, N>, c: Mat<i32, N, N>) -> bool {
    forall|i: int, j: int| 0 <= i < N && 0 <= j < N ==> #[trigger] c.at(i, j) == product_entry(a, b, i, j)
}

/// The product of two `N` by `N` matrices by the triple loop.
pub fn matrix_multiply<const N: usize>(a: &Mat<i32, N, N>, b: &Mat<i32, N, N>) -> (c: Mat<i32, N, N>)
    ensures
        is_product(*a, *b, c),
{
    let mut c = Mat([[0i32; N]; N]);
    for i in 0..N
        invariant
            forall|r: int, s: int| 0 <= r < i && 0 <= s < N ==> #[trigger] c.at(r, s) == product_entry(*a, *b, r, s),
    {
        let mut row = [0i32; N];
        for j in 0..N
            invariant
                i < N,
                forall|s: int| 0 <= s < j ==> #[trigger] row@[s] == product_entry(*a, *b, i as int, s),
        {
            let mut acc: i32 = 0;
            for k in 0..N
                invariant
                    i < N,
                    j < N,
                    acc == wrap(dot(a.mat(), b.mat(), i as int, j as int, k as nat)),
            {
                proof {
                    lemma_wrap_id(acc);
                    lemma_wrap_add(dot(a.mat(), b.mat(), i as int, j as int, k as nat), a.at(i as int, k as int) * b.at(k as int, j as int));
                }
                acc = elem_add(acc, elem_mul(a.0[i][k], b.0[k][j]));
            }
            row[j] = acc;
        }
        let ghost prev = c;
        c.0[i] = row;
        proof {
            assert forall|r: int, s: int| 0 <= r < i + 1 && 0 <= s < N implies #[trigger] c.at(r, s)
                == product_entry(*a, *b, r, s) by {
                if r < i {
                    assert(c.0@[r] == prev.0@[r]);
                    assert(prev.at(r, s) == c.at(r, s));
                } else {
                    assert(c.0@[r] == row);
                }
            }
        }
    }
    c
}

/// The product of two `N` by `N` matrices by Strassen's algorithm. `N` must
/// be zero or a power of two; for any other `N` the error names it.
pub fn matrix_multiply_strassen<const N: usize>(a: &Mat<i32, N, N>, b: &Mat<i32, N, N>) -> (r: Result<
    Mat<i32, N, N>,
    DimensionError,
>)
    ensures
        r.is_ok() <==> (N == 0 || is_pow2(N as nat)),
        r matches Ok(c) ==> is_product(*a, *b, c),
        r matches Err(e) ==> e.dimension == N,
{
    if N == 0 {
        return Ok(Mat([[0i32; N]; N]));
    }
    if !is_power_of_two(N) {
        return Err(DimensionError { dimension: N });
    }
    let mut c = Mat([[0i32; N]; N]);
    let ghost c_zero = c;
    let av = a.as_slice2d();
    let bv = b.as_slice2d();
    let cv = c.as_slice2d_mut();
    let ghost gcv = cv;
    matrix_multiply_strassen_aux(av, bv, cv, N);
    proof {
        assert forall|i: int, j: int| 0 <= i < N && 0 <= j < N implies #[trigger] c.at(i, j) == product_entry(
            *a,
            *b,
            i,
            j,
        ) by {
            assert(cell_at(final(gcv.slice)@, gcv.row.start + i, gcv.col.start + j) == wrap(
                gcv.at(i, j) + view_dot(av, bv, i, j, N as nat),
            ));
            assert(gcv.at(i, j) == c_zero.at(i, j));
            lemma_dot_ext(av.mat(), bv.mat(), i, j, a.mat(), b.mat(), i, j, N as nat);
            assert(c.at(i, j) == cell_at(c.0@, i, j));
        }
    }
    Ok(c)
}

/// Two matrices that are both the product of `a` and `b` are the same matrix.
proof fn lemma_product_unique<const N: usize>(a: Mat<i32, N, N>, b: Mat<i32, N, N>, s: Mat<i32, N, N>, t: Mat<i32, N, N>)
    requires
        is_product(a, b, s),
        is_product(a, b, t),
    ensures
        s == t,
{
    assert forall|i: int| 0 <= i < N implies s.0@[i] == t.0@[i] by {
        assert forall|j: int| 0 <= j < N implies s.0@[i]@[j] == t.0@[i]@[j] by {
            assert(s.at(i, j) == t.at(i, j));
        }
        assert(s.0@[i] =~= t.0@[i]);
    }
    assert(s.0 =~= t.0);
}

/// Strassen's product equals the triple-loop product: for square matrices
/// `a` and `b` whose dimension is zero or a power of two, the matrix that
/// `matrix_multiply_strassen` returns and the one that `matrix_multiply`
/// returns are the same.
pub proof fn lemma_strassen_matches_naive<const N: usize>(
    a: Mat<i32, N, N>,
    b: Mat<i32, N, N>,
    strassen: Result<Mat<i32, N, N>, DimensionError>,
    naive: Mat<i32, N, N>,
)
    requires
        N == 0 || is_pow2(N as nat),
        strassen.is_ok() <==> (N == 0 || is_pow2(N as nat)),
        strassen matches Ok(c) ==> is_product(a, b, c),
        is_product(a, b, naive),
    ensures
        strassen == Ok::<Mat<i32, N, N>, DimensionError>(naive),
{
    lemma_product_unique(a, b, strassen.unwrap(), naive);
}

/// Strassen's product keeps no state: two calls on the same matrices return
/// the same result, and for dimension zero that result is the empty matrix.
pub proof fn lemma_strassen_repeatable<const N: usize>(
    a: Mat<i32, N, N>,
    b: Mat<i32, N, N>,
    first: Result<Mat<i32, N, N>, DimensionError>,
    second: Result<Mat<i32, N, N>, DimensionError>,
)
    requires
        first.is_ok() <==> (N == 0 || is_pow2(N as nat)),
        first matches Ok(c) ==> is_product(a, b, c),
        first matches Err(e) ==> e.dimension == N,
        second.is_ok() <==> (N == 0 || is_pow2(N as nat)),
        second matches Ok(c) ==> is_product(a, b, c),
        second matches Err(e) ==> e.dimension == N,
    ensures
        first == second,
        N == 0 ==> (first matches Ok(c) && c.0@.len() == 0),
{
    if first.is_ok() {
        lemma_product_unique(a, b, first.unwrap(), second.unwrap());
    }
}

/// Eight in-place additions, two into each quadrant of a `2h` by `2h`
/// block, add the sum of the two addends into each entry of the block and
/// leave every other entry as it was.
#[verifier::spinoff_prover]
#[verifier::rlimit(40)]
proof fn lemma_recursive_assemble<const N: usize>(
    m0: Mat<i32, N, N>,
    m1: Mat<i32, N, N>,
    m2: Mat<i32, N, N>,
    m3: Mat<i32, N, N>,
    m4: Mat<i32, N, N>,
    m5: Mat<i32, N, N>,
    m6: Mat<i32, N, N>,
    m7: Mat<i32, N, N>,
    m8: Mat<i32, N, N>,
    d1: spec_fn(int, int) -> int,
    d2: spec_fn(int, int) -> int,
    d3: spec_fn(int, int) -> int,
    d4: spec_fn(int, int) -> int,
    d5: spec_fn(int, int) -> int,
    d6: spec_fn(int, int) -> int,
    d7: spec_fn(int, int) -> int,
    d8: spec_fn(int, int) -> int,
    ci: int,
    cj: int,
    h: int,
)
    requires
        h > 0,
        0 <= ci,
        0 <= cj,
        ci + 2 * h <= N,
        cj + 2 * h <= N,
        forall|r: int, s: int|
            0 <= r < N && 0 <= s < N && !(ci <= r < ci + h && cj <= s < cj + h) ==> #[trigger] m1.at(r, s)
                == m0.at(r, s),
        forall|i: int, j: int|
            0 <= i < h && 0 <= j < h ==> #[trigger] m1.at(ci + i, cj + j) == wrap(m0.at(ci + i, cj + j) + d1(i, j)),
        forall|r: int, s: int|
            0 <= r < N && 0 <= s < N && !(ci <= r < ci + h && cj + h <= s < cj + h + h) ==> #[trigger] m2.at(r, s)
                == m1.at(r, s),
        forall|i: int, j: int|
            0 <= i < h && 0 <= j < h ==> #[trigger] m2.at(ci + i, cj + h + j) == wrap(m1.at(ci + i, cj + h + j) + d2(i, j)),
        forall|r: int, s: int|
            0 <= r < N && 0 <= s < N && !(ci + h <= r < ci + h + h && cj <= s < cj + h) ==> #[trigger] m3.at(r, s)
                == m2.at(r, s),
        forall|i: int, j: int|
            0 <= i < h && 0 <= j < h ==> #[trigger] m3.at(ci + h + i, cj + j) == wrap(m2.at(ci + h + i, cj + j) + d3(i, j)),
        forall|r: int, s: int|
            0 <= r < N && 0 <= s < N && !(ci + h <= r < ci + h + h && cj + h <= s < cj + h + h) ==> #[trigger] m4.at(r, s)
                == m3.at(r, s),
        forall|i: int, j: int|
            0 <= i < h && 0 <= j < h ==> #[trigger] m4.at(ci + h + i, cj + h + j) == wrap(m3.at(ci + h + i, cj + h + j) + d4(i, j)),
        forall|r: int, s: int|
            0 <= r < N && 0 <= s < N && !(ci <= r < ci + h && cj <= s < cj + h) ==> #[trigger] m5.at(r, s)
                == m4.at(r, s),
        forall|i: int, j: int|
            0 <= i < h && 0 <= j < h ==> #[trigger] m5.at(ci + i, cj + j) == wrap(m4.at(ci + i, cj + j) + d5(i, j)),
        forall|r: int, s: int|
            0 <= r < N && 0 <= s < N && !(ci <= r < ci + h && cj + h <= s < cj + h + h) ==> #[trigger] m6.at(r, s)
                == m5.at(r, s),
        forall|i: int, j: int|
            0 <= i < h && 0 <= j < h ==> #[trigger] m6.at(ci + i, cj + h + j) == wrap(m5.at(ci + i, cj + h + j) + d6(i, j)),
        forall|r: int, s: int|
            0 <= r < N && 0 <= s < N && !(ci + h <= r < ci + h + h && cj <= s < cj + h) ==> #[trigger] m7.at(r, s)
                == m6.at(r, s),
        forall|i: int, j: int|
            0 <= i < h && 0 <= j < h ==> #[trigger] m7.at(ci + h + i, cj + j) == wrap(m6.at(ci + h + i, cj + j) + d7(i, j)),
        forall|r: int, s: int|
            0 <= r < N && 0 <= s < N && !(ci + h <= r < ci + h + h && cj + h <= s < cj + h + h) ==> #[trigger] m8.at(r, s)
                == m7.at(r, s),
        forall|i: int, j: int|
            0 <= i < h && 0 <= j < h ==> #[trigger] m8.at(ci + h + i, cj + h + j) == wrap(m7.at(ci + h + i, cj + h + j) + d8(i, j)),
    ensures
        forall|r: int, s: int|
            0 <= r < N && 0 <= s < N && !(ci <= r < ci + 2 * h && cj <= s < cj + 2 * h) ==> #[trigger] m8.at(r, s)
                == m0.at(r, s),
        forall|i: int, j: int|
            0 <= i < 2 * h && 0 <= j < 2 * h ==> #[trigger] m8.at(ci + i, cj + j) == wrap(
                m0.at(ci + i, cj + j) + (if i < h && j < h {
                    d1(i, j) + d5(i, j)
                } else if i < h {
                    d2(i, j - h) + d6(i, j - h)
                } else if j < h {
                    d3(i - h, j) + d7(i - h, j)
                } else {
                    d4(i - h, j - h) + d8(i - h, j - h)
                }),
            ),
{
    assert forall|i: int, j: int| 0 <= i < 2 * h && 0 <= j < 2 * h implies #[trigger] m8.at(ci + i, cj + j) == wrap(
        m0.at(ci + i, cj + j) + (if i < h && j < h {
            d1(i, j) + d5(i, j)
        } else if i < h {
            d2(i, j - h) + d6(i, j - h)
        } else if j < h {
            d3(i - h, j) + d7(i - h, j)
        } else {
            d4(i - h, j - h) + d8(i - h, j - h)
        }),
    ) by {
        let r = ci + i;
        let s = cj + j;
        if i < h && j < h {
            assert(m1.at(ci + (i), cj + (j)) == wrap(m0.at(ci + (i), cj + (j)) + d1(i, j)));
            assert(m2.at(r, s) == m1.at(r, s));
            assert(m3.at(r, s) == m2.at(r, s));
            assert(m4.at(r, s) == m3.at(r, s));
            assert(m5.at(ci + (i), cj + (j)) == wrap(m4.at(ci + (i), cj + (j)) + d5(i, j)));
            assert(m6.at(r, s) == m5.at(r, s));
            assert(m7.at(r, s) == m6.at(r, s));
            assert(m8.at(r, s) == m7.at(r, s));
            lemma_wrap_id(m0.at(r, s));
            lemma_wrap_add(m0.at(r, s) + d1(i, j), d5(i, j));
            lemma_cong_wrap(d5(i, j));
            lemma_cong_wrap(m0.at(r, s) + d1(i, j));
            lemma_cong_add(
                wrap(m0.at(r, s) + d1(i, j)) as int,
                m0.at(r, s) + d1(i, j),
                d5(i, j),
                d5(i, j),
            );
            lemma_cong_implies_wrap_eq(
                wrap(m0.at(r, s) + d1(i, j)) + d5(i, j),
                m0.at(r, s) + d1(i, j) + d5(i, j),
            );
        } else if i < h {
            assert(m1.at(r, s) == m0.at(r, s));
            assert(m2.at(ci + (i), cj + h + (j - h)) == wrap(m1.at(ci + (i), cj + h + (j - h)) + d2(i, j - h)));
            assert(m3.at(r, s) == m2.at(r, s));
            assert(m4.at(r, s) == m3.at(r, s));
            assert(m5.at(r, s) == m4.at(r, s));
            assert(m6.at(ci + (i), cj + h + (j - h)) == wrap(m5.at(ci + (i), cj + h + (j - h)) + d6(i, j - h)));
            assert(m7.at(r, s) == m6.at(r, s));
            assert(m8.at(r, s) == m7.at(r, s));
            lemma_wrap_id(m0.at(r, s));
            lemma_wrap_add(m0.at(r, s) + d2(i, j - h), d6(i, j - h));
            lemma_cong_wrap(d6(i, j - h));
            lemma_cong_wrap(m0.at(r, s) + d2(i, j - h));
            lemma_cong_add(
                wrap(m0.at(r, s) + d2(i, j - h)) as int,
                m0.at(r, s) + d2(i, j - h),
                d6(i, j - h),
                d6(i, j - h),
            );
            lemma_cong_implies_wrap_eq(
                wrap(m0.at(r, s) + d2(i, j - h)) + d6(i, j - h),
                m0.at(r, s) + d2(i, j - h) + d6(i, j - h),
            );
        } else if j < h {
            assert(m1.at(r, s) == m0.at(r, s));
            assert(m2.at(r, s) == m1.at(r, s));
            assert(m3.at(ci + h + (i - h), cj + (j)) == wrap(m2.at(ci + h + (i - h), cj + (j)) + d3(i - h, j)));
            assert(m4.at(r, s) == m3.at(r, s));
            assert(m5.at(r, s) == m4.at(r, s));
            assert(m6.at(r, s) == m5.at(r, s));
            assert(m7.at(ci + h + (i - h), cj + (j)) == wrap(m6.at(ci + h + (i - h), cj + (j)) + d7(i - h, j)));
            assert(m8.at(r, s) == m7.at(r, s));
            lemma_wrap_id(m0.at(r, s));
            lemma_wrap_add(m0.at(r, s) + d3(i - h, j), d7(i - h, j));
            lemma_cong_wrap(d7(i - h, j));
            lemma_cong_wrap(m0.at(r, s) + d3(i - h, j));
            lemma_cong_add(
                wrap(m0.at(r, s) + d3(i - h, j)) as int,
                m0.at(r, s) + d3(i - h, j),
                d7(i - h, j),
                d7(i - h, j),
            );
            lemma_cong_implies_wrap_eq(
                wrap(m0.at(r, s) + d3(i - h, j)) + d7(i - h, j),
                m0.at(r, s) + d3(i - h, j) + d7(i - h, j),
            );
        } else {
            assert(m1.at(r, s) == m0.at(r, s));
            assert(m2.at(r, s) == m1.at(r, s));
            assert(m3.at(r, s) == m2.at(r, s));
            assert(m4.at(ci + h + (i - h), cj + h + (j - h)) == wrap(m3.at(ci + h + (i - h), cj + h + (j - h)) + d4(i - h, j - h)));
            assert(m5.at(r, s) == m4.at(r, s));
            assert(m6.at(r, s) == m5.at(r, s));
            assert(m7.at(r, s) == m6.at(r, s));
            assert(m8.at(ci + h + (i - h), cj + h + (j - h)) == wrap(m7.at(ci + h + (i - h), cj + h + (j - h)) + d8(i - h, j - h)));
            lemma_wrap_id(m0.at(r, s));
            lemma_wrap_add(m0.at(r, s) + d4(i - h, j - h), d8(i - h, j - h));
            lemma_cong_wrap(d8(i - h, j - h));
            lemma_cong_wrap(m0.at(r, s) + d4(i - h, j - h));
            lemma_cong_add(
                wrap(m0.at(r, s) + d4(i - h, j - h)) as int,
                m0.at(r, s) + d4(i - h, j - h),
                d8(i - h, j - h),
                d8(i - h, j - h),
            );
            lemma_cong_implies_wrap_eq(
                wrap(m0.at(r, s) + d4(i - h, j - h)) + d8(i - h, j - h),
                m0.at(r, s) + d4(i - h, j - h) + d8(i - h, j - h),
            );
        }
    }
    assert forall|r: int, s: int|
        0 <= r < N && 0 <= s < N && !(ci <= r < ci + 2 * h && cj <= s < cj + 2 * h) implies #[trigger] m8.at(r, s)
        == m0.at(r, s) by {
        assert(m1.at(r, s) == m0.at(r, s));
        assert(m2.at(r, s) == m1.at(r, s));
        assert(m3.at(r, s) == m2.at(r, s));
        assert(m4.at(r, s) == m3.at(r, s));
        assert(m5.at(r, s) == m4.at(r, s));
        assert(m6.at(r, s) == m5.at(r, s));
        assert(m7.at(r, s) == m6.at(r, s));
        assert(m8.at(r, s) == m7.at(r, s));
    }
}

/// The block of `m` whose top left entry is `(r0, c0)`, as a function of row
/// and column.
pub open spec fn block<const N: usize>(m: Mat<i32, N, N>, r0: int, c0: int) -> spec_fn(int, int) -> int {
    |i: int, j: int| m.at(r0 + i, c0 + j) as int
}

/// Adds the product of the `n` by `n` blocks of `a` at `(a_i, a_j)` and of `b`
/// at `(b_i, b_j)` into the block of `c` at `(c_i, c_j)`, by eight half-size
/// products; `n` is a power of two.
#[verifier::spinoff_prover]
fn matrix_multiply_recursive_aux<const N: usize>(
    a: &Mat<i32, N, N>,
    b: &Mat<i32, N, N>,
    c: &mut Mat<i32, N, N>,
    n: usize,
    a_i: usize,
    a_j: usize,
    b_i: usize,
    b_j: usize,
    c_i: usize,
    c_j: usize,
)
    requires
        is_pow2(n as nat),
        a_i + n <= N,
        a_j + n <= N,
        b_i + n <= N,
        b_j + n <= N,
        c_i + n <= N,
        c_j + n <= N,
    ensures
        forall|r: int, s: int|
            0 <= r < N && 0 <= s < N && !(c_i <= r < c_i + n && c_j <= s < c_j + n) ==> #[trigger] final(c).at(r, s)
                == old(c).at(r, s),
        forall|i: int, j: int|
            0 <= i < n && 0 <= j < n ==> #[trigger] final(c).at(c_i + i, c_j + j) == wrap(
                old(c).at(c_i + i, c_j + j) + dot(block(*a, a_i as int, a_j as int), block(*b, b_i as int, b_j as int), i, j, n as nat),
            ),
    decreases n,
{
    if n == 1 {
        let x = elem_mul(a.0[a_i][a_j], b.0[b_i][b_j]);
        let cur = c.0[c_i][c_j];
        let ghost m0 = *c;
        *c.index_mut((c_i, c_j)) = elem_add(cur, x);
        proof {
            lemma_wrap_id(cur);
            lemma_wrap_add(cur as int, a.at(a_i as int, a_j as int) * b.at(b_i as int, b_j as int));
            assert(dot(block(*a, a_i as int, a_j as int), block(*b, b_i as int, b_j as int), 0, 0, 0) == 0);
            assert forall|r: int, s: int|
                0 <= r < N && 0 <= s < N && !(c_i <= r < c_i + n && c_j <= s < c_j + n) implies #[trigger] c.at(r, s)
                == m0.at(r, s) by {
                if r != c_i {
                    assert(c.0@[r] == m0.0@[r]);
                }
            }
        }
        return;
    }
    let h = n / 2;
    let ghost m0 = *c;
    matrix_multiply_recursive_aux(a, b, c, h, a_i, a_j, b_i, b_j, c_i, c_j);
    let ghost m1 = *c;
    matrix_multiply_recursive_aux(a, b, c, h, a_i, a_j, b_i, b_j + h, c_i, c_j + h);
    let ghost m2 = *c;
    matrix_multiply_recursive_aux(a, b, c, h, a_i + h, a_j, b_i, b_j, c_i + h, c_j);
    let ghost m3 = *c;
    matrix_multiply_recursive_aux(a, b, c, h, a_i + h, a_j, b_i, b_j + h, c_i + h, c_j + h);
    let ghost m4 = *c;
    matrix_multiply_recursive_aux(a, b, c, h, a_i, a_j + h, b_i + h, b_j, c_i, c_j);
    let ghost m5 = *c;
    matrix_multiply_recursive_aux(a, b, c, h, a_i, a_j + h, b_i + h, b_j + h, c_i, c_j + h);
    let ghost m6 = *c;
    matrix_multiply_recursive_aux(a, b, c, h, a_i + h, a_j + h, b_i + h, b_j, c_i + h, c_j);
    let ghost m7 = *c;
    matrix_multiply_recursive_aux(a, b, c, h, a_i + h, a_j + h, b_i + h, b_j + h, c_i + h, c_j + h);
    let ghost m8 = *c;
    proof {
        let hh = h as nat;
        let (ai, aj, bi, bj, hi) = (a_i as int, a_j as int, b_i as int, b_j as int, h as int);
        let d1 = |i: int, j: int| dot(block(*a, ai, aj), block(*b, bi, bj), i, j, hh);
        let d2 = |i: int, j: int| dot(block(*a, ai, aj), block(*b, bi, bj + hi), i, j, hh);
        let d3 = |i: int, j: int| dot(block(*a, ai + hi, aj), block(*b, bi, bj), i, j, hh);
        let d4 = |i: int, j: int| dot(block(*a, ai + hi, aj), block(*b, bi, bj + hi), i, j, hh);
        let d5 = |i: int, j: int| dot(block(*a, ai, aj + hi), block(*b, bi + hi, bj), i, j, hh);
        let d6 = |i: int, j: int| dot(block(*a, ai, aj + hi), block(*b, bi + hi, bj + hi), i, j, hh);
        let d7 = |i: int, j: int| dot(block(*a, ai + hi, aj + hi), block(*b, bi + hi, bj), i, j, hh);
        let d8 = |i: int, j: int| dot(block(*a, ai + hi, aj + hi), block(*b, bi + hi, bj + hi), i, j, hh);
        lemma_recursive_assemble(m0, m1, m2, m3, m4, m5, m6, m7, m8, d1, d2, d3, d4, d5, d6, d7, d8, c_i as int, c_j as int, h as int);
        let fa = block(*a, ai, aj);
        let fb = block(*b, bi, bj);
        let sa = |r: int, t: int| fa(r, t + hh);
        let sb = |t: int, s: int| fb(t + hh, s);
        assert forall|i: int, j: int| 0 <= i < n && 0 <= j < n implies #[trigger] c.at(c_i + i, c_j + j) == wrap(
            m0.at(c_i + i, c_j + j) + dot(fa, fb, i, j, n as nat),
        ) by {
            assert((hh + hh) as nat == n as nat);
            lemma_dot_split(fa, fb, i, j, hh, hh);
            if i < h && j < h {
                lemma_dot_ext(fa, fb, i, j, block(*a, ai, aj), block(*b, bi, bj), i, j, hh);
                lemma_dot_ext(sa, sb, i, j, block(*a, ai, aj + hi), block(*b, bi + hi, bj), i, j, hh);
            } else if i < h {
                lemma_dot_ext(fa, fb, i, j, block(*a, ai, aj), block(*b, bi, bj + hi), i, j - h, hh);
                lemma_dot_ext(sa, sb, i, j, block(*a, ai, aj + hi), block(*b, bi + hi, bj + hi), i, j - h, hh);
            } else if j < h {
                lemma_dot_ext(fa, fb, i, j, block(*a, ai + hi, aj), block(*b, bi, bj), i - h, j, hh);
                lemma_dot_ext(sa, sb, i, j, block(*a, ai + hi, aj + hi), block(*b, bi + hi, bj), i - h, j, hh);
            } else {
                lemma_dot_ext(fa, fb, i, j, block(*a, ai + hi, aj), block(*b, bi, bj + hi), i - h, j - h, hh);
                lemma_dot_ext(sa, sb, i, j, block(*a, ai + hi, aj + hi), block(*b, bi + hi, bj + hi), i - h, j - h, hh);
            }
        }
    }
}

/// The product of two `N` by `N` matrices by divide and conquer into eight
/// half-size products. `N` must be zero or a power of two; for any other `N`
/// the error names it.
pub fn matrix_multiply_recursive<const N: usize>(a: &Mat<i32, N, N>, b: &Mat<i32, N, N>) -> (r: Result<
    Mat<i32, N, N>,
    DimensionError,
>)
    ensures
        r.is_ok() <==> (N == 0 || is_pow2(N as nat)),
        r matches Ok(c) ==> is_product(*a, *b, c),
        r matches Err(e) ==> e.dimension == N,
{
    if N == 0 {
        return Ok(Mat([[0i32; N]; N]));
    }
    if !is_power_of_two(N) {
        return Err(DimensionError { dimension: N });
    }
    let mut c = Mat([[0i32; N]; N]);
    let ghost c_zero = c;
    matrix_multiply_recursive_aux(a, b, &mut c, N, 0, 0, 0, 0, 0, 0);
    proof {
        assert forall|i: int, j: int| 0 <= i < N && 0 <= j < N implies #[trigger] c.at(i, j) == product_entry(
            *a,
            *b,
            i,
            j,
        ) by {
            assert(c.at(0 + i, 0 + j) == wrap(c_zero.at(0 + i, 0 + j) + dot(block(*a, 0, 0), block(*b, 0, 0), i, j, N as nat)));
            lemma_dot_ext(block(*a, 0, 0), block(*b, 0, 0), i, j, a.mat(), b.mat(), i, j, N as nat);
        }
    }
    Ok(c)
}

} // verus!
