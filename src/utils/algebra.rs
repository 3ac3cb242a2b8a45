use vstd::prelude::*;
use vstd::arithmetic::div_mod::*;
use vstd::arithmetic::mul::*;

verus! {

/// The number of distinct `i32` values: `i32` arithmetic here wraps modulo it.
pub open spec fn modulus() -> int {
    0x1_0000_0000
}

/// The `i32` that is congruent to `x` modulo 2^32.
pub open spec fn wrap(x: int) -> i32 {
    let m = x % modulus();
    if m > i32::MAX as int {
        (m - modulus()) as i32
    } else {
        m as i32
    }
}

/// `x` and `y` are congruent modulo 2^32.
pub open spec fn cong(x: int, y: int) -> bool {
    (x - y) % modulus() == 0
}

/// The dot product of row `i` of `f` with column `j` of `g`, over the first `k` terms.
pub open spec fn dot(f: spec_fn(int, int) -> int, g: spec_fn(int, int) -> int, i: int, j: int, k: nat) -> int
    decreases k,
{
    if k == 0 {
        0
    } else {
        dot(f, g, i, j, (k - 1) as nat) + f(i, k - 1) * g(k - 1, j)
    }
}

/// Wrapping `i32` addition.
pub fn elem_add(a: i32, b: i32) -> (r: i32)
    ensures
        r == wrap(a + b),
{
    proof {
        lemma_wrap_small(a + b);
    }
    a.wrapping_add(b)
}

/// Wrapping `i32` subtraction.
pub fn elem_sub(a: i32, b: i32) -> (r: i32)
    ensures
        r == wrap(a - b),
{
    proof {
        lemma_wrap_small(a - b);
    }
    a.wrapping_sub(b)
}

/// Wrapping `i32` multiplication.
pub fn elem_mul(a: i32, b: i32) -> (r: i32)
    ensures
        r == wrap(a * b),
{
    a.wrapping_mul(b)
}

proof fn lemma_wrap_small(x: int)
    requires
        -0x1_0000_0000 <= x < 0x1_0000_0000,
    ensures
        wrap(x) == (if x > i32::MAX { x - modulus() } else if x < i32::MIN { x + modulus() } else { x }),
{
}

pub proof fn lemma_wrap_id(x: i32)
    ensures
        wrap(x as int) == x,
{
}

pub proof fn lemma_cong_wrap(x: int)
    ensures
        cong(wrap(x) as int, x),
{
    lemma_fundamental_div_mod(x, modulus());
    let q = x / modulus();
    assert(x % modulus() == x - modulus() * q);
    let w = wrap(x) as int;
    if x % modulus() > i32::MAX as int {
        assert(w - x == modulus() * (-q - 1)) by (nonlinear_arith)
            requires
                w == x % modulus() - modulus(),
                x % modulus() == x - modulus() * q,
        ;
        lemma_mod_multiples_basic(-q - 1, modulus());
        lemma_mul_is_commutative(-q - 1, modulus());
    } else {
        assert(w - x == modulus() * (-q)) by (nonlinear_arith)
            requires
                w == x % modulus(),
                x % modulus() == x - modulus() * q,
        ;
        lemma_mod_multiples_basic(-q, modulus());
        lemma_mul_is_commutative(-q, modulus());
    }
}

pub proof fn lemma_cong_implies_wrap_eq(x: int, y: int)
    requires
        cong(x, y),
    ensures
        wrap(x) == wrap(y),
{
    lemma_fundamental_div_mod(x - y, modulus());
    let k = (x - y) / modulus();
    assert(x == y + k * modulus()) by (nonlinear_arith)
        requires
            x - y == modulus() * k + (x - y) % modulus(),
            (x - y) % modulus() == 0,
    ;
    lemma_mod_multiples_vanish(k, y, modulus());
}

pub proof fn lemma_cong_refl(x: int)
    ensures
        cong(x, x),
{
}

proof fn lemma_cong_as_multiple(x: int, y: int) -> (k: int)
    requires
        cong(x, y),
    ensures
        x == y + k * modulus(),
{
    lemma_fundamental_div_mod(x - y, modulus());
    let k = (x - y) / modulus();
    assert(x == y + k * modulus()) by (nonlinear_arith)
        requires
            x - y == modulus() * k + (x - y) % modulus(),
            (x - y) % modulus() == 0,
    ;
    k
}

proof fn lemma_multiple_is_cong(x: int, y: int, k: int)
    requires
        x == y + k * modulus(),
    ensures
        cong(x, y),
{
    lemma_mod_multiples_basic(k, modulus());
}

pub proof fn lemma_cong_trans(x: int, y: int, z: int)
    requires
        cong(x, y),
        cong(y, z),
    ensures
        cong(x, z),
{
    let k1 = lemma_cong_as_multiple(x, y);
    let k2 = lemma_cong_as_multiple(y, z);
    assert(x == z + (k1 + k2) * modulus()) by (nonlinear_arith)
        requires
            x == y + k1 * modulus(),
            y == z + k2 * modulus(),
    ;
    lemma_multiple_is_cong(x, z, k1 + k2);
}

pub proof fn lemma_cong_add(x1: int, y1: int, x2: int, y2: int)
    requires
        cong(x1, y1),
        cong(x2, y2),
    ensures
        cong(x1 + x2, y1 + y2),
        cong(x1 - x2, y1 - y2),
{
    let k1 = lemma_cong_as_multiple(x1, y1);
    let k2 = lemma_cong_as_multiple(x2, y2);
    assert(x1 + x2 == y1 + y2 + (k1 + k2) * modulus()) by (nonlinear_arith)
        requires
            x1 == y1 + k1 * modulus(),
            x2 == y2 + k2 * modulus(),
    ;
    assert(x1 - x2 == y1 - y2 + (k1 - k2) * modulus()) by (nonlinear_arith)
        requires
            x1 == y1 + k1 * modulus(),
            x2 == y2 + k2 * modulus(),
    ;
    lemma_multiple_is_cong(x1 + x2, y1 + y2, k1 + k2);
    lemma_multiple_is_cong(x1 - x2, y1 - y2, k1 - k2);
}

pub proof fn lemma_cong_mul(x1: int, y1: int, x2: int, y2: int)
    requires
        cong(x1, y1),
        cong(x2, y2),
    ensures
        cong(x1 * x2, y1 * y2),
{
    let k1 = lemma_cong_as_multiple(x1, y1);
    let k2 = lemma_cong_as_multiple(x2, y2);
    let k = k1 * y2 + y1 * k2 + k1 * k2 * modulus();
    assert(x1 * x2 == y1 * y2 + k * modulus()) by (nonlinear_arith)
        requires
            x1 == y1 + k1 * modulus(),
            x2 == y2 + k2 * modulus(),
            k == k1 * y2 + y1 * k2 + k1 * k2 * modulus(),
    ;
    lemma_multiple_is_cong(x1 * x2, y1 * y2, k);
}

/// Congruent factors, term by term, give congruent dot products.
pub proof fn lemma_dot_cong(
    f1: spec_fn(int, int) -> int,
    g1: spec_fn(int, int) -> int,
    f2: spec_fn(int, int) -> int,
    g2: spec_fn(int, int) -> int,
    i: int,
    j: int,
    k: nat,
)
    requires
        forall|t: int| 0 <= t < k ==> cong(#[trigger] f1(i, t), f2(i, t)),
        forall|t: int| 0 <= t < k ==> cong(#[trigger] g1(t, j), g2(t, j)),
    ensures
        cong(dot(f1, g1, i, j, k), dot(f2, g2, i, j, k)),
    decreases k,
{
    if k > 0 {
        let t = k - 1;
        lemma_dot_cong(f1, g1, f2, g2, i, j, (k - 1) as nat);
        lemma_cong_mul(f1(i, t), f2(i, t), g1(t, j), g2(t, j));
        lemma_cong_add(
            dot(f1, g1, i, j, (k - 1) as nat),
            dot(f2, g2, i, j, (k - 1) as nat),
            f1(i, t) * g1(t, j),
            f2(i, t) * g2(t, j),
        );
    }
}

/// Equal factors, term by term, give equal dot products, wherever each sits.
pub proof fn lemma_dot_ext(
    f1: spec_fn(int, int) -> int,
    g1: spec_fn(int, int) -> int,
    i1: int,
    j1: int,
    f2: spec_fn(int, int) -> int,
    g2: spec_fn(int, int) -> int,
    i2: int,
    j2: int,
    k: nat,
)
    requires
        forall|t: int| 0 <= t < k ==> #[trigger] f1(i1, t) == f2(i2, t),
        forall|t: int| 0 <= t < k ==> #[trigger] g1(t, j1) == g2(t, j2),
    ensures
        dot(f1, g1, i1, j1, k) == dot(f2, g2, i2, j2, k),
    decreases k,
{
    if k > 0 {
        lemma_dot_ext(f1, g1, i1, j1, f2, g2, i2, j2, (k - 1) as nat);
    }
}

/// The dot product is linear in its left factor: `(f1 + s * f2) . g`.
pub proof fn lemma_dot_linear_left(
    f: spec_fn(int, int) -> int,
    f1: spec_fn(int, int) -> int,
    f2: spec_fn(int, int) -> int,
    g: spec_fn(int, int) -> int,
    s: int,
    i: int,
    j: int,
    k: nat,
)
    requires
        forall|t: int| 0 <= t < k ==> #[trigger] f(i, t) == f1(i, t) + s * f2(i, t),
    ensures
        dot(f, g, i, j, k) == dot(f1, g, i, j, k) + s * dot(f2, g, i, j, k),
    decreases k,
{
    if k > 0 {
        let t = k - 1;
        lemma_dot_linear_left(f, f1, f2, g, s, i, j, (k - 1) as nat);
        assert(f(i, t) * g(t, j) == f1(i, t) * g(t, j) + s * (f2(i, t) * g(t, j))) by (nonlinear_arith)
            requires
                f(i, t) == f1(i, t) + s * f2(i, t),
        ;
        assert(s * dot(f2, g, i, j, k) == s * dot(f2, g, i, j, (k - 1) as nat) + s * (f2(i, t) * g(t, j)))
            by (nonlinear_arith)
            requires
                dot(f2, g, i, j, k) == dot(f2, g, i, j, (k - 1) as nat) + f2(i, t) * g(t, j),
        ;
    }
}

/// The dot product is linear in its right factor: `f . (g1 + s * g2)`.
pub proof fn lemma_dot_linear_right(
    f: spec_fn(int, int) -> int,
    g: spec_fn(int, int) -> int,
    g1: spec_fn(int, int) -> int,
    g2: spec_fn(int, int) -> int,
    s: int,
    i: int,
    j: int,
    k: nat,
)
    requires
        forall|t: int| 0 <= t < k ==> #[trigger] g(t, j) == g1(t, j) + s * g2(t, j),
    ensures
        dot(f, g, i, j, k) == dot(f, g1, i, j, k) + s * dot(f, g2, i, j, k),
    decreases k,
{
    if k > 0 {
        let t = k - 1;
        lemma_dot_linear_right(f, g, g1, g2, s, i, j, (k - 1) as nat);
        assert(f(i, t) * g(t, j) == f(i, t) * g1(t, j) + s * (f(i, t) * g2(t, j))) by (nonlinear_arith)
            requires
                g(t, j) == g1(t, j) + s * g2(t, j),
        ;
        assert(s * dot(f, g2, i, j, k) == s * dot(f, g2, i, j, (k - 1) as nat) + s * (f(i, t) * g2(t, j)))
            by (nonlinear_arith)
            requires
                dot(f, g2, i, j, k) == dot(f, g2, i, j, (k - 1) as nat) + f(i, t) * g2(t, j),
        ;
    }
}

/// A dot product over `h + m` terms is the one over the first `h` terms plus
/// the one over the next `m` terms.
pub proof fn lemma_dot_split(
    f: spec_fn(int, int) -> int,
    g: spec_fn(int, int) -> int,
    i: int,
    j: int,
    h: nat,
    m: nat,
)
    ensures
        dot(f, g, i, j, h + m) == dot(f, g, i, j, h) + dot(
            |r: int, c: int| f(r, c + h),
            |r: int, c: int| g(r + h, c),
            i,
            j,
            m,
        ),
    decreases m,
{
    if m > 0 {
        lemma_dot_split(f, g, i, j, h, (m - 1) as nat);
        assert((h + m - 1) as nat == (h + (m - 1)) as nat);
    }
}

/// Wrapping after each step of a sum or difference gives what wrapping once gives.
pub proof fn lemma_wrap_add(x: int, y: int)
    ensures
        wrap(wrap(x) + wrap(y)) == wrap(x + y),
        wrap(wrap(x) - wrap(y)) == wrap(x - y),
        wrap(wrap(x) * wrap(y)) == wrap(x * y),
{
    lemma_cong_wrap(x);
    lemma_cong_wrap(y);
    lemma_cong_add(wrap(x) as int, x, wrap(y) as int, y);
    lemma_cong_mul(wrap(x) as int, x, wrap(y) as int, y);
    lemma_cong_implies_wrap_eq(wrap(x) + wrap(y), x + y);
    lemma_cong_implies_wrap_eq(wrap(x) - wrap(y), x - y);
    lemma_cong_implies_wrap_eq(wrap(x) * wrap(y), x * y);
}

/// A dot product of two factors that are each, term by term, congruent to a
/// combination `f1 + sf * f2` and `g1 + sg * g2`, is congruent to the expanded
/// combination of the four dot products.
pub proof fn lemma_dot_combination(
    f: spec_fn(int, int) -> int,
    f1: spec_fn(int, int) -> int,
    f2: spec_fn(int, int) -> int,
    sf: int,
    g: spec_fn(int, int) -> int,
    g1: spec_fn(int, int) -> int,
    g2: spec_fn(int, int) -> int,
    sg: int,
    i: int,
    j: int,
    k: nat,
)
    requires
        forall|t: int| 0 <= t < k ==> cong(#[trigger] f(i, t), f1(i, t) + sf * f2(i, t)),
        forall|t: int| 0 <= t < k ==> cong(#[trigger] g(t, j), g1(t, j) + sg * g2(t, j)),
    ensures
        cong(
            dot(f, g, i, j, k),
            dot(f1, g1, i, j, k) + sg * dot(f1, g2, i, j, k) + sf * dot(f2, g1, i, j, k) + sf * sg * dot(
                f2,
                g2,
                i,
                j,
                k,
            ),
        ),
{
    let ff = |r: int, c: int| f1(r, c) + sf * f2(r, c);
    let gg = |r: int, c: int| g1(r, c) + sg * g2(r, c);
    lemma_dot_cong(f, g, ff, gg, i, j, k);
    lemma_dot_linear_left(ff, f1, f2, gg, sf, i, j, k);
    lemma_dot_linear_right(f1, gg, g1, g2, sg, i, j, k);
    lemma_dot_linear_right(f2, gg, g1, g2, sg, i, j, k);
    let d11 = dot(f1, g1, i, j, k);
    let d12 = dot(f1, g2, i, j, k);
    let d21 = dot(f2, g1, i, j, k);
    let d22 = dot(f2, g2, i, j, k);
    assert(sf * (d21 + sg * d22) == sf * d21 + sf * sg * d22) by (nonlinear_arith);
}

} // verus!
