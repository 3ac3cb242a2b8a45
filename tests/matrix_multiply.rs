use clrs::ch04::{matrix_multiply, matrix_multiply_recursive, matrix_multiply_strassen, DimensionError};
use clrs::utils::matrix::Mat;

fn naive<const N: usize>(a: &Mat<i32, N, N>, b: &Mat<i32, N, N>) -> Mat<i32, N, N> {
    let mut c = [[0i32; N]; N];
    for i in 0..N {
        for j in 0..N {
            for k in 0..N {
                c[i][j] = c[i][j].wrapping_add(a.0[i][k].wrapping_mul(b.0[k][j]));
            }
        }
    }
    Mat(c)
}

fn counting<const N: usize>(start: i32, step: i32) -> Mat<i32, N, N> {
    let mut m = [[0i32; N]; N];
    let mut v = start;
    for i in 0..N {
        for j in 0..N {
            m[i][j] = v;
            v += step;
        }
    }
    Mat(m)
}

fn identity_scaled<const N: usize>(s: i32) -> Mat<i32, N, N> {
    let mut m = [[0i32; N]; N];
    for i in 0..N {
        m[i][i] = s;
    }
    Mat(m)
}

fn check_pow2(mul: fn(&Mat<i32, 1, 1>, &Mat<i32, 1, 1>) -> Mat<i32, 1, 1>) {
    let a = Mat([[3]]);
    let b = Mat([[-4]]);
    assert_eq!(mul(&a, &b), Mat([[-12]]));
}

fn recursive<const N: usize>(a: &Mat<i32, N, N>, b: &Mat<i32, N, N>) -> Mat<i32, N, N> {
    matrix_multiply_recursive(a, b).unwrap()
}

fn strassen<const N: usize>(a: &Mat<i32, N, N>, b: &Mat<i32, N, N>) -> Mat<i32, N, N> {
    matrix_multiply_strassen(a, b).unwrap()
}

#[test]
fn matrix_multiply_test() {
    let a0 = Mat::<i32, 0, 0>([]);
    assert_eq!(matrix_multiply(&a0, &a0), Mat::<i32, 0, 0>([]));
    check_pow2(matrix_multiply);
    assert_eq!(matrix_multiply(&Mat([[1, 2], [3, 4]]), &Mat([[5, 6], [7, 8]])), Mat([[19, 22], [43, 50]]));
    let a3: Mat<i32, 3, 3> = counting(1, 1);
    let b3: Mat<i32, 3, 3> = counting(9, -1);
    assert_eq!(matrix_multiply(&a3, &b3), Mat([[30, 24, 18], [84, 69, 54], [138, 114, 90]]));
    let a4: Mat<i32, 4, 4> = counting(1, 1);
    let b4: Mat<i32, 4, 4> = counting(16, -1);
    assert_eq!(matrix_multiply(&a4, &b4), naive(&a4, &b4));
    let a8: Mat<i32, 8, 8> = counting(-20, 3);
    let b8: Mat<i32, 8, 8> = counting(7, -2);
    assert_eq!(matrix_multiply(&a8, &b8), naive(&a8, &b8));
}

#[test]
fn matrix_multiply_strassen_test() {
    let a0 = Mat::<i32, 0, 0>([]);
    assert_eq!(matrix_multiply_strassen(&a0, &a0), Ok(Mat::<i32, 0, 0>([])));
    check_pow2(strassen);
    assert_eq!(strassen(&Mat([[1, 2], [3, 4]]), &Mat([[5, 6], [7, 8]])), Mat([[19, 22], [43, 50]]));
    let a4: Mat<i32, 4, 4> = counting(1, 1);
    let b4: Mat<i32, 4, 4> = counting(16, -1);
    assert_eq!(strassen(&a4, &b4), naive(&a4, &b4));
    let a8: Mat<i32, 8, 8> = counting(-20, 3);
    let b8: Mat<i32, 8, 8> = counting(7, -2);
    assert_eq!(strassen(&a8, &b8), naive(&a8, &b8));
}

#[test]
fn matrix_multiply_strassen_error() {
    let a3: Mat<i32, 3, 3> = counting(1, 1);
    let r = matrix_multiply_strassen(&a3, &a3);
    assert_eq!(r, Err(DimensionError { dimension: 3 }));
    assert_eq!(r.unwrap_err().message(), "matrix dimension 3 is not an exact power of 2");
}

#[test]
fn dimension_message_names_large_dimensions() {
    assert_eq!(DimensionError { dimension: 0 }.message(), "matrix dimension 0 is not an exact power of 2");
    assert_eq!(DimensionError { dimension: 1000 }.message(), "matrix dimension 1000 is not an exact power of 2");
    assert_eq!(
        DimensionError { dimension: usize::MAX }.message(),
        format!("matrix dimension {} is not an exact power of 2", usize::MAX)
    );
}

#[test]
fn strassen_two_by_two_scenario() {
    let a = Mat([[1, 2], [3, 4]]);
    let b = Mat([[5, 6], [7, 8]]);
    assert_eq!(matrix_multiply_strassen(&a, &b), Ok(Mat([[19, 22], [43, 50]])));
}

#[test]
fn strassen_identity_scaled_scenario() {
    let a: Mat<i32, 4, 4> = counting(1, 1);
    let s: Mat<i32, 4, 4> = identity_scaled(3);
    let expected = matrix_multiply(&a, &s);
    assert_eq!(expected, counting(3, 3));
    assert_eq!(matrix_multiply_strassen(&a, &s), Ok(expected));
}

#[test]
fn strassen_matches_naive_and_repeats() {
    let a: Mat<i32, 8, 8> = counting(5, 7);
    let b: Mat<i32, 8, 8> = counting(-30, 4);
    let first = matrix_multiply_strassen(&a, &b);
    let second = matrix_multiply_strassen(&a, &b);
    assert_eq!(first, Ok(matrix_multiply(&a, &b)));
    assert_eq!(first, second);
}

#[test]
fn strassen_wraps_like_naive() {
    let a = Mat([[i32::MAX, i32::MIN], [1, -1]]);
    let b = Mat([[i32::MAX, 2], [i32::MIN, i32::MAX]]);
    assert_eq!(matrix_multiply_strassen(&a, &b), Ok(matrix_multiply(&a, &b)));
    assert_eq!(matrix_multiply(&a, &b), naive(&a, &b));
}

#[test]
fn matrix_multiply_recursive_test() {
    let a0 = Mat::<i32, 0, 0>([]);
    assert_eq!(matrix_multiply_recursive(&a0, &a0), Ok(Mat::<i32, 0, 0>([])));
    check_pow2(recursive);
    assert_eq!(recursive(&Mat([[1, 2], [3, 4]]), &Mat([[5, 6], [7, 8]])), Mat([[19, 22], [43, 50]]));
    let a4: Mat<i32, 4, 4> = counting(1, 1);
    let b4: Mat<i32, 4, 4> = counting(16, -1);
    assert_eq!(recursive(&a4, &b4), naive(&a4, &b4));
    let a8: Mat<i32, 8, 8> = counting(-20, 3);
    let b8: Mat<i32, 8, 8> = counting(7, -2);
    assert_eq!(recursive(&a8, &b8), naive(&a8, &b8));
}

#[test]
fn matrix_multiply_recursive_error() {
    let a3: Mat<i32, 3, 3> = counting(1, 1);
    assert_eq!(matrix_multiply_recursive(&a3, &a3), Err(DimensionError { dimension: 3 }));
}
