use clrs::utils::matrix::{Mat, Shape, Slice2d, Slice2dMut, Vec2d};

fn grid() -> Mat<i32, 4, 4> {
    Mat([[1, 2, 3, 4], [5, 6, 7, 8], [9, 10, 11, 12], [13, 14, 15, 16]])
}

#[test]
fn mat_debug() {
    assert_eq!(format!("{:?}", Mat::<i32, 0, 0>([])), String::from("Mat([])"));
    assert_eq!(format!("{:?}", Mat([[1]])), String::from("Mat([[1]])"));
    let mut a = Mat([[1, 2], [3, 4]]);
    assert_eq!(format!("{:?}", a), String::from("Mat([[1, 2], [3, 4]])"));
    assert_eq!(format!("{:?}", &a), String::from("Mat([[1, 2], [3, 4]])"));
    assert_eq!(format!("{:?}", &mut a), String::from("Mat([[1, 2], [3, 4]])"));
}

#[test]
fn mat_partial_eq() {
    assert_eq!(Mat([[1]]), Mat([[1]]));
    assert_eq!(&Mat([[1]]), &Mat([[1]]));
    assert_eq!(&Mat([[1]]), &mut Mat([[1]]));
    assert_eq!(&mut Mat([[1]]), &Mat([[1]]));
    assert_eq!(&mut Mat([[1]]), &mut Mat([[1]]));
}

#[test]
fn mat_index_and_slice() {
    let a = grid();

    assert_eq!(a.get(0, 0), 1);
    assert_eq!(a.get(1, 2), 7);
    assert_eq!(a.get(3, 3), 16);

    assert_eq!(a.slice((1..3, 1..3)), Slice2d::new(&[[6, 7], [10, 11]]));
    assert_eq!(a.slice((1..=2, 1..=2)), Slice2d::new(&[[6, 7], [10, 11]]));
    assert_eq!(a.slice((1.., 1..)), Slice2d::new(&[[6, 7, 8], [10, 11, 12], [14, 15, 16]]));
    assert_eq!(a.slice((..3, ..3)), Slice2d::new(&[[1, 2, 3], [5, 6, 7], [9, 10, 11]]));
    assert_eq!(a.slice((.., ..)), Slice2d::new(&[[1, 2, 3, 4], [5, 6, 7, 8], [9, 10, 11, 12], [13, 14, 15, 16]]));

    let a = a.slice((1..3, 1..));
    let m = Mat([[6, 7, 8, 0], [10, 11, 12, 0]]);
    let b = m.slice((.., ..3));
    assert_eq!(a, b);

    assert_eq!(a.get(0, 0), 6);
    assert_eq!(a.get(1, 2), 12);

    assert_eq!(a.slice((1..2, 2..3)), b.slice((1..2, 2..3)));
    assert_eq!(a.slice((1..=1, 2..=2)), b.slice((1..=1, 2..=2)));
    assert_eq!(a.slice((1.., 2..)), b.slice((1.., 2..)));
    assert_eq!(a.slice((..2, ..3)), b.slice((..2, ..3)));
    assert_eq!(a.slice((.., ..)), b.slice((.., ..)));
}

#[test]
fn mat_index_mut() {
    let mut a = grid();

    *a.index_mut((0, 0)) += 100;
    *a.index_mut((1, 2)) += 100;
    *a.index_mut((3, 3)) += 100;
    assert_eq!(a.get(0, 0), 101);
    assert_eq!(a.get(1, 2), 107);
    assert_eq!(a.get(3, 3), 116);

    let mut a = a.as_slice2d_mut();
    let mut a = a.slice_mut((1..3, 1..));

    *a.index_mut((0, 0)) += 100;
    *a.index_mut((0, 1)) += 100;
    *a.index_mut((1, 2)) += 100;
    assert_eq!(a.get(0, 0), 106);
    assert_eq!(a.get(0, 1), 207);
    assert_eq!(a.get(1, 2), 112);
}

#[test]
fn mat_mat_add() {
    assert_eq!(Mat::<i32, 0, 0>([]).add(&Mat::<i32, 0, 0>([])), Mat::<i32, 0, 0>([]));
    assert_eq!(Mat([[1]]).add(&Mat([[2]])), Mat([[3]]));
    assert_eq!(
        Mat([[1, 2, 3], [4, 5, 6]]).add(&Mat([[7, 8, 9], [10, 11, 12]])),
        Mat([[8, 10, 12], [14, 16, 18]])
    );
    assert_eq!(grid().slice((..2, ..3)).add(grid().slice((2.., 1..))), Vec2d(vec![vec![11, 13, 15], vec![19, 21, 23]]));
}

#[test]
fn mat_add_overloading() {
    assert_eq!(Mat([[1]]).add(&Mat([[2]])), Mat([[3]]));
    assert_eq!((&Mat([[1]])).add(&Mat([[2]])), Mat([[3]]));
    assert_eq!(Mat([[1]]).add(&Mat([[2]])).add(&Mat([[3]])).add(&Mat([[4]])), Mat([[10]]));
    assert_eq!(Mat([[1]]).slice((.., ..)).add(&Mat([[2]])).add(&Mat([[3]])).add(&Mat([[4]])), Vec2d(vec![vec![10]]));
    let a = &mut Mat([[1]]);
    let b = &mut Mat([[2]]);
    assert_eq!((&*a).add(&*b), Mat([[3]]));
    assert_eq!(Mat([[i32::MAX]]).add(&Mat([[1]])), Mat([[i32::MIN]]));
}

#[test]
fn mat_add_assign() {
    let mut a = Mat::<i32, 0, 0>([]);
    a.add_assign(&Mat::<i32, 0, 0>([]));
    assert_eq!(a, Mat::<i32, 0, 0>([]));

    let mut a = Mat([[1]]);
    a.add_assign(&Mat([[2]]));
    assert_eq!(a, Mat([[3]]));

    let mut a = Mat([[1, 2, 3], [4, 5, 6]]);
    a.add_assign(&Mat([[7, 8, 9], [10, 11, 12]]));
    assert_eq!(a, Mat([[8, 10, 12], [14, 16, 18]]));

    let mut a = grid();
    let mut a = a.as_slice2d_mut();
    let mut a = a.slice_mut((..2, ..3));
    a.add_assign(grid().slice((2.., 1..)));
    assert_eq!(a, Slice2dMut::new(&mut [[11, 13, 15], [19, 21, 23]]));
}

#[test]
fn mat_add_assign_overloading() {
    let mut a = Mat([[1]]);
    a.add_assign(&Mat([[2]]));
    assert_eq!(a, Mat([[3]]));

    let a = &mut Mat([[1]]);
    a.add_assign(&Mat([[2]]));
    assert_eq!(a, &mut Mat([[3]]));

    let mut a = Mat([[1]]);
    a.add_assign(&Mat([[2]]).add(&Mat([[3]])).add(&Mat([[4]])));
    assert_eq!(a, Mat([[10]]));

    let mut a = Mat([[1]]);
    let mut a = a.as_slice2d_mut();
    let mut a = a.slice_mut((.., ..));
    a.add_assign(Mat([[2]]).add(&Mat([[3]])).add(&Mat([[4]])));
    assert_eq!(a, Slice2dMut::new(&mut [[10]]));
}

#[test]
fn mat_sub() {
    assert_eq!(Mat::<i32, 0, 0>([]).sub(&Mat::<i32, 0, 0>([])), Mat::<i32, 0, 0>([]));
    assert_eq!(Mat([[1]]).sub(&Mat([[2]])), Mat([[-1]]));
    assert_eq!(
        Mat([[1, 2, 3], [4, 5, 6]]).sub(&Mat([[7, 8, 9], [10, 11, 12]])),
        Mat([[-6, -6, -6], [-6, -6, -6]])
    );
    assert_eq!(grid().slice((..2, ..3)).sub(grid().slice((2.., 1..))), Vec2d(vec![vec![-9, -9, -9], vec![-9, -9, -9]]));
}

#[test]
fn mat_sub_overloading() {
    assert_eq!(Mat([[1]]).sub(&Mat([[2]])), Mat([[-1]]));
    assert_eq!((&Mat([[1]])).sub(&Mat([[2]])), Mat([[-1]]));
    assert_eq!(Mat([[1]]).sub(&Mat([[2]])).sub(&Mat([[3]])).sub(&Mat([[4]])), Mat([[-8]]));
    assert_eq!(Mat([[1]]).slice((.., ..)).sub(&Mat([[2]])).sub(&Mat([[3]])).sub(&Mat([[4]])), Vec2d(vec![vec![-8]]));
    let a = &mut Mat([[1]]);
    let b = &mut Mat([[2]]);
    assert_eq!((&*a).sub(&*b), Mat([[-1]]));
    assert_eq!(Mat([[i32::MIN]]).sub(&Mat([[1]])), Mat([[i32::MAX]]));
}

#[test]
fn mat_sub_assign() {
    let mut a = Mat::<i32, 0, 0>([]);
    a.sub_assign(&Mat::<i32, 0, 0>([]));
    assert_eq!(a, Mat::<i32, 0, 0>([]));

    let mut a = Mat([[1]]);
    a.sub_assign(&Mat([[2]]));
    assert_eq!(a, Mat([[-1]]));

    let mut a = Mat([[1, 2, 3], [4, 5, 6]]);
    a.sub_assign(&Mat([[7, 8, 9], [10, 11, 12]]));
    assert_eq!(a, Mat([[-6, -6, -6], [-6, -6, -6]]));

    let mut a = grid();
    let mut a = a.as_slice2d_mut();
    let mut a = a.slice_mut((..2, ..3));
    a.sub_assign(grid().slice((2.., 1..)));
    assert_eq!(a, Slice2dMut::new(&mut [[-9, -9, -9], [-9, -9, -9]]));
}

#[test]
fn mat_sub_assign_overloading() {
    let mut a = Mat([[1]]);
    a.sub_assign(&Mat([[2]]));
    assert_eq!(a, Mat([[-1]]));

    let a = &mut Mat([[1]]);
    a.sub_assign(&Mat([[2]]));
    assert_eq!(a, &mut Mat([[-1]]));

    let mut a = Mat([[1]]);
    a.sub_assign(&Mat([[2]]).sub(&Mat([[3]])).sub(&Mat([[4]])));
    assert_eq!(a, Mat([[6]]));

    let mut a = Mat([[1]]);
    let mut a = a.as_slice2d_mut();
    let mut a = a.slice_mut((.., ..));
    a.sub_assign(Mat([[2]]).sub(&Mat([[3]])).sub(&Mat([[4]])));
    assert_eq!(a, Slice2dMut::new(&mut [[6]]));
}

#[test]
fn mat_to_vec2d_and_slice_scenario() {
    let a = grid();
    assert_eq!(a.to_vec2d(), Vec2d(vec![vec![1, 2, 3, 4], vec![5, 6, 7, 8], vec![9, 10, 11, 12], vec![13, 14, 15, 16]]));
    let v = a.slice((1..3, 1..));
    assert_eq!(v.shape(), (2, 3));
    assert_eq!(v.get(0, 0), a.get(1, 1));
    let w = v.slice((1.., 1..));
    assert_eq!(w.get(0, 0), a.get(2, 2));
    assert_eq!(w.get(0, 1), v.get(1, 2));
}

#[test]
fn sum_then_difference_restores() {
    let x = grid();
    let y = Mat([[i32::MAX, -3, 0, 9], [1, 1, 1, 1], [i32::MIN, 5, 5, 5], [2, 4, 6, 8]]);
    assert_eq!(x.add(&y).sub(&y), x);
    let xs = x.slice((.., ..));
    assert_eq!(xs.add(&y).sub(&y), x.to_vec2d());
}
