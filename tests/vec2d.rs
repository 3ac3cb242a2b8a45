use clrs::utils::matrix::{Shape, Slice2d, Slice2dMut, Vec2d};

fn grid() -> Vec2d<i32> {
    Vec2d(vec![vec![1, 2, 3, 4], vec![5, 6, 7, 8], vec![9, 10, 11, 12], vec![13, 14, 15, 16]])
}

#[test]
fn vec2d_debug() {
    assert_eq!(format!("{:?}", Vec2d::<i32>(vec![])), String::from("Vec2d([])"));
    assert_eq!(format!("{:?}", Vec2d(vec![vec![1]])), String::from("Vec2d([[1]])"));
    let mut a = Vec2d(vec![vec![1, 2], vec![3, 4]]);
    assert_eq!(format!("{:?}", a), String::from("Vec2d([[1, 2], [3, 4]])"));
    assert_eq!(format!("{:?}", &a), String::from("Vec2d([[1, 2], [3, 4]])"));
    assert_eq!(format!("{:?}", &mut a), String::from("Vec2d([[1, 2], [3, 4]])"));
}

#[test]
fn vec2d_partial_eq() {
    assert_eq!(Vec2d(vec![vec![1]]), Vec2d(vec![vec![1]]));
    assert_eq!(&Vec2d(vec![vec![1]]), &Vec2d(vec![vec![1]]));
    assert_eq!(&Vec2d(vec![vec![1]]), &mut Vec2d(vec![vec![1]]));
    assert_eq!(&mut Vec2d(vec![vec![1]]), &Vec2d(vec![vec![1]]));
    assert_eq!(&mut Vec2d(vec![vec![1]]), &mut Vec2d(vec![vec![1]]));
}

#[test]
fn vec2d_index_and_slice() {
    let a = grid();

    assert_eq!(a.get(0, 0), 1);
    assert_eq!(a.get(1, 2), 7);
    assert_eq!(a.get(3, 3), 16);

    assert_eq!(a.slice((1..3, 1..3)), Slice2d::new(&[[6, 7], [10, 11]]));
    assert_eq!(a.slice((1..=2, 1..=2)), Slice2d::new(&[[6, 7], [10, 11]]));
    assert_eq!(a.slice((1.., 1..)), Slice2d::new(&[[6, 7, 8], [10, 11, 12], [14, 15, 16]]));
    assert_eq!(a.slice((..3, ..3)), Slice2d::new(&[[1, 2, 3], [5, 6, 7], [9, 10, 11]]));
    assert_eq!(a.slice((.., ..)), Slice2d::new(&[[1, 2, 3, 4], [5, 6, 7, 8], [9, 10, 11, 12], [13, 14, 15, 16]]));

    let a = a.slice((1..3, 1..));
    let b = Vec2d(vec![vec![6, 7, 8, 0], vec![10, 11, 12, 0]]);
    let b = b.slice((.., ..3));
    assert_eq!(a, b);

    assert_eq!(a.get(0, 0), 6);
    assert_eq!(a.get(1, 2), 12);

    assert_eq!(a.slice((1..2, 2..3)), b.slice((1..2, 2..3)));
    assert_eq!(a.slice((1..=1, 2..=2)), b.slice((1..=1, 2..=2)));
    assert_eq!(a.slice((1.., 2..)), b.slice((1.., 2..)));
    assert_eq!(a.slice((..2, ..3)), b.slice((..2, ..3)));
    assert_eq!(a.slice((.., ..)), b.slice((.., ..)));
}

#[test]
fn vec2d_index_mut() {
    let mut a = grid();

    *a.index_mut((0, 0)) += 100;
    *a.index_mut((1, 2)) += 100;
    *a.index_mut((3, 3)) += 100;
    assert_eq!(a.get(0, 0), 101);
    assert_eq!(a.get(1, 2), 107);
    assert_eq!(a.get(3, 3), 116);

    let mut a = a.as_slice2d_mut();
    let mut a = a.slice_mut((1..3, 1..));

    *a.index_mut((0, 0)) += 100;
    *a.index_mut((0, 1)) += 100;
    *a.index_mut((1, 2)) += 100;
    assert_eq!(a.get(0, 0), 106);
    assert_eq!(a.get(0, 1), 207);
    assert_eq!(a.get(1, 2), 112);
}

#[test]
fn vec2d_add() {
    assert_eq!(Vec2d::<i32>(vec![]).add(Vec2d::<i32>(vec![])), Vec2d::<i32>(vec![]));
    assert_eq!(Vec2d(vec![vec![1]]).add(Vec2d(vec![vec![2]])), Vec2d(vec![vec![3]]));
    assert_eq!(
        Vec2d(vec![vec![1, 2, 3], vec![4, 5, 6]]).add(Vec2d(vec![vec![7, 8, 9], vec![10, 11, 12]])),
        Vec2d(vec![vec![8, 10, 12], vec![14, 16, 18]])
    );
    assert_eq!(grid().slice((..2, ..3)).add(grid().slice((2.., 1..))), Vec2d(vec![vec![11, 13, 15], vec![19, 21, 23]]));
}

#[test]
fn vec2d_add_overloading() {
    assert_eq!(Vec2d(vec![vec![1]]).add(Vec2d(vec![vec![2]])), Vec2d(vec![vec![3]]));
    assert_eq!(Vec2d(vec![vec![1]]).add(&Vec2d(vec![vec![2]])), Vec2d(vec![vec![3]]));
    assert_eq!((&Vec2d(vec![vec![1]])).add(Vec2d(vec![vec![2]])), Vec2d(vec![vec![3]]));
    assert_eq!(
        Vec2d(vec![vec![1]]).add(&Vec2d(vec![vec![2]])).add(&Vec2d(vec![vec![3]])).add(&Vec2d(vec![vec![4]])),
        Vec2d(vec![vec![10]])
    );
    let a = &mut Vec2d(vec![vec![1]]);
    let b = &mut Vec2d(vec![vec![2]]);
    assert_eq!((&*a).add(&*b), Vec2d(vec![vec![3]]));
}

#[test]
fn vec2d_add_assign() {
    let mut a = Vec2d::<i32>(vec![]);
    a.add_assign(Vec2d::<i32>(vec![]));
    assert_eq!(a, Vec2d::<i32>(vec![]));

    let mut a = Vec2d(vec![vec![1]]);
    a.add_assign(Vec2d(vec![vec![2]]));
    assert_eq!(a, Vec2d(vec![vec![3]]));

    let mut a = Vec2d(vec![vec![1, 2, 3], vec![4, 5, 6]]);
    a.add_assign(Vec2d(vec![vec![7, 8, 9], vec![10, 11, 12]]));
    assert_eq!(a, Vec2d(vec![vec![8, 10, 12], vec![14, 16, 18]]));

    let mut a = grid();
    let mut a = a.as_slice2d_mut();
    let mut a = a.slice_mut((..2, ..3));
    a.add_assign(grid().slice((2.., 1..)));
    assert_eq!(a, Slice2dMut::new(&mut [[11, 13, 15], [19, 21, 23]]));
}

#[test]
fn vec2d_add_assign_overloading() {
    let mut a = Vec2d(vec![vec![1]]);
    a.add_assign(Vec2d(vec![vec![2]]));
    assert_eq!(a, Vec2d(vec![vec![3]]));

    let mut a = Vec2d(vec![vec![1]]);
    a.add_assign(&Vec2d(vec![vec![2]]));
    assert_eq!(a, Vec2d(vec![vec![3]]));

    let mut a = Vec2d(vec![vec![1]]);
    a.add_assign(Vec2d(vec![vec![2]]).add(&Vec2d(vec![vec![3]])).add(&Vec2d(vec![vec![4]])));
    assert_eq!(a, Vec2d(vec![vec![10]]));

    let mut a = Vec2d(vec![vec![1]]);
    let mut a = a.as_slice2d_mut();
    let mut a = a.slice_mut((.., ..));
    a.add_assign(Vec2d(vec![vec![2]]).add(&Vec2d(vec![vec![3]])).add(&Vec2d(vec![vec![4]])));
    assert_eq!(a, Slice2dMut::new(&mut [[10]]));
}

#[test]
fn vec2d_sub() {
    assert_eq!(Vec2d::<i32>(vec![]).sub(Vec2d::<i32>(vec![])), Vec2d::<i32>(vec![]));
    assert_eq!(Vec2d(vec![vec![1]]).sub(Vec2d(vec![vec![2]])), Vec2d(vec![vec![-1]]));
    assert_eq!(
        Vec2d(vec![vec![1, 2, 3], vec![4, 5, 6]]).sub(Vec2d(vec![vec![7, 8, 9], vec![10, 11, 12]])),
        Vec2d(vec![vec![-6, -6, -6], vec![-6, -6, -6]])
    );
    assert_eq!(grid().slice((..2, ..3)).sub(grid().slice((2.., 1..))), Vec2d(vec![vec![-9, -9, -9], vec![-9, -9, -9]]));
}

#[test]
fn vec2d_sub_overloading() {
    assert_eq!(Vec2d(vec![vec![1]]).sub(Vec2d(vec![vec![2]])), Vec2d(vec![vec![-1]]));
    assert_eq!(Vec2d(vec![vec![1]]).sub(&Vec2d(vec![vec![2]])), Vec2d(vec![vec![-1]]));
    assert_eq!((&Vec2d(vec![vec![1]])).sub(Vec2d(vec![vec![2]])), Vec2d(vec![vec![-1]]));
    assert_eq!(
        Vec2d(vec![vec![1]]).sub(&Vec2d(vec![vec![2]])).sub(&Vec2d(vec![vec![3]])).sub(&Vec2d(vec![vec![4]])),
        Vec2d(vec![vec![-8]])
    );
    let a = &mut Vec2d(vec![vec![1]]);
    let b = &mut Vec2d(vec![vec![2]]);
    assert_eq!((&*a).sub(&*b), Vec2d(vec![vec![-1]]));
}

#[test]
fn vec2d_sub_assign() {
    let mut a = Vec2d::<i32>(vec![]);
    a.sub_assign(Vec2d::<i32>(vec![]));
    assert_eq!(a, Vec2d::<i32>(vec![]));

    let mut a = Vec2d(vec![vec![1]]);
    a.sub_assign(Vec2d(vec![vec![2]]));
    assert_eq!(a, Vec2d(vec![vec![-1]]));

    let mut a = Vec2d(vec![vec![1, 2, 3], vec![4, 5, 6]]);
    a.sub_assign(Vec2d(vec![vec![7, 8, 9], vec![10, 11, 12]]));
    assert_eq!(a, Vec2d(vec![vec![-6, -6, -6], vec![-6, -6, -6]]));

    let mut a = grid();
    let mut a = a.as_slice2d_mut();
    let mut a = a.slice_mut((..2, ..3));
    a.sub_assign(grid().slice((2.., 1..)));
    assert_eq!(a, Slice2dMut::new(&mut [[-9, -9, -9], [-9, -9, -9]]));
}

#[test]
fn vec2d_sub_assign_overloading() {
    let mut a = Vec2d(vec![vec![1]]);
    a.sub_assign(Vec2d(vec![vec![2]]));
    assert_eq!(a, Vec2d(vec![vec![-1]]));

    let mut a = Vec2d(vec![vec![1]]);
    a.sub_assign(&Vec2d(vec![vec![2]]));
    assert_eq!(a, Vec2d(vec![vec![-1]]));

    let mut a = Vec2d(vec![vec![1]]);
    a.sub_assign(Vec2d(vec![vec![2]]).sub(&Vec2d(vec![vec![3]])).sub(&Vec2d(vec![vec![4]])));
    assert_eq!(a, Vec2d(vec![vec![6]]));

    let mut a = Vec2d(vec![vec![1]]);
    let mut a = a.as_slice2d_mut();
    let mut a = a.slice_mut((.., ..));
    a.sub_assign(Vec2d(vec![vec![2]]).sub(&Vec2d(vec![vec![3]])).sub(&Vec2d(vec![vec![4]])));
    assert_eq!(a, Slice2dMut::new(&mut [[6]]));
}

#[test]
fn vec2d_defaults_shape() {
    let z = Vec2d::defaults((2, 3));
    assert_eq!(z, Vec2d(vec![vec![0, 0, 0], vec![0, 0, 0]]));
    assert_eq!(z.shape(), (2, 3));
    assert_eq!(Vec2d::defaults((0, 5)), Vec2d::<i32>(vec![]));
}
