use clrs::utils::matrix::{Shape, Slice2d, Vec2d};

const GRID: [[i32; 4]; 4] = [[1, 2, 3, 4], [5, 6, 7, 8], [9, 10, 11, 12], [13, 14, 15, 16]];

#[test]
fn slice2d_partial_eq() {
    assert_eq!(Slice2d::new(&[[1]]), Slice2d::new(&[[1]]));
    assert_eq!(&Slice2d::new(&[[1]]), &Slice2d::new(&[[1]]));
    assert_eq!(&Slice2d::new(&[[1]]), &mut Slice2d::new(&[[1]]));
    assert_eq!(&mut Slice2d::new(&[[1]]), &Slice2d::new(&[[1]]));
    assert_eq!(&mut Slice2d::new(&[[1]]), &mut Slice2d::new(&[[1]]));
    assert_ne!(Slice2d::new(&[[1]]), Slice2d::new(&[[2]]));
    assert_ne!(Slice2d::new(&[[1, 2]]), Slice2d::new(&[[1], [2]]));
}

#[test]
fn slice2d_index_and_slice() {
    let a = Slice2d::new(&GRID);

    assert_eq!(a.get(0, 0), 1);
    assert_eq!(a.get(1, 2), 7);
    assert_eq!(a.get(3, 3), 16);

    assert_eq!(a.slice((1..3, 1..3)), Slice2d::new(&[[6, 7], [10, 11]]));
    assert_eq!(a.slice((1..=2, 1..=2)), Slice2d::new(&[[6, 7], [10, 11]]));
    assert_eq!(a.slice((1.., 1..)), Slice2d::new(&[[6, 7, 8], [10, 11, 12], [14, 15, 16]]));
    assert_eq!(a.slice((..3, ..3)), Slice2d::new(&[[1, 2, 3], [5, 6, 7], [9, 10, 11]]));
    assert_eq!(a.slice((.., ..)), Slice2d::new(&[[1, 2, 3, 4], [5, 6, 7, 8], [9, 10, 11, 12], [13, 14, 15, 16]]));

    let a = a.slice((1..3, 1..));
    let b = Slice2d::new(&[[6, 7, 8, 0], [10, 11, 12, 0]]).slice((.., ..3));
    assert_eq!(a, b);

    assert_eq!(a.get(0, 0), 6);
    assert_eq!(a.get(1, 2), 12);

    assert_eq!(a.slice((1..2, 2..3)), b.slice((1..2, 2..3)));
    assert_eq!(a.slice((1..=1, 2..=2)), b.slice((1..=1, 2..=2)));
    assert_eq!(a.slice((1.., 2..)), b.slice((1.., 2..)));
    assert_eq!(a.slice((..2, ..3)), b.slice((..2, ..3)));
    assert_eq!(a.slice((.., ..)), b.slice((.., ..)));
}

#[test]
fn slice2d_add() {
    assert_eq!(Slice2d::<[i32; 0]>::new(&[]).add(Slice2d::<[i32; 0]>::new(&[])), Vec2d::<i32>(vec![]));
    assert_eq!(Slice2d::new(&[[1]]).add(Slice2d::new(&[[2]])), Vec2d(vec![vec![3]]));
    assert_eq!(
        Slice2d::new(&[[1, 2, 3], [4, 5, 6]]).add(Slice2d::new(&[[7, 8, 9], [10, 11, 12]])),
        Vec2d(vec![vec![8, 10, 12], vec![14, 16, 18]])
    );
    assert_eq!(
        Slice2d::new(&GRID).slice((..2, ..3)).add(Slice2d::new(&GRID).slice((2.., 1..))),
        Vec2d(vec![vec![11, 13, 15], vec![19, 21, 23]])
    );
}

#[test]
fn slice2d_add_overloading() {
    assert_eq!(Slice2d::new(&[[1]]).add(Slice2d::new(&[[2]])), Vec2d(vec![vec![3]]));
    assert_eq!(Slice2d::new(&[[1]]).add(&Slice2d::new(&[[2]])), Vec2d(vec![vec![3]]));
    assert_eq!((&Slice2d::new(&[[1]])).add(Slice2d::new(&[[2]])), Vec2d(vec![vec![3]]));
    assert_eq!(
        Slice2d::new(&[[1]]).add(&Slice2d::new(&[[2]])).add(&Slice2d::new(&[[3]])).add(&Slice2d::new(&[[4]])),
        Vec2d(vec![vec![10]])
    );
    let a = &mut Slice2d::new(&[[1]]);
    let b = &mut Slice2d::new(&[[2]]);
    assert_eq!((&*a).add(&*b), Vec2d(vec![vec![3]]));
}

#[test]
fn slice2d_sub() {
    assert_eq!(Slice2d::<[i32; 0]>::new(&[]).sub(Slice2d::<[i32; 0]>::new(&[])), Vec2d::<i32>(vec![]));
    assert_eq!(Slice2d::new(&[[1]]).sub(Slice2d::new(&[[2]])), Vec2d(vec![vec![-1]]));
    assert_eq!((&Slice2d::new(&[[1]])).sub(&Slice2d::new(&[[2]])), Vec2d(vec![vec![-1]]));
    assert_eq!(
        Slice2d::new(&[[1, 2, 3], [4, 5, 6]]).sub(Slice2d::new(&[[7, 8, 9], [10, 11, 12]])),
        Vec2d(vec![vec![-6, -6, -6], vec![-6, -6, -6]])
    );
    assert_eq!(
        Slice2d::new(&GRID).slice((..2, ..3)).sub(Slice2d::new(&GRID).slice((2.., 1..))),
        Vec2d(vec![vec![-9, -9, -9], vec![-9, -9, -9]])
    );
}

#[test]
fn slice2d_sub_overloading() {
    assert_eq!(Slice2d::new(&[[1]]).sub(Slice2d::new(&[[2]])), Vec2d(vec![vec![-1]]));
    assert_eq!(Slice2d::new(&[[1]]).sub(&Slice2d::new(&[[2]])), Vec2d(vec![vec![-1]]));
    assert_eq!((&Slice2d::new(&[[1]])).sub(Slice2d::new(&[[2]])), Vec2d(vec![vec![-1]]));
    assert_eq!(
        Slice2d::new(&[[1]]).sub(&Slice2d::new(&[[2]])).sub(&Slice2d::new(&[[3]])).sub(&Slice2d::new(&[[4]])),
        Vec2d(vec![vec![-8]])
    );
    let a = &mut Slice2d::new(&[[1]]);
    let b = &mut Slice2d::new(&[[2]]);
    assert_eq!((&*a).sub(&*b), Vec2d(vec![vec![-1]]));
}

#[test]
fn slice2d_to_vec2d_and_validity() {
    let a = Slice2d::new(&GRID).slice((1..3, 2..));
    assert_eq!(a.to_vec2d(), Vec2d(vec![vec![7, 8], vec![11, 12]]));
    assert!(a.is_valid());
    assert!(a.equals(&Vec2d(vec![vec![7, 8], vec![11, 12]])));
    assert!(!a.equals(&Vec2d(vec![vec![7, 8]])));
}
