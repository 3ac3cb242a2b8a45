use clrs::utils::is_power_of_two;
use clrs::utils::ops::{IntoRange, Len};

#[test]
fn is_power_of_two_test() {
    let cases = [
        (0, false),
        (1, true),
        (2, true),
        (3, false),
        (4, true),
        (5, false),
        (6, false),
        (7, false),
        (8, true),
        (9, false),
        (10, false),
    ];

    for (n, expected) in cases {
        assert_eq!(is_power_of_two(n), expected);
    }
    assert!(is_power_of_two(1 << 63));
    assert!(!is_power_of_two(usize::MAX));
}

fn range_eq<L: IntoRange, R: IntoRange>(left: L, right: R) -> bool {
    left.into_range(0..10) == right.into_range(0..10)
}

#[test]
fn into_range() {
    assert!(range_eq(1..5, 1..5), "1..5 is not equal to 1..5");
    assert!(range_eq(1..=5, 1..6), "1..=5 is not equal to 1..6");
    assert!(range_eq(1.., 1..10), "1.. is not equal to 1..10");
    assert!(range_eq(..5, 0..5), "..5 is not equal to 0..5");
    assert!(range_eq(.., 0..10), ".. is not equal to 0..10");
}

fn longer<T: Len, U: Len>(a: T, b: U) -> usize {
    if a.len() > b.len() {
        a.len()
    } else {
        b.len()
    }
}

#[test]
fn len() {
    let mut a = [1];
    let mut b = [1, 2];
    assert_eq!(longer(&a, &b), 2);
    assert_eq!(longer(&mut a, &mut b), 2);
    assert_eq!(longer(a, b), 2);

    let mut a = vec![1];
    let mut b = vec![1, 2];
    assert_eq!(longer(&a, &b), 2);
    assert_eq!(longer(&mut a, &mut b), 2);
    assert_eq!(longer(a, b), 2);

    let mut a = &[1][..];
    let mut b = &[1, 2][..];
    assert_eq!(longer(&a, &b), 2);
    assert_eq!(longer(&mut a, &mut b), 2);
    assert_eq!(longer(a, b), 2);

    let mut a = &mut [1][..];
    let mut b = &mut [1, 2][..];
    assert_eq!(longer(&a, &b), 2);
    assert_eq!(longer(&mut a, &mut b), 2);
    assert_eq!(longer(a, b), 2);
}
