use clrs::ch02::{bubble_sort, insertion_sort, merge_sort};

fn sort_i32(sort: fn(&mut [i32])) {
    let cases: [(&mut [i32], &[i32]); 7] = [
        (&mut [], &[]),
        (&mut [1], &[1]),
        (&mut [1, 2, 3, 4, 5, 6], &[1, 2, 3, 4, 5, 6]),
        (&mut [6, 5, 4, 3, 2, 1], &[1, 2, 3, 4, 5, 6]),
        (&mut [5, 2, 4, 6, 1, 3], &[1, 2, 3, 4, 5, 6]),
        (&mut [-3, 5, 4, -1, 2, 2, -6], &[-6, -3, -1, 2, 2, 4, 5]),
        (&mut [7, 2, 4, 5, 8, 3, 6, 1], &[1, 2, 3, 4, 5, 6, 7, 8]),
    ];
    for (a, expected) in cases {
        sort(a);
        assert_eq!(a, expected);
    }
}

fn sort_extremes(sort: fn(&mut [i32])) {
    let mut a = [i32::MAX, 0, i32::MIN, i32::MAX, -1, i32::MIN];
    sort(&mut a);
    assert_eq!(a, [i32::MIN, i32::MIN, -1, 0, i32::MAX, i32::MAX]);
    let mut b = [7, 7, 7, 7];
    sort(&mut b);
    assert_eq!(b, [7, 7, 7, 7]);
}

#[test]
fn bubble_sort_test() {
    sort_i32(bubble_sort);
}

#[test]
fn insertion_sort_insertion_sort_test() {
    sort_i32(insertion_sort);
}

#[test]
fn merge_sort_merge_sort_test() {
    sort_i32(merge_sort);
}

#[test]
fn sort_insertion_sort_test() {
    let mut arr = [5, 2, 4, 6, 1, 3];
    clrs::sort::insertion_sort(&mut arr);
    assert_eq!(arr, [1, 2, 3, 4, 5, 6]);
}

#[test]
fn sorts_handle_extremes_and_duplicates() {
    sort_extremes(bubble_sort);
    sort_extremes(insertion_sort);
    sort_extremes(merge_sort);
}
