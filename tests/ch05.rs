use clrs::ch05::{
    hire_assistant, online_maximum_aux, random_sample, randomized_hire_assistant, randomly_permute,
};
use std::collections::HashSet;

#[test]
fn hire_assistant_test() {
    let cases = [
        ([1, 2, 3, 4, 5, 6, 7, 8, 9, 10], vec![0, 1, 2, 3, 4, 5, 6, 7, 8, 9]),
        ([10, 9, 8, 7, 6, 5, 4, 3, 2, 1], vec![0]),
        ([5, 2, 1, 8, 4, 7, 10, 9, 3, 6], vec![0, 3, 6]),
    ];

    for (ranks, expected) in cases.iter() {
        assert_eq!(&hire_assistant(ranks), expected);
    }
}

#[test]
fn hire_assistant_skips_rank_zero_and_empty() {
    assert_eq!(hire_assistant(&[]), Vec::<usize>::new());
    assert_eq!(hire_assistant(&[0, 0, 3, 3]), vec![2]);
}

#[test]
fn online_maximum_test() {
    let cases = [
        ([1, 2, 3, 4, 5, 6, 7, 8, 9, 10], 3),
        ([10, 9, 8, 7, 6, 5, 4, 3, 2, 1], 9),
        ([5, 2, 1, 8, 4, 7, 10, 9, 3, 6], 3),
        ([5, 2, 9, 8, 4, 7, 10, 1, 3, 6], 6),
    ];

    for (scores, expected) in cases.iter() {
        let k = (scores.len() as f64 / std::f64::consts::E) as usize;
        assert_eq!(online_maximum_aux(k, scores), *expected);
    }
}

#[test]
fn online_maximum_aux_edges() {
    assert_eq!(online_maximum_aux(0, &[4, 1]), 0);
    assert_eq!(online_maximum_aux(2, &[4, 1]), 1);
    assert_eq!(online_maximum_aux(1, &[4, 1, 5]), 2);
}

#[test]
fn randomized_hire_assistant_test() {
    for _ in 0..3 {
        let mut ranks = [1, 2, 3, 4, 5, 6, 7, 8, 9, 10];
        let hired = randomized_hire_assistant(&mut ranks);
        println!("# randomized_hire_assistant_test: ranks: {ranks:?}, hired: {hired:?}");
        let mut sorted = ranks;
        sorted.sort();
        assert_eq!(sorted, [1, 2, 3, 4, 5, 6, 7, 8, 9, 10]);
        assert_eq!(hired, hire_assistant(&ranks));
    }
}

#[test]
fn randomly_permute_test() {
    for _ in 0..3 {
        let mut a: Vec<i32> = (1..=5).collect();
        randomly_permute(&mut a);
        println!("# randomly_permute_test: {a:?}");
        let mut b = a.clone();
        b.sort();
        assert_eq!(b, vec![1, 2, 3, 4, 5]);
    }
}

#[test]
fn random_sample_test() {
    let cases = [(0, 10), (1, 10), (5, 10), (10, 10)];

    for (m, n) in cases {
        let population: HashSet<usize> = (1..=n).collect();
        let sample = random_sample(m, n);
        assert_eq!(sample.len(), m);
        assert!(sample.is_subset(&population), "assertion failed: {sample:?} is not subset of {population:?}");
    }
}
