use leafs::permutation::{compute_transpositions, transpose};

#[test]
fn transpose_turns_rows_into_columns() {
    let v = vec![vec![0usize, 1, 2], vec![3, 4, 5]];
    assert_eq!(transpose(v), vec![vec![0, 3], vec![1, 4], vec![2, 5]]);
}

#[test]
fn transpose_keeps_the_first_row_length() {
    let v = vec![vec![1usize, 2], vec![3, 4, 5]];
    assert_eq!(transpose(v), vec![vec![1, 3], vec![2, 4]]);
    let v: Vec<Vec<usize>> = vec![vec![]];
    assert!(transpose(v).is_empty());
}

fn apply(n: usize, swaps: &[(usize, usize)]) -> Vec<usize> {
    let mut a: Vec<usize> = (0..n).collect();
    for (x, y) in swaps {
        a.swap(*x, *y);
    }
    a
}

#[test]
fn transpositions_of_a_cycle() {
    assert_eq!(compute_transpositions(vec![1, 2, 0]), vec![(0, 1), (1, 2)]);
}

#[test]
fn transpositions_of_identity_are_empty() {
    assert!(compute_transpositions(vec![0, 1, 2, 3]).is_empty());
    assert!(compute_transpositions(vec![]).is_empty());
}

#[test]
fn transpositions_rebuild_the_permutation() {
    let p = vec![3, 0, 4, 1, 2, 6, 5];
    let t = compute_transpositions(p.clone());
    assert_eq!(t, vec![(0, 3), (3, 1), (2, 4), (5, 6)]);
    assert_eq!(apply(p.len(), &t), p);
}

#[test]
fn transpositions_cycle_by_cycle() {
    assert_eq!(compute_transpositions(vec![1, 2, 0, 3]), vec![(0, 1), (1, 2)]);
    assert_eq!(compute_transpositions(vec![1, 0]), vec![(0, 1)]);
    assert!(compute_transpositions(vec![0, 1, 2]).is_empty());
}
