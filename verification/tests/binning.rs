use gbtree::binning::bin_continuous;
use gbtree::binning::bin_matrix;
use gbtree::binning::bin_row;
use gbtree::binning::compute_bin_edges;

#[test]
fn edges_of_four_values_four_bins() {
    let values: Vec<u64> = vec![1, 2, 3, 4];
    let edges = compute_bin_edges(&values, 4);
    assert_eq!(edges, vec![2, 3, 4]);
}

#[test]
fn edges_sort_the_sample_first() {
    let values: Vec<u64> = vec![3, 1, 4, 2];
    let edges = compute_bin_edges(&values, 4);
    assert_eq!(edges, vec![2, 3, 4]);
}

#[test]
fn edges_nondecreasing_and_bounded_len() {
    // More bins than samples: length is still num_bins - 1, non-decreasing.
    let values: Vec<u64> = vec![10, 30, 20, 40];
    let num_bins = 8;
    let edges = compute_bin_edges(&values, num_bins);
    assert!(edges.len() <= num_bins - 1);
    for w in edges.windows(2) {
        assert!(w[0] <= w[1]);
    }
    assert_eq!(edges, vec![10, 20, 20, 30, 30, 40, 40]);
}

#[test]
fn edges_empty_sample_or_zero_bins() {
    let none: Vec<u64> = vec![];
    assert_eq!(compute_bin_edges(&none, 4), Vec::<u64>::new());
    let values: Vec<u64> = vec![1, 2, 3];
    assert_eq!(compute_bin_edges(&values, 0), Vec::<u64>::new());
}

#[test]
fn edges_with_duplicates_are_kept() {
    let values: Vec<u64> = vec![5, 5, 5, 5];
    assert_eq!(compute_bin_edges(&values, 4), vec![5, 5, 5]);
}

#[test]
fn bin_continuous_first_edge_at_least_value() {
    let edges: Vec<u64> = vec![2, 3, 4];
    assert_eq!(bin_continuous(1, &edges), 0);
    assert_eq!(bin_continuous(2, &edges), 0);
    assert_eq!(bin_continuous(3, &edges), 1);
    assert_eq!(bin_continuous(4, &edges), 2);
    assert_eq!(bin_continuous(5, &edges), 3);
}

#[test]
fn bin_continuous_no_edges_clamps_to_zero() {
    let edges: Vec<u64> = vec![];
    assert_eq!(bin_continuous(7, &edges), 0);
}

#[test]
fn bin_continuous_overflow_bin_is_capped_at_254() {
    let edges: Vec<u64> = (0..255u64).collect();
    assert_eq!(bin_continuous(1000, &edges), 254);
}

#[test]
fn bin_continuous_is_monotonic() {
    let edges: Vec<u64> = vec![4, 4, 9, 17];
    let probes: Vec<u64> = vec![0, 3, 4, 5, 8, 9, 10, 16, 17, 18, 100];
    for &a in &probes {
        for &b in &probes {
            if a <= b {
                assert!(bin_continuous(a, &edges) <= bin_continuous(b, &edges));
            }
        }
    }
}

#[test]
fn bin_row_and_matrix_apply_column_edges() {
    let col0: Vec<u64> = vec![2, 3, 4];
    let col1: Vec<u64> = vec![10];
    let edges = vec![col0, col1];
    let row: Vec<u64> = vec![3, 11];
    assert_eq!(bin_row(&row, &edges), vec![1, 1]);
    let matrix: Vec<Vec<u64>> = vec![vec![1, 10], vec![5, 11]];
    let binned = bin_matrix(&matrix, &edges);
    assert_eq!(binned, vec![vec![0, 0], vec![3, 1]]);
}
