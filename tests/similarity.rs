use essentia_rust::{mutual_threshold_mask, transpositions, ChromaCrossSimilarity, ChromaError};

fn settings(oti_binary: bool, size: usize, stride: usize, noti: u32, oti: bool) -> ChromaCrossSimilarity<f64> {
    ChromaCrossSimilarity::with_settings(oti_binary, size, stride, noti, oti, 0.095, 1.0, 0.0)
}

fn dot(a: &[f64], b: &[f64]) -> f64 {
    a.iter().zip(b).map(|(x, y)| x * y).sum()
}

fn best_shift(q: &[f64], r: &Vec<f64>, noti: usize) -> u32 {
    let scores: Vec<f64> = transpositions(r, noti).iter().map(|c| dot(c, q)).collect();
    let mut best = 0;
    for (k, s) in scores.iter().enumerate() {
        if *s > scores[best] {
            best = k;
        }
    }
    best as u32
}

#[test]
fn settings_are_kept() {
    let s = ChromaCrossSimilarity::with_settings(true, 3, 2, 12, false, 0.2, 5.0, -1.0);
    assert!(s.oti_binary && !s.oti);
    assert_eq!((s.frame_stack_size, s.frame_stack_stride, s.noti), (3, 2, 12));
    assert_eq!((s.binarize_percentile, s.match_coefficient, s.mismatch_coefficient), (0.2, 5.0, -1.0));
}

#[test]
fn zero_parameters_are_refused() {
    assert_eq!(settings(false, 0, 1, 12, true).check_config(), Err(ChromaError::InvalidConfiguration));
    assert_eq!(settings(false, 1, 0, 12, true).check_config(), Err(ChromaError::InvalidConfiguration));
    assert_eq!(settings(false, 1, 1, 0, true).check_config(), Err(ChromaError::InvalidConfiguration));
    assert_eq!(settings(false, 1, 1, 12, true).check_config(), Ok(()));
}

#[test]
fn inputs_are_checked_in_order() {
    let good = vec![vec![0.0, 1.0], vec![2.0, 3.0]];
    let empty: Vec<Vec<f64>> = Vec::new();
    let ragged = vec![vec![0.0, 1.0], vec![2.0]];
    let wide = vec![vec![0.0, 1.0, 2.0]];
    let s = settings(false, 1, 1, 12, true);
    assert_eq!(settings(false, 1, 1, 0, true).check_inputs(&empty, &ragged), Err(ChromaError::InvalidConfiguration));
    assert_eq!(s.check_inputs(&good, &empty), Err(ChromaError::EmptyInput));
    assert_eq!(s.check_inputs(&empty, &ragged), Err(ChromaError::EmptyInput));
    assert_eq!(s.check_inputs(&ragged, &good), Err(ChromaError::InvalidDimensions));
    assert_eq!(s.check_inputs(&good, &wide), Err(ChromaError::InvalidDimensions));
    assert_eq!(s.check_inputs(&good, &good), Ok(2));
}

#[test]
fn thresholded_mode_aligns_reference_before_stacking() {
    let q = vec![vec![1.0, 2.0, 3.0], vec![4.0, 5.0, 6.0]];
    let r = vec![vec![1.0, 2.0, 3.0], vec![4.0, 5.0, 6.0]];
    let (a, b) = settings(false, 1, 1, 12, true).aligned_stacks(q.clone(), r.clone(), 1);
    assert_eq!(a, q);
    assert_eq!(b, vec![vec![3.0, 1.0, 2.0], vec![6.0, 4.0, 5.0]]);
    let (_, c) = settings(false, 1, 1, 12, false).aligned_stacks(q.clone(), r.clone(), 1);
    assert_eq!(c, r);
}

#[test]
fn binary_mode_never_rotates_reference() {
    let q = vec![vec![1.0, 2.0], vec![3.0, 4.0], vec![5.0, 6.0], vec![7.0, 8.0]];
    let (a, b) = settings(true, 2, 1, 12, true).aligned_stacks(q.clone(), q.clone(), 1);
    assert_eq!(a, vec![vec![1.0, 2.0, 3.0, 4.0, 5.0, 6.0]]);
    assert_eq!(b, a);
}

#[test]
fn binary_vote_matches_on_small_shifts() {
    let s = ChromaCrossSimilarity::with_settings(true, 1, 1, 12, true, 0.095, 7.0, -3.0);
    let m = s.binary_similarity(&vec![vec![0, 1, 2], vec![11, 5, 0]]);
    assert_eq!(m, vec![vec![7.0, 7.0, -3.0], vec![-3.0, -3.0, 7.0]]);
}

#[test]
fn binary_self_comparison_matches() {
    let a = vec![vec![1.0, 0.0, 0.5, 0.2], vec![0.1, 0.9, 0.0, 0.3]];
    let s = settings(true, 1, 1, 4, true);
    let shifts: Vec<Vec<u32>> = (0..a.len())
        .map(|i| vec![best_shift(&a[i], &a[i], 4)])
        .collect();
    assert_eq!(shifts, vec![vec![0], vec![0]]);
    assert_eq!(s.binary_similarity(&shifts), vec![vec![1.0], vec![1.0]]);
}

#[test]
fn binary_far_rotation_mismatches() {
    let q = vec![1.0, 0.0, 0.0, 0.0, 0.0, 0.0];
    let r = vec![0.0, 0.0, 0.0, 1.0, 0.0, 0.0];
    let k = best_shift(&q, &r, 6);
    assert_eq!(k, 3);
    assert_eq!(settings(true, 1, 1, 6, true).binary_similarity(&vec![vec![k]]), vec![vec![0.0]]);
}

#[test]
fn binary_end_to_end_two_by_two() {
    let query = vec![vec![0.0, 1.0], vec![2.0, 3.0]];
    let reference = vec![vec![4.0, 5.0], vec![6.0, 7.0]];
    let s = settings(true, 1, 1, 2, true);
    assert_eq!(s.check_inputs(&query, &reference), Ok(2));
    let (q, r) = s.aligned_stacks(query, reference, 0);
    let shifts: Vec<Vec<u32>> = q
        .iter()
        .map(|qi| r.iter().map(|rj| best_shift(qi, rj, 2)).collect())
        .collect();
    let m = s.binary_similarity(&shifts);
    assert_eq!(m.len(), 2);
    for row in &m {
        assert_eq!(row.len(), 2);
        for v in row {
            assert!(*v == s.match_coefficient || *v == s.mismatch_coefficient);
        }
    }
    assert_eq!(m, vec![vec![1.0, 1.0], vec![1.0, 1.0]]);
}

#[test]
fn mask_needs_both_passes() {
    let col = vec![vec![true, true, false], vec![false, true, true]];
    let row = vec![vec![true, false, true], vec![false, true, false]];
    assert_eq!(
        mutual_threshold_mask(&col, &row),
        vec![vec![true, false, false], vec![false, true, false]]
    );
}

#[test]
fn mask_keeps_diagonal_of_self_comparison() {
    let col = vec![vec![true, false], vec![true, true]];
    let row = vec![vec![true, true], vec![false, true]];
    let m = mutual_threshold_mask(&col, &row);
    assert!(m[0][0] && m[1][1]);
    assert_eq!(mutual_threshold_mask(&Vec::new(), &Vec::new()), Vec::<Vec<bool>>::new());
}
