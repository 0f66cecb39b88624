use tensort::clustering::{best_bucket, cluster_embeddings, seed_bucket, similarity_lookup};
use tensort::similarity::Similarity;

fn sims(values: &[f64]) -> Vec<Similarity> {
    values.iter().map(|v| Similarity::from_bits(v.to_bits())).collect()
}

fn sim(value: f64) -> Similarity {
    Similarity::from_bits(value.to_bits())
}

/// A full symmetric matrix with ones on the diagonal, filled from a seed.
fn matrix(n: usize, seed: u64) -> Vec<f64> {
    let mut state = seed;
    let mut m = vec![0.0; n * n];
    for i in 0..n {
        for j in i..n {
            state = state.wrapping_mul(6364136223846793005).wrapping_add(1442695040888963407);
            let v = if i == j { 1.0 } else { ((state >> 11) as f64 / (1u64 << 53) as f64) * 2.0 - 1.0 };
            m[i * n + j] = v;
            m[j * n + i] = v;
        }
    }
    m
}

#[test]
fn cluster_embeddings_works() {
    let similarities = sims(&[
        0.9, 0.8, 0.7,
        0.8, 0.9, 0.8,
        0.7, 0.8, 0.9,
    ]);

    let similarity_threshold = sim(0.9);
    let embedding_count = 3;
    let class_count = 2;
    let table = cluster_embeddings(similarities.as_slice(), similarity_threshold, embedding_count, class_count);

    assert_eq!(table.len(), class_count);
    assert_eq!(table[0], vec![0]);
    assert_eq!(table[1], vec![1, 2]);
}

#[test]
fn cluster_embeddings_with_no_embeddings_gives_empty_classes() {
    let table = cluster_embeddings(&[], sim(0.5), 0, 4);
    assert_eq!(table, vec![Vec::<usize>::new(); 4]);
}

#[test]
fn cluster_embeddings_with_one_embedding_lists_it_once() {
    let table = cluster_embeddings(&sims(&[1.0]), sim(0.5), 1, 2);
    assert_eq!(table, vec![vec![0], vec![]]);
}

#[test]
fn cluster_embeddings_with_as_many_classes_as_embeddings() {
    let similarities = sims(&[
        1.0, 0.1, 0.2,
        0.1, 1.0, 0.3,
        0.2, 0.3, 1.0,
    ]);
    let table = cluster_embeddings(&similarities, sim(0.9), 3, 3);
    assert_eq!(table, vec![vec![0], vec![1], vec![2]]);
}

#[test]
fn cluster_embeddings_seeding_may_leave_classes_empty() {
    // All of the first three resemble embedding 0, so they use up the seeding
    // and classes 1 and 2 stay empty; the rest can only join class 0.
    let n = 5;
    let similarities = sims(&vec![0.95; n * n]);
    let table = cluster_embeddings(&similarities, sim(0.9), n, 3);
    assert_eq!(table, vec![vec![0, 1, 2, 3, 4], vec![], vec![]]);
}

#[test]
fn cluster_embeddings_threshold_is_inclusive() {
    let similarities = sims(&[
        1.0, 0.5,
        0.5, 1.0,
    ]);
    let at = cluster_embeddings(&similarities, sim(0.5), 2, 2);
    assert_eq!(at, vec![vec![0, 1], vec![]]);
    let above = cluster_embeddings(&similarities, sim(0.5000001), 2, 2);
    assert_eq!(above, vec![vec![0], vec![1]]);
}

#[test]
fn cluster_embeddings_best_fit_keeps_first_class_on_tie() {
    let similarities = sims(&[
        1.0, 0.0, 0.4,
        0.0, 1.0, 0.4,
        0.4, 0.4, 1.0,
    ]);
    let table = cluster_embeddings(&similarities, sim(0.9), 3, 2);
    assert_eq!(table, vec![vec![0, 2], vec![1]]);
}

#[test]
fn cluster_embeddings_best_fit_takes_the_most_similar_class() {
    let similarities = sims(&[
        1.0, 0.0, 0.1, 0.3,
        0.0, 1.0, 0.6, 0.2,
        0.1, 0.6, 1.0, 0.0,
        0.3, 0.2, 0.0, 1.0,
    ]);
    let table = cluster_embeddings(&similarities, sim(0.9), 4, 2);
    assert_eq!(table, vec![vec![0, 3], vec![1, 2]]);
}

#[test]
fn cluster_embeddings_best_fit_falls_back_to_first_class() {
    // Nothing is larger than minus one, so nothing replaces the first class.
    let similarities = sims(&[
        1.0, -1.0, -1.0,
        -1.0, 1.0, -1.0,
        -1.0, -1.0, 1.0,
    ]);
    let table = cluster_embeddings(&similarities, sim(0.9), 3, 2);
    assert_eq!(table, vec![vec![0, 2], vec![1]]);
}

#[test]
fn cluster_embeddings_with_short_matrix_does_not_panic() {
    // Only the first row of the matrix is there.  While seeding, an unknown
    // similarity is no match; while fitting, it is no candidate.
    let similarities = sims(&[1.0, 0.9, 0.9, 0.9]);
    let table = cluster_embeddings(&similarities, sim(0.5), 4, 2);
    assert_eq!(table, vec![vec![0, 2, 3], vec![1]]);
}

#[test]
fn cluster_embeddings_with_huge_count_and_short_matrix_does_not_overflow() {
    let similarities = sims(&[1.0]);
    assert_eq!(similarity_lookup(&similarities, 1, usize::MAX, usize::MAX).map(|s| s.bits), None);
    assert_eq!(similarity_lookup(&similarities, usize::MAX, 1, 1).map(|s| s.bits), None);
    assert_eq!(similarity_lookup(&similarities, 0, 0, usize::MAX).map(|s| s.bits), Some(1.0f64.to_bits()));
}

#[test]
fn cluster_embeddings_unordered_similarity_counts_as_match_when_seeding() {
    let similarities = sims(&[
        1.0, f64::NAN,
        f64::NAN, 1.0,
    ]);
    let table = cluster_embeddings(&similarities, sim(0.9), 2, 2);
    assert_eq!(table, vec![vec![0, 1], vec![]]);
}

#[test]
fn cluster_embeddings_partitions_the_indices() {
    for (n, k, seed) in [(1usize, 1usize, 1u64), (7, 3, 2), (12, 4, 3), (20, 5, 4), (9, 12, 5), (30, 2, 6)] {
        let m = matrix(n, seed);
        let table = cluster_embeddings(&sims(&m), sim(0.3), n, k);
        assert_eq!(table.len(), k);
        assert_eq!(table.iter().map(|row| row.len()).sum::<usize>(), n);
        let mut seen = vec![0usize; n];
        for row in &table {
            for pair in row.windows(2) {
                assert!(pair[0] < pair[1]);
            }
            for &e in row {
                assert!(e < n);
                seen[e] += 1;
            }
        }
        assert_eq!(seen, vec![1usize; n]);
    }
}

#[test]
fn cluster_embeddings_is_deterministic() {
    let n = 15;
    let m = sims(&matrix(n, 42));
    let first = cluster_embeddings(&m, sim(0.2), n, 4);
    let second = cluster_embeddings(&m, sim(0.2), n, 4);
    assert_eq!(first, second);
}

#[test]
fn cluster_embeddings_does_not_tell_the_zeros_apart() {
    let plus = sims(&[1.0, 0.0, 0.0, 1.0]);
    let minus = sims(&[1.0, -0.0, -0.0, 1.0]);
    let a = cluster_embeddings(&plus, sim(0.0), 2, 2);
    let b = cluster_embeddings(&minus, sim(-0.0), 2, 2);
    assert_eq!(a, vec![vec![0, 1], vec![]]);
    assert_eq!(a, b);
}

#[test]
fn seed_bucket_takes_first_empty_or_matching_class() {
    let similarities = sims(&[
        1.0, 0.2, 0.8,
        0.2, 1.0, 0.3,
        0.8, 0.3, 1.0,
    ]);
    let table = vec![vec![0], vec![1], vec![]];
    assert_eq!(seed_bucket(&table, &similarities, sim(0.75), 2, 3), 0);
    assert_eq!(seed_bucket(&table, &similarities, sim(0.9), 2, 3), 2);
    let full = vec![vec![0], vec![1]];
    assert_eq!(seed_bucket(&full, &similarities, sim(0.9), 2, 3), 2);
}

#[test]
fn best_bucket_skips_empty_classes() {
    let similarities = sims(&[
        1.0, 0.2, 0.1,
        0.2, 1.0, 0.3,
        0.1, 0.3, 1.0,
    ]);
    let table = vec![vec![0], vec![], vec![1]];
    assert_eq!(best_bucket(&table, &similarities, 2, 3), 2);
}
