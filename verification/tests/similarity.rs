use tensort::similarity::{Similarity, INFINITY_BITS, MINUS_ONE_BITS, NEG_INFINITY_BITS, ONE_BITS, SIGN_BIT};
use tensort::threshold::{calc_similarity_threshold, max_within_clusters, min_between_clusters};

fn score(value: f64) -> Similarity {
    Similarity::from_bits(value.to_bits())
}

fn scores(values: &[f64]) -> Vec<Similarity> {
    values.iter().map(|v| score(*v)).collect()
}

fn samples() -> Vec<f64> {
    let mut values = vec![
        0.0,
        -0.0,
        1.0,
        -1.0,
        0.5,
        -0.5,
        0.9,
        0.8999999999999999,
        1e-300,
        -1e-300,
        5e-324,
        -5e-324,
        f64::MAX,
        f64::MIN,
        f64::MIN_POSITIVE,
        f64::INFINITY,
        f64::NEG_INFINITY,
        f64::NAN,
        -f64::NAN,
        f64::from_bits(0x7ff0_0000_0000_0001),
        f64::from_bits(0xffff_ffff_ffff_ffff),
    ];
    let mut state: u64 = 7;
    for _ in 0..200 {
        state = state.wrapping_mul(6364136223846793005).wrapping_add(1442695040888963407);
        values.push(f64::from_bits(state));
    }
    values
}

#[test]
fn constants_are_the_encodings_they_name() {
    assert_eq!(SIGN_BIT, (-0.0f64).to_bits());
    assert_eq!(INFINITY_BITS, f64::INFINITY.to_bits());
    assert_eq!(NEG_INFINITY_BITS, f64::NEG_INFINITY.to_bits());
    assert_eq!(ONE_BITS, 1.0f64.to_bits());
    assert_eq!(MINUS_ONE_BITS, (-1.0f64).to_bits());
}

#[test]
fn bits_round_trip() {
    for v in samples() {
        assert_eq!(score(v).to_bits(), v.to_bits());
    }
}

#[test]
fn is_nan_agrees_with_the_numbers() {
    for v in samples() {
        assert_eq!(score(v).is_nan(), v.is_nan());
    }
}

#[test]
fn lt_and_gt_agree_with_the_numbers() {
    let values = samples();
    for &a in &values {
        for &b in &values {
            assert_eq!(score(a).lt(score(b)), a < b);
            assert_eq!(score(a).gt(score(b)), a > b);
        }
    }
}

#[test]
fn max_and_min_agree_with_the_numbers() {
    let values = samples();
    for &a in &values {
        for &b in &values {
            let max = f64::from_bits(score(a).max(score(b)).to_bits());
            let min = f64::from_bits(score(a).min(score(b)).to_bits());
            if a.is_nan() && b.is_nan() {
                assert!(max.is_nan());
                assert!(min.is_nan());
            } else {
                assert!(max == a.max(b));
                assert!(min == a.min(b));
            }
        }
    }
}

#[test]
fn max_keeps_the_first_of_equal_numbers() {
    assert_eq!(score(0.0).max(score(-0.0)).to_bits(), 0.0f64.to_bits());
    assert_eq!(score(-0.0).max(score(0.0)).to_bits(), (-0.0f64).to_bits());
    assert_eq!(score(0.0).min(score(-0.0)).to_bits(), 0.0f64.to_bits());
}

/// The mean of the average of `maxima` and of `min`.
fn mean_with_minimum(maxima: &Vec<Similarity>, min: Similarity) -> Similarity {
    let sum = maxima.iter().map(|m| f64::from_bits(m.to_bits())).sum::<f64>();
    score(((sum / maxima.len() as f64) + f64::from_bits(min.to_bits())) / 2.0)
}

#[test]
fn calc_similarity_threshold_within_range() {
    let similarities = scores(&[0.9, 0.8, 0.7, 0.6, 0.5, 0.4, 0.3, 0.2, 0.1]);
    let class_count = 3;
    let threshold = f64::from_bits(
        calc_similarity_threshold(similarities.as_slice(), class_count, mean_with_minimum).to_bits(),
    );

    assert!(threshold <= 1.0);
    assert!(threshold >= -1.0);
}

#[test]
fn calc_similarity_threshold_is_the_mean_of_its_terms() {
    let similarities = scores(&[0.9, 0.8, 0.7, 0.6, 0.5, 0.4, 0.3, 0.2, 0.1]);
    let threshold = f64::from_bits(calc_similarity_threshold(&similarities, 3, mean_with_minimum).to_bits());
    // The maxima are 0.9, 0.6 and 0.3: their average is 0.6, their minimum 0.3.
    assert!((threshold - 0.45).abs() < 1e-12);
    let single = f64::from_bits(calc_similarity_threshold(&similarities, 1, mean_with_minimum).to_bits());
    assert!((single - 0.9).abs() < 1e-12);
}

#[test]
fn calc_similarity_threshold_hands_over_maxima_and_minimum() {
    let similarities = scores(&[0.1, 0.7, -0.3, 0.2, 0.5, 0.4]);
    let seen = std::cell::RefCell::new((Vec::new(), 0.0));
    let threshold = calc_similarity_threshold(&similarities, 3, |maxima: &Vec<Similarity>, min: Similarity| {
        *seen.borrow_mut() =
            (maxima.iter().map(|m| f64::from_bits(m.to_bits())).collect(), f64::from_bits(min.to_bits()));
        score(0.125)
    });
    assert_eq!(*seen.borrow(), (vec![0.7, 0.2, 0.5], 0.2));
    assert_eq!(threshold.to_bits(), 0.125f64.to_bits());
}

#[test]
fn calc_similarity_threshold_of_empty_chunks_leaves_the_range() {
    // One similarity cut into two chunks: both chunks are empty.
    let threshold = f64::from_bits(calc_similarity_threshold(&scores(&[1.0]), 2, mean_with_minimum).to_bits());
    assert_eq!(threshold, f64::NEG_INFINITY);
}

#[test]
fn max_within_clusters_takes_the_largest_of_each_chunk() {
    let similarities = scores(&[0.9, 0.8, 0.7, 0.6, 0.5, 0.4, 0.3, 0.2, 0.1]);
    let maxima: Vec<f64> = max_within_clusters(&similarities, 3).iter().map(|m| f64::from_bits(m.to_bits())).collect();
    assert_eq!(maxima, vec![0.9, 0.6, 0.3]);
    let whole: Vec<f64> = max_within_clusters(&similarities, 1).iter().map(|m| f64::from_bits(m.to_bits())).collect();
    assert_eq!(whole, vec![0.9]);
}

#[test]
fn max_within_clusters_drops_what_is_left_over() {
    // Ten scores in three chunks of three: the last score belongs to no chunk.
    let similarities = scores(&[0.1, 0.2, 0.3, 0.4, 0.5, 0.6, 0.7, 0.8, 0.85, 0.99]);
    let maxima: Vec<f64> = max_within_clusters(&similarities, 3).iter().map(|m| f64::from_bits(m.to_bits())).collect();
    assert_eq!(maxima, vec![0.3, 0.6, 0.85]);
}

#[test]
fn max_within_clusters_of_empty_chunks_is_negative_infinity() {
    let similarities = scores(&[1.0]);
    let maxima = max_within_clusters(&similarities, 2);
    assert_eq!(maxima.len(), 2);
    assert_eq!(maxima[0].to_bits(), f64::NEG_INFINITY.to_bits());
    assert_eq!(maxima[1].to_bits(), f64::NEG_INFINITY.to_bits());
    assert_eq!(min_between_clusters(&maxima).to_bits(), f64::NEG_INFINITY.to_bits());
}

#[test]
fn max_within_clusters_passes_over_what_is_not_a_number() {
    let similarities = scores(&[f64::NAN, 0.25, f64::NAN, -0.5]);
    let maxima: Vec<f64> = max_within_clusters(&similarities, 2).iter().map(|m| f64::from_bits(m.to_bits())).collect();
    assert_eq!(maxima, vec![0.25, -0.5]);
}

#[test]
fn min_between_clusters_takes_the_smallest() {
    assert_eq!(min_between_clusters(&scores(&[0.9, 0.6, 0.3])).to_bits(), 0.3f64.to_bits());
    assert_eq!(min_between_clusters(&scores(&[-0.2, f64::NAN, 0.3])).to_bits(), (-0.2f64).to_bits());
    assert_eq!(min_between_clusters(&[]).to_bits(), f64::INFINITY.to_bits());
}

#[test]
fn threshold_terms_stay_in_range_for_similarities_in_range() {
    let mut state: u64 = 99;
    for k in 1..6usize {
        let mut values = Vec::new();
        for _ in 0..(k * 7 + 3) {
            state = state.wrapping_mul(6364136223846793005).wrapping_add(1442695040888963407);
            values.push(((state >> 11) as f64 / (1u64 << 53) as f64) * 2.0 - 1.0);
        }
        let maxima = max_within_clusters(&scores(&values), k);
        for m in &maxima {
            let m = f64::from_bits(m.to_bits());
            assert!(-1.0 <= m && m <= 1.0);
        }
        let min = f64::from_bits(min_between_clusters(&maxima).to_bits());
        assert!(-1.0 <= min && min <= 1.0);
    }
}
