use dartminhash::similarity::{count_collisions, hamming_distance, intersection, SketchError};

fn key(w: f64) -> u64 {
    if w > 0.0 {
        w.to_bits()
    } else {
        0
    }
}

fn keyed(x: &[(u64, f64)]) -> Vec<(u64, u64)> {
    x.iter().map(|&(i, w)| (i, key(w))).collect()
}

fn weight(x: &[(u64, u64)]) -> f64 {
    x.iter().map(|&(_, w)| f64::from_bits(w)).sum()
}

fn intersection_mass(x: &[(u64, f64)], y: &[(u64, f64)]) -> f64 {
    weight(&intersection(&keyed(x), &keyed(y)))
}

fn jaccard_similarity(x: &[(u64, f64)], y: &[(u64, f64)]) -> f64 {
    let s = intersection_mass(x, y);
    let wx = weight(&keyed(x));
    let wy = weight(&keyed(y));
    s / (wx + wy - s)
}

fn onebit_minhash_jaccard_estimate(x: &[bool], y: &[bool]) -> f64 {
    let h = hamming_distance(x, y).unwrap() as f64;
    let t = x.len() as f64;
    (2.0 * (1.0 - h / t) - 1.0).max(0.0)
}

#[test]
fn test_weight_and_intersection() {
    let mut a = vec![(1, 0.4), (2, 0.1)];
    let mut b = vec![(1, 0.4), (3, 0.3)];
    a.sort_by_key(|p| p.0);
    b.sort_by_key(|p| p.0);
    assert!((weight(&keyed(&a)) - 0.5).abs() < 1e-12);
    assert!((weight(&keyed(&b)) - 0.7).abs() < 1e-12);
    assert!((intersection_mass(&a, &b) - 0.4).abs() < 1e-12);
    let j = jaccard_similarity(&a, &b);
    assert!((j - 0.4 / (0.5 + 0.7 - 0.4)).abs() < 1e-12);
}

#[test]
fn test_onebit_estimate() {
    let x = vec![true, false, true, true];
    let y = vec![true, true, false, true];
    let h = hamming_distance(&x, &y).unwrap() as f64;
    assert_eq!(h, 2.0);
    let est = onebit_minhash_jaccard_estimate(&x, &y);
    // Just sanity: within [0,1]
    assert!(est >= 0.0 && est <= 1.0);
}

#[test]
fn onebit_estimate_of_half_differing_sketches_is_zero() {
    let x = vec![true, false, true, true];
    let y = vec![true, true, false, true];
    assert_eq!(hamming_distance(&x, &y), Ok(2));
    assert_eq!(onebit_minhash_jaccard_estimate(&x, &y), 0.0);
}

#[test]
fn scenario_jaccard_is_one_half() {
    let x = vec![(1, 0.4), (2, 0.1)];
    let y = vec![(1, 0.4), (3, 0.3)];
    assert_eq!(intersection(&keyed(&x), &keyed(&y)), vec![(1, 0.4f64.to_bits())]);
    assert!((jaccard_similarity(&x, &y) - 0.5).abs() < 1e-12);
}

#[test]
fn intersection_keeps_shared_ids_with_smaller_weight() {
    let x = vec![(1u64, 10u64), (4, 7), (6, 3), (9, 1)];
    let y = vec![(2u64, 5u64), (4, 9), (6, 2), (9, 1), (12, 8)];
    assert_eq!(intersection(&x, &y), vec![(4, 7), (6, 2), (9, 1)]);
    assert_eq!(intersection(&y, &x), vec![(4, 7), (6, 2), (9, 1)]);
}

#[test]
fn intersection_of_disjoint_or_empty_vectors_is_empty() {
    let x = vec![(1u64, 10u64), (3, 7)];
    let y = vec![(2u64, 5u64), (4, 9)];
    let none: Vec<(u64, u64)> = Vec::new();
    assert_eq!(intersection(&x, &y), none);
    assert_eq!(intersection(&x, &none), none);
    assert_eq!(intersection(&none, &y), none);
    assert_eq!(intersection(&none, &none), none);
}

#[test]
fn intersection_with_itself_is_the_vector() {
    let x = vec![(1u64, 10u64), (3, 0), (8, 2)];
    assert_eq!(intersection(&x, &x), x);
}

#[test]
fn hamming_distance_counts_differing_positions() {
    assert_eq!(hamming_distance(&[], &[]), Ok(0));
    assert_eq!(hamming_distance(&[true, true], &[true, true]), Ok(0));
    assert_eq!(hamming_distance(&[true, false, true], &[false, true, false]), Ok(3));
    assert_eq!(hamming_distance(&[true, false, true], &[true, true, true]), Ok(1));
}

#[test]
fn hamming_distance_of_a_sketch_to_itself_is_zero() {
    let x = vec![true, false, false, true, true, false];
    assert_eq!(hamming_distance(&x, &x), Ok(0));
}

#[test]
fn hamming_distance_refuses_unequal_lengths() {
    assert_eq!(
        hamming_distance(&[true, false], &[true]),
        Err(SketchError::LengthMismatch { left: 2, right: 1 })
    );
    assert_eq!(
        hamming_distance(&[], &[false]),
        Err(SketchError::LengthMismatch { left: 0, right: 1 })
    );
}

#[test]
fn count_collisions_compares_identities_only() {
    let x = vec![(5u64, 1u64), (6, 2), (7, 3), (8, 4)];
    let y = vec![(5u64, 9u64), (0, 2), (7, 3), (1, 4)];
    assert_eq!(count_collisions(&x, &y), Ok(2));
    assert_eq!(count_collisions(&y, &x), Ok(2));
    let none: Vec<(u64, u64)> = Vec::new();
    assert_eq!(count_collisions(&none, &none), Ok(0));
}

#[test]
fn count_collisions_of_a_sketch_with_itself_is_its_length() {
    let x = vec![(5u64, 1u64), (6, 2), (6, 3), (8, 4), (0, 0)];
    assert_eq!(count_collisions(&x, &x), Ok(5));
    let estimate = count_collisions(&x, &x).unwrap() as f64 / x.len() as f64;
    assert_eq!(estimate, 1.0);
}

#[test]
fn count_collisions_works_on_attempt_ranked_slots() {
    let x: Vec<(u64, Option<u32>)> = vec![(1, Some(1)), (2, None), (3, Some(7))];
    let y: Vec<(u64, Option<u32>)> = vec![(1, Some(4)), (9, None), (3, None)];
    assert_eq!(count_collisions(&x, &y), Ok(2));
}

#[test]
fn count_collisions_refuses_unequal_lengths() {
    let x = vec![(5u64, 1u64), (6, 2)];
    let y = vec![(5u64, 1u64), (6, 2), (7, 3)];
    assert_eq!(
        count_collisions(&x, &y),
        Err(SketchError::LengthMismatch { left: 2, right: 3 })
    );
    assert_eq!(
        count_collisions(&y, &x),
        Err(SketchError::LengthMismatch { left: 3, right: 2 })
    );
}
