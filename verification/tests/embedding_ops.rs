use codex_core::EMBEDDING_DIMENSION;
use codex_core::embedding::BucketWeight;
use codex_core::embedding::Embedding;
use codex_core::embedding::fallback_profile;
use codex_core::embedding::threshold_sq_from_milli;

/// Turn a bucket profile into the unit-norm fallback vector: accumulate
/// `ln(1 + frequency)` per distinct word and normalize.
fn realize(profile: &[BucketWeight]) -> Vec<f32> {
    let mut v = vec![0.0f32; EMBEDDING_DIMENSION];
    for bw in profile {
        v[bw.bucket] += (1.0f32 + bw.count as f32).ln();
    }
    let mag: f32 = v.iter().map(|x| x * x).sum::<f32>().sqrt();
    if mag > 0.0 {
        for x in v.iter_mut() {
            *x /= mag;
        }
    }
    v
}

#[test]
fn profile_counts_distinct_words_in_first_occurrence_order() {
    let profile = fallback_profile("ab ab cd");
    // 'a'+'b' = 195, 'c'+'d' = 199; both below the dimension.
    assert_eq!(profile.len(), 2);
    assert_eq!(profile[0].bucket, 195);
    assert_eq!(profile[0].count, 2);
    assert_eq!(profile[1].bucket, 199);
    assert_eq!(profile[1].count, 1);
}

#[test]
fn profile_is_case_insensitive() {
    assert_eq!(fallback_profile("Cats CATS cats"), fallback_profile("cats cats cats"));
}

#[test]
fn profile_of_empty_and_whitespace_text_is_empty() {
    assert!(fallback_profile("").is_empty());
    assert!(fallback_profile("   ").is_empty());
    assert!(fallback_profile(" \t\n ").is_empty());
}

#[test]
fn fallback_embedding_is_bit_identical_across_runs() {
    let text = "the quick brown fox jumps over the lazy dog";
    let a = realize(&fallback_profile(text));
    let b = realize(&fallback_profile(text));
    assert_eq!(a.len(), b.len());
    for i in 0..a.len() {
        assert_eq!(a[i].to_bits(), b[i].to_bits());
    }
}

#[test]
fn fallback_embedding_has_unit_norm_for_nonblank_text() {
    let v = realize(&fallback_profile("cats are great pets"));
    let norm: f32 = v.iter().map(|x| x * x).sum::<f32>().sqrt();
    assert!((norm - 1.0).abs() < 1e-5);
}

#[test]
fn fallback_embedding_of_blank_text_is_all_zero() {
    let v = realize(&fallback_profile("   "));
    assert!(v.iter().all(|x| *x == 0.0));
}

#[test]
fn zero_embedding_is_recognized() {
    let z = Embedding::zero();
    assert!(z.is_zero());
    assert_eq!(z.coords.len(), EMBEDDING_DIMENSION);
}

#[test]
fn embedding_new_rejects_wrong_dimension_and_range() {
    assert!(Embedding::new(vec![0i64; 3]).is_none());
    let mut coords = vec![0i64; EMBEDDING_DIMENSION];
    coords[0] = 262145;
    assert!(Embedding::new(coords).is_none());
    assert!(Embedding::new(vec![0i64; EMBEDDING_DIMENSION]).is_some());
}

#[test]
fn dist_sq_matches_hand_computation() {
    let mut a = vec![0i64; EMBEDDING_DIMENSION];
    let mut b = vec![0i64; EMBEDDING_DIMENSION];
    a[0] = 65536;
    b[1] = 65536;
    let ea = Embedding::new(a).unwrap();
    let eb = Embedding::new(b).unwrap();
    // Two orthogonal unit vectors: squared distance is twice the squared
    // scale.
    assert_eq!(ea.dist_sq(&eb), 2 * 65536 * 65536);
    assert_eq!(ea.dist_sq(&ea), 0);
}

#[test]
fn threshold_conversion_squares_the_scaled_value() {
    assert_eq!(threshold_sq_from_milli(500), 32768 * 32768);
    assert_eq!(threshold_sq_from_milli(1000), 65536 * 65536);
    // Values above one are clamped to one.
    assert_eq!(threshold_sq_from_milli(5000), 65536 * 65536);
    assert_eq!(threshold_sq_from_milli(0), 0);
}

#[test]
fn text_with_only_single_byte_words_has_an_empty_profile() {
    // Non-blank text whose every token is a single byte carries no signal:
    // the profile is empty and the realized vector is all zero.
    let profile = fallback_profile("a ! 1");
    assert!(profile.is_empty());
    let v = realize(&profile);
    assert!(v.iter().all(|x| *x == 0.0));
}
