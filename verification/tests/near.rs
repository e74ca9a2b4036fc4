use codehealth::duplication::NearDuplicateOptions;
use codehealth::near::{
    band_hash, combine_weighted_shingles, keys_of, lsh_candidate_pairs, minhash_signature,
    near_document_frequency, near_features, near_pair_score, seeded_hash, shingle_hash,
    signature_similarity, weighted_jaccard, weighted_shingles, NearFeatures, NearSignatureShape,
    RawNearFeatures,
};
use codehealth::parser::DefinitionKind;
use codehealth::similarity::minhash_estimate;
use std::collections::BTreeMap;

fn test_shingles(values: &[&str]) -> BTreeMap<u64, u16> {
    values
        .iter()
        .map(|value| (shingle_hash("test", value), 1))
        .collect()
}

fn shape() -> NearSignatureShape {
    NearSignatureShape {
        parameter_count: 1,
        return_shape: "identifier".to_string(),
        is_async: false,
        kind: DefinitionKind::Function,
    }
}

fn test_near_feature(_index: usize, token_count: usize, shingles: &[&str]) -> NearFeatures {
    let combined_shingles = test_shingles(shingles);
    let options = NearDuplicateOptions::default();
    let minhash_signature = minhash_signature(&combined_shingles, options);
    NearFeatures {
        language: "typescript".to_string(),
        line_count: 5,
        token_count,
        statement_count: 4,
        signature_shape: shape(),
        token_shingles: combined_shingles.clone(),
        ast_shingles: combined_shingles.clone(),
        statement_shingles: combined_shingles.clone(),
        call_shingles: test_shingles(&["call"]),
        control_shingles: test_shingles(&["return"]),
        combined_shingles,
        minhash_signature,
    }
}

#[test]
fn common_shingles_are_filtered_and_rare_shingles_are_weighted() {
    let mut frequency = BTreeMap::new();
    frequency.insert(shingle_hash("token", "common"), 20);
    frequency.insert(shingle_hash("token", "rare"), 1);
    let options = NearDuplicateOptions::default();

    let weighted = weighted_shingles(
        "token",
        &["common".to_string(), "rare".to_string()],
        &frequency,
        100,
        options,
    );

    assert!(!weighted.contains_key(&shingle_hash("token", "common")));
    assert!(weighted[&shingle_hash("token", "rare")] > 1);
}

#[test]
fn minhash_estimate_is_deterministic_for_known_similarity() {
    let options = NearDuplicateOptions::default();
    let left = test_shingles(&["a", "b", "c", "d"]);
    let same = test_shingles(&["a", "b", "c", "d"]);
    let partial = test_shingles(&["a", "b", "x", "y"]);

    let left_signature = minhash_signature(&left, options);
    let same_signature = minhash_signature(&same, options);
    let partial_signature = minhash_signature(&partial, options);

    assert_eq!(minhash_estimate(&left_signature, &same_signature), 100);
    let estimate = minhash_estimate(&left_signature, &partial_signature);
    assert!((20..=60).contains(&estimate));
    assert_eq!(
        estimate,
        minhash_estimate(
            &minhash_signature(&left, options),
            &minhash_signature(&partial, options)
        )
    );
}

#[test]
fn lsh_candidates_include_shape_bucket_without_all_pairs() {
    let options = NearDuplicateOptions {
        max_bucket_size: 10,
        ..NearDuplicateOptions::default()
    };
    let mut features = vec![
        test_near_feature(0, 75, &["shared", "left"]),
        test_near_feature(1, 76, &["shared", "right"]),
    ];
    for index in 2..42 {
        features.push(test_near_feature(
            index,
            100 + index * 25,
            &[&format!("unique-{index}")],
        ));
    }

    let candidates = lsh_candidate_pairs(&features, options);
    let all_pairs = features.len() * (features.len() - 1) / 2;

    assert!(candidates.pairs.contains(&(0, 1)));
    assert!(candidates.pairs.len() < all_pairs);
}

#[test]
fn final_near_score_combines_similarity_signals() {
    let mut left = test_near_feature(0, 80, &["a", "b", "c"]);
    let mut right = test_near_feature(1, 82, &["a", "b", "d"]);
    let options = NearDuplicateOptions::default();
    left.minhash_signature = minhash_signature(&left.combined_shingles, options);
    right.minhash_signature = minhash_signature(&right.combined_shingles, options);

    let score = near_pair_score(0, 1, &left, &right);

    assert!(score.score >= 60);
    assert!(score.token_similarity > 0);
    assert_eq!(score.signature_similarity, 100);
}

#[test]
fn shingle_hash_hashes_the_versioned_text() {
    assert_eq!(
        shingle_hash("token", "a b"),
        xxhash_rust::xxh3::xxh3_64(b"near_duplicate_v1|token|a b")
    );
    assert_ne!(shingle_hash("token", "a b"), shingle_hash("ast", "a b"));
}

#[test]
fn seeded_and_band_hashes_use_little_endian_bytes() {
    let mut bytes = Vec::new();
    bytes.extend_from_slice(&3u64.to_le_bytes());
    bytes.extend_from_slice(&77u64.to_le_bytes());
    assert_eq!(seeded_hash(3, 77), xxhash_rust::xxh3::xxh3_64(&bytes));

    let mut band = Vec::new();
    band.extend_from_slice(&2u64.to_le_bytes());
    band.extend_from_slice(&5u64.to_le_bytes());
    band.extend_from_slice(&6u64.to_le_bytes());
    assert_eq!(band_hash(2, &[5, 6]), xxhash_rust::xxh3::xxh3_64(&band));
}

#[test]
fn empty_shingle_sets_have_maximal_signatures() {
    let options = NearDuplicateOptions::default();
    let signature = minhash_signature(&BTreeMap::new(), options);
    assert_eq!(signature.len(), 96);
    assert!(signature.iter().all(|v| *v == u64::MAX));

    let one = test_shingles(&["only"]);
    let signature = minhash_signature(&one, options);
    let key = *one.keys().next().expect("one shingle");
    for (seed, value) in signature.iter().enumerate() {
        assert_eq!(*value, seeded_hash(seed, key));
    }
}

#[test]
fn weighted_jaccard_divides_smaller_by_larger_weights() {
    let mut left = BTreeMap::new();
    left.insert(1u64, 2u16);
    left.insert(2, 1);
    let mut right = BTreeMap::new();
    right.insert(1u64, 1u16);
    right.insert(3, 1);
    // Smaller weights: 1 (key 1); larger weights: 2 + 1 + 1 = 4.
    assert_eq!(weighted_jaccard(&left, &right), 25);
    assert_eq!(weighted_jaccard(&left, &left), 100);
    assert_eq!(weighted_jaccard(&BTreeMap::new(), &BTreeMap::new()), 100);
    assert_eq!(weighted_jaccard(&left, &BTreeMap::new()), 0);
}

#[test]
fn combined_shingles_keep_the_largest_weight() {
    let mut a = BTreeMap::new();
    a.insert(1u64, 2u16);
    let mut b = BTreeMap::new();
    b.insert(1u64, 5u16);
    b.insert(9u64, 1u16);
    let combined = combine_weighted_shingles(&[&a, &b]);
    assert_eq!(combined.len(), 2);
    assert_eq!(combined[&1], 5);
    assert_eq!(combined[&9], 1);
    assert_eq!(keys_of(&combined), vec![1, 9]);
}

#[test]
fn signature_similarity_adds_matching_parts() {
    let left = shape();
    let mut right = shape();
    assert_eq!(signature_similarity(&left, &right), 100);
    right.parameter_count = 3;
    assert_eq!(signature_similarity(&left, &right), 60);
    right.is_async = true;
    right.kind = DefinitionKind::Method;
    assert_eq!(signature_similarity(&left, &right), 30);
}

#[test]
fn document_frequency_counts_each_function_once() {
    let raw = |tokens: &[&str], calls: &[&str]| RawNearFeatures {
        language: "python".to_string(),
        line_count: 5,
        token_count: 50,
        statement_count: 3,
        signature_shape: shape(),
        statements: Vec::new(),
        token_shingles: tokens.iter().map(|t| t.to_string()).collect(),
        ast_shingles: Vec::new(),
        statement_shingles: Vec::new(),
        call_shingles: calls.iter().map(|t| t.to_string()).collect(),
        control_shingles: Vec::new(),
    };
    let features = vec![raw(&["x", "y"], &["x"]), raw(&["x"], &[]), raw(&["z"], &[])];
    let frequency = near_document_frequency(&features);
    assert_eq!(frequency[&shingle_hash("token", "x")], 2);
    assert_eq!(frequency[&shingle_hash("token", "y")], 1);
    assert_eq!(frequency[&shingle_hash("call", "x")], 1);
    assert_eq!(frequency.len(), 4);

    let options = NearDuplicateOptions::default();
    let weighted = near_features(features[0].clone(), &frequency, 3, options).expect("rare shingles");
    assert_eq!(weighted.token_shingles.len(), 2);
    assert_eq!(weighted.combined_shingles.len(), 3);
    assert!(weighted.minhash_signature.is_empty());
}

#[test]
fn lsh_skips_oversized_buckets() {
    let options = NearDuplicateOptions {
        max_bucket_size: 2,
        ..NearDuplicateOptions::default()
    };
    let features = vec![
        test_near_feature(0, 50, &["same"]),
        test_near_feature(1, 50, &["same"]),
        test_near_feature(2, 50, &["same"]),
    ];
    let candidates = lsh_candidate_pairs(&features, options);
    assert!(candidates.pairs.is_empty());
    // 24 band buckets and one shape bucket, each holding all three functions.
    assert_eq!(candidates.skipped_large_buckets, 25);
    assert!(!candidates.candidate_limit_reached);

    let limited = NearDuplicateOptions {
        max_candidate_pairs: 1,
        ..NearDuplicateOptions::default()
    };
    let candidates = lsh_candidate_pairs(&features, limited);
    assert!(candidates.candidate_limit_reached);
    assert_eq!(candidates.pairs.len(), 1);
}

#[test]
fn lsh_search_stops_at_the_pair_limit() {
    let features = vec![
        test_near_feature(0, 75, &["shared", "left"]),
        test_near_feature(1, 76, &["shared", "right"]),
        test_near_feature(2, 77, &["shared", "middle"]),
    ];
    let open = lsh_candidate_pairs(&features, NearDuplicateOptions { max_bucket_size: 10, ..NearDuplicateOptions::default() });
    assert!(!open.candidate_limit_reached);
    assert_eq!(open.pairs.len(), 3);
    let limited = lsh_candidate_pairs(
        &features,
        NearDuplicateOptions { max_bucket_size: 10, max_candidate_pairs: 2, ..NearDuplicateOptions::default() },
    );
    assert!(limited.candidate_limit_reached);
    assert_eq!(limited.pairs.len(), 2);
    assert!(limited.pairs.iter().all(|pair| open.pairs.contains(pair)));
    let zero = lsh_candidate_pairs(
        &features,
        NearDuplicateOptions { max_bucket_size: 10, max_candidate_pairs: 0, ..NearDuplicateOptions::default() },
    );
    assert!(zero.candidate_limit_reached);
    assert_eq!(zero.pairs.len(), 1);
}
