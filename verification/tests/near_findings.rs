use std::collections::BTreeSet;

use codehealth::duplication::VectorCandidateOptions;
use codehealth::findings::{Confidence, FindingKind, MetadataValue, Severity};
use codehealth::metadata_lines::metadata_lines;
use codehealth::near::{LshCandidates, NearPairScore};
use codehealth::near_findings::{build_near_finding, NearMember};
use codehealth::shingles::StatementRegion;
use codehealth::symbol_findings::{BodySpan, DefinitionInfo};
use codehealth::vector_findings::{build_vector_candidate_finding, VectorMember, VectorPairScore};
use sha2::Digest;

fn hex_sha(text: &str) -> String {
    sha2::Sha256::digest(text.as_bytes()).iter().map(|b| format!("{b:02x}")).collect()
}

fn definition(file: &str, start: usize, name: &str) -> DefinitionInfo {
    DefinitionInfo {
        file: file.to_string(),
        span_start: start,
        name: name.to_string(),
        qualified_name: format!("mod.{name}"),
        kind: "function".to_string(),
        language: "typescript".to_string(),
        framework: None,
        body_span: Some(BodySpan { start: start + 10, end: start + 90, line: 2, column: 3 }),
        is_async: false,
        parameters: Vec::new(),
        return_type: None,
    }
}

fn statement(line: usize, text: &str) -> StatementRegion {
    StatementRegion { line, normalized: text.to_string() }
}

fn members() -> Vec<NearMember> {
    vec![
        NearMember {
            definition: definition("src/b.ts", 0, "beta"),
            line_count: 12,
            token_count: 80,
            statement_count: 3,
            feature_hash: "ffff".to_string(),
            statements: vec![statement(2, "a = b"), statement(3, "call(a)"), statement(4, "return a")],
        },
        NearMember {
            definition: definition("src/a.ts", 5, "alpha"),
            line_count: 10,
            token_count: 90,
            statement_count: 4,
            feature_hash: "0000".to_string(),
            statements: vec![statement(7, "a = b"), statement(8, "log(a)"), statement(9, "return a")],
        },
    ]
}

fn pair(score: u8) -> NearPairScore {
    NearPairScore {
        left: 0,
        right: 1,
        score,
        token_similarity: 90,
        ast_similarity: 85,
        statement_similarity: 60,
        statement_count_similarity: 75,
        call_similarity: 40,
        signature_similarity: 100,
        signature_estimate: 88,
        control_flow_similarity: 70,
    }
}

fn candidates() -> LshCandidates {
    LshCandidates { pairs: BTreeSet::new(), skipped_large_buckets: 2, candidate_limit_reached: false }
}

fn meta<'a>(md: &'a [(String, MetadataValue)], key: &str) -> &'a MetadataValue {
    &md.iter().find(|(k, _)| k == key).expect("key").1
}

#[test]
fn near_finding_reports_members_by_file_and_hashes_sorted() {
    let features = members();
    let finding = build_near_finding(&features, &vec![pair(93)], &vec![0, 1], &candidates());
    assert_eq!(finding.rule_id, "duplicate.near.function");
    assert_eq!(finding.kind, FindingKind::NearDuplicate);
    assert_eq!(finding.severity, Severity::Medium);
    assert_eq!(finding.confidence, Confidence::High);
    assert_eq!(finding.message, "2 definitions are suspiciously similar.");
    assert_eq!(finding.locations[0].path, "src/a.ts");
    assert_eq!(finding.locations[1].path, "src/b.ts");
    let group_hash = hex_sha("near_duplicate_v1|0000|ffff");
    let key = hex_sha(&format!("duplicate.near.function|{group_hash}|mod.alpha|mod.beta"));
    assert_eq!(finding.baseline_key, key);
    assert_eq!(finding.finding_id, format!("duplicate.near.function:{}", &key[..12]));
    assert_eq!(finding.language.as_deref(), Some("typescript"));
    assert_eq!(finding.framework, None);
    let keys = finding.metadata.iter().map(|(k, _)| k.as_str()).collect::<Vec<_>>();
    let mut sorted = keys.clone();
    sorted.sort();
    assert_eq!(keys, sorted);
    assert_eq!(keys.len(), 25);
    let md = &finding.metadata;
    assert!(matches!(meta(md, "near_group_hash"), MetadataValue::Text(t) if *t == group_hash));
    assert!(matches!(meta(md, "similarity_score"), MetadataValue::Number(93)));
    assert!(matches!(meta(md, "line_count"), MetadataValue::Number(12)));
    assert!(matches!(meta(md, "token_estimate"), MetadataValue::Number(90)));
    assert!(matches!(meta(md, "statement_count"), MetadataValue::Number(4)));
    assert!(matches!(meta(md, "skipped_large_buckets"), MetadataValue::Number(2)));
    assert!(matches!(meta(md, "candidate_limit_reached"), MetadataValue::Flag(false)));
    match meta(md, "feature_hashes") {
        MetadataValue::TextList(l) => assert_eq!(l, &vec!["0000".to_string(), "ffff".to_string()]),
        _ => panic!("feature hashes"),
    }
    match meta(md, "signals") {
        MetadataValue::TextList(l) => assert_eq!(
            l,
            &vec![
                "similar_tokens".to_string(),
                "similar_ast_paths".to_string(),
                "similar_control_flow".to_string(),
                "compatible_signature".to_string(),
                "lsh_candidate".to_string(),
            ]
        ),
        _ => panic!("signals"),
    }
    match meta(md, "similar_regions") {
        MetadataValue::Records(rs) => {
            assert_eq!(rs.len(), 2);
            assert_eq!(rs[0][4], ("statement".to_string(), "a = b".to_string()));
            assert_eq!(rs[0][0], ("left_line".to_string(), "2".to_string()));
            assert_eq!(rs[0][2], ("right_line".to_string(), "7".to_string()));
            assert_eq!(rs[1][4], ("statement".to_string(), "return a".to_string()));
        }
        _ => panic!("similar regions"),
    }
    match meta(md, "differing_regions") {
        MetadataValue::Records(rs) => {
            assert_eq!(rs.len(), 2);
            assert_eq!(rs[0][1], ("statement".to_string(), "call(a)".to_string()));
            assert_eq!(rs[0][2], ("symbol".to_string(), "mod.beta".to_string()));
            assert_eq!(rs[1][1], ("statement".to_string(), "log(a)".to_string()));
        }
        _ => panic!("differing regions"),
    }
    match meta(md, "pair_scores") {
        MetadataValue::Records(rs) => {
            assert_eq!(rs.len(), 1);
            assert_eq!(rs[0][3], ("left".to_string(), "mod.beta".to_string()));
            assert_eq!(rs[0][5], ("score".to_string(), "93".to_string()));
        }
        _ => panic!("pair scores"),
    }
}

#[test]
fn near_finding_confidence_drops_below_ninety_and_ignores_outside_pairs() {
    let features = members();
    let mut outside = pair(10);
    outside.right = 5;
    let finding = build_near_finding(&features, &vec![pair(80), pair(85), outside], &vec![1, 0], &candidates());
    assert_eq!(finding.confidence, Confidence::Medium);
    assert!(matches!(meta(&finding.metadata, "similarity_percent"), MetadataValue::Number(83)));
}

#[test]
fn near_finding_metadata_lines_show_similarity_and_limits() {
    let features = members();
    let finding = build_near_finding(&features, &vec![pair(93)], &vec![0, 1], &candidates());
    let lines = metadata_lines(&finding);
    assert_eq!(
        lines,
        vec![
            "Symbols: alpha, beta".to_string(),
            "Similarity: 93%".to_string(),
            "Signals: similar_tokens, similar_ast_paths, similar_control_flow, compatible_signature, lsh_candidate"
                .to_string(),
            "Search limits: skipped large buckets: 2; candidate limit reached: false".to_string(),
        ]
    );
}

fn vector_members() -> Vec<VectorMember> {
    vec![
        VectorMember { definition: definition("src/z.ts", 0, "zeta"), summary_hash: "bb".to_string(), line_count: 8, token_estimate: 30 },
        VectorMember { definition: definition("src/y.ts", 0, "eta"), summary_hash: "aa".to_string(), line_count: 9, token_estimate: 20 },
    ]
}

fn vector_pair(vector: u8, rank: u8) -> VectorPairScore {
    VectorPairScore {
        left: 0,
        right: 1,
        vector_similarity: vector,
        rank_score: rank,
        ast_similarity: 55,
        signature_similarity: 40,
        call_similarity: 50,
        name_similarity: 70,
        framework_similarity: 100,
    }
}

#[test]
fn vector_candidate_finding_is_an_informational_candidate() {
    let features = vector_members();
    let mut options = VectorCandidateOptions::default();
    options.provider_id = "local".to_string();
    options.privacy_mode = "local-only".to_string();
    let finding = build_vector_candidate_finding(&features, &vec![vector_pair(92, 84)], &vec![0, 1], &options);
    assert_eq!(finding.rule_id, "duplicate.semantic.vector_candidate");
    assert_eq!(finding.kind, FindingKind::SemanticCandidate);
    assert_eq!(finding.severity, Severity::Info);
    assert_eq!(finding.confidence, Confidence::Medium);
    assert_eq!(finding.message, "2 definitions are vector-discovered semantic candidates.");
    assert_eq!(finding.locations[0].path, "src/y.ts");
    let group_hash = hex_sha("vector_candidate_v1|aa|bb");
    let key = hex_sha(&format!("duplicate.semantic.vector_candidate|{group_hash}|mod.eta|mod.zeta"));
    assert_eq!(finding.baseline_key, key);
    let md = &finding.metadata;
    assert_eq!(md.len(), 17);
    assert!(matches!(meta(md, "vector_score"), MetadataValue::Number(92)));
    assert!(matches!(meta(md, "rank_score"), MetadataValue::Number(84)));
    assert!(matches!(meta(md, "candidate_limit"), MetadataValue::Number(100)));
    assert!(matches!(meta(md, "embedding_provider"), MetadataValue::Text(t) if t == "local"));
    match meta(md, "deterministic_signals") {
        MetadataValue::TextList(l) => assert_eq!(
            l,
            &vec![
                "ast_similarity".to_string(),
                "call_similarity".to_string(),
                "name_similarity".to_string(),
                "framework_context".to_string(),
            ]
        ),
        _ => panic!("signals"),
    }
    let lines = metadata_lines(&finding);
    assert_eq!(lines[1], "Embedding provider: local; privacy: local-only");
    assert_eq!(lines[2], "Vector score: 92%; rank score: 84%");
}

#[test]
fn vector_candidate_confidence_is_low_below_thresholds() {
    let features = vector_members();
    let options = VectorCandidateOptions::default();
    let finding = build_vector_candidate_finding(&features, &vec![vector_pair(95, 80)], &vec![1, 0], &options);
    assert_eq!(finding.confidence, Confidence::Low);
}

#[test]
fn near_finding_is_the_same_whatever_the_member_order() {
    let features = members();
    let a = build_near_finding(&features, &vec![pair(93)], &vec![0, 1], &candidates());
    let b = build_near_finding(&features, &vec![pair(93)], &vec![1, 0], &candidates());
    assert_eq!(a.baseline_key, b.baseline_key);
    assert_eq!(a.finding_id, b.finding_id);
    let paths = |f: &codehealth::findings::Finding| f.locations.iter().map(|l| l.path.clone()).collect::<Vec<_>>();
    assert_eq!(paths(&a), paths(&b));
    assert_eq!(a.metadata.len(), b.metadata.len());
    let v = vector_members();
    let options = VectorCandidateOptions::default();
    let c = build_vector_candidate_finding(&v, &vec![vector_pair(92, 84)], &vec![0, 1], &options);
    let d = build_vector_candidate_finding(&v, &vec![vector_pair(92, 84)], &vec![1, 0], &options);
    assert_eq!(c.baseline_key, d.baseline_key);
}
