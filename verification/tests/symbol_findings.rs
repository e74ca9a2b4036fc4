use codehealth::findings::{Confidence, FindingKind, MetadataValue, Severity};
use codehealth::hashing::sha256_hex;
use codehealth::symbol_findings::{
    build_exact_body_finding, build_semantic_finding, build_structural_finding, signature_key, BodySpan, DefinitionInfo, ParameterInfo,
    SemanticBody, StructuralBody, SymbolBody,
};

fn definition(file: &str, start: usize, name: &str, framework: Option<&str>) -> DefinitionInfo {
    DefinitionInfo {
        file: file.to_string(),
        span_start: start,
        name: name.to_string(),
        qualified_name: format!("mod.{name}"),
        kind: "function".to_string(),
        language: "python".to_string(),
        framework: framework.map(str::to_string),
        body_span: Some(BodySpan { start: start + 10, end: start + 60, line: 2, column: 5 }),
        is_async: false,
        parameters: vec![ParameterInfo {
            name: "x".to_string(),
            type_annotation: Some("int".to_string()),
            default_value: None,
        }],
        return_type: Some("int".to_string()),
    }
}

fn body(definition: DefinitionInfo, size: usize, lines: usize, tokens: usize) -> SymbolBody {
    SymbolBody { definition, body_size_bytes: size, line_count: lines, token_estimate: tokens, stable_hash: "abc123".to_string() }
}

#[test]
fn signature_key_lists_parameters_and_return_type() {
    let mut d = definition("a.py", 0, "f", None);
    assert_eq!(signature_key(&d), "false(x:int=)->int");
    d.is_async = true;
    d.parameters.push(ParameterInfo { name: "y".to_string(), type_annotation: None, default_value: Some("2".to_string()) });
    d.return_type = None;
    assert_eq!(signature_key(&d), "true(x:int=,y:=2)->");
}

#[test]
fn exact_body_finding_describes_the_group() {
    let group = vec![
        body(definition("/repo/a.py", 0, "load", Some("fastapi")), 50, 5, 40),
        body(definition("/repo/b.py", 100, "fetch", None), 52, 6, 41),
    ];
    let finding = build_exact_body_finding(&group);
    let key = sha256_hex("duplicate.exact.body|abc123|/repo/a.py:0:mod.load|/repo/b.py:100:mod.fetch");
    assert_eq!(finding.baseline_key, key);
    assert_eq!(finding.finding_id, format!("duplicate.exact.body:{}", &key[..12]));
    assert_eq!(finding.rule_id, "duplicate.exact.body");
    assert_eq!(finding.kind, FindingKind::ExactDuplicate);
    assert_eq!(finding.severity, Severity::High);
    assert_eq!(finding.confidence, Confidence::Certain);
    assert_eq!(finding.message, "2 symbols have identical normalized bodies.");
    assert_eq!(finding.language.as_deref(), Some("python"));
    assert_eq!(finding.framework.as_deref(), Some("fastapi"));
    assert_eq!(finding.locations.len(), 2);
    assert_eq!(finding.locations[1].path, "/repo/b.py");
    assert_eq!(finding.locations[1].span.map(|s| (s.start, s.end)), Some((110, 160)));
    assert_eq!(finding.locations[1].start.map(|s| (s.line, s.column, s.byte_offset)), Some((2, 5, 110)));
    assert_eq!(
        finding.explanation,
        "These symbols have the same normalized body after comments and whitespace are removed. Body size: 52 bytes, lines: 6, token estimate: 41. Names differ: true. Signatures differ: false."
    );
    let keys: Vec<&str> = finding.metadata.iter().map(|(k, _)| k.as_str()).collect();
    assert_eq!(
        keys,
        vec![
            "body_size_bytes",
            "definition_kinds",
            "line_count",
            "names_differ",
            "normalized_body_hash",
            "signatures_differ",
            "symbol_names",
            "token_estimate"
        ]
    );
    match &finding.metadata[6].1 {
        MetadataValue::TextList(names) => assert_eq!(names, &vec!["fetch".to_string(), "load".to_string()]),
        other => panic!("unexpected {other:?}"),
    }
    match &finding.metadata[1].1 {
        MetadataValue::TextList(kinds) => assert_eq!(kinds, &vec!["function".to_string()]),
        other => panic!("unexpected {other:?}"),
    }
    assert!(matches!(finding.metadata[0].1, MetadataValue::Number(52)));
    assert!(matches!(finding.metadata[3].1, MetadataValue::Flag(true)));
    assert!(matches!(finding.metadata[5].1, MetadataValue::Flag(false)));
    assert!(!finding.is_suppressed);
}

#[test]
fn mixed_languages_and_frameworks_are_not_shared() {
    let mut other = definition("/repo/c.ts", 5, "load", Some("react"));
    other.language = "typescript".to_string();
    let group = vec![body(definition("/repo/a.py", 0, "load", Some("fastapi")), 10, 1, 1), body(other, 10, 1, 1)];
    let finding = build_exact_body_finding(&group);
    assert_eq!(finding.language, None);
    assert_eq!(finding.framework, None);
    assert!(matches!(finding.metadata[3].1, MetadataValue::Flag(false)));
}

fn semantic(definition: DefinitionInfo, confidence: Confidence, rewrites: &[&str], hash: Option<&str>) -> SemanticBody {
    SemanticBody {
        definition,
        line_count: 4,
        stable_hash: "sem42".to_string(),
        version: "semantic_v1".to_string(),
        serialization: "fn(a,b){return a+b}".to_string(),
        confidence,
        rewrites: rewrites.iter().map(|r| r.to_string()).collect(),
        skipped_rewrites: vec!["call".to_string()],
        safety_warnings: Vec::new(),
        type_evidence: vec!["int".to_string()],
        structural_hash: hash.map(str::to_string),
    }
}

#[test]
fn semantic_finding_takes_the_lowest_confidence_and_unions_metadata() {
    let group = vec![
        semantic(definition("/repo/a.py", 0, "add", None), Confidence::High, &["commutative", "boolean"], Some("h1")),
        semantic(definition("/repo/b.py", 7, "plus", None), Confidence::Medium, &["commutative"], Some("h2")),
    ];
    let finding = build_semantic_finding(&group);
    let key = sha256_hex("duplicate.semantic.function|sem42|/repo/a.py:0:mod.add|/repo/b.py:7:mod.plus");
    assert_eq!(finding.baseline_key, key);
    assert_eq!(finding.finding_id, format!("duplicate.semantic.function:{}", &key[..12]));
    assert_eq!(finding.kind, FindingKind::SemanticCandidate);
    assert_eq!(finding.severity, Severity::Medium);
    assert_eq!(finding.confidence, Confidence::Medium);
    assert_eq!(finding.message, "2 definitions share a conservative semantic fingerprint.");
    assert_eq!(finding.metadata.len(), 14);
    match &finding.metadata[9].1 {
        MetadataValue::TextList(signals) => assert_eq!(
            signals,
            &vec![
                "different_structural_hashes".to_string(),
                "rewrite:boolean".to_string(),
                "rewrite:commutative".to_string(),
                "same_semantic_fingerprint".to_string(),
            ]
        ),
        other => panic!("unexpected {other:?}"),
    }
    match &finding.metadata[7].1 {
        MetadataValue::TextList(rewrites) => assert_eq!(rewrites, &vec!["boolean".to_string(), "commutative".to_string()]),
        other => panic!("unexpected {other:?}"),
    }
    match &finding.metadata[1].1 {
        MetadataValue::Text(floor) => assert_eq!(floor, "medium"),
        other => panic!("unexpected {other:?}"),
    }
    match &finding.metadata[4].1 {
        MetadataValue::TextList(q) => assert_eq!(q, &vec!["mod.add".to_string(), "mod.plus".to_string()]),
        other => panic!("unexpected {other:?}"),
    }
    assert!(matches!(finding.metadata[3].1, MetadataValue::Number(4)));
}

fn structural(definition: DefinitionInfo, params: usize, opaque: usize, calls: &[&str]) -> StructuralBody {
    StructuralBody {
        definition,
        line_count: 7,
        stable_hash: "ast9".to_string(),
        version: "structural_v2".to_string(),
        literal_policy: "preserve".to_string(),
        node_count: 40,
        opaque_node_count: opaque,
        token_estimate: 33,
        parameter_count: params,
        return_shape: "value".to_string(),
        call_names: calls.iter().map(|c| c.to_string()).collect(),
        framework_context: Vec::new(),
    }
}

#[test]
fn structural_finding_scores_agreement() {
    let mut other = definition("/repo/b.py", 3, "fetch", None);
    other.qualified_name = "api.Client.fetch".to_string();
    let group = vec![
        structural(definition("/repo/a.py", 0, "load", None), 1, 0, &["get"]),
        structural(other, 1, 10, &["get"]),
    ];
    let finding = build_structural_finding(&group);
    let key = sha256_hex("duplicate.structural.function|ast9|/repo/a.py:0:mod.load|/repo/b.py:3:api.Client.fetch");
    assert_eq!(finding.baseline_key, key);
    assert_eq!(finding.kind, FindingKind::StructuralDuplicate);
    assert_eq!(finding.severity, Severity::Medium);
    assert_eq!(finding.confidence, Confidence::High);
    assert_eq!(finding.message, "2 symbols have the same canonical AST after identifier normalization.");
    assert_eq!(finding.metadata.len(), 19);
    assert!(matches!(finding.metadata[3].1, MetadataValue::Number(100)));
    assert!(matches!(finding.metadata[5].1, MetadataValue::Flag(true)));
    assert!(matches!(finding.metadata[12].1, MetadataValue::Number(25)));
    match &finding.metadata[16].1 {
        MetadataValue::TextList(signals) => assert_eq!(
            signals,
            &vec![
                "same_canonical_ast".to_string(),
                "compatible_parameter_count".to_string(),
                "same_asyncness".to_string(),
                "same_return_shape".to_string(),
                "same_call_names".to_string(),
            ]
        ),
        other => panic!("unexpected {other:?}"),
    }
}

#[test]
fn structural_confidence_drops_when_members_disagree() {
    let group = vec![
        structural(definition("/repo/a.py", 0, "load", None), 1, 5, &["get"]),
        structural(definition("/repo/b.py", 3, "load", None), 2, 5, &["post"]),
    ];
    let finding = build_structural_finding(&group);
    assert!(matches!(finding.metadata[3].1, MetadataValue::Number(80)));
    assert_eq!(finding.confidence, Confidence::High);
    assert!(matches!(finding.metadata[5].1, MetadataValue::Flag(false)));
    assert!(matches!(finding.metadata[12].1, MetadataValue::Number(12)));
}
