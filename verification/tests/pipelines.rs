use codehealth::components::connected_groups;
use codehealth::duplication::{
    DuplicateError, ExactBodyOptions, NearDuplicateOptions, SemanticDuplicateOptions, StructuralOptions, EXACT_BODY_RULE,
    NEAR_FUNCTION_RULE, SEMANTIC_FUNCTION_RULE, STRUCTURAL_FUNCTION_RULE,
};
use codehealth::findings::Confidence;
use codehealth::semantic::{find_semantic_function_duplicates, SemanticFacts, SemanticFingerprint};
use codehealth::structural::{find_structural_duplicates, StructuralFacts, StructuralFingerprint};
use codehealth::exact_body::find_exact_body_duplicates;
use codehealth::near_pipeline::{find_near_function_duplicates, NearInput, NearStructure};
use codehealth::parser::DefinitionKind;
use codehealth::symbol_findings::{BodySpan, DefinitionInfo};

fn definition(file: &str, name: &str, body_len: usize) -> DefinitionInfo {
    DefinitionInfo {
        file: file.to_string(),
        span_start: 0,
        name: name.to_string(),
        qualified_name: format!("mod.{name}"),
        kind: "function".to_string(),
        language: "typescript".to_string(),
        framework: None,
        body_span: Some(BodySpan { start: 0, end: body_len, line: 1, column: 1 }),
        is_async: false,
        parameters: Vec::new(),
        return_type: None,
    }
}

const BODY_A: &str = "{\n  // first\n  const total = left + right;\n  return total * 2;\n}\n";
const BODY_B: &str = "{\n  /* second */\n  const total = left + right;\n  return total * 2;\n}\n";

fn exact_options() -> ExactBodyOptions {
    ExactBodyOptions { min_lines: 2, min_tokens: 5 }
}

#[test]
fn exact_bodies_that_differ_only_in_comments_are_grouped() {
    let definitions = vec![definition("src/b.ts", "beta", BODY_B.len()), definition("src/a.ts", "alpha", BODY_A.len())];
    let sources = vec![Some(BODY_B.to_string()), Some(BODY_A.to_string())];
    let findings = find_exact_body_duplicates(&definitions, &sources, exact_options()).unwrap();
    assert_eq!(findings.len(), 1);
    assert_eq!(findings[0].rule_id, EXACT_BODY_RULE);
    assert_eq!(findings[0].locations.len(), 2);
    assert_eq!(findings[0].locations[0].path, "src/a.ts");
    assert_eq!(findings[0].locations[1].path, "src/b.ts");
}

#[test]
fn exact_bodies_below_the_token_minimum_are_not_compared() {
    let definitions = vec![definition("src/b.ts", "beta", BODY_B.len()), definition("src/a.ts", "alpha", BODY_A.len())];
    let sources = vec![Some(BODY_B.to_string()), Some(BODY_A.to_string())];
    let options = ExactBodyOptions { min_lines: 2, min_tokens: 500 };
    let findings = find_exact_body_duplicates(&definitions, &sources, options).unwrap();
    assert!(findings.is_empty());
}

#[test]
fn exact_bodies_of_one_symbol_are_not_a_duplicate() {
    let definitions = vec![definition("src/a.ts", "alpha", BODY_A.len()), definition("src/a.ts", "alpha", BODY_A.len())];
    let sources = vec![Some(BODY_A.to_string()), Some(BODY_A.to_string())];
    let findings = find_exact_body_duplicates(&definitions, &sources, exact_options()).unwrap();
    assert!(findings.is_empty());
}

#[test]
fn exact_body_detection_fails_on_an_unreadable_source() {
    let definitions = vec![definition("src/a.ts", "alpha", BODY_A.len()), definition("src/b.ts", "beta", BODY_B.len())];
    let sources = vec![Some(BODY_A.to_string()), None];
    match find_exact_body_duplicates(&definitions, &sources, exact_options()) {
        Err(DuplicateError::Read { path, message }) => {
            assert_eq!(path, "src/b.ts");
            assert_eq!(message, "failed to read source file");
        }
        Ok(_) => panic!("expected a read error"),
    }
}

#[test]
fn connected_groups_follow_chains_of_edges() {
    let groups = connected_groups(&vec![(0, 1), (2, 3), (1, 4)], 6);
    assert_eq!(groups, vec![vec![0, 1, 4], vec![2, 3]]);
}

#[test]
fn connected_groups_of_no_edges_are_empty() {
    let groups = connected_groups(&Vec::new(), 4);
    assert!(groups.is_empty());
}

const NEAR_BODY: &str = "{\n  const total = left + right;\n  if (total > limit) {\n    return clamp(total);\n  }\n  return total * 2;\n}\n";

fn near_input(file: &str, name: &str, canonical: &str) -> NearInput {
    NearInput {
        definition: definition(file, name, NEAR_BODY.len()),
        line_count: 7,
        structure: Some(NearStructure {
            canonical_hash: canonical.to_string(),
            serialization: "function_declaration statement_block lexical_declaration binary_expression if_statement return_statement call_expression return_statement binary_expression".to_string(),
            token_estimate: 20,
            parameter_count: 2,
            return_shape: "number".to_string(),
            is_async: false,
            kind: DefinitionKind::Function,
            call_names: vec!["clamp".to_string()],
        }),
    }
}

fn near_options() -> NearDuplicateOptions {
    NearDuplicateOptions { min_lines: 2, min_tokens: 5, ..NearDuplicateOptions::default() }
}

#[test]
fn near_functions_with_different_shapes_are_grouped() {
    let inputs = vec![near_input("src/b.ts", "beta", "hash-b"), near_input("src/a.ts", "alpha", "hash-a")];
    let sources = vec![Some(NEAR_BODY.to_string()), Some(NEAR_BODY.to_string())];
    let findings = find_near_function_duplicates(&inputs, &sources, near_options());
    assert_eq!(findings.len(), 1);
    assert_eq!(findings[0].rule_id, NEAR_FUNCTION_RULE);
    assert_eq!(findings[0].locations.len(), 2);
    assert_eq!(findings[0].locations[0].path, "src/a.ts");
}

#[test]
fn near_functions_with_one_canonical_shape_are_left_to_exact_detection() {
    let inputs = vec![near_input("src/b.ts", "beta", "same"), near_input("src/a.ts", "alpha", "same")];
    let sources = vec![Some(NEAR_BODY.to_string()), Some(NEAR_BODY.to_string())];
    assert!(find_near_function_duplicates(&inputs, &sources, near_options()).is_empty());
}

#[test]
fn near_detection_needs_a_usable_lsh_layout() {
    let inputs = vec![near_input("src/b.ts", "beta", "hash-b"), near_input("src/a.ts", "alpha", "hash-a")];
    let sources = vec![Some(NEAR_BODY.to_string()), Some(NEAR_BODY.to_string())];
    let options = NearDuplicateOptions { hash_functions: 95, ..near_options() };
    assert!(find_near_function_duplicates(&inputs, &sources, options).is_empty());
}

#[test]
fn near_detection_skips_unreadable_sources() {
    let inputs = vec![near_input("src/b.ts", "beta", "hash-b"), near_input("src/a.ts", "alpha", "hash-a")];
    let sources = vec![None, Some(NEAR_BODY.to_string())];
    assert!(find_near_function_duplicates(&inputs, &sources, near_options()).is_empty());
}

fn structural_fingerprint(hash: &str, opaque: usize) -> StructuralFingerprint {
    StructuralFingerprint {
        stable_hash: hash.to_string(),
        version: "structural-v1".to_string(),
        literal_policy: "preserve".to_string(),
        node_count: 40,
        opaque_node_count: opaque,
        token_estimate: 30,
        parameter_count: 2,
        return_shape: "value".to_string(),
        call_names: vec!["clamp".to_string()],
        framework_context: Vec::new(),
    }
}

fn structural_facts(hash: &str, opaque: usize) -> StructuralFacts {
    StructuralFacts { line_count: 6, preserved: Some(structural_fingerprint(hash, opaque)), literal_normalized: None }
}

#[test]
fn structural_duplicates_group_by_language_and_hash() {
    let definitions = vec![
        definition("src/b.ts", "beta", 10),
        definition("src/a.ts", "alpha", 10),
        definition("src/c.ts", "gamma", 10),
    ];
    let facts = vec![structural_facts("h1", 0), structural_facts("h1", 2), structural_facts("h2", 0)];
    let findings = find_structural_duplicates(&definitions, &facts, StructuralOptions::default());
    assert_eq!(findings.len(), 1);
    assert_eq!(findings[0].rule_id, STRUCTURAL_FUNCTION_RULE);
    assert_eq!(findings[0].locations.len(), 2);
    assert_eq!(findings[0].locations[0].path, "src/a.ts");
    assert_eq!(findings[0].locations[1].path, "src/b.ts");
}

#[test]
fn structural_duplicates_skip_mostly_opaque_fingerprints() {
    let definitions = vec![definition("src/b.ts", "beta", 10), definition("src/a.ts", "alpha", 10)];
    let facts = vec![structural_facts("h1", 20), structural_facts("h1", 0)];
    assert!(find_structural_duplicates(&definitions, &facts, StructuralOptions::default()).is_empty());
}

#[test]
fn structural_duplicates_compare_the_literal_normalized_fingerprint_when_asked() {
    let definitions = vec![definition("src/b.ts", "beta", 10), definition("src/a.ts", "alpha", 10)];
    let facts = vec![structural_facts("h1", 0), structural_facts("h1", 0)];
    let options = StructuralOptions { normalize_literals: true, ..StructuralOptions::default() };
    assert!(find_structural_duplicates(&definitions, &facts, options).is_empty());
}

fn semantic_fingerprint(hash: &str, rewrites: &[&str]) -> SemanticFingerprint {
    SemanticFingerprint {
        stable_hash: hash.to_string(),
        version: "semantic-v1".to_string(),
        serialization: "return add ( left , right ) ;".to_string(),
        confidence: Confidence::High,
        rewrites: rewrites.iter().map(|r| r.to_string()).collect(),
        skipped_rewrites: Vec::new(),
        safety_warnings: Vec::new(),
        type_evidence: Vec::new(),
    }
}

fn semantic_facts(hash: &str, rewrites: &[&str], structural: Option<&str>) -> SemanticFacts {
    SemanticFacts {
        line_count: 3,
        semantic: Some(semantic_fingerprint(hash, rewrites)),
        property_read: None,
        structural_hash: structural.map(|s| s.to_string()),
    }
}

#[test]
fn semantic_duplicates_need_a_rewrite_and_different_structures() {
    let definitions = vec![definition("src/b.ts", "beta", 10), definition("src/a.ts", "alpha", 10)];
    let facts = vec![
        semantic_facts("s1", &["commutative_numeric_add"], Some("x")),
        semantic_facts("s1", &[], Some("y")),
    ];
    let findings = find_semantic_function_duplicates(&definitions, &facts, SemanticDuplicateOptions::default());
    assert_eq!(findings.len(), 1);
    assert_eq!(findings[0].rule_id, SEMANTIC_FUNCTION_RULE);
    assert_eq!(findings[0].locations[0].path, "src/a.ts");
}

#[test]
fn semantic_duplicates_with_one_structure_are_left_to_structural_detection() {
    let definitions = vec![definition("src/b.ts", "beta", 10), definition("src/a.ts", "alpha", 10)];
    let facts = vec![
        semantic_facts("s1", &["commutative_numeric_add"], Some("x")),
        semantic_facts("s1", &[], Some("x")),
    ];
    assert!(find_semantic_function_duplicates(&definitions, &facts, SemanticDuplicateOptions::default()).is_empty());
}

#[test]
fn semantic_duplicates_without_rewrites_are_not_reported() {
    let definitions = vec![definition("src/b.ts", "beta", 10), definition("src/a.ts", "alpha", 10)];
    let facts = vec![semantic_facts("s1", &[], Some("x")), semantic_facts("s1", &[], Some("y"))];
    assert!(find_semantic_function_duplicates(&definitions, &facts, SemanticDuplicateOptions::default()).is_empty());
}

#[test]
fn semantic_duplicates_respect_disabled_rewrites() {
    let definitions = vec![definition("src/b.ts", "beta", 10), definition("src/a.ts", "alpha", 10)];
    let facts = vec![
        semantic_facts("s1", &["commutative_numeric_add"], Some("x")),
        semantic_facts("s1", &[], Some("y")),
    ];
    let options = SemanticDuplicateOptions { normalize_commutative_ops: false, ..SemanticDuplicateOptions::default() };
    assert!(find_semantic_function_duplicates(&definitions, &facts, options).is_empty());
}
