use codehealth::findings::{
    line_column_for_offset, slice_source, AutofixSafety, Confidence, Finding, FindingKind,
    FindingLocation, Severity, SourceError, SourceSpan, ScoreOptions,
};
use codehealth::scoring::{calculate_score, calculate_score_report};

fn sample_finding(id: &str) -> Finding {
    Finding {
        finding_id: id.to_string(),
        baseline_key: id.to_string(),
        rule_id: "duplicate.exact.file".to_string(),
        kind: FindingKind::ExactDuplicate,
        severity: Severity::High,
        confidence: Confidence::Certain,
        message: "duplicate".to_string(),
        locations: Vec::new(),
        language: None,
        framework: None,
        explanation: String::new(),
        remediation: String::new(),
        detection_reason: String::new(),
        autofix: AutofixSafety::Unavailable,
        autofix_explanation: String::new(),
        fixes: Vec::new(),
        metadata: Vec::new(),
        is_suppressed: false,
        suppression: None,
    }
}

#[test]
fn severity_blocks_only_high_confidence_high_or_critical_findings() {
    assert!(Severity::High.blocks_by_default(Confidence::High));
    assert!(Severity::Critical.blocks_by_default(Confidence::Certain));
    assert!(!Severity::High.blocks_by_default(Confidence::Medium));
    assert!(!Severity::Medium.blocks_by_default(Confidence::Certain));
}

#[test]
fn line_column_counts_utf8_characters() {
    let source = "a\nbete\nc";
    let offset = source.find('c').expect("fixture contains c");
    let location = line_column_for_offset(source, offset).expect("valid offset");

    assert_eq!(location.line, 3);
    assert_eq!(location.column, 1);
}

#[test]
fn slicing_rejects_non_utf8_boundary() {
    let source = "eclair";
    let source = source.replacen('e', "é", 1);
    let span = SourceSpan::new(1, 2).expect("ordered span");

    assert!(matches!(
        slice_source(&source, span),
        Err(SourceError::InvalidUtf8Boundary { offset: 1 })
    ));
}

#[test]
fn score_applies_deterministic_penalty() {
    assert_eq!(calculate_score(&vec![sample_finding("one")]), 92);
}

#[test]
fn score_weights_confidence_and_test_fixture_context() {
    let mut finding = sample_finding("one");
    finding.confidence = Confidence::Medium;
    assert_eq!(calculate_score(&vec![finding]), 96);

    let mut fixture_finding = sample_finding("two");
    fixture_finding.locations = vec![FindingLocation {
        path: "tests/fixture.ts".to_string(),
        span: None,
        start: None,
        language: Some("typescript".to_string()),
    }];
    assert_eq!(calculate_score(&vec![fixture_finding]), 96);
}

#[test]
fn score_caps_repeated_identical_findings() {
    let findings = (0..20)
        .map(|index| sample_finding(&format!("finding-{index}")))
        .collect::<Vec<_>>();

    assert_eq!(calculate_score(&findings), 76);
}

#[test]
fn disabled_score_has_no_overall_value() {
    let report = calculate_score_report(
        &vec![sample_finding("one")],
        &ScoreOptions {
            enabled: false,
            ..ScoreOptions::default()
        },
    );

    assert!(!report.enabled);
    assert_eq!(report.overall, None);
}

#[test]
fn score_keeps_global_and_category_scores_separate() {
    let report = calculate_score_report(&vec![sample_finding("one")], &ScoreOptions::default());

    assert_eq!(report.overall, Some(92));
    assert_eq!(report.categories.duplication.score, Some(92));
    assert_eq!(report.categories.maintainability.score, Some(92));
    assert_eq!(report.categories.react.score, Some(100));
}

#[test]
fn confidence_labels_parse_back() {
    for c in [Confidence::Low, Confidence::Medium, Confidence::High, Confidence::Certain] {
        assert_eq!(Confidence::parse_label(c.label()).ok(), Some(c));
    }
    assert_eq!(Confidence::parse_label("CERTAIN").ok(), Some(Confidence::Certain));
    assert!(Confidence::parse_label("sure").is_err());
}

#[test]
fn severities_are_ordered_by_rank() {
    assert!(Severity::Info < Severity::Low);
    assert!(Severity::Low < Severity::Medium);
    assert!(Severity::Medium < Severity::High);
    assert!(Severity::High < Severity::Critical);
    assert!(Severity::Critical >= Severity::Medium);
    assert_eq!(Severity::High.partial_cmp(&Severity::High), Some(std::cmp::Ordering::Equal));
}
