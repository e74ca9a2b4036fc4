use codehealth::findings::{
    AutofixSafety, Confidence, Finding, FindingKind, FindingLocation, ScanResult, ScoreOptions,
    Severity, SourceSpan,
};
use codehealth::scoring::{
    calculate_score, calculate_score_report, finding_in_category, finding_weights_fit, is_test_or_fixture_path,
    sort_findings, ScoreCategory,
};

fn finding(id: &str, severity: Severity, confidence: Confidence, path: &str) -> Finding {
    Finding {
        finding_id: id.to_string(),
        baseline_key: id.to_string(),
        rule_id: "duplicate.exact.file".to_string(),
        kind: FindingKind::ExactDuplicate,
        severity,
        confidence,
        message: format!("duplicate {id}"),
        locations: vec![FindingLocation {
            path: path.to_string(),
            span: None,
            start: None,
            language: None,
        }],
        language: None,
        framework: None,
        explanation: String::new(),
        remediation: String::new(),
        detection_reason: String::new(),
        autofix: AutofixSafety::Unavailable,
        autofix_explanation: String::new(),
        fixes: Vec::new(),
        metadata: Vec::new(),
        is_suppressed: false,
        suppression: None,
    }
}

#[test]
fn no_findings_score_a_clean_hundred() {
    assert_eq!(calculate_score(&Vec::new()), 100);
}

#[test]
fn info_findings_cost_nothing() {
    let findings = vec![finding("a", Severity::Info, Confidence::Certain, "src/a.ts")];
    assert_eq!(calculate_score(&findings), 100);
}

#[test]
fn one_certain_high_finding_costs_eight_points() {
    let findings = vec![finding("a", Severity::High, Confidence::Certain, "src/a.ts")];
    assert_eq!(calculate_score(&findings), 92);
}

#[test]
fn medium_high_confidence_finding_rounds_its_cost_up() {
    // 3 tenths x 80% = 2.4 points, rounded up to 3.
    let findings = vec![finding("a", Severity::Medium, Confidence::High, "src/a.ts")];
    assert_eq!(calculate_score(&findings), 97);
}

#[test]
fn findings_in_tests_cost_half() {
    let findings = vec![finding("a", Severity::High, Confidence::Certain, "tests/a.ts")];
    assert_eq!(calculate_score(&findings), 96);
}

#[test]
fn findings_in_generated_files_cost_a_quarter() {
    let findings = vec![finding("a", Severity::High, Confidence::Certain, "src/gen.ts")];
    let options = ScoreOptions {
        enabled: true,
        generated_paths: vec!["src/gen.ts".to_string()],
        baseline_new_keys: Vec::new(),
    };
    let report = calculate_score_report(&findings, &options);
    assert_eq!(report.overall, Some(98));
    assert_eq!(report.top_contributors.len(), 1);
    assert_eq!(report.top_contributors[0].penalty, 2);
    assert_eq!(report.categories.duplication.score, Some(98));
    assert_eq!(report.categories.style.score, Some(100));
}

#[test]
fn test_and_fixture_paths_are_recognised() {
    assert!(is_test_or_fixture_path("src/__tests__/a.ts"));
    assert!(is_test_or_fixture_path("pkg/Fixtures/data.py"));
    assert!(is_test_or_fixture_path("src/button.test.tsx"));
    assert!(is_test_or_fixture_path("src\\api.spec.ts"));
    assert!(!is_test_or_fixture_path("src/testing/a.ts"));
    assert!(!is_test_or_fixture_path("src/contest.ts"));
}

#[test]
fn duplicates_belong_to_the_duplication_category_only() {
    let f = finding("a", Severity::High, Confidence::Certain, "src/a.ts");
    let options = ScoreOptions::default();
    assert!(finding_in_category(&f, ScoreCategory::Duplication, &options));
    assert!(!finding_in_category(&f, ScoreCategory::Style, &options));
    assert_eq!(ScoreCategory::Duplication.label(), "duplication");
}

#[test]
fn findings_sort_by_severity_then_path_then_offset() {
    let mut low = finding("c", Severity::Low, Confidence::High, "a.ts");
    low.locations[0].span = Some(SourceSpan { start: 0, end: 1 });
    let mut late = finding("b", Severity::High, Confidence::High, "b.ts");
    late.locations[0].span = Some(SourceSpan { start: 9, end: 10 });
    let mut early = finding("a", Severity::High, Confidence::High, "b.ts");
    early.locations[0].span = Some(SourceSpan { start: 2, end: 3 });
    let first = finding("d", Severity::High, Confidence::High, "a.ts");

    let mut findings = vec![low, late, early, first];
    sort_findings(&mut findings);
    let ids: Vec<&str> = findings.iter().map(|f| f.finding_id.as_str()).collect();
    assert_eq!(ids, vec!["d", "a", "b", "c"]);
}

#[test]
fn finalize_orders_and_scores_findings() {
    let mut result = ScanResult::new("/repo".to_string());
    assert_eq!(result.score.overall, Some(100));
    result.findings = vec![
        finding("b", Severity::Low, Confidence::Certain, "b.ts"),
        finding("a", Severity::High, Confidence::Certain, "a.ts"),
    ];
    let result = result.finalize();
    assert_eq!(result.findings[0].finding_id, "a");
    // 8 points for the high finding, 1 for the low one.
    assert_eq!(result.score.overall, Some(91));
}

#[test]
fn weights_of_a_small_finding_fit() {
    let f = finding("a", Severity::High, Confidence::High, "src/a.ts");
    assert!(finding_weights_fit(&f, &ScoreOptions::default()));
}

#[test]
fn weights_of_a_finding_with_many_locations_do_not_fit() {
    let mut f = finding("a", Severity::High, Confidence::High, "src/a.ts");
    let location = f.locations[0].clone();
    for _ in 0..700 {
        f.locations.push(location.clone());
    }
    assert!(!finding_weights_fit(&f, &ScoreOptions::default()));
}
