use codehealth::findings::{Confidence, FindingKind, MetadataValue, Severity};
use codehealth::integrations::{
    dedupe_external_findings, diagnostic_to_finding, locations_overlap, merge_external_findings,
    parse_mypy_text, parse_tsc_text, ExternalDiagnostic, ExternalTool,
};

#[test]
fn parses_tsc_text_diagnostics() {
    let raw = "src/index.ts(1,7): error TS2322: Type 'number' is not assignable to type 'string'.";
    let findings = parse_tsc_text("C:/repo", "C:/repo", raw);

    assert_eq!(findings.len(), 1);
    assert_eq!(findings[0].rule_code, "ts2322");
    assert_eq!(findings[0].severity, Severity::High);
    assert_eq!(findings[0].line, Some(1));
}

#[test]
fn parses_mypy_text_with_windows_paths() {
    let raw = "C:\\repo\\pkg\\app.py:4:9: error: Incompatible types [assignment]";
    let findings = parse_mypy_text("C:/repo", "C:/repo", raw);

    assert_eq!(findings.len(), 1);
    assert_eq!(findings[0].rule_code, "assignment");
    assert_eq!(findings[0].line, Some(4));
    assert_eq!(findings[0].column, Some(9));
}

#[test]
fn dedupes_identical_external_findings() {
    let diagnostic = ExternalDiagnostic {
        tool: ExternalTool::Tsc,
        rule_code: "ts2322".to_string(),
        severity: Severity::High,
        confidence: Confidence::Certain,
        message: "Type mismatch".to_string(),
        path: "C:/repo/src/app.ts".to_string(),
        line: Some(1),
        column: Some(1),
        byte_span: None,
        external_severity: Some("error".to_string()),
        help: None,
    };
    let first = diagnostic_to_finding("C:/repo", "C:/repo", &diagnostic);
    let second = diagnostic_to_finding("C:/repo", "C:/repo", &diagnostic);

    assert_eq!(dedupe_external_findings(vec![first, second]).len(), 1);
}

fn located(id: &str, kind: codehealth::findings::FindingKind, path: &str, start: usize, end: usize) -> codehealth::findings::Finding {
    codehealth::findings::Finding {
        finding_id: id.to_string(),
        baseline_key: id.to_string(),
        rule_id: format!("rule.{id}"),
        kind,
        severity: Severity::Medium,
        confidence: Confidence::High,
        message: format!("message {id}"),
        locations: vec![codehealth::findings::FindingLocation {
            path: path.to_string(),
            span: Some(codehealth::findings::SourceSpan { start, end }),
            start: None,
            language: None,
        }],
        language: None,
        framework: None,
        explanation: String::new(),
        remediation: String::new(),
        detection_reason: String::new(),
        autofix: codehealth::findings::AutofixSafety::Unavailable,
        autofix_explanation: String::new(),
        fixes: Vec::new(),
        metadata: Vec::new(),
        is_suppressed: false,
        suppression: None,
    }
}

#[test]
fn overlapping_tool_findings_are_noted_on_the_finding() {

    let mut findings = vec![located("own", FindingKind::ExactDuplicate, "src/a.ts", 0, 10)];
    let mut overlapping = located("lint", FindingKind::ExternalTool, "src/a.ts", 5, 8);
    overlapping.metadata = vec![("external_tool".to_string(), MetadataValue::Text("eslint".to_string()))];
    let elsewhere = located("other", FindingKind::ExternalTool, "src/b.ts", 0, 3);
    let duplicate = overlapping.clone();

    assert!(locations_overlap(&findings[0].locations[0], &overlapping.locations[0]));
    assert!(!locations_overlap(&findings[0].locations[0], &elsewhere.locations[0]));

    merge_external_findings(&mut findings, vec![overlapping, elsewhere, duplicate]);

    assert_eq!(findings.len(), 2);
    assert_eq!(findings[1].finding_id, "other");
    let (key, value) = &findings[0].metadata[0];
    assert_eq!(key, "external_overlaps");
    match value {
        MetadataValue::Records(records) => {
            assert_eq!(records.len(), 1);
            assert_eq!(
                records[0],
                vec![
                    ("message".to_string(), "message lint".to_string()),
                    ("rule_id".to_string(), "rule.lint".to_string()),
                    ("tool".to_string(), "eslint".to_string()),
                ]
            );
        }
        other => panic!("expected records, got {other:?}"),
    }
}

#[test]
fn touching_spans_do_not_overlap() {
    let left = located("a", FindingKind::Style, "x.py", 0, 5);
    let right = located("b", FindingKind::Style, "x.py", 5, 9);
    assert!(!locations_overlap(&left.locations[0], &right.locations[0]));
}
