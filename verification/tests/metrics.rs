use codehealth::findings::{
    AutofixSafety, Confidence, Finding, FindingKind, MetadataValue, Severity, SuppressedRuleMetric,
};
use codehealth::findings::FindingLocation;
use codehealth::metrics::{
    duplicate_summary, is_duplicate_finding, lexical_complexity, metadata_usize, sort_suppressed_rules,
};

fn finding(kind: FindingKind) -> Finding {
    Finding {
        finding_id: "f".to_string(),
        baseline_key: "k".to_string(),
        rule_id: "r".to_string(),
        kind,
        severity: Severity::Low,
        confidence: Confidence::High,
        message: String::new(),
        locations: Vec::new(),
        language: None,
        framework: None,
        explanation: String::new(),
        remediation: String::new(),
        detection_reason: String::new(),
        autofix: AutofixSafety::Unavailable,
        autofix_explanation: String::new(),
        fixes: Vec::new(),
        metadata: Vec::new(),
        is_suppressed: false,
        suppression: None,
    }
}

#[test]
fn duplicate_kinds_are_recognised() {
    assert!(is_duplicate_finding(&finding(FindingKind::ExactDuplicate)));
    assert!(is_duplicate_finding(&finding(FindingKind::NearDuplicate)));
    assert!(!is_duplicate_finding(&finding(FindingKind::Style)));
    assert!(!is_duplicate_finding(&finding(FindingKind::ExternalTool)));
}

#[test]
fn metadata_numbers_are_read_by_key() {
    let mut f = finding(FindingKind::ExactDuplicate);
    f.metadata = vec![
        ("line_count".to_string(), MetadataValue::Number(12)),
        ("name".to_string(), MetadataValue::Text("x".to_string())),
    ];
    assert_eq!(metadata_usize(&f, "line_count"), Some(12));
    assert_eq!(metadata_usize(&f, "name"), None);
    assert_eq!(metadata_usize(&f, "missing"), None);
}

#[test]
fn lexical_complexity_counts_branches_and_boolean_operators() {
    assert_eq!(lexical_complexity(""), 1);
    assert_eq!(lexical_complexity("if (a && b || c) { x } else { y }"), 5);
    assert_eq!(lexical_complexity("ELIF x: pass\nwhile y: match z"), 4);
    // `&&&` holds one `&&`; `iffy` is not a keyword.
    assert_eq!(lexical_complexity("a &&& b iffy"), 2);
}

#[test]
fn suppressed_rules_sort_by_count_then_id() {
    let mut rules = vec![
        SuppressedRuleMetric { rule_id: "b".to_string(), count: 1 },
        SuppressedRuleMetric { rule_id: "c".to_string(), count: 3 },
        SuppressedRuleMetric { rule_id: "a".to_string(), count: 1 },
    ];
    sort_suppressed_rules(&mut rules);
    let order: Vec<(&str, usize)> = rules.iter().map(|r| (r.rule_id.as_str(), r.count)).collect();
    assert_eq!(order, vec![("c", 3), ("a", 1), ("b", 1)]);
}

fn duplicate_at(paths: &[&str], lines: u64) -> Finding {
    let mut f = finding(FindingKind::ExactDuplicate);
    f.locations = paths
        .iter()
        .map(|p| FindingLocation { path: p.to_string(), span: None, start: None, language: None })
        .collect();
    f.metadata = vec![("line_count".to_string(), MetadataValue::Number(lines))];
    f
}

#[test]
fn duplicate_summary_counts_groups_lines_and_modules() {
    let mut hidden = duplicate_at(&["z.ts", "y.ts"], 100);
    hidden.is_suppressed = true;
    let findings = vec![
        duplicate_at(&["a.ts", "b.ts", "c.ts"], 10),
        duplicate_at(&["b.ts", "d.ts"], 4),
        hidden,
        finding(FindingKind::Style),
    ];
    let (groups, lines, modules) = duplicate_summary(&findings);
    assert_eq!(groups, 2);
    // 10 lines twice over, plus 4 lines once.
    assert_eq!(lines, 24);
    let rows: Vec<(&str, usize, usize)> = modules
        .iter()
        .map(|m| (m.path.as_str(), m.duplicate_findings, m.duplicate_lines))
        .collect();
    assert_eq!(rows, vec![("b.ts", 2, 14), ("a.ts", 1, 10), ("c.ts", 1, 10), ("d.ts", 1, 4)]);
}

#[test]
fn duplicate_summary_keeps_the_five_largest_modules() {
    let findings: Vec<Finding> = (1..=7u64)
        .map(|n| duplicate_at(&[&format!("m{n}.ts")], n))
        .collect();
    let (groups, lines, modules) = duplicate_summary(&findings);
    assert_eq!(groups, 7);
    assert_eq!(lines, 0);
    let paths: Vec<&str> = modules.iter().map(|m| m.path.as_str()).collect();
    assert_eq!(paths, vec!["m7.ts", "m6.ts", "m5.ts", "m4.ts", "m3.ts"]);
}
