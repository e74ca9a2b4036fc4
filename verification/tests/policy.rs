use codehealth::config::{CatalogRule, CodehealthConfig, PathOverride, RuleCatalog, RuleLevel, RuleOptions};
use codehealth::findings::{
    AutofixSafety, Confidence, Finding, FindingKind, FindingLocation, Location, Severity,
};
use codehealth::policy::{apply_config_policy, find_suppression_for_finding, rule_options_allow};
use codehealth::suppressions::{parse_suppressions, SuppressionKind};

fn catalog() -> RuleCatalog {
    RuleCatalog {
        rules: vec![
            CatalogRule {
                code: "duplicate.exact.file".to_string(),
                aliases: vec!["duplicate.exact_file".to_string()],
            },
            CatalogRule {
                code: "duplicate.exact.body".to_string(),
                aliases: vec![],
            },
        ],
    }
}

fn finding(id: &str, rule: &str, path: &str, line: usize) -> Finding {
    Finding {
        finding_id: id.to_string(),
        baseline_key: format!("key-{id}"),
        rule_id: rule.to_string(),
        kind: FindingKind::ExactDuplicate,
        severity: Severity::Medium,
        confidence: Confidence::High,
        message: format!("message {id}"),
        locations: vec![FindingLocation {
            path: path.to_string(),
            span: None,
            start: Some(Location { line, column: 1, byte_offset: 0 }),
            language: None,
        }],
        language: None,
        framework: None,
        explanation: String::new(),
        remediation: String::new(),
        detection_reason: String::new(),
        autofix: AutofixSafety::Unavailable,
        autofix_explanation: String::new(),
        fixes: Vec::new(),
        metadata: Vec::new(),
        is_suppressed: false,
        suppression: None,
    }
}

#[test]
fn level_for_rule_uses_canonical_id_and_path_overrides() {
    let mut config = CodehealthConfig::default();
    config.rules = vec![(
        "duplicate.exact.file".to_string(),
        RuleLevel::Severity(Severity::Low),
    )];
    config.path_overrides = vec![PathOverride {
        paths: vec!["tests/**".to_string()],
        rules: vec![("duplicate.exact.file".to_string(), RuleLevel::Off)],
    }];
    let catalog = catalog();

    let src = vec!["/repo/src/a.ts".to_string()];
    let tests = vec!["/repo/tests/a.ts".to_string()];
    assert_eq!(
        config.level_for_rule(&catalog, "duplicate.exact_file", "/repo", &src),
        RuleLevel::Severity(Severity::Low)
    );
    assert_eq!(
        config.level_for_rule(&catalog, "duplicate.exact.file", "/repo", &tests),
        RuleLevel::Off
    );
    assert_eq!(
        config.level_for_rule(&catalog, "duplicate.exact.body", "/repo", &src),
        RuleLevel::Inherit
    );
}

#[test]
fn rule_options_filter_findings_by_path() {
    let mut config = CodehealthConfig::default();
    let mut options = RuleOptions::default();
    options.exclude_paths = vec!["generated/**".to_string()];
    config.rule_options = vec![("duplicate.exact.file".to_string(), options)];
    let catalog = catalog();

    let kept = finding("a", "duplicate.exact.file", "/repo/src/a.ts", 1);
    let dropped = finding("b", "duplicate.exact.file", "/repo/generated/b.ts", 1);
    assert!(rule_options_allow(&kept, "/repo", &config, &catalog));
    assert!(!rule_options_allow(&dropped, "/repo", &config, &catalog));
}

#[test]
fn policy_drops_rules_that_are_off_and_sets_levels() {
    let mut config = CodehealthConfig::default();
    config.rules = vec![
        ("duplicate.exact.body".to_string(), RuleLevel::Off),
        ("duplicate.exact.file".to_string(), RuleLevel::Severity(Severity::High)),
    ];
    let findings = vec![
        finding("a", "duplicate.exact.file", "/repo/a.ts", 3),
        finding("b", "duplicate.exact.body", "/repo/b.ts", 3),
    ];

    let outcome = apply_config_policy(findings, "/repo", &config, &catalog(), &Vec::new(), false);

    assert_eq!(outcome.findings.len(), 1);
    assert_eq!(outcome.findings[0].finding_id, "a");
    assert_eq!(outcome.findings[0].severity, Severity::High);
    assert_eq!(outcome.suppressed_count, 0);
    assert!(outcome.warnings.is_empty());
}

#[test]
fn inline_suppression_hides_findings_and_reports_warnings() {
    let source = "const a = 1;\n// codehealth-ignore-next-line duplicate.exact_file\nconst b = 2;\n";
    let suppressions = parse_suppressions("/repo/a.ts", source, &catalog());
    let config = CodehealthConfig::default();
    let hidden = finding("a", "duplicate.exact.file", "/repo/a.ts", 3);
    let visible = finding("b", "duplicate.exact.file", "/repo/a.ts", 1);

    assert_eq!(find_suppression_for_finding(&hidden, &suppressions, &catalog()), Some(0));
    assert_eq!(find_suppression_for_finding(&visible, &suppressions, &catalog()), None);

    let outcome = apply_config_policy(
        vec![hidden.clone(), visible.clone()],
        "/repo",
        &config,
        &catalog(),
        &suppressions,
        false,
    );
    assert_eq!(outcome.findings.len(), 1);
    assert_eq!(outcome.findings[0].finding_id, "b");
    assert_eq!(outcome.suppressed_count, 1);
    assert_eq!(
        outcome.suppressed_rule_counts,
        vec![("duplicate.exact.file".to_string(), 1)]
    );
    assert_eq!(
        outcome.warnings,
        vec!["warning: /repo/a.ts:2: suppression reason is missing".to_string()]
    );

    let shown = apply_config_policy(
        vec![hidden, visible],
        "/repo",
        &config,
        &catalog(),
        &suppressions,
        true,
    );
    assert_eq!(shown.findings.len(), 2);
    assert!(shown.findings[0].is_suppressed);
    let suppression = shown.findings[0].suppression.as_ref().expect("recorded");
    assert_eq!(suppression.line, 2);
    assert_eq!(suppression.rule_id, "duplicate.exact.file");
    assert!(!shown.findings[1].is_suppressed);
}

#[test]
fn block_suppressions_cover_lines_until_their_end() {
    let source = "# codehealth-ignore-start duplicate.exact.body -- generated\na\nb\n# codehealth-ignore-end duplicate.exact.body\nc\n";
    let suppressions = parse_suppressions("m.py", source, &catalog());

    assert_eq!(suppressions.len(), 1);
    let block = &suppressions[0];
    assert_eq!(block.kind, SuppressionKind::Block);
    assert_eq!(block.line, 1);
    assert_eq!(block.target_start_line, 2);
    assert_eq!(block.target_end_line, 3);
    assert_eq!(block.reason.as_deref(), Some("generated"));
    assert!(block.warnings.is_empty());
    assert!(block.matches(&catalog(), "duplicate.exact.body", 3));
    assert!(!block.matches(&catalog(), "duplicate.exact.body", 4));
    assert!(!block.matches(&catalog(), "duplicate.exact.file", 2));
}

#[test]
fn unclosed_blocks_run_to_the_end_of_the_file() {
    let source = "// codehealth-ignore-start duplicate.exact.file -- vendored\nx\ny\n";
    let suppressions = parse_suppressions("v.ts", source, &catalog());

    assert_eq!(suppressions.len(), 1);
    assert_eq!(suppressions[0].target_start_line, 2);
    assert_eq!(suppressions[0].target_end_line, 3);
}

#[test]
fn unknown_rules_in_directives_are_ignored() {
    let source = "// codehealth-ignore-next-line not.a.rule -- whatever\nx\n";
    assert!(parse_suppressions("v.ts", source, &catalog()).is_empty());
}
