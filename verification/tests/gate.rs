use codehealth::baseline::FindingBaselineStatus;
use codehealth::config::{CodehealthConfig, LoadedConfig};
use codehealth::findings::{
    AutofixSafety, Confidence, Finding, FindingKind, ScanResult, Severity,
};
use codehealth::gate::{
    config_fail_on, effective_baseline_path, effective_fail_on_values, parse_jobs, should_fail,
    FailOn,
};

fn finding(key: &str, severity: Severity, suppressed: bool) -> Finding {
    Finding {
        finding_id: key.to_string(),
        baseline_key: key.to_string(),
        rule_id: "duplicate.exact.file".to_string(),
        kind: FindingKind::ExactDuplicate,
        severity,
        confidence: Confidence::Certain,
        message: "duplicate".to_string(),
        locations: Vec::new(),
        language: None,
        framework: None,
        explanation: String::new(),
        remediation: String::new(),
        detection_reason: String::new(),
        autofix: AutofixSafety::Unavailable,
        autofix_explanation: String::new(),
        fixes: Vec::new(),
        metadata: Vec::new(),
        is_suppressed: suppressed,
        suppression: None,
    }
}

fn loaded(fail_on: &[&str]) -> LoadedConfig {
    let mut config = CodehealthConfig::default();
    config.ci.fail_on = fail_on.iter().map(|v| v.to_string()).collect();
    LoadedConfig { config, path: None, warnings: Vec::new() }
}

fn result_with(findings: Vec<Finding>) -> ScanResult {
    let mut result = ScanResult::new("/repo".to_string());
    result.findings = findings;
    result
}

#[test]
fn config_values_name_fail_conditions() {
    assert_eq!(config_fail_on("high"), Some(FailOn::High));
    assert_eq!(config_fail_on("new_high"), Some(FailOn::NewHigh));
    assert_eq!(config_fail_on("new_medium"), Some(FailOn::NewMedium));
    assert_eq!(config_fail_on("High"), None);
    assert!(FailOn::NewMedium.is_new_findings_only());
    assert!(!FailOn::High.is_new_findings_only());
}

#[test]
fn command_line_condition_wins_over_configuration() {
    let config = loaded(&["high", "bogus", "new_medium"]);
    assert_eq!(effective_fail_on_values(Some(FailOn::NewHigh), &config, false), vec![FailOn::NewHigh]);
    assert_eq!(
        effective_fail_on_values(None, &config, false),
        vec![FailOn::High, FailOn::NewMedium]
    );
    assert_eq!(effective_fail_on_values(None, &loaded(&["bogus"]), true), vec![FailOn::NewHigh]);
    assert!(effective_fail_on_values(None, &loaded(&[]), false).is_empty());
}

#[test]
fn baseline_path_falls_back_to_config_then_default_in_ci() {
    let mut config = CodehealthConfig::default();
    let given = "custom.json".to_string();
    assert_eq!(effective_baseline_path(Some(&given), &config, false), Some(given.clone()));
    config.ci.baseline = Some("configured.json".to_string());
    assert_eq!(effective_baseline_path(None, &config, false), Some("configured.json".to_string()));
    config.ci.baseline = None;
    assert_eq!(
        effective_baseline_path(None, &config, true),
        Some(".codehealth/baseline.json".to_string())
    );
    assert_eq!(effective_baseline_path(None, &config, false), None);
}

#[test]
fn high_condition_ignores_suppressed_findings() {
    let result = result_with(vec![finding("a", Severity::High, true), finding("b", Severity::Medium, false)]);
    assert!(!should_fail(&result, &vec![FailOn::High], &Vec::new()));

    let result = result_with(vec![finding("a", Severity::Critical, false)]);
    assert!(should_fail(&result, &vec![FailOn::High], &Vec::new()));
}

#[test]
fn new_conditions_look_only_at_new_findings() {
    let result = result_with(vec![
        finding("old", Severity::High, false),
        finding("fresh", Severity::Medium, false),
    ]);
    let statuses = vec![
        ("old".to_string(), FindingBaselineStatus::Existing),
        ("fresh".to_string(), FindingBaselineStatus::New),
    ];
    assert!(!should_fail(&result, &vec![FailOn::NewHigh], &statuses));
    assert!(should_fail(&result, &vec![FailOn::NewMedium], &statuses));
    assert!(should_fail(&result, &vec![FailOn::NewHigh, FailOn::High], &statuses));
    assert!(!should_fail(&result, &vec![FailOn::NewMedium], &Vec::new()));
    assert!(!should_fail(&result, &Vec::new(), &statuses));
}

#[test]
fn jobs_must_be_a_positive_integer() {
    assert_eq!(parse_jobs("4"), Ok(4));
    assert_eq!(parse_jobs("0"), Err("jobs must be greater than zero".to_string()));
    assert_eq!(parse_jobs("four"), Err("jobs must be a positive integer".to_string()));
    assert_eq!(parse_jobs(""), Err("jobs must be a positive integer".to_string()));
}
