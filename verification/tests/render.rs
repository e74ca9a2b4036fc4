use codehealth::baseline::FindingBaselineStatus;
use codehealth::findings::{
    AutofixSafety, Confidence, Finding, FindingKind, FindingLocation, Location, ScanResult, Severity,
    SourceSpan,
};
use codehealth::snippets::{snippet_can_be_cut, source_snippet};
use codehealth::render::{render_html, render_markdown, render_text, status_of, LocationSource, ReportContext, ReportTiming};

fn finding(key: &str, severity: Severity, message: &str) -> Finding {
    Finding {
        finding_id: key.to_string(),
        baseline_key: key.to_string(),
        rule_id: "duplicate.exact.file".to_string(),
        kind: FindingKind::ExactDuplicate,
        severity,
        confidence: Confidence::Certain,
        message: message.to_string(),
        locations: vec![FindingLocation {
            path: "/repo/src/a.ts".to_string(),
            span: Some(SourceSpan { start: 10, end: 20 }),
            start: Some(Location { line: 3, column: 5, byte_offset: 10 }),
            language: Some("typescript".to_string()),
        }],
        language: Some("typescript".to_string()),
        framework: None,
        explanation: String::new(),
        remediation: String::new(),
        detection_reason: String::new(),
        autofix: AutofixSafety::SuggestionOnly,
        autofix_explanation: "Review it.".to_string(),
        fixes: Vec::new(),
        metadata: Vec::new(),
        is_suppressed: false,
        suppression: None,
    }
}

fn result_with(findings: Vec<Finding>) -> ScanResult {
    let mut result = ScanResult::new("/repo".to_string());
    result.findings = findings;
    result
}

#[test]
fn baseline_status_is_looked_up_by_key() {
    let statuses = vec![
        ("other".to_string(), FindingBaselineStatus::Existing),
        ("k1".to_string(), FindingBaselineStatus::New),
        ("k1".to_string(), FindingBaselineStatus::Changed),
    ];
    assert_eq!(status_of(&statuses, &finding("k1", Severity::High, "m")), "new");
    assert_eq!(status_of(&statuses, &finding("k2", Severity::High, "m")), "not_checked");
}

fn context(statuses: Vec<(String, FindingBaselineStatus)>) -> ReportContext {
    ReportContext {
        tool_version: "0.1.0".to_string(),
        config_hash: "abc".to_string(),
        timing: ReportTiming { scan_ms: 0, report_ms: 0, total_ms: 0 },
        new_finding_keys: Vec::new(),
        statuses,
        fixed_findings: Vec::new(),
    }
}

#[test]
fn text_report_includes_counts() {
    let result = ScanResult::new("fixtures".to_string()).finalize();
    let rendered = render_text(&result, false, &context(Vec::new()));
    assert!(rendered.contains("Code Health Report"));
    assert!(rendered.contains("Files scanned: 0"));
    assert!(rendered.contains("Findings: 0"));
}

#[test]
fn color_can_be_forced_for_text_output() {
    let result = result_with(vec![finding("k1", Severity::High, "same body")]);
    let rendered = render_text(&result, true, &context(Vec::new()));
    assert!(rendered.contains("\u{1b}[31mHIGH\u{1b}[0m"));
}

#[test]
fn text_report_prints_counts_and_groups_by_severity() {
    let result = result_with(vec![finding("k1", Severity::High, "same body")]);
    let statuses = vec![("k1".to_string(), FindingBaselineStatus::New)];
    let text = render_text(&result, false, &context(statuses));
    assert!(text.starts_with("Code Health Report\n\nScore: 100/100\n"));
    assert!(text.contains("Definitions indexed: 0\n"));
    assert!(text.contains("Imports indexed: 0\n"));
    assert!(text.contains("Duplicate groups: 0\n"));
    assert!(text.contains("Duplicate lines: 0\n"));
    assert!(!text.contains("Parse errors"));
    assert!(text.contains("Findings by severity"));
    assert!(text.contains("HIGH (1)"));
    assert!(text.contains("Baseline status: new"));
    assert!(text.contains("Message: same body"));
    assert!(text.contains("src/a.ts:3:5"));
}

#[test]
fn markdown_report_is_a_summary_with_escaped_rows() {
    let result = result_with(vec![finding("k1", Severity::High, "a | b")]);
    let md = render_markdown(&result, &context(Vec::new()));
    assert!(md.starts_with("# Code Health Summary\n\n- Score: 100/100\n- Files scanned: 0\n- Lines scanned: 0\n- Findings: 1\n\n"));
    assert!(md.contains("## Findings\n\n"));
    assert!(md.contains("a \\| b"));
}

#[test]
fn markdown_report_without_findings_says_so() {
    let result = ScanResult::new("/repo".to_string());
    let md = render_markdown(&result, &context(Vec::new()));
    assert_eq!(
        md,
        "# Code Health Summary\n\n- Score: 100/100\n- Files scanned: 0\n- Lines scanned: 0\n- Findings: 0\n\nNo findings.\n"
    );
}

#[test]
fn html_report_escapes_every_text() {
    let result = result_with(vec![finding("k1", Severity::Medium, "x < y & z")]);
    let sources = vec![vec![LocationSource { computed_start: None, snippet: Some("let a = 1;".to_string()) }]];
    let html = render_html(&result, &context(Vec::new()), "{\"m\":\"</script>\"}", &sources);
    assert!(html.starts_with("<!doctype html><html lang=\"en\"><head><meta charset=\"utf-8\">"));
    assert!(html.contains("<p class=\"muted\">Schema 1.0.0 · Tool 0.1.0 · Config abc</p>"));
    assert!(html.contains("<div class=\"metric\"><strong>Score</strong><span>100/100</span></div>"));
    assert!(html.contains("<div class=\"metric\"><strong>New findings</strong><span>n/a</span></div>"));
    assert!(html.contains(
        "<article class=\"finding\" data-severity=\"medium\" data-confidence=\"certain\" data-rule=\"duplicate.exact.file\" data-language=\"typescript\" data-framework=\"\"><header><span class=\"badge severity-medium\">medium</span><code>duplicate.exact.file</code><strong>x &lt; y &amp; z</strong></header><ul class=\"locations\"><li><code>src/a.ts:3:5</code></li></ul>"
    ));
    assert!(html.contains("<pre>let a = 1;</pre>"));
    assert!(html.contains("<details><summary>Duplicate group duplicate.exact.file|k1</summary><ul></ul></details></article>"));
    assert!(html.contains("window.CODEHEALTH_REPORT={\"m\":\"<\\/script>\"};\n"));
    assert!(html.ends_with("</script></main></body></html>"));
}

#[test]
fn html_location_without_start_uses_the_computed_one() {
    let mut f = finding("k1", Severity::Low, "m");
    f.locations[0].start = None;
    let result = result_with(vec![f]);
    let sources = vec![vec![LocationSource { computed_start: Some((7, 2)), snippet: None }]];
    let html = render_html(&result, &context(Vec::new()), "{}", &sources);
    assert!(html.contains("<li><code>src/a.ts:7:2</code></li>"));
    assert!(!html.contains("<pre>"));
}

#[test]
fn snippets_keep_twelve_lines_and_cut_long_text() {
    let source = (1..=14).map(|n| format!("line {n}")).collect::<Vec<_>>().join("\n") + "\n   \n";
    let span = SourceSpan { start: 0, end: source.len() };
    assert!(snippet_can_be_cut(&source, span));
    let expected = (1..=12).map(|n| format!("line {n}")).collect::<Vec<_>>().join("\n") + "\n...";
    assert_eq!(source_snippet(&source, span), Some(expected));
    assert_eq!(source_snippet(&source, SourceSpan { start: 3, end: 3 }), None);
    assert_eq!(source_snippet("a   \n  ", SourceSpan { start: 1, end: 7 }), None);
    let long = "x".repeat(2500);
    let cut = source_snippet(&long, SourceSpan { start: 0, end: 2500 }).expect("snippet");
    assert_eq!(cut.len(), 2003);
    assert!(cut.ends_with("xxx..."));
    let wide = "é".repeat(1500);
    assert!(snippet_can_be_cut(&wide, SourceSpan { start: 0, end: wide.len() }));
    let odd = format!("a{}", "é".repeat(1500));
    assert!(!snippet_can_be_cut(&odd, SourceSpan { start: 0, end: odd.len() }));
}
