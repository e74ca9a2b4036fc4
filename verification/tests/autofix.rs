use codehealth::parser::{LineColumn, ParseDiagnostic, Span};
use codehealth::autofix::{
    apply_edits_to_source, collect_safe_fixes, detect_conflicts, rewrite_planned_files, AutofixError, FileEdits, FixPlan,
};
use codehealth::findings::{
    AutofixSafety, Confidence, Edit, Finding, FindingKind, Fix, FixApplicability, Severity,
    SourceSpan,
};

#[test]
fn rejects_overlapping_edits() {
    let path = "a.ts".to_string();
    let edits = vec![
        Edit {
            file: path.clone(),
            span: SourceSpan { start: 0, end: 5 },
            replacement: "one".to_string(),
        },
        Edit {
            file: path.clone(),
            span: SourceSpan { start: 4, end: 7 },
            replacement: "two".to_string(),
        },
    ];

    assert!(matches!(
        detect_conflicts(&path, &edits),
        Err(AutofixError::OverlappingEdits { .. })
    ));
}

#[test]
fn applies_multi_edit_fixes_from_the_end() {
    let edits = vec![
        Edit {
            file: "a.ts".to_string(),
            span: SourceSpan { start: 0, end: 5 },
            replacement: "let".to_string(),
        },
        Edit {
            file: "a.ts".to_string(),
            span: SourceSpan { start: 13, end: 14 },
            replacement: "value".to_string(),
        },
    ];

    assert_eq!(
        apply_edits_to_source("const name = 1;", &edits),
        "let name = value;"
    );
}

#[test]
fn collects_only_safe_machine_applicable_fixes() {
    let safe_fix = Fix {
        title: "safe".to_string(),
        safety: AutofixSafety::Safe,
        applicability: FixApplicability::MachineApplicable,
        edits: Vec::new(),
    };
    let suggestion = Fix {
        title: "suggest".to_string(),
        safety: AutofixSafety::SuggestionOnly,
        applicability: FixApplicability::SuggestionOnly,
        edits: Vec::new(),
    };
    let finding = Finding {
        finding_id: "id".to_string(),
        baseline_key: "key".to_string(),
        rule_id: "style.test".to_string(),
        kind: FindingKind::Style,
        severity: Severity::Low,
        confidence: Confidence::Medium,
        message: "message".to_string(),
        locations: Vec::new(),
        language: None,
        framework: None,
        explanation: String::new(),
        remediation: String::new(),
        detection_reason: String::new(),
        autofix: AutofixSafety::Safe,
        autofix_explanation: String::new(),
        fixes: vec![safe_fix, suggestion],
        metadata: Vec::new(),
        is_suppressed: false,
        suppression: None,
    };

    assert_eq!(collect_safe_fixes(&[finding]).len(), 1);
}

#[test]
fn planned_files_are_rewritten_only_when_every_file_passes() {
    let edit = |file: &str, start: usize, end: usize, text: &str| codehealth::findings::Edit {
        file: file.to_string(),
        span: codehealth::findings::SourceSpan { start, end },
        replacement: text.to_string(),
    };
    let plan = FixPlan {
        planned_fixes: 2,
        planned_edits: 2,
        files: vec![
            FileEdits { path: "a.ts".to_string(), edits: vec![edit("a.ts", 0, 3, "let")] },
            FileEdits { path: "b.ts".to_string(), edits: vec![edit("b.ts", 4, 9, "x")] },
        ],
    };
    let sources = vec!["var a = 1;".to_string(), "let yyyyy = 2;".to_string()];
    let ok = rewrite_planned_files(&plan, &sources, &vec![], &vec![]);
    assert_eq!(ok.ok(), Some(vec!["let a = 1;".to_string(), "let x = 2;".to_string()]));
    let short = rewrite_planned_files(&plan, &vec!["var a = 1;".to_string(), "let".to_string()], &vec![], &vec![]);
    assert!(matches!(short, Err(AutofixError::InvalidSpan { .. })));
    let diagnostic = |start: usize, end: usize| ParseDiagnostic {
        message: "unexpected token".to_string(),
        span: Span {
            start,
            end,
            start_position: LineColumn { line: 1, column: start + 1 },
            end_position: LineColumn { line: 1, column: end + 1 },
        },
        node_kind: "ERROR".to_string(),
    };
    let touched = rewrite_planned_files(&plan, &sources, &vec![vec![], vec![diagnostic(5, 6)]], &vec![]);
    assert!(matches!(touched, Err(AutofixError::ParseErrorInTouchedRegion { ref path, .. }) if path == "b.ts"));
    let untouched = rewrite_planned_files(&plan, &sources, &vec![vec![diagnostic(11, 12)], vec![]], &vec![]);
    assert!(untouched.is_ok());
    let broken = rewrite_planned_files(&plan, &sources, &vec![], &vec![vec![diagnostic(0, 1)], vec![]]);
    assert!(matches!(broken, Err(AutofixError::RewriteParseError { ref path, .. }) if path == "a.ts"));
}
