use codehealth::findings::{Confidence, Severity};
use codehealth::integrations::ExternalTool;
use codehealth::tool_json::{cargo_json_diagnostics, eslint_json_diagnostics, json_tool_diagnostics, render_json, JsonTool, JsonValue};

fn text(s: &str) -> JsonValue {
    JsonValue::Text(s.to_string())
}

fn number(s: &str) -> JsonValue {
    JsonValue::Number(s.to_string())
}

fn object(members: Vec<(&str, JsonValue)>) -> JsonValue {
    JsonValue::Object(members.into_iter().map(|(k, v)| (k.to_string(), v)).collect())
}

#[test]
fn ruff_items_become_diagnostics() {
    let report = JsonValue::Array(vec![
        object(vec![
            ("filename", text("src/app.py")),
            ("code", text("F401")),
            ("message", text("`os` imported but unused")),
            ("location", object(vec![("row", number("3")), ("column", number("8"))])),
        ]),
        object(vec![("code", text("E501"))]),
        object(vec![("filename", text("/abs/lib.py"))]),
    ]);
    let diagnostics = json_tool_diagnostics(JsonTool::Ruff, "/repo", "/repo", &report);
    assert_eq!(diagnostics.len(), 2);
    let first = &diagnostics[0];
    assert_eq!(first.tool, ExternalTool::Ruff);
    assert_eq!(first.rule_code, "f401");
    assert_eq!(first.severity, Severity::Medium);
    assert_eq!(first.confidence, Confidence::High);
    assert_eq!(first.message, "`os` imported but unused");
    assert_eq!(first.path, "/repo/src/app.py");
    assert_eq!(first.line, Some(3));
    assert_eq!(first.column, Some(8));
    assert_eq!(first.external_severity.as_deref(), Some("F401"));
    let second = &diagnostics[1];
    assert_eq!(second.rule_code, "diagnostic");
    assert_eq!(second.message, "Ruff diagnostic");
    assert_eq!(second.path, "/abs/lib.py");
    assert_eq!(second.line, None);
}

#[test]
fn ruff_report_that_is_not_an_array_has_no_diagnostics() {
    let report = object(vec![("filename", text("a.py"))]);
    assert!(json_tool_diagnostics(JsonTool::Ruff, "/repo", "/repo", &report).is_empty());
}

#[test]
fn pyright_positions_are_one_based() {
    let report = object(vec![(
        "generalDiagnostics",
        JsonValue::Array(vec![object(vec![
            ("file", text("pkg/mod.py")),
            ("severity", text("warning")),
            ("message", text("Import could not be resolved")),
            ("rule", text("reportMissingImports")),
            (
                "range",
                object(vec![("start", object(vec![("line", number("4")), ("character", number("0"))]))]),
            ),
        ])]),
    )]);
    let diagnostics = json_tool_diagnostics(JsonTool::Pyright, "/repo", "/repo/sub", &report);
    assert_eq!(diagnostics.len(), 1);
    let d = &diagnostics[0];
    assert_eq!(d.rule_code, "reportmissingimports");
    assert_eq!(d.severity, Severity::Medium);
    assert_eq!(d.path, "/repo/sub/pkg/mod.py");
    assert_eq!(d.line, Some(5));
    assert_eq!(d.column, Some(1));
    assert_eq!(d.external_severity.as_deref(), Some("warning"));
}

#[test]
fn semgrep_results_read_extra_fields() {
    let report = object(vec![(
        "results",
        JsonValue::Array(vec![object(vec![
            ("path", text("app/main.py")),
            ("check_id", text("python.lang.security.audit.eval")),
            ("extra", object(vec![("message", text("Avoid eval")), ("severity", text("ERROR"))])),
            ("start", object(vec![("line", number("12")), ("col", number("5"))])),
        ])]),
    )]);
    let diagnostics = json_tool_diagnostics(JsonTool::Semgrep, "/repo", "/repo", &report);
    assert_eq!(diagnostics.len(), 1);
    let d = &diagnostics[0];
    assert_eq!(d.rule_code, "python.lang.security.audit.eval");
    assert_eq!(d.severity, Severity::High);
    assert_eq!(d.confidence, Confidence::Medium);
    assert_eq!(d.message, "Avoid eval");
    assert_eq!(d.line, Some(12));
    assert_eq!(d.column, Some(5));
}

#[test]
fn biome_diagnostics_fall_back_to_data_and_working_directory() {
    let report = object(vec![(
        "data",
        object(vec![(
            "diagnostics",
            JsonValue::Array(vec![
                object(vec![
                    ("category", text("lint/style/noVar")),
                    ("severity", text("error")),
                    ("description", text("Use let or const")),
                    ("location", object(vec![("path", object(vec![("file", text("web/a.ts"))]))])),
                ]),
                object(vec![("message", text("formatter would change"))]),
            ]),
        )]),
    )]);
    let diagnostics = json_tool_diagnostics(JsonTool::Biome, "/repo", "web", &report);
    assert_eq!(diagnostics.len(), 2);
    assert_eq!(diagnostics[0].rule_code, "lint.style.novar");
    assert_eq!(diagnostics[0].severity, Severity::High);
    assert_eq!(diagnostics[0].path, "/repo/web/web/a.ts");
    assert_eq!(diagnostics[0].message, "Use let or const");
    assert_eq!(diagnostics[1].path, "/repo/web");
    assert_eq!(diagnostics[1].message, "formatter would change");
    assert_eq!(diagnostics[1].severity, Severity::Medium);
    assert_eq!(diagnostics[1].rule_code, "diagnostic");
}

#[test]
fn negative_and_fractional_numbers_are_not_positions() {
    let report = JsonValue::Array(vec![object(vec![
        ("filename", text("a.py")),
        ("location", object(vec![("row", number("-1")), ("column", number("2.5"))])),
    ])]);
    let diagnostics = json_tool_diagnostics(JsonTool::Ruff, "/repo", "/repo", &report);
    assert_eq!(diagnostics[0].line, None);
    assert_eq!(diagnostics[0].column, None);
}

#[test]
fn eslint_messages_keep_the_severity_as_written() {
    let report = JsonValue::Array(vec![
        object(vec![
            ("filePath", text("/repo/web/a.ts")),
            (
                "messages",
                JsonValue::Array(vec![
                    object(vec![
                        ("ruleId", text("@typescript-eslint/no-unused-vars")),
                        ("severity", number("2")),
                        ("message", text("'x' is unused")),
                        ("line", number("4")),
                        ("column", number("7")),
                    ]),
                    object(vec![("severity", number("1"))]),
                    object(vec![("severity", text("warn")), ("ruleId", JsonValue::Null)]),
                    object(vec![("severity", number("0"))]),
                ]),
            ),
        ]),
        object(vec![("messages", JsonValue::Array(vec![object(vec![])]))]),
        object(vec![("filePath", text("b.ts"))]),
    ]);
    let diagnostics = eslint_json_diagnostics("/repo", "/repo", &report);
    assert_eq!(diagnostics.len(), 4);
    let d = &diagnostics[0];
    assert_eq!(d.tool, ExternalTool::Eslint);
    assert_eq!(d.rule_code, "typescript.eslint.no.unused.vars");
    assert_eq!(d.severity, Severity::High);
    assert_eq!(d.confidence, Confidence::High);
    assert_eq!(d.message, "'x' is unused");
    assert_eq!(d.path, "/repo/web/a.ts");
    assert_eq!(d.line, Some(4));
    assert_eq!(d.column, Some(7));
    assert_eq!(d.external_severity.as_deref(), Some("2"));
    assert_eq!(diagnostics[1].severity, Severity::Medium);
    assert_eq!(diagnostics[1].message, "ESLint diagnostic");
    assert_eq!(diagnostics[1].rule_code, "diagnostic");
    assert_eq!(diagnostics[2].severity, Severity::Medium);
    assert_eq!(diagnostics[2].external_severity.as_deref(), Some("\"warn\""));
    assert_eq!(diagnostics[3].severity, Severity::Info);
}

#[test]
fn json_is_written_compactly_with_escapes() {
    let value = object(vec![
        ("a", JsonValue::Array(vec![number("1"), JsonValue::Bool(true), JsonValue::Null])),
        ("b\"", text("line\nnext\ttab\u{1}")),
        ("c", object(vec![])),
    ]);
    let mut out = String::new();
    render_json(&mut out, &value);
    assert_eq!(out, "{\"a\":[1,true,null],\"b\\\"\":\"line\\nnext\\ttab\\u0001\",\"c\":{}}");
}

fn compiler_message(code: &str, primary: bool) -> JsonValue {
    object(vec![
        ("reason", text("compiler-message")),
        (
            "message",
            object(vec![
                ("code", object(vec![("code", text(code))])),
                ("level", text("warning")),
                ("message", text("this could be simpler")),
                ("rendered", text("  warning: this could be simpler\n")),
                (
                    "spans",
                    JsonValue::Array(vec![
                        object(vec![("file_name", text("src/other.rs")), ("is_primary", JsonValue::Bool(false))]),
                        object(vec![
                            ("file_name", text("src/lib.rs")),
                            ("is_primary", JsonValue::Bool(primary)),
                            ("byte_start", number("10")),
                            ("byte_end", number("10")),
                            ("line_start", number("2")),
                            ("column_start", number("5")),
                        ]),
                    ]),
                ),
            ]),
        ),
    ])
}

#[test]
fn cargo_messages_use_the_primary_span() {
    let lines = vec![
        None,
        Some(object(vec![("reason", text("build-finished"))])),
        Some(compiler_message("clippy::clippy::needless_return", true)),
        Some(compiler_message("unused_variables", false)),
    ];
    let clippy = cargo_json_diagnostics(ExternalTool::Clippy, "/repo", Some("/repo/crate"), &lines);
    assert_eq!(clippy.len(), 1);
    let d = &clippy[0];
    assert_eq!(d.rule_code, "needless.return");
    assert_eq!(d.severity, Severity::Medium);
    assert_eq!(d.path, "/repo/crate/src/lib.rs");
    assert_eq!(d.line, Some(2));
    assert_eq!(d.column, Some(5));
    assert_eq!(d.byte_span.map(|s| (s.start, s.end)), Some((10, 11)));
    assert_eq!(d.help.as_deref(), Some("warning: this could be simpler"));
    let check = cargo_json_diagnostics(ExternalTool::CargoCheck, "/repo", None, &lines);
    assert_eq!(check.len(), 2);
    assert_eq!(check[1].rule_code, "unused.variables");
    assert_eq!(check[1].path, "/repo/src/other.rs");
    assert_eq!(check[1].byte_span.map(|s| (s.start, s.end)), Some((0, 1)));
}

#[test]
fn parses_eslint_json_diagnostics() {
    let report = JsonValue::Array(vec![object(vec![
        ("filePath", text("src/app.ts")),
        (
            "messages",
            JsonValue::Array(vec![object(vec![
                ("ruleId", text("no-unused-vars")),
                ("severity", number("2")),
                ("message", text("'x' is unused")),
                ("line", number("3")),
                ("column", number("5")),
            ])]),
        ),
    ])]);
    let findings = eslint_json_diagnostics("C:/repo", "C:/repo", &report);
    assert_eq!(findings.len(), 1);
    assert_eq!(findings[0].rule_code, "no.unused.vars");
    assert_eq!(findings[0].severity, Severity::High);
    assert_eq!(findings[0].line, Some(3));
}

#[test]
fn parses_ruff_json_diagnostics() {
    let report = JsonValue::Array(vec![object(vec![
        ("filename", text("pkg/app.py")),
        ("code", text("F401")),
        ("message", text("unused import")),
        ("location", object(vec![("row", number("2")), ("column", number("1"))])),
    ])]);
    let findings = json_tool_diagnostics(JsonTool::Ruff, "C:/repo", "C:/repo", &report);
    assert_eq!(findings.len(), 1);
    assert_eq!(findings[0].rule_code, "f401");
    assert_eq!(findings[0].line, Some(2));
}

#[test]
fn parses_pyright_json_diagnostics() {
    let report = object(vec![(
        "generalDiagnostics",
        JsonValue::Array(vec![object(vec![
            ("file", text("pkg/app.py")),
            ("severity", text("error")),
            ("message", text("Type mismatch")),
            ("rule", text("reportAssignmentType")),
            ("range", object(vec![("start", object(vec![("line", number("0")), ("character", number("4"))]))])),
        ])]),
    )]);
    let findings = json_tool_diagnostics(JsonTool::Pyright, "C:/repo", "C:/repo", &report);
    assert_eq!(findings.len(), 1);
    assert_eq!(findings[0].rule_code, "reportassignmenttype");
    assert_eq!(findings[0].line, Some(1));
    assert_eq!(findings[0].column, Some(5));
}

#[test]
fn lib_parses_clippy_json_diagnostics() {
    let message = object(vec![
        ("reason", text("compiler-message")),
        (
            "message",
            object(vec![
                ("message", text("used unwrap on an Option value")),
                ("code", object(vec![("code", text("clippy::unwrap_used"))])),
                ("level", text("warning")),
                (
                    "spans",
                    JsonValue::Array(vec![object(vec![
                        ("file_name", text("src/lib.rs")),
                        ("byte_start", number("10")),
                        ("byte_end", number("20")),
                        ("line_start", number("2")),
                        ("column_start", number("5")),
                        ("is_primary", JsonValue::Bool(true)),
                    ])]),
                ),
                ("rendered", text("warning: used unwrap")),
            ]),
        ),
    ]);
    let findings = cargo_json_diagnostics(ExternalTool::Clippy, "C:/repo", Some("C:/repo"), &vec![Some(message)]);
    assert_eq!(findings.len(), 1);
    assert_eq!(findings[0].rule_code, "unwrap.used");
    assert_eq!(findings[0].severity, Severity::Medium);
    assert_eq!(findings[0].path, "C:/repo/src/lib.rs");
}
