//! Diagnostics of the tools that report in JSON (ESLint, Ruff, Pyright, Semgrep, Biome,
//! and cargo with Clippy), read from a parsed JSON document.
use vstd::prelude::*;

use crate::findings::{Confidence, Severity, SourceSpan};
use crate::integrations::{
    sanitize_rule_code, severity_from_text, spec_sanitize_rule_code, spec_severity_from_text, tool_path,
    tool_path_exec, DiagnosticView, ExternalDiagnostic, ExternalTool, diagnostic_view, diagnostic_views,
};
use crate::hashing::{hex_digit, hex_digit_exec};
use crate::text::{chars_eq, chars_of, parse_usize_chars, push_char, spec_parse_usize, spec_trim, starts_with};

verus! {

/// A JSON document. A number is kept as the text JSON writes for it; an object keeps
/// its members in order, each name once.
#[derive(Debug)]
pub enum JsonValue {
    Null,
    Bool(bool),
    Number(String),
    Text(String),
    Array(Vec<JsonValue>),
    Object(Vec<(String, JsonValue)>),
}

/// The first member named `key` at or after position `i`.
pub open spec fn member_from(es: Seq<(String, JsonValue)>, key: Seq<char>, i: int) -> Option<JsonValue>
    decreases es.len() - i,
{
    if i < 0 || i >= es.len() {
        None
    } else if es[i].0@ == key {
        Some(es[i].1)
    } else {
        member_from(es, key, i + 1)
    }
}

/// The member `key` of an object; `None` for anything else.
pub open spec fn json_get(v: JsonValue, key: Seq<char>) -> Option<JsonValue> {
    match v {
        JsonValue::Object(es) => member_from(es@, key, 0),
        _ => None,
    }
}

/// The value reached by following member names in turn.
pub open spec fn json_pointer(v: JsonValue, keys: Seq<Seq<char>>) -> Option<JsonValue>
    decreases keys.len(),
{
    if keys.len() == 0 {
        Some(v)
    } else {
        match json_get(v, keys[0]) {
            Some(c) => json_pointer(c, keys.drop_first()),
            None => None,
        }
    }
}

/// The text of a string value.
pub open spec fn json_text(v: Option<JsonValue>) -> Option<Seq<char>> {
    match v {
        Some(JsonValue::Text(s)) => Some(s@),
        _ => None,
    }
}

/// A number that is a non-negative integer fitting `usize`.
pub open spec fn json_usize(v: Option<JsonValue>) -> Option<usize> {
    match v {
        Some(JsonValue::Number(t)) => if t@.len() > 0 && t@[0] == '+' {
            None
        } else {
            spec_parse_usize(t@)
        },
        _ => None,
    }
}

/// The text, or `default` when there is none.
pub open spec fn text_or(t: Option<Seq<char>>, default: Seq<char>) -> Seq<char> {
    match t {
        Some(s) => s,
        None => default,
    }
}

/// The elements of an array; none for anything else.
pub open spec fn json_items(v: JsonValue) -> Seq<JsonValue> {
    match v {
        JsonValue::Array(items) => items@,
        _ => seq![],
    }
}

/// The values present, in order.
pub open spec fn present(s: Seq<Option<DiagnosticView>>) -> Seq<DiagnosticView>
    decreases s.len(),
{
    if s.len() == 0 {
        seq![]
    } else {
        match s.last() {
            Some(d) => present(s.drop_last()).push(d),
            None => present(s.drop_last()),
        }
    }
}

/// Looks up a member of an object.
pub fn get_member<'a>(v: &'a JsonValue, key: &str) -> (r: Option<&'a JsonValue>)
    ensures
        match r {
            Some(x) => json_get(*v, key@) == Some(*x),
            None => json_get(*v, key@) is None,
        },
{
    match v {
        JsonValue::Object(es) => {
            let k = chars_of(key);
            assert(json_get(*v, key@) == member_from(es@, key@, 0));
            let mut i: usize = 0;
            while i < es.len()
                invariant
                    i <= es@.len(),
                    k@ == key@,
                    member_from(es@, key@, i as int) == member_from(es@, key@, 0),
                    json_get(*v, key@) == member_from(es@, key@, 0),
                decreases es@.len() - i,
            {
                if chars_eq(chars_of(es[i].0.as_str()).as_slice(), k.as_slice()) {
                    assert(es@[i as int].0@ == key@);
                    assert(member_from(es@, key@, i as int) == Some(es@[i as int].1));
                    return Some(&es[i].1);
                }
                i = i + 1;
            }
            None
        },
        _ => None,
    }
}

/// The text of a member that is a string.
pub fn member_text(v: &JsonValue, key: &str) -> (r: Option<String>)
    ensures
        match r {
            Some(s) => json_text(json_get(*v, key@)) == Some(s@),
            None => json_text(json_get(*v, key@)) is None,
        },
{
    match get_member(v, key) {
        Some(JsonValue::Text(s)) => Some(s.clone()),
        _ => None,
    }
}

fn number_usize(v: Option<&JsonValue>) -> (r: Option<usize>)
    ensures
        r == json_usize(match v {
            Some(x) => Some(*x),
            None => None,
        }),
{
    match v {
        Some(JsonValue::Number(t)) => {
            let c = chars_of(t.as_str());
            if c.len() > 0 && c[0] == '+' {
                None
            } else {
                parse_usize_chars(c.as_slice())
            }
        },
        _ => None,
    }
}

/// Follows two member names.
fn get_path2<'a>(v: &'a JsonValue, first: &str, second: &str) -> (r: Option<&'a JsonValue>)
    ensures
        match r {
            Some(x) => json_pointer(*v, seq![first@, second@]) == Some(*x),
            None => json_pointer(*v, seq![first@, second@]) is None,
        },
{
    proof {
        assert(seq![first@, second@].drop_first() =~= seq![second@]);
        assert(seq![second@].drop_first() =~= Seq::<Seq<char>>::empty());
        reveal_with_fuel(json_pointer, 3);
    }
    match get_member(v, first) {
        Some(c) => get_member(c, second),
        None => None,
    }
}

/// Follows three member names.
fn get_path3<'a>(v: &'a JsonValue, first: &str, second: &str, third: &str) -> (r: Option<&'a JsonValue>)
    ensures
        match r {
            Some(x) => json_pointer(*v, seq![first@, second@, third@]) == Some(*x),
            None => json_pointer(*v, seq![first@, second@, third@]) is None,
        },
{
    proof {
        assert(seq![first@, second@, third@].drop_first() =~= seq![second@, third@]);
        reveal_with_fuel(json_pointer, 2);
    }
    match get_member(v, first) {
        Some(c) => get_path2(c, second, third),
        None => None,
    }
}

fn text_or_exec(t: Option<String>, default: &str) -> (r: String)
    ensures
        r@ == text_or(match t {
            Some(s) => Some(s@),
            None => None,
        }, default@),
{
    match t {
        Some(s) => s,
        None => String::from_str(default),
    }
}

/// The diagnostic of one Ruff item, which needs a `filename`.
pub open spec fn ruff_item(root: Seq<char>, cwd: Seq<char>, item: JsonValue) -> Option<DiagnosticView> {
    match json_text(json_get(item, "filename"@)) {
        None => None,
        Some(filename) => {
            let code = text_or(json_text(json_get(item, "code"@)), "diagnostic"@);
            Some(
                DiagnosticView {
                    tool: ExternalTool::Ruff,
                    rule_code: spec_sanitize_rule_code(code),
                    severity: Severity::Medium,
                    confidence: Confidence::High,
                    message: text_or(json_text(json_get(item, "message"@)), "Ruff diagnostic"@),
                    path: tool_path(root, cwd, filename),
                    line: json_usize(json_pointer(item, seq!["location"@, "row"@])),
                    column: json_usize(json_pointer(item, seq!["location"@, "column"@])),
                    byte_span: None,
                    external_severity: Some(code),
                    help: None,
                },
            )
        },
    }
}

/// One past a position read from zero-based output, wrapping at the top of `usize`.
pub open spec fn one_based(n: Option<usize>) -> Option<usize> {
    match n {
        Some(v) => Some(if v < usize::MAX {
            (v + 1) as usize
        } else {
            0
        }),
        None => None,
    }
}

/// The diagnostic of one Pyright item, which needs a `file`; its positions are
/// zero-based in the output.
pub open spec fn pyright_item(root: Seq<char>, cwd: Seq<char>, item: JsonValue) -> Option<DiagnosticView> {
    match json_text(json_get(item, "file"@)) {
        None => None,
        Some(file) => {
            let severity = text_or(json_text(json_get(item, "severity"@)), "error"@);
            Some(
                DiagnosticView {
                    tool: ExternalTool::Pyright,
                    rule_code: spec_sanitize_rule_code(text_or(json_text(json_get(item, "rule"@)), "diagnostic"@)),
                    severity: spec_severity_from_text(severity),
                    confidence: Confidence::High,
                    message: text_or(json_text(json_get(item, "message"@)), "Pyright diagnostic"@),
                    path: tool_path(root, cwd, file),
                    line: one_based(json_usize(json_pointer(item, seq!["range"@, "start"@, "line"@]))),
                    column: one_based(json_usize(json_pointer(item, seq!["range"@, "start"@, "character"@]))),
                    byte_span: None,
                    external_severity: Some(severity),
                    help: None,
                },
            )
        },
    }
}

/// The diagnostic of one Semgrep result, which needs a `path`.
pub open spec fn semgrep_item(root: Seq<char>, cwd: Seq<char>, item: JsonValue) -> Option<DiagnosticView> {
    match json_text(json_get(item, "path"@)) {
        None => None,
        Some(path) => {
            let severity = text_or(json_text(json_pointer(item, seq!["extra"@, "severity"@])), "warning"@);
            Some(
                DiagnosticView {
                    tool: ExternalTool::Semgrep,
                    rule_code: spec_sanitize_rule_code(text_or(json_text(json_get(item, "check_id"@)), "diagnostic"@)),
                    severity: spec_severity_from_text(severity),
                    confidence: Confidence::Medium,
                    message: text_or(json_text(json_pointer(item, seq!["extra"@, "message"@])), "Semgrep diagnostic"@),
                    path: tool_path(root, cwd, path),
                    line: json_usize(json_pointer(item, seq!["start"@, "line"@])),
                    column: json_usize(json_pointer(item, seq!["start"@, "col"@])),
                    byte_span: None,
                    external_severity: Some(severity),
                    help: None,
                },
            )
        },
    }
}

/// The file a Biome diagnostic names: `location.path.file`, else `location.path`, else
/// `file_path`.
pub open spec fn biome_file(item: JsonValue) -> Option<Seq<char>> {
    match json_text(json_pointer(item, seq!["location"@, "path"@, "file"@])) {
        Some(p) => Some(p),
        None => match json_text(json_pointer(item, seq!["location"@, "path"@])) {
            Some(p) => Some(p),
            None => json_text(json_get(item, "file_path"@)),
        },
    }
}

/// The working directory made absolute against the scan root.
pub open spec fn cwd_under_root(root: Seq<char>, cwd: Seq<char>) -> Seq<char> {
    if crate::integrations::path_is_absolute(cwd) {
        cwd
    } else {
        crate::integrations::spec_path_join(root, cwd)
    }
}

/// The diagnostic of one Biome item; without a file it points at the working
/// directory.
pub open spec fn biome_item(root: Seq<char>, cwd: Seq<char>, item: JsonValue) -> DiagnosticView {
    let severity = text_or(json_text(json_get(item, "severity"@)), "warning"@);
    let message = match json_text(json_get(item, "description"@)) {
        Some(m) => m,
        None => text_or(json_text(json_get(item, "message"@)), "Biome diagnostic"@),
    };
    DiagnosticView {
        tool: ExternalTool::Biome,
        rule_code: spec_sanitize_rule_code(text_or(json_text(json_get(item, "category"@)), "diagnostic"@)),
        severity: spec_severity_from_text(severity),
        confidence: Confidence::Medium,
        message,
        path: match biome_file(item) {
            Some(p) => tool_path(root, cwd, p),
            None => cwd_under_root(root, cwd),
        },
        line: None,
        column: None,
        byte_span: None,
        external_severity: Some(severity),
        help: None,
    }
}

/// The tools whose JSON output is read here.
#[derive(Debug, Clone, Copy, PartialEq, Eq, Structural)]
pub enum JsonTool {
    Ruff,
    Pyright,
    Semgrep,
    Biome,
}

/// The diagnostic of one item of a tool's output, if it has what the tool needs.
pub open spec fn tool_item(tool: JsonTool, root: Seq<char>, cwd: Seq<char>, item: JsonValue) -> Option<DiagnosticView> {
    match tool {
        JsonTool::Ruff => ruff_item(root, cwd, item),
        JsonTool::Pyright => pyright_item(root, cwd, item),
        JsonTool::Semgrep => semgrep_item(root, cwd, item),
        JsonTool::Biome => Some(biome_item(root, cwd, item)),
    }
}

/// The array of a value, if it is one.
pub open spec fn json_array(v: Option<JsonValue>) -> Option<Seq<JsonValue>> {
    match v {
        Some(JsonValue::Array(items)) => Some(items@),
        _ => None,
    }
}

/// The items of a tool's report: the top-level array for Ruff, `generalDiagnostics`
/// for Pyright, `results` for Semgrep, and `diagnostics` (else `data.diagnostics`) for
/// Biome; none when the report does not have that shape.
pub open spec fn report_items(tool: JsonTool, report: JsonValue) -> Seq<JsonValue> {
    let found = match tool {
        JsonTool::Ruff => json_array(Some(report)),
        JsonTool::Pyright => json_array(json_get(report, "generalDiagnostics"@)),
        JsonTool::Semgrep => json_array(json_get(report, "results"@)),
        JsonTool::Biome => match json_array(json_get(report, "diagnostics"@)) {
            Some(items) => Some(items),
            None => json_array(json_pointer(report, seq!["data"@, "diagnostics"@])),
        },
    };
    match found {
        Some(items) => items,
        None => seq![],
    }
}

/// The diagnostics of a tool's JSON report, in the order of its items.
pub open spec fn json_report_diagnostics(tool: JsonTool, root: Seq<char>, cwd: Seq<char>, report: JsonValue) -> Seq<DiagnosticView> {
    present(report_items(tool, report).map_values(|item: JsonValue| tool_item(tool, root, cwd, item)))
}

fn one_based_exec(n: Option<usize>) -> (r: Option<usize>)
    ensures
        r == one_based(n),
{
    match n {
        Some(v) => Some(if v < usize::MAX {
            v + 1
        } else {
            0
        }),
        None => None,
    }
}

fn text_of(v: Option<&JsonValue>) -> (r: Option<String>)
    ensures
        match r {
            Some(s) => json_text(match v {
                Some(x) => Some(*x),
                None => None,
            }) == Some(s@),
            None => json_text(match v {
                Some(x) => Some(*x),
                None => None,
            }) is None,
        },
{
    match v {
        Some(JsonValue::Text(s)) => Some(s.clone()),
        _ => None,
    }
}

fn ruff_item_exec(root: &[char], cwd: &[char], item: &JsonValue) -> (r: Option<ExternalDiagnostic>)
    ensures
        match r {
            Some(d) => ruff_item(root@, cwd@, *item) == Some(diagnostic_view(d)),
            None => ruff_item(root@, cwd@, *item) is None,
        },
{
    let filename = match member_text(item, "filename") {
        Some(f) => f,
        None => return None,
    };
    let code = text_or_exec(member_text(item, "code"), "diagnostic");
    let message = text_or_exec(member_text(item, "message"), "Ruff diagnostic");
    let d = ExternalDiagnostic {
        tool: ExternalTool::Ruff,
        rule_code: sanitize_rule_code(chars_of(code.as_str()).as_slice()),
        severity: Severity::Medium,
        confidence: Confidence::High,
        message,
        path: tool_path_exec(root, cwd, chars_of(filename.as_str()).as_slice()),
        line: number_usize(get_path2(item, "location", "row")),
        column: number_usize(get_path2(item, "location", "column")),
        byte_span: None,
        external_severity: Some(code),
        help: None,
    };
    Some(d)
}

fn pyright_item_exec(root: &[char], cwd: &[char], item: &JsonValue) -> (r: Option<ExternalDiagnostic>)
    ensures
        match r {
            Some(d) => pyright_item(root@, cwd@, *item) == Some(diagnostic_view(d)),
            None => pyright_item(root@, cwd@, *item) is None,
        },
{
    let file = match member_text(item, "file") {
        Some(f) => f,
        None => return None,
    };
    let severity = text_or_exec(member_text(item, "severity"), "error");
    let rule = text_or_exec(member_text(item, "rule"), "diagnostic");
    let message = text_or_exec(member_text(item, "message"), "Pyright diagnostic");
    let d = ExternalDiagnostic {
        tool: ExternalTool::Pyright,
        rule_code: sanitize_rule_code(chars_of(rule.as_str()).as_slice()),
        severity: severity_from_text(chars_of(severity.as_str()).as_slice()),
        confidence: Confidence::High,
        message,
        path: tool_path_exec(root, cwd, chars_of(file.as_str()).as_slice()),
        line: one_based_exec(number_usize(get_path3(item, "range", "start", "line"))),
        column: one_based_exec(number_usize(get_path3(item, "range", "start", "character"))),
        byte_span: None,
        external_severity: Some(severity),
        help: None,
    };
    Some(d)
}

fn semgrep_item_exec(root: &[char], cwd: &[char], item: &JsonValue) -> (r: Option<ExternalDiagnostic>)
    ensures
        match r {
            Some(d) => semgrep_item(root@, cwd@, *item) == Some(diagnostic_view(d)),
            None => semgrep_item(root@, cwd@, *item) is None,
        },
{
    let path = match member_text(item, "path") {
        Some(p) => p,
        None => return None,
    };
    let severity = text_or_exec(text_of(get_path2(item, "extra", "severity")), "warning");
    let rule = text_or_exec(member_text(item, "check_id"), "diagnostic");
    let message = text_or_exec(text_of(get_path2(item, "extra", "message")), "Semgrep diagnostic");
    let d = ExternalDiagnostic {
        tool: ExternalTool::Semgrep,
        rule_code: sanitize_rule_code(chars_of(rule.as_str()).as_slice()),
        severity: severity_from_text(chars_of(severity.as_str()).as_slice()),
        confidence: Confidence::Medium,
        message,
        path: tool_path_exec(root, cwd, chars_of(path.as_str()).as_slice()),
        line: number_usize(get_path2(item, "start", "line")),
        column: number_usize(get_path2(item, "start", "col")),
        byte_span: None,
        external_severity: Some(severity),
        help: None,
    };
    Some(d)
}

fn biome_file_exec(item: &JsonValue) -> (r: Option<String>)
    ensures
        match r {
            Some(s) => biome_file(*item) == Some(s@),
            None => biome_file(*item) is None,
        },
{
    match text_of(get_path3(item, "location", "path", "file")) {
        Some(p) => Some(p),
        None => match text_of(get_path2(item, "location", "path")) {
            Some(p) => Some(p),
            None => member_text(item, "file_path"),
        },
    }
}

fn biome_item_exec(root: &[char], cwd: &[char], item: &JsonValue) -> (r: ExternalDiagnostic)
    ensures
        diagnostic_view(r) == biome_item(root@, cwd@, *item),
{
    let severity = text_or_exec(member_text(item, "severity"), "warning");
    let category = text_or_exec(member_text(item, "category"), "diagnostic");
    let message = match member_text(item, "description") {
        Some(m) => m,
        None => text_or_exec(member_text(item, "message"), "Biome diagnostic"),
    };
    let path = match biome_file_exec(item) {
        Some(p) => tool_path_exec(root, cwd, chars_of(p.as_str()).as_slice()),
        None => {
            if cwd.len() > 0 && cwd[0] == '/' {
                crate::text::string_from_chars(cwd)
            } else {
                crate::text::string_from_chars(crate::integrations::path_join(root, cwd).as_slice())
            }
        },
    };
    ExternalDiagnostic {
        tool: ExternalTool::Biome,
        rule_code: sanitize_rule_code(chars_of(category.as_str()).as_slice()),
        severity: severity_from_text(chars_of(severity.as_str()).as_slice()),
        confidence: Confidence::Medium,
        message,
        path,
        line: None,
        column: None,
        byte_span: None,
        external_severity: Some(severity),
        help: None,
    }
}

fn tool_item_exec(tool: JsonTool, root: &[char], cwd: &[char], item: &JsonValue) -> (r: Option<ExternalDiagnostic>)
    ensures
        match r {
            Some(d) => tool_item(tool, root@, cwd@, *item) == Some(diagnostic_view(d)),
            None => tool_item(tool, root@, cwd@, *item) is None,
        },
{
    match tool {
        JsonTool::Ruff => ruff_item_exec(root, cwd, item),
        JsonTool::Pyright => pyright_item_exec(root, cwd, item),
        JsonTool::Semgrep => semgrep_item_exec(root, cwd, item),
        JsonTool::Biome => Some(biome_item_exec(root, cwd, item)),
    }
}

fn array_of(v: Option<&JsonValue>) -> (r: Option<&Vec<JsonValue>>)
    ensures
        match r {
            Some(items) => json_array(match v {
                Some(x) => Some(*x),
                None => None,
            }) == Some(items@),
            None => json_array(match v {
                Some(x) => Some(*x),
                None => None,
            }) is None,
        },
{
    match v {
        Some(JsonValue::Array(items)) => Some(items),
        _ => None,
    }
}

fn report_items_exec(tool: JsonTool, report: &JsonValue) -> (r: Option<&Vec<JsonValue>>)
    ensures
        match r {
            Some(items) => report_items(tool, *report) == items@,
            None => report_items(tool, *report) == Seq::<JsonValue>::empty(),
        },
{
    match tool {
        JsonTool::Ruff => array_of(Some(report)),
        JsonTool::Pyright => array_of(get_member(report, "generalDiagnostics")),
        JsonTool::Semgrep => array_of(get_member(report, "results")),
        JsonTool::Biome => match array_of(get_member(report, "diagnostics")) {
            Some(items) => Some(items),
            None => array_of(get_path2(report, "data", "diagnostics")),
        },
    }
}

/// Reads the diagnostics of a tool's JSON report (Ruff, Pyright, Semgrep or Biome), one
/// per item that has what the tool's diagnostics need, with paths made absolute.
pub fn json_tool_diagnostics(tool: JsonTool, root: &str, cwd: &str, report: &JsonValue) -> (r: Vec<ExternalDiagnostic>)
    ensures
        diagnostic_views(r@) == json_report_diagnostics(tool, root@, cwd@, *report),
{
    let root_chars = chars_of(root);
    let cwd_chars = chars_of(cwd);
    let mut out: Vec<ExternalDiagnostic> = Vec::new();
    match report_items_exec(tool, report) {
        Some(items) => {
            let ghost mapped = items@.map_values(|item: JsonValue| tool_item(tool, root@, cwd@, item));
            for i in 0..items.len()
                invariant
                    root_chars@ == root@,
                    cwd_chars@ == cwd@,
                    mapped == items@.map_values(|item: JsonValue| tool_item(tool, root@, cwd@, item)),
                    diagnostic_views(out@) == present(mapped.take(i as int)),
            {
                assert(mapped.take(i + 1).drop_last() =~= mapped.take(i as int));
                assert(mapped.take(i + 1).last() == tool_item(tool, root@, cwd@, items@[i as int]));
                let ghost before = diagnostic_views(out@);
                match tool_item_exec(tool, root_chars.as_slice(), cwd_chars.as_slice(), &items[i]) {
                    Some(d) => {
                        out.push(d);
                        assert(diagnostic_views(out@) =~= before.push(diagnostic_view(out@.last())));
                    },
                    None => {},
                }
            }
            assert(mapped.take(mapped.len() as int) =~= mapped);
        },
        None => {
            assert(report_items(tool, *report).map_values(|item: JsonValue| tool_item(tool, root@, cwd@, item))
                =~= Seq::<Option<DiagnosticView>>::empty());
        },
    }
    out
}

/// One character of a JSON string literal as JSON writes it: quote, backslash and the
/// control characters escaped, the rare ones as `\u00xx`.
pub open spec fn json_escape_char(c: char) -> Seq<char> {
    if c == '"' {
        seq!['\\', '"']
    } else if c == '\\' {
        seq!['\\', '\\']
    } else if c == '\n' {
        seq!['\\', 'n']
    } else if c == '\r' {
        seq!['\\', 'r']
    } else if c == '\t' {
        seq!['\\', 't']
    } else if c == '\x08' {
        seq!['\\', 'b']
    } else if c == '\x0c' {
        seq!['\\', 'f']
    } else if (c as u32) < 0x20 {
        seq!['\\', 'u', '0', '0', hex_digit((c as u32) as int / 16), hex_digit((c as u32) as int % 16)]
    } else {
        seq![c]
    }
}

/// A text escaped for a JSON string literal.
pub open spec fn json_escaped(s: Seq<char>) -> Seq<char>
    decreases s.len(),
{
    if s.len() == 0 {
        seq![]
    } else {
        json_escaped(s.drop_last()) + json_escape_char(s.last())
    }
}

/// A text as a JSON string literal.
pub open spec fn json_quoted(s: Seq<char>) -> Seq<char> {
    seq!['"'] + json_escaped(s) + seq!['"']
}

/// A value written as compact JSON, members in their order.
pub open spec fn json_render(v: JsonValue) -> Seq<char>
    decreases v,
{
    match v {
        JsonValue::Null => "null"@,
        JsonValue::Bool(b) => if b {
            "true"@
        } else {
            "false"@
        },
        JsonValue::Number(t) => t@,
        JsonValue::Text(s) => json_quoted(s@),
        JsonValue::Array(items) => seq!['['] + json_render_items(items@) + seq![']'],
        JsonValue::Object(es) => seq!['{'] + json_render_members(es@) + seq!['}'],
    }
}

/// Array elements written as JSON, separated by commas.
pub open spec fn json_render_items(items: Seq<JsonValue>) -> Seq<char>
    decreases items,
{
    if items.len() == 0 {
        seq![]
    } else if items.len() == 1 {
        json_render(items[0])
    } else {
        json_render_items(items.subrange(0, items.len() - 1)) + seq![','] + json_render(items[items.len() - 1])
    }
}

/// Object members written as JSON, separated by commas.
pub open spec fn json_render_members(es: Seq<(String, JsonValue)>) -> Seq<char>
    decreases es,
{
    if es.len() == 0 {
        seq![]
    } else if es.len() == 1 {
        json_quoted(es[0].0@) + seq![':'] + json_render(es[0].1)
    } else {
        json_render_members(es.subrange(0, es.len() - 1)) + seq![','] + json_quoted(es[es.len() - 1].0@) + seq![':']
            + json_render(es[es.len() - 1].1)
    }
}

fn push_json_quoted(out: &mut String, s: &str)
    ensures
        final(out)@ == old(out)@ + json_quoted(s@),
{
    let c = chars_of(s);
    let ghost start = out@;
    push_char(out, '"');
    for i in 0..c.len()
        invariant
            c@ == s@,
            out@ == start + seq!['"'] + json_escaped(c@.take(i as int)),
    {
        let ch = c[i];
        let ghost before = out@;
        if ch == '"' {
            push_char(out, '\\');
            push_char(out, '"');
        } else if ch == '\\' {
            push_char(out, '\\');
            push_char(out, '\\');
        } else if ch == '\n' {
            push_char(out, '\\');
            push_char(out, 'n');
        } else if ch == '\r' {
            push_char(out, '\\');
            push_char(out, 'r');
        } else if ch == '\t' {
            push_char(out, '\\');
            push_char(out, 't');
        } else if ch == '\x08' {
            push_char(out, '\\');
            push_char(out, 'b');
        } else if ch == '\x0c' {
            push_char(out, '\\');
            push_char(out, 'f');
        } else if (ch as u32) < 0x20 {
            let v = (ch as u32) as u8;
            push_char(out, '\\');
            push_char(out, 'u');
            push_char(out, '0');
            push_char(out, '0');
            push_char(out, hex_digit_exec(v / 16));
            push_char(out, hex_digit_exec(v % 16));
        } else {
            push_char(out, ch);
        }
        assert(out@ =~= before + json_escape_char(ch));
        assert(c@.take(i + 1).drop_last() =~= c@.take(i as int));
        assert(out@ =~= start + seq!['"'] + json_escaped(c@.take(i + 1)));
    }
    assert(c@.take(c@.len() as int) =~= c@);
    push_char(out, '"');
    assert(out@ =~= start + json_quoted(s@));
}

/// Writes a value as compact JSON, members in their order.
pub fn render_json(out: &mut String, v: &JsonValue)
    ensures
        final(out)@ == old(out)@ + json_render(*v),
    decreases v,
{
    let ghost start = out@;
    match v {
        JsonValue::Null => out.append("null"),
        JsonValue::Bool(b) => out.append(if *b {
            "true"
        } else {
            "false"
        }),
        JsonValue::Number(t) => out.append(t.as_str()),
        JsonValue::Text(s) => push_json_quoted(out, s.as_str()),
        JsonValue::Array(items) => {
            push_char(out, '[');
            for i in 0..items.len()
                invariant
                    *v == JsonValue::Array(*items),
                    out@ == start + seq!['['] + json_render_items(items@.take(i as int)),
            {
                if i > 0 {
                    push_char(out, ',');
                }
                proof {
                    assert(decreases_to!(*v => v->Array_0));
                    assert(decreases_to!(v->Array_0 => (v->Array_0)@));
                    assert(decreases_to!((v->Array_0)@ => (v->Array_0)@[i as int]));
                }
                render_json(out, &items[i]);
                assert(items@.take(i + 1).subrange(0, i as int) =~= items@.take(i as int));
                assert(items@.take(i + 1)[i as int] == items@[i as int]);
                if i == 0 {
                    assert(out@ =~= start + seq!['['] + json_render_items(items@.take(i + 1)));
                } else {
                    assert(out@ =~= start + seq!['['] + json_render_items(items@.take(i + 1)));
                }
            }
            assert(items@.take(items@.len() as int) =~= items@);
            push_char(out, ']');
        },
        JsonValue::Object(es) => {
            push_char(out, '{');
            for i in 0..es.len()
                invariant
                    *v == JsonValue::Object(*es),
                    out@ == start + seq!['{'] + json_render_members(es@.take(i as int)),
            {
                if i > 0 {
                    push_char(out, ',');
                }
                push_json_quoted(out, es[i].0.as_str());
                push_char(out, ':');
                proof {
                    assert(decreases_to!(*v => v->Object_0));
                    assert(decreases_to!(v->Object_0 => (v->Object_0)@));
                    assert(decreases_to!((v->Object_0)@ => (v->Object_0)@[i as int]));
                    assert(decreases_to!((v->Object_0)@[i as int] => (v->Object_0)@[i as int].1));
                }
                render_json(out, &es[i].1);
                assert(es@.take(i + 1).subrange(0, i as int) =~= es@.take(i as int));
                assert(es@.take(i + 1)[i as int] == es@[i as int]);
                assert(out@ =~= start + seq!['{'] + json_render_members(es@.take(i + 1)));
            }
            assert(es@.take(es@.len() as int) =~= es@);
            push_char(out, '}');
        },
    }
}

/// The severity of an ESLint message: level 2 is an error, level 1 (also when the
/// level is missing or not a non-negative integer) a warning, any other level
/// informational.
pub open spec fn eslint_severity(level: Option<usize>) -> Severity {
    let l = match level {
        Some(v) => v,
        None => 1,
    };
    if l == 2 {
        Severity::High
    } else if l == 1 {
        Severity::Medium
    } else {
        Severity::Info
    }
}

/// The diagnostic of one ESLint message about the file at `path`.
pub open spec fn eslint_message(path: Seq<char>, m: JsonValue) -> DiagnosticView {
    DiagnosticView {
        tool: ExternalTool::Eslint,
        rule_code: spec_sanitize_rule_code(text_or(json_text(json_get(m, "ruleId"@)), "diagnostic"@)),
        severity: eslint_severity(json_usize(json_get(m, "severity"@))),
        confidence: Confidence::High,
        message: text_or(json_text(json_get(m, "message"@)), "ESLint diagnostic"@),
        path,
        line: json_usize(json_get(m, "line"@)),
        column: json_usize(json_get(m, "column"@)),
        byte_span: None,
        external_severity: match json_get(m, "severity"@) {
            Some(level) => Some(json_render(level)),
            None => None,
        },
        help: None,
    }
}

/// The diagnostics of one file result: one per message, none when the result has no
/// `filePath` or no `messages` array.
pub open spec fn eslint_file(root: Seq<char>, cwd: Seq<char>, file: JsonValue) -> Seq<DiagnosticView> {
    match json_text(json_get(file, "filePath"@)) {
        None => seq![],
        Some(p) => match json_array(json_get(file, "messages"@)) {
            None => seq![],
            Some(messages) => messages.map_values(|m: JsonValue| eslint_message(tool_path(root, cwd, p), m)),
        },
    }
}

/// The diagnostics of several file results, in order.
pub open spec fn eslint_files(root: Seq<char>, cwd: Seq<char>, files: Seq<JsonValue>) -> Seq<DiagnosticView>
    decreases files.len(),
{
    if files.len() == 0 {
        seq![]
    } else {
        eslint_files(root, cwd, files.drop_last()) + eslint_file(root, cwd, files.last())
    }
}

/// The diagnostics of ESLint's JSON output, an array of file results.
pub open spec fn eslint_diagnostics(root: Seq<char>, cwd: Seq<char>, report: JsonValue) -> Seq<DiagnosticView> {
    match json_array(Some(report)) {
        Some(files) => eslint_files(root, cwd, files),
        None => seq![],
    }
}

fn eslint_message_exec(path: &String, m: &JsonValue) -> (r: ExternalDiagnostic)
    ensures
        diagnostic_view(r) == eslint_message(path@, *m),
{
    let rule = text_or_exec(member_text(m, "ruleId"), "diagnostic");
    let message = text_or_exec(member_text(m, "message"), "ESLint diagnostic");
    let level_value = get_member(m, "severity");
    let level = match number_usize(level_value) {
        Some(v) => v,
        None => 1,
    };
    let severity = if level == 2 {
        Severity::High
    } else if level == 1 {
        Severity::Medium
    } else {
        Severity::Info
    };
    let external_severity = match level_value {
        Some(x) => {
            let mut text = String::new();
            render_json(&mut text, x);
            Some(text)
        },
        None => None,
    };
    ExternalDiagnostic {
        tool: ExternalTool::Eslint,
        rule_code: sanitize_rule_code(chars_of(rule.as_str()).as_slice()),
        severity,
        confidence: Confidence::High,
        message,
        path: path.clone(),
        line: number_usize(get_member(m, "line")),
        column: number_usize(get_member(m, "column")),
        byte_span: None,
        external_severity,
        help: None,
    }
}

fn push_eslint_file(out: &mut Vec<ExternalDiagnostic>, root: &[char], cwd: &[char], file: &JsonValue)
    ensures
        diagnostic_views(final(out)@) == diagnostic_views(old(out)@) + eslint_file(root@, cwd@, *file),
{
    let ghost start = diagnostic_views(out@);
    let p = match member_text(file, "filePath") {
        Some(p) => p,
        None => {
            assert(eslint_file(root@, cwd@, *file) =~= Seq::<DiagnosticView>::empty());
            assert(diagnostic_views(out@) =~= start + eslint_file(root@, cwd@, *file));
            return;
        },
    };
    let messages = match array_of(get_member(file, "messages")) {
        Some(ms) => ms,
        None => {
            assert(eslint_file(root@, cwd@, *file) =~= Seq::<DiagnosticView>::empty());
            assert(diagnostic_views(out@) =~= start + eslint_file(root@, cwd@, *file));
            return;
        },
    };
    let path = tool_path_exec(root, cwd, chars_of(p.as_str()).as_slice());
    for i in 0..messages.len()
        invariant
            diagnostic_views(out@) == start + messages@.take(i as int).map_values(
                |m: JsonValue| eslint_message(path@, m),
            ),
    {
        let ghost before = diagnostic_views(out@);
        out.push(eslint_message_exec(&path, &messages[i]));
        assert(diagnostic_views(out@) =~= before.push(diagnostic_view(out@.last())));
        assert(messages@.take(i + 1).map_values(|m: JsonValue| eslint_message(path@, m)) =~= messages@.take(
            i as int,
        ).map_values(|m: JsonValue| eslint_message(path@, m)).push(eslint_message(path@, messages@[i as int])));
    }
    assert(messages@.take(messages@.len() as int) =~= messages@);
}

/// Reads the diagnostics of ESLint's JSON output: for each file result with a path and
/// a list of messages, one diagnostic per message.
pub fn eslint_json_diagnostics(root: &str, cwd: &str, report: &JsonValue) -> (r: Vec<ExternalDiagnostic>)
    ensures
        diagnostic_views(r@) == eslint_diagnostics(root@, cwd@, *report),
{
    let root_chars = chars_of(root);
    let cwd_chars = chars_of(cwd);
    let mut out: Vec<ExternalDiagnostic> = Vec::new();
    match array_of(Some(report)) {
        Some(files) => {
            for i in 0..files.len()
                invariant
                    root_chars@ == root@,
                    cwd_chars@ == cwd@,
                    diagnostic_views(out@) == eslint_files(root@, cwd@, files@.take(i as int)),
            {
                push_eslint_file(&mut out, root_chars.as_slice(), cwd_chars.as_slice(), &files[i]);
                assert(files@.take(i + 1).drop_last() =~= files@.take(i as int));
            }
            assert(files@.take(files@.len() as int) =~= files@);
        },
        None => {
            assert(diagnostic_views(out@) =~= Seq::<DiagnosticView>::empty());
        },
    }
    out
}

/// A boolean value.
pub open spec fn json_bool(v: Option<JsonValue>) -> Option<bool> {
    match v {
        Some(JsonValue::Bool(b)) => Some(b),
        _ => None,
    }
}

/// The first span, at or after position `i`, marked as primary.
pub open spec fn first_primary(spans: Seq<JsonValue>, i: int) -> Option<int>
    decreases spans.len() - i,
{
    if i < 0 || i >= spans.len() {
        None
    } else if json_bool(json_get(spans[i], "is_primary"@)) == Some(true) {
        Some(i)
    } else {
        first_primary(spans, i + 1)
    }
}

/// The span a compiler message is reported at: its first primary span, else its first
/// span.
pub open spec fn primary_span(message: JsonValue) -> Option<JsonValue> {
    match json_array(json_get(message, "spans"@)) {
        None => None,
        Some(spans) => match first_primary(spans, 0) {
            Some(k) => Some(spans[k]),
            None => if spans.len() > 0 {
                Some(spans[0])
            } else {
                None
            },
        },
    }
}

/// A lint code without its leading `clippy::` prefixes.
pub open spec fn strip_clippy(code: Seq<char>) -> Seq<char>
    decreases code.len(),
{
    if code.len() >= 8 && code.take(8) == "clippy::"@ {
        strip_clippy(code.skip(8))
    } else {
        code
    }
}

/// A file named by the compiler: absolute as given, else under the manifest directory
/// (or the root when there is none).
pub open spec fn rust_path(root: Seq<char>, manifest_dir: Option<Seq<char>>, file: Seq<char>) -> Seq<char> {
    if crate::integrations::path_is_absolute(file) {
        file
    } else {
        crate::integrations::spec_path_join(
            match manifest_dir {
                Some(m) => m,
                None => root,
            },
            file,
        )
    }
}

/// The end of a span: its end, else one past its start, and at least one past its
/// start (when that fits).
pub open spec fn span_end(start: usize, end: Option<usize>) -> usize {
    let e = match end {
        Some(v) => v,
        None => if start < usize::MAX {
            (start + 1) as usize
        } else {
            usize::MAX
        },
    };
    if start < usize::MAX && e < start + 1 {
        (start + 1) as usize
    } else {
        e
    }
}

/// The diagnostic of one compiler message; Clippy keeps only its own lints, and a
/// message needs a span with a file name.
pub open spec fn cargo_diagnostic(tool: ExternalTool, root: Seq<char>, manifest_dir: Option<Seq<char>>, message: JsonValue) -> Option<DiagnosticView> {
    let code = text_or(json_text(json_pointer(message, seq!["code"@, "code"@])), "diagnostic"@);
    let level = text_or(json_text(json_get(message, "level"@)), "warning"@);
    if tool == ExternalTool::Clippy && !(code.len() >= 8 && code.take(8) == "clippy::"@) {
        None
    } else {
        match primary_span(message) {
            None => None,
            Some(span) => match json_text(json_get(span, "file_name"@)) {
                None => None,
                Some(file) => {
                    let start = match json_usize(json_get(span, "byte_start"@)) {
                        Some(v) => v,
                        None => 0,
                    };
                    let help = match json_text(json_get(message, "rendered"@)) {
                        Some(t) => if spec_trim(t).len() > 0 {
                            Some(spec_trim(t))
                        } else {
                            None
                        },
                        None => None,
                    };
                    Some(
                        DiagnosticView {
                            tool,
                            rule_code: spec_sanitize_rule_code(strip_clippy(code)),
                            severity: spec_severity_from_text(level),
                            confidence: Confidence::High,
                            message: text_or(json_text(json_get(message, "message"@)), "Rust compiler diagnostic"@),
                            path: rust_path(root, manifest_dir, file),
                            line: json_usize(json_get(span, "line_start"@)),
                            column: json_usize(json_get(span, "column_start"@)),
                            byte_span: Some(
                                SourceSpan { start, end: span_end(start, json_usize(json_get(span, "byte_end"@))) },
                            ),
                            external_severity: Some(level),
                            help,
                        },
                    )
                },
            },
        }
    }
}

/// The diagnostic of one line of cargo's JSON output (`None` for a line that is not
/// JSON): only `compiler-message` records count.
pub open spec fn cargo_line(tool: ExternalTool, root: Seq<char>, manifest_dir: Option<Seq<char>>, line: Option<JsonValue>) -> Option<DiagnosticView> {
    match line {
        Some(v) => if json_text(json_get(v, "reason"@)) == Some("compiler-message"@) {
            cargo_diagnostic(
                tool,
                root,
                manifest_dir,
                match json_get(v, "message"@) {
                    Some(m) => m,
                    None => JsonValue::Null,
                },
            )
        } else {
            None
        },
        None => None,
    }
}

/// The diagnostics of cargo's output lines, in order.
pub open spec fn cargo_diagnostics(tool: ExternalTool, root: Seq<char>, manifest_dir: Option<Seq<char>>, lines: Seq<Option<JsonValue>>) -> Seq<DiagnosticView> {
    present(lines.map_values(|l: Option<JsonValue>| cargo_line(tool, root, manifest_dir, l)))
}

fn strip_clippy_exec(code: &Vec<char>) -> (r: Vec<char>)
    ensures
        r@ == strip_clippy(code@),
{
    let prefix: Vec<char> = vec!['c', 'l', 'i', 'p', 'p', 'y', ':', ':'];
    proof {
        reveal_strlit("clippy::");
        assert(prefix@ =~= "clippy::"@);
        assert(prefix@.len() == 8);
    }
    let mut start: usize = 0;
    let n = code.len();
    let mut rest = code.clone();
    assert(code@.skip(0) =~= code@);
    while starts_with(rest.as_slice(), prefix.as_slice())
        invariant
            prefix@ == "clippy::"@,
            prefix@.len() == 8,
            n == code@.len(),
            start <= code@.len(),
            rest@ == code@.skip(start as int),
            strip_clippy(rest@) == strip_clippy(code@),
        decreases code@.len() - start,
    {
        assert(rest@.len() == code@.len() - start);
        assert(8 <= rest@.len());
        assert(start + 8 <= code@.len());
        assert(rest@.skip(8) =~= code@.skip(start + 8));
        start = start + 8;
        rest = crate::text::slice_chars(code.as_slice(), start, code.len());
        assert(rest@ =~= code@.skip(start as int));
    }
    rest
}

fn first_primary_exec(spans: &Vec<JsonValue>) -> (r: Option<usize>)
    ensures
        match r {
            Some(k) => first_primary(spans@, 0) == Some(k as int) && k < spans@.len(),
            None => first_primary(spans@, 0) is None,
        },
{
    let mut i: usize = 0;
    while i < spans.len()
        invariant
            i <= spans@.len(),
            first_primary(spans@, i as int) == first_primary(spans@, 0),
        decreases spans@.len() - i,
    {
        match get_member(&spans[i], "is_primary") {
            Some(JsonValue::Bool(true)) => return Some(i),
            _ => {},
        }
        i = i + 1;
    }
    None
}

fn primary_span_exec(message: &JsonValue) -> (r: Option<&JsonValue>)
    ensures
        match r {
            Some(x) => primary_span(*message) == Some(*x),
            None => primary_span(*message) is None,
        },
{
    match array_of(get_member(message, "spans")) {
        None => None,
        Some(spans) => match first_primary_exec(spans) {
            Some(k) => Some(&spans[k]),
            None => if spans.len() > 0 {
                Some(&spans[0])
            } else {
                None
            },
        },
    }
}

fn cargo_diagnostic_exec(tool: ExternalTool, root: &[char], manifest_dir: &Option<Vec<char>>, message: &JsonValue) -> (r: Option<ExternalDiagnostic>)
    ensures
        match r {
            Some(d) => cargo_diagnostic(tool, root@, match manifest_dir {
                Some(m) => Some(m@),
                None => None,
            }, *message) == Some(diagnostic_view(d)),
            None => cargo_diagnostic(tool, root@, match manifest_dir {
                Some(m) => Some(m@),
                None => None,
            }, *message) is None,
        },
{
    let code = text_or_exec(text_of(get_path2(message, "code", "code")), "diagnostic");
    let level = text_or_exec(member_text(message, "level"), "warning");
    let code_chars = chars_of(code.as_str());
    let prefix: Vec<char> = vec!['c', 'l', 'i', 'p', 'p', 'y', ':', ':'];
    proof {
        reveal_strlit("clippy::");
        assert(prefix@ =~= "clippy::"@);
    }
    if tool == ExternalTool::Clippy && !starts_with(code_chars.as_slice(), prefix.as_slice()) {
        return None;
    }
    let span = match primary_span_exec(message) {
        Some(s) => s,
        None => return None,
    };
    let file = match member_text(span, "file_name") {
        Some(f) => f,
        None => return None,
    };
    let start = match number_usize(get_member(span, "byte_start")) {
        Some(v) => v,
        None => 0,
    };
    let end_value = number_usize(get_member(span, "byte_end"));
    let e = match end_value {
        Some(v) => v,
        None => if start < usize::MAX {
            start + 1
        } else {
            usize::MAX
        },
    };
    let end = if start < usize::MAX && e < start + 1 {
        start + 1
    } else {
        e
    };
    let help = match member_text(message, "rendered") {
        Some(t) => {
            let trimmed = crate::text::trim_chars(chars_of(t.as_str()).as_slice());
            if trimmed.len() > 0 {
                Some(crate::text::string_from_chars(trimmed.as_slice()))
            } else {
                None
            }
        },
        None => None,
    };
    let file_chars = chars_of(file.as_str());
    let path = if file_chars.len() > 0 && file_chars[0] == '/' {
        file
    } else {
        match manifest_dir {
            Some(m) => crate::text::string_from_chars(crate::integrations::path_join(m.as_slice(), file_chars.as_slice()).as_slice()),
            None => crate::text::string_from_chars(crate::integrations::path_join(root, file_chars.as_slice()).as_slice()),
        }
    };
    let message_text = text_or_exec(member_text(message, "message"), "Rust compiler diagnostic");
    let d = ExternalDiagnostic {
        tool,
        rule_code: sanitize_rule_code(strip_clippy_exec(&code_chars).as_slice()),
        severity: severity_from_text(chars_of(level.as_str()).as_slice()),
        confidence: Confidence::High,
        message: message_text,
        path,
        line: number_usize(get_member(span, "line_start")),
        column: number_usize(get_member(span, "column_start")),
        byte_span: Some(SourceSpan { start, end }),
        external_severity: Some(level),
        help,
    };
    Some(d)
}

/// Reads the diagnostics of cargo's JSON messages (`cargo check` or Clippy), given each
/// output line parsed as JSON (`None` for a line that is not): one per compiler
/// message with a span, Clippy keeping only its own lints. Relative file names are
/// taken under the manifest directory, or the root.
pub fn cargo_json_diagnostics(
    tool: ExternalTool,
    root: &str,
    manifest_dir: Option<&str>,
    lines: &Vec<Option<JsonValue>>,
) -> (r: Vec<ExternalDiagnostic>)
    ensures
        diagnostic_views(r@) == cargo_diagnostics(tool, root@, match manifest_dir {
            Some(m) => Some(m@),
            None => None,
        }, lines@),
{
    let root_chars = chars_of(root);
    let manifest: Option<Vec<char>> = match manifest_dir {
        Some(m) => Some(chars_of(m)),
        None => None,
    };
    let ghost mv = match manifest_dir {
        Some(m) => Some(m@),
        None => None,
    };
    assert(mv == match manifest {
        Some(m) => Some(m@),
        None => None::<Seq<char>>,
    });
    let null = JsonValue::Null;
    let ghost mapped = lines@.map_values(|l: Option<JsonValue>| cargo_line(tool, root@, mv, l));
    let mut out: Vec<ExternalDiagnostic> = Vec::new();
    for i in 0..lines.len()
        invariant
            root_chars@ == root@,
            mv == match manifest {
                Some(m) => Some(m@),
                None => None::<Seq<char>>,
            },
            null == JsonValue::Null,
            mapped == lines@.map_values(|l: Option<JsonValue>| cargo_line(tool, root@, mv, l)),
            diagnostic_views(out@) == present(mapped.take(i as int)),
    {
        assert(mapped.take(i + 1).drop_last() =~= mapped.take(i as int));
        assert(mapped.take(i + 1).last() == cargo_line(tool, root@, mv, lines@[i as int]));
        let ghost before = diagnostic_views(out@);
        match &lines[i] {
            Some(v) => {
                let reason = member_text(v, "reason");
                let is_message = match &reason {
                    Some(r) => crate::text::chars_eq(chars_of(r.as_str()).as_slice(), chars_of("compiler-message").as_slice()),
                    None => false,
                };
                if is_message {
                    let message = match get_member(v, "message") {
                        Some(m) => m,
                        None => &null,
                    };
                    match cargo_diagnostic_exec(tool, root_chars.as_slice(), &manifest, message) {
                        Some(d) => {
                            out.push(d);
                            assert(diagnostic_views(out@) =~= before.push(diagnostic_view(out@.last())));
                        },
                        None => {},
                    }
                }
            },
            None => {},
        }
    }
    assert(mapped.take(mapped.len() as int) =~= mapped);
    out
}

} // verus!
