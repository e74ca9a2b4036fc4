//! The pieces of reports that are decided rather than laid out: formats, the names of
//! kinds and statuses in machine-readable output, escaping, and the short texts that
//! describe a score, a baseline, a location or an autofix.
use vstd::prelude::*;

use crate::findings::{
    AutofixSafety, BaselineStatus, Finding, FindingKind, FindingLocation, FixApplicability, ScanResult,
    ScoreCategoryScore, Severity,
};
use crate::text::{chars_of, lower_chars, spec_decimal, spec_lower, spec_replace_char, string_from_chars};

verus! {

broadcast use vstd::std_specs::vec::group_vec_axioms;

/// The version of the JSON report schema.
pub const JSON_SCHEMA_VERSION: &'static str = "1.0.0";

/// The form of a report.
#[derive(Debug, Clone, Copy, PartialEq, Eq, Structural)]
pub enum ReportFormat {
    Text,
    Json,
    Sarif,
    Html,
    Markdown,
}

/// How a report is rendered.
#[derive(Debug, Clone, Copy, PartialEq, Eq, Structural)]
pub struct ReportOptions {
    pub format: ReportFormat,
    pub use_color: bool,
}

impl ReportOptions {
    /// Options for a report in `format`, coloured when `use_color`.
    pub fn new(format: ReportFormat, use_color: bool) -> (r: ReportOptions)
        ensures
            r == (ReportOptions { format, use_color }),
    {
        ReportOptions { format, use_color }
    }
}

/// The format a configured name stands for, ASCII case ignored: `json`, `sarif`,
/// `html`, `markdown` or `md`; anything else is text.
pub open spec fn spec_format_from_config(value: Seq<char>) -> ReportFormat {
    let v = spec_lower(value);
    if v == "json"@ {
        ReportFormat::Json
    } else if v == "sarif"@ {
        ReportFormat::Sarif
    } else if v == "html"@ {
        ReportFormat::Html
    } else if v == "markdown"@ || v == "md"@ {
        ReportFormat::Markdown
    } else {
        ReportFormat::Text
    }
}

fn is_word(v: &Vec<char>, word: &str) -> (r: bool)
    ensures
        r == (v@ == word@),
{
    crate::text::chars_eq(v.as_slice(), chars_of(word).as_slice())
}

/// The format a configured name stands for.
pub fn report_format_from_config(value: &str) -> (r: ReportFormat)
    ensures
        r == spec_format_from_config(value@),
{
    let v = lower_chars(chars_of(value).as_slice());
    if is_word(&v, "json") {
        ReportFormat::Json
    } else if is_word(&v, "sarif") {
        ReportFormat::Sarif
    } else if is_word(&v, "html") {
        ReportFormat::Html
    } else if is_word(&v, "markdown") || is_word(&v, "md") {
        ReportFormat::Markdown
    } else {
        ReportFormat::Text
    }
}

/// The HTML escape of one character.
pub open spec fn html_escape_char(c: char) -> Seq<char> {
    if c == '&' {
        "&amp;"@
    } else if c == '<' {
        "&lt;"@
    } else if c == '>' {
        "&gt;"@
    } else if c == '"' {
        "&quot;"@
    } else if c == '\'' {
        "&#39;"@
    } else {
        seq![c]
    }
}

/// A text with every character replaced by its escape.
pub open spec fn escape_each(s: Seq<char>, esc: spec_fn(char) -> Seq<char>) -> Seq<char>
    decreases s.len(),
{
    if s.len() == 0 {
        seq![]
    } else {
        escape_each(s.drop_last(), esc) + esc(s.last())
    }
}

fn append_chars(out: &mut String, s: &str)
    ensures
        final(out)@ == old(out)@ + s@,
{
    out.append(s);
}

/// A text with `&`, `<`, `>`, `"` and `'` escaped for HTML.
pub open spec fn html_text(s: Seq<char>) -> Seq<char> {
    escape_each(s, |c: char| html_escape_char(c))
}

/// Escapes `&`, `<`, `>`, `"` and `'` for HTML.
pub fn escape_html(value: &str) -> (r: String)
    ensures
        r@ == html_text(value@),
{
    let chars = chars_of(value);
    let mut out = String::new();
    proof {
        reveal_strlit("&amp;");
        reveal_strlit("&lt;");
        reveal_strlit("&gt;");
        reveal_strlit("&quot;");
        reveal_strlit("&#39;");
    }
    for i in 0..chars.len()
        invariant
            chars@ == value@,
            out@ == escape_each(chars@.take(i as int), |c: char| html_escape_char(c)),
    {
        let c = chars[i];
        assert(chars@.take(i + 1).drop_last() =~= chars@.take(i as int));
        if c == '&' {
            append_chars(&mut out, "&amp;");
        } else if c == '<' {
            append_chars(&mut out, "&lt;");
        } else if c == '>' {
            append_chars(&mut out, "&gt;");
        } else if c == '"' {
            append_chars(&mut out, "&quot;");
        } else if c == '\'' {
            append_chars(&mut out, "&#39;");
        } else {
            crate::text::push_char(&mut out, c);
            assert(seq![c] == html_escape_char(c));
        }
    }
    assert(chars@.take(chars@.len() as int) =~= chars@);
    out
}

/// The Markdown table escape of one character: a bar gets a backslash.
pub open spec fn markdown_escape_char(c: char) -> Seq<char> {
    if c == '|' {
        seq!['\\', '|']
    } else {
        seq![c]
    }
}

/// A text with its bars escaped for a Markdown table.
pub open spec fn markdown_text(s: Seq<char>) -> Seq<char> {
    escape_each(s, |c: char| markdown_escape_char(c))
}

/// Escapes the bars of a text for a Markdown table.
pub fn markdown_escape(value: &str) -> (r: String)
    ensures
        r@ == markdown_text(value@),
{
    let chars = chars_of(value);
    let mut out = String::new();
    for i in 0..chars.len()
        invariant
            chars@ == value@,
            out@ == escape_each(chars@.take(i as int), |c: char| markdown_escape_char(c)),
    {
        let c = chars[i];
        assert(chars@.take(i + 1).drop_last() =~= chars@.take(i as int));
        if c == '|' {
            crate::text::push_char(&mut out, '\\');
        }
        crate::text::push_char(&mut out, c);
    }
    assert(chars@.take(chars@.len() as int) =~= chars@);
    out
}

/// The category of a finding in machine-readable reports.
pub fn category_value(finding: &Finding) -> (r: &'static str)
    ensures
        r@ == (match finding.kind {
            FindingKind::DuplicateName | FindingKind::ExactDuplicate | FindingKind::StructuralDuplicate
            | FindingKind::NearDuplicate | FindingKind::SemanticCandidate => "duplication"@,
            FindingKind::Style => "style"@,
            FindingKind::React => "react"@,
            FindingKind::FastApi => "fastapi"@,
            FindingKind::Rust => "rust_idiom"@,
            FindingKind::ExternalTool => "external"@,
        }),
{
    match finding.kind {
        FindingKind::DuplicateName | FindingKind::ExactDuplicate | FindingKind::StructuralDuplicate
        | FindingKind::NearDuplicate | FindingKind::SemanticCandidate => "duplication",
        FindingKind::Style => "style",
        FindingKind::React => "react",
        FindingKind::FastApi => "fastapi",
        FindingKind::Rust => "rust_idiom",
        FindingKind::ExternalTool => "external",
    }
}

/// The name of a finding kind in machine-readable reports.
pub fn kind_value(kind: FindingKind) -> (r: &'static str)
    ensures
        r@ == (match kind {
            FindingKind::DuplicateName => "duplicate_name"@,
            FindingKind::ExactDuplicate => "exact_duplicate"@,
            FindingKind::StructuralDuplicate => "structural_duplicate"@,
            FindingKind::NearDuplicate => "near_duplicate"@,
            FindingKind::SemanticCandidate => "semantic_candidate"@,
            FindingKind::Style => "style"@,
            FindingKind::React => "react"@,
            FindingKind::FastApi => "fastapi"@,
            FindingKind::Rust => "rust"@,
            FindingKind::ExternalTool => "external_tool"@,
        }),
{
    match kind {
        FindingKind::DuplicateName => "duplicate_name",
        FindingKind::ExactDuplicate => "exact_duplicate",
        FindingKind::StructuralDuplicate => "structural_duplicate",
        FindingKind::NearDuplicate => "near_duplicate",
        FindingKind::SemanticCandidate => "semantic_candidate",
        FindingKind::Style => "style",
        FindingKind::React => "react",
        FindingKind::FastApi => "fastapi",
        FindingKind::Rust => "rust",
        FindingKind::ExternalTool => "external_tool",
    }
}

/// The name of a baseline status in machine-readable reports.
pub fn baseline_status_value(status: BaselineStatus) -> (r: &'static str)
    ensures
        r@ == (match status {
            BaselineStatus::NotChecked => "not_checked"@,
            BaselineStatus::Missing => "missing"@,
            BaselineStatus::Compared => "compared"@,
        }),
{
    match status {
        BaselineStatus::NotChecked => "not_checked",
        BaselineStatus::Missing => "missing",
        BaselineStatus::Compared => "compared",
    }
}

/// The name of an autofix safety in machine-readable reports.
pub fn autofix_value(safety: AutofixSafety) -> (r: &'static str)
    ensures
        r@ == (match safety {
            AutofixSafety::Unavailable => "unavailable"@,
            AutofixSafety::SuggestionOnly => "suggestion_only"@,
            AutofixSafety::Safe => "safe"@,
        }),
{
    match safety {
        AutofixSafety::Unavailable => "unavailable",
        AutofixSafety::SuggestionOnly => "suggestion_only",
        AutofixSafety::Safe => "safe",
    }
}

/// The name of a fix applicability in machine-readable reports.
pub fn applicability_value(applicability: FixApplicability) -> (r: &'static str)
    ensures
        r@ == (match applicability {
            FixApplicability::MachineApplicable => "machine_applicable"@,
            FixApplicability::MaybeIncorrect => "maybe_incorrect"@,
            FixApplicability::SuggestionOnly => "suggestion_only"@,
        }),
{
    match applicability {
        FixApplicability::MachineApplicable => "machine_applicable",
        FixApplicability::MaybeIncorrect => "maybe_incorrect",
        FixApplicability::SuggestionOnly => "suggestion_only",
    }
}

/// The SARIF level of a severity: errors for high and critical, warnings for medium,
/// notes otherwise.
pub fn sarif_level(severity: Severity) -> (r: &'static str)
    ensures
        r@ == (match severity {
            Severity::Critical | Severity::High => "error"@,
            Severity::Medium => "warning"@,
            Severity::Low | Severity::Info => "note"@,
        }),
{
    match severity {
        Severity::Critical | Severity::High => "error",
        Severity::Medium => "warning",
        Severity::Low | Severity::Info => "note",
    }
}

/// The ANSI colour that marks a severity.
pub open spec fn severity_color(severity: Severity) -> Seq<char> {
    match severity {
        Severity::Critical => "\x1b[1;91m"@,
        Severity::High => "\x1b[31m"@,
        Severity::Medium => "\x1b[33m"@,
        Severity::Low => "\x1b[34m"@,
        Severity::Info => "\x1b[2;36m"@,
    }
}

/// The label of a severity, wrapped in its colour and a reset when colour is used.
pub fn color_severity(severity: Severity, use_color: bool) -> (r: String)
    ensures
        !use_color ==> r@ == severity.label_spec(),
        use_color ==> r@ == severity_color(severity) + severity.label_spec() + "\x1b[0m"@,
{
    let label = severity.label();
    if !use_color {
        return String::from_str(label);
    }
    let code = match severity {
        Severity::Critical => "\x1b[1;91m",
        Severity::High => "\x1b[31m",
        Severity::Medium => "\x1b[33m",
        Severity::Low => "\x1b[34m",
        Severity::Info => "\x1b[2;36m",
    };
    let mut out = String::from_str(code);
    out.append(label);
    out.append("\x1b[0m");
    out
}

/// The autofix line of a finding: its availability, then its explanation.
pub open spec fn spec_autofix_text(safety: AutofixSafety, explanation: Seq<char>) -> Seq<char> {
    (match safety {
        AutofixSafety::Unavailable => "Not available. "@,
        AutofixSafety::SuggestionOnly => "Suggestion only. "@,
        AutofixSafety::Safe => "Safe autofix available. "@,
    }) + explanation
}

/// The autofix line of a finding: its availability, then its explanation.
pub fn autofix_text(safety: AutofixSafety, explanation: &str) -> (r: String)
    ensures
        r@ == spec_autofix_text(safety, explanation@),
{
    let mut out = String::from_str(
        match safety {
            AutofixSafety::Unavailable => "Not available. ",
            AutofixSafety::SuggestionOnly => "Suggestion only. ",
            AutofixSafety::Safe => "Safe autofix available. ",
        },
    );
    out.append(explanation);
    out
}

/// The comment that would suppress a finding: `#` for Python (ASCII case ignored),
/// `//` otherwise.
pub open spec fn spec_suppression_hint(finding: Finding) -> Seq<char> {
    (if crate::scoring::opt_eq_ignore_case(finding.language, "python"@) {
        "#"@
    } else {
        "//"@
    }) + " codehealth-ignore-next-line "@ + finding.rule_id@ + " -- reason"@
}

/// The comment that would suppress a finding: `#` for Python (ASCII case ignored),
/// `//` otherwise.
pub fn suppression_hint(finding: &Finding) -> (r: String)
    ensures
        r@ == spec_suppression_hint(*finding),
{
    let python = match &finding.language {
        Some(language) => crate::findings::str_eq_ignore_case(language.as_str(), "python"),
        None => false,
    };
    let mut out = String::from_str(
        if python {
            "#"
        } else {
            "//"
        },
    );
    out.append(" codehealth-ignore-next-line ");
    out.append(finding.rule_id.as_str());
    out.append(" -- reason");
    out
}

/// A score out of 100, or `disabled`.
pub open spec fn score_text_of(score: Option<u8>) -> Seq<char> {
    match score {
        Some(v) => spec_decimal(v as nat) + "/100"@,
        None => "disabled"@,
    }
}

fn score_value_text(score: Option<u8>) -> (r: String)
    ensures
        r@ == score_text_of(score),
{
    match score {
        Some(v) => {
            let mut out = crate::text::decimal(v as usize);
            out.append("/100");
            out
        },
        None => String::from_str("disabled"),
    }
}

/// The overall score of a result as text.
pub fn score_text(result: &ScanResult) -> (r: String)
    ensures
        r@ == score_text_of(result.score.overall),
{
    score_value_text(result.score.overall)
}

/// The score of one category as text.
pub fn category_score_text(score: &ScoreCategoryScore) -> (r: String)
    ensures
        r@ == score_text_of(score.score),
{
    score_value_text(score.score)
}

/// The baseline line of a text report.
pub open spec fn spec_baseline_text(result: ScanResult) -> Seq<char> {
    let b = result.summary.baseline;
    match b.status {
        BaselineStatus::NotChecked => "not checked"@,
        BaselineStatus::Missing => match b.path {
            Some(p) => "unavailable ("@ + crate::integrations::spec_normalize_path(result.root@, p@) + ")"@,
            None => "unavailable"@,
        },
        BaselineStatus::Compared => spec_decimal(
            (match b.new_findings {
                Some(n) => n,
                None => 0,
            }) as nat,
        ) + " new findings compared with "@ + match b.path {
            Some(p) => crate::integrations::spec_normalize_path(result.root@, p@),
            None => "baseline"@,
        },
    }
}

pub(crate) fn report_path(root: &str, path: &str) -> (r: String)
    ensures
        r@ == crate::integrations::spec_normalize_path(root@, path@),
{
    string_from_chars(crate::integrations::normalize_path(chars_of(root).as_slice(), chars_of(path).as_slice()).as_slice())
}

/// The baseline line of a text report: not checked, unavailable (with the path), or
/// the number of new findings against the baseline.
pub fn baseline_text(result: &ScanResult) -> (r: String)
    ensures
        r@ == spec_baseline_text(*result),
{
    let b = &result.summary.baseline;
    match b.status {
        BaselineStatus::NotChecked => String::from_str("not checked"),
        BaselineStatus::Missing => match &b.path {
            Some(p) => {
                let mut out = String::from_str("unavailable (");
                out.append(report_path(result.root.as_str(), p.as_str()).as_str());
                out.append(")");
                out
            },
            None => String::from_str("unavailable"),
        },
        BaselineStatus::Compared => {
            let n = match b.new_findings {
                Some(n) => n,
                None => 0,
            };
            let mut out = crate::text::decimal(n);
            out.append(" new findings compared with ");
            match &b.path {
                Some(p) => out.append(report_path(result.root.as_str(), p.as_str()).as_str()),
                None => out.append("baseline"),
            }
            out
        },
    }
}

/// A location as `path:line:column` (or the path alone without a start), relative to
/// the root, followed by ` [bytes start..end]` when it has a span.
pub open spec fn spec_format_location(root: Seq<char>, l: FindingLocation) -> Seq<char> {
    let path = crate::integrations::spec_normalize_path(root, l.path@);
    let head = match l.start {
        Some(s) => path + ":"@ + spec_decimal(s.line as nat) + ":"@ + spec_decimal(s.column as nat),
        None => path,
    };
    match l.span {
        Some(span) => head + " [bytes "@ + spec_decimal(span.start as nat) + ".."@ + spec_decimal(span.end as nat) + "]"@,
        None => head,
    }
}

/// A location in a text report.
pub fn format_location(root: &str, location: &FindingLocation) -> (r: String)
    ensures
        r@ == spec_format_location(root@, *location),
{
    let mut out = report_path(root, location.path.as_str());
    match location.start {
        Some(s) => {
            out.append(":");
            out.append(crate::text::decimal(s.line).as_str());
            out.append(":");
            out.append(crate::text::decimal(s.column).as_str());
        },
        None => {},
    }
    match location.span {
        Some(span) => {
            out.append(" [bytes ");
            out.append(crate::text::decimal(span.start).as_str());
            out.append("..");
            out.append(crate::text::decimal(span.end).as_str());
            out.append("]");
        },
        None => {},
    }
    out
}

/// A file URI for a path with forward slashes and a trailing slash.
pub fn path_to_file_uri(path: &str) -> (r: String)
    ensures
        ({
            let n = spec_replace_char(path@, '\\', '/');
            r@ == if n.len() > 0 && n[0] == '/' {
                "file://"@ + n + "/"@
            } else {
                "file:///"@ + n + "/"@
            }
        }),
{
    let n = crate::text::replace_char(chars_of(path).as_slice(), '\\', '/');
    let text = string_from_chars(n.as_slice());
    let mut out = if n.len() > 0 && n[0] == '/' {
        String::from_str("file://")
    } else {
        String::from_str("file:///")
    };
    out.append(text.as_str());
    out.append("/");
    out
}

} // verus!
