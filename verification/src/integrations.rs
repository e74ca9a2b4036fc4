//! Normalising the diagnostics of external tools into findings: reading the text
//! formats of the TypeScript compiler and mypy (the JSON formats are read in
//! `tool_json`), cleaning rule codes, mapping severities, de-duplicating, and merging
//! them with the native findings.
use vstd::prelude::*;

use crate::findings::{
    AutofixSafety, Confidence, Finding, FindingKind, FindingLocation, Location, MetadataValue,
    ScanResult, Severity, SourceSpan,
};
use crate::baseline_keys::{metadata_get, metadata_text};
use crate::normalize::{lines_of, normalize_source, spec_lines, spec_normalize};
use crate::paths::{path_components, path_eq_exec};
use crate::text::{
    chars_of, find_first, first_occurrence, first_occurrence_from, is_ascii_alphanumeric, occurs_at, join_chars, lower_char,
    lower_chars, parse_usize_chars, spec_is_ascii_alphanumeric, spec_join, spec_lower,
    spec_lower_char, spec_parse_usize, spec_split, spec_trim, spec_trim_end, split_chars,
    string_from_chars, trim_chars, trim_end_chars, views,
};

verus! {

/// Whether a CI run passes.
#[derive(Debug, Clone, Copy, PartialEq, Eq, Structural)]
pub enum CiDecision {
    Pass,
    Fail,
}

/// CI fails when any finding blocks by default.
pub fn default_ci_decision(result: &ScanResult) -> (r: CiDecision)
    ensures
        (r == CiDecision::Fail) == exists|i: int|
            0 <= i < result.findings@.len() && (#[trigger] result.findings@[i]).severity.spec_blocks_by_default(
                result.findings@[i].confidence,
            ),
{
    if result.has_blocking_findings() {
        CiDecision::Fail
    } else {
        CiDecision::Pass
    }
}

/// An external tool whose output can be read.
#[derive(Debug, Clone, Copy, PartialEq, Eq, Structural)]
pub enum ExternalTool {
    Eslint,
    Biome,
    Tsc,
    Ruff,
    Mypy,
    Pyright,
    CargoCheck,
    Clippy,
    Semgrep,
}

impl ExternalTool {
    pub open spec fn spec_id(self) -> Seq<char> {
        match self {
            ExternalTool::Eslint => "eslint"@,
            ExternalTool::Biome => "biome"@,
            ExternalTool::Tsc => "tsc"@,
            ExternalTool::Ruff => "ruff"@,
            ExternalTool::Mypy => "mypy"@,
            ExternalTool::Pyright => "pyright"@,
            ExternalTool::CargoCheck => "cargo_check"@,
            ExternalTool::Clippy => "clippy"@,
            ExternalTool::Semgrep => "semgrep"@,
        }
    }

    /// The identifier used in rule ids.
    pub fn id(self) -> (r: &'static str)
        ensures
            r@ == self.spec_id(),
    {
        match self {
            ExternalTool::Eslint => "eslint",
            ExternalTool::Biome => "biome",
            ExternalTool::Tsc => "tsc",
            ExternalTool::Ruff => "ruff",
            ExternalTool::Mypy => "mypy",
            ExternalTool::Pyright => "pyright",
            ExternalTool::CargoCheck => "cargo_check",
            ExternalTool::Clippy => "clippy",
            ExternalTool::Semgrep => "semgrep",
        }
    }

    pub open spec fn spec_display_name(self) -> Seq<char> {
        match self {
            ExternalTool::Eslint => "ESLint"@,
            ExternalTool::Biome => "Biome"@,
            ExternalTool::Tsc => "TypeScript compiler"@,
            ExternalTool::Ruff => "Ruff"@,
            ExternalTool::Mypy => "mypy"@,
            ExternalTool::Pyright => "Pyright"@,
            ExternalTool::CargoCheck => "cargo check"@,
            ExternalTool::Clippy => "Clippy"@,
            ExternalTool::Semgrep => "Semgrep"@,
        }
    }

    /// The name shown in messages.
    pub fn display_name(self) -> (r: &'static str)
        ensures
            r@ == self.spec_display_name(),
    {
        match self {
            ExternalTool::Eslint => "ESLint",
            ExternalTool::Biome => "Biome",
            ExternalTool::Tsc => "TypeScript compiler",
            ExternalTool::Ruff => "Ruff",
            ExternalTool::Mypy => "mypy",
            ExternalTool::Pyright => "Pyright",
            ExternalTool::CargoCheck => "cargo check",
            ExternalTool::Clippy => "Clippy",
            ExternalTool::Semgrep => "Semgrep",
        }
    }

    pub open spec fn spec_language(self) -> Option<Seq<char>> {
        match self {
            ExternalTool::Eslint | ExternalTool::Biome | ExternalTool::Tsc => Some("typescript"@),
            ExternalTool::Ruff | ExternalTool::Mypy | ExternalTool::Pyright => Some("python"@),
            ExternalTool::CargoCheck | ExternalTool::Clippy => Some("rust"@),
            ExternalTool::Semgrep => None,
        }
    }

    /// The language the tool checks, if it checks one.
    pub fn language(self) -> (r: Option<&'static str>)
        ensures
            match r {
                Some(l) => self.spec_language() == Some(l@),
                None => self.spec_language() is None,
            },
    {
        match self {
            ExternalTool::Eslint | ExternalTool::Biome | ExternalTool::Tsc => Some("typescript"),
            ExternalTool::Ruff | ExternalTool::Mypy | ExternalTool::Pyright => Some("python"),
            ExternalTool::CargoCheck | ExternalTool::Clippy => Some("rust"),
            ExternalTool::Semgrep => None,
        }
    }
}

/// One diagnostic read from a tool's output.
#[derive(Debug, Clone)]
pub struct ExternalDiagnostic {
    pub tool: ExternalTool,
    pub rule_code: String,
    pub severity: Severity,
    pub confidence: Confidence,
    pub message: String,
    pub path: String,
    pub line: Option<usize>,
    pub column: Option<usize>,
    pub byte_span: Option<SourceSpan>,
    pub external_severity: Option<String>,
    pub help: Option<String>,
}

/// `trim` then `str::parse::<usize>`.
pub open spec fn spec_parse_trimmed(s: Seq<char>) -> Option<usize> {
    spec_parse_usize(spec_trim(s))
}

/// Parses a number, ignoring surrounding whitespace.
pub fn parse_usize(value: &[char]) -> (r: Option<usize>)
    ensures
        r == spec_parse_trimmed(value@),
{
    let t = trim_chars(value);
    parse_usize_chars(t.as_slice())
}

/// The text between the last `[` and a closing `]` that ends the (right-trimmed) text.
pub open spec fn spec_bracketed_code(value: Seq<char>) -> Option<Seq<char>> {
    let t = spec_trim_end(value);
    if t.len() > 0 && t.last() == ']' {
        let e = t.drop_last();
        let k = crate::normalize::last_index_of(e, '[');
        if k >= 0 {
            Some(e.skip(k + 1))
        } else {
            None
        }
    } else {
        None
    }
}

/// The code in brackets at the end of a message, such as `[assignment]`.
pub fn bracketed_code(value: &[char]) -> (r: Option<Vec<char>>)
    ensures
        match r {
            Some(c) => spec_bracketed_code(value@) == Some(c@),
            None => spec_bracketed_code(value@) is None,
        },
{
    let t = trim_end_chars(value);
    if t.len() == 0 || t[t.len() - 1] != ']' {
        return None;
    }
    let mut e = t;
    e.pop();
    let mut n = e.len();
    assert(e@.take(e@.len() as int) =~= e@);
    while n > 0 && e[n - 1] != '['
        invariant
            n <= e@.len(),
            crate::normalize::last_index_of(e@.take(n as int), '[') == crate::normalize::last_index_of(e@, '['),
        decreases n,
    {
        assert(e@.take(n as int).drop_last() =~= e@.take(n - 1));
        n = n - 1;
    }
    assert(e@.take(e@.len() as int) =~= e@);
    if n == 0 {
        assert(e@.take(0) =~= Seq::<char>::empty());
        return None;
    }
    assert(e@.take(n as int).last() == e@[n - 1]);
    let code = crate::text::slice_chars(e.as_slice(), n, e.len());
    assert(code@ =~= e@.skip(n as int));
    Some(code)
}

/// The severity a tool's severity word stands for, case ignored.
pub open spec fn spec_severity_from_text(value: Seq<char>) -> Severity {
    let v = spec_lower(value);
    if v == "critical"@ || v == "fatal"@ {
        Severity::Critical
    } else if v == "error"@ {
        Severity::High
    } else if v == "warning"@ || v == "warn"@ {
        Severity::Medium
    } else if v == "information"@ || v == "info"@ || v == "note"@ || v == "help"@ {
        Severity::Info
    } else {
        Severity::Low
    }
}

/// Tool severity words map by class, case ignored: `critical` and `fatal` are critical,
/// `error` is high, only `warning` and `warn` are medium, `information`, `info`, `note`
/// and `help` are informational, and every other word is low. A word and its lower-case
/// form map alike.
pub proof fn lemma_severity_word_classes(value: Seq<char>)
    ensures
        (spec_severity_from_text(value) == Severity::Critical) <==> (spec_lower(value) == "critical"@ || spec_lower(value)
            == "fatal"@),
        (spec_severity_from_text(value) == Severity::High) <==> spec_lower(value) == "error"@,
        (spec_severity_from_text(value) == Severity::Medium) <==> (spec_lower(value) == "warning"@ || spec_lower(value)
            == "warn"@),
        (spec_severity_from_text(value) == Severity::Info) <==> (spec_lower(value) == "information"@ || spec_lower(value)
            == "info"@ || spec_lower(value) == "note"@ || spec_lower(value) == "help"@),
        spec_severity_from_text(value) == spec_severity_from_text(spec_lower(value)),
{
    reveal_strlit("critical");
    reveal_strlit("fatal");
    reveal_strlit("error");
    reveal_strlit("warning");
    reveal_strlit("warn");
    reveal_strlit("information");
    reveal_strlit("info");
    reveal_strlit("note");
    reveal_strlit("help");
    assert("error"@[0] != "fatal"@[0] && "error"@ != "fatal"@);
    assert("warn"@[0] != "info"@[0] && "warn"@ != "info"@);
    assert("warn"@[0] != "note"@[0] && "warn"@ != "note"@);
    assert("warn"@[0] != "help"@[0] && "warn"@ != "help"@);
    let v = spec_lower(value);
    assert forall|k: int| 0 <= k < v.len() implies #[trigger] spec_lower_char(v[k]) == v[k] by {
        let c = value[k];
        if 'A' <= c && c <= 'Z' {
            assert(('a' as u32) <= (c as u32) + 32 <= ('z' as u32));
        }
    }
    assert(spec_lower(v) =~= v);
}

fn chars_equal_str(a: &[char], b: &str) -> (r: bool)
    ensures
        r == (a@ == b@),
{
    crate::text::chars_eq(a, chars_of(b).as_slice())
}

/// Maps a tool's severity word to a severity.
pub fn severity_from_text(value: &[char]) -> (r: Severity)
    ensures
        r == spec_severity_from_text(value@),
{
    let v = lower_chars(value);
    if chars_equal_str(&v, "critical") || chars_equal_str(&v, "fatal") {
        Severity::Critical
    } else if chars_equal_str(&v, "error") {
        Severity::High
    } else if chars_equal_str(&v, "warning") || chars_equal_str(&v, "warn") {
        Severity::Medium
    } else if chars_equal_str(&v, "information") || chars_equal_str(&v, "info") || chars_equal_str(
        &v,
        "note",
    ) || chars_equal_str(&v, "help") {
        Severity::Info
    } else {
        Severity::Low
    }
}

/// `s` without its leading `@` characters.
pub open spec fn strip_leading_at(s: Seq<char>) -> Seq<char>
    decreases s.len(),
{
    if s.len() > 0 && s[0] == '@' {
        strip_leading_at(s.drop_first())
    } else {
        s
    }
}

/// A rule-code character: ASCII letters and digits kept lower-cased, anything else a dot.
pub open spec fn rule_code_char(c: char) -> char {
    if spec_is_ascii_alphanumeric(c) {
        spec_lower_char(c)
    } else {
        '.'
    }
}

/// The non-empty pieces, in order.
pub open spec fn non_empty(parts: Seq<Seq<char>>) -> Seq<Seq<char>>
    decreases parts.len(),
{
    if parts.len() == 0 {
        seq![]
    } else {
        let earlier = non_empty(parts.drop_last());
        if parts.last().len() > 0 {
            earlier.push(parts.last())
        } else {
            earlier
        }
    }
}

/// A tool's rule code as a dotted lower-case identifier: trimmed, leading `@` removed,
/// every run of other characters turned into one dot, no dot at either end;
/// `diagnostic` when nothing is left.
pub open spec fn spec_sanitize_rule_code(value: Seq<char>) -> Seq<char> {
    let mapped = strip_leading_at(spec_trim(value)).map_values(|c: char| rule_code_char(c));
    let joined = spec_join(non_empty(spec_split(mapped, '.')), seq!['.']);
    if joined.len() == 0 {
        "diagnostic"@
    } else {
        joined
    }
}

fn non_empty_exec(parts: &Vec<Vec<char>>) -> (r: Vec<Vec<char>>)
    ensures
        views(r@) == non_empty(views(parts@)),
{
    let mut out: Vec<Vec<char>> = Vec::new();
    let ghost pv = views(parts@);
    for k in 0..parts.len()
        invariant
            pv == views(parts@),
            views(out@) == non_empty(pv.take(k as int)),
    {
        let part = parts[k].clone();
        assert(pv.take(k + 1).drop_last() =~= pv.take(k as int));
        assert(pv[k as int] == part@);
        let ghost before = views(out@);
        if part.len() > 0 {
            out.push(part);
            assert(views(out@) =~= before.push(pv[k as int]));
        }
    }
    assert(pv.take(pv.len() as int) =~= pv);
    out
}

/// Cleans a tool's rule code.
pub fn sanitize_rule_code(value: &[char]) -> (r: String)
    ensures
        r@ == spec_sanitize_rule_code(value@),
{
    let t = trim_chars(value);
    let mut start: usize = 0;
    assert(t@.skip(0) =~= t@);
    while start < t.len() && t[start] == '@'
        invariant
            start <= t@.len(),
            strip_leading_at(t@.skip(start as int)) == strip_leading_at(t@),
        decreases t.len() - start,
    {
        assert(t@.skip(start as int).drop_first() =~= t@.skip(start + 1));
        start = start + 1;
    }
    assert(t@.skip(0) =~= t@);
    let stripped = crate::text::slice_chars(t.as_slice(), start, t.len());
    assert(stripped@ =~= t@.skip(start as int));
    let mut mapped: Vec<char> = Vec::new();
    for i in 0..stripped.len()
        invariant
            mapped@ == stripped@.take(i as int).map_values(|c: char| rule_code_char(c)),
    {
        let c = stripped[i];
        let m = if is_ascii_alphanumeric(c) {
            lower_char(c)
        } else {
            '.'
        };
        mapped.push(m);
        assert(mapped@ =~= stripped@.take(i + 1).map_values(|c: char| rule_code_char(c)));
    }
    assert(stripped@.take(stripped@.len() as int) =~= stripped@);
    let parts = split_chars(mapped.as_slice(), '.');
    let kept = non_empty_exec(&parts);
    let dot: Vec<char> = vec!['.'];
    assert(dot@ =~= seq!['.']);
    let joined = join_chars(&kept, dot.as_slice());
    if joined.len() == 0 {
        String::from_str("diagnostic")
    } else {
        string_from_chars(joined.as_slice())
    }
}

/// A `/`-separated path that starts at the root.
pub open spec fn path_is_absolute(p: Seq<char>) -> bool {
    p.len() > 0 && p[0] == '/'
}

/// `base` joined with `p` as `Path::join` does: an absolute `p` replaces `base`, and a
/// separator is added between them unless `base` is empty or already ends with one.
pub open spec fn spec_path_join(base: Seq<char>, p: Seq<char>) -> Seq<char> {
    if path_is_absolute(p) {
        p
    } else if base.len() == 0 {
        p
    } else if base.last() == '/' {
        base + p
    } else {
        base + seq!['/'] + p
    }
}

/// Joins two paths.
pub fn path_join(base: &[char], p: &[char]) -> (r: Vec<char>)
    ensures
        r@ == spec_path_join(base@, p@),
{
    assert(p@.subrange(0, p@.len() as int) =~= p@);
    assert(base@.subrange(0, base@.len() as int) =~= base@);
    if p.len() > 0 && p[0] == '/' {
        return crate::text::slice_chars(p, 0, p.len());
    }
    if base.len() == 0 {
        return crate::text::slice_chars(p, 0, p.len());
    }
    let mut out = crate::text::slice_chars(base, 0, base.len());
    if base[base.len() - 1] != '/' {
        out.push('/');
    }
    crate::text::extend_chars(&mut out, p);
    out
}

/// The view of a diagnostic, with its texts as character sequences.
pub struct DiagnosticView {
    pub tool: ExternalTool,
    pub rule_code: Seq<char>,
    pub severity: Severity,
    pub confidence: Confidence,
    pub message: Seq<char>,
    pub path: Seq<char>,
    pub line: Option<usize>,
    pub column: Option<usize>,
    pub byte_span: Option<SourceSpan>,
    pub external_severity: Option<Seq<char>>,
    pub help: Option<Seq<char>>,
}

pub open spec fn opt_text(o: Option<String>) -> Option<Seq<char>> {
    match o {
        Some(s) => Some(s@),
        None => None,
    }
}

pub open spec fn diagnostic_view(d: ExternalDiagnostic) -> DiagnosticView {
    DiagnosticView {
        tool: d.tool,
        rule_code: d.rule_code@,
        severity: d.severity,
        confidence: d.confidence,
        message: d.message@,
        path: d.path@,
        line: d.line,
        column: d.column,
        byte_span: d.byte_span,
        external_severity: opt_text(d.external_severity),
        help: opt_text(d.help),
    }
}

pub open spec fn diagnostic_views(ds: Seq<ExternalDiagnostic>) -> Seq<DiagnosticView> {
    ds.map_values(|d: ExternalDiagnostic| diagnostic_view(d))
}

/// A path read from tool output, made absolute against the working directory and then
/// against the scan root.
pub open spec fn tool_path(root: Seq<char>, cwd: Seq<char>, path: Seq<char>) -> Seq<char> {
    let resolved = spec_path_join(cwd, path);
    if path_is_absolute(resolved) {
        resolved
    } else {
        spec_path_join(root, resolved)
    }
}

pub(crate) fn tool_path_exec(root: &[char], cwd: &[char], path: &[char]) -> (r: String)
    ensures
        r@ == tool_path(root@, cwd@, path@),
{
    let resolved = path_join(cwd, path);
    if resolved.len() > 0 && resolved[0] == '/' {
        string_from_chars(resolved.as_slice())
    } else {
        string_from_chars(path_join(root, resolved.as_slice()).as_slice())
    }
}

/// The diagnostic of one line of `tsc` output, `path(line,column): error TSxxxx: text`.
pub open spec fn tsc_diagnostic(root: Seq<char>, cwd: Seq<char>, line: Seq<char>) -> Option<DiagnosticView> {
    match first_occurrence(line, seq!['(']) {
        None => None,
        Some(open) => match first_occurrence(line.skip(open), seq![')', ':', ' ']) {
            None => None,
            Some(rel) => {
                let close = open + rel;
                let position = spec_split(line.subrange(open + 1, close), ',');
                let rest = line.skip(close + 3);
                match first_occurrence(rest, seq!['T', 'S']) {
                    None => None,
                    Some(code_start) => {
                        let code_end = match first_occurrence(rest.skip(code_start), seq![':']) {
                            Some(k) => code_start + k,
                            None => rest.len() as int,
                        };
                        let after = spec_trim(rest.skip(code_end + 1));
                        let message = if code_end < rest.len() && after.len() > 0 {
                            after
                        } else {
                            rest
                        };
                        Some(
                            DiagnosticView {
                                tool: ExternalTool::Tsc,
                                rule_code: spec_sanitize_rule_code(rest.subrange(code_start, code_end)),
                                severity: Severity::High,
                                confidence: Confidence::Certain,
                                message,
                                path: tool_path(root, cwd, line.take(open)),
                                line: spec_parse_trimmed(position[0]),
                                column: if position.len() > 1 {
                                    spec_parse_trimmed(position[1])
                                } else {
                                    None
                                },
                                byte_span: None,
                                external_severity: Some("error"@),
                                help: None,
                            },
                        )
                    },
                }
            },
        },
    }
}

/// The diagnostics of every line that parses.
pub open spec fn tsc_diagnostics(root: Seq<char>, cwd: Seq<char>, lines: Seq<Seq<char>>) -> Seq<DiagnosticView>
    decreases lines.len(),
{
    if lines.len() == 0 {
        seq![]
    } else {
        let earlier = tsc_diagnostics(root, cwd, lines.drop_last());
        match tsc_diagnostic(root, cwd, lines.last()) {
            Some(d) => earlier.push(d),
            None => earlier,
        }
    }
}

proof fn lemma_first_occurrence_facts(s: Seq<char>, needle: Seq<char>, i: int)
    requires
        0 <= i,
    ensures
        match first_occurrence_from(s, needle, i) {
            Some(p) => i <= p && occurs_at(s, needle, p),
            None => true,
        },
    decreases s.len() + 1 - i,
{
    if i <= s.len() && !occurs_at(s, needle, i) {
        lemma_first_occurrence_facts(s, needle, i + 1);
    }
}

fn tsc_line(root: &[char], cwd: &[char], line: &Vec<char>) -> (r: Option<ExternalDiagnostic>)
    ensures
        match r {
            Some(d) => tsc_diagnostic(root@, cwd@, line@) == Some(diagnostic_view(d)),
            None => tsc_diagnostic(root@, cwd@, line@) is None,
        },
{
    let open_paren: Vec<char> = vec!['('];
    assert(open_paren@ =~= seq!['(']);
    let open = match find_first(line.as_slice(), open_paren.as_slice()) {
        Some(k) => k,
        None => {
            return None;
        },
    };
    proof {
        lemma_first_occurrence_facts(line@, seq!['('], 0);
    }
    let tail = crate::text::slice_chars(line.as_slice(), open, line.len());
    assert(tail@ =~= line@.skip(open as int));
    let close_marker: Vec<char> = vec![')', ':', ' '];
    assert(close_marker@ =~= seq![')', ':', ' ']);
    let rel = match find_first(tail.as_slice(), close_marker.as_slice()) {
        Some(k) => k,
        None => {
            return None;
        },
    };
    proof {
        lemma_first_occurrence_facts(tail@, seq![')', ':', ' '], 0);
        assert(tail@.subrange(rel as int, rel + 3)[0] == ')');
        assert(line@[open as int] == '(');
        assert(tail@[0] == line@[open as int]);
    }
    let close = open + rel;
    let inside = crate::text::slice_chars(line.as_slice(), open + 1, close);
    let position = split_chars(inside.as_slice(), ',');
    let line_number = parse_usize(position[0].as_slice());
    let column = if position.len() > 1 {
        parse_usize(position[1].as_slice())
    } else {
        None
    };
    let rest = crate::text::slice_chars(line.as_slice(), close + 3, line.len());
    assert(rest@ =~= line@.skip(close + 3));
    let ts: Vec<char> = vec!['T', 'S'];
    assert(ts@ =~= seq!['T', 'S']);
    let code_start = match find_first(rest.as_slice(), ts.as_slice()) {
        Some(k) => k,
        None => {
            return None;
        },
    };
    proof {
        lemma_first_occurrence_facts(rest@, seq!['T', 'S'], 0);
    }
    let after_start = crate::text::slice_chars(rest.as_slice(), code_start, rest.len());
    assert(after_start@ =~= rest@.skip(code_start as int));
    let colon: Vec<char> = vec![':'];
    assert(colon@ =~= seq![':']);
    let code_end = match find_first(after_start.as_slice(), colon.as_slice()) {
        Some(k) => {
            proof {
                lemma_first_occurrence_facts(after_start@, seq![':'], 0);
            }
            code_start + k
        },
        None => rest.len(),
    };
    let code = crate::text::slice_chars(rest.as_slice(), code_start, code_end);
    let message = if code_end < rest.len() {
        let after = crate::text::slice_chars(rest.as_slice(), code_end + 1, rest.len());
        assert(after@ =~= rest@.skip(code_end + 1));
        let trimmed = trim_chars(after.as_slice());
        if trimmed.len() > 0 {
            trimmed
        } else {
            rest.clone()
        }
    } else {
        rest.clone()
    };
    let path = tool_path_exec(root, cwd, crate::text::slice_chars(line.as_slice(), 0, open).as_slice());
    assert(line@.subrange(0, open as int) =~= line@.take(open as int));
    proof {
        reveal_strlit("error");
    }
    let d = ExternalDiagnostic {
        tool: ExternalTool::Tsc,
        rule_code: sanitize_rule_code(code.as_slice()),
        severity: Severity::High,
        confidence: Confidence::Certain,
        message: string_from_chars(message.as_slice()),
        path,
        line: line_number,
        column,
        byte_span: None,
        external_severity: Some(String::from_str("error")),
        help: None,
    };
    Some(d)
}

/// Reads the diagnostics of `tsc` text output, one per line that has the shape
/// `path(line,column): ... TSxxxx: message`; other lines are skipped.
pub fn parse_tsc_text(root: &str, cwd: &str, raw: &str) -> (r: Vec<ExternalDiagnostic>)
    ensures
        diagnostic_views(r@) == tsc_diagnostics(root@, cwd@, spec_lines(raw@)),
{
    let root_chars = chars_of(root);
    let cwd_chars = chars_of(cwd);
    let lines = lines_of(&chars_of(raw));
    let ghost lv = views(lines@);
    let mut out: Vec<ExternalDiagnostic> = Vec::new();
    for i in 0..lines.len()
        invariant
            lv == views(lines@),
            root_chars@ == root@,
            cwd_chars@ == cwd@,
            diagnostic_views(out@) == tsc_diagnostics(root@, cwd@, lv.take(i as int)),
    {
        assert(lv.take(i + 1).drop_last() =~= lv.take(i as int));
        assert(lv.take(i + 1).last() == lines@[i as int]@);
        let ghost before = diagnostic_views(out@);
        match tsc_line(root_chars.as_slice(), cwd_chars.as_slice(), &lines[i]) {
            Some(d) => {
                out.push(d);
                assert(diagnostic_views(out@) =~= before.push(diagnostic_view(out@.last())));
            },
            None => {},
        }
    }
    assert(lv.take(lv.len() as int) =~= lv);
    out
}

/// The first position `p` at or after `i` where the pieces `p` and `p + 1` both parse as
/// numbers.
pub open spec fn numeric_pair_from(parts: Seq<Seq<char>>, i: int) -> Option<int>
    decreases parts.len() - i,
{
    if i < 0 || i + 1 >= parts.len() {
        None
    } else if spec_parse_trimmed(parts[i]) is Some && spec_parse_trimmed(parts[i + 1]) is Some {
        Some(i)
    } else {
        numeric_pair_from(parts, i + 1)
    }
}

proof fn lemma_numeric_pair_bound(parts: Seq<Seq<char>>, i: int)
    ensures
        match numeric_pair_from(parts, i) {
            Some(p) => i <= p && p + 1 < parts.len(),
            None => true,
        },
    decreases parts.len() - i,
{
    if !(i < 0 || i + 1 >= parts.len()) && !(spec_parse_trimmed(parts[i]) is Some && spec_parse_trimmed(parts[i + 1]) is Some) {
        lemma_numeric_pair_bound(parts, i + 1);
    }
}

/// The diagnostic of one line of mypy output, `path:line:column: severity: message`,
/// where the path may itself hold colons.
pub open spec fn mypy_diagnostic(root: Seq<char>, cwd: Seq<char>, line: Seq<char>) -> Option<DiagnosticView> {
    let parts = spec_split(line, ':');
    match numeric_pair_from(parts, 0) {
        None => None,
        Some(p) => if parts.len() <= p + 3 {
            None
        } else {
            let severity_text = spec_trim(parts[p + 2]);
            let message = spec_trim(spec_join(parts.skip(p + 3), seq![':']));
            let code = match spec_bracketed_code(message) {
                Some(c) => c,
                None => "diagnostic"@,
            };
            Some(
                DiagnosticView {
                    tool: ExternalTool::Mypy,
                    rule_code: spec_sanitize_rule_code(code),
                    severity: spec_severity_from_text(severity_text),
                    confidence: Confidence::High,
                    message,
                    path: tool_path(root, cwd, spec_join(parts.take(p), seq![':'])),
                    line: spec_parse_trimmed(parts[p]),
                    column: spec_parse_trimmed(parts[p + 1]),
                    byte_span: None,
                    external_severity: Some(severity_text),
                    help: None,
                },
            )
        },
    }
}

/// The mypy diagnostics of every line that parses.
pub open spec fn mypy_diagnostics(root: Seq<char>, cwd: Seq<char>, lines: Seq<Seq<char>>) -> Seq<DiagnosticView>
    decreases lines.len(),
{
    if lines.len() == 0 {
        seq![]
    } else {
        let earlier = mypy_diagnostics(root, cwd, lines.drop_last());
        match mypy_diagnostic(root, cwd, lines.last()) {
            Some(d) => earlier.push(d),
            None => earlier,
        }
    }
}

fn sub_parts(parts: &Vec<Vec<char>>, start: usize, end: usize) -> (r: Vec<Vec<char>>)
    requires
        start <= end <= parts@.len(),
    ensures
        views(r@) == views(parts@).subrange(start as int, end as int),
{
    let mut out: Vec<Vec<char>> = Vec::new();
    let mut i = start;
    while i < end
        invariant
            start <= i <= end <= parts@.len(),
            views(out@) == views(parts@).subrange(start as int, i as int),
        decreases end - i,
    {
        let part = parts[i].clone();
        assert(part@ == views(parts@)[i as int]);
        let ghost before = views(out@);
        out.push(part);
        assert(views(out@) =~= before.push(part@));
        i = i + 1;
        assert(views(out@) =~= views(parts@).subrange(start as int, i as int));
    }
    out
}

fn find_numeric_pair(parts: &Vec<Vec<char>>) -> (r: Option<usize>)
    ensures
        match r {
            Some(p) => numeric_pair_from(views(parts@), 0) == Some(p as int),
            None => numeric_pair_from(views(parts@), 0) is None,
        },
{
    let ghost pv = views(parts@);
    if parts.len() < 2 {
        return None;
    }
    let mut p: usize = 0;
    while p < parts.len() - 1
        invariant
            pv == views(parts@),
            parts@.len() >= 2,
            p <= parts@.len() - 1,
            numeric_pair_from(pv, p as int) == numeric_pair_from(pv, 0),
        decreases parts.len() - p,
    {
        assert(pv[p as int] == parts@[p as int]@);
        assert(pv[p + 1] == parts@[p + 1]@);
        if parse_usize(parts[p].as_slice()).is_some() && parse_usize(parts[p + 1].as_slice()).is_some() {
            return Some(p);
        }
        p = p + 1;
    }
    None
}

fn mypy_line(root: &[char], cwd: &[char], line: &Vec<char>) -> (r: Option<ExternalDiagnostic>)
    ensures
        match r {
            Some(d) => mypy_diagnostic(root@, cwd@, line@) == Some(diagnostic_view(d)),
            None => mypy_diagnostic(root@, cwd@, line@) is None,
        },
{
    let parts = split_chars(line.as_slice(), ':');
    let ghost pv = views(parts@);
    let p = match find_numeric_pair(&parts) {
        Some(p) => p,
        None => {
            return None;
        },
    };
    assert(numeric_pair_from(pv, 0) == Some(p as int));
    proof {
        lemma_numeric_pair_bound(pv, 0);
    }
    if parts.len() - p <= 3 {
        return None;
    }
    let colon: Vec<char> = vec![':'];
    assert(colon@ =~= seq![':']);
    let path_parts = sub_parts(&parts, 0, p);
    assert(pv.subrange(0, p as int) =~= pv.take(p as int));
    let path = join_chars(&path_parts, colon.as_slice());
    let line_number = parse_usize(parts[p].as_slice());
    let column = parse_usize(parts[p + 1].as_slice());
    let severity_text = trim_chars(parts[p + 2].as_slice());
    let message_parts = sub_parts(&parts, p + 3, parts.len());
    assert(pv.subrange(p + 3, pv.len() as int) =~= pv.skip(p + 3));
    let message = trim_chars(join_chars(&message_parts, colon.as_slice()).as_slice());
    let code = match bracketed_code(message.as_slice()) {
        Some(c) => c,
        None => {
            proof {
                reveal_strlit("diagnostic");
            }
            chars_of("diagnostic")
        },
    };
    let d = ExternalDiagnostic {
        tool: ExternalTool::Mypy,
        rule_code: sanitize_rule_code(code.as_slice()),
        severity: severity_from_text(severity_text.as_slice()),
        confidence: Confidence::High,
        message: string_from_chars(message.as_slice()),
        path: tool_path_exec(root, cwd, path.as_slice()),
        line: line_number,
        column,
        byte_span: None,
        external_severity: Some(string_from_chars(severity_text.as_slice())),
        help: None,
    };
    Some(d)
}

/// Reads mypy's text output; lines without a `line:column` position followed by a
/// severity and a message are skipped.
pub fn parse_mypy_text(root: &str, cwd: &str, raw: &str) -> (r: Vec<ExternalDiagnostic>)
    ensures
        diagnostic_views(r@) == mypy_diagnostics(root@, cwd@, spec_lines(raw@)),
{
    let root_chars = chars_of(root);
    let cwd_chars = chars_of(cwd);
    let lines = lines_of(&chars_of(raw));
    let ghost lv = views(lines@);
    let mut out: Vec<ExternalDiagnostic> = Vec::new();
    for i in 0..lines.len()
        invariant
            lv == views(lines@),
            root_chars@ == root@,
            cwd_chars@ == cwd@,
            diagnostic_views(out@) == mypy_diagnostics(root@, cwd@, lv.take(i as int)),
    {
        assert(lv.take(i + 1).drop_last() =~= lv.take(i as int));
        assert(lv.take(i + 1).last() == lines@[i as int]@);
        let ghost before = diagnostic_views(out@);
        match mypy_line(root_chars.as_slice(), cwd_chars.as_slice(), &lines[i]) {
            Some(d) => {
                out.push(d);
                assert(diagnostic_views(out@) =~= before.push(diagnostic_view(out@.last())));
            },
            None => {},
        }
    }
    assert(lv.take(lv.len() as int) =~= lv);
    out
}

/// `path` relative to `root`: the text after `root` and a separator when `path` starts
/// with them (the empty text when it is `root` itself), else `path` unchanged.
pub open spec fn spec_strip_root(root: Seq<char>, path: Seq<char>) -> Seq<char> {
    let r = crate::normalize::trim_path_tail(root);
    if root.len() == 0 {
        path
    } else if r.len() == 0 {
        strip_leading_slashes(path)
    } else if path == r {
        seq![]
    } else if path.len() > r.len() && path.take(r.len() as int) == r && path[r.len() as int] == '/' {
        strip_leading_slashes(path.skip(r.len() as int + 1))
    } else {
        path
    }
}

pub open spec fn strip_leading_slashes(s: Seq<char>) -> Seq<char>
    decreases s.len(),
{
    if s.len() > 0 && s[0] == '/' {
        strip_leading_slashes(s.drop_first())
    } else {
        s
    }
}

/// A path as shown in keys: relative to `root`, with `/` separators only.
pub open spec fn spec_normalize_path(root: Seq<char>, path: Seq<char>) -> Seq<char> {
    crate::text::spec_replace_char(spec_strip_root(root, path), '\\', '/')
}

fn strip_leading_slashes_exec(s: &[char]) -> (r: Vec<char>)
    ensures
        r@ == strip_leading_slashes(s@),
{
    let mut i: usize = 0;
    assert(s@.skip(0) =~= s@);
    while i < s.len() && s[i] == '/'
        invariant
            i <= s@.len(),
            strip_leading_slashes(s@.skip(i as int)) == strip_leading_slashes(s@),
        decreases s.len() - i,
    {
        assert(s@.skip(i as int).drop_first() =~= s@.skip(i + 1));
        i = i + 1;
    }
    let r = crate::text::slice_chars(s, i, s.len());
    assert(r@ =~= s@.skip(i as int));
    r
}

/// Writes `path` relative to `root` with forward slashes.
pub fn normalize_path(root: &[char], path: &[char]) -> (r: Vec<char>)
    ensures
        r@ == spec_normalize_path(root@, path@),
{
    let root_vec = crate::text::slice_chars(root, 0, root.len());
    assert(root_vec@ =~= root@);
    let end = crate::normalize::trim_path_tail_len(&root_vec);
    let stripped: Vec<char> = if root.len() == 0 {
        crate::text::slice_chars(path, 0, path.len())
    } else if end == 0 {
        strip_leading_slashes_exec(path)
    } else {
        let r = crate::text::slice_chars(root, 0, end);
        if crate::text::chars_eq(path, r.as_slice()) {
            Vec::new()
        } else if path.len() > end && crate::text::starts_with(path, r.as_slice()) && path[end] == '/' {
            strip_leading_slashes_exec(crate::text::slice_chars(path, end + 1, path.len()).as_slice())
        } else {
            crate::text::slice_chars(path, 0, path.len())
        }
    };
    proof {
        assert(path@.subrange(0, path@.len() as int) =~= path@);
        assert(path@.subrange(end + 1, path@.len() as int) =~= path@.skip(end + 1));
        assert(root@.subrange(0, end as int) =~= root@.take(end as int));
        if path.len() > end {
            assert(path@.subrange(0, end as int) =~= path@.take(end as int));
        }
        if stripped@ == Seq::<char>::empty() {
        }
    }
    assert(stripped@ == spec_strip_root(root@, path@));
    crate::text::replace_char(stripped.as_slice(), '\\', '/')
}

/// `n`, or 0 when absent, in decimal.
pub open spec fn opt_decimal(n: Option<usize>) -> Seq<char> {
    match n {
        Some(v) => crate::text::spec_decimal(v as nat),
        None => seq!['0'],
    }
}

/// The rule id of a tool's diagnostic: `external.<tool>.<code>`.
pub open spec fn external_rule_id(d: DiagnosticView) -> Seq<char> {
    "external."@ + d.tool.spec_id() + seq!['.'] + d.rule_code
}

/// The stable key of a tool's diagnostic: the SHA-256 hex of its rule, relative path,
/// line, column, byte offset and whitespace-collapsed message, joined by `|`.
pub open spec fn external_stable_key(root: Seq<char>, d: DiagnosticView) -> Seq<char> {
    let span_start = match d.byte_span {
        Some(sp) => Some(sp.start),
        None => None,
    };
    crate::hashing::spec_hex(
        crate::hashing::spec_sha256(
            vstd::utf8::encode_utf8(
                external_rule_id(d) + seq!['|'] + spec_normalize_path(root, d.path) + seq!['|'] + opt_decimal(d.line)
                    + seq!['|'] + opt_decimal(d.column) + seq!['|'] + opt_decimal(span_start) + seq!['|']
                    + spec_normalize(d.message),
            ),
        ),
    )
}

/// `fd` is the finding a tool's diagnostic `d` becomes.
pub open spec fn describes_diagnostic(fd: Finding, root: Seq<char>, cwd: Seq<char>, d: DiagnosticView) -> bool {
    let rule_id = external_rule_id(d);
    &&& fd.rule_id@ == rule_id
    &&& fd.baseline_key@ == external_stable_key(root, d)
    &&& fd.finding_id@ == rule_id + seq![':'] + fd.baseline_key@.take(12)
    &&& fd.kind == FindingKind::ExternalTool
    &&& fd.severity == d.severity
    &&& fd.confidence == d.confidence
    &&& fd.message@ == d.tool.spec_display_name() + seq![':', ' '] + d.message
    &&& fd.locations@.len() == 1
    &&& fd.locations@[0].path@ == d.path
    &&& fd.locations@[0].span == d.byte_span
    &&& fd.locations@[0].start == match d.line {
        Some(line) => Some(
            Location {
                line,
                column: match d.column {
                    Some(c) => c,
                    None => 1,
                },
                byte_offset: match d.byte_span {
                    Some(sp) => sp.start,
                    None => 0,
                },
            },
        ),
        None => None,
    }
    &&& opt_text(fd.locations@[0].language) == d.tool.spec_language()
    &&& opt_text(fd.language) == d.tool.spec_language()
    &&& fd.framework is None
    &&& fd.explanation@ == "This diagnostic was normalized from optional "@ + d.tool.spec_display_name()
        + " integration output."@
    &&& fd.remediation@ == match d.help {
        Some(h) => h,
        None => "Review the "@ + d.tool.spec_display_name()
            + " diagnostic and apply the tool's suggested remediation where appropriate."@,
    }
    &&& fd.detection_reason@ == d.tool.spec_display_name()
        + " emitted a parsed diagnostic during the external integration run."@
    &&& fd.autofix == AutofixSafety::SuggestionOnly
    &&& fd.autofix_explanation@ == "External tool suggestions are reported but not auto-applied by codehealth."@
    &&& fd.fixes@.len() == 0
    &&& !fd.is_suppressed
    &&& fd.suppression is None
    &&& metadata_text_entries(fd.metadata@) == external_metadata(root, cwd, d)
}

/// The text entries of a metadata list, as (key, text) pairs; other values are left out.
pub open spec fn metadata_text_entries(m: Seq<(String, MetadataValue)>) -> Seq<(Seq<char>, Seq<char>)>
    decreases m.len(),
{
    if m.len() == 0 {
        seq![]
    } else {
        let earlier = metadata_text_entries(m.drop_last());
        match m.last().1 {
            MetadataValue::Text(t) => earlier.push((m.last().0@, t@)),
            _ => earlier,
        }
    }
}

/// The metadata of a tool's finding, in key order.
pub open spec fn external_metadata(root: Seq<char>, cwd: Seq<char>, d: DiagnosticView) -> Seq<(Seq<char>, Seq<char>)> {
    let head = seq![("command_cwd"@, spec_normalize_path(root, cwd)), ("external_rule_code"@, d.rule_code)];
    let tail = seq![("external_tool"@, d.tool.spec_id()), ("source"@, "external_tool"@)];
    match d.external_severity {
        Some(sev) => head + seq![("external_severity"@, sev)] + tail,
        None => head + tail,
    }
}

fn opt_decimal_exec(n: Option<usize>) -> (r: String)
    ensures
        r@ == opt_decimal(n),
{
    match n {
        Some(v) => crate::text::decimal(v),
        None => {
            let r = crate::text::decimal(0);
            assert(crate::text::spec_decimal(0) =~= seq!['0']);
            r
        },
    }
}

fn push_text(m: &mut Vec<(String, MetadataValue)>, key: &str, value: String)
    ensures
        metadata_text_entries(final(m)@) == metadata_text_entries(old(m)@).push((key@, value@)),
        final(m)@.len() == old(m)@.len() + 1,
{
    let ghost before = m@;
    m.push((String::from_str(key), MetadataValue::Text(value)));
    assert(m@.drop_last() =~= before);
}

fn clone_opt(o: &Option<String>) -> (r: Option<String>)
    ensures
        r == *o,
{
    match o {
        Some(s) => Some(s.clone()),
        None => None,
    }
}

/// Turns a tool's diagnostic into a finding.
pub fn diagnostic_to_finding(root: &str, cwd: &str, diagnostic: &ExternalDiagnostic) -> (r: Finding)
    ensures
        describes_diagnostic(r, root@, cwd@, diagnostic_view(*diagnostic)),
{
    let ghost d = diagnostic_view(*diagnostic);
    let mut rule_id = String::from_str("external.");
    rule_id.append(diagnostic.tool.id());
    rule_id.append(".");
    rule_id.append(diagnostic.rule_code.as_str());
    proof {
        reveal_strlit(".");
        assert(rule_id@ =~= external_rule_id(d));
    }
    let root_chars = chars_of(root);
    let path_text = string_from_chars(normalize_path(root_chars.as_slice(), chars_of(diagnostic.path.as_str()).as_slice()).as_slice());
    let span_start = match diagnostic.byte_span {
        Some(sp) => Some(sp.start),
        None => None,
    };
    let mut raw = rule_id.clone();
    raw.append("|");
    raw.append(path_text.as_str());
    raw.append("|");
    raw.append(opt_decimal_exec(diagnostic.line).as_str());
    raw.append("|");
    raw.append(opt_decimal_exec(diagnostic.column).as_str());
    raw.append("|");
    raw.append(opt_decimal_exec(span_start).as_str());
    raw.append("|");
    raw.append(normalize_source(diagnostic.message.as_str()).as_str());
    proof {
        reveal_strlit("|");
        assert(raw@ =~= external_rule_id(d) + seq!['|'] + spec_normalize_path(root@, d.path) + seq!['|']
            + opt_decimal(d.line) + seq!['|'] + opt_decimal(d.column) + seq!['|'] + opt_decimal(span_start)
            + seq!['|'] + spec_normalize(d.message));
    }
    let stable = crate::hashing::sha256_hex(raw.as_str());
    let key_chars = chars_of(stable.as_str());
    let mut finding_id = rule_id.clone();
    finding_id.append(":");
    finding_id.append(string_from_chars(crate::text::slice_chars(key_chars.as_slice(), 0, 12).as_slice()).as_str());
    proof {
        reveal_strlit(":");
        assert(finding_id@ =~= rule_id@ + seq![':'] + stable@.take(12));
    }
    let mut message = String::from_str(diagnostic.tool.display_name());
    message.append(": ");
    message.append(diagnostic.message.as_str());
    proof {
        reveal_strlit(": ");
        assert(message@ =~= d.tool.spec_display_name() + seq![':', ' '] + d.message);
    }
    let language = match diagnostic.tool.language() {
        Some(l) => Some(String::from_str(l)),
        None => None,
    };
    let location_language = match diagnostic.tool.language() {
        Some(l) => Some(String::from_str(l)),
        None => None,
    };
    let start = match diagnostic.line {
        Some(line) => Some(
            Location {
                line,
                column: match diagnostic.column {
                    Some(c) => c,
                    None => 1,
                },
                byte_offset: match diagnostic.byte_span {
                    Some(sp) => sp.start,
                    None => 0,
                },
            },
        ),
        None => None,
    };
    let mut locations: Vec<FindingLocation> = Vec::new();
    locations.push(
        FindingLocation {
            path: diagnostic.path.clone(),
            span: diagnostic.byte_span,
            start,
            language: location_language,
        },
    );
    let name = diagnostic.tool.display_name();
    let mut explanation = String::from_str("This diagnostic was normalized from optional ");
    explanation.append(name);
    explanation.append(" integration output.");
    let remediation = match &diagnostic.help {
        Some(h) => h.clone(),
        None => {
            let mut text = String::from_str("Review the ");
            text.append(name);
            text.append(" diagnostic and apply the tool's suggested remediation where appropriate.");
            text
        },
    };
    let mut detection_reason = String::from_str(name);
    detection_reason.append(" emitted a parsed diagnostic during the external integration run.");
    let mut metadata: Vec<(String, MetadataValue)> = Vec::new();
    let cwd_text = string_from_chars(normalize_path(root_chars.as_slice(), chars_of(cwd).as_slice()).as_slice());
    push_text(&mut metadata, "command_cwd", cwd_text);
    push_text(&mut metadata, "external_rule_code", diagnostic.rule_code.clone());
    match &diagnostic.external_severity {
        Some(sev) => push_text(&mut metadata, "external_severity", sev.clone()),
        None => {},
    }
    push_text(&mut metadata, "external_tool", String::from_str(diagnostic.tool.id()));
    push_text(&mut metadata, "source", String::from_str("external_tool"));
    proof {
        assert(metadata_text_entries(metadata@) =~= external_metadata(root@, cwd@, d));
    }
    Finding {
        finding_id,
        baseline_key: stable,
        rule_id,
        kind: FindingKind::ExternalTool,
        severity: diagnostic.severity,
        confidence: diagnostic.confidence,
        message,
        locations,
        language,
        framework: None,
        explanation,
        remediation,
        detection_reason,
        autofix: AutofixSafety::SuggestionOnly,
        autofix_explanation: String::from_str("External tool suggestions are reported but not auto-applied by codehealth."),
        fixes: Vec::new(),
        metadata,
        is_suppressed: false,
        suppression: None,
    }
}

/// The identity of a tool finding for de-duplication: rule, first location's path
/// (with `/` separators), byte offset and line:column, and the whitespace-collapsed
/// message, joined by `|`.
pub open spec fn spec_external_key(f: Finding) -> Seq<char> {
    let has = f.locations@.len() > 0;
    let l = f.locations@[0];
    let path = if has {
        crate::text::spec_replace_char(l.path@, '\\', '/')
    } else {
        seq![]
    };
    let span = if has {
        match l.span {
            Some(sp) => crate::text::spec_decimal(sp.start as nat),
            None => seq![],
        }
    } else {
        seq![]
    };
    let start = if has {
        match l.start {
            Some(loc) => crate::text::spec_decimal(loc.line as nat) + seq![':'] + crate::text::spec_decimal(
                loc.column as nat,
            ),
            None => seq![],
        }
    } else {
        seq![]
    };
    f.rule_id@ + seq!['|'] + path + seq!['|'] + span + seq!['|'] + start + seq!['|'] + spec_normalize(f.message@)
}

fn external_finding_key(f: &Finding) -> (r: Vec<char>)
    ensures
        r@ == spec_external_key(*f),
{
    let mut out = chars_of(f.rule_id.as_str());
    out.push('|');
    if f.locations.len() > 0 {
        let l = &f.locations[0];
        crate::text::extend_chars(&mut out, crate::text::replace_char(chars_of(l.path.as_str()).as_slice(), '\\', '/').as_slice());
        out.push('|');
        match l.span {
            Some(sp) => crate::text::extend_chars(&mut out, chars_of(crate::text::decimal(sp.start).as_str()).as_slice()),
            None => {},
        }
        out.push('|');
        match l.start {
            Some(loc) => {
                crate::text::extend_chars(&mut out, chars_of(crate::text::decimal(loc.line).as_str()).as_slice());
                out.push(':');
                crate::text::extend_chars(&mut out, chars_of(crate::text::decimal(loc.column).as_str()).as_slice());
            },
            None => {},
        }
    } else {
        out.push('|');
        out.push('|');
    }
    out.push('|');
    crate::text::extend_chars(&mut out, chars_of(normalize_source(f.message.as_str()).as_str()).as_slice());
    proof {
        if f.locations@.len() > 0 {
            assert(out@ =~= spec_external_key(*f));
        } else {
            assert(out@ =~= spec_external_key(*f));
        }
    }
    out
}

/// The findings with every finding whose key an earlier one already has removed.
pub open spec fn dedupe_spec(fs: Seq<Finding>) -> Seq<Finding>
    decreases fs.len(),
{
    if fs.len() == 0 {
        seq![]
    } else {
        let earlier = dedupe_spec(fs.drop_last());
        if exists|j: int| 0 <= j < fs.len() - 1 && spec_external_key(#[trigger] fs[j]) == spec_external_key(fs.last()) {
            earlier
        } else {
            earlier.push(fs.last())
        }
    }
}

/// Keeps the first of every group of tool findings that share a key.
pub fn dedupe_external_findings(findings: Vec<Finding>) -> (r: Vec<Finding>)
    ensures
        r@ == dedupe_spec(findings@),
{
    let ghost all = findings@;
    let mut rest = findings;
    let n = rest.len();
    let mut out: Vec<Finding> = Vec::new();
    let mut seen: Vec<Vec<char>> = Vec::new();
    let mut i: usize = 0;
    while rest.len() > 0
        invariant
            all.len() == n,
            i + rest@.len() == all.len(),
            forall|j: int| 0 <= j < rest@.len() ==> rest@[j] == all[i + j],
            seen@.len() == i,
            forall|j: int| 0 <= j < i ==> (#[trigger] seen@[j])@ == spec_external_key(all[j]),
            out@ == dedupe_spec(all.take(i as int)),
        decreases rest.len(),
    {
        let ghost old_rest = rest@;
        let f = rest.remove(0);
        assert(f == all[i as int]);
        let key = external_finding_key(&f);
        let mut found = false;
        let mut j: usize = 0;
        while j < seen.len()
            invariant
                j <= seen@.len(),
                found == exists|k: int| 0 <= k < j && (#[trigger] seen@[k])@ == key@,
            decreases seen.len() - j,
        {
            if crate::text::chars_eq(seen[j].as_slice(), key.as_slice()) {
                found = true;
            }
            j = j + 1;
        }
        let ghost prefix = all.take(i + 1);
        assert(prefix.drop_last() =~= all.take(i as int));
        assert(prefix.last() == f);
        proof {
            if found {
                let k = choose|k: int| 0 <= k < i && (#[trigger] seen@[k])@ == key@;
                assert(prefix[k] == all[k]);
                assert(spec_external_key(prefix[k]) == spec_external_key(prefix.last()));
            } else {
                assert forall|k: int| 0 <= k < prefix.len() - 1 implies spec_external_key(#[trigger] prefix[k])
                    != spec_external_key(prefix.last()) by {
                    assert(prefix[k] == all[k]);
                    assert(seen@[k]@ == spec_external_key(all[k]));
                }
            }
        }
        if !found {
            out.push(f);
        }
        seen.push(key);
        i = i + 1;
        proof {
            assert forall|j: int| 0 <= j < rest@.len() implies rest@[j] == all[i + j] by {
                assert(rest@[j] == old_rest[j + 1]);
            }
        }
    }
    assert(all.take(i as int) =~= all);
    out
}

/// Whether two locations are in the same file and their byte spans overlap.
pub open spec fn spec_locations_overlap(left: FindingLocation, right: FindingLocation) -> bool {
    &&& path_components(left.path@) == path_components(right.path@)
    &&& left.span matches Some(a)
    &&& right.span matches Some(b)
    &&& a.start < b.end
    &&& b.start < a.end
}

/// Whether two locations overlap.
pub fn locations_overlap(left: &FindingLocation, right: &FindingLocation) -> (r: bool)
    ensures
        r == spec_locations_overlap(*left, *right),
{
    if !path_eq_exec(left.path.as_str(), right.path.as_str()) {
        return false;
    }
    match (left.span, right.span) {
        (Some(a), Some(b)) => a.start < b.end && b.start < a.end,
        _ => false,
    }
}

/// Whether a tool finding's overlap is noted on `f`: `f` is not itself a tool finding
/// and its first location overlaps `primary`.
pub open spec fn overlap_target(f: Finding, primary: FindingLocation) -> bool {
    f.kind != FindingKind::ExternalTool && f.locations@.len() > 0 && spec_locations_overlap(f.locations@[0], primary)
}

/// The first finding from position `i` on that a tool finding at `primary` overlaps.
pub open spec fn first_target(fs: Seq<Finding>, primary: FindingLocation, i: int) -> Option<int>
    decreases fs.len() - i,
{
    if i < 0 || i >= fs.len() {
        None
    } else if overlap_target(fs[i], primary) {
        Some(i)
    } else {
        first_target(fs, primary, i + 1)
    }
}

/// The tool that reported a tool finding, `unknown` when its metadata does not say.
pub open spec fn tool_name(ext: Finding) -> Seq<char> {
    match metadata_text(ext.metadata@, "external_tool"@) {
        Some(t) => t,
        None => "unknown"@,
    }
}

/// Whether a record notes a tool finding: its message, rule id and tool, in that
/// (key) order.
pub open spec fn is_overlap_record(rec: Seq<(String, String)>, ext: Finding) -> bool {
    &&& rec.len() == 3
    &&& rec[0].0@ == "message"@ && rec[0].1@ == ext.message@
    &&& rec[1].0@ == "rule_id"@ && rec[1].1@ == ext.rule_id@
    &&& rec[2].0@ == "tool"@ && rec[2].1@ == tool_name(ext)
}

/// Whether `g` is `f` with the overlap of a tool finding noted under
/// `external_overlaps`: a first record when there is no such entry, one more record
/// when the entry holds records, and no change when it holds anything else.
pub open spec fn overlap_noted(g: Finding, f: Finding, ext: Finding) -> bool {
    &&& g == (Finding { metadata: g.metadata, ..f })
    &&& forall|k: Seq<char>| k != "external_overlaps"@ ==> #[trigger] metadata_get(g.metadata@, k) == metadata_get(f.metadata@, k)
    &&& match metadata_get(f.metadata@, "external_overlaps"@) {
        None => metadata_get(g.metadata@, "external_overlaps"@) matches Some(MetadataValue::Records(rs)) && rs@.len() == 1
            && is_overlap_record(rs@[0]@, ext),
        Some(MetadataValue::Records(rs0)) => metadata_get(g.metadata@, "external_overlaps"@) matches Some(
            MetadataValue::Records(rs),
        ) && rs@.len() == rs0@.len() + 1 && rs@.take(rs0@.len() as int) == rs0@ && is_overlap_record(rs@.last()@, ext),
        Some(_) => g.metadata@ == f.metadata@,
    }
}

/// The findings after one tool finding is merged: appended when it has no location
/// or overlaps no finding, else noted on the first finding it overlaps.
pub open spec fn merge_step(fs: Seq<Finding>, ext: Finding, g: Seq<Finding>) -> bool {
    if ext.locations@.len() == 0 {
        g == fs.push(ext)
    } else {
        match first_target(fs, ext.locations@[0], 0) {
            None => g == fs.push(ext),
            Some(i) => g.len() == fs.len() && overlap_noted(g[i], fs[i], ext) && forall|j: int|
                0 <= j < fs.len() && j != i ==> g[j] == fs[j],
        }
    }
}

/// The findings after the tool findings `exts` are merged in order.
pub open spec fn merged(fs: Seq<Finding>, exts: Seq<Finding>, g: Seq<Finding>) -> bool
    decreases exts.len(),
{
    if exts.len() == 0 {
        g == fs
    } else {
        exists|mid: Seq<Finding>| merged(fs, exts.drop_last(), mid) && merge_step(mid, exts.last(), g)
    }
}

proof fn lemma_get_last_index(m: Seq<(String, MetadataValue)>, key: Seq<char>, p: int)
    requires
        0 <= p < m.len(),
        m[p].0@ == key,
        forall|j: int| p < j < m.len() ==> m[j].0@ != key,
    ensures
        metadata_get(m, key) == Some(m[p].1),
    decreases m.len(),
{
    if p < m.len() - 1 {
        lemma_get_last_index(m.drop_last(), key, p);
    }
}

proof fn lemma_get_absent(m: Seq<(String, MetadataValue)>, key: Seq<char>)
    requires
        forall|j: int| 0 <= j < m.len() ==> m[j].0@ != key,
    ensures
        metadata_get(m, key) is None,
    decreases m.len(),
{
    if m.len() > 0 {
        lemma_get_absent(m.drop_last(), key);
    }
}

proof fn lemma_get_update(m: Seq<(String, MetadataValue)>, p: int, e: (String, MetadataValue), k: Seq<char>)
    requires
        0 <= p < m.len(),
        m[p].0@ == e.0@,
        forall|j: int| p < j < m.len() ==> m[j].0@ != e.0@,
    ensures
        metadata_get(m.update(p, e), k) == if k == e.0@ {
            Some(e.1)
        } else {
            metadata_get(m, k)
        },
    decreases m.len(),
{
    let u = m.update(p, e);
    if p == m.len() - 1 {
        assert(u.drop_last() =~= m.drop_last());
    } else {
        assert(u.drop_last() =~= m.drop_last().update(p, e));
        lemma_get_update(m.drop_last(), p, e, k);
    }
}

/// The position of the last metadata entry under `key`.
fn last_key_index(m: &Vec<(String, MetadataValue)>, key: &str) -> (r: Option<usize>)
    ensures
        match r {
            Some(p) => p < m@.len() && m@[p as int].0@ == key@ && forall|j: int| p < j < m@.len() ==> m@[j].0@ != key@,
            None => forall|j: int| 0 <= j < m@.len() ==> m@[j].0@ != key@,
        },
{
    let k = chars_of(key);
    let mut i = m.len();
    while i > 0
        invariant
            i <= m@.len(),
            k@ == key@,
            forall|j: int| i <= j < m@.len() ==> m@[j].0@ != key@,
        decreases i,
    {
        if crate::text::chars_eq(chars_of(m[i - 1].0.as_str()).as_slice(), k.as_slice()) {
            return Some(i - 1);
        }
        i = i - 1;
    }
    None
}

/// Notes the overlap of a tool finding on a finding.
fn note_overlap(f: &mut Finding, ext: &Finding)
    ensures
        overlap_noted(*final(f), *old(f), *ext),
{
    let tool: String = match crate::baseline_keys::metadata_text_exec(&ext.metadata, "external_tool") {
        Some(t) => t,
        None => String::from_str("unknown"),
    };
    let message = ext.message.clone();
    let rule_id = ext.rule_id.clone();
    let record: Vec<(String, String)> = vec![
        (String::from_str("message"), message),
        (String::from_str("rule_id"), rule_id),
        (String::from_str("tool"), tool),
    ];
    proof {
        reveal_strlit("unknown");
        reveal_strlit("message");
        reveal_strlit("rule_id");
        reveal_strlit("tool");
    }
    assert(is_overlap_record(record@, *ext));
    let ghost before = f.metadata@;
    let key = String::from_str("external_overlaps");
    match last_key_index(&f.metadata, "external_overlaps") {
        None => {
            proof {
                lemma_get_absent(before, "external_overlaps"@);
            }
            let records = vec![record];
            f.metadata.push((key, MetadataValue::Records(records)));
            assert(f.metadata@.drop_last() =~= before);
        },
        Some(p) => {
            proof {
                lemma_get_last_index(before, "external_overlaps"@, p as int);
            }
            let entry = f.metadata.remove(p);
            match entry.1 {
                MetadataValue::Records(mut rs) => {
                    let ghost rs0 = rs@;
                    rs.push(record);
                    let e = (entry.0, MetadataValue::Records(rs));
                    f.metadata.insert(p, e);
                    assert(f.metadata@ =~= before.update(p as int, e));
                    proof {
                        assert forall|k: Seq<char>| k != "external_overlaps"@ implies #[trigger] metadata_get(f.metadata@, k)
                            == metadata_get(before, k) by {
                            lemma_get_update(before, p as int, e, k);
                        }
                        lemma_get_update(before, p as int, e, "external_overlaps"@);
                        assert(rs@.take(rs0.len() as int) =~= rs0);
                    }
                },
                other => {
                    let e = (entry.0, other);
                    f.metadata.insert(p, e);
                    assert(f.metadata@ =~= before);
                },
            }
        },
    }
}

/// Merges the findings of external tools, each duplicate dropped first: a tool
/// finding that overlaps a finding of codehealth is noted on the first such finding
/// under `external_overlaps`; the others are added.
pub fn merge_external_findings(findings: &mut Vec<Finding>, external_findings: Vec<Finding>)
    ensures
        merged(old(findings)@, dedupe_spec(external_findings@), final(findings)@),
{
    let deduped = dedupe_external_findings(external_findings);
    let ghost start = findings@;
    let ghost exts = deduped@;
    let mut rest = deduped;
    let total = rest.len();
    let mut k: usize = 0;
    assert(exts.take(0) =~= Seq::<Finding>::empty());
    while rest.len() > 0
        invariant
            total == exts.len(),
            k + rest@.len() == exts.len(),
            forall|j: int| 0 <= j < rest@.len() ==> rest@[j] == exts[k + j],
            merged(start, exts.take(k as int), findings@),
        decreases rest.len(),
    {
        let ghost old_rest = rest@;
        let ghost mid = findings@;
        let ext = rest.remove(0);
        assert(ext == exts[k as int]);
        if ext.locations.len() == 0 {
            findings.push(ext);
        } else {
            let primary = &ext.locations[0];
            let mut target: Option<usize> = None;
            let mut i: usize = 0;
            while i < findings.len()
                invariant
                    findings@ == mid,
                    i <= mid.len(),
                    ext.locations@.len() > 0,
                    *primary == ext.locations@[0],
                    target is None ==> first_target(mid, *primary, 0) == first_target(mid, *primary, i as int),
                    target matches Some(t) ==> first_target(mid, *primary, 0) == Some(t as int) && t < mid.len(),
                decreases mid.len() - i,
            {
                if target.is_none() {
                    let f = &findings[i];
                    let hit = match f.kind {
                        FindingKind::ExternalTool => false,
                        _ => f.locations.len() > 0 && locations_overlap(&f.locations[0], primary),
                    };
                    if hit {
                        target = Some(i);
                    }
                }
                i = i + 1;
            }
            match target {
                None => {
                    assert(first_target(mid, *primary, mid.len() as int) is None);
                    findings.push(ext);
                },
                Some(t) => {
                    let mut chosen = findings.remove(t);
                    note_overlap(&mut chosen, &ext);
                    findings.insert(t, chosen);
                    assert forall|j: int| 0 <= j < mid.len() && j != t implies findings@[j] == mid[j] by {}
                },
            }
        }
        proof {
            assert(exts.take(k + 1).drop_last() =~= exts.take(k as int));
            assert(exts.take(k + 1).last() == ext);
            assert(merge_step(mid, ext, findings@));
            assert(merged(start, exts.take(k + 1), findings@));
        }
        k = k + 1;
        proof {
            assert forall|j: int| 0 <= j < rest@.len() implies rest@[j] == exts[k + j] by {
                assert(rest@[j] == old_rest[j + 1]);
            }
        }
    }
    assert(exts.take(k as int) =~= exts);
}

/// Merging tool findings never drops a finding: the merged list keeps at least as many
/// findings as before and gains at most one per tool finding.
pub proof fn lemma_merge_length(fs: Seq<Finding>, exts: Seq<Finding>, g: Seq<Finding>)
    requires
        merged(fs, exts, g),
    ensures
        fs.len() <= g.len() <= fs.len() + exts.len(),
    decreases exts.len(),
{
    if exts.len() > 0 {
        let mid = choose|mid: Seq<Finding>| merged(fs, exts.drop_last(), mid) && merge_step(mid, exts.last(), g);
        lemma_merge_length(fs, exts.drop_last(), mid);
    }
}

/// Merging tool findings leaves the findings of codehealth where they were: each
/// finding keeps its position, and differs at most in its metadata.
pub proof fn lemma_merge_keeps_findings(fs: Seq<Finding>, exts: Seq<Finding>, g: Seq<Finding>)
    requires
        merged(fs, exts, g),
    ensures
        forall|i: int| 0 <= i < fs.len() ==> (#[trigger] g[i]) == (Finding { metadata: g[i].metadata, ..fs[i] }),
    decreases exts.len(),
{
    if exts.len() > 0 {
        let mid = choose|mid: Seq<Finding>| merged(fs, exts.drop_last(), mid) && merge_step(mid, exts.last(), g);
        lemma_merge_keeps_findings(fs, exts.drop_last(), mid);
        lemma_merge_length(fs, exts.drop_last(), mid);
        assert forall|i: int| 0 <= i < fs.len() implies (#[trigger] g[i]) == (Finding { metadata: g[i].metadata, ..fs[i] }) by {
            assert(mid[i] == (Finding { metadata: mid[i].metadata, ..fs[i] }));
        }
    }
}

} // verus!
