//! The human-readable report layouts: plain text (optionally coloured), Markdown and
//! HTML, each a function of the scan result and the report context.
use vstd::prelude::*;

use crate::baseline::{FindingBaselineStatus, FixedBaselineEntry};
use crate::findings::{
    BaselineStatus, ComplexityMetric, DefinitionMetric, Finding, FindingLocation, Fix,
    ModuleDuplicateMetric, ScanResult, ScoreContributor, Severity, SuppressedRuleMetric,
};
use crate::integrations::spec_normalize_path;
use crate::metadata_lines::{metadata_lines, spec_metadata_lines};
use crate::baseline_keys::{metadata_text, metadata_text_exec};
use crate::config::{join_strings, text_views};
use crate::reporting::{
    JSON_SCHEMA_VERSION,
    autofix_text, autofix_value, baseline_text, category_score_text, color_severity, escape_html, format_location,
    html_text, markdown_escape, markdown_text, report_path, score_text, score_text_of, severity_color,
    spec_autofix_text, spec_baseline_text, spec_format_location, spec_suppression_hint, suppression_hint,
};
use crate::text::{chars_of, decimal, push_char, spec_decimal, spec_join};

verus! {

/// The baseline status recorded for a baseline key: that of the first entry with the
/// key, or `not_checked` when there is none.
pub open spec fn status_text(statuses: Seq<(String, FindingBaselineStatus)>, key: Seq<char>) -> Seq<char>
    decreases statuses.len(),
{
    if statuses.len() == 0 {
        "not_checked"@
    } else if statuses[0].0@ == key {
        statuses[0].1.spec_str()
    } else {
        status_text(statuses.drop_first(), key)
    }
}

/// Looks up the baseline status of a finding.
pub fn status_of(statuses: &Vec<(String, FindingBaselineStatus)>, finding: &Finding) -> (r: &'static str)
    ensures
        r@ == status_text(statuses@, finding.baseline_key@),
{
    let mut i: usize = 0;
    assert(statuses@.skip(0) =~= statuses@);
    while i < statuses.len()
        invariant
            i <= statuses@.len(),
            status_text(statuses@.skip(i as int), finding.baseline_key@) == status_text(statuses@, finding.baseline_key@),
        decreases statuses@.len() - i,
    {
        assert(statuses@.skip(i as int).drop_first() =~= statuses@.skip(i + 1));
        if crate::text::chars_eq(crate::text::chars_of(statuses[i].0.as_str()).as_slice(), crate::text::chars_of(finding.baseline_key.as_str()).as_slice()) {
            return statuses[i].1.as_str();
        }
        i = i + 1;
    }
    "not_checked"
}

/// What a report needs besides the scan result: the tool and configuration it was
/// made with, the time it took, the new findings' keys, each finding's baseline
/// status, and the baseline entries that no finding matched any more.
#[derive(Debug, Clone)]
pub struct ReportContext {
    pub tool_version: String,
    pub config_hash: String,
    pub timing: ReportTiming,
    /// The baseline keys of new findings.
    pub new_finding_keys: Vec<String>,
    /// The baseline status of each baseline key.
    pub statuses: Vec<(String, FindingBaselineStatus)>,
    pub fixed_findings: Vec<FixedBaselineEntry>,
}

/// How long a scan and its report took, in milliseconds.
#[derive(Debug, Clone, Copy)]
pub struct ReportTiming {
    pub scan_ms: u64,
    pub report_ms: u64,
    pub total_ms: u64,
}

/// A path as a report prints it: relative to the root when it lies under it.
pub open spec fn report_path_text(root: Seq<char>, path: Seq<char>) -> Seq<char> {
    spec_normalize_path(root, path)
}

/// `label N` followed by a line break.
pub open spec fn count_line(label: Seq<char>, n: usize) -> Seq<char> {
    label + spec_decimal(n as nat) + "\n"@
}

/// A count line printed only when `c` holds.
pub open spec fn count_line_if(c: bool, label: Seq<char>, n: usize) -> Seq<char> {
    if c {
        count_line(label, n)
    } else {
        seq![]
    }
}

/// A count line printed only when the count is known.
pub open spec fn opt_count_line(label: Seq<char>, n: Option<usize>) -> Seq<char> {
    match n {
        Some(v) => count_line(label, v),
        None => seq![],
    }
}

/// The coloured or plain label of a severity.
pub open spec fn severity_label(s: Severity, use_color: bool) -> Seq<char> {
    if use_color {
        severity_color(s) + s.label_spec() + "\x1b[0m"@
    } else {
        s.label_spec()
    }
}

/// The first half of the category line.
pub open spec fn category_line_start(c: crate::findings::ScoreCategories) -> Seq<char> {
    "Category scores: duplication "@ + score_text_of(c.duplication.score) + ", complexity "@ + score_text_of(
        c.complexity.score,
    ) + ", style "@ + score_text_of(c.style.score) + ", react "@ + score_text_of(c.react.score)
}

/// The second half of the category line.
pub open spec fn category_line_end(c: crate::findings::ScoreCategories) -> Seq<char> {
    ", fastapi "@ + score_text_of(c.fastapi.score) + ", rust "@ + score_text_of(c.rust_idiom.score)
        + ", maintainability "@ + score_text_of(c.maintainability.score) + ", ci "@ + score_text_of(c.ci_risk.score)
        + "\n"@
}

/// The line of the text report with the score of each category.
#[verifier::opaque]
pub open spec fn category_line(c: crate::findings::ScoreCategories) -> Seq<char> {
    category_line_start(c) + category_line_end(c)
}

/// The file counts of the text report: files and lines scanned, then the counts of
/// discovered, skipped, configuration and parsed files and of parse errors when they
/// apply.
pub open spec fn file_count_lines(result: ScanResult) -> Seq<char> {
    let s = result.stats;
    count_line("Files scanned: "@, s.files_scanned) + count_line("Lines scanned: "@, result.summary.lines_scanned)
        + count_line_if(s.files_discovered > s.files_scanned, "Files discovered: "@, s.files_discovered)
        + count_line_if(s.files_skipped > 0, "Files skipped: "@, s.files_skipped) + count_line_if(
        s.config_files > 0,
        "Config files: "@,
        s.config_files,
    ) + count_line_if(s.files_parsed > 0, "Files parsed: "@, s.files_parsed) + count_line_if(
        s.parse_errors > 0,
        "Parse errors: "@,
        s.parse_errors,
    )
}

/// The index and finding counts of the text report.
pub open spec fn index_count_lines(result: ScanResult) -> Seq<char> {
    let s = result.stats;
    count_line("Definitions indexed: "@, s.definitions_indexed) + count_line("Imports indexed: "@, s.imports_indexed)
        + count_line("Findings: "@, result.findings@.len() as usize) + count_line(
        "Suppressed findings: "@,
        s.suppressed_findings,
    ) + count_line("Duplicate groups: "@, result.summary.duplicate_groups) + count_line(
        "Duplicate lines: "@,
        result.summary.duplicate_lines,
    )
}

/// The count lines of the text report.
#[verifier::opaque]
pub open spec fn count_lines(result: ScanResult) -> Seq<char> {
    file_count_lines(result) + index_count_lines(result)
}

/// The baseline lines of the text report: the baseline, then each known count.
#[verifier::opaque]
pub open spec fn baseline_lines(result: ScanResult) -> Seq<char> {
    let b = result.summary.baseline;
    "Baseline: "@ + spec_baseline_text(result) + "\n"@ + opt_count_line("New findings: "@, b.new_findings)
        + opt_count_line("Existing findings: "@, b.existing_findings) + opt_count_line(
        "Changed findings: "@,
        b.changed_findings,
    ) + opt_count_line("Fixed findings: "@, b.fixed_findings)
}

/// One score contributor: penalty, rule, message, occurrences (when more than one)
/// and its paths (when it has any).
pub open spec fn contributor_line(root: Seq<char>, c: ScoreContributor) -> Seq<char> {
    let paths = text_views(c.locations@).map_values(|p: Seq<char>| report_path_text(root, p));
    "  -"@ + spec_decimal(c.penalty as nat) + "  "@ + c.rule_id@ + "  "@ + c.message@ + (if c.occurrences > 1 {
        " ("@ + spec_decimal(c.occurrences as nat) + ")"@
    } else {
        seq![]
    }) + (if paths.len() > 0 {
        "  ["@ + spec_join(paths, ", "@) + "]"@
    } else {
        seq![]
    }) + "\n"@
}

pub open spec fn contributor_lines(root: Seq<char>, cs: Seq<ScoreContributor>) -> Seq<char>
    decreases cs.len(),
{
    if cs.len() == 0 {
        seq![]
    } else {
        contributor_lines(root, cs.drop_last()) + contributor_line(root, cs.last())
    }
}

/// The top score contributors, when there are any.
#[verifier::opaque]
pub open spec fn contributors_text(result: ScanResult) -> Seq<char> {
    if result.score.top_contributors@.len() == 0 {
        seq![]
    } else {
        "Top score contributors:\n"@ + contributor_lines(result.root@, result.score.top_contributors@)
    }
}

/// A definition metric: name, place and size.
pub open spec fn definition_metric_line(root: Seq<char>, m: DefinitionMetric) -> Seq<char> {
    "  "@ + m.name@ + "  "@ + report_path_text(root, m.path@) + ":"@ + spec_decimal(m.line as nat) + "  "@
        + spec_decimal(m.lines as nat) + " lines\n"@
}

pub open spec fn definition_metric_lines(root: Seq<char>, ms: Seq<DefinitionMetric>) -> Seq<char>
    decreases ms.len(),
{
    if ms.len() == 0 {
        seq![]
    } else {
        definition_metric_lines(root, ms.drop_last()) + definition_metric_line(root, ms.last())
    }
}

pub open spec fn module_metric_line(root: Seq<char>, m: ModuleDuplicateMetric) -> Seq<char> {
    "  "@ + report_path_text(root, m.path@) + "  "@ + spec_decimal(m.duplicate_findings as nat) + " findings, "@
        + spec_decimal(m.duplicate_lines as nat) + " lines\n"@
}

pub open spec fn module_metric_lines(root: Seq<char>, ms: Seq<ModuleDuplicateMetric>) -> Seq<char>
    decreases ms.len(),
{
    if ms.len() == 0 {
        seq![]
    } else {
        module_metric_lines(root, ms.drop_last()) + module_metric_line(root, ms.last())
    }
}

pub open spec fn complexity_metric_line(root: Seq<char>, m: ComplexityMetric) -> Seq<char> {
    "  "@ + m.name@ + "  "@ + report_path_text(root, m.path@) + ":"@ + spec_decimal(m.line as nat) + "  complexity "@
        + spec_decimal(m.score as nat) + ", "@ + spec_decimal(m.lines as nat) + " lines\n"@
}

pub open spec fn complexity_metric_lines(root: Seq<char>, ms: Seq<ComplexityMetric>) -> Seq<char>
    decreases ms.len(),
{
    if ms.len() == 0 {
        seq![]
    } else {
        complexity_metric_lines(root, ms.drop_last()) + complexity_metric_line(root, ms.last())
    }
}

pub open spec fn suppressed_metric_lines(ms: Seq<SuppressedRuleMetric>) -> Seq<char>
    decreases ms.len(),
{
    if ms.len() == 0 {
        seq![]
    } else {
        suppressed_metric_lines(ms.drop_last()) + "  "@ + ms.last().rule_id@ + "  "@ + spec_decimal(
            ms.last().count as nat,
        ) + "\n"@
    }
}

/// A titled section of lines, printed only when it has lines.
pub open spec fn section(title: Seq<char>, n: nat, lines: Seq<char>) -> Seq<char> {
    if n == 0 {
        seq![]
    } else {
        title + lines
    }
}

/// The summary metrics of the text report, each list under its title when not empty.
#[verifier::opaque]
pub open spec fn metrics_text(result: ScanResult) -> Seq<char> {
    let m = result.summary;
    let root = result.root@;
    section("Largest functions:\n"@, m.largest_functions@.len(), definition_metric_lines(root, m.largest_functions@))
        + section(
        "Largest React components:\n"@,
        m.largest_react_components@.len(),
        definition_metric_lines(root, m.largest_react_components@),
    ) + section(
        "Most duplicated modules:\n"@,
        m.most_duplicated_modules@.len(),
        module_metric_lines(root, m.most_duplicated_modules@),
    ) + section(
        "Most complex functions:\n"@,
        m.most_complex_functions@.len(),
        complexity_metric_lines(root, m.most_complex_functions@),
    ) + section(
        "Most suppressed rules:\n"@,
        m.most_suppressed_rules@.len(),
        suppressed_metric_lines(m.most_suppressed_rules@),
    )
}

/// The header of the text report, everything before the findings.
pub open spec fn text_header(result: ScanResult) -> Seq<char> {
    "Code Health Report\n\n"@ + "Score: "@ + score_text_of(result.score.overall) + "\n"@ + category_line(
        result.score.categories,
    ) + count_lines(result) + baseline_lines(result) + contributors_text(result) + metrics_text(result)
}

/// The machine-readable autofix value.
pub open spec fn autofix_value_text(safety: crate::findings::AutofixSafety) -> Seq<char> {
    match safety {
        crate::findings::AutofixSafety::Unavailable => "unavailable"@,
        crate::findings::AutofixSafety::SuggestionOnly => "suggestion_only"@,
        crate::findings::AutofixSafety::Safe => "safe"@,
    }
}

pub open spec fn fix_lines(fixes: Seq<Fix>) -> Seq<char>
    decreases fixes.len(),
{
    if fixes.len() == 0 {
        seq![]
    } else {
        let f = fixes.last();
        fix_lines(fixes.drop_last()) + "    Fix: "@ + f.title@ + " ("@ + spec_decimal(f.edits@.len()) + " edits, "@
            + autofix_value_text(f.safety) + ")\n"@
    }
}

pub open spec fn prefixed_lines(prefix: Seq<char>, lines: Seq<Seq<char>>) -> Seq<char>
    decreases lines.len(),
{
    if lines.len() == 0 {
        seq![]
    } else {
        prefixed_lines(prefix, lines.drop_last()) + prefix + lines.last() + "\n"@
    }
}

/// The suppression lines of a finding: where it was suppressed (with the reason) and
/// the suppression's warnings, or the comment that would suppress it.
pub open spec fn suppression_lines(root: Seq<char>, f: Finding) -> Seq<char> {
    match f.suppression {
        Some(s) => "    Suppressed by: "@ + report_path_text(root, s.path@) + ":"@ + spec_decimal(s.line as nat) + " ("@
            + (match s.reason {
            Some(r) => r@,
            None => "missing reason"@,
        }) + ")\n"@ + prefixed_lines("    Suppression warning: "@, text_views(s.warnings@)),
        None => "    Suppress: "@ + spec_suppression_hint(f) + "\n"@,
    }
}

/// The location lines of a finding.
pub open spec fn text_location_lines(root: Seq<char>, ls: Seq<FindingLocation>) -> Seq<char>
    decreases ls.len(),
{
    if ls.len() == 0 {
        seq![]
    } else {
        text_location_lines(root, ls.drop_last()) + "    "@ + spec_format_location(root, ls.last()) + "\n"@
    }
}

/// The first lines of a finding's block: severity and rule, confidence, baseline
/// status and message.
pub open spec fn finding_intro(f: Finding, use_color: bool, statuses: Seq<(String, FindingBaselineStatus)>) -> Seq<char> {
    "  "@ + severity_label(f.severity, use_color) + "  "@ + f.rule_id@ + (if f.is_suppressed {
        "  (suppressed)"@
    } else {
        seq![]
    }) + "\n"@ + "    Confidence: "@ + f.confidence.label_spec() + "\n"@ + "    Baseline status: "@ + status_text(
        statuses,
        f.baseline_key@,
    ) + "\n"@ + "    Message: "@ + f.message@ + "\n"@
}

/// The first lines of a finding's block, with its locations.
pub open spec fn finding_head(root: Seq<char>, f: Finding, use_color: bool, statuses: Seq<(String, FindingBaselineStatus)>) -> Seq<char> {
    finding_intro(f, use_color, statuses) + text_location_lines(root, f.locations@)
}

/// The last lines of a finding's block: explanation, remediation, detection reason,
/// autofix, fixes and suppression.
pub open spec fn finding_tail(root: Seq<char>, f: Finding) -> Seq<char> {
    "    Explanation: "@ + f.explanation@ + "\n"@ + "    Remediation: "@ + f.remediation@ + "\n"@ + "    Why detected: "@
        + f.detection_reason@ + "\n"@ + "    Autofix: "@ + spec_autofix_text(f.autofix, f.autofix_explanation@) + "\n"@
        + fix_lines(f.fixes@) + suppression_lines(root, f)
}

/// The block of the text report that describes one finding.
#[verifier::opaque]
pub open spec fn finding_text(root: Seq<char>, f: Finding, use_color: bool, statuses: Seq<(String, FindingBaselineStatus)>) -> Seq<char> {
    finding_head(root, f, use_color, statuses) + prefixed_lines("    "@, spec_metadata_lines(f)) + finding_tail(root, f)
}

pub open spec fn finding_texts(root: Seq<char>, fs: Seq<Finding>, use_color: bool, statuses: Seq<(String, FindingBaselineStatus)>) -> Seq<char>
    decreases fs.len(),
{
    if fs.len() == 0 {
        seq![]
    } else {
        finding_texts(root, fs.drop_last(), use_color, statuses) + finding_text(root, fs.last(), use_color, statuses)
    }
}

/// The hash a duplicate group is known by: the first of the metadata texts that is
/// present, else the baseline key.
pub open spec fn group_hash(f: Finding) -> Seq<char> {
    let m = f.metadata@;
    if metadata_text(m, "normalized_file_hash"@) is Some {
        metadata_text(m, "normalized_file_hash"@)->0
    } else if metadata_text(m, "normalized_body_hash"@) is Some {
        metadata_text(m, "normalized_body_hash"@)->0
    } else if metadata_text(m, "canonical_hash"@) is Some {
        metadata_text(m, "canonical_hash"@)->0
    } else if metadata_text(m, "semantic_hash"@) is Some {
        metadata_text(m, "semantic_hash"@)->0
    } else if metadata_text(m, "vector_group_hash"@) is Some {
        metadata_text(m, "vector_group_hash"@)->0
    } else if metadata_text(m, "near_group_hash"@) is Some {
        metadata_text(m, "near_group_hash"@)->0
    } else if metadata_text(m, "route"@) is Some {
        metadata_text(m, "route"@)->0
    } else {
        f.baseline_key@
    }
}

/// The key findings are grouped under in the text report: rule and group hash for a
/// duplicate finding or one with several locations, else rule and finding id.
pub open spec fn text_group_key(f: Finding) -> Seq<char> {
    if !crate::metrics::spec_is_duplicate_kind(f.kind) && f.locations@.len() <= 1 {
        f.rule_id@ + "|"@ + f.finding_id@
    } else {
        f.rule_id@ + "|"@ + group_hash(f)
    }
}

/// The findings of one severity, in order.
pub open spec fn with_severity(fs: Seq<Finding>, s: Severity) -> Seq<Finding>
    decreases fs.len(),
{
    if fs.len() == 0 {
        seq![]
    } else if fs.last().severity == s {
        with_severity(fs.drop_last(), s).push(fs.last())
    } else {
        with_severity(fs.drop_last(), s)
    }
}

/// The findings with one group key, in order.
pub open spec fn with_group_key(fs: Seq<Finding>, k: Seq<char>) -> Seq<Finding>
    decreases fs.len(),
{
    if fs.len() == 0 {
        seq![]
    } else if text_group_key(fs.last()) == k {
        with_group_key(fs.drop_last(), k).push(fs.last())
    } else {
        with_group_key(fs.drop_last(), k)
    }
}

/// The number of locations of some findings, saturating at `usize::MAX`.
pub open spec fn location_total(fs: Seq<Finding>) -> nat
    decreases fs.len(),
{
    if fs.len() == 0 {
        0
    } else {
        let t = location_total(fs.drop_last()) + fs.last().locations@.len();
        if t > usize::MAX {
            usize::MAX as nat
        } else {
            t
        }
    }
}

/// One group of the text report: a heading when it spans several locations, then its
/// findings.
pub open spec fn group_text(root: Seq<char>, members: Seq<Finding>, use_color: bool, statuses: Seq<(String, FindingBaselineStatus)>) -> Seq<char> {
    (if members.len() > 1 || (members.len() == 1 && members[0].locations@.len() > 1) {
        "  Duplicate group: "@ + spec_decimal(location_total(members)) + " locations\n"@
    } else {
        seq![]
    }) + finding_texts(root, members, use_color, statuses)
}

/// The groups of some findings, in key order.
pub open spec fn group_texts(
    root: Seq<char>,
    fs: Seq<Finding>,
    keys: Seq<(Seq<char>, ())>,
    use_color: bool,
    statuses: Seq<(String, FindingBaselineStatus)>,
) -> Seq<char>
    decreases keys.len(),
{
    if keys.len() == 0 {
        seq![]
    } else {
        group_texts(root, fs, keys.drop_last(), use_color, statuses) + group_text(
            root,
            with_group_key(fs, keys.last().0),
            use_color,
            statuses,
        )
    }
}

/// The section of one severity: its label and count, then its findings by group.
pub open spec fn severity_section(root: Seq<char>, fs: Seq<Finding>, s: Severity, use_color: bool, statuses: Seq<(String, FindingBaselineStatus)>) -> Seq<char> {
    let sf = with_severity(fs, s);
    if sf.len() == 0 {
        seq![]
    } else {
        "\n"@ + severity_label(s, use_color) + " ("@ + spec_decimal(sf.len()) + ")\n"@ + group_texts(
            root,
            sf,
            crate::baseline_keys::key_set(sf.map_values(|f: Finding| text_group_key(f))),
            use_color,
            statuses,
        )
    }
}

/// The fixed baseline entries, when there are any.
pub open spec fn fixed_text(fixed: Seq<FixedBaselineEntry>) -> Seq<char>
    decreases fixed.len(),
{
    if fixed.len() == 0 {
        seq![]
    } else {
        (if fixed.len() == 1 {
            "\nFixed findings\n"@
        } else {
            fixed_text(fixed.drop_last())
        }) + "  FIXED  "@ + fixed.last().rule_id@ + "  "@ + fixed.last().path@ + "  "@ + fixed.last().message@ + "\n"@
    }
}

/// The whole text report.
pub open spec fn spec_render_text(result: ScanResult, use_color: bool, context: ReportContext) -> Seq<char> {
    let root = result.root@;
    let fs = result.findings@;
    let st = context.statuses@;
    if fs.len() == 0 {
        text_header(result) + "\n"@
    } else {
        text_header(result) + "\nFindings by severity\n"@ + severity_section(root, fs, Severity::Critical, use_color, st)
            + severity_section(root, fs, Severity::High, use_color, st) + severity_section(
            root,
            fs,
            Severity::Medium,
            use_color,
            st,
        ) + severity_section(root, fs, Severity::Low, use_color, st) + severity_section(
            root,
            fs,
            Severity::Info,
            use_color,
            st,
        ) + fixed_text(context.fixed_findings@)
    }
}

fn push_count(out: &mut String, label: &str, n: usize)
    ensures
        final(out)@ == old(out)@ + count_line(label@, n),
{
    out.append(label);
    out.append(decimal(n).as_str());
    out.append("\n");
    proof {
        assert(final(out)@ =~= old(out)@ + count_line(label@, n));
    }
}

fn push_count_if(out: &mut String, c: bool, label: &str, n: usize)
    ensures
        final(out)@ == old(out)@ + count_line_if(c, label@, n),
{
    if c {
        push_count(out, label, n);
    } else {
        assert(out@ =~= out@ + count_line_if(c, label@, n));
    }
}

fn push_opt_count(out: &mut String, label: &str, n: Option<usize>)
    ensures
        final(out)@ == old(out)@ + opt_count_line(label@, n),
{
    match n {
        Some(v) => push_count(out, label, v),
        None => {
            assert(out@ =~= out@ + opt_count_line(label@, n));
        },
    }
}

fn push_category_line_start(out: &mut String, c: &crate::findings::ScoreCategories)
    ensures
        final(out)@ == old(out)@ + category_line_start(*c),
{
    out.append("Category scores: duplication ");
    out.append(category_score_text(&c.duplication).as_str());
    out.append(", complexity ");
    out.append(category_score_text(&c.complexity).as_str());
    out.append(", style ");
    out.append(category_score_text(&c.style).as_str());
    out.append(", react ");
    out.append(category_score_text(&c.react).as_str());
    proof {
        assert(final(out)@ =~= old(out)@ + category_line_start(*c));
    }
}

fn push_category_line_end(out: &mut String, c: &crate::findings::ScoreCategories)
    ensures
        final(out)@ == old(out)@ + category_line_end(*c),
{
    out.append(", fastapi ");
    out.append(category_score_text(&c.fastapi).as_str());
    out.append(", rust ");
    out.append(category_score_text(&c.rust_idiom).as_str());
    out.append(", maintainability ");
    out.append(category_score_text(&c.maintainability).as_str());
    out.append(", ci ");
    out.append(category_score_text(&c.ci_risk).as_str());
    out.append("\n");
    proof {
        assert(final(out)@ =~= old(out)@ + category_line_end(*c));
    }
}

fn push_category_line(out: &mut String, c: &crate::findings::ScoreCategories)
    ensures
        final(out)@ == old(out)@ + category_line(*c),
{
    proof {
        reveal(category_line);
    }
    push_category_line_start(out, c);
    push_category_line_end(out, c);
    proof {
        assert(final(out)@ =~= old(out)@ + category_line(*c));
    }
}

#[verifier::rlimit(40)]
fn push_file_count_lines(out: &mut String, result: &ScanResult)
    ensures
        final(out)@ == old(out)@ + file_count_lines(*result),
{
    let ghost start = out@;
    let s = &result.stats;
    push_count(out, "Files scanned: ", s.files_scanned);
    push_count(out, "Lines scanned: ", result.summary.lines_scanned);
    push_count_if(out, s.files_discovered > s.files_scanned, "Files discovered: ", s.files_discovered);
    push_count_if(out, s.files_skipped > 0, "Files skipped: ", s.files_skipped);
    push_count_if(out, s.config_files > 0, "Config files: ", s.config_files);
    push_count_if(out, s.files_parsed > 0, "Files parsed: ", s.files_parsed);
    push_count_if(out, s.parse_errors > 0, "Parse errors: ", s.parse_errors);
    proof {
        assert(out@ =~= start + file_count_lines(*result));
    }
}

fn push_index_count_lines(out: &mut String, result: &ScanResult)
    ensures
        final(out)@ == old(out)@ + index_count_lines(*result),
{
    let ghost start = out@;
    let s = &result.stats;
    push_count(out, "Definitions indexed: ", s.definitions_indexed);
    push_count(out, "Imports indexed: ", s.imports_indexed);
    push_count(out, "Findings: ", result.findings.len());
    push_count(out, "Suppressed findings: ", s.suppressed_findings);
    push_count(out, "Duplicate groups: ", result.summary.duplicate_groups);
    push_count(out, "Duplicate lines: ", result.summary.duplicate_lines);
    proof {
        assert(out@ =~= start + index_count_lines(*result));
    }
}

fn push_count_lines(out: &mut String, result: &ScanResult)
    ensures
        final(out)@ == old(out)@ + count_lines(*result),
{
    proof {
        reveal(count_lines);
    }
    let ghost start = out@;
    push_file_count_lines(out, result);
    push_index_count_lines(out, result);
    proof {
        assert(out@ =~= start + count_lines(*result));
    }
}

fn push_baseline_lines(out: &mut String, result: &ScanResult)
    ensures
        final(out)@ == old(out)@ + baseline_lines(*result),
{
    proof {
        reveal(baseline_lines);
    }
    let ghost start = out@;
    out.append("Baseline: ");
    out.append(baseline_text(result).as_str());
    out.append("\n");
    let b = &result.summary.baseline;
    push_opt_count(out, "New findings: ", b.new_findings);
    push_opt_count(out, "Existing findings: ", b.existing_findings);
    push_opt_count(out, "Changed findings: ", b.changed_findings);
    push_opt_count(out, "Fixed findings: ", b.fixed_findings);
    proof {
        assert(out@ =~= start + baseline_lines(*result));
    }
}

fn report_paths(root: &str, paths: &Vec<String>) -> (r: Vec<String>)
    ensures
        text_views(r@) == text_views(paths@).map_values(|p: Seq<char>| report_path_text(root@, p)),
{
    let mut out: Vec<String> = Vec::new();
    for i in 0..paths.len()
        invariant
            text_views(out@) == text_views(paths@.take(i as int)).map_values(|p: Seq<char>| report_path_text(root@, p)),
    {
        crate::symbol_findings::push_text(&mut out, report_path(root, paths[i].as_str()));
        assert(text_views(paths@.take(i + 1)).map_values(|p: Seq<char>| report_path_text(root@, p)) =~= text_views(
            paths@.take(i as int),
        ).map_values(|p: Seq<char>| report_path_text(root@, p)).push(report_path_text(root@, paths@[i as int]@)));
    }
    assert(paths@.take(paths@.len() as int) =~= paths@);
    out
}

fn push_contributor(out: &mut String, root: &str, c: &ScoreContributor)
    ensures
        final(out)@ == old(out)@ + contributor_line(root@, *c),
{
    let ghost start = out@;
    let paths = report_paths(root, &c.locations);
    out.append("  -");
    out.append(decimal(c.penalty as usize).as_str());
    out.append("  ");
    out.append(c.rule_id.as_str());
    out.append("  ");
    out.append(c.message.as_str());
    let ghost mid = out@;
    if c.occurrences > 1 {
        out.append(" (");
        out.append(decimal(c.occurrences).as_str());
        out.append(")");
    }
    let ghost mid2 = out@;
    assert(mid2 =~= mid + (if c.occurrences > 1 {
        " ("@ + spec_decimal(c.occurrences as nat) + ")"@
    } else {
        seq![]
    }));
    if paths.len() > 0 {
        out.append("  [");
        out.append(join_strings(&paths, ", ").as_str());
        out.append("]");
    }
    out.append("\n");
    proof {
        assert(out@ =~= start + contributor_line(root@, *c));
    }
}

fn push_contributors(out: &mut String, result: &ScanResult)
    ensures
        final(out)@ == old(out)@ + contributors_text(*result),
{
    proof {
        reveal(contributors_text);
    }
    let cs = &result.score.top_contributors;
    if cs.len() == 0 {
        assert(out@ =~= out@ + contributors_text(*result));
        return;
    }
    let ghost start = out@;
    out.append("Top score contributors:\n");
    let ghost head = out@;
    for i in 0..cs.len()
        invariant
            out@ == head + contributor_lines(result.root@, cs@.take(i as int)),
    {
        push_contributor(out, result.root.as_str(), &cs[i]);
        assert(cs@.take(i + 1).drop_last() =~= cs@.take(i as int));
    }
    assert(cs@.take(cs@.len() as int) =~= cs@);
    assert(out@ =~= start + contributors_text(*result));
}

fn push_definition_metrics(out: &mut String, root: &str, title: &str, ms: &Vec<DefinitionMetric>)
    ensures
        final(out)@ == old(out)@ + section(title@, ms@.len(), definition_metric_lines(root@, ms@)),
{
    if ms.len() == 0 {
        assert(out@ =~= out@ + section(title@, ms@.len(), definition_metric_lines(root@, ms@)));
        return;
    }
    let ghost start = out@;
    out.append(title);
    let ghost head = out@;
    for i in 0..ms.len()
        invariant
            out@ == head + definition_metric_lines(root@, ms@.take(i as int)),
    {
        let m = &ms[i];
        let ghost before = out@;
        out.append("  ");
        out.append(m.name.as_str());
        out.append("  ");
        out.append(report_path(root, m.path.as_str()).as_str());
        out.append(":");
        out.append(decimal(m.line).as_str());
        out.append("  ");
        out.append(decimal(m.lines).as_str());
        out.append(" lines\n");
        assert(out@ =~= before + definition_metric_line(root@, *m));
        assert(ms@.take(i + 1).drop_last() =~= ms@.take(i as int));
    }
    assert(ms@.take(ms@.len() as int) =~= ms@);
    assert(out@ =~= start + section(title@, ms@.len(), definition_metric_lines(root@, ms@)));
}

fn push_module_metrics(out: &mut String, root: &str, ms: &Vec<ModuleDuplicateMetric>)
    ensures
        final(out)@ == old(out)@ + section("Most duplicated modules:\n"@, ms@.len(), module_metric_lines(root@, ms@)),
{
    if ms.len() == 0 {
        assert(out@ =~= out@ + section("Most duplicated modules:\n"@, ms@.len(), module_metric_lines(root@, ms@)));
        return;
    }
    let ghost start = out@;
    out.append("Most duplicated modules:\n");
    let ghost head = out@;
    for i in 0..ms.len()
        invariant
            out@ == head + module_metric_lines(root@, ms@.take(i as int)),
    {
        let m = &ms[i];
        let ghost before = out@;
        out.append("  ");
        out.append(report_path(root, m.path.as_str()).as_str());
        out.append("  ");
        out.append(decimal(m.duplicate_findings).as_str());
        out.append(" findings, ");
        out.append(decimal(m.duplicate_lines).as_str());
        out.append(" lines\n");
        assert(out@ =~= before + module_metric_line(root@, *m));
        assert(ms@.take(i + 1).drop_last() =~= ms@.take(i as int));
    }
    assert(ms@.take(ms@.len() as int) =~= ms@);
    assert(out@ =~= start + section("Most duplicated modules:\n"@, ms@.len(), module_metric_lines(root@, ms@)));
}

fn push_complexity_metrics(out: &mut String, root: &str, ms: &Vec<ComplexityMetric>)
    ensures
        final(out)@ == old(out)@ + section("Most complex functions:\n"@, ms@.len(), complexity_metric_lines(root@, ms@)),
{
    if ms.len() == 0 {
        assert(out@ =~= out@ + section("Most complex functions:\n"@, ms@.len(), complexity_metric_lines(root@, ms@)));
        return;
    }
    let ghost start = out@;
    out.append("Most complex functions:\n");
    let ghost head = out@;
    for i in 0..ms.len()
        invariant
            out@ == head + complexity_metric_lines(root@, ms@.take(i as int)),
    {
        let m = &ms[i];
        let ghost before = out@;
        out.append("  ");
        out.append(m.name.as_str());
        out.append("  ");
        out.append(report_path(root, m.path.as_str()).as_str());
        out.append(":");
        out.append(decimal(m.line).as_str());
        out.append("  complexity ");
        out.append(decimal(m.score).as_str());
        out.append(", ");
        out.append(decimal(m.lines).as_str());
        out.append(" lines\n");
        assert(out@ =~= before + complexity_metric_line(root@, *m));
        assert(ms@.take(i + 1).drop_last() =~= ms@.take(i as int));
    }
    assert(ms@.take(ms@.len() as int) =~= ms@);
    assert(out@ =~= start + section("Most complex functions:\n"@, ms@.len(), complexity_metric_lines(root@, ms@)));
}

fn push_suppressed_metrics(out: &mut String, ms: &Vec<SuppressedRuleMetric>)
    ensures
        final(out)@ == old(out)@ + section("Most suppressed rules:\n"@, ms@.len(), suppressed_metric_lines(ms@)),
{
    if ms.len() == 0 {
        assert(out@ =~= out@ + section("Most suppressed rules:\n"@, ms@.len(), suppressed_metric_lines(ms@)));
        return;
    }
    let ghost start = out@;
    out.append("Most suppressed rules:\n");
    let ghost head = out@;
    for i in 0..ms.len()
        invariant
            out@ == head + suppressed_metric_lines(ms@.take(i as int)),
    {
        let m = &ms[i];
        let ghost before = out@;
        out.append("  ");
        out.append(m.rule_id.as_str());
        out.append("  ");
        out.append(decimal(m.count).as_str());
        out.append("\n");
        assert(ms@.take(i + 1).drop_last() =~= ms@.take(i as int));
        assert(out@ =~= head + suppressed_metric_lines(ms@.take(i + 1)));
    }
    assert(ms@.take(ms@.len() as int) =~= ms@);
    assert(out@ =~= start + section("Most suppressed rules:\n"@, ms@.len(), suppressed_metric_lines(ms@)));
}

fn push_metrics(out: &mut String, result: &ScanResult)
    ensures
        final(out)@ == old(out)@ + metrics_text(*result),
{
    proof {
        reveal(metrics_text);
    }
    let ghost start = out@;
    let root = result.root.as_str();
    let m = &result.summary;
    push_definition_metrics(out, root, "Largest functions:\n", &m.largest_functions);
    push_definition_metrics(out, root, "Largest React components:\n", &m.largest_react_components);
    push_module_metrics(out, root, &m.most_duplicated_modules);
    push_complexity_metrics(out, root, &m.most_complex_functions);
    push_suppressed_metrics(out, &m.most_suppressed_rules);
    proof {
        assert(out@ =~= start + metrics_text(*result));
    }
}

fn push_text_header(out: &mut String, result: &ScanResult)
    ensures
        final(out)@ == old(out)@ + text_header(*result),
{
    let ghost start = out@;
    out.append("Code Health Report\n\n");
    out.append("Score: ");
    out.append(score_text(result).as_str());
    out.append("\n");
    push_category_line(out, &result.score.categories);
    push_count_lines(out, result);
    push_baseline_lines(out, result);
    push_contributors(out, result);
    push_metrics(out, result);
    proof {
        assert(out@ =~= start + text_header(*result));
    }
}

fn push_prefixed_lines(out: &mut String, prefix: &str, lines: &Vec<String>)
    ensures
        final(out)@ == old(out)@ + prefixed_lines(prefix@, text_views(lines@)),
{
    let ghost start = out@;
    for i in 0..lines.len()
        invariant
            out@ == start + prefixed_lines(prefix@, text_views(lines@.take(i as int))),
    {
        out.append(prefix);
        out.append(lines[i].as_str());
        out.append("\n");
        assert(text_views(lines@.take(i + 1)).drop_last() =~= text_views(lines@.take(i as int)));
        assert(text_views(lines@.take(i + 1)).last() == lines@[i as int]@);
        assert(out@ =~= start + prefixed_lines(prefix@, text_views(lines@.take(i + 1))));
    }
    assert(lines@.take(lines@.len() as int) =~= lines@);
}

fn push_finding_intro(out: &mut String, f: &Finding, use_color: bool, statuses: &Vec<(String, FindingBaselineStatus)>)
    ensures
        final(out)@ == old(out)@ + finding_intro(*f, use_color, statuses@),
{
    out.append("  ");
    out.append(color_severity(f.severity, use_color).as_str());
    out.append("  ");
    out.append(f.rule_id.as_str());
    if f.is_suppressed {
        out.append("  (suppressed)");
    }
    out.append("\n");
    out.append("    Confidence: ");
    out.append(f.confidence.label());
    out.append("\n");
    out.append("    Baseline status: ");
    out.append(status_of(statuses, f));
    out.append("\n");
    out.append("    Message: ");
    out.append(f.message.as_str());
    out.append("\n");
    proof {
        assert(final(out)@ =~= old(out)@ + finding_intro(*f, use_color, statuses@));
    }
}

fn push_finding_head(out: &mut String, root: &str, f: &Finding, use_color: bool, statuses: &Vec<(String, FindingBaselineStatus)>)
    ensures
        final(out)@ == old(out)@ + finding_head(root@, *f, use_color, statuses@),
{
    let ghost start = out@;
    push_finding_intro(out, f, use_color, statuses);
    let ghost before_locations = out@;
    for i in 0..f.locations.len()
        invariant
            out@ == before_locations + text_location_lines(root@, f.locations@.take(i as int)),
    {
        out.append("    ");
        out.append(format_location(root, &f.locations[i]).as_str());
        out.append("\n");
        assert(f.locations@.take(i + 1).drop_last() =~= f.locations@.take(i as int));
        assert(out@ =~= before_locations + text_location_lines(root@, f.locations@.take(i + 1)));
    }
    assert(f.locations@.take(f.locations@.len() as int) =~= f.locations@);
    assert(out@ =~= start + finding_head(root@, *f, use_color, statuses@));
}

fn push_fix_lines(out: &mut String, fixes: &Vec<Fix>)
    ensures
        final(out)@ == old(out)@ + fix_lines(fixes@),
{
    let ghost start = out@;
    for i in 0..fixes.len()
        invariant
            out@ == start + fix_lines(fixes@.take(i as int)),
    {
        let f = &fixes[i];
        out.append("    Fix: ");
        out.append(f.title.as_str());
        out.append(" (");
        out.append(decimal(f.edits.len()).as_str());
        out.append(" edits, ");
        out.append(autofix_value(f.safety));
        out.append(")\n");
        assert(fixes@.take(i + 1).drop_last() =~= fixes@.take(i as int));
        assert(out@ =~= start + fix_lines(fixes@.take(i + 1)));
    }
    assert(fixes@.take(fixes@.len() as int) =~= fixes@);
}

fn push_suppression_lines(out: &mut String, root: &str, f: &Finding)
    ensures
        final(out)@ == old(out)@ + suppression_lines(root@, *f),
{
    let ghost start = out@;
    match &f.suppression {
        Some(s) => {
            out.append("    Suppressed by: ");
            out.append(report_path(root, s.path.as_str()).as_str());
            out.append(":");
            out.append(decimal(s.line).as_str());
            out.append(" (");
            match &s.reason {
                Some(r) => out.append(r.as_str()),
                None => out.append("missing reason"),
            }
            out.append(")\n");
            push_prefixed_lines(out, "    Suppression warning: ", &s.warnings);
        },
        None => {
            out.append("    Suppress: ");
            out.append(suppression_hint(f).as_str());
            out.append("\n");
        },
    }
    proof {
        assert(out@ =~= start + suppression_lines(root@, *f));
    }
}

fn push_finding_tail(out: &mut String, root: &str, f: &Finding)
    ensures
        final(out)@ == old(out)@ + finding_tail(root@, *f),
{
    let ghost start = out@;
    out.append("    Explanation: ");
    out.append(f.explanation.as_str());
    out.append("\n");
    out.append("    Remediation: ");
    out.append(f.remediation.as_str());
    out.append("\n");
    out.append("    Why detected: ");
    out.append(f.detection_reason.as_str());
    out.append("\n");
    out.append("    Autofix: ");
    out.append(autofix_text(f.autofix, f.autofix_explanation.as_str()).as_str());
    out.append("\n");
    let ghost mid = out@;
    assert(mid =~= start + "    Explanation: "@ + f.explanation@ + "\n"@ + "    Remediation: "@ + f.remediation@ + "\n"@
        + "    Why detected: "@ + f.detection_reason@ + "\n"@ + "    Autofix: "@ + spec_autofix_text(
        f.autofix,
        f.autofix_explanation@,
    ) + "\n"@);
    push_fix_lines(out, &f.fixes);
    push_suppression_lines(out, root, f);
    assert(out@ =~= start + finding_tail(root@, *f));
}

fn push_finding_text(out: &mut String, root: &str, f: &Finding, use_color: bool, statuses: &Vec<(String, FindingBaselineStatus)>)
    ensures
        final(out)@ == old(out)@ + finding_text(root@, *f, use_color, statuses@),
{
    let ghost start = out@;
    push_finding_head(out, root, f, use_color, statuses);
    push_prefixed_lines(out, "    ", &metadata_lines(f));
    push_finding_tail(out, root, f);
    proof {
        reveal(finding_text);
    }
    assert(out@ =~= start + finding_text(root@, *f, use_color, statuses@));
}

/// The findings picked out by a list of positions.
pub open spec fn picked(fs: Seq<Finding>, idx: Seq<usize>) -> Seq<Finding> {
    idx.map_values(|i: usize| fs[i as int])
}

fn select_severity(fs: &Vec<Finding>, s: Severity) -> (r: Vec<usize>)
    ensures
        picked(fs@, r@) == with_severity(fs@, s),
        forall|k: int| 0 <= k < r@.len() ==> r@[k] < fs@.len(),
{
    let mut out: Vec<usize> = Vec::new();
    for i in 0..fs.len()
        invariant
            picked(fs@, out@) == with_severity(fs@.take(i as int), s),
            forall|k: int| 0 <= k < out@.len() ==> out@[k] < fs@.len(),
            i <= fs@.len(),
    {
        assert(fs@.take(i + 1).drop_last() =~= fs@.take(i as int));
        assert(fs@.take(i + 1).last() == fs@[i as int]);
        let ghost before = out@;
        if fs[i].severity == s {
            out.push(i);
            assert(picked(fs@, out@) =~= picked(fs@, before).push(fs@[i as int]));
        }
    }
    assert(fs@.take(fs@.len() as int) =~= fs@);
    out
}

fn group_key_exec(f: &Finding) -> (r: String)
    ensures
        r@ == text_group_key(*f),
{
    let mut key = f.rule_id.clone();
    key.append("|");
    if !crate::metrics::is_duplicate_finding(f) && f.locations.len() <= 1 {
        key.append(f.finding_id.as_str());
        return key;
    }
    let m = &f.metadata;
    let h = match metadata_text_exec(m, "normalized_file_hash") {
        Some(t) => t,
        None => match metadata_text_exec(m, "normalized_body_hash") {
            Some(t) => t,
            None => match metadata_text_exec(m, "canonical_hash") {
                Some(t) => t,
                None => match metadata_text_exec(m, "semantic_hash") {
                    Some(t) => t,
                    None => match metadata_text_exec(m, "vector_group_hash") {
                        Some(t) => t,
                        None => match metadata_text_exec(m, "near_group_hash") {
                            Some(t) => t,
                            None => match metadata_text_exec(m, "route") {
                                Some(t) => t,
                                None => f.baseline_key.clone(),
                            },
                        },
                    },
                },
            },
        },
    };
    key.append(h.as_str());
    proof {
        assert(key@ =~= text_group_key(*f));
    }
    key
}

fn keys_of(fs: &Vec<Finding>, idx: &Vec<usize>) -> (r: Vec<String>)
    requires
        forall|k: int| 0 <= k < idx@.len() ==> idx@[k] < fs@.len(),
    ensures
        text_views(r@) == picked(fs@, idx@).map_values(|f: Finding| text_group_key(f)),
{
    let mut out: Vec<String> = Vec::new();
    for i in 0..idx.len()
        invariant
            forall|k: int| 0 <= k < idx@.len() ==> idx@[k] < fs@.len(),
            text_views(out@) == picked(fs@, idx@.take(i as int)).map_values(|f: Finding| text_group_key(f)),
    {
        crate::symbol_findings::push_text(&mut out, group_key_exec(&fs[idx[i]]));
        assert(picked(fs@, idx@.take(i + 1)).map_values(|f: Finding| text_group_key(f)) =~= picked(
            fs@,
            idx@.take(i as int),
        ).map_values(|f: Finding| text_group_key(f)).push(text_group_key(fs@[idx@[i as int] as int])));
    }
    assert(idx@.take(idx@.len() as int) =~= idx@);
    out
}

fn select_key(fs: &Vec<Finding>, idx: &Vec<usize>, keys: &Vec<String>, key: &String) -> (r: Vec<usize>)
    requires
        forall|k: int| 0 <= k < idx@.len() ==> idx@[k] < fs@.len(),
        text_views(keys@) == picked(fs@, idx@).map_values(|f: Finding| text_group_key(f)),
    ensures
        picked(fs@, r@) == with_group_key(picked(fs@, idx@), key@),
        forall|k: int| 0 <= k < r@.len() ==> r@[k] < fs@.len(),
{
    let mut out: Vec<usize> = Vec::new();
    assert(text_views(keys@).len() == keys@.len());
    for i in 0..idx.len()
        invariant
            forall|k: int| 0 <= k < idx@.len() ==> idx@[k] < fs@.len(),
            text_views(keys@) == picked(fs@, idx@).map_values(|f: Finding| text_group_key(f)),
            picked(fs@, out@) == with_group_key(picked(fs@, idx@.take(i as int)), key@),
            forall|k: int| 0 <= k < out@.len() ==> out@[k] < fs@.len(),
            keys@.len() == idx@.len(),
    {
        let ghost p = picked(fs@, idx@.take(i + 1));
        assert(p.drop_last() =~= picked(fs@, idx@.take(i as int)));
        assert(p.last() == fs@[idx@[i as int] as int]);
        assert(text_views(keys@)[i as int] == keys@[i as int]@);
        let ghost before = out@;
        if crate::text::chars_eq(chars_of(keys[i].as_str()).as_slice(), chars_of(key.as_str()).as_slice()) {
            out.push(idx[i]);
            assert(picked(fs@, out@) =~= picked(fs@, before).push(fs@[idx@[i as int] as int]));
        }
    }
    assert(idx@.take(idx@.len() as int) =~= idx@);
    out
}

fn push_picked_findings(
    out: &mut String,
    root: &str,
    fs: &Vec<Finding>,
    idx: &Vec<usize>,
    use_color: bool,
    statuses: &Vec<(String, FindingBaselineStatus)>,
)
    requires
        forall|k: int| 0 <= k < idx@.len() ==> idx@[k] < fs@.len(),
    ensures
        final(out)@ == old(out)@ + finding_texts(root@, picked(fs@, idx@), use_color, statuses@),
{
    let ghost start = out@;
    for i in 0..idx.len()
        invariant
            forall|k: int| 0 <= k < idx@.len() ==> idx@[k] < fs@.len(),
            out@ == start + finding_texts(root@, picked(fs@, idx@.take(i as int)), use_color, statuses@),
    {
        push_finding_text(out, root, &fs[idx[i]], use_color, statuses);
        let ghost p = picked(fs@, idx@.take(i + 1));
        assert(p.drop_last() =~= picked(fs@, idx@.take(i as int)));
        assert(p.last() == fs@[idx@[i as int] as int]);
    }
    assert(idx@.take(idx@.len() as int) =~= idx@);
}

fn location_count(fs: &Vec<Finding>, idx: &Vec<usize>) -> (r: usize)
    requires
        forall|k: int| 0 <= k < idx@.len() ==> idx@[k] < fs@.len(),
    ensures
        r == location_total(picked(fs@, idx@)),
{
    let mut total: usize = 0;
    for i in 0..idx.len()
        invariant
            forall|k: int| 0 <= k < idx@.len() ==> idx@[k] < fs@.len(),
            total == location_total(picked(fs@, idx@.take(i as int))),
    {
        let n = fs[idx[i]].locations.len();
        let ghost p = picked(fs@, idx@.take(i + 1));
        assert(p.drop_last() =~= picked(fs@, idx@.take(i as int)));
        assert(p.last() == fs@[idx@[i as int] as int]);
        if total > usize::MAX - n {
            total = usize::MAX;
        } else {
            total = total + n;
        }
    }
    assert(idx@.take(idx@.len() as int) =~= idx@);
    total
}

fn push_group(
    out: &mut String,
    root: &str,
    fs: &Vec<Finding>,
    idx: &Vec<usize>,
    use_color: bool,
    statuses: &Vec<(String, FindingBaselineStatus)>,
)
    requires
        forall|k: int| 0 <= k < idx@.len() ==> idx@[k] < fs@.len(),
    ensures
        final(out)@ == old(out)@ + group_text(root@, picked(fs@, idx@), use_color, statuses@),
{
    let ghost start = out@;
    let several = idx.len() > 1 || (idx.len() == 1 && fs[idx[0]].locations.len() > 1);
    if several {
        out.append("  Duplicate group: ");
        out.append(decimal(location_count(fs, idx)).as_str());
        out.append(" locations\n");
    }
    let ghost mid = out@;
    assert(mid =~= start + (if picked(fs@, idx@).len() > 1 || (picked(fs@, idx@).len() == 1 && picked(fs@, idx@)[0].locations@.len() > 1) {
        "  Duplicate group: "@ + spec_decimal(location_total(picked(fs@, idx@))) + " locations\n"@
    } else {
        seq![]
    }));
    push_picked_findings(out, root, fs, idx, use_color, statuses);
    assert(out@ =~= start + group_text(root@, picked(fs@, idx@), use_color, statuses@));
}

#[verifier::spinoff_prover]
#[verifier::rlimit(40)]
fn push_severity_section(
    out: &mut String,
    root: &str,
    fs: &Vec<Finding>,
    s: Severity,
    use_color: bool,
    statuses: &Vec<(String, FindingBaselineStatus)>,
)
    ensures
        final(out)@ == old(out)@ + severity_section(root@, fs@, s, use_color, statuses@),
{
    let ghost start = out@;
    let idx = select_severity(fs, s);
    let ghost sf = with_severity(fs@, s);
    if idx.len() == 0 {
        assert(out@ =~= start + severity_section(root@, fs@, s, use_color, statuses@));
        return;
    }
    out.append("\n");
    out.append(color_severity(s, use_color).as_str());
    out.append(" (");
    out.append(decimal(idx.len()).as_str());
    out.append(")\n");
    let ghost head = out@;
    let keys = keys_of(fs, &idx);
    let distinct = crate::baseline_keys::sorted_distinct(&keys);
    let ghost ks = crate::baseline_keys::key_set(sf.map_values(|f: Finding| text_group_key(f)));
    assert(distinct@.map_values(|k: String| (k@, ())) == ks);
    for g in 0..distinct.len()
        invariant
            forall|k: int| 0 <= k < idx@.len() ==> idx@[k] < fs@.len(),
            picked(fs@, idx@) == sf,
            text_views(keys@) == picked(fs@, idx@).map_values(|f: Finding| text_group_key(f)),
            distinct@.map_values(|k: String| (k@, ())) == ks,
            out@ == head + group_texts(root@, sf, ks.take(g as int), use_color, statuses@),
    {
        let members = select_key(fs, &idx, &keys, &distinct[g]);
        push_group(out, root, fs, &members, use_color, statuses);
        assert(ks.take(g + 1).drop_last() =~= ks.take(g as int));
        assert(distinct@.map_values(|k: String| (k@, ()))[g as int] == (distinct@[g as int]@, ()));
        assert(ks.take(g + 1).last() == ks[g as int]);
    }
    assert(ks.take(ks.len() as int) =~= ks);
    assert(out@ =~= start + severity_section(root@, fs@, s, use_color, statuses@));
}

fn push_fixed(out: &mut String, fixed: &Vec<FixedBaselineEntry>)
    ensures
        final(out)@ == old(out)@ + fixed_text(fixed@),
{
    let ghost start = out@;
    if fixed.len() == 0 {
        assert(out@ =~= start + fixed_text(fixed@));
        return;
    }
    out.append("\nFixed findings\n");
    for i in 0..fixed.len()
        invariant
            fixed@.len() > 0,
            i > 0 ==> out@ == start + fixed_text(fixed@.take(i as int)),
            i == 0 ==> out@ == start + "\nFixed findings\n"@,
    {
        let e = &fixed[i];
        out.append("  FIXED  ");
        out.append(e.rule_id.as_str());
        out.append("  ");
        out.append(e.path.as_str());
        out.append("  ");
        out.append(e.message.as_str());
        out.append("\n");
        assert(fixed@.take(i + 1).drop_last() =~= fixed@.take(i as int));
        assert(fixed@.take(i + 1).last() == fixed@[i as int]);
        assert(out@ =~= start + fixed_text(fixed@.take(i + 1)));
    }
    assert(fixed@.take(fixed@.len() as int) =~= fixed@);
}

/// The plain-text report: the score, category scores, counts, baseline, top score
/// contributors and summary metrics; then, when there are findings, one section per
/// severity from critical to info, each finding under its duplicate group with its
/// locations, metadata lines, explanation, remediation, autofix, fixes and
/// suppression, and the fixed baseline entries at the end. Severity labels are
/// coloured when asked.
pub fn render_text(result: &ScanResult, use_color: bool, context: &ReportContext) -> (r: String)
    ensures
        r@ == spec_render_text(*result, use_color, *context),
{
    let mut out = String::new();
    push_text_header(&mut out, result);
    if result.findings.len() == 0 {
        out.append("\n");
        proof {
            assert(out@ =~= spec_render_text(*result, use_color, *context));
        }
        return out;
    }
    let ghost head = out@;
    out.append("\nFindings by severity\n");
    let root = result.root.as_str();
    let fs = &result.findings;
    let st = &context.statuses;
    push_severity_section(&mut out, root, fs, Severity::Critical, use_color, st);
    push_severity_section(&mut out, root, fs, Severity::High, use_color, st);
    push_severity_section(&mut out, root, fs, Severity::Medium, use_color, st);
    push_severity_section(&mut out, root, fs, Severity::Low, use_color, st);
    push_severity_section(&mut out, root, fs, Severity::Info, use_color, st);
    push_fixed(&mut out, &context.fixed_findings);
    proof {
        assert(out@ =~= spec_render_text(*result, use_color, *context));
    }
    out
}

/// Whether a baseline was consulted (found or missing).
pub open spec fn baseline_checked(result: ScanResult) -> bool {
    result.summary.baseline.status != BaselineStatus::NotChecked
}

/// The findings a Markdown summary lists: all of them, or only the new ones when a
/// baseline was consulted.
pub open spec fn summary_findings(fs: Seq<Finding>, checked: bool, statuses: Seq<(String, FindingBaselineStatus)>) -> Seq<Finding>
    decreases fs.len(),
{
    if fs.len() == 0 {
        seq![]
    } else if !checked || status_text(statuses, fs.last().baseline_key@) == "new"@ {
        summary_findings(fs.drop_last(), checked, statuses).push(fs.last())
    } else {
        summary_findings(fs.drop_last(), checked, statuses)
    }
}

/// The findings of at least (`at_least`) or below medium severity, in order.
pub open spec fn by_medium(fs: Seq<Finding>, at_least: bool) -> Seq<Finding>
    decreases fs.len(),
{
    if fs.len() == 0 {
        seq![]
    } else if (fs.last().severity.spec_rank() >= 2) == at_least {
        by_medium(fs.drop_last(), at_least).push(fs.last())
    } else {
        by_medium(fs.drop_last(), at_least)
    }
}

/// A count as a Markdown list item.
pub open spec fn md_count(label: Seq<char>, n: usize) -> Seq<char> {
    "- "@ + label + ": "@ + spec_decimal(n as nat) + "\n"@
}

/// The first lines of the Markdown summary: the score, files and lines scanned, and
/// the number of findings (new, changed and fixed ones when a baseline was consulted).
#[verifier::opaque]
pub open spec fn md_header(result: ScanResult, shown: nat) -> Seq<char> {
    let b = result.summary.baseline;
    "# Code Health Summary\n\n"@ + "- Score: "@ + score_text_of(result.score.overall) + "\n"@ + md_count(
        "Files scanned"@,
        result.stats.files_scanned,
    ) + md_count("Lines scanned"@, result.summary.lines_scanned) + (if baseline_checked(result) {
        md_count("New findings"@, shown as usize) + md_count(
            "Changed findings"@,
            match b.changed_findings {
                Some(n) => n,
                None => 0,
            },
        ) + md_count(
            "Fixed findings"@,
            match b.fixed_findings {
                Some(n) => n,
                None => 0,
            },
        )
    } else {
        md_count("Findings"@, shown as usize)
    }) + "\n"@
}

pub open spec fn md_recommendation_lines(cs: Seq<ScoreContributor>) -> Seq<char>
    decreases cs.len(),
{
    if cs.len() == 0 {
        seq![]
    } else {
        let c = cs.last();
        md_recommendation_lines(cs.drop_last()) + "- `"@ + markdown_text(c.rule_id@) + "`: "@ + markdown_text(c.message@)
            + " ("@ + spec_decimal(c.penalty as nat) + " point impact)\n"@
    }
}

/// The top recommendations, when there are any.
#[verifier::opaque]
pub open spec fn md_recommendations(result: ScanResult) -> Seq<char> {
    let cs = result.score.top_contributors@;
    if cs.len() == 0 {
        seq![]
    } else {
        "## Top recommendations\n\n"@ + md_recommendation_lines(cs) + "\n"@
    }
}

/// One finding in the Markdown summary: severity, rule, message, its first location,
/// and its remediation.
pub open spec fn md_item(root: Seq<char>, f: Finding) -> Seq<char> {
    "- **"@ + f.severity.label_spec() + "** `"@ + markdown_text(f.rule_id@) + "` "@ + markdown_text(f.message@) + (if f.locations@.len() > 0 {
        " at `"@ + markdown_text(spec_format_location(root, f.locations@[0])) + "`"@
    } else {
        seq![]
    }) + "\n"@ + "  Remediation: "@ + markdown_text(f.remediation@) + "\n"@
}

pub open spec fn md_items(root: Seq<char>, fs: Seq<Finding>) -> Seq<char>
    decreases fs.len(),
{
    if fs.len() == 0 {
        seq![]
    } else {
        md_items(root, fs.drop_last()) + md_item(root, fs.last())
    }
}

/// The fixed baseline entries of the Markdown summary, when there are any.
pub open spec fn md_fixed(fixed: Seq<FixedBaselineEntry>) -> Seq<char>
    decreases fixed.len(),
{
    if fixed.len() == 0 {
        seq![]
    } else {
        let e = fixed.last();
        (if fixed.len() == 1 {
            "\n## Fixed findings\n\n"@
        } else {
            md_fixed(fixed.drop_last())
        }) + "- `"@ + markdown_text(e.rule_id@) + "` at `"@ + markdown_text(e.path@) + "`: "@ + markdown_text(e.message@)
            + "\n"@
    }
}

/// The listed findings of the Markdown summary: up to ten of medium severity or above,
/// then the lower-severity ones folded away.
pub open spec fn md_listing(root: Seq<char>, shown: Seq<Finding>) -> Seq<char> {
    let severe = by_medium(shown, true);
    let visible = if severe.len() <= 10 {
        severe
    } else {
        severe.take(10)
    };
    let mild = by_medium(shown, false);
    "## Findings\n\n"@ + md_items(root, visible) + (if mild.len() > 0 {
        "<details><summary>Lower-severity findings ("@ + spec_decimal(mild.len()) + ")</summary>\n\n"@ + md_items(
            root,
            mild,
        ) + "</details>\n"@
    } else {
        seq![]
    })
}

/// The body of the Markdown summary: the listing, or a line saying there is nothing to
/// list.
pub open spec fn md_body(root: Seq<char>, shown: Seq<Finding>, checked: bool) -> Seq<char> {
    if shown.len() == 0 {
        if checked {
            "No new findings compared with the baseline.\n"@
        } else {
            "No findings.\n"@
        }
    } else {
        md_listing(root, shown)
    }
}

/// The whole Markdown summary: header, recommendations, body and the fixed baseline
/// entries.
pub open spec fn spec_render_markdown(result: ScanResult, context: ReportContext) -> Seq<char> {
    let checked = baseline_checked(result);
    let shown = summary_findings(result.findings@, checked, context.statuses@);
    md_header(result, shown.len()) + md_recommendations(result) + md_body(result.root@, shown, checked) + md_fixed(
        context.fixed_findings@,
    )
}

fn select_summary(fs: &Vec<Finding>, checked: bool, statuses: &Vec<(String, FindingBaselineStatus)>) -> (r: Vec<usize>)
    ensures
        picked(fs@, r@) == summary_findings(fs@, checked, statuses@),
        forall|k: int| 0 <= k < r@.len() ==> r@[k] < fs@.len(),
{
    let mut out: Vec<usize> = Vec::new();
    proof {
        reveal_strlit("new");
    }
    for i in 0..fs.len()
        invariant
            picked(fs@, out@) == summary_findings(fs@.take(i as int), checked, statuses@),
            forall|k: int| 0 <= k < out@.len() ==> out@[k] < fs@.len(),
            i <= fs@.len(),
    {
        assert(fs@.take(i + 1).drop_last() =~= fs@.take(i as int));
        assert(fs@.take(i + 1).last() == fs@[i as int]);
        let ghost before = out@;
        let keep = !checked || crate::text::chars_eq(chars_of(status_of(statuses, &fs[i])).as_slice(), chars_of("new").as_slice());
        if keep {
            out.push(i);
            assert(picked(fs@, out@) =~= picked(fs@, before).push(fs@[i as int]));
        }
    }
    assert(fs@.take(fs@.len() as int) =~= fs@);
    out
}

fn select_by_medium(fs: &Vec<Finding>, idx: &Vec<usize>, at_least: bool) -> (r: Vec<usize>)
    requires
        forall|k: int| 0 <= k < idx@.len() ==> idx@[k] < fs@.len(),
    ensures
        picked(fs@, r@) == by_medium(picked(fs@, idx@), at_least),
        forall|k: int| 0 <= k < r@.len() ==> r@[k] < fs@.len(),
{
    let mut out: Vec<usize> = Vec::new();
    for i in 0..idx.len()
        invariant
            forall|k: int| 0 <= k < idx@.len() ==> idx@[k] < fs@.len(),
            picked(fs@, out@) == by_medium(picked(fs@, idx@.take(i as int)), at_least),
            forall|k: int| 0 <= k < out@.len() ==> out@[k] < fs@.len(),
    {
        let ghost p = picked(fs@, idx@.take(i + 1));
        assert(p.drop_last() =~= picked(fs@, idx@.take(i as int)));
        assert(p.last() == fs@[idx@[i as int] as int]);
        let ghost before = out@;
        if (fs[idx[i]].severity.rank() >= 2) == at_least {
            out.push(idx[i]);
            assert(picked(fs@, out@) =~= picked(fs@, before).push(fs@[idx@[i as int] as int]));
        }
    }
    assert(idx@.take(idx@.len() as int) =~= idx@);
    out
}

fn push_md_count(out: &mut String, label: &str, n: usize)
    ensures
        final(out)@ == old(out)@ + md_count(label@, n),
{
    out.append("- ");
    out.append(label);
    out.append(": ");
    out.append(decimal(n).as_str());
    out.append("\n");
    proof {
        assert(final(out)@ =~= old(out)@ + md_count(label@, n));
    }
}

fn push_md_header(out: &mut String, result: &ScanResult, shown: usize)
    ensures
        final(out)@ == old(out)@ + md_header(*result, shown as nat),
{
    proof {
        reveal(md_header);
    }
    let ghost start = out@;
    out.append("# Code Health Summary\n\n");
    out.append("- Score: ");
    out.append(score_text(result).as_str());
    out.append("\n");
    push_md_count(out, "Files scanned", result.stats.files_scanned);
    push_md_count(out, "Lines scanned", result.summary.lines_scanned);
    let b = &result.summary.baseline;
    if !matches!(b.status, BaselineStatus::NotChecked) {
        push_md_count(out, "New findings", shown);
        push_md_count(out, "Changed findings", match b.changed_findings {
            Some(n) => n,
            None => 0,
        });
        push_md_count(out, "Fixed findings", match b.fixed_findings {
            Some(n) => n,
            None => 0,
        });
    } else {
        push_md_count(out, "Findings", shown);
    }
    out.append("\n");
    proof {
        assert(out@ =~= start + md_header(*result, shown as nat));
    }
}

fn push_md_recommendations(out: &mut String, result: &ScanResult)
    ensures
        final(out)@ == old(out)@ + md_recommendations(*result),
{
    proof {
        reveal(md_recommendations);
    }
    let ghost start = out@;
    let cs = &result.score.top_contributors;
    if cs.len() == 0 {
        assert(out@ =~= start + md_recommendations(*result));
        return;
    }
    out.append("## Top recommendations\n\n");
    let ghost head = out@;
    for i in 0..cs.len()
        invariant
            out@ == head + md_recommendation_lines(cs@.take(i as int)),
    {
        let c = &cs[i];
        out.append("- `");
        out.append(markdown_escape(c.rule_id.as_str()).as_str());
        out.append("`: ");
        out.append(markdown_escape(c.message.as_str()).as_str());
        out.append(" (");
        out.append(decimal(c.penalty as usize).as_str());
        out.append(" point impact)\n");
        assert(cs@.take(i + 1).drop_last() =~= cs@.take(i as int));
        assert(cs@.take(i + 1).last() == cs@[i as int]);
        assert(out@ =~= head + md_recommendation_lines(cs@.take(i + 1)));
    }
    assert(cs@.take(cs@.len() as int) =~= cs@);
    out.append("\n");
    assert(out@ =~= start + md_recommendations(*result));
}

fn push_md_item(out: &mut String, root: &str, f: &Finding)
    ensures
        final(out)@ == old(out)@ + md_item(root@, *f),
{
    let ghost start = out@;
    out.append("- **");
    out.append(f.severity.label());
    out.append("** `");
    out.append(markdown_escape(f.rule_id.as_str()).as_str());
    out.append("` ");
    out.append(markdown_escape(f.message.as_str()).as_str());
    if f.locations.len() > 0 {
        out.append(" at `");
        out.append(markdown_escape(format_location(root, &f.locations[0]).as_str()).as_str());
        out.append("`");
    }
    out.append("\n");
    out.append("  Remediation: ");
    out.append(markdown_escape(f.remediation.as_str()).as_str());
    out.append("\n");
    proof {
        assert(out@ =~= start + md_item(root@, *f));
    }
}

fn push_md_items(out: &mut String, root: &str, fs: &Vec<Finding>, idx: &Vec<usize>, count: usize)
    requires
        forall|k: int| 0 <= k < idx@.len() ==> idx@[k] < fs@.len(),
        count <= idx@.len(),
    ensures
        final(out)@ == old(out)@ + md_items(root@, picked(fs@, idx@).take(count as int)),
{
    let ghost start = out@;
    for i in 0..count
        invariant
            forall|k: int| 0 <= k < idx@.len() ==> idx@[k] < fs@.len(),
            count <= idx@.len(),
            out@ == start + md_items(root@, picked(fs@, idx@).take(i as int)),
    {
        push_md_item(out, root, &fs[idx[i]]);
        let ghost p = picked(fs@, idx@).take(i + 1);
        assert(p.drop_last() =~= picked(fs@, idx@).take(i as int));
        assert(p.last() == fs@[idx@[i as int] as int]);
    }
}

fn push_md_fixed(out: &mut String, fixed: &Vec<FixedBaselineEntry>)
    ensures
        final(out)@ == old(out)@ + md_fixed(fixed@),
{
    let ghost start = out@;
    if fixed.len() == 0 {
        assert(out@ =~= start + md_fixed(fixed@));
        return;
    }
    out.append("\n## Fixed findings\n\n");
    for i in 0..fixed.len()
        invariant
            fixed@.len() > 0,
            i > 0 ==> out@ == start + md_fixed(fixed@.take(i as int)),
            i == 0 ==> out@ == start + "\n## Fixed findings\n\n"@,
    {
        let e = &fixed[i];
        out.append("- `");
        out.append(markdown_escape(e.rule_id.as_str()).as_str());
        out.append("` at `");
        out.append(markdown_escape(e.path.as_str()).as_str());
        out.append("`: ");
        out.append(markdown_escape(e.message.as_str()).as_str());
        out.append("\n");
        assert(fixed@.take(i + 1).drop_last() =~= fixed@.take(i as int));
        assert(fixed@.take(i + 1).last() == fixed@[i as int]);
        assert(out@ =~= start + md_fixed(fixed@.take(i + 1)));
    }
    assert(fixed@.take(fixed@.len() as int) =~= fixed@);
}

#[verifier::spinoff_prover]
#[verifier::rlimit(30)]
fn push_md_listing(out: &mut String, root: &str, fs: &Vec<Finding>, shown: &Vec<usize>)
    requires
        forall|k: int| 0 <= k < shown@.len() ==> shown@[k] < fs@.len(),
    ensures
        final(out)@ == old(out)@ + md_listing(root@, picked(fs@, shown@)),
{
    let ghost start = out@;
    let severe = select_by_medium(fs, shown, true);
    let mild = select_by_medium(fs, shown, false);
    out.append("## Findings\n\n");
    let count = if severe.len() <= 10 {
        severe.len()
    } else {
        10
    };
    push_md_items(out, root, fs, &severe, count);
    assert(picked(fs@, severe@).take(severe@.len() as int) =~= picked(fs@, severe@));
    let ghost mid = out@;
    if mild.len() > 0 {
        out.append("<details><summary>Lower-severity findings (");
        out.append(decimal(mild.len()).as_str());
        out.append(")</summary>\n\n");
        push_md_items(out, root, fs, &mild, mild.len());
        assert(picked(fs@, mild@).take(mild@.len() as int) =~= picked(fs@, mild@));
        out.append("</details>\n");
    }
    assert(out@ =~= start + md_listing(root@, picked(fs@, shown@)));
}

/// The Markdown summary.
pub fn render_markdown(result: &ScanResult, context: &ReportContext) -> (r: String)
    ensures
        r@ == spec_render_markdown(*result, *context),
{
    let checked = !matches!(result.summary.baseline.status, BaselineStatus::NotChecked);
    let fs = &result.findings;
    let root = result.root.as_str();
    let shown = select_summary(fs, checked, &context.statuses);
    let mut out = String::new();
    push_md_header(&mut out, result, shown.len());
    push_md_recommendations(&mut out, result);
    let ghost head = out@;
    if shown.len() == 0 {
        if checked {
            out.append("No new findings compared with the baseline.\n");
        } else {
            out.append("No findings.\n");
        }
    } else {
        push_md_listing(&mut out, root, fs, &shown);
    }
    assert(out@ =~= head + md_body(root@, picked(fs@, shown@), checked));
    push_md_fixed(&mut out, &context.fixed_findings);
    proof {
        assert(out@ =~= spec_render_markdown(*result, *context));
    }
    out
}

/// The opening of the HTML report: document head with its style sheet and the title.
pub const HTML_HEAD: &'static str = "<!doctype html><html lang=\"en\"><head><meta charset=\"utf-8\"><meta name=\"viewport\" content=\"width=device-width,initial-scale=1\"><title>Code Health Report</title><style>body{font-family:system-ui,-apple-system,Segoe UI,sans-serif;margin:0;color:#18202a;background:#f6f7f9}main{max-width:1120px;margin:0 auto;padding:28px}h1{margin:0 0 6px}h2{margin:0 0 10px}.summary{display:grid;grid-template-columns:repeat(auto-fit,minmax(150px,1fr));gap:10px;margin:18px 0}.metric,.finding,.filters{background:#fff;border:1px solid #d8dee8;border-radius:8px;padding:14px}.metric strong{display:block;font-size:12px;color:#5c6675;text-transform:uppercase}.metric span{font-size:22px;font-weight:650}.filters{display:grid;grid-template-columns:repeat(auto-fit,minmax(150px,1fr));gap:10px;margin:16px 0}.filters label{font-size:12px;color:#5c6675}.filters select,.filters input{width:100%;box-sizing:border-box;margin-top:4px;padding:8px;border:1px solid #c8d0dc;border-radius:6px;background:#fff}.finding{margin:10px 0}.finding header{display:flex;gap:8px;align-items:center;flex-wrap:wrap}.badge{border-radius:999px;padding:2px 8px;font-size:12px;font-weight:650;background:#edf0f5}.severity-critical,.severity-high{color:#a71d2a}.severity-medium{color:#8a5a00}.severity-low{color:#2457a6}.severity-info{color:#08708a}code,pre{font-family:ui-monospace,SFMono-Regular,Consolas,monospace}pre{white-space:pre-wrap;background:#101820;color:#edf2f7;border-radius:6px;padding:10px;overflow:auto}.locations{margin:10px 0;padding-left:20px}.hidden{display:none}details{margin-top:10px}.muted{color:#5c6675}</style></head><body><main><h1>Code Health Report</h1>";

/// The filter controls of the HTML report.
pub const HTML_FILTERS: &'static str = "<section class=\"filters\" aria-label=\"Filters\"><label>Severity<select id=\"filter-severity\"><option value=\"\">All</option><option>critical</option><option>high</option><option>medium</option><option>low</option><option>info</option></select></label><label>Confidence<select id=\"filter-confidence\"><option value=\"\">All</option><option>certain</option><option>high</option><option>medium</option><option>low</option></select></label><label>Rule<input id=\"filter-rule\" placeholder=\"duplicate.exact.file\"></label><label>Language<input id=\"filter-language\" placeholder=\"typescript\"></label><label>Framework<input id=\"filter-framework\" placeholder=\"react\"></label></section>";

/// The script that applies the filters of the HTML report.
pub const HTML_FILTER_SCRIPT: &'static str = "const ids=['severity','confidence','rule','language','framework'];function value(id){return document.getElementById('filter-'+id).value.toLowerCase()}function apply(){document.querySelectorAll('.finding').forEach(el=>{const show=ids.every(id=>{const v=value(id);return !v||el.dataset[id].toLowerCase().includes(v)});el.classList.toggle('hidden',!show)})}ids.forEach(id=>document.getElementById('filter-'+id).addEventListener('input',apply));";

/// What the HTML report reads of a location's source file: the start computed from
/// the file when the location does not carry one, and the snippet it shows.
#[derive(Debug, Clone)]
pub struct LocationSource {
    pub computed_start: Option<(usize, usize)>,
    pub snippet: Option<String>,
}

/// The source read for location `j`, if any.
pub open spec fn source_at(srcs: Seq<LocationSource>, j: int) -> Option<LocationSource> {
    if 0 <= j < srcs.len() {
        Some(srcs[j])
    } else {
        None
    }
}

/// A location as the HTML report shows it: the report path, then the line and column
/// of its start (carried, or else computed from the file) when one is known.
pub open spec fn html_location_text(root: Seq<char>, l: FindingLocation, src: Option<LocationSource>) -> Seq<char> {
    let path = report_path_text(root, l.path@);
    let pos = match l.start {
        Some(s) => Some((s.line, s.column)),
        None => match src {
            Some(x) => x.computed_start,
            None => None,
        },
    };
    match pos {
        Some(p) => path + ":"@ + spec_decimal(p.0 as nat) + ":"@ + spec_decimal(p.1 as nat),
        None => path,
    }
}

/// The list items of the locations from position `from` up to `k`.
pub open spec fn html_location_items(root: Seq<char>, ls: Seq<FindingLocation>, srcs: Seq<LocationSource>, from: int, k: int) -> Seq<char>
    decreases k,
{
    if k <= from || k <= 0 {
        seq![]
    } else {
        html_location_items(root, ls, srcs, from, k - 1) + "<li><code>"@ + html_text(
            html_location_text(root, ls[k - 1], source_at(srcs, k - 1)),
        ) + "</code></li>"@
    }
}

/// The snippet of the first of the first `k` locations that has one.
pub open spec fn first_snippet(srcs: Seq<LocationSource>, k: int) -> Option<Seq<char>>
    decreases k,
{
    if k <= 0 {
        None
    } else {
        match first_snippet(srcs, k - 1) {
            Some(s) => Some(s),
            None => match source_at(srcs, k - 1) {
                Some(x) => match x.snippet {
                    Some(t) => Some(t@),
                    None => None,
                },
                None => None,
            },
        }
    }
}

/// The duplicate group a finding belongs to in the HTML report: that of a duplicate
/// finding or of one with several locations.
pub open spec fn html_duplicate_group(f: Finding) -> Option<Seq<char>> {
    if !crate::metrics::spec_is_duplicate_kind(f.kind) && f.locations@.len() <= 1 {
        None
    } else {
        Some(text_group_key(f))
    }
}

/// The text of an optional value for a data attribute, empty when absent.
pub open spec fn attr_text(o: Option<String>) -> Seq<char> {
    match o {
        Some(s) => s@,
        None => seq![],
    }
}

/// The opening of a finding's article: its data attributes for the filters and a
/// header with severity, rule and message.
pub open spec fn html_article_head(f: Finding) -> Seq<char> {
    let sev = f.severity.name_spec();
    "<article class=\"finding\" data-severity=\""@ + html_text(sev) + "\" data-confidence=\""@ + html_text(
        f.confidence.label_spec(),
    ) + "\" data-rule=\""@ + html_text(f.rule_id@) + "\" data-language=\""@ + html_text(attr_text(f.language))
        + "\" data-framework=\""@ + html_text(attr_text(f.framework)) + "\">"@ + "<header>"@
        + "<span class=\"badge severity-"@ + html_text(sev) + "\">"@ + html_text(sev) + "</span><code>"@ + html_text(
        f.rule_id@,
    ) + "</code><strong>"@ + html_text(f.message@) + "</strong>"@ + "</header>"@
}

/// The first snippet of a finding's locations in a preformatted block, if any.
pub open spec fn html_snippet(srcs: Seq<LocationSource>, n: int) -> Seq<char> {
    match first_snippet(srcs, n) {
        Some(t) => "<pre>"@ + html_text(t) + "</pre>"@,
        None => seq![],
    }
}

/// The other locations of a finding's duplicate group, when it belongs to one.
pub open spec fn html_group(root: Seq<char>, f: Finding, srcs: Seq<LocationSource>) -> Seq<char> {
    match html_duplicate_group(f) {
        Some(g) => "<details><summary>Duplicate group "@ + html_text(g) + "</summary><ul>"@ + html_location_items(
            root,
            f.locations@,
            srcs,
            1,
            f.locations@.len() as int,
        ) + "</ul></details>"@,
        None => seq![],
    }
}

/// The article of the HTML report for one finding: its head, its locations,
/// remediation, the first snippet, and the other locations of its duplicate group.
pub open spec fn html_article(root: Seq<char>, f: Finding, srcs: Seq<LocationSource>) -> Seq<char> {
    let n = f.locations@.len() as int;
    html_article_head(f) + "<ul class=\"locations\">"@ + html_location_items(root, f.locations@, srcs, 0, n) + "</ul>"@
        + "<p><strong>Remediation:</strong> "@ + html_text(f.remediation@) + "</p>"@ + html_snippet(srcs, n) + html_group(
        root,
        f,
        srcs,
    ) + "</article>"@
}

/// The sources read for finding `i`; none when the caller gave none.
pub open spec fn sources_of(sources: Seq<Vec<LocationSource>>, i: int) -> Seq<LocationSource> {
    if 0 <= i < sources.len() {
        sources[i]@
    } else {
        seq![]
    }
}

/// The articles of the first `k` findings.
pub open spec fn html_articles(root: Seq<char>, fs: Seq<Finding>, sources: Seq<Vec<LocationSource>>, k: int) -> Seq<char>
    decreases k,
{
    if k <= 0 {
        seq![]
    } else {
        html_articles(root, fs, sources, k - 1) + html_article(root, fs[k - 1], sources_of(sources, k - 1))
    }
}

/// A summary tile: a label and its value.
pub open spec fn html_metric(label: Seq<char>, value: Seq<char>) -> Seq<char> {
    "<div class=\"metric\"><strong>"@ + html_text(label) + "</strong><span>"@ + html_text(value) + "</span></div>"@
}

/// The report data embedded in a script: every `</` written as `<\/` so that no text
/// in it can close the script element.
pub open spec fn script_safe(s: Seq<char>) -> Seq<char>
    decreases s.len(),
{
    if s.len() == 0 {
        s
    } else if s.len() >= 2 && s[0] == '<' && s[1] == '/' {
        seq!['<', '\\', '/'] + script_safe(s.skip(2))
    } else {
        seq![s[0]] + script_safe(s.skip(1))
    }
}

/// The HTML report: the head, a line with the schema, tool and configuration, the
/// summary tiles, the filters, one article per finding, and the report data with the
/// filter script.
pub open spec fn spec_render_html(result: ScanResult, context: ReportContext, report_json: Seq<char>, sources: Seq<Vec<LocationSource>>) -> Seq<char> {
    let new_text = match result.summary.baseline.new_findings {
        Some(n) => spec_decimal(n as nat),
        None => "n/a"@,
    };
    HTML_HEAD@ + "<p class=\"muted\">Schema "@ + JSON_SCHEMA_VERSION@ + " · Tool "@ + html_text(context.tool_version@)
        + " · Config "@ + html_text(context.config_hash@) + "</p>"@ + "<section class=\"summary\">"@ + html_metric(
        "Score"@,
        score_text_of(result.score.overall),
    ) + html_metric("Files scanned"@, spec_decimal(result.stats.files_scanned as nat)) + html_metric(
        "Lines scanned"@,
        spec_decimal(result.summary.lines_scanned as nat),
    ) + html_metric("Findings"@, spec_decimal(result.findings@.len())) + html_metric(
        "Duplicate groups"@,
        spec_decimal(result.summary.duplicate_groups as nat),
    ) + html_metric("New findings"@, new_text) + "</section>"@ + HTML_FILTERS@ + "<section id=\"findings\">"@
        + html_articles(result.root@, result.findings@, sources, result.findings@.len() as int) + "</section>"@
        + "<script>"@ + "window.CODEHEALTH_REPORT="@ + script_safe(report_json) + ";\n"@ + HTML_FILTER_SCRIPT@
        + "</script>"@ + "</main></body></html>"@
}

fn push_html_metric(out: &mut String, label: &str, value: &str)
    ensures
        final(out)@ == old(out)@ + html_metric(label@, value@),
{
    out.append("<div class=\"metric\"><strong>");
    out.append(escape_html(label).as_str());
    out.append("</strong><span>");
    out.append(escape_html(value).as_str());
    out.append("</span></div>");
    proof {
        assert(final(out)@ =~= old(out)@ + html_metric(label@, value@));
    }
}

fn push_script_safe(out: &mut String, text: &str)
    ensures
        final(out)@ == old(out)@ + script_safe(text@),
{
    let cs = chars_of(text);
    let ghost s = text@;
    let ghost start = out@;
    let mut i: usize = 0;
    assert(s.skip(0) =~= s);
    while i < cs.len()
        invariant
            cs@ == s,
            i <= s.len(),
            start + script_safe(s) == out@ + script_safe(s.skip(i as int)),
        decreases s.len() - i,
    {
        let ghost rest = s.skip(i as int);
        if i + 1 < cs.len() && cs[i] == '<' && cs[i + 1] == '/' {
            push_char(out, '<');
            push_char(out, '\\');
            push_char(out, '/');
            assert(rest.skip(2) =~= s.skip(i + 2));
            assert(rest[0] == '<' && rest[1] == '/');
            i = i + 2;
        } else {
            push_char(out, cs[i]);
            assert(rest.skip(1) =~= s.skip(i + 1));
            assert(rest[0] == cs@[i as int]);
            i = i + 1;
        }
    }
    assert(s.skip(i as int) =~= Seq::<char>::empty());
}

fn location_text_exec(root: &str, l: &FindingLocation, src: Option<&LocationSource>) -> (r: String)
    ensures
        r@ == html_location_text(root@, *l, match src {
            Some(x) => Some(*x),
            None => None,
        }),
{
    let mut out = report_path(root, l.path.as_str());
    let pos: Option<(usize, usize)> = match l.start {
        Some(st) => Some((st.line, st.column)),
        None => match src {
            Some(x) => x.computed_start,
            None => None,
        },
    };
    match pos {
        Some(p) => {
            out.append(":");
            out.append(decimal(p.0).as_str());
            out.append(":");
            out.append(decimal(p.1).as_str());
        },
        None => {},
    }
    out
}

fn source_ref(srcs: &Vec<LocationSource>, j: usize) -> (r: Option<&LocationSource>)
    ensures
        match r {
            Some(x) => source_at(srcs@, j as int) == Some(*x),
            None => source_at(srcs@, j as int) is None,
        },
{
    if j < srcs.len() {
        Some(&srcs[j])
    } else {
        None
    }
}

fn push_location_items(out: &mut String, root: &str, f: &Finding, srcs: &Vec<LocationSource>, from: usize)
    ensures
        final(out)@ == old(out)@ + html_location_items(root@, f.locations@, srcs@, from as int, f.locations@.len() as int),
{
    let ghost start = out@;
    let mut k: usize = from;
    if k > f.locations.len() {
        k = f.locations.len();
    }
    assert(html_location_items(root@, f.locations@, srcs@, from as int, k as int) =~= seq![]);
    while k < f.locations.len()
        invariant
            from <= k <= f.locations@.len() || (from > f.locations@.len() && k == f.locations@.len()),
            out@ == start + html_location_items(root@, f.locations@, srcs@, from as int, k as int),
        decreases f.locations@.len() - k,
    {
        let src = source_ref(srcs, k);
        let text = location_text_exec(root, &f.locations[k], src);
        out.append("<li><code>");
        out.append(escape_html(text.as_str()).as_str());
        out.append("</code></li>");
        k = k + 1;
        assert(out@ =~= start + html_location_items(root@, f.locations@, srcs@, from as int, k as int));
    }
}

fn first_snippet_exec(srcs: &Vec<LocationSource>, n: usize) -> (r: Option<String>)
    ensures
        match r {
            Some(t) => first_snippet(srcs@, n as int) == Some(t@),
            None => first_snippet(srcs@, n as int) is None,
        },
{
    let mut j: usize = 0;
    while j < n
        invariant
            j <= n,
            first_snippet(srcs@, j as int) is None,
        decreases n - j,
    {
        if j < srcs.len() {
            match &srcs[j].snippet {
                Some(t) => {
                    proof {
                        lemma_first_snippet_stays(srcs@, j as int + 1, n as int);
                    }
                    return Some(t.clone());
                },
                None => {},
            }
        }
        j = j + 1;
    }
    None
}

proof fn lemma_first_snippet_stays(srcs: Seq<LocationSource>, k: int, n: int)
    requires
        0 < k <= n,
        first_snippet(srcs, k) is Some,
    ensures
        first_snippet(srcs, n) == first_snippet(srcs, k),
    decreases n - k,
{
    if k < n {
        lemma_first_snippet_stays(srcs, k + 1, n);
    }
}

fn duplicate_group_exec(f: &Finding) -> (r: Option<String>)
    ensures
        match r {
            Some(t) => html_duplicate_group(*f) == Some(t@),
            None => html_duplicate_group(*f) is None,
        },
{
    if !crate::metrics::is_duplicate_finding(f) && f.locations.len() <= 1 {
        None
    } else {
        Some(group_key_exec(f))
    }
}

fn opt_text_ref(o: &Option<String>) -> (r: &str)
    ensures
        r@ == attr_text(*o),
{
    proof {
        reveal_strlit("");
    }
    match o {
        Some(s) => s.as_str(),
        None => "",
    }
}

fn push_article_head(out: &mut String, f: &Finding)
    ensures
        final(out)@ == old(out)@ + html_article_head(*f),
{
    let ghost start = out@;
    let sev = escape_html(f.severity.name());
    out.append("<article class=\"finding\" data-severity=\"");
    out.append(sev.as_str());
    out.append("\" data-confidence=\"");
    out.append(escape_html(f.confidence.label()).as_str());
    out.append("\" data-rule=\"");
    out.append(escape_html(f.rule_id.as_str()).as_str());
    out.append("\" data-language=\"");
    out.append(escape_html(opt_text_ref(&f.language)).as_str());
    out.append("\" data-framework=\"");
    out.append(escape_html(opt_text_ref(&f.framework)).as_str());
    out.append("\">");
    out.append("<header>");
    out.append("<span class=\"badge severity-");
    out.append(sev.as_str());
    out.append("\">");
    out.append(sev.as_str());
    out.append("</span><code>");
    out.append(escape_html(f.rule_id.as_str()).as_str());
    out.append("</code><strong>");
    out.append(escape_html(f.message.as_str()).as_str());
    out.append("</strong>");
    out.append("</header>");
    proof {
        assert(final(out)@ =~= start + html_article_head(*f));
    }
}

fn push_html_snippet(out: &mut String, srcs: &Vec<LocationSource>, n: usize)
    ensures
        final(out)@ == old(out)@ + html_snippet(srcs@, n as int),
{
    let ghost start = out@;
    match first_snippet_exec(srcs, n) {
        Some(t) => {
            out.append("<pre>");
            out.append(escape_html(t.as_str()).as_str());
            out.append("</pre>");
        },
        None => {},
    }
    assert(out@ =~= start + html_snippet(srcs@, n as int));
}

fn push_html_group(out: &mut String, root: &str, f: &Finding, srcs: &Vec<LocationSource>)
    ensures
        final(out)@ == old(out)@ + html_group(root@, *f, srcs@),
{
    let ghost start = out@;
    match duplicate_group_exec(f) {
        Some(g) => {
            out.append("<details><summary>Duplicate group ");
            out.append(escape_html(g.as_str()).as_str());
            out.append("</summary><ul>");
            push_location_items(out, root, f, srcs, 1);
            out.append("</ul></details>");
        },
        None => {},
    }
    assert(out@ =~= start + html_group(root@, *f, srcs@));
}

fn push_html_article(out: &mut String, root: &str, f: &Finding, srcs: &Vec<LocationSource>)
    ensures
        final(out)@ == old(out)@ + html_article(root@, *f, srcs@),
{
    let ghost start = out@;
    push_article_head(out, f);
    out.append("<ul class=\"locations\">");
    push_location_items(out, root, f, srcs, 0);
    out.append("</ul>");
    out.append("<p><strong>Remediation:</strong> ");
    out.append(escape_html(f.remediation.as_str()).as_str());
    out.append("</p>");
    push_html_snippet(out, srcs, f.locations.len());
    push_html_group(out, root, f, srcs);
    out.append("</article>");
    proof {
        assert(final(out)@ =~= start + html_article(root@, *f, srcs@));
    }
}

/// The HTML report, a single page. `report_json` is the JSON report that the page
/// embeds for its script; `sources` holds, per finding and location, what was read of
/// the source file.
pub fn render_html(result: &ScanResult, context: &ReportContext, report_json: &str, sources: &Vec<Vec<LocationSource>>) -> (r:
    String)
    ensures
        r@ == spec_render_html(*result, *context, report_json@, sources@),
{
    let mut out = String::new();
    out.append(HTML_HEAD);
    out.append("<p class=\"muted\">Schema ");
    out.append(JSON_SCHEMA_VERSION);
    out.append(" · Tool ");
    out.append(escape_html(context.tool_version.as_str()).as_str());
    out.append(" · Config ");
    out.append(escape_html(context.config_hash.as_str()).as_str());
    out.append("</p>");
    out.append("<section class=\"summary\">");
    push_html_metric(&mut out, "Score", score_text(result).as_str());
    push_html_metric(&mut out, "Files scanned", decimal(result.stats.files_scanned).as_str());
    push_html_metric(&mut out, "Lines scanned", decimal(result.summary.lines_scanned).as_str());
    push_html_metric(&mut out, "Findings", decimal(result.findings.len()).as_str());
    push_html_metric(&mut out, "Duplicate groups", decimal(result.summary.duplicate_groups).as_str());
    let new_text = match result.summary.baseline.new_findings {
        Some(n) => decimal(n),
        None => String::from_str("n/a"),
    };
    push_html_metric(&mut out, "New findings", new_text.as_str());
    out.append("</section>");
    out.append(HTML_FILTERS);
    out.append("<section id=\"findings\">");
    let ghost header = out@;
    let empty: Vec<LocationSource> = Vec::new();
    for i in 0..result.findings.len()
        invariant
            empty@.len() == 0,
            out@ == header + html_articles(result.root@, result.findings@, sources@, i as int),
    {
        let srcs = if i < sources.len() {
            &sources[i]
        } else {
            &empty
        };
        assert(srcs@ == sources_of(sources@, i as int));
        push_html_article(&mut out, result.root.as_str(), &result.findings[i], srcs);
    }
    out.append("</section>");
    out.append("<script>");
    out.append("window.CODEHEALTH_REPORT=");
    push_script_safe(&mut out, report_json);
    out.append(";\n");
    out.append(HTML_FILTER_SCRIPT);
    out.append("</script>");
    out.append("</main></body></html>");
    proof {
        assert(out@ =~= spec_render_html(*result, *context, report_json@, sources@));
    }
    out
}

} // verus!
