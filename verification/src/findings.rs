//! The finding model shared by every detector: severities, confidences, spans,
//! locations, fixes, filters and the score report types, together with the byte
//! offset helpers that turn spans into line/column positions.
use vstd::prelude::*;
use vstd::string::StringSliceAdditionalSpecFns;
use vstd::utf8::*;

use crate::text::{chars_eq, chars_of, lower_chars, spec_lower, string_from_chars};
use crate::utf8_facts::{lemma_decode_len, prefix_chars, str_len_fits, str_range};

verus! {

broadcast use {
    vstd::string::group_string_axioms,
    vstd::utf8::encode_utf8_valid_utf8,
    vstd::utf8::encode_utf8_decode_utf8,
};

/// Version of the scan result layout.
pub const REPORT_SCHEMA_VERSION: u32 = 2;

/// How serious a finding is, from `Info` (least) to `Critical` (most).
#[derive(Debug, Clone, Copy, PartialEq, Eq, Structural, Ord)]
pub enum Severity {
    Info,
    Low,
    Medium,
    High,
    Critical,
}

impl Severity {
    pub open spec fn spec_rank(self) -> u8 {
        match self {
            Severity::Info => 0,
            Severity::Low => 1,
            Severity::Medium => 2,
            Severity::High => 3,
            Severity::Critical => 4,
        }
    }

    /// Rank used for ordering: 0 for `Info` up to 4 for `Critical`.
    pub fn rank(self) -> (r: u8)
        ensures
            r == self.spec_rank(),
    {
        match self {
            Severity::Info => 0,
            Severity::Low => 1,
            Severity::Medium => 2,
            Severity::High => 3,
            Severity::Critical => 4,
        }
    }

    /// Upper-case label used in text reports.
    pub open spec fn label_spec(self) -> Seq<char> {
        match self {
            Severity::Info => "INFO"@,
            Severity::Low => "LOW"@,
            Severity::Medium => "MEDIUM"@,
            Severity::High => "HIGH"@,
            Severity::Critical => "CRITICAL"@,
        }
    }

    pub fn label(self) -> (r: &'static str)
        ensures
            r@ == self.label_spec(),
    {
        match self {
            Severity::Info => "INFO",
            Severity::Low => "LOW",
            Severity::Medium => "MEDIUM",
            Severity::High => "HIGH",
            Severity::Critical => "CRITICAL",
        }
    }

    /// Lower-case name, the form used in configuration and JSON.
    pub fn name(self) -> (r: &'static str)
        ensures
            r@ == self.name_spec(),
    {
        match self {
            Severity::Info => "info",
            Severity::Low => "low",
            Severity::Medium => "medium",
            Severity::High => "high",
            Severity::Critical => "critical",
        }
    }

    pub open spec fn spec_blocks_by_default(self, confidence: Confidence) -> bool {
        (self == Severity::High || self == Severity::Critical) && (confidence == Confidence::High
            || confidence == Confidence::Certain)
    }

    /// High and critical findings block CI by default, but only when they are reported
    /// with high or certain confidence.
    pub fn blocks_by_default(self, confidence: Confidence) -> (r: bool)
        ensures
            r == self.spec_blocks_by_default(confidence),
    {
        (matches!(self, Severity::High) || matches!(self, Severity::Critical)) && (matches!(
            confidence,
            Confidence::High
        ) || matches!(confidence, Confidence::Certain))
    }

    /// `self >= other` in severity order.
    pub fn at_least(self, other: Severity) -> (r: bool)
        ensures
            r == (self.spec_rank() >= other.spec_rank()),
    {
        self.rank() >= other.rank()
    }

    /// Parses a severity name, ignoring ASCII case.
    pub fn parse_name(value: &str) -> (r: Result<Severity, ParseEnumError>)
        ensures
            r matches Ok(s) ==> spec_lower(value@) == s.name_spec(),
            r is Err <==> !(exists|s: Severity| spec_lower(value@) == s.name_spec()),
    {
        proof {
            reveal_strlit("info");
            reveal_strlit("low");
            reveal_strlit("medium");
            reveal_strlit("high");
            reveal_strlit("critical");
        }
        let lowered = lower_chars(&chars_of(value));
        let all = [Severity::Info, Severity::Low, Severity::Medium, Severity::High, Severity::Critical];
        let mut i: usize = 0;
        while i < 5
            invariant
                0 <= i <= 5,
                lowered@ == spec_lower(value@),
                all@ == seq![Severity::Info, Severity::Low, Severity::Medium, Severity::High, Severity::Critical],
                forall|j: int| 0 <= j < i ==> lowered@ != (#[trigger] all@[j]).name_spec(),
            decreases 5 - i,
        {
            let candidate = all[i];
            if chars_eq(&lowered, &chars_of(candidate.name())) {
                assert(spec_lower(value@) == candidate.name_spec());
                return Ok(candidate);
            }
            i = i + 1;
        }
        assert forall|s: Severity| spec_lower(value@) != s.name_spec() by {
            match s {
                Severity::Info => assert(all@[0] == s),
                Severity::Low => assert(all@[1] == s),
                Severity::Medium => assert(all@[2] == s),
                Severity::High => assert(all@[3] == s),
                Severity::Critical => assert(all@[4] == s),
            }
        }
        Err(ParseEnumError { enum_name: "severity", value: string_from_chars(&chars_of(value)) })
    }

    pub open spec fn name_spec(self) -> Seq<char> {
        match self {
            Severity::Info => "info"@,
            Severity::Low => "low"@,
            Severity::Medium => "medium"@,
            Severity::High => "high"@,
            Severity::Critical => "critical"@,
        }
    }
}

/// How sure a detector is about a finding, from `Low` to `Certain`.
#[derive(Debug, Clone, Copy, PartialEq, Eq, Structural, Ord)]
pub enum Confidence {
    Low,
    Medium,
    High,
    Certain,
}

impl Confidence {
    pub open spec fn spec_rank(self) -> u8 {
        match self {
            Confidence::Low => 0,
            Confidence::Medium => 1,
            Confidence::High => 2,
            Confidence::Certain => 3,
        }
    }

    /// Rank used for ordering: 0 for `Low` up to 3 for `Certain`.
    pub fn rank(self) -> (r: u8)
        ensures
            r == self.spec_rank(),
    {
        match self {
            Confidence::Low => 0,
            Confidence::Medium => 1,
            Confidence::High => 2,
            Confidence::Certain => 3,
        }
    }

    pub open spec fn label_spec(self) -> Seq<char> {
        match self {
            Confidence::Low => "low"@,
            Confidence::Medium => "medium"@,
            Confidence::High => "high"@,
            Confidence::Certain => "certain"@,
        }
    }

    /// Lower-case label used in reports and configuration.
    pub fn label(self) -> (r: &'static str)
        ensures
            r@ == self.label_spec(),
    {
        match self {
            Confidence::Low => "low",
            Confidence::Medium => "medium",
            Confidence::High => "high",
            Confidence::Certain => "certain",
        }
    }

    /// Parses a confidence label, ignoring ASCII case.
    pub fn parse_label(value: &str) -> (r: Result<Confidence, ParseEnumError>)
        ensures
            r matches Ok(c) ==> spec_lower(value@) == c.label_spec(),
            r is Err <==> !(exists|c: Confidence| spec_lower(value@) == c.label_spec()),
    {
        let lowered = lower_chars(&chars_of(value));
        let all = [Confidence::Low, Confidence::Medium, Confidence::High, Confidence::Certain];
        let mut i: usize = 0;
        while i < 4
            invariant
                0 <= i <= 4,
                lowered@ == spec_lower(value@),
                all@ == seq![Confidence::Low, Confidence::Medium, Confidence::High, Confidence::Certain],
                forall|j: int| 0 <= j < i ==> lowered@ != (#[trigger] all@[j]).label_spec(),
            decreases 4 - i,
        {
            let candidate = all[i];
            if chars_eq(&lowered, &chars_of(candidate.label())) {
                return Ok(candidate);
            }
            i = i + 1;
        }
        assert forall|c: Confidence| spec_lower(value@) != c.label_spec() by {
            match c {
                Confidence::Low => assert(all@[0] == c),
                Confidence::Medium => assert(all@[1] == c),
                Confidence::High => assert(all@[2] == c),
                Confidence::Certain => assert(all@[3] == c),
            }
        }
        Err(ParseEnumError { enum_name: "confidence", value: string_from_chars(&chars_of(value)) })
    }

    /// `self >= other` in confidence order.
    pub fn at_least(self, other: Confidence) -> (r: bool)
        ensures
            r == (self.spec_rank() >= other.spec_rank()),
    {
        self.rank() >= other.rank()
    }
}

/// Each confidence has its own label, written in lower case, so parsing a label gives
/// back the confidence it names.
pub proof fn lemma_confidence_label_round_trip(c: Confidence, d: Confidence)
    ensures
        spec_lower(c.label_spec()) == c.label_spec(),
        c.label_spec() == d.label_spec() ==> c == d,
{
    reveal_strlit("low");
    reveal_strlit("medium");
    reveal_strlit("high");
    reveal_strlit("certain");
    assert(spec_lower(c.label_spec()) =~= c.label_spec());
    if c != d {
        assert(c.label_spec().len() != d.label_spec().len() || c.label_spec()[0] != d.label_spec()[0]);
    }
}

/// Whether an autofix can be applied automatically.
#[derive(Debug, Clone, Copy, PartialEq, Eq, Structural)]
pub enum AutofixSafety {
    Unavailable,
    SuggestionOnly,
    Safe,
}

/// How a fix may be applied.
#[derive(Debug, Clone, Copy, PartialEq, Eq, Structural)]
pub enum FixApplicability {
    MachineApplicable,
    MaybeIncorrect,
    SuggestionOnly,
}

/// A replacement of the bytes `span` of `file` by `replacement`.
#[derive(Debug, Clone)]
pub struct Edit {
    pub file: String,
    pub span: SourceSpan,
    pub replacement: String,
}

/// A set of edits that together fix one finding.
#[derive(Debug, Clone)]
pub struct Fix {
    pub title: String,
    pub safety: AutofixSafety,
    pub applicability: FixApplicability,
    pub edits: Vec<Edit>,
}

/// The family of detector that produced a finding.
#[derive(Debug, Clone, Copy, PartialEq, Eq, Structural)]
pub enum FindingKind {
    DuplicateName,
    ExactDuplicate,
    StructuralDuplicate,
    NearDuplicate,
    SemanticCandidate,
    Style,
    React,
    FastApi,
    Rust,
    ExternalTool,
}

/// A metadata value attached to a finding.
#[derive(Debug, Clone)]
pub enum MetadataValue {
    Text(String),
    Number(u64),
    Flag(bool),
    TextList(Vec<String>),
    /// A list of records, each a list of text fields.
    Records(Vec<Vec<(String, String)>>),
}

/// One reported problem.
#[derive(Debug, Clone)]
pub struct Finding {
    pub finding_id: String,
    pub baseline_key: String,
    pub rule_id: String,
    pub kind: FindingKind,
    pub severity: Severity,
    pub confidence: Confidence,
    pub message: String,
    pub locations: Vec<FindingLocation>,
    pub language: Option<String>,
    pub framework: Option<String>,
    pub explanation: String,
    pub remediation: String,
    pub detection_reason: String,
    pub autofix: AutofixSafety,
    pub autofix_explanation: String,
    pub fixes: Vec<Fix>,
    pub metadata: Vec<(String, MetadataValue)>,
    pub is_suppressed: bool,
    pub suppression: Option<Suppression>,
}

impl Finding {
    /// A finding blocks CI by default when its severity blocks at its confidence.
    pub fn blocks_by_default(&self) -> (r: bool)
        ensures
            r == self.severity.spec_blocks_by_default(self.confidence),
    {
        self.severity.blocks_by_default(self.confidence)
    }

    /// The first location, if any.
    pub fn primary_location(&self) -> (r: Option<&FindingLocation>)
        ensures
            self.locations@.len() == 0 ==> r is None,
            self.locations@.len() > 0 ==> r == Some(&self.locations@[0]),
    {
        if self.locations.len() == 0 {
            None
        } else {
            Some(&self.locations[0])
        }
    }
}

/// Where a finding applies.
#[derive(Debug, Clone)]
pub struct FindingLocation {
    pub path: String,
    pub span: Option<SourceSpan>,
    pub start: Option<Location>,
    pub language: Option<String>,
}

/// An inline suppression that hid a finding.
#[derive(Debug, Clone)]
pub struct Suppression {
    pub rule_id: String,
    pub path: String,
    pub line: usize,
    pub kind: SuppressionKind,
    pub reason: Option<String>,
    pub warnings: Vec<String>,
}

/// The form of an inline suppression.
#[derive(Debug, Clone, Copy, PartialEq, Eq, Structural)]
pub enum SuppressionKind {
    NextLine,
    Block,
}

/// A byte range `start..end` of a source file.
#[derive(Debug, Clone, Copy, PartialEq, Eq, Structural)]
pub struct SourceSpan {
    pub start: usize,
    pub end: usize,
}

impl SourceSpan {
    /// A span from `start` to `end`; refused when `start` is after `end`.
    pub fn new(start: usize, end: usize) -> (r: Result<SourceSpan, SourceError>)
        ensures
            start <= end ==> r == Ok::<SourceSpan, SourceError>(SourceSpan { start, end }),
            start > end ==> r == Err::<SourceSpan, SourceError>(
                SourceError::InvalidSpan { start, end },
            ),
    {
        if start > end {
            return Err(SourceError::InvalidSpan { start, end });
        }
        Ok(SourceSpan { start, end })
    }

    /// Number of bytes covered.
    pub fn len(self) -> (r: usize)
        requires
            self.start <= self.end,
        ensures
            r == self.end - self.start,
    {
        self.end - self.start
    }

    /// Whether the span covers no bytes.
    pub fn is_empty(self) -> (r: bool)
        ensures
            r == (self.start == self.end),
    {
        self.start == self.end
    }
}

/// A 1-based line and column, with the byte offset they stand for.
#[derive(Debug, Clone, Copy, PartialEq, Eq, Structural)]
pub struct Location {
    pub line: usize,
    pub column: usize,
    pub byte_offset: usize,
}

/// Why a span or offset cannot be used on a source text.
#[derive(Debug, Clone, Copy, PartialEq, Eq, Structural)]
pub enum SourceError {
    InvalidSpan { start: usize, end: usize },
    OffsetOutOfBounds { offset: usize, source_len: usize },
    InvalidUtf8Boundary { offset: usize },
}

/// Line and column reached after reading `chars`: lines and columns start at 1, a
/// newline moves to the first column of the next line, any other character moves one
/// column right.
pub open spec fn text_position(chars: Seq<char>) -> (nat, nat)
    decreases chars.len(),
{
    if chars.len() == 0 {
        (1, 1)
    } else {
        let (line, column) = text_position(chars.drop_last());
        if chars.last() == '\n' {
            (line + 1, 1)
        } else {
            (line, column + 1)
        }
    }
}

pub proof fn lemma_text_position_bound(chars: Seq<char>)
    ensures
        1 <= text_position(chars).0 <= chars.len() + 1,
        1 <= text_position(chars).1 <= chars.len() + 1,
    decreases chars.len(),
{
    if chars.len() > 0 {
        lemma_text_position_bound(chars.drop_last());
    }
}

/// Line and column of the characters `chars`, computed by a loop.
pub fn position_after(chars_src: &str) -> (r: (usize, usize))
    requires
        chars_src@.len() < usize::MAX,
    ensures
        r.0 == text_position(chars_src@).0,
        r.1 == text_position(chars_src@).1,
{
    let mut line: usize = 1;
    let mut column: usize = 1;
    for c in it: chars_src.chars()
        invariant
            it.seq() == chars_src@,
            chars_src@.len() < usize::MAX,
            line == text_position(it.seq().take(it.index() as int)).0,
            column == text_position(it.seq().take(it.index() as int)).1,
    {
        let ghost before = it.seq().take(it.index() as int);
        proof {
            lemma_text_position_bound(before);
        }
        assert(it.seq().take(it.index() + 1).drop_last() =~= before);
        if c == '\n' {
            line = line + 1;
            column = 1;
        } else {
            column = column + 1;
        }
    }
    assert(chars_src@.take(chars_src@.len() as int) =~= chars_src@);
    (line, column)
}

/// Line and column of `byte_offset` in `source`.
///
/// Offsets past the end of the source and offsets inside a multi-byte character are
/// refused.
pub fn line_column_for_offset(source: &str, byte_offset: usize) -> (r: Result<
    Location,
    SourceError,
>)
    requires
        source.spec_bytes().len() < usize::MAX,
    ensures
        byte_offset > source.spec_bytes().len() ==> r == Err::<Location, SourceError>(
            SourceError::OffsetOutOfBounds {
                offset: byte_offset,
                source_len: source.spec_bytes().len() as usize,
            },
        ),
        byte_offset <= source.spec_bytes().len() && !is_char_boundary(
            source.spec_bytes(),
            byte_offset as int,
        ) ==> r == Err::<Location, SourceError>(
            SourceError::InvalidUtf8Boundary { offset: byte_offset },
        ),
        byte_offset <= source.spec_bytes().len() && is_char_boundary(
            source.spec_bytes(),
            byte_offset as int,
        ) ==> (r matches Ok(location) && location.byte_offset == byte_offset
            && location.line == text_position(
            prefix_chars(source.spec_bytes(), byte_offset as int),
        ).0 && location.column == text_position(
            prefix_chars(source.spec_bytes(), byte_offset as int),
        ).1),
{
    str_len_fits(source);
    if byte_offset > source.len() {
        return Err(SourceError::OffsetOutOfBounds { offset: byte_offset, source_len: source.len() });
    }
    if !source.is_char_boundary(byte_offset) {
        return Err(SourceError::InvalidUtf8Boundary { offset: byte_offset });
    }
    let prefix = str_range(source, 0, byte_offset);
    proof {
        lemma_decode_len(source.spec_bytes().subrange(0, byte_offset as int));
    }
    let (line, column) = position_after(prefix);
    Ok(Location { line, column, byte_offset })
}

/// The text covered by `span`.
///
/// Refused when the span ends past the source or when either end falls inside a
/// multi-byte character.
pub fn slice_source<'a>(source: &'a str, span: SourceSpan) -> (r: Result<&'a str, SourceError>)
    requires
        span.start <= span.end,
    ensures
        span.end > source.spec_bytes().len() ==> r == Err::<&str, SourceError>(
            SourceError::OffsetOutOfBounds {
                offset: span.end,
                source_len: source.spec_bytes().len() as usize,
            },
        ),
        span.end <= source.spec_bytes().len() && !is_char_boundary(
            source.spec_bytes(),
            span.start as int,
        ) ==> r == Err::<&str, SourceError>(
            SourceError::InvalidUtf8Boundary { offset: span.start },
        ),
        span.end <= source.spec_bytes().len() && is_char_boundary(
            source.spec_bytes(),
            span.start as int,
        ) && !is_char_boundary(source.spec_bytes(), span.end as int) ==> r == Err::<
            &str,
            SourceError,
        >(SourceError::InvalidUtf8Boundary { offset: span.end }),
        span.end <= source.spec_bytes().len() && is_char_boundary(
            source.spec_bytes(),
            span.start as int,
        ) && is_char_boundary(source.spec_bytes(), span.end as int) ==> (r matches Ok(text)
            && text.spec_bytes() == source.spec_bytes().subrange(
            span.start as int,
            span.end as int,
        )),
{
    str_len_fits(source);
    if span.end > source.len() {
        return Err(SourceError::OffsetOutOfBounds { offset: span.end, source_len: source.len() });
    }
    if !source.is_char_boundary(span.start) {
        return Err(SourceError::InvalidUtf8Boundary { offset: span.start });
    }
    if !source.is_char_boundary(span.end) {
        return Err(SourceError::InvalidUtf8Boundary { offset: span.end });
    }
    Ok(str_range(source, span.start, span.end))
}

/// Which findings a scan covers.
#[derive(Debug, Clone, Copy, PartialEq, Eq, Structural)]
pub enum ScanMode {
    All,
    DuplicatesOnly,
}

/// A request to scan a directory.
#[derive(Debug, Clone)]
pub struct ScanRequest {
    pub root: String,
    pub mode: ScanMode,
    pub filters: FindingFilters,
}

/// Filters that decide which findings are shown.
#[derive(Debug, Clone)]
pub struct FindingFilters {
    pub min_severity: Option<Severity>,
    pub only_severity: Option<Severity>,
    pub min_confidence: Option<Confidence>,
    pub languages: Vec<String>,
    pub frameworks: Vec<String>,
}

/// ASCII case-insensitive equality of two texts.
pub open spec fn eq_ignore_case(a: Seq<char>, b: Seq<char>) -> bool {
    spec_lower(a) == spec_lower(b)
}

/// Some entry of `candidates` equals `value` up to ASCII case.
pub open spec fn any_eq_ignore_case(candidates: Seq<String>, value: Seq<char>) -> bool {
    exists|i: int| 0 <= i < candidates.len() && eq_ignore_case(#[trigger] candidates[i]@, value)
}

/// The finding's language, or else the language of one of its locations, is listed.
pub open spec fn language_matches(languages: Seq<String>, finding: &Finding) -> bool {
    match finding.language {
        Some(language) => any_eq_ignore_case(languages, language@),
        None => exists|i: int|
            0 <= i < finding.locations@.len() && location_language_listed(
                languages,
                #[trigger] finding.locations@[i],
            ),
    }
}

/// The location's language is listed in `languages`, up to ASCII case.
pub open spec fn location_language_listed(languages: Seq<String>, location: FindingLocation) -> bool {
    match location.language {
        Some(language) => any_eq_ignore_case(languages, language@),
        None => false,
    }
}

/// `str::eq_ignore_ascii_case`.
pub fn str_eq_ignore_case(a: &str, b: &str) -> (r: bool)
    ensures
        r == eq_ignore_case(a@, b@),
{
    let la = lower_chars(&chars_of(a));
    let lb = lower_chars(&chars_of(b));
    chars_eq(&la, &lb)
}

/// Whether some candidate equals `value` up to ASCII case.
pub fn contains_ignore_case(candidates: &Vec<String>, value: &str) -> (r: bool)
    ensures
        r == any_eq_ignore_case(candidates@, value@),
{
    for i in 0..candidates.len()
        invariant
            forall|j: int| 0 <= j < i ==> !eq_ignore_case(#[trigger] candidates@[j]@, value@),
    {
        if str_eq_ignore_case(candidates[i].as_str(), value) {
            return true;
        }
    }
    false
}

impl FindingFilters {
    pub open spec fn spec_allows(&self, finding: &Finding) -> bool {
        &&& (self.min_severity matches Some(minimum) ==> finding.severity.spec_rank()
            >= minimum.spec_rank())
        &&& (self.only_severity matches Some(only) ==> finding.severity == only)
        &&& (self.min_confidence matches Some(minimum) ==> finding.confidence.spec_rank()
            >= minimum.spec_rank())
        &&& (self.languages@.len() > 0 ==> language_matches(self.languages@, finding))
        &&& (self.frameworks@.len() > 0 ==> (finding.framework matches Some(framework)
            ==> any_eq_ignore_case(self.frameworks@, framework@)))
    }

    /// Whether `finding` passes every filter that is set.
    pub fn allows(&self, finding: &Finding) -> (r: bool)
        ensures
            r == self.spec_allows(finding),
    {
        if let Some(minimum) = self.min_severity {
            if !finding.severity.at_least(minimum) {
                return false;
            }
        }
        if let Some(only) = self.only_severity {
            if finding.severity != only {
                return false;
            }
        }
        if let Some(minimum) = self.min_confidence {
            if !finding.confidence.at_least(minimum) {
                return false;
            }
        }
        if self.languages.len() > 0 && !finding_matches_language(finding, &self.languages) {
            return false;
        }
        if self.frameworks.len() > 0 {
            if let Some(framework) = &finding.framework {
                return contains_ignore_case(&self.frameworks, framework.as_str());
            }
        }
        true
    }
}

fn finding_matches_language(finding: &Finding, languages: &Vec<String>) -> (r: bool)
    ensures
        r == language_matches(languages@, finding),
{
    if let Some(language) = &finding.language {
        return contains_ignore_case(languages, language.as_str());
    }
    for i in 0..finding.locations.len()
        invariant
            finding.language is None,
            forall|j: int|
                0 <= j < i ==> !location_language_listed(
                    languages@,
                    #[trigger] finding.locations@[j],
                ),
    {
        if let Some(language) = &finding.locations[i].language {
            if contains_ignore_case(languages, language.as_str()) {
                return true;
            }
        }
    }
    false
}

/// Whether a baseline was consulted.
#[derive(Debug, Clone, Copy, PartialEq, Eq, Structural)]
pub enum BaselineStatus {
    NotChecked,
    Missing,
    Compared,
}

/// Counts of a comparison against a baseline.
#[derive(Debug, Clone)]
pub struct BaselineSummary {
    pub status: BaselineStatus,
    pub path: Option<String>,
    pub new_findings: Option<usize>,
    pub existing_findings: Option<usize>,
    pub changed_findings: Option<usize>,
    pub fixed_findings: Option<usize>,
}

impl BaselineSummary {
    /// No baseline was checked.
    pub fn not_checked() -> (r: BaselineSummary)
        ensures
            r.status == BaselineStatus::NotChecked,
            r.path is None,
            r.new_findings is None,
            r.existing_findings is None,
            r.changed_findings is None,
            r.fixed_findings is None,
    {
        BaselineSummary {
            status: BaselineStatus::NotChecked,
            path: None,
            new_findings: None,
            existing_findings: None,
            changed_findings: None,
            fixed_findings: None,
        }
    }
}

impl Default for BaselineSummary {
    fn default() -> (r: BaselineSummary)
        ensures
            r.status == BaselineStatus::NotChecked,
            r.path is None,
            r.new_findings is None,
            r.existing_findings is None,
            r.changed_findings is None,
            r.fixed_findings is None,
    {
        BaselineSummary::not_checked()
    }
}

/// Score of one category: `None` when scoring is disabled.
#[derive(Debug, Clone, Copy, PartialEq, Eq, Structural)]
pub struct ScoreCategoryScore {
    pub score: Option<u8>,
    pub penalty: u8,
    pub findings: usize,
}

impl ScoreCategoryScore {
    /// A category with nothing to report.
    pub fn clean() -> (r: ScoreCategoryScore)
        ensures
            r == (ScoreCategoryScore { score: Some(100), penalty: 0, findings: 0 }),
    {
        ScoreCategoryScore { score: Some(100), penalty: 0, findings: 0 }
    }

    /// A category of a disabled score.
    pub fn disabled() -> (r: ScoreCategoryScore)
        ensures
            r == (ScoreCategoryScore { score: None, penalty: 0, findings: 0 }),
    {
        ScoreCategoryScore { score: None, penalty: 0, findings: 0 }
    }
}

/// Scores per category.
#[derive(Debug, Clone, Copy, PartialEq, Eq, Structural)]
pub struct ScoreCategories {
    pub duplication: ScoreCategoryScore,
    pub complexity: ScoreCategoryScore,
    pub style: ScoreCategoryScore,
    pub react: ScoreCategoryScore,
    pub fastapi: ScoreCategoryScore,
    pub rust_idiom: ScoreCategoryScore,
    pub maintainability: ScoreCategoryScore,
    pub ci_risk: ScoreCategoryScore,
}

impl ScoreCategories {
    pub open spec fn all(self, score: ScoreCategoryScore) -> bool {
        &&& self.duplication == score
        &&& self.complexity == score
        &&& self.style == score
        &&& self.react == score
        &&& self.fastapi == score
        &&& self.rust_idiom == score
        &&& self.maintainability == score
        &&& self.ci_risk == score
    }

    /// Every category clean.
    pub fn clean() -> (r: ScoreCategories)
        ensures
            r.all(ScoreCategoryScore { score: Some(100), penalty: 0, findings: 0 }),
    {
        let c = ScoreCategoryScore::clean();
        ScoreCategories {
            duplication: c,
            complexity: c,
            style: c,
            react: c,
            fastapi: c,
            rust_idiom: c,
            maintainability: c,
            ci_risk: c,
        }
    }

    /// Every category disabled.
    pub fn disabled() -> (r: ScoreCategories)
        ensures
            r.all(ScoreCategoryScore { score: None, penalty: 0, findings: 0 }),
    {
        let c = ScoreCategoryScore::disabled();
        ScoreCategories {
            duplication: c,
            complexity: c,
            style: c,
            react: c,
            fastapi: c,
            rust_idiom: c,
            maintainability: c,
            ci_risk: c,
        }
    }
}

/// One of the largest penalty groups of a score.
#[derive(Debug, Clone)]
pub struct ScoreContributor {
    pub rule_id: String,
    pub message: String,
    pub category: String,
    pub penalty: u8,
    pub occurrences: usize,
    pub locations: Vec<String>,
}

/// Parameters of the score model.
#[derive(Debug, Clone)]
pub struct ScoreModel {
    pub version: String,
    pub base_score: u8,
    pub repeated_group_cap_multiplier: u8,
    pub generated_multiplier_percent: u8,
    pub test_fixture_multiplier_percent: u8,
}

impl ScoreModel {
    pub open spec fn is_v1(self) -> bool {
        &&& self.version@ == "v1"@
        &&& self.base_score == 100
        &&& self.repeated_group_cap_multiplier == 3
        &&& self.generated_multiplier_percent == 25
        &&& self.test_fixture_multiplier_percent == 50
    }
}

impl Default for ScoreModel {
    fn default() -> (r: ScoreModel)
        ensures
            r.is_v1(),
    {
        ScoreModel {
            version: String::from_str("v1"),
            base_score: 100,
            repeated_group_cap_multiplier: 3,
            generated_multiplier_percent: 25,
            test_fixture_multiplier_percent: 50,
        }
    }
}

/// The health score of a scan.
#[derive(Debug, Clone)]
pub struct ScoreReport {
    pub enabled: bool,
    pub overall: Option<u8>,
    pub categories: ScoreCategories,
    pub top_contributors: Vec<ScoreContributor>,
    pub model: ScoreModel,
}

impl ScoreReport {
    /// An enabled score with no penalties: 100 overall and in every category.
    pub fn enabled_clean() -> (r: ScoreReport)
        ensures
            r.enabled,
            r.overall == Some(100u8),
            r.categories.all(ScoreCategoryScore { score: Some(100), penalty: 0, findings: 0 }),
            r.top_contributors@.len() == 0,
            r.model.is_v1(),
    {
        ScoreReport {
            enabled: true,
            overall: Some(100),
            categories: ScoreCategories::clean(),
            top_contributors: Vec::new(),
            model: ScoreModel::default(),
        }
    }

    /// A disabled score: no overall value and no category values.
    pub fn disabled() -> (r: ScoreReport)
        ensures
            !r.enabled,
            r.overall is None,
            r.categories.all(ScoreCategoryScore { score: None, penalty: 0, findings: 0 }),
            r.top_contributors@.len() == 0,
            r.model.is_v1(),
    {
        ScoreReport {
            enabled: false,
            overall: None,
            categories: ScoreCategories::disabled(),
            top_contributors: Vec::new(),
            model: ScoreModel::default(),
        }
    }
}

/// Size of one definition in the summary.
#[derive(Debug, Clone)]
pub struct DefinitionMetric {
    pub name: String,
    pub path: String,
    pub line: usize,
    pub lines: usize,
    pub language: String,
}

/// Duplicate findings of one module.
#[derive(Debug, Clone)]
pub struct ModuleDuplicateMetric {
    pub path: String,
    pub duplicate_findings: usize,
    pub duplicate_lines: usize,
}

/// Complexity of one definition.
#[derive(Debug, Clone)]
pub struct ComplexityMetric {
    pub name: String,
    pub path: String,
    pub line: usize,
    pub score: usize,
    pub lines: usize,
    pub language: String,
}

/// How often a rule was suppressed.
#[derive(Debug, Clone)]
pub struct SuppressedRuleMetric {
    pub rule_id: String,
    pub count: usize,
}

/// Summary metrics of a scan.
#[derive(Debug, Clone)]
pub struct SummaryMetrics {
    pub lines_scanned: usize,
    pub duplicate_groups: usize,
    pub duplicate_lines: usize,
    pub largest_functions: Vec<DefinitionMetric>,
    pub largest_react_components: Vec<DefinitionMetric>,
    pub most_duplicated_modules: Vec<ModuleDuplicateMetric>,
    pub most_complex_functions: Vec<ComplexityMetric>,
    pub most_suppressed_rules: Vec<SuppressedRuleMetric>,
    pub baseline: BaselineSummary,
}

impl SummaryMetrics {
    /// Metrics of a scan that has measured nothing yet.
    pub fn empty() -> (r: SummaryMetrics)
        ensures
            r.lines_scanned == 0,
            r.duplicate_groups == 0,
            r.duplicate_lines == 0,
            r.largest_functions@.len() == 0,
            r.largest_react_components@.len() == 0,
            r.most_duplicated_modules@.len() == 0,
            r.most_complex_functions@.len() == 0,
            r.most_suppressed_rules@.len() == 0,
            r.baseline.status == BaselineStatus::NotChecked,
            r.baseline.path is None,
            r.baseline.new_findings is None,
            r.baseline.existing_findings is None,
            r.baseline.changed_findings is None,
            r.baseline.fixed_findings is None,
    {
        SummaryMetrics {
            lines_scanned: 0,
            duplicate_groups: 0,
            duplicate_lines: 0,
            largest_functions: Vec::new(),
            largest_react_components: Vec::new(),
            most_duplicated_modules: Vec::new(),
            most_complex_functions: Vec::new(),
            most_suppressed_rules: Vec::new(),
            baseline: BaselineSummary::not_checked(),
        }
    }
}

/// Counters of a scan.
#[derive(Debug, Clone, Copy, PartialEq, Eq, Structural, Default)]
pub struct ScanStats {
    pub files_scanned: usize,
    pub files_discovered: usize,
    pub files_skipped: usize,
    pub config_files: usize,
    pub files_parsed: usize,
    pub parse_errors: usize,
    pub definitions_indexed: usize,
    pub imports_indexed: usize,
    pub suppressed_findings: usize,
}

/// Options of the score model for one scan.
#[derive(Debug, Clone)]
pub struct ScoreOptions {
    pub enabled: bool,
    /// Paths of generated files, whose findings weigh less.
    pub generated_paths: Vec<String>,
    /// Baseline keys of findings that are new against the baseline.
    pub baseline_new_keys: Vec<String>,
}

impl Default for ScoreOptions {
    fn default() -> (r: ScoreOptions)
        ensures
            r.enabled,
            r.generated_paths@.len() == 0,
            r.baseline_new_keys@.len() == 0,
    {
        ScoreOptions { enabled: true, generated_paths: Vec::new(), baseline_new_keys: Vec::new() }
    }
}

/// A scan's findings, statistics and score.
#[derive(Debug, Clone)]
pub struct ScanResult {
    pub schema_version: u32,
    pub root: String,
    pub score: ScoreReport,
    pub stats: ScanStats,
    pub summary: SummaryMetrics,
    pub findings: Vec<Finding>,
}

impl ScanResult {
    /// Whether any finding blocks CI by default.
    pub fn has_blocking_findings(&self) -> (r: bool)
        ensures
            r == exists|i: int|
                0 <= i < self.findings@.len() && (#[trigger] self.findings@[i]).severity.spec_blocks_by_default(
                    self.findings@[i].confidence,
                ),
    {
        for i in 0..self.findings.len()
            invariant
                forall|j: int|
                    0 <= j < i ==> !(#[trigger] self.findings@[j]).severity.spec_blocks_by_default(
                        self.findings@[j].confidence,
                    ),
        {
            if self.findings[i].blocks_by_default() {
                return true;
            }
        }
        false
    }
}

/// A name that is not one of an enum's values.
#[derive(Debug, Clone)]
pub struct ParseEnumError {
    pub enum_name: &'static str,
    pub value: String,
}

} // verus!
