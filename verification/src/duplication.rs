//! Duplicate detection on whole files: each file is fingerprinted by a hash of its
//! whitespace-normalised text, files are grouped by that hash, and every group of two
//! or more files becomes one finding. Also the detector options and their defaults.
use vstd::prelude::*;
use vstd::string::StringSliceAdditionalSpecFns;
use vstd::utf8::encode_utf8;

use crate::findings::{
    AutofixSafety, Confidence, Finding, FindingKind, FindingLocation, Location, MetadataValue,
    Severity, SourceSpan,
};
use crate::grouping::{group_by_key, key_groups_valid, key_views, keys_sorted, KeyGroup};
use crate::hashing::{sha256_hex, spec_hex, spec_sha256, spec_xxh3_64, xxh3_64};
use crate::normalize::{
    first_relevant_location, line_count, normalize_source, spec_first_relevant_location,
    spec_lines, spec_normalize,
};
use crate::paths::{lemma_path_le_total_preorder, path_le, path_le_exec};
use crate::sorting::{chars_le, ordered_by, sort_by_order, total_preorder};
use crate::text::{chars_of, decimal, join_chars, spec_decimal, spec_join, string_from_chars, views};
use crate::utf8_facts::str_len_fits;

verus! {

broadcast use {
    vstd::seq_lib::group_to_multiset_ensures,
    vstd::seq_lib::to_multiset_contains,
};

pub const EXACT_FILE_RULE: &'static str = "duplicate.exact.file";
pub const EXACT_BODY_RULE: &'static str = "duplicate.exact.body";
pub const STRUCTURAL_FUNCTION_RULE: &'static str = "duplicate.structural.function";
pub const NEAR_FUNCTION_RULE: &'static str = "duplicate.near.function";
pub const SEMANTIC_FUNCTION_RULE: &'static str = "duplicate.semantic.function";
pub const SEMANTIC_VECTOR_CANDIDATE_RULE: &'static str = "duplicate.semantic.vector_candidate";

/// A file to check for duplicates, with the language it was detected as.
#[derive(Debug, Clone)]
pub struct DuplicateInput {
    pub path: String,
    pub language: String,
}

/// Hashes of a normalised text and its length in bytes.
#[derive(Debug, Clone, PartialEq, Eq)]
pub struct BodyFingerprint {
    pub fast_hash: u64,
    pub stable_hash_hex: String,
    pub normalized_len: usize,
}

/// Why duplicate detection failed.
#[derive(Debug, Clone)]
pub enum DuplicateError {
    Read { path: String, message: String },
}

/// An embedding provider that produces no vectors, so no vector candidates.
#[derive(Debug, Clone, Copy, Default)]
pub struct NoopEmbeddingProvider;

/// Thresholds for exact duplicate bodies.
#[derive(Debug, Clone, Copy, PartialEq, Eq, Structural)]
pub struct ExactBodyOptions {
    pub min_lines: usize,
    pub min_tokens: usize,
}

impl Default for ExactBodyOptions {
    fn default() -> (r: ExactBodyOptions)
        ensures
            r == (ExactBodyOptions { min_lines: 5, min_tokens: 40 }),
    {
        ExactBodyOptions { min_lines: 5, min_tokens: 40 }
    }
}

/// Thresholds for structural duplicates.
#[derive(Debug, Clone, Copy, PartialEq, Eq, Structural)]
pub struct StructuralOptions {
    pub min_lines: usize,
    pub min_tokens: usize,
    pub min_nodes: usize,
    pub max_opaque_percent: u8,
    pub normalize_literals: bool,
}

impl Default for StructuralOptions {
    fn default() -> (r: StructuralOptions)
        ensures
            r == (StructuralOptions {
                min_lines: 1,
                min_tokens: 5,
                min_nodes: 5,
                max_opaque_percent: 25,
                normalize_literals: false,
            }),
    {
        StructuralOptions {
            min_lines: 1,
            min_tokens: 5,
            min_nodes: 5,
            max_opaque_percent: 25,
            normalize_literals: false,
        }
    }
}

/// Thresholds and hashing parameters for near duplicates.
#[derive(Debug, Clone, Copy, PartialEq, Eq, Structural)]
pub struct NearDuplicateOptions {
    pub min_lines: usize,
    pub min_tokens: usize,
    pub similarity_threshold: u8,
    pub hash_functions: usize,
    pub lsh_bands: usize,
    pub lsh_rows: usize,
    pub common_shingle_max_percent: u8,
    pub common_shingle_min_occurrences: usize,
    pub max_bucket_size: usize,
    pub max_candidate_pairs: usize,
}

impl Default for NearDuplicateOptions {
    fn default() -> (r: NearDuplicateOptions)
        ensures
            r == (NearDuplicateOptions {
                min_lines: 5,
                min_tokens: 40,
                similarity_threshold: 82,
                hash_functions: 96,
                lsh_bands: 24,
                lsh_rows: 4,
                common_shingle_max_percent: 5,
                common_shingle_min_occurrences: 20,
                max_bucket_size: 200,
                max_candidate_pairs: 250_000,
            }),
    {
        NearDuplicateOptions {
            min_lines: 5,
            min_tokens: 40,
            similarity_threshold: 82,
            hash_functions: 96,
            lsh_bands: 24,
            lsh_rows: 4,
            common_shingle_max_percent: 5,
            common_shingle_min_occurrences: 20,
            max_bucket_size: 200,
            max_candidate_pairs: 250_000,
        }
    }
}

/// Thresholds and normalisations for semantic duplicates.
#[derive(Debug, Clone, Copy, PartialEq, Eq, Structural)]
pub struct SemanticDuplicateOptions {
    pub min_lines: usize,
    pub min_tokens: usize,
    pub min_confidence: Confidence,
    pub property_reads_are_pure: bool,
    pub normalize_boolean_returns: bool,
    pub normalize_commutative_ops: bool,
    pub normalize_comparisons: bool,
}

impl Default for SemanticDuplicateOptions {
    fn default() -> (r: SemanticDuplicateOptions)
        ensures
            r == (SemanticDuplicateOptions {
                min_lines: 1,
                min_tokens: 5,
                min_confidence: Confidence::Medium,
                property_reads_are_pure: false,
                normalize_boolean_returns: true,
                normalize_commutative_ops: true,
                normalize_comparisons: true,
            }),
    {
        SemanticDuplicateOptions {
            min_lines: 1,
            min_tokens: 5,
            min_confidence: Confidence::Medium,
            property_reads_are_pure: false,
            normalize_boolean_returns: true,
            normalize_commutative_ops: true,
            normalize_comparisons: true,
        }
    }
}

/// Thresholds, provider and cache settings for vector candidates.
#[derive(Debug, Clone)]
pub struct VectorCandidateOptions {
    pub min_lines: usize,
    pub min_tokens: usize,
    pub similarity_threshold: u8,
    pub candidate_limit: usize,
    pub provider_id: String,
    pub privacy_mode: String,
    pub cache_enabled: bool,
    pub cache_dir: String,
    pub skip_generated_paths: Vec<String>,
}

impl Default for VectorCandidateOptions {
    fn default() -> (r: VectorCandidateOptions)
        ensures
            r.min_lines == 1,
            r.min_tokens == 5,
            r.similarity_threshold == 80,
            r.candidate_limit == 100,
            r.provider_id@ == "none"@,
            r.privacy_mode@ == "disabled"@,
            !r.cache_enabled,
            r.cache_dir@ == ".codehealth/cache"@,
            r.skip_generated_paths@.len() == 0,
    {
        VectorCandidateOptions {
            min_lines: 1,
            min_tokens: 5,
            similarity_threshold: 80,
            candidate_limit: 100,
            provider_id: String::from_str("none"),
            privacy_mode: String::from_str("disabled"),
            cache_enabled: false,
            cache_dir: String::from_str(".codehealth/cache"),
            skip_generated_paths: Vec::new(),
        }
    }
}

/// The text a function's embedding is computed from, with its parts.
#[derive(Debug, Clone)]
pub struct FunctionEmbeddingSummary {
    pub version: String,
    pub language: String,
    pub kind: String,
    pub name: String,
    pub qualified_name: String,
    pub signature: String,
    pub ast_summary: String,
    pub calls: Vec<String>,
    pub reads: Vec<String>,
    pub writes: Vec<String>,
    pub return_shape: String,
    pub framework_tags: Vec<String>,
    pub comment_context: Option<String>,
    pub input: String,
    pub stable_hash_hex: String,
}

/// The fingerprint of an already normalised text: its XXH3 hash, its SHA-256 in hex and
/// its byte length.
pub open spec fn fingerprint_matches(fp: BodyFingerprint, bytes: Seq<u8>) -> bool {
    &&& fp.fast_hash == spec_xxh3_64(bytes)
    &&& fp.stable_hash_hex@ == spec_hex(spec_sha256(bytes))
    &&& fp.normalized_len == bytes.len()
}

/// Fingerprints a text that is already normalised.
pub fn fingerprint_normalized_text(normalized: &str) -> (r: BodyFingerprint)
    ensures
        fingerprint_matches(r, normalized.spec_bytes()),
{
    let bytes = normalized.as_bytes();
    BodyFingerprint {
        fast_hash: xxh3_64(bytes),
        stable_hash_hex: sha256_hex(normalized),
        normalized_len: bytes.len(),
    }
}

/// Fingerprints a source text after collapsing its whitespace, so texts that differ
/// only in whitespace get the same fingerprint.
pub fn fingerprint_normalized_body(source: &str) -> (r: BodyFingerprint)
    ensures
        fingerprint_matches(r, encode_utf8(spec_normalize(source@))),
{
    let normalized = normalize_source(source);
    fingerprint_normalized_text(normalized.as_str())
}

/// The text `rule` stands for.
pub open spec fn exact_file_rule() -> Seq<char> {
    EXACT_FILE_RULE@
}

/// The key a file is grouped by: the SHA-256 hex of its whitespace-normalised text.
pub open spec fn source_key(source: Seq<char>) -> Seq<char> {
    spec_hex(spec_sha256(encode_utf8(spec_normalize(source))))
}

/// A file whose normalised text is not empty; empty files are never duplicates.
pub open spec fn has_content(source: Seq<char>) -> bool {
    encode_utf8(spec_normalize(source)).len() > 0
}

/// The number of lines of a file, at least one.
pub open spec fn file_line_count(source: Seq<char>) -> nat {
    if spec_lines(source).len() == 0 {
        1
    } else {
        spec_lines(source).len()
    }
}

/// The largest line count among the files of a group.
pub open spec fn max_line_count(group: Seq<usize>, sources: Seq<String>) -> nat
    decreases group.len(),
{
    if group.len() == 0 {
        0
    } else {
        let earlier = max_line_count(group.drop_last(), sources);
        let here = file_line_count(sources[group.last() as int]@);
        if here > earlier {
            here
        } else {
            earlier
        }
    }
}

/// The paths of the files of a group, in order.
pub open spec fn group_paths(group: Seq<usize>, inputs: Seq<DuplicateInput>) -> Seq<Seq<char>> {
    group.map_values(|x: usize| inputs[x as int].path@)
}

/// The language every file of the group shares, if they share one.
pub open spec fn shared_language(group: Seq<usize>, inputs: Seq<DuplicateInput>) -> Option<Seq<char>> {
    if group.len() > 0 && forall|l: int|
        0 <= l < group.len() ==> inputs[#[trigger] group[l] as int].language@ == inputs[group[0] as int].language@ {
        Some(inputs[group[0] as int].language@)
    } else {
        None
    }
}

/// The location reported for one file of a group: the whole file, starting at its
/// first relevant line.
pub open spec fn exact_file_location(loc: FindingLocation, x: usize, inputs: Seq<DuplicateInput>, sources: Seq<String>) -> bool {
    &&& loc.path@ == inputs[x as int].path@
    &&& loc.span == Some(SourceSpan { start: 0, end: encode_utf8(sources[x as int]@).len() as usize })
    &&& loc.start == Some(spec_first_relevant_location(sources[x as int]@))
    &&& match loc.language {
        Some(l) => l@ == inputs[x as int].language@,
        None => false,
    }
}

/// The stable key of an exact-file finding: the SHA-256 hex of the rule, the content
/// hash and the paths, joined by `|`.
pub open spec fn exact_file_baseline_key(group: Seq<usize>, inputs: Seq<DuplicateInput>, key: Seq<char>) -> Seq<char> {
    spec_hex(
        spec_sha256(
            encode_utf8(
                exact_file_rule() + seq!['|'] + key + seq!['|'] + spec_join(group_paths(group, inputs), seq!['|']),
            ),
        ),
    )
}

/// `fd` is the finding for the group of identical files `group`.
pub open spec fn describes_exact_files(
    fd: Finding,
    group: Seq<usize>,
    inputs: Seq<DuplicateInput>,
    sources: Seq<String>,
) -> bool {
    let key = source_key(sources[group[0] as int]@);
    &&& fd.rule_id@ == exact_file_rule()
    &&& fd.kind == FindingKind::ExactDuplicate
    &&& fd.severity == Severity::High
    &&& fd.confidence == Confidence::Certain
    &&& fd.autofix == AutofixSafety::SuggestionOnly
    &&& fd.baseline_key@ == exact_file_baseline_key(group, inputs, key)
    &&& fd.finding_id@ == exact_file_rule() + seq![':'] + fd.baseline_key@.take(12)
    &&& fd.message@ == spec_decimal(group.len()) + " files have identical normalized contents."@
    &&& fd.locations@.len() == group.len()
    &&& forall|l: int| 0 <= l < group.len() ==> exact_file_location(#[trigger] fd.locations@[l], group[l], inputs, sources)
    &&& match fd.language {
        Some(lang) => shared_language(group, inputs) == Some(lang@),
        None => shared_language(group, inputs) is None,
    }
    &&& fd.framework is None
    &&& fd.fixes@.len() == 0
    &&& !fd.is_suppressed
    &&& fd.suppression is None
    &&& fd.explanation@ == "These files have the same contents after whitespace normalization."@
    &&& fd.remediation@ == "Remove one copy, consolidate shared logic, or document why the duplicate file is intentional."@
    &&& fd.detection_reason@ == "The detector grouped files by a stable hash of their whitespace-normalized contents."@
    &&& fd.autofix_explanation@ == "Exact duplicate files are not auto-fixed because choosing which file to keep can change imports, ownership, and public APIs."@
    &&& fd.metadata@.len() == 3
    &&& fd.metadata@[0].0@ == "file_count"@
    &&& fd.metadata@[0].1 == MetadataValue::Number(group.len() as u64)
    &&& fd.metadata@[1].0@ == "line_count"@
    &&& fd.metadata@[1].1 == MetadataValue::Number(max_line_count(group, sources) as u64)
    &&& fd.metadata@[2].0@ == "normalized_file_hash"@
    &&& match fd.metadata@[2].1 {
        MetadataValue::Text(t) => t@ == key,
        _ => false,
    }
}

/// What is known of one file before grouping.
struct FileFingerprint {
    index: usize,
    path: String,
    language: String,
    source_len: usize,
    line_count: usize,
    first_relevant_location: Location,
    hash: String,
}

spec fn fingerprint_valid(fp: FileFingerprint, inputs: Seq<DuplicateInput>, sources: Seq<String>) -> bool {
    let x = fp.index as int;
    &&& 0 <= x < inputs.len()
    &&& x < sources.len()
    &&& fp.path@ == inputs[x].path@
    &&& fp.language@ == inputs[x].language@
    &&& fp.source_len == encode_utf8(sources[x]@).len()
    &&& fp.line_count == file_line_count(sources[x]@)
    &&& fp.first_relevant_location == spec_first_relevant_location(sources[x]@)
    &&& fp.hash@ == source_key(sources[x]@)
}

fn clone_fingerprint(fp: &FileFingerprint) -> (r: FileFingerprint)
    ensures
        r == *fp,
{
    FileFingerprint {
        index: fp.index,
        path: fp.path.clone(),
        language: fp.language.clone(),
        source_len: fp.source_len,
        line_count: fp.line_count,
        first_relevant_location: fp.first_relevant_location,
        hash: fp.hash.clone(),
    }
}

fn str_eq(a: &str, b: &str) -> (r: bool)
    ensures
        r == (a@ == b@),
{
    crate::text::chars_eq(chars_of(a).as_slice(), chars_of(b).as_slice())
}

/// Builds the finding for a group of files with identical normalised contents.
fn build_exact_file_finding(
    files: &Vec<FileFingerprint>,
    Ghost(group): Ghost<Seq<usize>>,
    Ghost(inputs): Ghost<Seq<DuplicateInput>>,
    Ghost(sources): Ghost<Seq<String>>,
) -> (r: Finding)
    requires
        files@.len() > 0,
        files@.len() == group.len(),
        forall|l: int| 0 <= l < group.len() ==> (#[trigger] files@[l]).index == group[l],
        forall|l: int| 0 <= l < group.len() ==> fingerprint_valid(#[trigger] files@[l], inputs, sources),
        forall|l: int| 0 <= l < group.len() ==> (#[trigger] files@[l]).hash@ == files@[0].hash@,
    ensures
        describes_exact_files(r, group, inputs, sources),
{
    let stable_hash = &files[0].hash;
    let mut parts: Vec<Vec<char>> = Vec::new();
    let mut locations: Vec<FindingLocation> = Vec::new();
    let mut lines: usize = 0;
    let mut same_language = true;
    for l in 0..files.len()
        invariant
            files@.len() == group.len(),
            forall|j: int| 0 <= j < group.len() ==> (#[trigger] files@[j]).index == group[j],
            forall|j: int| 0 <= j < group.len() ==> fingerprint_valid(#[trigger] files@[j], inputs, sources),
            views(parts@) == group_paths(group.take(l as int), inputs),
            locations@.len() == l,
            forall|j: int| 0 <= j < l ==> exact_file_location(#[trigger] locations@[j], group[j], inputs, sources),
            lines == max_line_count(group.take(l as int), sources),
            same_language == (forall|j: int| 0 <= j < l ==> inputs[#[trigger] group[j] as int].language@ == inputs[group[0] as int].language@),
    {
        let file = &files[l];
        let ghost x = group[l as int];
        assert(fingerprint_valid(files@[l as int], inputs, sources));
        assert(group.take(l + 1).drop_last() =~= group.take(l as int));
        let ghost old_parts = parts@;
        let path_chars = chars_of(file.path.as_str());
        parts.push(path_chars);
        assert(files@[l as int].index == group[l as int]);
        assert(file.path@ == inputs[group[l as int] as int].path@);
        assert(views(parts@) =~= views(old_parts).push(file.path@));
        assert(group_paths(group.take(l + 1), inputs) =~= group_paths(group.take(l as int), inputs).push(
            file.path@,
        ));
        assert(views(parts@) =~= group_paths(group.take(l + 1), inputs));
        locations.push(
            FindingLocation {
                path: file.path.clone(),
                span: Some(SourceSpan { start: 0, end: file.source_len }),
                start: Some(file.first_relevant_location),
                language: Some(file.language.clone()),
            },
        );
        if file.line_count > lines {
            lines = file.line_count;
        }
        if !str_eq(file.language.as_str(), files[0].language.as_str()) {
            same_language = false;
        }
        assert(files@[0].index == group[0]);
    }
    assert(group.take(group.len() as int) =~= group);
    let ghost key = stable_hash@;
    assert(key == source_key(sources[group[0] as int]@));
    let sep: Vec<char> = vec!['|'];
    assert(sep@ =~= seq!['|']);
    let path_fingerprint = join_chars(&parts, sep.as_slice());
    let mut raw = String::from_str(EXACT_FILE_RULE);
    raw.append("|");
    raw.append(stable_hash.as_str());
    raw.append("|");
    let pf = string_from_chars(path_fingerprint.as_slice());
    raw.append(pf.as_str());
    proof {
        reveal_strlit("|");
        assert(raw@ =~= exact_file_rule() + seq!['|'] + key + seq!['|'] + spec_join(group_paths(group, inputs), seq!['|']));
    }
    let baseline_key = sha256_hex(raw.as_str());
    let key_chars = chars_of(baseline_key.as_str());
    let prefix = string_from_chars(crate::text::slice_chars(key_chars.as_slice(), 0, 12).as_slice());
    let mut finding_id = String::from_str(EXACT_FILE_RULE);
    finding_id.append(":");
    finding_id.append(prefix.as_str());
    proof {
        reveal_strlit(":");
        assert(finding_id@ =~= exact_file_rule() + seq![':'] + baseline_key@.take(12));
    }
    let mut message = decimal(files.len());
    message.append(" files have identical normalized contents.");
    let language = if same_language {
        Some(files[0].language.clone())
    } else {
        None
    };
    let mut metadata: Vec<(String, MetadataValue)> = Vec::new();
    metadata.push((String::from_str("file_count"), MetadataValue::Number(files.len() as u64)));
    metadata.push((String::from_str("line_count"), MetadataValue::Number(lines as u64)));
    metadata.push((String::from_str("normalized_file_hash"), MetadataValue::Text(stable_hash.clone())));
    Finding {
        finding_id,
        baseline_key,
        rule_id: String::from_str(EXACT_FILE_RULE),
        kind: FindingKind::ExactDuplicate,
        severity: Severity::High,
        confidence: Confidence::Certain,
        message,
        locations,
        language,
        framework: None,
        explanation: String::from_str("These files have the same contents after whitespace normalization."),
        remediation: String::from_str("Remove one copy, consolidate shared logic, or document why the duplicate file is intentional."),
        detection_reason: String::from_str("The detector grouped files by a stable hash of their whitespace-normalized contents."),
        autofix: AutofixSafety::SuggestionOnly,
        autofix_explanation: String::from_str("Exact duplicate files are not auto-fixed because choosing which file to keep can change imports, ownership, and public APIs."),
        fixes: Vec::new(),
        metadata,
        is_suppressed: false,
        suppression: None,
    }
}

/// `groups` lists every set of two or more files with the same non-empty normalised
/// contents: each group holds distinct files that share a content key, every two such
/// files share a group, groups come in increasing key order, and the files of a group
/// are in path order.
pub open spec fn exact_file_grouping(groups: Seq<Seq<usize>>, inputs: Seq<DuplicateInput>, sources: Seq<String>) -> bool {
    &&& forall|g: int| 0 <= g < groups.len() ==> (#[trigger] groups[g]).len() >= 2 && groups[g].no_duplicates()
    &&& forall|g: int, m: int|
        0 <= g < groups.len() && 0 <= m < groups[g].len() ==> {
            let x = #[trigger] groups[g][m];
            &&& x < sources.len()
            &&& x < inputs.len()
            &&& has_content(sources[x as int]@)
            &&& source_key(sources[x as int]@) == source_key(sources[groups[g][0] as int]@)
        }
    &&& forall|i: usize, j: usize|
        i < j < sources.len() && has_content(sources[i as int]@) && has_content(sources[j as int]@)
            && #[trigger] source_key(sources[i as int]@) == #[trigger] source_key(sources[j as int]@) ==> exists|g: int|
            0 <= g < groups.len() && #[trigger] groups[g].contains(i) && groups[g].contains(j)
    &&& forall|g1: int, g2: int|
        0 <= g1 < g2 < groups.len() ==> chars_le(
            source_key(sources[groups[g1][0] as int]@),
            source_key(sources[groups[g2][0] as int]@),
        ) && source_key(sources[groups[g1][0] as int]@) != source_key(sources[groups[g2][0] as int]@)
    &&& forall|g: int, a: int, b: int|
        0 <= g < groups.len() && 0 <= a < b < groups[g].len() ==> path_le(
            inputs[#[trigger] groups[g][a] as int].path@,
            inputs[#[trigger] groups[g][b] as int].path@,
        )
}

/// Path order on file indices; indices past the end sort after, by value.
spec fn index_path_le(paths: Seq<Seq<char>>, a: usize, b: usize) -> bool {
    if a < paths.len() && b < paths.len() {
        path_le(paths[a as int], paths[b as int])
    } else {
        a <= b
    }
}

proof fn lemma_index_path_le_total_preorder(paths: Seq<Seq<char>>)
    ensures
        total_preorder(|a: usize, b: usize| index_path_le(paths, a, b)),
{
    lemma_path_le_total_preorder();
    let leq = |a: Seq<char>, b: Seq<char>| path_le(a, b);
    assert forall|a: usize| #[trigger] index_path_le(paths, a, a) by {
        if a < paths.len() {
            assert(leq(paths[a as int], paths[a as int]));
        }
    }
    assert forall|a: usize, b: usize, c: usize|
        #[trigger] index_path_le(paths, a, b) && #[trigger] index_path_le(paths, b, c) implies index_path_le(paths, a, c) by {
        if a < paths.len() && b < paths.len() && c < paths.len() {
            assert(leq(paths[a as int], paths[b as int]) && leq(paths[b as int], paths[c as int]));
        }
    }
    assert forall|a: usize, b: usize| #[trigger] index_path_le(paths, a, b) || index_path_le(paths, b, a) by {
        if a < paths.len() && b < paths.len() {
            assert(leq(paths[a as int], paths[b as int]) || leq(paths[b as int], paths[a as int]));
        }
    }
}

/// Sorts file indices by the paths they point at.
fn sort_by_path(members: Vec<usize>, paths: &Vec<String>) -> (r: Vec<usize>)
    ensures
        r@.to_multiset() =~= members@.to_multiset(),
        r@.len() == members@.len(),
        ordered_by(r@, |a: usize, b: usize| index_path_le(key_views(paths@), a, b)),
{
    let ghost pv = key_views(paths@);
    proof {
        lemma_index_path_le_total_preorder(pv);
    }
    let le = |a: &usize, b: &usize| -> (r: bool)
        ensures
            r == index_path_le(key_views(paths@), *a, *b),
        {
            if *a < paths.len() && *b < paths.len() {
                path_le_exec(paths[*a].as_str(), paths[*b].as_str())
            } else {
                *a <= *b
            }
        };
    sort_by_order(members, le, Ghost(|a: usize, b: usize| index_path_le(pv, a, b)))
}

proof fn lemma_exact_grouping(
    out_groups: Seq<Seq<usize>>,
    origin: Seq<int>,
    groups: Seq<KeyGroup>,
    kv: Seq<Seq<char>>,
    eligible: Seq<bool>,
    inputs: Seq<DuplicateInput>,
    sources: Seq<String>,
    paths: Seq<Seq<char>>,
)
    requires
        inputs.len() == sources.len(),
        kv.len() == sources.len(),
        eligible.len() == sources.len(),
        paths.len() == sources.len(),
        forall|j: int| 0 <= j < kv.len() ==> kv[j] == source_key(sources[j]@),
        forall|j: int| 0 <= j < eligible.len() ==> (#[trigger] eligible[j]) == has_content(sources[j]@),
        forall|j: int| 0 <= j < paths.len() ==> (#[trigger] paths[j]) == inputs[j].path@,
        key_groups_valid(groups, kv, eligible, kv.len() as int),
        origin.len() == out_groups.len(),
        forall|f: int| 0 <= f < origin.len() ==> 0 <= #[trigger] origin[f] < groups.len(),
        forall|f1: int, f2: int| 0 <= f1 < f2 < origin.len() ==> #[trigger] origin[f1] < #[trigger] origin[f2],
        forall|f: int|
            0 <= f < out_groups.len() ==> {
                &&& (#[trigger] out_groups[f]).len() >= 2
                &&& out_groups[f].no_duplicates()
                &&& forall|x: usize| out_groups[f].contains(x) <==> groups[origin[f]].members@.contains(x)
                &&& ordered_by(out_groups[f], |a: usize, b: usize| index_path_le(paths, a, b))
            },
        forall|h: int|
            0 <= h < groups.len() && (#[trigger] groups[h]).members@.len() >= 2 ==> exists|f: int|
                0 <= f < origin.len() && origin[f] == h,
    ensures
        exact_file_grouping(out_groups, inputs, sources),
{
    assert forall|f: int, x: usize| 0 <= f < out_groups.len() && out_groups[f].contains(x) implies {
        &&& x < sources.len()
        &&& has_content(sources[x as int]@)
        &&& source_key(sources[x as int]@) == groups[origin[f]].key@
    } by {
        let g = origin[f];
        assert(groups[g].members@.contains(x));
        let m = choose|m: int| 0 <= m < groups[g].members@.len() && groups[g].members@[m] == x;
        assert(groups[g].members@[m] == x);
        assert(eligible[x as int]);
    }
    assert forall|g: int, m: int| 0 <= g < out_groups.len() && 0 <= m < out_groups[g].len() implies {
        let x = #[trigger] out_groups[g][m];
        &&& x < sources.len()
        &&& x < inputs.len()
        &&& has_content(sources[x as int]@)
        &&& source_key(sources[x as int]@) == source_key(sources[out_groups[g][0] as int]@)
    } by {
        assert(out_groups[g].contains(out_groups[g][m]));
        assert(out_groups[g].contains(out_groups[g][0]));
    }
    assert forall|i: usize, j: usize|
        i < j < sources.len() && has_content(sources[i as int]@) && has_content(sources[j as int]@)
            && #[trigger] source_key(sources[i as int]@) == #[trigger] source_key(sources[j as int]@) implies exists|f: int|
            0 <= f < out_groups.len() && #[trigger] out_groups[f].contains(i) && out_groups[f].contains(j) by {
        assert(eligible[i as int] && eligible[j as int]);
        let gi = choose|g: int| 0 <= g < groups.len() && #[trigger] groups[g].members@.contains(i);
        let gj = choose|g: int| 0 <= g < groups.len() && #[trigger] groups[g].members@.contains(j);
        let mi = choose|m: int| 0 <= m < groups[gi].members@.len() && groups[gi].members@[m] == i;
        let mj = choose|m: int| 0 <= m < groups[gj].members@.len() && groups[gj].members@[m] == j;
        assert(groups[gi].members@[mi] == i);
        assert(groups[gj].members@[mj] == j);
        assert(groups[gi].key@ == kv[i as int]);
        assert(groups[gj].key@ == kv[j as int]);
        if gi < gj {
            crate::grouping::lemma_keys_sorted_at(groups, gi, gj);
        } else if gj < gi {
            crate::grouping::lemma_keys_sorted_at(groups, gj, gi);
        }
        assert(gi == gj);
        assert(mi != mj);
        assert(groups[gi].members@.len() >= 2);
        let f = choose|f: int| 0 <= f < origin.len() && origin[f] == gi;
        assert(out_groups[f].contains(i));
        assert(out_groups[f].contains(j));
    }
    assert forall|g1: int, g2: int| 0 <= g1 < g2 < out_groups.len() implies chars_le(
        source_key(sources[out_groups[g1][0] as int]@),
        source_key(sources[out_groups[g2][0] as int]@),
    ) && source_key(sources[out_groups[g1][0] as int]@) != source_key(sources[out_groups[g2][0] as int]@) by {
        assert(out_groups[g1].contains(out_groups[g1][0]));
        assert(out_groups[g2].contains(out_groups[g2][0]));
        assert(origin[g1] < origin[g2]);
    }
    assert forall|g: int, a: int, b: int|
        0 <= g < out_groups.len() && 0 <= a < b < out_groups[g].len() implies path_le(
        inputs[#[trigger] out_groups[g][a] as int].path@,
        inputs[#[trigger] out_groups[g][b] as int].path@,
    ) by {
        assert(out_groups[g].contains(out_groups[g][a]));
        assert(out_groups[g].contains(out_groups[g][b]));
        let leq = |x: usize, y: usize| index_path_le(paths, x, y);
        assert(leq(out_groups[g][a], out_groups[g][b]));
    }
}

/// Groups the files whose whitespace-normalised contents are identical and reports each
/// group of two or more as one finding. `sources[i]` is the text of `inputs[i]`.
pub fn find_exact_file_duplicates(inputs: &[DuplicateInput], sources: &[String]) -> (r: Vec<Finding>)
    requires
        inputs@.len() == sources@.len(),
    ensures
        exists|groups: Seq<Seq<usize>>|
            {
                &&& exact_file_grouping(groups, inputs@, sources@)
                &&& r@.len() == groups.len()
                &&& forall|f: int| 0 <= f < r@.len() ==> describes_exact_files(#[trigger] r@[f], groups[f], inputs@, sources@)
            },
{
    let mut fps: Vec<FileFingerprint> = Vec::new();
    let mut keys: Vec<String> = Vec::new();
    let mut eligible: Vec<bool> = Vec::new();
    let mut paths: Vec<String> = Vec::new();
    for i in 0..sources.len()
        invariant
            inputs@.len() == sources@.len(),
            fps@.len() == i,
            keys@.len() == i,
            eligible@.len() == i,
            paths@.len() == i,
            forall|j: int| 0 <= j < i ==> (#[trigger] fps@[j]).index == j,
            forall|j: int| 0 <= j < i ==> fingerprint_valid(#[trigger] fps@[j], inputs@, sources@),
            forall|j: int| 0 <= j < i ==> (#[trigger] keys@[j])@ == source_key(sources@[j]@),
            forall|j: int| 0 <= j < i ==> (#[trigger] eligible@[j]) == has_content(sources@[j]@),
            forall|j: int| 0 <= j < i ==> (#[trigger] paths@[j])@ == inputs@[j].path@,
    {
        let source = sources[i].as_str();
        str_len_fits(source);
        let fingerprint = fingerprint_normalized_body(source);
        let count = line_count(source);
        let fp = FileFingerprint {
            index: i,
            path: inputs[i].path.clone(),
            language: inputs[i].language.clone(),
            source_len: source.len(),
            line_count: if count > 1 {
                count
            } else {
                1
            },
            first_relevant_location: first_relevant_location(source),
            hash: fingerprint.stable_hash_hex.clone(),
        };
        keys.push(fingerprint.stable_hash_hex);
        eligible.push(fingerprint.normalized_len > 0);
        paths.push(inputs[i].path.clone());
        fps.push(fp);
    }
    let groups = group_by_key(&keys, &eligible);
    let ghost kv = key_views(keys@);
    assert forall|j: int| 0 <= j < kv.len() implies kv[j] == source_key(sources@[j]@) by {
        assert(kv[j] == keys@[j]@);
    }
    let mut findings: Vec<Finding> = Vec::new();
    let ghost mut out_groups: Seq<Seq<usize>> = seq![];
    let ghost mut origin: Seq<int> = seq![];
    for g in 0..groups.len()
        invariant
            inputs@.len() == sources@.len(),
            fps@.len() == sources@.len(),
            paths@.len() == sources@.len(),
            forall|j: int| 0 <= j < fps@.len() ==> (#[trigger] fps@[j]).index == j,
            forall|j: int| 0 <= j < fps@.len() ==> fingerprint_valid(#[trigger] fps@[j], inputs@, sources@),
            forall|j: int| 0 <= j < paths@.len() ==> (#[trigger] paths@[j])@ == inputs@[j].path@,
            kv == key_views(keys@),
            forall|j: int| 0 <= j < kv.len() ==> kv[j] == source_key(sources@[j]@),
            kv.len() == sources@.len(),
            forall|j: int| 0 <= j < eligible@.len() ==> (#[trigger] eligible@[j]) == has_content(sources@[j]@),
            eligible@.len() == sources@.len(),
            key_groups_valid(groups@, kv, eligible@, kv.len() as int),
            findings@.len() == out_groups.len(),
            origin.len() == out_groups.len(),
            forall|f: int| 0 <= f < findings@.len() ==> describes_exact_files(#[trigger] findings@[f], out_groups[f], inputs@, sources@),
            forall|f: int| 0 <= f < origin.len() ==> 0 <= #[trigger] origin[f] < g,
            forall|f1: int, f2: int| 0 <= f1 < f2 < origin.len() ==> #[trigger] origin[f1] < #[trigger] origin[f2],
            forall|f: int|
                0 <= f < out_groups.len() ==> {
                    &&& (#[trigger] out_groups[f]).len() >= 2
                    &&& out_groups[f].no_duplicates()
                    &&& forall|x: usize| out_groups[f].contains(x) <==> groups@[origin[f]].members@.contains(x)
                    &&& ordered_by(out_groups[f], |a: usize, b: usize| index_path_le(key_views(paths@), a, b))
                },
            forall|h: int|
                0 <= h < g && (#[trigger] groups@[h]).members@.len() >= 2 ==> exists|f: int|
                    0 <= f < origin.len() && origin[f] == h,
    {
        let group = &groups[g];
        if group.members.len() >= 2 {
            let ghost members = group.members@;
            let sorted = sort_by_path(group.members.clone(), &paths);
            proof {
                assert(members.no_duplicates()) by {
                    assert forall|a: int, b: int| 0 <= a < members.len() && 0 <= b < members.len() && a != b implies members[a]
                        != members[b] by {
                        if a < b {
                            assert(groups@[g as int].members@[a] < groups@[g as int].members@[b]);
                        } else {
                            assert(groups@[g as int].members@[b] < groups@[g as int].members@[a]);
                        }
                    }
                }
                members.lemma_multiset_has_no_duplicates();
                assert forall|x: usize| sorted@.to_multiset().contains(x) implies sorted@.to_multiset().count(x) == 1 by {
                    assert(sorted@.to_multiset().count(x) == members.to_multiset().count(x));
                }
                sorted@.lemma_multiset_has_no_duplicates_conv();
                assert forall|x: usize| sorted@.contains(x) <==> members.contains(x) by {
                    assert(sorted@.to_multiset().count(x) == members.to_multiset().count(x));
                }
            }
            proof {
                assert(members == groups@[g as int].members@);
                assert forall|x: usize| #[trigger] sorted@.contains(x) implies x < fps@.len() && kv[x as int] == group.key@ by {
                    assert(members.contains(x));
                    let m = choose|m: int| 0 <= m < members.len() && members[m] == x;
                    assert(groups@[g as int].members@[m] == x);
                }
            }
            let mut files: Vec<FileFingerprint> = Vec::new();
            for l in 0..sorted.len()
                invariant
                    fps@.len() == sources@.len(),
                    forall|j: int| 0 <= j < fps@.len() ==> (#[trigger] fps@[j]).index == j,
                    forall|j: int| 0 <= j < fps@.len() ==> fingerprint_valid(#[trigger] fps@[j], inputs@, sources@),
                    forall|x: usize| sorted@.contains(x) ==> x < fps@.len(),
                    files@.len() == l,
                    forall|j: int| 0 <= j < l ==> #[trigger] files@[j] == fps@[sorted@[j] as int],
            {
                let x = sorted[l];
                assert(sorted@.contains(x));
                files.push(clone_fingerprint(&fps[x]));
            }
            proof {
                assert forall|l: int| 0 <= l < sorted@.len() implies (#[trigger] files@[l]).hash@ == files@[0].hash@ by {
                    assert(sorted@.contains(sorted@[l]));
                    assert(sorted@.contains(sorted@[0]));
                    assert(files@[l] == fps@[sorted@[l] as int]);
                    assert(files@[0] == fps@[sorted@[0] as int]);
                    assert(fingerprint_valid(fps@[sorted@[l] as int], inputs@, sources@));
                    assert(fingerprint_valid(fps@[sorted@[0] as int], inputs@, sources@));
                    assert(kv[sorted@[l] as int] == group.key@);
                    assert(kv[sorted@[0] as int] == group.key@);
                }
                assert forall|l: int| 0 <= l < sorted@.len() implies (#[trigger] files@[l]).index == sorted@[l] by {
                    assert(sorted@.contains(sorted@[l]));
                    assert(files@[l] == fps@[sorted@[l] as int]);
                }
                assert forall|l: int| 0 <= l < sorted@.len() implies fingerprint_valid(#[trigger] files@[l], inputs@, sources@) by {
                    assert(sorted@.contains(sorted@[l]));
                    assert(files@[l] == fps@[sorted@[l] as int]);
                }
            }
            let finding = build_exact_file_finding(&files, Ghost(sorted@), Ghost(inputs@), Ghost(sources@));
            findings.push(finding);
            let ghost old_origin = origin;
            proof {
                out_groups = out_groups.push(sorted@);
                origin = origin.push(g as int);
                assert forall|h: int|
                    0 <= h < g + 1 && (#[trigger] groups@[h]).members@.len() >= 2 implies exists|f: int|
                        0 <= f < origin.len() && origin[f] == h by {
                    if h == g {
                        assert(origin[origin.len() - 1] == h);
                    } else {
                        let f = choose|f: int| 0 <= f < old_origin.len() && old_origin[f] == h;
                        assert(origin[f] == h);
                    }
                }
            }
        }
    }
    proof {
        lemma_exact_grouping(out_groups, origin, groups@, kv, eligible@, inputs@, sources@, key_views(paths@));
    }
    findings
}

} // verus!
