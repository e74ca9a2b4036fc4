//! Comparing a scan with its stored baseline, reading the older report-shaped baseline
//! format, and assembling the baseline file that is written back.
use vstd::prelude::*;

use crate::baseline::{
    carried, count_status, exact_match, location_views, match_for, spec_entry_changed, status_of, match_entries, matched_index, new_key_map, status_map, unmatched, used_after,
    fixed_from, BaselineEntry, BaselineFile, BaselineLocation, FindingBaselineStatus, FixedBaselineEntry,
};
use crate::baseline_keys::{describes_entry, entry_for_finding, opt_view, source_views, spans_ordered};
use crate::config::{entry_views, insert_entry, insert_entry_exec, text_views};
use crate::findings::{BaselineStatus, BaselineSummary, Finding};
use crate::hashing::{sha256_hex, spec_hex, spec_sha256};
use crate::integrations::{normalize_path, spec_normalize_path};
use crate::sorting::{
    chars_le, lemma_chars_le_antisymmetric, lemma_chars_le_reflexive, lemma_chars_le_total,
    lemma_chars_le_transitive, ordered_by, sort_by_order, str_le, total_preorder,
};
use crate::text::{chars_eq, chars_of, spec_replace_char, string_from_chars};
use vstd::utf8::encode_utf8;

verus! {

broadcast use vstd::std_specs::vec::group_vec_axioms;

/// The schema version written into baseline files.
pub const BASELINE_SCHEMA_VERSION: &'static str = "1.0.0";

/// Where the baseline lives unless configured otherwise.
pub const DEFAULT_BASELINE_PATH: &'static str = ".codehealth/baseline.json";

/// Order of written entries: by rule id, then fingerprint, then path.
pub open spec fn entry_le(a: BaselineEntry, b: BaselineEntry) -> bool {
    ||| (a.rule_id@ != b.rule_id@ && chars_le(a.rule_id@, b.rule_id@))
    ||| (a.rule_id@ == b.rule_id@ && a.fingerprint@ != b.fingerprint@ && chars_le(a.fingerprint@, b.fingerprint@))
    ||| (a.rule_id@ == b.rule_id@ && a.fingerprint@ == b.fingerprint@ && chars_le(a.path@, b.path@))
}

proof fn lemma_strict_transitive(a: Seq<char>, b: Seq<char>, c: Seq<char>)
    requires
        chars_le(a, b),
        chars_le(b, c),
        a != b || b != c,
    ensures
        chars_le(a, c),
        a != c,
{
    lemma_chars_le_transitive(a, b, c);
    if a == c {
        lemma_chars_le_antisymmetric(a, b);
        lemma_chars_le_antisymmetric(b, c);
    }
}

proof fn lemma_entry_le_total_preorder()
    ensures
        total_preorder(|a: BaselineEntry, b: BaselineEntry| entry_le(a, b)),
{
    let leq = |a: BaselineEntry, b: BaselineEntry| entry_le(a, b);
    assert forall|a: BaselineEntry| #[trigger] leq(a, a) by {
        lemma_chars_le_reflexive(a.path@);
    }
    assert forall|a: BaselineEntry, b: BaselineEntry, c: BaselineEntry| #[trigger] leq(a, b) && #[trigger] leq(b, c) implies leq(
        a,
        c,
    ) by {
        lemma_chars_le_reflexive(a.rule_id@);
        lemma_chars_le_reflexive(b.rule_id@);
        lemma_chars_le_reflexive(a.fingerprint@);
        lemma_chars_le_reflexive(b.fingerprint@);
        if a.rule_id@ != b.rule_id@ || b.rule_id@ != c.rule_id@ {
            lemma_strict_transitive(a.rule_id@, b.rule_id@, c.rule_id@);
        } else if a.fingerprint@ != b.fingerprint@ || b.fingerprint@ != c.fingerprint@ {
            lemma_strict_transitive(a.fingerprint@, b.fingerprint@, c.fingerprint@);
        } else {
            lemma_chars_le_transitive(a.path@, b.path@, c.path@);
        }
    }
    assert forall|a: BaselineEntry, b: BaselineEntry| #[trigger] leq(a, b) || leq(b, a) by {
        lemma_chars_le_total(a.rule_id@, b.rule_id@);
        lemma_chars_le_total(a.fingerprint@, b.fingerprint@);
        lemma_chars_le_total(a.path@, b.path@);
    }
}

fn text_eq(a: &String, b: &String) -> (r: bool)
    ensures
        r == (a@ == b@),
{
    chars_eq(chars_of(a.as_str()).as_slice(), chars_of(b.as_str()).as_slice())
}

fn entry_le_exec(a: &BaselineEntry, b: &BaselineEntry) -> (r: bool)
    ensures
        r == entry_le(*a, *b),
{
    if !text_eq(&a.rule_id, &b.rule_id) {
        return str_le(a.rule_id.as_str(), b.rule_id.as_str());
    }
    if !text_eq(&a.fingerprint, &b.fingerprint) {
        return str_le(a.fingerprint.as_str(), b.fingerprint.as_str());
    }
    str_le(a.path.as_str(), b.path.as_str())
}

/// Sorts entries by rule id, fingerprint and path.
pub fn sort_entries(entries: Vec<BaselineEntry>) -> (r: Vec<BaselineEntry>)
    ensures
        r@.to_multiset() =~= entries@.to_multiset(),
        r@.len() == entries@.len(),
        ordered_by(r@, |a: BaselineEntry, b: BaselineEntry| entry_le(a, b)),
{
    proof {
        lemma_entry_le_total_preorder();
    }
    sort_by_order(entries, entry_le_exec, Ghost(|a: BaselineEntry, b: BaselineEntry| entry_le(a, b)))
}

/// The fields that filling in an entry's defaults leaves alone are unchanged.
pub open spec fn same_record(a: BaselineEntry, b: BaselineEntry) -> bool {
    &&& a.fingerprint == b.fingerprint
    &&& a.baseline_key == b.baseline_key
    &&& a.rule_id == b.rule_id
    &&& a.path == b.path
    &&& a.normalized_source_context_hash == b.normalized_source_context_hash
    &&& a.related_locations == b.related_locations
    &&& a.first_seen == b.first_seen
    &&& a.owner == b.owner
    &&& a.severity == b.severity
    &&& a.confidence == b.confidence
    &&& a.message == b.message
}

/// The defaults filled into a stored entry: its path with forward slashes when it has no
/// normalized path, and its fingerprint and legacy keys when it lists no matching keys.
pub open spec fn normalized_from(after: BaselineEntry, before: BaselineEntry) -> bool {
    &&& same_record(after, before)
    &&& after.normalized_path@ == if before.normalized_path@.len() == 0 {
        spec_replace_char(before.path@, '\\', '/')
    } else {
        before.normalized_path@
    }
    &&& text_views(after.matching_keys@) == if before.matching_keys@.len() == 0 {
        seq!["fingerprint:"@ + before.fingerprint@, "legacy:"@ + before.baseline_key@]
    } else {
        text_views(before.matching_keys@)
    }
}

fn cat2(a: &str, b: &str) -> (r: String)
    ensures
        r@ == a@ + b@,
{
    let mut s = String::from_str(a);
    s.append(b);
    s
}

/// Fills in the defaults of a stored entry.
pub fn normalize_entry(entry: &mut BaselineEntry)
    ensures
        normalized_from(*final(entry), *old(entry)),
{
    if chars_of(entry.normalized_path.as_str()).len() == 0 {
        entry.normalized_path = string_from_chars(
            crate::text::replace_char(chars_of(entry.path.as_str()).as_slice(), '\\', '/').as_slice(),
        );
    }
    if entry.matching_keys.len() == 0 {
        let mut keys: Vec<String> = Vec::new();
        keys.push(cat2("fingerprint:", entry.fingerprint.as_str()));
        keys.push(cat2("legacy:", entry.baseline_key.as_str()));
        assert(text_views(keys@) =~= seq!["fingerprint:"@ + entry.fingerprint@, "legacy:"@ + entry.baseline_key@]);
        entry.matching_keys = keys;
    }
}

/// A stored baseline with the defaults of every entry filled in.
pub fn normalize_baseline(file: BaselineFile) -> (r: BaselineFile)
    ensures
        r.schema_version == file.schema_version,
        r.tool_version == file.tool_version,
        r.workspace_root == file.workspace_root,
        r.created_at == file.created_at,
        r.updated_at == file.updated_at,
        r.config_hash == file.config_hash,
        r.entries@.len() == file.entries@.len(),
        forall|i: int| 0 <= i < r.entries@.len() ==> normalized_from(#[trigger] r.entries@[i], file.entries@[i]),
{
    let BaselineFile { schema_version, tool_version, workspace_root, created_at, updated_at, config_hash, entries } =
        file;
    let ghost original = entries@;
    let mut rest = entries;
    let mut out: Vec<BaselineEntry> = Vec::new();
    while rest.len() > 0
        invariant
            out@.len() + rest@.len() == original.len(),
            forall|j: int| 0 <= j < rest@.len() ==> rest@[j] == original[out@.len() + j],
            forall|j: int| 0 <= j < out@.len() ==> normalized_from(#[trigger] out@[j], original[j]),
        decreases rest.len(),
    {
        let ghost before = rest@;
        let mut entry = rest.remove(0);
        normalize_entry(&mut entry);
        out.push(entry);
        assert forall|j: int| 0 <= j < rest@.len() implies rest@[j] == original[out@.len() + j] by {
            assert(rest@[j] == before[j + 1]);
        }
    }
    BaselineFile { schema_version, tool_version, workspace_root, created_at, updated_at, config_hash, entries: out }
}

/// A location of a finding in a report-shaped baseline.
#[derive(Debug, Clone)]
pub struct LegacyLocation {
    /// The path, when the location gives it as text.
    pub path: Option<String>,
    pub line: Option<u64>,
    pub column: Option<u64>,
}

/// A finding of a report-shaped baseline: the fields that are given as text.
#[derive(Debug, Clone)]
pub struct LegacyFinding {
    pub baseline_key: Option<String>,
    pub rule_id: Option<String>,
    pub locations: Vec<LegacyLocation>,
    pub severity: Option<String>,
    pub confidence: Option<String>,
    pub message: Option<String>,
}

/// The text of an option, or a default.
pub open spec fn text_or(o: Option<String>, default: Seq<char>) -> Seq<char> {
    match o {
        Some(s) => s@,
        None => default,
    }
}

/// The legacy locations that give a path, in order.
pub open spec fn located(ls: Seq<LegacyLocation>) -> Seq<LegacyLocation>
    decreases ls.len(),
{
    if ls.len() == 0 {
        seq![]
    } else if ls.last().path is Some {
        located(ls.drop_last()).push(ls.last())
    } else {
        located(ls.drop_last())
    }
}

/// A baseline location read from a legacy location that gives a path.
pub open spec fn legacy_location_from(l: BaselineLocation, root: Seq<char>, legacy: LegacyLocation) -> bool {
    let path = spec_normalize_path(root, text_or(legacy.path, seq![]));
    &&& l.path@ == path
    &&& l.normalized_path@ == spec_replace_char(path, '\\', '/')
    &&& l.line == (match legacy.line {
        Some(v) => if v <= usize::MAX {
            Some(v as usize)
        } else {
            None
        },
        None => None,
    })
    &&& l.column == (match legacy.column {
        Some(v) => if v <= usize::MAX {
            Some(v as usize)
        } else {
            None
        },
        None => None,
    })
    &&& l.context_hash is None
}

fn text_or_exec(o: &Option<String>, default: &str) -> (r: String)
    ensures
        r@ == text_or(*o, default@),
{
    match o {
        Some(s) => s.clone(),
        None => String::from_str(default),
    }
}

fn fits_usize(v: Option<u64>) -> (r: Option<usize>)
    ensures
        r == (match v {
            Some(x) => if x <= usize::MAX {
                Some(x as usize)
            } else {
                None
            },
            None => None,
        }),
{
    match v {
        Some(x) => if x as u128 <= usize::MAX as u128 {
            Some(x as usize)
        } else {
            None
        },
        None => None,
    }
}

/// The entry recorded for a finding of a report-shaped baseline: none without a
/// baseline key; its fingerprint hashes its rule id (or `unknown`) with its legacy key,
/// its path is that of its first location that gives one, and absent texts take the
/// defaults `info`, `low` and the empty message. Its keys are then filled in.
pub open spec fn legacy_entry_from(e: BaselineEntry, root: Seq<char>, f: LegacyFinding, first_seen: u64) -> bool {
    let rule = text_or(f.rule_id, "unknown"@);
    let key = text_or(f.baseline_key, seq![]);
    let locs = located(f.locations@);
    let path = if locs.len() > 0 {
        spec_normalize_path(root, text_or(locs[0].path, seq![]))
    } else {
        seq![]
    };
    let fingerprint = spec_hex(spec_sha256(encode_utf8(rule + "|legacy:"@ + key)));
    &&& e.fingerprint@ == fingerprint
    &&& e.baseline_key@ == key
    &&& e.rule_id@ == rule
    &&& e.path@ == path
    &&& e.normalized_path@ == spec_replace_char(path, '\\', '/')
    &&& e.normalized_source_context_hash@ == "unknown"@
    &&& e.related_locations@.len() == locs.len()
    &&& forall|i: int| 0 <= i < locs.len() ==> legacy_location_from(#[trigger] e.related_locations@[i], root, locs[i])
    &&& e.first_seen == first_seen
    &&& e.owner is None
    &&& e.severity@ == text_or(f.severity, "info"@)
    &&& e.confidence@ == text_or(f.confidence, "low"@)
    &&& e.message@ == text_or(f.message, seq![])
    &&& text_views(e.matching_keys@) == seq!["fingerprint:"@ + fingerprint, "legacy:"@ + key]
}

/// The entry of a finding of a report-shaped baseline; none when it has no baseline key.
pub fn legacy_entry(root: &str, finding: &LegacyFinding, first_seen: u64) -> (r: Option<BaselineEntry>)
    ensures
        finding.baseline_key is None ==> r is None,
        finding.baseline_key is Some ==> (r matches Some(e) && legacy_entry_from(e, root@, *finding, first_seen)),
{
    let key = match &finding.baseline_key {
        Some(k) => k.clone(),
        None => {
            return None;
        },
    };
    let rule = text_or_exec(&finding.rule_id, "unknown");
    let root_chars = chars_of(root);
    let ghost locs = located(finding.locations@);
    let mut related: Vec<BaselineLocation> = Vec::new();
    for i in 0..finding.locations.len()
        invariant
            root_chars@ == root@,
            related@.len() == located(finding.locations@.take(i as int)).len(),
            forall|j: int|
                0 <= j < related@.len() ==> legacy_location_from(
                    #[trigger] related@[j],
                    root@,
                    located(finding.locations@.take(i as int))[j],
                ),
    {
        let l = &finding.locations[i];
        assert(finding.locations@.take(i + 1).drop_last() =~= finding.locations@.take(i as int));
        assert(finding.locations@.take(i + 1).last() == *l);
        let ghost prev = located(finding.locations@.take(i as int));
        match &l.path {
            Some(p) => {
                assert(located(finding.locations@.take(i + 1)) == prev.push(*l));
                let pc = chars_of(p.as_str());
                let path = normalize_path(root_chars.as_slice(), pc.as_slice());
                assert(pc@ == text_or(l.path, seq![]));
                assert(path@ == spec_normalize_path(root@, text_or(l.path, seq![])));
                let normalized = crate::text::replace_char(path.as_slice(), '\\', '/');
                related.push(
                    BaselineLocation {
                        path: string_from_chars(path.as_slice()),
                        normalized_path: string_from_chars(normalized.as_slice()),
                        line: fits_usize(l.line),
                        column: fits_usize(l.column),
                        context_hash: None,
                    },
                );
                assert(related@.last().path@ == spec_normalize_path(root@, text_or(l.path, seq![])));
            },
            None => {
                assert(located(finding.locations@.take(i + 1)) == prev);
            },
        }
    }
    assert(finding.locations@.take(finding.locations@.len() as int) =~= finding.locations@);
    let path = if related.len() > 0 {
        related[0].path.clone()
    } else {
        String::new()
    };
    let normalized_path = string_from_chars(crate::text::replace_char(chars_of(path.as_str()).as_slice(), '\\', '/').as_slice());
    let keyed = {
        let mut s = rule.clone();
        s.append("|legacy:");
        s.append(key.as_str());
        s
    };
    let fingerprint = sha256_hex(keyed.as_str());
    let mut entry = BaselineEntry {
        fingerprint,
        baseline_key: key,
        rule_id: rule,
        path,
        normalized_path,
        normalized_source_context_hash: String::from_str("unknown"),
        related_locations: related,
        first_seen,
        owner: None,
        severity: text_or_exec(&finding.severity, "info"),
        confidence: text_or_exec(&finding.confidence, "low"),
        message: text_or_exec(&finding.message, ""),
        matching_keys: Vec::new(),
    };
    proof {
        reveal_strlit("");
    }
    let ghost before = entry;
    normalize_entry(&mut entry);
    proof {
        assert(before.normalized_path@ == spec_replace_char(before.path@, '\\', '/'));
        if before.normalized_path@.len() == 0 {
            assert(before.path@.len() == 0);
        }
    }
    proof {
        let e = entry;
        let f = *finding;
        let locs = located(f.locations@);
        assert(e.baseline_key@ == text_or(f.baseline_key, seq![]));
        assert(e.rule_id@ == text_or(f.rule_id, "unknown"@));
        assert(e.related_locations@.len() == locs.len());
        assert(e.path@ == (if locs.len() > 0 {
            spec_normalize_path(root@, text_or(locs[0].path, seq![]))
        } else {
            seq![]
        }));
        assert(e.fingerprint@ == spec_hex(spec_sha256(encode_utf8(e.rule_id@ + "|legacy:"@ + e.baseline_key@))));
        assert(e.message@ == text_or(f.message, seq![]));
    }
    Some(entry)
}


/// The findings of a report-shaped baseline that carry a baseline key, in order.
pub open spec fn keyed_findings(fs: Seq<LegacyFinding>) -> Seq<LegacyFinding>
    decreases fs.len(),
{
    if fs.len() == 0 {
        seq![]
    } else if fs.last().baseline_key is Some {
        keyed_findings(fs.drop_last()).push(fs.last())
    } else {
        keyed_findings(fs.drop_last())
    }
}

/// A report-shaped baseline read as a stored one: its findings with a baseline key
/// become entries first seen `now`, its tool version and configuration hash default to
/// `unknown`, its workspace root to the empty text, and both times are `now`.
pub fn legacy_baseline(
    root: &str,
    findings: &Vec<LegacyFinding>,
    tool_version: &Option<String>,
    workspace_root: &Option<String>,
    config_hash: &Option<String>,
    now: u64,
) -> (r: BaselineFile)
    ensures
        r.schema_version@ == BASELINE_SCHEMA_VERSION@,
        r.tool_version@ == text_or(*tool_version, "unknown"@),
        r.workspace_root@ == text_or(*workspace_root, seq![]),
        r.created_at == now,
        r.updated_at == now,
        r.config_hash@ == text_or(*config_hash, "unknown"@),
        r.entries@.len() == keyed_findings(findings@).len(),
        forall|i: int|
            0 <= i < r.entries@.len() ==> legacy_entry_from(
                #[trigger] r.entries@[i],
                root@,
                keyed_findings(findings@)[i],
                now,
            ),
{
    let mut entries: Vec<BaselineEntry> = Vec::new();
    for i in 0..findings.len()
        invariant
            entries@.len() == keyed_findings(findings@.take(i as int)).len(),
            forall|j: int|
                0 <= j < entries@.len() ==> legacy_entry_from(
                    #[trigger] entries@[j],
                    root@,
                    keyed_findings(findings@.take(i as int))[j],
                    now,
                ),
    {
        assert(findings@.take(i + 1).drop_last() =~= findings@.take(i as int));
        assert(findings@.take(i + 1).last() == findings@[i as int]);
        match legacy_entry(root, &findings[i], now) {
            Some(e) => {
                entries.push(e);
            },
            None => {},
        }
    }
    assert(findings@.take(findings@.len() as int) =~= findings@);
    proof {
        reveal_strlit("");
    }
    BaselineFile {
        schema_version: String::from_str(BASELINE_SCHEMA_VERSION),
        tool_version: text_or_exec(tool_version, "unknown"),
        workspace_root: text_or_exec(workspace_root, ""),
        created_at: now,
        updated_at: now,
        config_hash: text_or_exec(config_hash, "unknown"),
        entries,
    }
}

/// The positions of the findings that are not suppressed, in order.
pub open spec fn kept(fs: Seq<Finding>) -> Seq<int>
    decreases fs.len(),
{
    if fs.len() == 0 {
        seq![]
    } else if fs.last().is_suppressed {
        kept(fs.drop_last())
    } else {
        kept(fs.drop_last()).push(fs.len() - 1)
    }
}

proof fn lemma_kept_bounds(fs: Seq<Finding>)
    ensures
        forall|i: int| 0 <= i < kept(fs).len() ==> 0 <= #[trigger] kept(fs)[i] < fs.len() && !fs[kept(fs)[i]].is_suppressed,
    decreases fs.len(),
{
    if fs.len() > 0 {
        lemma_kept_bounds(fs.drop_last());
    }
}

/// For each finding that is not suppressed, the texts of its locations' files are given
/// and its spans are ordered.
pub open spec fn findings_ready(fs: Seq<Finding>, sources: Seq<Vec<Option<String>>>) -> bool {
    &&& sources.len() == fs.len()
    &&& forall|i: int|
        0 <= i < fs.len() && !(#[trigger] fs[i]).is_suppressed ==> sources[i]@.len() == fs[i].locations@.len()
            && spans_ordered(fs[i].locations@)
}

/// `es` are the entries of the findings that are not suppressed, in order.
pub open spec fn entries_for(
    es: Seq<BaselineEntry>,
    root: Seq<char>,
    fs: Seq<Finding>,
    sources: Seq<Vec<Option<String>>>,
    owner: Option<Seq<char>>,
    now: u64,
) -> bool {
    let ks = kept(fs);
    &&& es.len() == ks.len()
    &&& forall|i: int|
        0 <= i < es.len() ==> describes_entry(
            #[trigger] es[i],
            root,
            fs[ks[i]],
            source_views(sources[ks[i]]@),
            owner,
            now,
        )
}

/// The entries of the findings that are not suppressed, first seen `now`.
pub fn current_entries(
    root: &str,
    findings: &Vec<Finding>,
    sources: &Vec<Vec<Option<String>>>,
    owner: &Option<String>,
    now: u64,
) -> (r: Vec<BaselineEntry>)
    requires
        findings_ready(findings@, sources@),
    ensures
        entries_for(r@, root@, findings@, sources@, opt_view(*owner), now),
{
    let mut out: Vec<BaselineEntry> = Vec::new();
    for i in 0..findings.len()
        invariant
            findings_ready(findings@, sources@),
            entries_for(out@, root@, findings@.take(i as int), sources@, opt_view(*owner), now),
    {
        let ghost before = findings@.take(i as int);
        let ghost after = findings@.take(i + 1);
        assert(after.drop_last() =~= before);
        assert(after.last() == findings@[i as int]);
        proof {
            lemma_kept_bounds(before);
        }
        assert forall|j: int| 0 <= j < kept(before).len() implies #[trigger] findings@[kept(before)[j]] == before[kept(before)[j]] by {
        }
        if !findings[i].is_suppressed {
            assert(findings@[i as int] == findings[i as int]);
            let e = entry_for_finding(root, &findings[i], &sources[i], owner, now);
            out.push(e);
            assert(kept(after) == kept(before).push(i as int));
        } else {
            assert(kept(after) == kept(before));
        }
        proof {
            lemma_kept_bounds(after);
            assert forall|j: int| 0 <= j < out@.len() implies describes_entry(
                #[trigger] out@[j],
                root@,
                after[kept(after)[j]],
                source_views(sources@[kept(after)[j]]@),
                opt_view(*owner),
                now,
            ) by {
                assert(after[kept(after)[j]] == findings@[kept(after)[j]]);
            }
        }
    }
    assert(findings@.take(findings@.len() as int) =~= findings@);
    out
}


/// The outcome of comparing a scan with its baseline.
#[derive(Debug, Clone)]
pub struct BaselineComparison {
    pub summary: BaselineSummary,
    /// The baseline keys of new findings, distinct and in key order.
    pub new_keys: Vec<String>,
    /// The status of each baseline key, in key order.
    pub status_by_key: Vec<(String, FindingBaselineStatus)>,
    pub fixed_entries: Vec<FixedBaselineEntry>,
    /// The entries to store when the baseline is updated.
    pub updated_entries: Vec<BaselineEntry>,
    pub path: Option<String>,
}

/// Every baseline key of the first `n` entries mapped to `status`, in key order.
pub open spec fn uniform_status_map(cur: Seq<BaselineEntry>, status: FindingBaselineStatus, n: int) -> Seq<(Seq<char>, FindingBaselineStatus)>
    decreases n,
{
    if n <= 0 {
        seq![]
    } else {
        insert_entry(uniform_status_map(cur, status, n - 1), cur[n - 1].baseline_key@, status)
    }
}

/// The distinct baseline keys of the first `n` entries, in key order.
pub open spec fn baseline_key_set(cur: Seq<BaselineEntry>, n: int) -> Seq<(Seq<char>, ())>
    decreases n,
{
    if n <= 0 {
        seq![]
    } else {
        insert_entry(baseline_key_set(cur, n - 1), cur[n - 1].baseline_key@, ())
    }
}

/// The current entries after matching, each carrying what its baseline match records.
pub open spec fn carried_entries(b: Seq<BaselineEntry>, cur: Seq<BaselineEntry>) -> Seq<BaselineEntry> {
    Seq::new(cur.len(), |k: int| carried(cur[k], b, matched_index(b, cur, k)))
}

/// `r` is the comparison of the current entries `cur` with the baseline at `path`
/// (none configured when `path` is `None`), whose stored content is `stored` (`None`
/// when no file is there).
pub open spec fn compares(
    r: BaselineComparison,
    cur: Seq<BaselineEntry>,
    path: Option<Seq<char>>,
    stored: Option<BaselineFile>,
    treat_missing_as_empty: bool,
) -> bool {
    let n = cur.len() as int;
    &&& opt_view(r.path) == path
    &&& opt_view(r.summary.path) == path
    &&& match path {
        None => {
            &&& r.summary.status == BaselineStatus::NotChecked
            &&& r.summary.new_findings is None
            &&& r.summary.existing_findings is None
            &&& r.summary.changed_findings is None
            &&& r.summary.fixed_findings is None
            &&& r.new_keys@.len() == 0
            &&& entry_views(r.status_by_key@) == uniform_status_map(cur, FindingBaselineStatus::NotChecked, n)
            &&& r.fixed_entries@.len() == 0
            &&& r.updated_entries@ == cur
        },
        Some(_) => match stored {
            None => {
                &&& r.summary.status == BaselineStatus::Missing
                &&& if treat_missing_as_empty {
                    &&& r.summary.new_findings == Some(cur.len() as usize)
                    &&& r.summary.existing_findings == Some(0usize)
                    &&& r.summary.changed_findings == Some(0usize)
                    &&& r.summary.fixed_findings == Some(0usize)
                    &&& r.new_keys@.map_values(|k: String| (k@, ())) == baseline_key_set(cur, n)
                    &&& entry_views(r.status_by_key@) == uniform_status_map(cur, FindingBaselineStatus::New, n)
                } else {
                    &&& r.summary.new_findings is None
                    &&& r.summary.existing_findings is None
                    &&& r.summary.changed_findings is None
                    &&& r.summary.fixed_findings is None
                    &&& r.new_keys@.len() == 0
                    &&& entry_views(r.status_by_key@) == uniform_status_map(cur, FindingBaselineStatus::NotChecked, n)
                }
                &&& r.fixed_entries@.len() == 0
                &&& r.updated_entries@ == cur
            },
            Some(file) => {
                let b = file.entries@;
                let left = unmatched(b, used_after(b, cur, n), b.len() as int);
                &&& r.summary.status == BaselineStatus::Compared
                &&& r.summary.new_findings matches Some(v) && v == count_status(b, cur, n, FindingBaselineStatus::New)
                &&& r.summary.existing_findings matches Some(v) && v == count_status(b, cur, n, FindingBaselineStatus::Existing)
                &&& r.summary.changed_findings matches Some(v) && v == count_status(b, cur, n, FindingBaselineStatus::Changed)
                &&& r.summary.fixed_findings matches Some(v) && v == left.len()
                &&& r.new_keys@.map_values(|k: String| (k@, ())) == new_key_map(b, cur, n)
                &&& entry_views(r.status_by_key@) == status_map(b, cur, n)
                &&& r.fixed_entries@.len() == left.len()
                &&& forall|f: int| 0 <= f < left.len() ==> fixed_from(#[trigger] r.fixed_entries@[f], left[f])
                &&& r.updated_entries@.to_multiset() == carried_entries(b, cur).to_multiset()
                &&& ordered_by(r.updated_entries@, |a: BaselineEntry, c: BaselineEntry| entry_le(a, c))
            },
        },
    }
}

fn uniform_statuses(cur: &Vec<BaselineEntry>, status: FindingBaselineStatus) -> (r: Vec<(String, FindingBaselineStatus)>)
    ensures
        entry_views(r@) == uniform_status_map(cur@, status, cur@.len() as int),
{
    let mut out: Vec<(String, FindingBaselineStatus)> = Vec::new();
    for i in 0..cur.len()
        invariant
            entry_views(out@) == uniform_status_map(cur@, status, i as int),
    {
        insert_entry_exec(&mut out, cur[i].baseline_key.clone(), status);
    }
    out
}

fn key_set_of(cur: &Vec<BaselineEntry>) -> (r: Vec<String>)
    ensures
        r@.map_values(|k: String| (k@, ())) == baseline_key_set(cur@, cur@.len() as int),
{
    let mut set: Vec<(String, ())> = Vec::new();
    for i in 0..cur.len()
        invariant
            entry_views(set@) == baseline_key_set(cur@, i as int),
    {
        insert_entry_exec(&mut set, cur[i].baseline_key.clone(), ());
    }
    let mut out: Vec<String> = Vec::new();
    for i in 0..set.len()
        invariant
            out@.map_values(|k: String| (k@, ())) == entry_views(set@).take(i as int),
    {
        let ghost before = out@;
        let key = set[i].0.clone();
        assert(key@ == set@[i as int].0@);
        out.push(key);
        assert(out@ == before.push(key));
        assert(entry_views(set@)[i as int] == (key@, ()));
        assert(out@.map_values(|k: String| (k@, ())) =~= before.map_values(|k: String| (k@, ())).push((key@, ())));
        assert(out@.map_values(|k: String| (k@, ())) =~= entry_views(set@).take(i + 1));
    }
    assert(entry_views(set@).take(set@.len() as int) =~= entry_views(set@));
    out
}

/// Compares the current entries with the baseline at `baseline_path`, whose stored
/// content is `stored` (`None` when no file is there). With no path nothing is
/// checked; a missing file counts every finding as new when `treat_missing_as_empty`,
/// else nothing is checked; otherwise findings are matched against the stored entries.
pub fn compare_entries(
    current: Vec<BaselineEntry>,
    baseline_path: Option<String>,
    stored: Option<BaselineFile>,
    treat_missing_as_empty: bool,
) -> (r: BaselineComparison)
    ensures
        compares(r, current@, opt_view(baseline_path), stored, treat_missing_as_empty),
{
    let path = match baseline_path {
        Some(p) => p,
        None => {
            let statuses = uniform_statuses(&current, FindingBaselineStatus::NotChecked);
            return BaselineComparison {
                summary: BaselineSummary::not_checked(),
                new_keys: Vec::new(),
                status_by_key: statuses,
                fixed_entries: Vec::new(),
                updated_entries: current,
                path: None,
            };
        },
    };
    let file = match stored {
        Some(f) => f,
        None => {
            let n = current.len();
            let (statuses, new_keys) = if treat_missing_as_empty {
                (uniform_statuses(&current, FindingBaselineStatus::New), key_set_of(&current))
            } else {
                (uniform_statuses(&current, FindingBaselineStatus::NotChecked), Vec::new())
            };
            let (new_findings, existing_findings, changed_findings, fixed_findings) = if treat_missing_as_empty {
                (Some(n), Some(0usize), Some(0usize), Some(0usize))
            } else {
                (None, None, None, None)
            };
            return BaselineComparison {
                summary: BaselineSummary {
                    status: BaselineStatus::Missing,
                    path: Some(path.clone()),
                    new_findings,
                    existing_findings,
                    changed_findings,
                    fixed_findings,
                },
                new_keys,
                status_by_key: statuses,
                fixed_entries: Vec::new(),
                updated_entries: current,
                path: Some(path),
            };
        },
    };
    let ghost cur = current@;
    let ghost b = file.entries@;
    let matched = match_entries(file.entries.as_slice(), current);
    let fixed_count = matched.fixed_entries.len();
    let summary = BaselineSummary {
        status: BaselineStatus::Compared,
        path: Some(path.clone()),
        new_findings: Some(matched.new_count),
        existing_findings: Some(matched.existing_count),
        changed_findings: Some(matched.changed_count),
        fixed_findings: Some(fixed_count),
    };
    let crate::baseline::MatchResult { current_entries, status_by_key, new_keys, fixed_entries, .. } = matched;
    assert(current_entries@ =~= carried_entries(b, cur));
    let updated_entries = sort_entries(current_entries);
    BaselineComparison {
        summary,
        new_keys,
        status_by_key,
        fixed_entries,
        updated_entries,
        path: Some(path),
    }
}

/// Compares the findings of a scan with the baseline at `baseline_path`. `sources[i][j]`
/// is the text of the file of location `j` of finding `i`, `None` when it could not be
/// read; `stored` is the baseline read from the path, `None` when no file is there.
/// Suppressed findings take no part.
pub fn compare_findings(
    root: &str,
    findings: &Vec<Finding>,
    sources: &Vec<Vec<Option<String>>>,
    baseline_path: Option<String>,
    stored: Option<BaselineFile>,
    owner: &Option<String>,
    now: u64,
    treat_missing_as_empty: bool,
) -> (r: BaselineComparison)
    requires
        findings_ready(findings@, sources@),
    ensures
        exists|cur: Seq<BaselineEntry>|
            #[trigger] entries_for(cur, root@, findings@, sources@, opt_view(*owner), now) && compares(
                r,
                cur,
                opt_view(baseline_path),
                stored,
                treat_missing_as_empty,
            ),
{
    let current = current_entries(root, findings, sources, owner, now);
    let ghost cur = current@;
    let r = compare_entries(current, baseline_path, stored, treat_missing_as_empty);
    assert(entries_for(cur, root@, findings@, sources@, opt_view(*owner), now));
    r
}

/// The baseline file that stores `entries`, sorted by rule id, fingerprint and path.
pub fn baseline_file(
    root: &str,
    entries: Vec<BaselineEntry>,
    tool_version: &str,
    config_hash: &str,
    created_at: u64,
    updated_at: u64,
) -> (r: BaselineFile)
    ensures
        r.schema_version@ == BASELINE_SCHEMA_VERSION@,
        r.tool_version@ == tool_version@,
        r.workspace_root@ == spec_replace_char(root@, '\\', '/'),
        r.created_at == created_at,
        r.updated_at == updated_at,
        r.config_hash@ == config_hash@,
        r.entries@.to_multiset() == entries@.to_multiset(),
        ordered_by(r.entries@, |a: BaselineEntry, b: BaselineEntry| entry_le(a, b)),
{
    let sorted = sort_entries(entries);
    BaselineFile {
        schema_version: String::from_str(BASELINE_SCHEMA_VERSION),
        tool_version: String::from_str(tool_version),
        workspace_root: string_from_chars(crate::text::replace_char(chars_of(root).as_slice(), '\\', '/').as_slice()),
        created_at,
        updated_at,
        config_hash: String::from_str(config_hash),
        entries: sorted,
    }
}

/// The baseline file written for a fresh baseline of the findings: the entries of the
/// findings that are not suppressed, created and updated `now`.
pub fn new_baseline(
    root: &str,
    findings: &Vec<Finding>,
    sources: &Vec<Vec<Option<String>>>,
    owner: &Option<String>,
    tool_version: &str,
    config_hash: &str,
    now: u64,
) -> (r: BaselineFile)
    requires
        findings_ready(findings@, sources@),
    ensures
        exists|cur: Seq<BaselineEntry>|
            #[trigger] entries_for(cur, root@, findings@, sources@, opt_view(*owner), now)
                && r.entries@.to_multiset() == cur.to_multiset(),
        ordered_by(r.entries@, |a: BaselineEntry, b: BaselineEntry| entry_le(a, b)),
        r.schema_version@ == BASELINE_SCHEMA_VERSION@,
        r.tool_version@ == tool_version@,
        r.workspace_root@ == spec_replace_char(root@, '\\', '/'),
        r.created_at == now,
        r.updated_at == now,
        r.config_hash@ == config_hash@,
{
    let current = current_entries(root, findings, sources, owner, now);
    let ghost cur = current@;
    let r = baseline_file(root, current, tool_version, config_hash, now, now);
    assert(entries_for(cur, root@, findings@, sources@, opt_view(*owner), now));
    r
}

/// The baseline file written when a baseline is updated from a comparison: its entries
/// are the comparison's updated entries; it keeps the creation time of the file it
/// replaces when that could be read (`existing_created_at`), else it is created `now`.
pub fn update_baseline(
    existing_created_at: Option<u64>,
    now: u64,
    root: &str,
    comparison: BaselineComparison,
    tool_version: &str,
    config_hash: &str,
) -> (r: BaselineFile)
    ensures
        r.created_at == (match existing_created_at {
            Some(t) => t,
            None => now,
        }),
        r.updated_at == now,
        r.schema_version@ == BASELINE_SCHEMA_VERSION@,
        r.tool_version@ == tool_version@,
        r.workspace_root@ == spec_replace_char(root@, '\\', '/'),
        r.config_hash@ == config_hash@,
        r.entries@.to_multiset() == comparison.updated_entries@.to_multiset(),
        ordered_by(r.entries@, |a: BaselineEntry, b: BaselineEntry| entry_le(a, b)),
{
    let created_at = match existing_created_at {
        Some(t) => t,
        None => now,
    };
    baseline_file(root, comparison.updated_entries, tool_version, config_hash, created_at, now)
}


proof fn lemma_exact_match_found(b: Seq<BaselineEntry>, fp: Seq<char>, n: int, j: int)
    requires
        0 <= j < n <= b.len(),
        b[j].fingerprint@ == fp,
    ensures
        exact_match(b, fp, n) matches Some(i) && 0 <= i < n && b[i].fingerprint@ == fp,
    decreases n,
{
    if b[n - 1].fingerprint@ != fp {
        lemma_exact_match_found(b, fp, n - 1, j);
    }
}

/// The position of the stored entry that finding `k` of a rescan matches exactly.
proof fn lemma_rescan_exact(b: Seq<BaselineEntry>, cur: Seq<BaselineEntry>, k: int)
    requires
        b.to_multiset() == cur.to_multiset(),
        forall|i: int, j: int| 0 <= i < j < cur.len() ==> cur[i].fingerprint@ != cur[j].fingerprint@,
        0 <= k < cur.len(),
    ensures
        exact_match(b, cur[k].fingerprint@, b.len() as int) matches Some(i) && 0 <= i < b.len() && b[i] == cur[k],
{
    broadcast use vstd::seq_lib::group_to_multiset_ensures;

    assert(cur.contains(cur[k]));
    assert(b.to_multiset().count(cur[k]) > 0);
    assert(b.contains(cur[k]));
    let j = choose|j: int| 0 <= j < b.len() && b[j] == cur[k];
    lemma_exact_match_found(b, cur[k].fingerprint@, b.len() as int, j);
    let i = exact_match(b, cur[k].fingerprint@, b.len() as int)->0;
    assert(b.contains(b[i]));
    assert(cur.to_multiset().count(b[i]) > 0);
    assert(cur.contains(b[i]));
    let x = choose|x: int| 0 <= x < cur.len() && cur[x] == b[i];
    if x < k {
        assert(cur[x].fingerprint@ != cur[k].fingerprint@);
    } else if k < x {
        assert(cur[k].fingerprint@ != cur[x].fingerprint@);
    }
}

proof fn lemma_rescan_steps(b: Seq<BaselineEntry>, cur: Seq<BaselineEntry>, n: int)
    requires
        b.to_multiset() == cur.to_multiset(),
        forall|i: int, j: int| 0 <= i < j < cur.len() ==> cur[i].fingerprint@ != cur[j].fingerprint@,
        0 <= n <= cur.len(),
    ensures
        forall|i: int|
            #[trigger] used_after(b, cur, n).contains(i) ==> exists|j: int|
                0 <= j < n && exact_match(b, cur[j].fingerprint@, b.len() as int) == Some(i),
        forall|k: int|
            0 <= k < n ==> #[trigger] matched_index(b, cur, k) == exact_match(b, cur[k].fingerprint@, b.len() as int),
        count_status(b, cur, n, FindingBaselineStatus::Existing) == n,
        count_status(b, cur, n, FindingBaselineStatus::New) == 0,
        count_status(b, cur, n, FindingBaselineStatus::Changed) == 0,
    decreases n,
{
    if n > 0 {
        let k = n - 1;
        lemma_rescan_steps(b, cur, k);
        lemma_rescan_exact(b, cur, k);
        let used = used_after(b, cur, k);
        let i = exact_match(b, cur[k].fingerprint@, b.len() as int)->0;
        if used.contains(i) {
            let j = choose|j: int| 0 <= j < k && exact_match(b, cur[j].fingerprint@, b.len() as int) == Some(i);
            lemma_rescan_exact(b, cur, j);
            assert(cur[j].fingerprint@ != cur[k].fingerprint@);
        }
        assert(match_for(b, cur[k], used) == Some(i));
        assert(matched_index(b, cur, k) == Some(i));
        assert(location_views(b[i].related_locations@) == location_views(cur[k].related_locations@));
        assert(!spec_entry_changed(b[i], cur[k]));
        assert(status_of(b, cur, k) == FindingBaselineStatus::Existing);
        assert(used_after(b, cur, n) == used.insert(i));
        assert forall|x: int| #[trigger] used_after(b, cur, n).contains(x) implies exists|j: int|
            0 <= j < n && exact_match(b, cur[j].fingerprint@, b.len() as int) == Some(x) by {
            if x != i {
                assert(used.contains(x));
            }
        }
    }
}

/// Rescanning against a baseline that stores exactly the entries of the scan, when no
/// two entries share a fingerprint: every finding is existing, none is new or changed,
/// no stored entry is fixed, and the entries to store again are the scan's own.
pub proof fn lemma_rescan_matches_itself(stored: Seq<BaselineEntry>, cur: Seq<BaselineEntry>)
    requires
        stored.to_multiset() == cur.to_multiset(),
        forall|i: int, j: int| 0 <= i < j < cur.len() ==> cur[i].fingerprint@ != cur[j].fingerprint@,
    ensures
        forall|k: int| 0 <= k < cur.len() ==> status_of(stored, cur, k) == FindingBaselineStatus::Existing,
        count_status(stored, cur, cur.len() as int, FindingBaselineStatus::New) == 0,
        count_status(stored, cur, cur.len() as int, FindingBaselineStatus::Changed) == 0,
        count_status(stored, cur, cur.len() as int, FindingBaselineStatus::Existing) == cur.len(),
        unmatched(stored, used_after(stored, cur, cur.len() as int), stored.len() as int).len() == 0,
        carried_entries(stored, cur) == cur,
{
    broadcast use vstd::seq_lib::group_to_multiset_ensures;

    let n = cur.len() as int;
    lemma_rescan_steps(stored, cur, n);
    assert forall|k: int| 0 <= k < n implies status_of(stored, cur, k) == FindingBaselineStatus::Existing by {
        lemma_rescan_exact(stored, cur, k);
        let i = exact_match(stored, cur[k].fingerprint@, stored.len() as int)->0;
        assert(matched_index(stored, cur, k) == Some(i));
        assert(location_views(stored[i].related_locations@) == location_views(cur[k].related_locations@));
    }
    crate::baseline::lemma_baseline_entries_accounted(stored, cur);
    assert(stored.len() == stored.to_multiset().len());
    assert(cur.len() == cur.to_multiset().len());
    assert forall|k: int| 0 <= k < n implies #[trigger] carried_entries(stored, cur)[k] == cur[k] by {
        lemma_rescan_exact(stored, cur, k);
        let i = exact_match(stored, cur[k].fingerprint@, stored.len() as int)->0;
        assert(matched_index(stored, cur, k) == Some(i));
    }
    assert(carried_entries(stored, cur) =~= cur);
}

} // verus!
