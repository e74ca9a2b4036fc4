use codehealth::baseline::{match_entries, BaselineEntry, BaselineFile, FindingBaselineStatus};
use codehealth::baseline_keys::{context_hash, entry_for_finding, sorted_distinct};
use codehealth::comparison::{
    compare_entries, compare_findings, legacy_baseline, new_baseline, normalize_entry,
    sort_entries, update_baseline, LegacyFinding, LegacyLocation, BASELINE_SCHEMA_VERSION,
};
use codehealth::findings::{
    AutofixSafety, BaselineStatus, Confidence, Finding, FindingKind, FindingLocation, Location,
    MetadataValue, Severity, SourceSpan,
};
use sha2::Digest;

fn finding(id: &str, rule: &str, path: &str) -> Finding {
    Finding {
        finding_id: id.to_string(),
        baseline_key: format!("key-{id}"),
        rule_id: rule.to_string(),
        kind: FindingKind::ExactDuplicate,
        severity: Severity::High,
        confidence: Confidence::Certain,
        message: format!("message {id}"),
        locations: vec![FindingLocation {
            path: path.to_string(),
            span: None,
            start: Some(Location { line: 2, column: 1, byte_offset: 2 }),
            language: None,
        }],
        language: None,
        framework: None,
        explanation: String::new(),
        remediation: String::new(),
        detection_reason: String::new(),
        autofix: AutofixSafety::Unavailable,
        autofix_explanation: String::new(),
        fixes: Vec::new(),
        metadata: Vec::new(),
        is_suppressed: false,
        suppression: None,
    }
}

fn sha_hex(text: &str) -> String {
    sha2::Sha256::digest(text.as_bytes())
        .iter()
        .map(|b| format!("{b:02x}"))
        .collect()
}

fn entries_for(findings: &[Finding]) -> Vec<BaselineEntry> {
    findings
        .iter()
        .map(|f| entry_for_finding("/repo", f, &vec![Some("a\nb\nc\nd\n".to_string())], &None, 7))
        .collect()
}

#[test]
fn status_strings_are_stable() {
    assert_eq!(FindingBaselineStatus::New.as_str(), "new");
    assert_eq!(FindingBaselineStatus::Existing.as_str(), "existing");
    assert_eq!(FindingBaselineStatus::Changed.as_str(), "changed");
    assert_eq!(FindingBaselineStatus::NotChecked.as_str(), "not_checked");
}

#[test]
fn context_hash_hashes_normalized_span_text() {
    let location = FindingLocation {
        path: "a.ts".to_string(),
        span: Some(SourceSpan { start: 0, end: 9 }),
        start: None,
        language: None,
    };
    let hash = context_hash(&location, &Some("let   x=1;rest".to_string())).expect("hash");
    assert_eq!(hash, sha_hex("let x=1"));
    assert_eq!(context_hash(&location, &None), None);
    assert_eq!(context_hash(&location, &Some("   ".to_string())), None);
}

#[test]
fn context_hash_uses_lines_around_the_start() {
    let location = FindingLocation {
        path: "a.ts".to_string(),
        span: None,
        start: Some(Location { line: 5, column: 1, byte_offset: 0 }),
        language: None,
    };
    let source = "l1\nl2\nl3\nl4\nl5\nl6\nl7\nl8\nl9\nl10";
    let hash = context_hash(&location, &Some(source.to_string())).expect("hash");
    assert_eq!(hash, sha_hex("l2 l3 l4 l5 l6 l7 l8"));
}

#[test]
fn entry_records_paths_keys_and_fingerprint() {
    let mut f = finding("one", "duplicate.exact.file", "/repo/src/a.ts");
    f.metadata = vec![("normalized_file_hash".to_string(), MetadataValue::Text("abc".to_string()))];
    let entry = entry_for_finding(
        "/repo",
        &f,
        &vec![Some("line one\nline two\n".to_string())],
        &Some("team".to_string()),
        42,
    );
    assert_eq!(entry.path, "src/a.ts");
    assert_eq!(entry.normalized_path, "src/a.ts");
    assert_eq!(entry.fingerprint, sha_hex("duplicate.exact.file|content:abc"));
    assert_eq!(entry.first_seen, 42);
    assert_eq!(entry.owner.as_deref(), Some("team"));
    assert_eq!(entry.severity, "high");
    assert_eq!(entry.confidence, "certain");
    let mut sorted = entry.matching_keys.clone();
    sorted.sort();
    assert_eq!(sorted, entry.matching_keys);
    assert!(entry.matching_keys.contains(&"duplicate.exact.file|content:abc".to_string()));
    assert!(entry.matching_keys.contains(&"legacy:key-one".to_string()));
    let empty_owner = entry_for_finding("/repo", &f, &vec![None], &Some(String::new()), 1);
    assert_eq!(empty_owner.owner, None);
    assert_eq!(empty_owner.normalized_source_context_hash, "unknown");
}

#[test]
fn sorted_distinct_orders_and_dedupes() {
    let keys = vec!["b".to_string(), "a".to_string(), "b".to_string()];
    assert_eq!(sorted_distinct(&keys), vec!["a".to_string(), "b".to_string()]);
}

#[test]
fn matching_reports_new_existing_changed_and_fixed() {
    let stored = entries_for(&[
        finding("one", "rule.a", "/repo/a.ts"),
        finding("two", "rule.b", "/repo/b.ts"),
        finding("gone", "rule.c", "/repo/c.ts"),
    ]);
    let mut changed = finding("two", "rule.b", "/repo/b.ts");
    changed.message = "different".to_string();
    let current = entries_for(&[
        finding("one", "rule.a", "/repo/a.ts"),
        changed,
        finding("three", "rule.d", "/repo/d.ts"),
    ]);
    let result = match_entries(&stored, current);
    assert_eq!(result.new_count, 1);
    assert_eq!(result.existing_count, 1);
    assert_eq!(result.changed_count, 1);
    assert_eq!(result.fixed_entries.len(), 1);
    assert_eq!(result.fixed_entries[0].baseline_key, "key-gone");
    assert_eq!(result.new_keys, vec!["key-three".to_string()]);
    assert_eq!(
        result.status_by_key,
        vec![
            ("key-one".to_string(), FindingBaselineStatus::Existing),
            ("key-three".to_string(), FindingBaselineStatus::New),
            ("key-two".to_string(), FindingBaselineStatus::Changed),
        ]
    );
    // Every stored entry is either matched or fixed.
    assert_eq!(
        result.fixed_entries.len() + result.existing_count + result.changed_count,
        stored.len()
    );
}

#[test]
fn matched_entries_keep_first_seen_and_owner() {
    let mut stored = entries_for(&[finding("one", "rule.a", "/repo/a.ts")]);
    stored[0].first_seen = 3;
    stored[0].owner = Some("core".to_string());
    let current = entries_for(&[finding("one", "rule.a", "/repo/a.ts")]);
    let result = match_entries(&stored, current);
    assert_eq!(result.current_entries[0].first_seen, 3);
    assert_eq!(result.current_entries[0].owner.as_deref(), Some("core"));
}

#[test]
fn moved_finding_matches_by_fuzzy_key() {
    let stored = entries_for(&[finding("one", "rule.a", "/repo/a.ts")]);
    let mut current = entries_for(&[finding("one", "rule.a", "/repo/moved.ts")]);
    current[0].fingerprint = "different".to_string();
    let result = match_entries(&stored, current);
    assert_eq!(result.new_count, 0);
    assert_eq!(result.changed_count, 1);
}

#[test]
fn rescan_against_own_baseline_has_nothing_new() {
    let findings = vec![
        finding("one", "rule.a", "/repo/a.ts"),
        finding("two", "rule.b", "/repo/b.ts"),
    ];
    let file = new_baseline(
        "/repo",
        &findings,
        &vec![vec![None], vec![None]],
        &None,
        "0.1.0",
        "hash",
        5,
    );
    let comparison = compare_findings(
        "/repo",
        &findings,
        &vec![vec![None], vec![None]],
        Some("base.json".to_string()),
        Some(file),
        &None,
        9,
        true,
    );
    assert_eq!(comparison.summary.status, BaselineStatus::Compared);
    assert_eq!(comparison.summary.new_findings, Some(0));
    assert_eq!(comparison.summary.existing_findings, Some(2));
    assert_eq!(comparison.summary.fixed_findings, Some(0));
    assert!(comparison.new_keys.is_empty());
    assert!(comparison.updated_entries.iter().all(|e| e.first_seen == 5));
}

#[test]
fn missing_baseline_counts_all_as_new_only_when_asked() {
    let current = entries_for(&[finding("one", "rule.a", "/repo/a.ts")]);
    let strict = compare_entries(current.clone(), Some("b.json".to_string()), None, true);
    assert_eq!(strict.summary.status, BaselineStatus::Missing);
    assert_eq!(strict.summary.new_findings, Some(1));
    assert_eq!(strict.new_keys, vec!["key-one".to_string()]);
    assert_eq!(strict.status_by_key[0].1, FindingBaselineStatus::New);
    let lenient = compare_entries(current.clone(), Some("b.json".to_string()), None, false);
    assert_eq!(lenient.summary.new_findings, None);
    assert!(lenient.new_keys.is_empty());
    assert_eq!(lenient.status_by_key[0].1, FindingBaselineStatus::NotChecked);
    let unchecked = compare_entries(current, None, None, true);
    assert_eq!(unchecked.summary.status, BaselineStatus::NotChecked);
    assert_eq!(unchecked.path, None);
    assert_eq!(unchecked.status_by_key[0].1, FindingBaselineStatus::NotChecked);
}

#[test]
fn suppressed_findings_take_no_part() {
    let mut hidden = finding("one", "rule.a", "/repo/a.ts");
    hidden.is_suppressed = true;
    let comparison = compare_findings(
        "/repo",
        &vec![hidden],
        &vec![vec![None]],
        None,
        None,
        &None,
        1,
        false,
    );
    assert!(comparison.updated_entries.is_empty());
}

#[test]
fn written_entries_are_sorted_by_rule_fingerprint_and_path() {
    let entries = entries_for(&[
        finding("one", "rule.b", "/repo/a.ts"),
        finding("two", "rule.a", "/repo/b.ts"),
    ]);
    let sorted = sort_entries(entries);
    assert_eq!(sorted[0].rule_id, "rule.a");
    assert_eq!(sorted[1].rule_id, "rule.b");
}

#[test]
fn update_keeps_creation_time_when_known() {
    let current = entries_for(&[finding("one", "rule.a", "/repo/a.ts")]);
    let comparison = compare_entries(current, None, None, false);
    let kept = update_baseline(Some(11), 20, "C:\\repo", comparison.clone(), "1.0", "cfg");
    assert_eq!(kept.created_at, 11);
    assert_eq!(kept.updated_at, 20);
    assert_eq!(kept.workspace_root, "C:/repo");
    assert_eq!(kept.schema_version, BASELINE_SCHEMA_VERSION);
    let fresh = update_baseline(None, 20, "/repo", comparison, "1.0", "cfg");
    assert_eq!(fresh.created_at, 20);
    assert_eq!(fresh.entries.len(), 1);
}

#[test]
fn normalize_entry_fills_defaults() {
    let mut entry = entries_for(&[finding("one", "rule.a", "/repo/a.ts")]).remove(0);
    entry.normalized_path = String::new();
    entry.path = "src\\a.ts".to_string();
    entry.matching_keys = Vec::new();
    normalize_entry(&mut entry);
    assert_eq!(entry.normalized_path, "src/a.ts");
    assert_eq!(
        entry.matching_keys,
        vec![format!("fingerprint:{}", entry.fingerprint), "legacy:key-one".to_string()]
    );
}

#[test]
fn legacy_findings_become_entries() {
    let legacy = vec![
        LegacyFinding {
            baseline_key: Some("k1".to_string()),
            rule_id: None,
            locations: vec![
                LegacyLocation { path: None, line: Some(1), column: None },
                LegacyLocation { path: Some("/repo/src/x.py".to_string()), line: Some(4), column: Some(2) },
            ],
            severity: None,
            confidence: Some("high".to_string()),
            message: None,
        },
        LegacyFinding {
            baseline_key: None,
            rule_id: Some("r".to_string()),
            locations: Vec::new(),
            severity: None,
            confidence: None,
            message: None,
        },
    ];
    let file: BaselineFile = legacy_baseline("/repo", &legacy, &None, &None, &Some("cfg".to_string()), 77);
    assert_eq!(file.entries.len(), 1);
    let entry = &file.entries[0];
    assert_eq!(entry.rule_id, "unknown");
    assert_eq!(entry.fingerprint, sha_hex("unknown|legacy:k1"));
    assert_eq!(entry.path, "src/x.py");
    assert_eq!(entry.related_locations.len(), 1);
    assert_eq!(entry.related_locations[0].line, Some(4));
    assert_eq!(entry.severity, "info");
    assert_eq!(entry.confidence, "high");
    assert_eq!(entry.normalized_source_context_hash, "unknown");
    assert_eq!(file.tool_version, "unknown");
    assert_eq!(file.config_hash, "cfg");
    assert_eq!(file.created_at, 77);
}
