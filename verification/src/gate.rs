//! The CI gate: which conditions fail a run, where the baseline is looked for, and
//! whether a run fails.
use vstd::prelude::*;

use crate::baseline::FindingBaselineStatus;
use crate::comparison::DEFAULT_BASELINE_PATH;
use crate::config::{entry_views, text_views, CodehealthConfig, LoadedConfig};
use crate::findings::{Finding, ScanResult, Severity};
use crate::policy::lookup;
use crate::suppressions::key_index;
use crate::text::{chars_eq, chars_of};

verus! {

broadcast use vstd::std_specs::vec::group_vec_axioms;

/// A condition that fails a run.
#[derive(Debug, Clone, Copy, PartialEq, Eq, Structural)]
pub enum FailOn {
    /// Any visible finding of high severity or above.
    High,
    /// A new finding of high severity or above.
    NewHigh,
    /// A new finding of medium severity or above.
    NewMedium,
}

impl FailOn {
    /// Whether the condition looks only at findings that are new against the baseline.
    pub open spec fn is_new_findings_only_spec(self) -> bool {
        self == FailOn::NewHigh || self == FailOn::NewMedium
    }

    /// Whether the condition looks only at findings that are new against the baseline.
    pub fn is_new_findings_only(self) -> (r: bool)
        ensures
            r == self.is_new_findings_only_spec(),
    {
        match self {
            FailOn::High => false,
            FailOn::NewHigh => true,
            FailOn::NewMedium => true,
        }
    }
}

/// The condition a configuration value names: `high`, `new_high` or `new_medium`.
pub open spec fn spec_config_fail_on(value: Seq<char>) -> Option<FailOn> {
    if value == "high"@ {
        Some(FailOn::High)
    } else if value == "new_high"@ {
        Some(FailOn::NewHigh)
    } else if value == "new_medium"@ {
        Some(FailOn::NewMedium)
    } else {
        None
    }
}

fn is_text(a: &str, b: &str) -> (r: bool)
    ensures
        r == (a@ == b@),
{
    chars_eq(chars_of(a).as_slice(), chars_of(b).as_slice())
}

/// The condition a configuration value names, if any.
pub fn config_fail_on(value: &str) -> (r: Option<FailOn>)
    ensures
        r == spec_config_fail_on(value@),
{
    if is_text(value, "high") {
        Some(FailOn::High)
    } else if is_text(value, "new_high") {
        Some(FailOn::NewHigh)
    } else if is_text(value, "new_medium") {
        Some(FailOn::NewMedium)
    } else {
        None
    }
}

/// The conditions named by the configured values, in order, unknown values skipped.
pub open spec fn configured_fail_on(values: Seq<Seq<char>>) -> Seq<FailOn>
    decreases values.len(),
{
    if values.len() == 0 {
        seq![]
    } else {
        let prev = configured_fail_on(values.drop_last());
        match spec_config_fail_on(values.last()) {
            Some(f) => prev.push(f),
            None => prev,
        }
    }
}

/// The conditions that apply: the one given on the command line; else those the
/// configuration names; else, in CI mode, new high findings; else none.
pub open spec fn spec_effective_fail_on(fail_on: Option<FailOn>, configured: Seq<Seq<char>>, ci_mode: bool) -> Seq<FailOn> {
    match fail_on {
        Some(f) => seq![f],
        None => if configured_fail_on(configured).len() > 0 {
            configured_fail_on(configured)
        } else if ci_mode {
            seq![FailOn::NewHigh]
        } else {
            seq![]
        },
    }
}

/// The conditions that fail this run.
pub fn effective_fail_on_values(fail_on: Option<FailOn>, loaded_config: &LoadedConfig, ci_mode: bool) -> (r: Vec<FailOn>)
    ensures
        r@ == spec_effective_fail_on(fail_on, text_views(loaded_config.config.ci.fail_on@), ci_mode),
{
    match fail_on {
        Some(f) => {
            let v = vec![f];
            assert(v@ =~= seq![f]);
            return v;
        },
        None => {},
    }
    let values = &loaded_config.config.ci.fail_on;
    let ghost tv = text_views(values@);
    let mut configured: Vec<FailOn> = Vec::new();
    for i in 0..values.len()
        invariant
            tv == text_views(values@),
            configured@ == configured_fail_on(tv.take(i as int)),
    {
        assert(tv.take(i + 1).drop_last() =~= tv.take(i as int));
        assert(tv.take(i + 1).last() == values@[i as int]@);
        match config_fail_on(values[i].as_str()) {
            Some(f) => configured.push(f),
            None => {},
        }
    }
    assert(tv.take(values@.len() as int) =~= tv);
    if configured.len() > 0 {
        configured
    } else if ci_mode {
        let v = vec![FailOn::NewHigh];
        assert(v@ =~= seq![FailOn::NewHigh]);
        v
    } else {
        Vec::new()
    }
}

/// The baseline path of a run: the one given on the command line, else the configured
/// one, else the default path in CI mode, else none.
pub fn effective_baseline_path(baseline_path: Option<&String>, config: &CodehealthConfig, ci_mode: bool) -> (r: Option<String>)
    ensures
        crate::baseline_keys::opt_view(r) == (match baseline_path {
            Some(p) => Some(p@),
            None => match config.ci.baseline {
                Some(b) => Some(b@),
                None => if ci_mode {
                    Some(DEFAULT_BASELINE_PATH@)
                } else {
                    None
                },
            },
        }),
{
    match baseline_path {
        Some(p) => Some(p.clone()),
        None => match &config.ci.baseline {
            Some(b) => Some(b.clone()),
            None => if ci_mode {
                Some(String::from_str(DEFAULT_BASELINE_PATH))
            } else {
                None
            },
        },
    }
}

/// The status recorded for a baseline key.
pub open spec fn status_for(statuses: Seq<(String, FindingBaselineStatus)>, key: Seq<char>) -> Option<FindingBaselineStatus> {
    lookup(entry_views(statuses), key)
}

/// A visible finding at or above `severity` whose baseline status is new.
pub open spec fn spec_has_new_at_or_above(
    findings: Seq<Finding>,
    severity: Severity,
    statuses: Seq<(String, FindingBaselineStatus)>,
) -> bool {
    exists|i: int|
        0 <= i < findings.len() && !(#[trigger] findings[i]).is_suppressed && findings[i].severity.spec_rank()
            >= severity.spec_rank() && status_for(statuses, findings[i].baseline_key@) == Some(
            FindingBaselineStatus::New,
        )
}

fn status_of_key(statuses: &Vec<(String, FindingBaselineStatus)>, key: &String) -> (r: Option<FindingBaselineStatus>)
    ensures
        r == status_for(statuses@, key@),
{
    let ghost v = entry_views(statuses@);
    for i in 0..statuses.len()
        invariant
            v == entry_views(statuses@),
            key_index(v, key@, i as int) == key_index(v, key@, 0),
    {
        assert(v[i as int].0 == statuses@[i as int].0@);
        if is_text(statuses[i].0.as_str(), key.as_str()) {
            return Some(statuses[i].1);
        }
    }
    None
}

/// Whether a visible finding at or above `severity` is new against the baseline.
pub fn has_new_finding_at_or_above(
    result: &ScanResult,
    severity: Severity,
    baseline_status_by_key: &Vec<(String, FindingBaselineStatus)>,
) -> (r: bool)
    ensures
        r == spec_has_new_at_or_above(result.findings@, severity, baseline_status_by_key@),
{
    for i in 0..result.findings.len()
        invariant
            forall|j: int|
                0 <= j < i ==> !(!(#[trigger] result.findings@[j]).is_suppressed && result.findings@[j].severity.spec_rank()
                    >= severity.spec_rank() && status_for(baseline_status_by_key@, result.findings@[j].baseline_key@)
                    == Some(FindingBaselineStatus::New)),
    {
        let f = &result.findings[i];
        if !f.is_suppressed && f.severity.rank() >= severity.rank() {
            match status_of_key(baseline_status_by_key, &f.baseline_key) {
                Some(FindingBaselineStatus::New) => {
                    return true;
                },
                _ => {},
            }
        }
    }
    false
}

/// Whether a condition holds for a run.
pub open spec fn spec_condition_holds(
    fail_on: FailOn,
    findings: Seq<Finding>,
    statuses: Seq<(String, FindingBaselineStatus)>,
) -> bool {
    match fail_on {
        FailOn::High => exists|i: int|
            0 <= i < findings.len() && !(#[trigger] findings[i]).is_suppressed && findings[i].severity.spec_rank()
                >= Severity::High.spec_rank(),
        FailOn::NewHigh => spec_has_new_at_or_above(findings, Severity::High, statuses),
        FailOn::NewMedium => spec_has_new_at_or_above(findings, Severity::Medium, statuses),
    }
}

fn has_visible_high(findings: &Vec<Finding>) -> (r: bool)
    ensures
        r == exists|i: int|
            0 <= i < findings@.len() && !(#[trigger] findings@[i]).is_suppressed && findings@[i].severity.spec_rank()
                >= Severity::High.spec_rank(),
{
    for i in 0..findings.len()
        invariant
            forall|j: int|
                0 <= j < i ==> !(!(#[trigger] findings@[j]).is_suppressed && findings@[j].severity.spec_rank()
                    >= Severity::High.spec_rank()),
    {
        if !findings[i].is_suppressed && findings[i].severity.rank() >= Severity::High.rank() {
            return true;
        }
    }
    false
}

/// A run fails when any of its conditions holds.
pub fn should_fail(
    result: &ScanResult,
    fail_on_values: &Vec<FailOn>,
    baseline_status_by_key: &Vec<(String, FindingBaselineStatus)>,
) -> (r: bool)
    ensures
        r == exists|k: int|
            0 <= k < fail_on_values@.len() && spec_condition_holds(
                #[trigger] fail_on_values@[k],
                result.findings@,
                baseline_status_by_key@,
            ),
{
    for k in 0..fail_on_values.len()
        invariant
            forall|j: int|
                0 <= j < k ==> !spec_condition_holds(
                    #[trigger] fail_on_values@[j],
                    result.findings@,
                    baseline_status_by_key@,
                ),
    {
        let holds = match fail_on_values[k] {
            FailOn::High => has_visible_high(&result.findings),
            FailOn::NewHigh => has_new_finding_at_or_above(result, Severity::High, baseline_status_by_key),
            FailOn::NewMedium => has_new_finding_at_or_above(result, Severity::Medium, baseline_status_by_key),
        };
        if holds {
            return true;
        }
    }
    false
}

/// A new finding of high severity is also a new finding of medium severity or above,
/// so a run that fails on `new_high` fails on `new_medium` too.
pub proof fn lemma_new_high_implies_new_medium(
    findings: Seq<Finding>,
    statuses: Seq<(String, FindingBaselineStatus)>,
)
    requires
        spec_condition_holds(FailOn::NewHigh, findings, statuses),
    ensures
        spec_condition_holds(FailOn::NewMedium, findings, statuses),
{
    let i = choose|i: int|
        0 <= i < findings.len() && !(#[trigger] findings[i]).is_suppressed && findings[i].severity.spec_rank()
            >= Severity::High.spec_rank() && status_for(statuses, findings[i].baseline_key@) == Some(
            FindingBaselineStatus::New,
        );
    assert(findings[i].severity.spec_rank() >= Severity::Medium.spec_rank());
}

/// A run that fails on `new_high` also fails on `high`: a new high finding is a
/// visible high finding.
pub proof fn lemma_new_high_implies_high(
    findings: Seq<Finding>,
    statuses: Seq<(String, FindingBaselineStatus)>,
)
    requires
        spec_condition_holds(FailOn::NewHigh, findings, statuses),
    ensures
        spec_condition_holds(FailOn::High, findings, statuses),
{
    let i = choose|i: int|
        0 <= i < findings.len() && !(#[trigger] findings[i]).is_suppressed && findings[i].severity.spec_rank()
            >= Severity::High.spec_rank() && status_for(statuses, findings[i].baseline_key@) == Some(
            FindingBaselineStatus::New,
        );
    assert(!findings[i].is_suppressed);
}

/// Suppressed findings never fail a run: when every finding is suppressed, no
/// condition holds, whatever the baseline says.
pub proof fn lemma_suppressed_findings_never_fail(
    fail_on: FailOn,
    findings: Seq<Finding>,
    statuses: Seq<(String, FindingBaselineStatus)>,
)
    requires
        forall|i: int| 0 <= i < findings.len() ==> (#[trigger] findings[i]).is_suppressed,
    ensures
        !spec_condition_holds(fail_on, findings, statuses),
{
}

/// Without baseline statuses no finding counts as new, so the conditions on new
/// findings never hold.
pub proof fn lemma_new_conditions_need_baseline(findings: Seq<Finding>, fail_on: FailOn)
    requires
        fail_on.is_new_findings_only_spec(),
    ensures
        !spec_condition_holds(fail_on, findings, Seq::<(String, FindingBaselineStatus)>::empty()),
{
    assert forall|k: Seq<char>| status_for(Seq::<(String, FindingBaselineStatus)>::empty(), k) == None::<FindingBaselineStatus> by {
        assert(entry_views(Seq::<(String, FindingBaselineStatus)>::empty()) =~= Seq::empty());
    }
}

/// The number of jobs given on the command line: a positive integer.
pub fn parse_jobs(value: &str) -> (r: Result<usize, String>)
    ensures
        match crate::text::spec_parse_usize(value@) {
            None => r matches Err(m) && m@ == "jobs must be a positive integer"@,
            Some(0) => r matches Err(m) && m@ == "jobs must be greater than zero"@,
            Some(n) => r == Ok::<usize, String>(n),
        },
{
    let chars = chars_of(value);
    match crate::text::parse_usize_chars(chars.as_slice()) {
        None => Err(String::from_str("jobs must be a positive integer")),
        Some(0) => Err(String::from_str("jobs must be greater than zero")),
        Some(n) => Ok(n),
    }
}

} // verus!
