//! The configured policy applied to findings: rule levels with their path overrides,
//! per-rule path and confidence options, and inline suppressions.
use vstd::prelude::*;

use crate::config::{
    entry_views, insert_entry, insert_entry_exec, path_matches_any, spec_canonical_rule_id,
    spec_path_matches_any, text_views, CodehealthConfig, PathOverride, RuleCatalog, RuleLevel, RuleOptions,
};
use crate::findings::{Confidence, Finding, FindingLocation, Severity, Suppression};
use crate::paths::{path_components, path_eq_exec};
use crate::suppressions::{key_index, SuppressionDirective};
use crate::text::chars_of;

verus! {

broadcast use vstd::std_specs::vec::group_vec_axioms;

/// The value under `key`: that of the first entry with the key.
pub open spec fn lookup<V>(es: Seq<(Seq<char>, V)>, key: Seq<char>) -> Option<V> {
    match key_index(es, key, 0) {
        Some(p) => Some(es[p].1),
        None => None,
    }
}

proof fn lemma_key_index_found<V>(v: Seq<(Seq<char>, V)>, key: Seq<char>, i: int)
    requires
        0 <= i,
    ensures
        key_index(v, key, i) matches Some(p) ==> i <= p < v.len() && v[p].0 == key,
    decreases v.len() - i,
{
    if i < v.len() && v[i].0 != key {
        lemma_key_index_found(v, key, i + 1);
    }
}

fn text_is(a: &str, b: &str) -> (r: bool)
    ensures
        r == (a@ == b@),
{
    crate::text::chars_eq(chars_of(a).as_slice(), chars_of(b).as_slice())
}

pub(crate) fn find_entry<V>(es: &Vec<(String, V)>, key: &str) -> (r: Option<usize>)
    ensures
        match r {
            Some(p) => key_index(entry_views(es@), key@, 0) == Some(p as int) && p < es@.len(),
            None => key_index(entry_views(es@), key@, 0) is None,
        },
{
    let ghost v = entry_views(es@);
    for i in 0..es.len()
        invariant
            v == entry_views(es@),
            key_index(v, key@, i as int) == key_index(v, key@, 0),
    {
        assert(v[i as int].0 == es@[i as int].0@);
        if text_is(es[i].0.as_str(), key) {
            return Some(i);
        }
    }
    None
}

/// Whether an override applies: one of the paths matches one of its patterns.
pub open spec fn override_applies(root: Seq<char>, paths: Seq<Seq<char>>, o: PathOverride) -> bool {
    exists|i: int| 0 <= i < paths.len() && spec_path_matches_any(root, #[trigger] paths[i], text_views(o.paths@))
}

/// The level of a canonical rule after the first `n` path overrides: the configured
/// level (or `inherit`), replaced by each applying override that sets the rule.
pub open spec fn level_after(
    config: CodehealthConfig,
    canonical: Seq<char>,
    root: Seq<char>,
    paths: Seq<Seq<char>>,
    n: int,
) -> RuleLevel
    decreases n,
{
    if n <= 0 {
        match lookup(entry_views(config.rules@), canonical) {
            Some(l) => l,
            None => RuleLevel::Inherit,
        }
    } else {
        let prev = level_after(config, canonical, root, paths, n - 1);
        let o = config.path_overrides@[n - 1];
        if override_applies(root, paths, o) {
            match lookup(entry_views(o.rules@), canonical) {
                Some(l) => l,
                None => prev,
            }
        } else {
            prev
        }
    }
}

/// The canonical id of a rule, or the id itself when the catalogue does not know it.
pub open spec fn canonical_or_self(catalog: RuleCatalog, rule_id: Seq<char>) -> Seq<char> {
    match spec_canonical_rule_id(catalog, rule_id) {
        Some(c) => c,
        None => rule_id,
    }
}

/// The level of a rule for findings at `paths`.
pub open spec fn spec_level_for_rule(
    config: CodehealthConfig,
    catalog: RuleCatalog,
    rule_id: Seq<char>,
    root: Seq<char>,
    paths: Seq<Seq<char>>,
) -> RuleLevel {
    level_after(config, canonical_or_self(catalog, rule_id), root, paths, config.path_overrides@.len() as int)
}

fn any_path_matches(root: &str, paths: &Vec<String>, patterns: &Vec<String>) -> (r: bool)
    ensures
        r == (exists|i: int|
            0 <= i < paths@.len() && spec_path_matches_any(
                root@,
                #[trigger] text_views(paths@)[i],
                text_views(patterns@),
            )),
{
    for i in 0..paths.len()
        invariant
            forall|j: int|
                0 <= j < i ==> !spec_path_matches_any(root@, #[trigger] text_views(paths@)[j], text_views(patterns@)),
    {
        assert(text_views(paths@)[i as int] == paths@[i as int]@);
        if path_matches_any(root, paths[i].as_str(), patterns.as_slice()) {
            return true;
        }
    }
    false
}

impl CodehealthConfig {
    /// The level of a rule (by id or alias) for a finding at `paths`: the configured
    /// level of its canonical id, overridden in order by every path override whose
    /// patterns match one of the paths.
    pub fn level_for_rule(&self, catalog: &RuleCatalog, rule_id: &str, root: &str, paths: &Vec<String>) -> (r: RuleLevel)
        ensures
            r == spec_level_for_rule(*self, *catalog, rule_id@, root@, text_views(paths@)),
    {
        let canonical = match catalog.canonical_rule_id(rule_id) {
            Some(c) => c,
            None => String::from_str(rule_id),
        };
        let mut level = match find_entry(&self.rules, canonical.as_str()) {
            Some(p) => self.rules[p].1,
            None => RuleLevel::Inherit,
        };
        let ghost pv = text_views(paths@);
        for k in 0..self.path_overrides.len()
            invariant
                canonical@ == canonical_or_self(*catalog, rule_id@),
                pv == text_views(paths@),
                level == level_after(*self, canonical@, root@, pv, k as int),
        {
            let o = &self.path_overrides[k];
            if any_path_matches(root, paths, &o.paths) {
                assert(override_applies(root@, pv, *o));
                match find_entry(&o.rules, canonical.as_str()) {
                    Some(p) => {
                        level = o.rules[p].1;
                    },
                    None => {},
                }
            } else {
                assert(!override_applies(root@, pv, *o));
            }
        }
        level
    }

    /// The options of a rule (by id or alias), when the catalogue knows it and options
    /// are configured for its canonical id.
    pub fn rule_options_for(&self, catalog: &RuleCatalog, rule_id: &str) -> (r: Option<&RuleOptions>)
        ensures
            match r {
                Some(o) => spec_canonical_rule_id(*catalog, rule_id@) matches Some(c) && lookup(
                    entry_views(self.rule_options@),
                    c,
                ) == Some(*o),
                None => spec_canonical_rule_id(*catalog, rule_id@) matches Some(c) ==> lookup(
                    entry_views(self.rule_options@),
                    c,
                ) is None,
            },
    {
        let canonical = catalog.canonical_rule_id(rule_id)?;
        match find_entry(&self.rule_options, canonical.as_str()) {
            Some(p) => Some(&self.rule_options[p].1),
            None => None,
        }
    }
}

/// The paths of a finding's locations.
pub open spec fn location_paths(f: Finding) -> Seq<Seq<char>> {
    f.locations@.map_values(|l: FindingLocation| l.path@)
}

fn paths_of(f: &Finding) -> (r: Vec<String>)
    ensures
        text_views(r@) == location_paths(*f),
{
    let mut out: Vec<String> = Vec::new();
    for i in 0..f.locations.len()
        invariant
            text_views(out@) == location_paths(*f).take(i as int),
    {
        let ghost before = out@;
        let p = f.locations[i].path.clone();
        assert(p@ == f.locations@[i as int].path@);
        out.push(p);
        assert(out@ == before.push(p));
        assert(text_views(out@) =~= text_views(before).push(p@));
        assert(text_views(out@) =~= location_paths(*f).take(i + 1));
    }
    assert(location_paths(*f).take(f.locations@.len() as int) =~= location_paths(*f));
    out
}

/// Whether a rule's options let a finding through: some location matches the include
/// patterns when there are any, no location matches the exclude patterns, and the
/// finding is at least as confident as the minimum.
pub open spec fn spec_options_allow(f: Finding, root: Seq<char>, o: RuleOptions) -> bool {
    let paths = location_paths(f);
    &&& (o.include_paths@.len() == 0 || exists|i: int|
        0 <= i < paths.len() && spec_path_matches_any(root, #[trigger] paths[i], text_views(o.include_paths@)))
    &&& !(exists|i: int|
        0 <= i < paths.len() && spec_path_matches_any(root, #[trigger] paths[i], text_views(o.exclude_paths@)))
    &&& match o.min_confidence {
        Some(m) => f.confidence.spec_rank() >= m.spec_rank(),
        None => true,
    }
}

/// Whether the configured options of a finding's rule let it through; a rule without
/// options lets everything through.
pub open spec fn spec_rule_options_allow(f: Finding, root: Seq<char>, config: CodehealthConfig, catalog: RuleCatalog) -> bool {
    match spec_canonical_rule_id(catalog, f.rule_id@) {
        Some(c) => match lookup(entry_views(config.rule_options@), c) {
            Some(o) => spec_options_allow(f, root, o),
            None => true,
        },
        None => true,
    }
}

/// Whether the options configured for a finding's rule let it through.
pub fn rule_options_allow(finding: &Finding, root: &str, config: &CodehealthConfig, catalog: &RuleCatalog) -> (r: bool)
    ensures
        r == spec_rule_options_allow(*finding, root@, *config, *catalog),
{
    let options = match config.rule_options_for(catalog, finding.rule_id.as_str()) {
        Some(o) => o,
        None => {
            return true;
        },
    };
    let paths = paths_of(finding);
    let ghost pv = location_paths(*finding);
    if options.include_paths.len() > 0 && !any_path_matches(root, &paths, &options.include_paths) {
        return false;
    }
    if any_path_matches(root, &paths, &options.exclude_paths) {
        return false;
    }
    match options.min_confidence {
        Some(m) => {
            if finding.confidence.rank() < m.rank() {
                return false;
            }
        },
        None => {},
    }
    true
}


/// Whether a directive hides a finding of the canonical rule at a location: the location
/// has a start line, lies in the directive's file and the directive covers that line.
pub open spec fn hides_at(catalog: RuleCatalog, s: SuppressionDirective, canonical: Seq<char>, l: FindingLocation) -> bool {
    match l.start {
        Some(start) => path_components(s.path@) == path_components(l.path@) && s.spec_matches(
            catalog,
            canonical,
            start.line as int,
        ),
        None => false,
    }
}

/// The first directive from position `j` on that hides the finding at the location.
pub open spec fn first_hiding(
    catalog: RuleCatalog,
    sups: Seq<SuppressionDirective>,
    canonical: Seq<char>,
    l: FindingLocation,
    j: int,
) -> Option<int>
    decreases sups.len() - j,
{
    if j < 0 || j >= sups.len() {
        None
    } else if hides_at(catalog, sups[j], canonical, l) {
        Some(j)
    } else {
        first_hiding(catalog, sups, canonical, l, j + 1)
    }
}

/// For the locations from position `i` on, the first directive that hides the finding
/// at the first location that some directive covers.
pub open spec fn hiding_from(
    catalog: RuleCatalog,
    sups: Seq<SuppressionDirective>,
    canonical: Seq<char>,
    locs: Seq<FindingLocation>,
    i: int,
) -> Option<int>
    decreases locs.len() - i,
{
    if i < 0 || i >= locs.len() {
        None
    } else {
        match first_hiding(catalog, sups, canonical, locs[i], 0) {
            Some(j) => Some(j),
            None => hiding_from(catalog, sups, canonical, locs, i + 1),
        }
    }
}

/// The directive that suppresses a finding: none when the catalogue does not know its
/// rule.
pub open spec fn spec_find_suppression(catalog: RuleCatalog, f: Finding, sups: Seq<SuppressionDirective>) -> Option<int> {
    match spec_canonical_rule_id(catalog, f.rule_id@) {
        Some(c) => hiding_from(catalog, sups, c, f.locations@, 0),
        None => None,
    }
}

proof fn lemma_first_hiding_bounds(catalog: RuleCatalog, sups: Seq<SuppressionDirective>, canonical: Seq<char>, l: FindingLocation, j: int)
    requires
        0 <= j,
    ensures
        first_hiding(catalog, sups, canonical, l, j) matches Some(x) ==> j <= x < sups.len(),
    decreases sups.len() - j,
{
    if j < sups.len() && !hides_at(catalog, sups[j], canonical, l) {
        lemma_first_hiding_bounds(catalog, sups, canonical, l, j + 1);
    }
}

proof fn lemma_hiding_bounds(catalog: RuleCatalog, sups: Seq<SuppressionDirective>, canonical: Seq<char>, locs: Seq<FindingLocation>, i: int)
    requires
        0 <= i,
    ensures
        hiding_from(catalog, sups, canonical, locs, i) matches Some(x) ==> 0 <= x < sups.len(),
    decreases locs.len() - i,
{
    if i < locs.len() {
        lemma_first_hiding_bounds(catalog, sups, canonical, locs[i], 0);
        lemma_hiding_bounds(catalog, sups, canonical, locs, i + 1);
    }
}

/// The position of the directive that suppresses a finding, if any.
pub fn find_suppression_for_finding(finding: &Finding, suppressions: &Vec<SuppressionDirective>, catalog: &RuleCatalog) -> (r: Option<usize>)
    ensures
        match r {
            Some(x) => spec_find_suppression(*catalog, *finding, suppressions@) == Some(x as int) && x < suppressions@.len(),
            None => spec_find_suppression(*catalog, *finding, suppressions@) is None,
        },
{
    let canonical = match catalog.canonical_rule_id(finding.rule_id.as_str()) {
        Some(c) => c,
        None => {
            return None;
        },
    };
    let ghost sups = suppressions@;
    for i in 0..finding.locations.len()
        invariant
            sups == suppressions@,
            spec_canonical_rule_id(*catalog, finding.rule_id@) == Some(canonical@),
            hiding_from(*catalog, sups, canonical@, finding.locations@, i as int) == spec_find_suppression(
                *catalog,
                *finding,
                sups,
            ),
    {
        let l = &finding.locations[i];
        assert(*l == finding.locations@[i as int]);
        match l.start {
            Some(start) => {
                for j in 0..suppressions.len()
                    invariant
                        sups == suppressions@,
                        l.start == Some(start),
                        i < finding.locations@.len(),
                        *l == finding.locations@[i as int],
                        spec_canonical_rule_id(*catalog, finding.rule_id@) == Some(canonical@),
                        hiding_from(*catalog, sups, canonical@, finding.locations@, i as int) == spec_find_suppression(
                            *catalog,
                            *finding,
                            sups,
                        ),
                        first_hiding(*catalog, sups, canonical@, *l, j as int) == first_hiding(
                            *catalog,
                            sups,
                            canonical@,
                            *l,
                            0,
                        ),
                {
                    let s = &suppressions[j];
                    if path_eq_exec(s.path.as_str(), l.path.as_str()) && s.matches(catalog, canonical.as_str(), start.line) {
                        assert(hides_at(*catalog, sups[j as int], canonical@, *l));
                        assert(first_hiding(*catalog, sups, canonical@, *l, 0) == Some(j as int));
                        return Some(j);
                    }
                }
            },
            None => {
                assert(first_hiding(*catalog, sups, canonical@, *l, 0) is None) by {
                    lemma_no_start_hides_nothing(*catalog, sups, canonical@, *l, 0);
                }
            },
        }
    }
    None
}

proof fn lemma_no_start_hides_nothing(catalog: RuleCatalog, sups: Seq<SuppressionDirective>, canonical: Seq<char>, l: FindingLocation, j: int)
    requires
        l.start is None,
    ensures
        first_hiding(catalog, sups, canonical, l, j) is None,
    decreases sups.len() - j,
{
    if 0 <= j < sups.len() {
        lemma_no_start_hides_nothing(catalog, sups, canonical, l, j + 1);
    }
}


/// What applying the policy produced.
#[derive(Debug, Clone)]
pub struct PolicyOutcome {
    pub findings: Vec<Finding>,
    /// How many findings a directive suppressed.
    pub suppressed_count: usize,
    /// How many findings of each rule a directive suppressed, by rule id in id order.
    pub suppressed_rule_counts: Vec<(String, usize)>,
    /// One line per warning of each directive that suppressed a finding.
    pub warnings: Vec<String>,
}

/// Whether the policy keeps a finding: its rule options let it through and its rule
/// is not switched off for its paths.
pub open spec fn policy_keeps(f: Finding, root: Seq<char>, config: CodehealthConfig, catalog: RuleCatalog) -> bool {
    &&& spec_rule_options_allow(f, root, config, catalog)
    &&& spec_level_for_rule(config, catalog, f.rule_id@, root, location_paths(f)) != RuleLevel::Off
}

/// The directive that suppresses a finding, if any.
pub open spec fn policy_hit(catalog: RuleCatalog, f: Finding, sups: Seq<SuppressionDirective>) -> Option<SuppressionDirective> {
    match spec_find_suppression(catalog, f, sups) {
        Some(x) => Some(sups[x]),
        None => None,
    }
}

/// The suppression recorded on a finding from the directive that hid it.
pub open spec fn recorded_from(sp: Suppression, s: SuppressionDirective) -> bool {
    &&& sp.rule_id@ == s.rule_id@
    &&& sp.path@ == s.path@
    &&& sp.line == s.line
    &&& sp.kind == (match s.kind {
        crate::suppressions::SuppressionKind::NextLine => crate::findings::SuppressionKind::NextLine,
        crate::suppressions::SuppressionKind::Block => crate::findings::SuppressionKind::Block,
    })
    &&& crate::baseline_keys::opt_view(sp.reason) == crate::baseline_keys::opt_view(s.reason)
    &&& text_views(sp.warnings@) == text_views(s.warnings@)
}

/// `g` is `f` after the policy: the severity its level sets, and suppressed (with the
/// directive recorded) when a directive hides it; everything else unchanged.
pub open spec fn policy_applied(g: Finding, f: Finding, level: RuleLevel, hit: Option<SuppressionDirective>) -> bool {
    &&& g.severity == (match level {
        RuleLevel::Severity(s) => s,
        _ => f.severity,
    })
    &&& g.is_suppressed == (f.is_suppressed || hit is Some)
    &&& match hit {
        Some(s) => g.suppression matches Some(sp) && recorded_from(sp, s),
        None => g.suppression == f.suppression,
    }
    &&& g.finding_id == f.finding_id
    &&& g.baseline_key == f.baseline_key
    &&& g.rule_id == f.rule_id
    &&& g.kind == f.kind
    &&& g.confidence == f.confidence
    &&& g.message == f.message
    &&& g.locations == f.locations
    &&& g.language == f.language
    &&& g.framework == f.framework
    &&& g.explanation == f.explanation
    &&& g.remediation == f.remediation
    &&& g.detection_reason == f.detection_reason
    &&& g.autofix == f.autofix
    &&& g.autofix_explanation == f.autofix_explanation
    &&& g.fixes == f.fixes
    &&& g.metadata == f.metadata
}

/// The positions of the first `n` findings that the policy keeps and shows: kept, and
/// not suppressed unless suppressed findings are shown.
pub open spec fn policy_shown(
    fs: Seq<Finding>,
    root: Seq<char>,
    config: CodehealthConfig,
    catalog: RuleCatalog,
    sups: Seq<SuppressionDirective>,
    show_suppressed: bool,
    n: int,
) -> Seq<int>
    decreases n,
{
    if n <= 0 {
        seq![]
    } else {
        let prev = policy_shown(fs, root, config, catalog, sups, show_suppressed, n - 1);
        let f = fs[n - 1];
        if policy_keeps(f, root, config, catalog) && (!(f.is_suppressed || policy_hit(catalog, f, sups) is Some)
            || show_suppressed) {
            prev.push(n - 1)
        } else {
            prev
        }
    }
}

/// The positions of the first `n` findings that the policy keeps and a directive hides.
pub open spec fn policy_suppressed(
    fs: Seq<Finding>,
    root: Seq<char>,
    config: CodehealthConfig,
    catalog: RuleCatalog,
    sups: Seq<SuppressionDirective>,
    n: int,
) -> Seq<int>
    decreases n,
{
    if n <= 0 {
        seq![]
    } else {
        let prev = policy_suppressed(fs, root, config, catalog, sups, n - 1);
        let f = fs[n - 1];
        if policy_keeps(f, root, config, catalog) && policy_hit(catalog, f, sups) is Some {
            prev.push(n - 1)
        } else {
            prev
        }
    }
}

/// The number of findings of each rule among the given positions, by rule id in id order.
pub open spec fn count_by_rule(fs: Seq<Finding>, idx: Seq<int>) -> Seq<(Seq<char>, usize)>
    decreases idx.len(),
{
    if idx.len() == 0 {
        seq![]
    } else {
        let m = count_by_rule(fs, idx.drop_last());
        let k = fs[idx.last()].rule_id@;
        insert_entry(
            m,
            k,
            match lookup(m, k) {
                Some(c) => (c + 1) as usize,
                None => 1usize,
            },
        )
    }
}

/// The lines reporting the warnings of a directive.
pub open spec fn warning_lines(s: SuppressionDirective) -> Seq<Seq<char>> {
    text_views(s.warnings@).map_values(
        |w: Seq<char>|
            "warning: "@ + crate::text::spec_replace_char(s.path@, '\\', '/') + ":"@ + crate::text::spec_decimal(
                s.line as nat,
            ) + ": "@ + w,
    )
}

/// The warning lines of the directives that hid the findings at the given positions.
pub open spec fn policy_warnings(catalog: RuleCatalog, fs: Seq<Finding>, sups: Seq<SuppressionDirective>, idx: Seq<int>) -> Seq<Seq<char>>
    decreases idx.len(),
{
    if idx.len() == 0 {
        seq![]
    } else {
        policy_warnings(catalog, fs, sups, idx.drop_last()) + match policy_hit(catalog, fs[idx.last()], sups) {
            Some(s) => warning_lines(s),
            None => seq![],
        }
    }
}

proof fn lemma_insert_position_bound<V>(s: Seq<(Seq<char>, V)>, k: Seq<char>, i: int)
    requires
        0 <= i,
    ensures
        0 <= crate::config::insert_position(s, k, i) <= s.len(),
    decreases s.len() - i,
{
    if i < s.len() && !crate::sorting::chars_le(k, s[i].0) {
        lemma_insert_position_bound(s, k, i + 1);
    }
}

/// Every entry after an insertion is the inserted one or was there before.
proof fn lemma_insert_entry_elements<V>(s: Seq<(Seq<char>, V)>, k: Seq<char>, v: V)
    ensures
        forall|j: int|
            0 <= j < insert_entry(s, k, v).len() ==> #[trigger] insert_entry(s, k, v)[j] == (k, v) || s.contains(
                insert_entry(s, k, v)[j],
            ),
{
    let p = crate::config::insert_position(s, k, 0);
    lemma_insert_position_bound(s, k, 0);
    let r = insert_entry(s, k, v);
    assert forall|j: int| 0 <= j < r.len() implies #[trigger] r[j] == (k, v) || s.contains(r[j]) by {
        if p < s.len() && s[p].0 == k {
            if j != p {
                assert(r[j] == s[j]);
            }
        } else {
            if j < p {
                assert(r[j] == s[j]);
            } else if j > p {
                assert(r[j] == s[j - 1]);
            }
        }
    }
}

fn warning_line(path: &str, line: usize, warning: &str) -> (r: String)
    ensures
        r@ == "warning: "@ + crate::text::spec_replace_char(path@, '\\', '/') + ":"@ + crate::text::spec_decimal(
            line as nat,
        ) + ": "@ + warning@,
{
    let mut out = String::from_str("warning: ");
    let slashed = crate::text::string_from_chars(crate::text::replace_char(chars_of(path).as_slice(), '\\', '/').as_slice());
    out.append(slashed.as_str());
    out.append(":");
    let n = crate::text::decimal(line);
    out.append(n.as_str());
    out.append(": ");
    out.append(warning);
    out
}

fn copy_texts(v: &Vec<String>) -> (r: Vec<String>)
    ensures
        text_views(r@) == text_views(v@),
{
    let mut out: Vec<String> = Vec::new();
    for i in 0..v.len()
        invariant
            text_views(out@) == text_views(v@).take(i as int),
    {
        let ghost before = out@;
        let t = v[i].clone();
        assert(t@ == v@[i as int]@);
        out.push(t);
        assert(text_views(out@) =~= text_views(before).push(t@));
        assert(text_views(out@) =~= text_views(v@).take(i + 1));
    }
    assert(text_views(v@).take(v@.len() as int) =~= text_views(v@));
    out
}

/// Applies the configured policy to findings in order: drops those whose rule options
/// refuse them or whose rule is off for their paths, sets the severity their level
/// names, marks those an inline directive covers as suppressed, and keeps suppressed
/// findings only when they are to be shown.
pub fn apply_config_policy(
    findings: Vec<Finding>,
    root: &str,
    config: &CodehealthConfig,
    catalog: &RuleCatalog,
    suppressions: &Vec<SuppressionDirective>,
    show_suppressed: bool,
) -> (r: PolicyOutcome)
    ensures
        ({
            let fs = findings@;
            let n = fs.len() as int;
            let shown = policy_shown(fs, root@, *config, *catalog, suppressions@, show_suppressed, n);
            let hidden = policy_suppressed(fs, root@, *config, *catalog, suppressions@, n);
            &&& r.findings@.len() == shown.len()
            &&& forall|k: int|
                0 <= k < shown.len() ==> policy_applied(
                    #[trigger] r.findings@[k],
                    fs[shown[k]],
                    spec_level_for_rule(*config, *catalog, fs[shown[k]].rule_id@, root@, location_paths(fs[shown[k]])),
                    policy_hit(*catalog, fs[shown[k]], suppressions@),
                )
            &&& r.suppressed_count == hidden.len()
            &&& entry_views(r.suppressed_rule_counts@) == count_by_rule(fs, hidden)
            &&& text_views(r.warnings@) == policy_warnings(*catalog, fs, suppressions@, hidden)
        }),
{
    let ghost fs = findings@;
    let ghost sups = suppressions@;
    let n = findings.len();
    let mut rest = findings;
    let mut out: Vec<Finding> = Vec::new();
    let mut count: usize = 0;
    let mut counts: Vec<(String, usize)> = Vec::new();
    let mut warnings: Vec<String> = Vec::new();
    let mut k: usize = 0;
    while rest.len() > 0
        invariant
            fs.len() == n,
            sups == suppressions@,
            k + rest@.len() == n,
            forall|j: int| 0 <= j < rest@.len() ==> rest@[j] == fs[k + j],
            out@.len() == policy_shown(fs, root@, *config, *catalog, sups, show_suppressed, k as int).len(),
            forall|j: int|
                0 <= j < out@.len() ==> ({
                    let shown = policy_shown(fs, root@, *config, *catalog, sups, show_suppressed, k as int);
                    policy_applied(
                        #[trigger] out@[j],
                        fs[shown[j]],
                        spec_level_for_rule(*config, *catalog, fs[shown[j]].rule_id@, root@, location_paths(fs[shown[j]])),
                        policy_hit(*catalog, fs[shown[j]], sups),
                    )
                }),
            count == policy_suppressed(fs, root@, *config, *catalog, sups, k as int).len(),
            count <= k,
            entry_views(counts@) == count_by_rule(fs, policy_suppressed(fs, root@, *config, *catalog, sups, k as int)),
            forall|j: int| 0 <= j < counts@.len() ==> #[trigger] counts@[j].1 <= count,
            text_views(warnings@) == policy_warnings(*catalog, fs, sups, policy_suppressed(fs, root@, *config, *catalog, sups, k as int)),
        decreases rest.len(),
    {
        let ghost old_rest = rest@;
        let ghost shown_before = policy_shown(fs, root@, *config, *catalog, sups, show_suppressed, k as int);
        let ghost hidden_before = policy_suppressed(fs, root@, *config, *catalog, sups, k as int);
        let mut finding = rest.remove(0);
        let ghost original = finding;
        assert(original == fs[k as int]);
        let allowed = rule_options_allow(&finding, root, config, catalog);
        let paths = paths_of(&finding);
        let level = config.level_for_rule(catalog, finding.rule_id.as_str(), root, &paths);
        let keep = allowed && !level.is_off();
        if keep {
            match level.severity() {
                Some(sev) => {
                    finding.severity = sev;
                },
                None => {},
            }
            let hit = find_suppression_for_finding(&finding, suppressions, catalog);
            assert(spec_find_suppression(*catalog, finding, sups) == spec_find_suppression(*catalog, original, sups));
            match hit {
                Some(x) => {
                    let s = &suppressions[x];
                    let ghost wbefore = warnings@;
                    for w in 0..s.warnings.len()
                        invariant
                            text_views(warnings@) == text_views(wbefore) + warning_lines(*s).take(w as int),
                    {
                        let line = warning_line(s.path.as_str(), s.line, s.warnings[w].as_str());
                        let ghost before = warnings@;
                        warnings.push(line);
                        assert(text_views(warnings@) =~= text_views(before).push(line@));
                        assert(warning_lines(*s).take(w + 1) =~= warning_lines(*s).take(w as int).push(warning_lines(*s)[w as int]));
                    }
                    assert(warning_lines(*s).take(s.warnings@.len() as int) =~= warning_lines(*s));
                    let kind = match s.kind {
                        crate::suppressions::SuppressionKind::NextLine => crate::findings::SuppressionKind::NextLine,
                        crate::suppressions::SuppressionKind::Block => crate::findings::SuppressionKind::Block,
                    };
                    let reason = match &s.reason {
                        Some(t) => Some(t.clone()),
                        None => None,
                    };
                    finding.is_suppressed = true;
                    finding.suppression = Some(
                        Suppression {
                            rule_id: s.rule_id.clone(),
                            path: s.path.clone(),
                            line: s.line,
                            kind,
                            reason,
                            warnings: copy_texts(&s.warnings),
                        },
                    );
                    count = count + 1;
                    let ghost cv = entry_views(counts@);
                    let ghost old_counts = counts@;
                    let rule = finding.rule_id.clone();
                    let next = match find_entry(&counts, rule.as_str()) {
                        Some(p) => {
                            assert(counts@[p as int].1 <= count - 1);
                            assert(cv[p as int].1 == counts@[p as int].1);
                            counts[p].1 + 1
                        },
                        None => 1,
                    };
                    assert(next == (match lookup(cv, rule@) {
                        Some(c) => (c + 1) as usize,
                        None => 1usize,
                    }));
                    insert_entry_exec(&mut counts, rule, next);
                    proof {
                        lemma_insert_entry_elements(cv, original.rule_id@, next);
                        assert forall|j: int| 0 <= j < counts@.len() implies #[trigger] counts@[j].1 <= count by {
                            let e = entry_views(counts@)[j];
                            assert(e == insert_entry(cv, original.rule_id@, next)[j]);
                            if e != (original.rule_id@, next) {
                                let q = choose|q: int| 0 <= q < cv.len() && cv[q] == e;
                                assert(cv[q].1 == old_counts[q].1);
                            }
                        }
                    }
                },
                None => {},
            }
            if !finding.is_suppressed || show_suppressed {
                out.push(finding);
            }
        }
        k = k + 1;
        proof {
            assert forall|j: int| 0 <= j < rest@.len() implies rest@[j] == fs[k + j] by {
                assert(rest@[j] == old_rest[j + 1]);
            }
            let hidden_after = policy_suppressed(fs, root@, *config, *catalog, sups, k as int);
            if policy_keeps(original, root@, *config, *catalog) && policy_hit(*catalog, original, sups) is Some {
                assert(hidden_after == hidden_before.push(k - 1));
                assert(hidden_after.drop_last() =~= hidden_before);
                assert(hidden_after.last() == k - 1);
            } else {
                assert(hidden_after == hidden_before);
            }
        }
    }
    PolicyOutcome { findings: out, suppressed_count: count, suppressed_rule_counts: counts, warnings }
}

} // verus!
