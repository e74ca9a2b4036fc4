//! Comparing the findings of a scan with a stored baseline: each current finding is
//! matched to at most one baseline entry, first by exact fingerprint and then by its
//! fuzzy matching keys, and is reported as new, existing or changed; baseline entries
//! that nothing matched are reported as fixed.
use vstd::prelude::*;

use crate::config::{entry_views, insert_entry, insert_entry_exec, text_views};
use crate::text::{chars_eq, chars_of, contains_chars, occurs_at, starts_with};

verus! {

broadcast use vstd::std_specs::vec::group_vec_axioms;

/// How a current finding relates to the baseline.
#[derive(Debug, Clone, Copy, PartialEq, Eq, Structural)]
pub enum FindingBaselineStatus {
    New,
    Existing,
    Changed,
    NotChecked,
}

impl FindingBaselineStatus {
    pub open spec fn spec_str(self) -> Seq<char> {
        match self {
            FindingBaselineStatus::New => "new"@,
            FindingBaselineStatus::Existing => "existing"@,
            FindingBaselineStatus::Changed => "changed"@,
            FindingBaselineStatus::NotChecked => "not_checked"@,
        }
    }

    /// The status as it is written in reports.
    pub fn as_str(self) -> (r: &'static str)
        ensures
            r@ == self.spec_str(),
    {
        match self {
            FindingBaselineStatus::New => "new",
            FindingBaselineStatus::Existing => "existing",
            FindingBaselineStatus::Changed => "changed",
            FindingBaselineStatus::NotChecked => "not_checked",
        }
    }
}

/// A location recorded in the baseline.
#[derive(Debug, Clone)]
pub struct BaselineLocation {
    pub path: String,
    pub normalized_path: String,
    pub line: Option<usize>,
    pub column: Option<usize>,
    pub context_hash: Option<String>,
}

/// A finding recorded in the baseline.
#[derive(Debug, Clone)]
pub struct BaselineEntry {
    pub fingerprint: String,
    pub baseline_key: String,
    pub rule_id: String,
    pub path: String,
    pub normalized_path: String,
    pub normalized_source_context_hash: String,
    pub related_locations: Vec<BaselineLocation>,
    pub first_seen: u64,
    pub owner: Option<String>,
    pub severity: String,
    pub confidence: String,
    pub message: String,
    pub matching_keys: Vec<String>,
}

/// A stored baseline.
#[derive(Debug, Clone)]
pub struct BaselineFile {
    pub schema_version: String,
    pub tool_version: String,
    pub workspace_root: String,
    pub created_at: u64,
    pub updated_at: u64,
    pub config_hash: String,
    pub entries: Vec<BaselineEntry>,
}

/// A baseline entry that no current finding matched.
#[derive(Debug, Clone)]
pub struct FixedBaselineEntry {
    pub baseline_key: String,
    pub fingerprint: String,
    pub rule_id: String,
    pub path: String,
    pub message: String,
    pub first_seen: u64,
    pub owner: Option<String>,
}

/// The texts of a baseline location.
pub open spec fn location_view(l: BaselineLocation) -> (Seq<char>, Seq<char>, Option<usize>, Option<usize>, Option<Seq<char>>) {
    (
        l.path@,
        l.normalized_path@,
        l.line,
        l.column,
        match l.context_hash {
            Some(h) => Some(h@),
            None => None,
        },
    )
}

pub open spec fn location_views(ls: Seq<BaselineLocation>) -> Seq<(Seq<char>, Seq<char>, Option<usize>, Option<usize>, Option<Seq<char>>)> {
    ls.map_values(|l: BaselineLocation| location_view(l))
}

/// A matched finding differs from its baseline entry in path, locations, message,
/// severity or confidence.
pub open spec fn spec_entry_changed(baseline: BaselineEntry, current: BaselineEntry) -> bool {
    ||| baseline.path@ != current.path@
    ||| location_views(baseline.related_locations@) != location_views(current.related_locations@)
    ||| baseline.message@ != current.message@
    ||| baseline.severity@ != current.severity@
    ||| baseline.confidence@ != current.confidence@
}

fn str_eq(a: &String, b: &String) -> (r: bool)
    ensures
        r == (a@ == b@),
{
    chars_eq(chars_of(a.as_str()).as_slice(), chars_of(b.as_str()).as_slice())
}

fn opt_str_eq(a: &Option<String>, b: &Option<String>) -> (r: bool)
    ensures
        r == (match (a, b) {
            (Some(x), Some(y)) => x@ == y@,
            (None, None) => true,
            _ => false,
        }),
{
    match (a, b) {
        (Some(x), Some(y)) => str_eq(x, y),
        (None, None) => true,
        _ => false,
    }
}

fn locations_equal(a: &Vec<BaselineLocation>, b: &Vec<BaselineLocation>) -> (r: bool)
    ensures
        r == (location_views(a@) == location_views(b@)),
{
    if a.len() != b.len() {
        assert(location_views(a@).len() != location_views(b@).len());
        return false;
    }
    for i in 0..a.len()
        invariant
            a@.len() == b@.len(),
            forall|j: int| 0 <= j < i ==> location_view(a@[j]) == location_view(b@[j]),
    {
        let x = &a[i];
        let y = &b[i];
        let same = str_eq(&x.path, &y.path) && str_eq(&x.normalized_path, &y.normalized_path) && x.line == y.line
            && x.column == y.column && opt_str_eq(&x.context_hash, &y.context_hash);
        if !same {
            assert(location_views(a@)[i as int] != location_views(b@)[i as int]);
            return false;
        }
    }
    assert(location_views(a@) =~= location_views(b@));
    true
}

/// Whether a matched finding changed against its baseline entry.
pub fn entry_changed(baseline: &BaselineEntry, current: &BaselineEntry) -> (r: bool)
    ensures
        r == spec_entry_changed(*baseline, *current),
{
    !str_eq(&baseline.path, &current.path) || !locations_equal(&baseline.related_locations, &current.related_locations)
        || !str_eq(&baseline.message, &current.message) || !str_eq(&baseline.severity, &current.severity)
        || !str_eq(&baseline.confidence, &current.confidence)
}

/// The last baseline entry with the fingerprint, as an index keyed by fingerprint
/// keeps it.
pub open spec fn exact_match(baseline: Seq<BaselineEntry>, fingerprint: Seq<char>, n: int) -> Option<int>
    decreases n,
{
    if n <= 0 {
        None
    } else if baseline[n - 1].fingerprint@ == fingerprint {
        Some(n - 1)
    } else {
        exact_match(baseline, fingerprint, n - 1)
    }
}

/// A matching key that may pair a finding with a different baseline entry: legacy keys
/// and keys by content, route, context or group.
pub open spec fn fuzzy_key(key: Seq<char>) -> bool {
    ||| (key.len() >= 7 && key.take(7) == "legacy:"@)
    ||| (exists|q: int| occurs_at(key, "|content:"@, q))
    ||| (exists|q: int| occurs_at(key, "|route:"@, q))
    ||| (exists|q: int| occurs_at(key, "|context:"@, q))
    ||| (exists|q: int| occurs_at(key, "|group:"@, q))
}

/// The first unused baseline entry, from position `j` on, that lists `key`.
pub open spec fn first_unused_with_key(baseline: Seq<BaselineEntry>, key: Seq<char>, used: Set<int>, j: int) -> Option<int>
    decreases baseline.len() - j,
{
    if j < 0 || j >= baseline.len() {
        None
    } else if text_views(baseline[j].matching_keys@).contains(key) && !used.contains(j) {
        Some(j)
    } else {
        first_unused_with_key(baseline, key, used, j + 1)
    }
}

/// The fuzzy match of a finding: for its fuzzy keys in order, the first unused baseline
/// entry that lists the key.
pub open spec fn fuzzy_match(baseline: Seq<BaselineEntry>, keys: Seq<Seq<char>>, used: Set<int>, k: int) -> Option<int>
    decreases keys.len() - k,
{
    if k < 0 || k >= keys.len() {
        None
    } else if fuzzy_key(keys[k]) && first_unused_with_key(baseline, keys[k], used, 0) is Some {
        first_unused_with_key(baseline, keys[k], used, 0)
    } else {
        fuzzy_match(baseline, keys, used, k + 1)
    }
}

/// The baseline entry a finding is matched to, given the entries already used: its
/// exact fingerprint match when that is still unused, else its fuzzy match.
pub open spec fn match_for(baseline: Seq<BaselineEntry>, current: BaselineEntry, used: Set<int>) -> Option<int> {
    match exact_match(baseline, current.fingerprint@, baseline.len() as int) {
        Some(i) if !used.contains(i) => Some(i),
        _ => fuzzy_match(baseline, text_views(current.matching_keys@), used, 0),
    }
}

/// The baseline entries used after matching the first `n` findings in order.
pub open spec fn used_after(baseline: Seq<BaselineEntry>, currents: Seq<BaselineEntry>, n: int) -> Set<int>
    decreases n,
{
    if n <= 0 {
        Set::empty()
    } else {
        let used = used_after(baseline, currents, n - 1);
        match match_for(baseline, currents[n - 1], used) {
            Some(i) => used.insert(i),
            None => used,
        }
    }
}

/// The baseline entry finding `n` is matched to.
pub open spec fn matched_index(baseline: Seq<BaselineEntry>, currents: Seq<BaselineEntry>, n: int) -> Option<int> {
    match_for(baseline, currents[n], used_after(baseline, currents, n))
}

/// What matching produced.
#[derive(Debug, Clone)]
pub struct MatchResult {
    pub current_entries: Vec<BaselineEntry>,
    /// Status by baseline key, in key order.
    pub status_by_key: Vec<(String, FindingBaselineStatus)>,
    /// The baseline keys of new findings, in key order, each once.
    pub new_keys: Vec<String>,
    pub fixed_entries: Vec<FixedBaselineEntry>,
    pub new_count: usize,
    pub existing_count: usize,
    pub changed_count: usize,
}

/// A current entry after matching: a matched entry keeps the baseline's first-seen time
/// and, when the baseline names one, its owner.
pub open spec fn carried(current: BaselineEntry, baseline: Seq<BaselineEntry>, m: Option<int>) -> BaselineEntry {
    match m {
        Some(i) => BaselineEntry {
            first_seen: baseline[i].first_seen,
            owner: if baseline[i].owner is Some {
                baseline[i].owner
            } else {
                current.owner
            },
            ..current
        },
        None => current,
    }
}

/// The status of finding `n`.
pub open spec fn status_of(baseline: Seq<BaselineEntry>, currents: Seq<BaselineEntry>, n: int) -> FindingBaselineStatus {
    match matched_index(baseline, currents, n) {
        Some(i) => if spec_entry_changed(baseline[i], currents[n]) {
            FindingBaselineStatus::Changed
        } else {
            FindingBaselineStatus::Existing
        },
        None => FindingBaselineStatus::New,
    }
}

/// The status of a finding matched to a baseline entry follows what it reports: it is
/// `Changed` when its path, related locations, message, severity or confidence differ
/// from the entry's, and `Existing` when all of them are the same. An unmatched finding
/// is `New`.
pub proof fn lemma_matched_status_follows_reported_fields(baseline: Seq<BaselineEntry>, currents: Seq<BaselineEntry>, n: int)
    requires
        0 <= n < currents.len(),
    ensures
        matched_index(baseline, currents, n) is None ==> status_of(baseline, currents, n) == FindingBaselineStatus::New,
        matched_index(baseline, currents, n) matches Some(i) ==> {
            let b = baseline[i];
            let c = currents[n];
            &&& b.severity@ != c.severity@ ==> status_of(baseline, currents, n) == FindingBaselineStatus::Changed
            &&& b.confidence@ != c.confidence@ ==> status_of(baseline, currents, n) == FindingBaselineStatus::Changed
            &&& b.message@ != c.message@ ==> status_of(baseline, currents, n) == FindingBaselineStatus::Changed
            &&& b.path@ != c.path@ ==> status_of(baseline, currents, n) == FindingBaselineStatus::Changed
            &&& b.related_locations@.len() != c.related_locations@.len() ==> status_of(baseline, currents, n)
                == FindingBaselineStatus::Changed
            &&& (b.severity@ == c.severity@ && b.confidence@ == c.confidence@ && b.message@ == c.message@ && b.path@
                == c.path@ && location_views(b.related_locations@) == location_views(c.related_locations@))
                ==> status_of(baseline, currents, n) == FindingBaselineStatus::Existing
        },
{
    match matched_index(baseline, currents, n) {
        Some(i) => {
            let b = baseline[i];
            let c = currents[n];
            if b.related_locations@.len() != c.related_locations@.len() {
                assert(location_views(b.related_locations@).len() != location_views(c.related_locations@).len());
            }
        },
        None => {},
    }
}

/// How many of the first `n` findings have status `s`.
pub open spec fn count_status(baseline: Seq<BaselineEntry>, currents: Seq<BaselineEntry>, n: int, s: FindingBaselineStatus) -> nat
    decreases n,
{
    if n <= 0 {
        0
    } else {
        count_status(baseline, currents, n - 1, s) + if status_of(baseline, currents, n - 1) == s {
            1nat
        } else {
            0nat
        }
    }
}

/// The status map after the first `n` findings.
pub open spec fn status_map(baseline: Seq<BaselineEntry>, currents: Seq<BaselineEntry>, n: int) -> Seq<(Seq<char>, FindingBaselineStatus)>
    decreases n,
{
    if n <= 0 {
        seq![]
    } else {
        insert_entry(status_map(baseline, currents, n - 1), currents[n - 1].baseline_key@, status_of(baseline, currents, n - 1))
    }
}

/// The set of keys of the new findings among the first `n`, as a key-ordered map.
pub open spec fn new_key_map(baseline: Seq<BaselineEntry>, currents: Seq<BaselineEntry>, n: int) -> Seq<(Seq<char>, ())>
    decreases n,
{
    if n <= 0 {
        seq![]
    } else {
        let earlier = new_key_map(baseline, currents, n - 1);
        if status_of(baseline, currents, n - 1) == FindingBaselineStatus::New {
            insert_entry(earlier, currents[n - 1].baseline_key@, ())
        } else {
            earlier
        }
    }
}

/// The baseline entries no finding matched, in baseline order.
pub open spec fn unmatched(baseline: Seq<BaselineEntry>, used: Set<int>, n: int) -> Seq<BaselineEntry>
    decreases n,
{
    if n <= 0 {
        seq![]
    } else {
        let earlier = unmatched(baseline, used, n - 1);
        if used.contains(n - 1) {
            earlier
        } else {
            earlier.push(baseline[n - 1])
        }
    }
}

/// The fixed entry reported for a baseline entry.
pub open spec fn fixed_from(f: FixedBaselineEntry, e: BaselineEntry) -> bool {
    &&& f.baseline_key@ == e.baseline_key@
    &&& f.fingerprint@ == e.fingerprint@
    &&& f.rule_id@ == e.rule_id@
    &&& f.path@ == e.path@
    &&& f.message@ == e.message@
    &&& f.first_seen == e.first_seen
    &&& f.owner == e.owner
}

fn is_fuzzy_key(key: &String) -> (r: bool)
    ensures
        r == fuzzy_key(key@),
{
    let k = chars_of(key.as_str());
    let legacy = chars_of("legacy:");
    let content = chars_of("|content:");
    let route = chars_of("|route:");
    let context = chars_of("|context:");
    let group = chars_of("|group:");
    proof {
        reveal_strlit("legacy:");
    }
    starts_with(k.as_slice(), legacy.as_slice()) || contains_chars(k.as_slice(), content.as_slice())
        || contains_chars(k.as_slice(), route.as_slice()) || contains_chars(k.as_slice(), context.as_slice())
        || contains_chars(k.as_slice(), group.as_slice())
}

fn lists_key(keys: &Vec<String>, key: &String) -> (r: bool)
    ensures
        r == text_views(keys@).contains(key@),
{
    for i in 0..keys.len()
        invariant
            forall|j: int| 0 <= j < i ==> keys@[j]@ != key@,
    {
        if str_eq(&keys[i], key) {
            assert(text_views(keys@)[i as int] == key@);
            return true;
        }
    }
    assert forall|j: int| 0 <= j < text_views(keys@).len() implies text_views(keys@)[j] != key@ by {
        assert(text_views(keys@)[j] == keys@[j]@);
    }
    false
}

/// The set of positions whose flag is set.
pub open spec fn flag_set(flags: Seq<bool>) -> Set<int> {
    Set::new(|i: int| 0 <= i < flags.len() && flags[i])
}

fn exact_match_exec(baseline: &[BaselineEntry], fingerprint: &String) -> (r: Option<usize>)
    ensures
        match r {
            Some(i) => exact_match(baseline@, fingerprint@, baseline@.len() as int) == Some(i as int),
            None => exact_match(baseline@, fingerprint@, baseline@.len() as int) is None,
        },
{
    let mut n = baseline.len();
    while n > 0
        invariant
            n <= baseline@.len(),
            exact_match(baseline@, fingerprint@, n as int) == exact_match(baseline@, fingerprint@, baseline@.len() as int),
        decreases n,
    {
        if str_eq(&baseline[n - 1].fingerprint, fingerprint) {
            return Some(n - 1);
        }
        n = n - 1;
    }
    None
}

fn first_unused_with_key_exec(baseline: &[BaselineEntry], key: &String, used: &Vec<bool>) -> (r: Option<usize>)
    requires
        used@.len() == baseline@.len(),
    ensures
        match r {
            Some(i) => first_unused_with_key(baseline@, key@, flag_set(used@), 0) == Some(i as int),
            None => first_unused_with_key(baseline@, key@, flag_set(used@), 0) is None,
        },
{
    for j in 0..baseline.len()
        invariant
            used@.len() == baseline@.len(),
            first_unused_with_key(baseline@, key@, flag_set(used@), j as int) == first_unused_with_key(
                baseline@,
                key@,
                flag_set(used@),
                0,
            ),
    {
        if lists_key(&baseline[j].matching_keys, key) && !used[j] {
            return Some(j);
        }
    }
    None
}

fn fuzzy_match_exec(baseline: &[BaselineEntry], current: &BaselineEntry, used: &Vec<bool>) -> (r: Option<usize>)
    requires
        used@.len() == baseline@.len(),
    ensures
        match r {
            Some(i) => fuzzy_match(baseline@, text_views(current.matching_keys@), flag_set(used@), 0) == Some(i as int),
            None => fuzzy_match(baseline@, text_views(current.matching_keys@), flag_set(used@), 0) is None,
        },
{
    let ghost keys = text_views(current.matching_keys@);
    for k in 0..current.matching_keys.len()
        invariant
            used@.len() == baseline@.len(),
            keys == text_views(current.matching_keys@),
            fuzzy_match(baseline@, keys, flag_set(used@), k as int) == fuzzy_match(baseline@, keys, flag_set(used@), 0),
    {
        let key = &current.matching_keys[k];
        assert(keys[k as int] == key@);
        if is_fuzzy_key(key) {
            match first_unused_with_key_exec(baseline, key, used) {
                Some(i) => {
                    return Some(i);
                },
                None => {},
            }
        }
    }
    None
}

proof fn lemma_first_unused_bounds(baseline: Seq<BaselineEntry>, key: Seq<char>, used: Set<int>, j: int)
    requires
        0 <= j,
    ensures
        match first_unused_with_key(baseline, key, used, j) {
            Some(i) => j <= i < baseline.len() && !used.contains(i),
            None => true,
        },
    decreases baseline.len() - j,
{
    if j < baseline.len() && !(text_views(baseline[j].matching_keys@).contains(key) && !used.contains(j)) {
        lemma_first_unused_bounds(baseline, key, used, j + 1);
    }
}

proof fn lemma_fuzzy_bounds(baseline: Seq<BaselineEntry>, keys: Seq<Seq<char>>, used: Set<int>, k: int)
    requires
        0 <= k,
    ensures
        match fuzzy_match(baseline, keys, used, k) {
            Some(i) => 0 <= i < baseline.len() && !used.contains(i),
            None => true,
        },
    decreases keys.len() - k,
{
    if k < keys.len() {
        lemma_first_unused_bounds(baseline, keys[k], used, 0);
        lemma_fuzzy_bounds(baseline, keys, used, k + 1);
    }
}

proof fn lemma_exact_bounds(baseline: Seq<BaselineEntry>, fp: Seq<char>, n: int)
    requires
        n <= baseline.len(),
    ensures
        match exact_match(baseline, fp, n) {
            Some(i) => 0 <= i < n,
            None => true,
        },
    decreases n,
{
    if n > 0 {
        lemma_exact_bounds(baseline, fp, n - 1);
    }
}

/// A match is an entry of the baseline that was not used yet.
pub proof fn lemma_match_for_unused(baseline: Seq<BaselineEntry>, current: BaselineEntry, used: Set<int>)
    ensures
        match match_for(baseline, current, used) {
            Some(i) => 0 <= i < baseline.len() && !used.contains(i),
            None => true,
        },
{
    lemma_exact_bounds(baseline, current.fingerprint@, baseline.len() as int);
    lemma_fuzzy_bounds(baseline, text_views(current.matching_keys@), used, 0);
}

fn clone_owner(o: &Option<String>) -> (r: Option<String>)
    ensures
        r == *o,
{
    match o {
        Some(s) => Some(s.clone()),
        None => None,
    }
}

fn insert_key(set: &mut Vec<(String, ())>, key: String)
    ensures
        entry_views(final(set)@) == insert_entry(entry_views(old(set)@), key@, ()),
{
    insert_entry_exec(set, key, ());
}

/// Matches the current entries against the baseline, in order, each to at most one
/// baseline entry, and reports statuses, counts and the baseline entries left
/// unmatched.
pub fn match_entries(baseline_entries: &[BaselineEntry], current_entries: Vec<BaselineEntry>) -> (r: MatchResult)
    ensures
        r.current_entries@.len() == current_entries@.len(),
        forall|k: int|
            0 <= k < current_entries@.len() ==> #[trigger] r.current_entries@[k] == carried(
                current_entries@[k],
                baseline_entries@,
                matched_index(baseline_entries@, current_entries@, k),
            ),
        r.new_count == count_status(baseline_entries@, current_entries@, current_entries@.len() as int, FindingBaselineStatus::New),
        r.existing_count == count_status(baseline_entries@, current_entries@, current_entries@.len() as int, FindingBaselineStatus::Existing),
        r.changed_count == count_status(baseline_entries@, current_entries@, current_entries@.len() as int, FindingBaselineStatus::Changed),
        entry_views(r.status_by_key@) == status_map(baseline_entries@, current_entries@, current_entries@.len() as int),
        r.new_keys@.map_values(|k: String| (k@, ())) == new_key_map(baseline_entries@, current_entries@, current_entries@.len() as int),
        r.fixed_entries@.len() == unmatched(
            baseline_entries@,
            used_after(baseline_entries@, current_entries@, current_entries@.len() as int),
            baseline_entries@.len() as int,
        ).len(),
        forall|f: int|
            0 <= f < r.fixed_entries@.len() ==> fixed_from(
                #[trigger] r.fixed_entries@[f],
                unmatched(
                    baseline_entries@,
                    used_after(baseline_entries@, current_entries@, current_entries@.len() as int),
                    baseline_entries@.len() as int,
                )[f],
            ),
{
    let ghost b = baseline_entries@;
    let ghost cs = current_entries@;
    let mut used: Vec<bool> = Vec::new();
    for i in 0..baseline_entries.len()
        invariant
            used@.len() == i,
            forall|j: int| 0 <= j < i ==> !used@[j],
    {
        used.push(false);
    }
    assert(flag_set(used@) =~= used_after(b, cs, 0));
    let n = current_entries.len();
    let mut rest = current_entries;
    let mut matched: Vec<BaselineEntry> = Vec::new();
    let mut statuses: Vec<(String, FindingBaselineStatus)> = Vec::new();
    let mut new_set: Vec<(String, ())> = Vec::new();
    let mut new_count: usize = 0;
    let mut existing_count: usize = 0;
    let mut changed_count: usize = 0;
    let mut k: usize = 0;
    while rest.len() > 0
        invariant
            b == baseline_entries@,
            cs.len() == n,
            k + rest@.len() == n,
            forall|j: int| 0 <= j < rest@.len() ==> rest@[j] == cs[k + j],
            used@.len() == b.len(),
            flag_set(used@) == used_after(b, cs, k as int),
            matched@.len() == k,
            forall|j: int| 0 <= j < k ==> #[trigger] matched@[j] == carried(cs[j], b, matched_index(b, cs, j)),
            new_count == count_status(b, cs, k as int, FindingBaselineStatus::New),
            existing_count == count_status(b, cs, k as int, FindingBaselineStatus::Existing),
            changed_count == count_status(b, cs, k as int, FindingBaselineStatus::Changed),
            new_count + existing_count + changed_count == k,
            entry_views(statuses@) == status_map(b, cs, k as int),
            entry_views(new_set@) == new_key_map(b, cs, k as int),
        decreases rest.len(),
    {
        let ghost old_rest = rest@;
        let ghost used_before = flag_set(used@);
        let mut current = rest.remove(0);
        assert(current == cs[k as int]);
        let exact = exact_match_exec(baseline_entries, &current.fingerprint);
        let match_index = match exact {
            Some(i) => {
                proof {
                    lemma_exact_bounds(b, current.fingerprint@, b.len() as int);
                }
                if !used[i] {
                    Some(i)
                } else {
                    fuzzy_match_exec(baseline_entries, &current, &used)
                }
            },
            None => fuzzy_match_exec(baseline_entries, &current, &used),
        };
        assert(match_index matches Some(i) ==> match_for(b, current, used_before) == Some(i as int));
        assert(match_index is None ==> match_for(b, current, used_before) is None);
        proof {
            lemma_match_for_unused(b, current, used_before);
        }
        let key = current.baseline_key.clone();
        let status = match match_index {
            Some(i) => {
                let ghost before_used = used@;
                used.set(i, true);
                assert(flag_set(used@) =~= used_before.insert(i as int));
                let base = &baseline_entries[i];
                let changed = entry_changed(base, &current);
                current.first_seen = base.first_seen;
                if base.owner.is_some() {
                    current.owner = clone_owner(&base.owner);
                }
                if changed {
                    changed_count = changed_count + 1;
                    FindingBaselineStatus::Changed
                } else {
                    existing_count = existing_count + 1;
                    FindingBaselineStatus::Existing
                }
            },
            None => {
                new_count = new_count + 1;
                insert_key(&mut new_set, current.baseline_key.clone());
                FindingBaselineStatus::New
            },
        };
        insert_entry_exec(&mut statuses, key, status);
        matched.push(current);
        k = k + 1;
        proof {
            assert forall|j: int| 0 <= j < rest@.len() implies rest@[j] == cs[k + j] by {
                assert(rest@[j] == old_rest[j + 1]);
            }
            assert forall|j: int| 0 <= j < k implies #[trigger] matched@[j] == carried(cs[j], b, matched_index(b, cs, j)) by {
                if j == k - 1 {
                    assert(matched@[j] == carried(cs[j], b, matched_index(b, cs, j)));
                }
            }
        }
    }
    let ghost final_used = flag_set(used@);
    let mut fixed: Vec<FixedBaselineEntry> = Vec::new();
    for i in 0..baseline_entries.len()
        invariant
            b == baseline_entries@,
            used@.len() == b.len(),
            final_used == flag_set(used@),
            fixed@.len() == unmatched(b, final_used, i as int).len(),
            forall|f: int| 0 <= f < fixed@.len() ==> fixed_from(#[trigger] fixed@[f], unmatched(b, final_used, i as int)[f]),
    {
        if !used[i] {
            let e = &baseline_entries[i];
            fixed.push(
                FixedBaselineEntry {
                    baseline_key: e.baseline_key.clone(),
                    fingerprint: e.fingerprint.clone(),
                    rule_id: e.rule_id.clone(),
                    path: e.path.clone(),
                    message: e.message.clone(),
                    first_seen: e.first_seen,
                    owner: clone_owner(&e.owner),
                },
            );
        }
        assert forall|f: int| 0 <= f < fixed@.len() implies fixed_from(#[trigger] fixed@[f], unmatched(b, final_used, i + 1)[f]) by {
            if !used@[i as int] && f == fixed@.len() - 1 {
            }
        }
    }
    let mut new_keys: Vec<String> = Vec::new();
    for i in 0..new_set.len()
        invariant
            new_keys@.map_values(|key: String| (key@, ())) == entry_views(new_set@).take(i as int),
    {
        let ghost before = new_keys@;
        let key = new_set[i].0.clone();
        assert(key@ == new_set@[i as int].0@);
        new_keys.push(key);
        assert(new_keys@ == before.push(key));
        assert(entry_views(new_set@)[i as int] == (key@, ()));
        assert(new_keys@.map_values(|key: String| (key@, ())) =~= before.map_values(|key: String| (key@, ())).push((key@, ())));
        assert(new_keys@.map_values(|key: String| (key@, ())) =~= entry_views(new_set@).take(i + 1));
    }
    assert(entry_views(new_set@).take(new_set@.len() as int) =~= entry_views(new_set@));
    MatchResult {
        current_entries: matched,
        status_by_key: statuses,
        new_keys,
        fixed_entries: fixed,
        new_count,
        existing_count,
        changed_count,
    }
}


/// Every current finding is new, existing or changed: the three counts add up to the
/// number of findings compared.
pub proof fn lemma_statuses_partition_findings(baseline: Seq<BaselineEntry>, currents: Seq<BaselineEntry>, n: int)
    requires
        0 <= n,
    ensures
        count_status(baseline, currents, n, FindingBaselineStatus::New) + count_status(
            baseline,
            currents,
            n,
            FindingBaselineStatus::Existing,
        ) + count_status(baseline, currents, n, FindingBaselineStatus::Changed) == n,
    decreases n,
{
    if n > 0 {
        lemma_statuses_partition_findings(baseline, currents, n - 1);
    }
}

/// The entries used after the first `n` findings lie in the baseline, and each finding
/// matched so far has its entry among them.
proof fn lemma_used_after_grows(baseline: Seq<BaselineEntry>, currents: Seq<BaselineEntry>, j: int, n: int)
    requires
        0 <= j <= n,
    ensures
        used_after(baseline, currents, j).subset_of(used_after(baseline, currents, n)),
        forall|i: int| used_after(baseline, currents, n).contains(i) ==> 0 <= i < baseline.len(),
    decreases n,
{
    if n > 0 {
        lemma_used_after_grows(baseline, currents, if j == n { n - 1 } else { j }, n - 1);
        lemma_match_for_unused(baseline, currents[n - 1], used_after(baseline, currents, n - 1));
    }
}

/// No baseline entry is matched to two findings.
pub proof fn lemma_matching_is_one_to_one(baseline: Seq<BaselineEntry>, currents: Seq<BaselineEntry>, j: int, k: int)
    requires
        0 <= j < k,
        matched_index(baseline, currents, j) is Some,
        matched_index(baseline, currents, k) is Some,
    ensures
        matched_index(baseline, currents, j) != matched_index(baseline, currents, k),
{
    let uj = used_after(baseline, currents, j);
    lemma_match_for_unused(baseline, currents[j], uj);
    lemma_match_for_unused(baseline, currents[k], used_after(baseline, currents, k));
    lemma_used_after_grows(baseline, currents, j + 1, k);
    let a = matched_index(baseline, currents, j)->0;
    assert(used_after(baseline, currents, j + 1).contains(a));
}

/// How many of the positions below `m` the set holds.
pub open spec fn count_below(s: Set<int>, m: int) -> nat
    decreases m,
{
    if m <= 0 {
        0
    } else {
        count_below(s, m - 1) + if s.contains(m - 1) {
            1nat
        } else {
            0nat
        }
    }
}

proof fn lemma_unmatched_len(baseline: Seq<BaselineEntry>, used: Set<int>, m: int)
    requires
        0 <= m,
    ensures
        unmatched(baseline, used, m).len() + count_below(used, m) == m,
    decreases m,
{
    if m > 0 {
        lemma_unmatched_len(baseline, used, m - 1);
    }
}

proof fn lemma_count_below_insert(s: Set<int>, i: int, m: int)
    requires
        !s.contains(i),
    ensures
        count_below(s.insert(i), m) == count_below(s, m) + if 0 <= i < m {
            1nat
        } else {
            0nat
        },
    decreases m,
{
    if m > 0 {
        lemma_count_below_insert(s, i, m - 1);
    }
}

proof fn lemma_count_below_empty(m: int)
    ensures
        count_below(Set::empty(), m) == 0,
    decreases m,
{
    if m > 0 {
        lemma_count_below_empty(m - 1);
    }
}

proof fn lemma_used_count(baseline: Seq<BaselineEntry>, currents: Seq<BaselineEntry>, n: int)
    requires
        0 <= n,
    ensures
        count_below(used_after(baseline, currents, n), baseline.len() as int) == count_status(
            baseline,
            currents,
            n,
            FindingBaselineStatus::Existing,
        ) + count_status(baseline, currents, n, FindingBaselineStatus::Changed),
    decreases n,
{
    if n == 0 {
        lemma_count_below_empty(baseline.len() as int);
    } else {
        lemma_used_count(baseline, currents, n - 1);
        let used = used_after(baseline, currents, n - 1);
        lemma_match_for_unused(baseline, currents[n - 1], used);
        assert(matched_index(baseline, currents, n - 1) == match_for(baseline, currents[n - 1], used));
        let e0 = count_status(baseline, currents, n - 1, FindingBaselineStatus::Existing);
        let c0 = count_status(baseline, currents, n - 1, FindingBaselineStatus::Changed);
        let st = status_of(baseline, currents, n - 1);
        assert(count_status(baseline, currents, n, FindingBaselineStatus::Existing) == e0 + if st
            == FindingBaselineStatus::Existing {
            1nat
        } else {
            0nat
        });
        assert(count_status(baseline, currents, n, FindingBaselineStatus::Changed) == c0 + if st
            == FindingBaselineStatus::Changed {
            1nat
        } else {
            0nat
        });
        match match_for(baseline, currents[n - 1], used) {
            Some(i) => {
                lemma_count_below_insert(used, i, baseline.len() as int);
                assert(used_after(baseline, currents, n) == used.insert(i));
                assert(st == FindingBaselineStatus::Existing || st == FindingBaselineStatus::Changed);
                assert(count_below(used_after(baseline, currents, n), baseline.len() as int) == count_below(used, baseline.len() as int) + 1);
            },
            None => {
                assert(used_after(baseline, currents, n) == used);
                assert(st == FindingBaselineStatus::New);
            },
        }
    }
}

/// Every baseline entry is accounted for once: it is either matched to a finding that is
/// existing or changed, or it is reported as fixed.
pub proof fn lemma_baseline_entries_accounted(baseline: Seq<BaselineEntry>, currents: Seq<BaselineEntry>)
    ensures
        unmatched(baseline, used_after(baseline, currents, currents.len() as int), baseline.len() as int).len()
            + count_status(baseline, currents, currents.len() as int, FindingBaselineStatus::Existing)
            + count_status(baseline, currents, currents.len() as int, FindingBaselineStatus::Changed)
            == baseline.len(),
{
    let used = used_after(baseline, currents, currents.len() as int);
    lemma_unmatched_len(baseline, used, baseline.len() as int);
    lemma_used_count(baseline, currents, currents.len() as int);
}

} // verus!
