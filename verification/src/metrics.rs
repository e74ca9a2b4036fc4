//! Summary metrics of a scan: which findings are duplicates, numeric metadata, the
//! lexical complexity of a function body, and the order of suppressed-rule counts.
use vstd::prelude::*;

use crate::baseline_keys::metadata_get;
use crate::findings::{Finding, FindingKind, FindingLocation, MetadataValue, ModuleDuplicateMetric, SuppressedRuleMetric};
use crate::paths::{path_components, path_le, ComponentView};
use crate::sorting::{chars_le, ordered_by, sort_by_order, total_preorder};
use crate::text::{chars_of, lower_chars, spec_lower};

verus! {

broadcast use vstd::std_specs::vec::group_vec_axioms;

/// Whether a finding kind reports duplicated code.
pub open spec fn spec_is_duplicate_kind(kind: FindingKind) -> bool {
    ||| kind == FindingKind::DuplicateName
    ||| kind == FindingKind::ExactDuplicate
    ||| kind == FindingKind::StructuralDuplicate
    ||| kind == FindingKind::NearDuplicate
    ||| kind == FindingKind::SemanticCandidate
}

/// Whether a finding reports duplicated code.
pub fn is_duplicate_finding(finding: &Finding) -> (r: bool)
    ensures
        r == spec_is_duplicate_kind(finding.kind),
{
    match finding.kind {
        FindingKind::DuplicateName | FindingKind::ExactDuplicate | FindingKind::StructuralDuplicate
        | FindingKind::NearDuplicate | FindingKind::SemanticCandidate => true,
        _ => false,
    }
}

/// The number under `key` in a finding's metadata, when it is one and fits a `usize`.
pub open spec fn spec_metadata_usize(finding: Finding, key: Seq<char>) -> Option<usize> {
    match metadata_get(finding.metadata@, key) {
        Some(MetadataValue::Number(n)) => if n <= usize::MAX {
            Some(n as usize)
        } else {
            None
        },
        _ => None,
    }
}

/// The number under `key` in a finding's metadata.
pub fn metadata_usize(finding: &Finding, key: &str) -> (r: Option<usize>)
    ensures
        r == spec_metadata_usize(*finding, key@),
{
    let m = &finding.metadata;
    let k = chars_of(key);
    let mut i = m.len();
    assert(m@.take(m@.len() as int) =~= m@);
    while i > 0
        invariant
            m@ == finding.metadata@,
            i <= m@.len(),
            k@ == key@,
            metadata_get(m@.take(i as int), key@) == metadata_get(m@, key@),
        decreases i,
    {
        assert(m@.take(i as int).drop_last() =~= m@.take(i - 1));
        if crate::text::chars_eq(chars_of(m[i - 1].0.as_str()).as_slice(), k.as_slice()) {
            assert(metadata_get(m@.take(i as int), key@) == Some(m@[i - 1].1));
            assert(metadata_get(m@, key@) == Some(m@[i - 1].1));
            let v = &m[i - 1].1;
            assert(*v == m@[i - 1].1);
            return match v {
                MetadataValue::Number(n) => {
                    let n: u64 = *n;
                    let limit = usize::MAX as u64;
                    assert(limit as int == usize::MAX as int);
                    if n <= limit {
                        assert(spec_metadata_usize(*finding, key@) == Some(n as usize));
                        Some(n as usize)
                    } else {
                        None
                    }
                },
                _ => None,
            };
        }
        i = i - 1;
    }
    assert(m@.take(0) =~= Seq::<(String, MetadataValue)>::empty());
    None
}

/// Whether a lower-cased word is a branching keyword.
pub open spec fn is_branch_keyword(w: Seq<char>) -> bool {
    ||| w == "if"@
    ||| w == "elif"@
    ||| w == "else"@
    ||| w == "for"@
    ||| w == "while"@
    ||| w == "match"@
    ||| w == "case"@
    ||| w == "catch"@
    ||| w == "except"@
}

/// Whether a character belongs to a word.
pub open spec fn is_word_char(c: char) -> bool {
    crate::text::spec_is_ascii_alphanumeric(c) || c == '_'
}

/// The branching keywords among the words of `s` that are finished, and the word
/// being read.
pub open spec fn keyword_scan(s: Seq<char>) -> (nat, Seq<char>)
    decreases s.len(),
{
    if s.len() == 0 {
        (0, seq![])
    } else {
        let prev = keyword_scan(s.drop_last());
        if is_word_char(s.last()) {
            (prev.0, prev.1.push(s.last()))
        } else {
            (prev.0 + if is_branch_keyword(prev.1) {
                1nat
            } else {
                0nat
            }, seq![])
        }
    }
}

/// How many words of `s` are branching keywords.
pub open spec fn keyword_count(s: Seq<char>) -> nat {
    let st = keyword_scan(s);
    st.0 + if is_branch_keyword(st.1) {
        1nat
    } else {
        0nat
    }
}

/// How many times a doubled character occurs in `s` from `i`, counting
/// non-overlapping occurrences from the left.
pub open spec fn pair_count(s: Seq<char>, c: char, i: int) -> nat
    decreases s.len() - i,
{
    if i < 0 || i >= s.len() {
        0
    } else if i + 1 < s.len() && s[i] == c && s[i + 1] == c {
        1 + pair_count(s, c, i + 2)
    } else {
        pair_count(s, c, i + 1)
    }
}

/// The lexical complexity of a body: 1, plus its branching keywords, plus its `&&`
/// and `||` operators, ASCII case ignored.
pub open spec fn spec_lexical_complexity(source: Seq<char>) -> nat {
    let lowered = spec_lower(source);
    1 + keyword_count(lowered) + pair_count(lowered, '&', 0) + pair_count(lowered, '|', 0)
}

fn is_keyword_exec(w: &Vec<char>) -> (r: bool)
    ensures
        r == is_branch_keyword(w@),
{
    let words = ["if", "elif", "else", "for", "while", "match", "case", "catch", "except"];
    let mut found = false;
    proof {
        reveal_strlit("if");
        reveal_strlit("elif");
        reveal_strlit("else");
        reveal_strlit("for");
        reveal_strlit("while");
        reveal_strlit("match");
        reveal_strlit("case");
        reveal_strlit("catch");
        reveal_strlit("except");
    }
    let ghost names = seq!["if"@, "elif"@, "else"@, "for"@, "while"@, "match"@, "case"@, "catch"@, "except"@];
    for i in 0..9
        invariant
            names == seq!["if"@, "elif"@, "else"@, "for"@, "while"@, "match"@, "case"@, "catch"@, "except"@],
            forall|j: int| 0 <= j < 9 ==> (#[trigger] words@[j])@ == names[j],
            found == exists|j: int| 0 <= j < i && names[j] == w@,
    {
        if crate::text::chars_eq(w.as_slice(), chars_of(words[i]).as_slice()) {
            found = true;
        }
    }
    assert(is_branch_keyword(w@) == exists|j: int| 0 <= j < 9 && names[j] == w@) by {
        if is_branch_keyword(w@) {
            if w@ == "if"@ { assert(names[0] == w@); }
            else if w@ == "elif"@ { assert(names[1] == w@); }
            else if w@ == "else"@ { assert(names[2] == w@); }
            else if w@ == "for"@ { assert(names[3] == w@); }
            else if w@ == "while"@ { assert(names[4] == w@); }
            else if w@ == "match"@ { assert(names[5] == w@); }
            else if w@ == "case"@ { assert(names[6] == w@); }
            else if w@ == "catch"@ { assert(names[7] == w@); }
            else { assert(names[8] == w@); }
        }
    }
    found
}

proof fn lemma_pair_count_bound(s: Seq<char>, c: char, i: int)
    requires
        0 <= i,
    ensures
        2 * pair_count(s, c, i) <= if s.len() > i { s.len() - i } else { 0 },
    decreases s.len() - i,
{
    if i < s.len() {
        if i + 1 < s.len() && s[i] == c && s[i + 1] == c {
            lemma_pair_count_bound(s, c, i + 2);
        } else {
            lemma_pair_count_bound(s, c, i + 1);
        }
    }
}

fn pair_count_exec(s: &Vec<char>, c: char) -> (r: usize)
    ensures
        r == pair_count(s@, c, 0),
{
    let mut i: usize = 0;
    let mut n: usize = 0;
    proof {
        lemma_pair_count_bound(s@, c, 0);
    }
    while i < s.len()
        invariant
            i <= s@.len(),
            n + pair_count(s@, c, i as int) == pair_count(s@, c, 0),
            2 * pair_count(s@, c, 0) <= s@.len(),
        decreases s@.len() - i,
    {
        if i + 1 < s.len() && s[i] == c && s[i + 1] == c {
            n = n + 1;
            i = i + 2;
        } else {
            i = i + 1;
        }
    }
    n
}

proof fn lemma_keyword_scan_bound(s: Seq<char>)
    ensures
        keyword_scan(s).0 + keyword_scan(s).1.len() <= s.len(),
    decreases s.len(),
{
    if s.len() > 0 {
        lemma_keyword_scan_bound(s.drop_last());
    }
}

/// The lexical complexity of a body.
pub fn lexical_complexity(source: &str) -> (r: usize)
    requires
        source@.len() < usize::MAX / 2,
    ensures
        r == spec_lexical_complexity(source@),
{
    let lowered = lower_chars(chars_of(source).as_slice());
    let mut score: usize = 1;
    let mut word: Vec<char> = Vec::new();
    proof {
        lemma_keyword_scan_bound(lowered@);
    }
    for i in 0..lowered.len()
        invariant
            lowered@ == spec_lower(source@),
            lowered@.len() == source@.len(),
            source@.len() < usize::MAX / 2,
            score - 1 == keyword_scan(lowered@.take(i as int)).0,
            word@ == keyword_scan(lowered@.take(i as int)).1,
            1 <= score <= 1 + i,
    {
        let c = lowered[i];
        assert(lowered@.take(i + 1).drop_last() =~= lowered@.take(i as int));
        proof {
            lemma_keyword_scan_bound(lowered@.take(i as int));
        }
        if crate::text::is_ascii_alphanumeric(c) || c == '_' {
            word.push(c);
        } else {
            if is_keyword_exec(&word) {
                score = score + 1;
            }
            word = Vec::new();
        }
    }
    assert(lowered@.take(lowered@.len() as int) =~= lowered@);
    if is_keyword_exec(&word) {
        score = score + 1;
    }
    let ands = pair_count_exec(&lowered, '&');
    let ors = pair_count_exec(&lowered, '|');
    proof {
        lemma_pair_count_bound(lowered@, '&', 0);
        lemma_pair_count_bound(lowered@, '|', 0);
    }
    score + ands + ors
}

/// Suppressed-rule counts in report order: most suppressed first, then by rule id.
pub open spec fn suppressed_le(a: SuppressedRuleMetric, b: SuppressedRuleMetric) -> bool {
    a.count > b.count || (a.count == b.count && chars_le(a.rule_id@, b.rule_id@))
}

proof fn lemma_suppressed_le_total_preorder()
    ensures
        total_preorder(|a: SuppressedRuleMetric, b: SuppressedRuleMetric| suppressed_le(a, b)),
{
    let leq = |a: SuppressedRuleMetric, b: SuppressedRuleMetric| suppressed_le(a, b);
    assert forall|a: SuppressedRuleMetric| #[trigger] leq(a, a) by {
        crate::sorting::lemma_chars_le_reflexive(a.rule_id@);
    }
    assert forall|a: SuppressedRuleMetric, b: SuppressedRuleMetric, c: SuppressedRuleMetric|
        #[trigger] leq(a, b) && #[trigger] leq(b, c) implies leq(a, c) by {
        if a.count == b.count && b.count == c.count {
            crate::sorting::lemma_chars_le_transitive(a.rule_id@, b.rule_id@, c.rule_id@);
        }
    }
    assert forall|a: SuppressedRuleMetric, b: SuppressedRuleMetric| #[trigger] leq(a, b) || leq(b, a) by {
        crate::sorting::lemma_chars_le_total(a.rule_id@, b.rule_id@);
    }
}

fn suppressed_le_exec(a: &SuppressedRuleMetric, b: &SuppressedRuleMetric) -> (r: bool)
    ensures
        r == suppressed_le(*a, *b),
{
    a.count > b.count || (a.count == b.count && crate::sorting::str_le(a.rule_id.as_str(), b.rule_id.as_str()))
}

/// Sorts suppressed-rule counts into report order.
pub fn sort_suppressed_rules(rules: &mut Vec<SuppressedRuleMetric>)
    ensures
        final(rules)@.to_multiset() == old(rules)@.to_multiset(),
        ordered_by(final(rules)@, |a: SuppressedRuleMetric, b: SuppressedRuleMetric| suppressed_le(a, b)),
{
    proof {
        lemma_suppressed_le_total_preorder();
    }
    let mut taken: Vec<SuppressedRuleMetric> = Vec::new();
    std::mem::swap(rules, &mut taken);
    let sorted = sort_by_order(
        taken,
        suppressed_le_exec,
        Ghost(|a: SuppressedRuleMetric, b: SuppressedRuleMetric| suppressed_le(a, b)),
    );
    *rules = sorted;
}

/// Whether a finding counts in the duplicate summary: visible and a duplicate.
pub open spec fn counts_as_duplicate(f: Finding) -> bool {
    !f.is_suppressed && spec_is_duplicate_kind(f.kind)
}

/// The duplicated line count a finding records, 0 when it records none.
pub open spec fn line_count_of(f: Finding) -> nat {
    match spec_metadata_usize(f, "line_count"@) {
        Some(n) => n as nat,
        None => 0,
    }
}

/// The lines a duplicate finding adds to the summary: its line count once per
/// location after the first, saturating at the largest `usize`.
pub open spec fn group_lines(f: Finding) -> nat {
    let copies: nat = if f.locations@.len() > 0 {
        (f.locations@.len() - 1) as nat
    } else {
        0
    };
    if line_count_of(f) * copies > usize::MAX {
        usize::MAX as nat
    } else {
        line_count_of(f) * copies
    }
}

/// How many findings count in the duplicate summary.
pub open spec fn duplicate_groups(fs: Seq<Finding>) -> nat
    decreases fs.len(),
{
    if fs.len() == 0 {
        0
    } else {
        duplicate_groups(fs.drop_last()) + if counts_as_duplicate(fs.last()) {
            1nat
        } else {
            0nat
        }
    }
}

/// The duplicated lines of the findings that count.
pub open spec fn duplicate_line_total(fs: Seq<Finding>) -> nat
    decreases fs.len(),
{
    if fs.len() == 0 {
        0
    } else {
        duplicate_line_total(fs.drop_last()) + if counts_as_duplicate(fs.last()) {
            group_lines(fs.last())
        } else {
            0
        }
    }
}

/// How many of the locations are in the file with path components `c`.
pub open spec fn location_hits(ls: Seq<FindingLocation>, c: Seq<ComponentView>) -> nat
    decreases ls.len(),
{
    if ls.len() == 0 {
        0
    } else {
        location_hits(ls.drop_last(), c) + if path_components(ls.last().path@) == c {
            1nat
        } else {
            0nat
        }
    }
}

/// How many duplicate locations of the counted findings are in the file `c`.
pub open spec fn module_findings(fs: Seq<Finding>, c: Seq<ComponentView>) -> nat
    decreases fs.len(),
{
    if fs.len() == 0 {
        0
    } else {
        module_findings(fs.drop_last(), c) + if counts_as_duplicate(fs.last()) {
            location_hits(fs.last().locations@, c)
        } else {
            0
        }
    }
}

/// The duplicated lines of the counted findings in the file `c`: each finding's line
/// count once per location in that file.
pub open spec fn module_lines(fs: Seq<Finding>, c: Seq<ComponentView>) -> nat
    decreases fs.len(),
{
    if fs.len() == 0 {
        0
    } else {
        module_lines(fs.drop_last(), c) + if counts_as_duplicate(fs.last()) {
            line_count_of(fs.last()) * location_hits(fs.last().locations@, c)
        } else {
            0
        }
    }
}

/// All locations of the counted findings, and their line counts, summed.
pub open spec fn location_total(fs: Seq<Finding>) -> nat
    decreases fs.len(),
{
    if fs.len() == 0 {
        0
    } else {
        location_total(fs.drop_last()) + if counts_as_duplicate(fs.last()) {
            fs.last().locations@.len()
        } else {
            0
        }
    }
}

pub open spec fn located_lines(fs: Seq<Finding>) -> nat
    decreases fs.len(),
{
    if fs.len() == 0 {
        0
    } else {
        located_lines(fs.drop_last()) + if counts_as_duplicate(fs.last()) {
            line_count_of(fs.last()) * fs.last().locations@.len()
        } else {
            0
        }
    }
}

/// Whether a file holds a location of a counted finding.
pub open spec fn is_module(fs: Seq<Finding>, c: Seq<ComponentView>) -> bool {
    module_findings(fs, c) > 0
}

/// Module metrics in report order: most duplicated lines first, then most findings,
/// then by path.
pub open spec fn module_le(a: ModuleDuplicateMetric, b: ModuleDuplicateMetric) -> bool {
    ||| a.duplicate_lines > b.duplicate_lines
    ||| a.duplicate_lines == b.duplicate_lines && a.duplicate_findings > b.duplicate_findings
    ||| a.duplicate_lines == b.duplicate_lines && a.duplicate_findings == b.duplicate_findings && path_le(a.path@, b.path@)
}

/// Whether a metric holds the summary of the file it names.
pub open spec fn module_metric_ok(fs: Seq<Finding>, m: ModuleDuplicateMetric) -> bool {
    let c = path_components(m.path@);
    &&& is_module(fs, c)
    &&& m.duplicate_findings == module_findings(fs, c)
    &&& m.duplicate_lines == module_lines(fs, c)
}

proof fn lemma_hits_bound(ls: Seq<FindingLocation>, c: Seq<ComponentView>)
    ensures
        location_hits(ls, c) <= ls.len(),
    decreases ls.len(),
{
    if ls.len() > 0 {
        lemma_hits_bound(ls.drop_last(), c);
    }
}

proof fn lemma_module_bounds(fs: Seq<Finding>, c: Seq<ComponentView>)
    ensures
        module_findings(fs, c) <= location_total(fs),
        module_lines(fs, c) <= located_lines(fs),
    decreases fs.len(),
{
    if fs.len() > 0 {
        lemma_module_bounds(fs.drop_last(), c);
        let f = fs.last();
        lemma_hits_bound(f.locations@, c);
        let h = location_hits(f.locations@, c);
        let n = f.locations@.len();
        let l = line_count_of(f);
        assert(l * h <= l * n) by (nonlinear_arith)
            requires
                h <= n,
        ;
    }
}

proof fn lemma_prefix_totals(fs: Seq<Finding>, i: int)
    requires
        0 <= i <= fs.len(),
    ensures
        location_total(fs.take(i)) <= location_total(fs),
        located_lines(fs.take(i)) <= located_lines(fs),
        duplicate_line_total(fs.take(i)) <= duplicate_line_total(fs),
        duplicate_groups(fs.take(i)) <= i,
    decreases fs.len() - i,
{
    lemma_groups_bound(fs.take(i));
    if i < fs.len() {
        lemma_prefix_totals(fs, i + 1);
        assert(fs.take(i + 1).drop_last() =~= fs.take(i));
    } else {
        assert(fs.take(i) =~= fs);
    }
}

proof fn lemma_groups_bound(fs: Seq<Finding>)
    ensures
        duplicate_groups(fs) <= fs.len(),
    decreases fs.len(),
{
    if fs.len() > 0 {
        lemma_groups_bound(fs.drop_last());
    }
}

/// The metrics table after finding `i`'s first `j` locations: one entry per file, with
/// distinct paths, each holding the partial sums of its file.
spec fn table_holds(t: Seq<ModuleDuplicateMetric>, fs: Seq<Finding>, i: int, j: int) -> bool {
    &&& forall|a: int, b: int| 0 <= a < b < t.len() ==> path_components(t[a].path@) != path_components(t[b].path@)
    &&& forall|a: int| 0 <= a < t.len() ==> {
        let c = path_components((#[trigger] t[a]).path@);
        &&& t[a].duplicate_findings == partial_findings(fs, i, j, c)
        &&& t[a].duplicate_lines == partial_lines(fs, i, j, c)
        &&& partial_findings(fs, i, j, c) > 0
    }
    &&& forall|c: Seq<ComponentView>|
        #[trigger] partial_findings(fs, i, j, c) > 0 ==> exists|a: int| 0 <= a < t.len() && path_components(t[a].path@) == c
}

spec fn partial_findings(fs: Seq<Finding>, i: int, j: int, c: Seq<ComponentView>) -> nat {
    module_findings(fs.take(i), c) + if 0 <= i < fs.len() && counts_as_duplicate(fs[i]) {
        location_hits(fs[i].locations@.take(j), c)
    } else {
        0
    }
}

spec fn partial_lines(fs: Seq<Finding>, i: int, j: int, c: Seq<ComponentView>) -> nat {
    module_lines(fs.take(i), c) + if 0 <= i < fs.len() && counts_as_duplicate(fs[i]) {
        line_count_of(fs[i]) * location_hits(fs[i].locations@.take(j), c)
    } else {
        0
    }
}

fn module_le_exec(a: &ModuleDuplicateMetric, b: &ModuleDuplicateMetric) -> (r: bool)
    ensures
        r == module_le(*a, *b),
{
    if a.duplicate_lines != b.duplicate_lines {
        return a.duplicate_lines > b.duplicate_lines;
    }
    if a.duplicate_findings != b.duplicate_findings {
        return a.duplicate_findings > b.duplicate_findings;
    }
    crate::paths::path_le_exec(a.path.as_str(), b.path.as_str())
}

proof fn lemma_module_le_total_preorder()
    ensures
        total_preorder(|a: ModuleDuplicateMetric, b: ModuleDuplicateMetric| module_le(a, b)),
{
    crate::paths::lemma_path_le_total_preorder();
    let pleq = |a: Seq<char>, b: Seq<char>| path_le(a, b);
    let leq = |a: ModuleDuplicateMetric, b: ModuleDuplicateMetric| module_le(a, b);
    assert forall|a: ModuleDuplicateMetric| #[trigger] leq(a, a) by {
        assert(pleq(a.path@, a.path@));
    }
    assert forall|a: ModuleDuplicateMetric, b: ModuleDuplicateMetric, c: ModuleDuplicateMetric|
        #[trigger] leq(a, b) && #[trigger] leq(b, c) implies leq(a, c) by {
        assert(pleq(a.path@, b.path@) && pleq(b.path@, c.path@) ==> pleq(a.path@, c.path@));
    }
    assert forall|a: ModuleDuplicateMetric, b: ModuleDuplicateMetric| #[trigger] leq(a, b) || leq(b, a) by {
        assert(pleq(a.path@, b.path@) || pleq(b.path@, a.path@));
    }
}

proof fn lemma_hits_prefix(ls: Seq<FindingLocation>, k: int, c: Seq<ComponentView>)
    requires
        0 <= k <= ls.len(),
    ensures
        location_hits(ls.take(k), c) <= location_hits(ls, c),
    decreases ls.len() - k,
{
    if k < ls.len() {
        lemma_hits_prefix(ls, k + 1, c);
        assert(ls.take(k + 1).drop_last() =~= ls.take(k));
    } else {
        assert(ls.take(k) =~= ls);
    }
}

proof fn lemma_zero_findings_zero_lines(fs: Seq<Finding>, c: Seq<ComponentView>)
    requires
        module_findings(fs, c) == 0,
    ensures
        module_lines(fs, c) == 0,
    decreases fs.len(),
{
    if fs.len() > 0 {
        lemma_zero_findings_zero_lines(fs.drop_last(), c);
        let f = fs.last();
        let h = location_hits(f.locations@, c);
        let lc = line_count_of(f);
        if counts_as_duplicate(f) {
            assert(lc * h == 0) by (nonlinear_arith)
                requires
                    h == 0,
            ;
        }
    }
}

proof fn lemma_sorted_table(unsorted: Seq<ModuleDuplicateMetric>, sorted: Seq<ModuleDuplicateMetric>, fs: Seq<Finding>)
    requires
        table_holds(unsorted, fs, fs.len() as int, 0),
        sorted.to_multiset() == unsorted.to_multiset(),
        sorted.len() == unsorted.len(),
        fs.take(fs.len() as int) == fs,
    ensures
        forall|a: int| 0 <= a < sorted.len() ==> module_metric_ok(fs, #[trigger] sorted[a]),
        forall|a: int, b: int| 0 <= a < b < sorted.len() ==> path_components(sorted[a].path@) != path_components(sorted[b].path@),
        forall|c: Seq<ComponentView>| #[trigger] is_module(fs, c) ==> exists|x: int| 0 <= x < sorted.len() && path_components(sorted[x].path@) == c,
{
    broadcast use vstd::seq_lib::group_to_multiset_ensures;
    let n = fs.len() as int;
    assert forall|a: int| 0 <= a < sorted.len() implies exists|u: int| 0 <= u < unsorted.len() && unsorted[u] == #[trigger] sorted[a] by {
        assert(sorted.to_multiset().count(sorted[a]) > 0);
        assert(unsorted.contains(sorted[a]));
    }
    assert forall|a: int| 0 <= a < sorted.len() implies module_metric_ok(fs, #[trigger] sorted[a]) by {
        let u = choose|u: int| 0 <= u < unsorted.len() && unsorted[u] == sorted[a];
        let c = path_components(unsorted[u].path@);
        assert(partial_findings(fs, n, 0, c) == module_findings(fs, c));
        assert(partial_lines(fs, n, 0, c) == module_lines(fs, c));
    }
    assert forall|a: int, b: int| 0 <= a < b < sorted.len() implies path_components(sorted[a].path@) != path_components(sorted[b].path@) by {
        let ua = choose|u: int| 0 <= u < unsorted.len() && unsorted[u] == sorted[a];
        let ub = choose|u: int| 0 <= u < unsorted.len() && unsorted[u] == sorted[b];
        if ua == ub {
            lemma_no_repeat(unsorted, sorted, a, b);
        } else if ua < ub {
        } else {
        }
    }
    assert forall|c: Seq<ComponentView>| #[trigger] is_module(fs, c) implies exists|x: int| 0 <= x < sorted.len() && path_components(sorted[x].path@) == c by {
        assert(partial_findings(fs, n, 0, c) == module_findings(fs, c));
        let u = choose|u: int| 0 <= u < unsorted.len() && path_components(unsorted[u].path@) == c;
        assert(unsorted.to_multiset().count(unsorted[u]) > 0);
        assert(sorted.contains(unsorted[u]));
        let x = choose|x: int| 0 <= x < sorted.len() && sorted[x] == unsorted[u];
    }
}

proof fn lemma_no_repeat(unsorted: Seq<ModuleDuplicateMetric>, sorted: Seq<ModuleDuplicateMetric>, a: int, b: int)
    requires
        forall|x: int, y: int| 0 <= x < y < unsorted.len() ==> path_components(unsorted[x].path@) != path_components(unsorted[y].path@),
        sorted.to_multiset() == unsorted.to_multiset(),
        0 <= a < b < sorted.len(),
    ensures
        sorted[a] != sorted[b],
{
    assert(unsorted.no_duplicates()) by {
        assert forall|x: int, y: int| 0 <= x < unsorted.len() && 0 <= y < unsorted.len() && x != y implies unsorted[x]
            != unsorted[y] by {
            if x < y {
                assert(path_components(unsorted[x].path@) != path_components(unsorted[y].path@));
            } else {
                assert(path_components(unsorted[y].path@) != path_components(unsorted[x].path@));
            }
        }
    }
    unsorted.lemma_multiset_has_no_duplicates();
    sorted.lemma_multiset_has_no_duplicates_conv();
}

/// The duplicate summary of findings: how many visible duplicate findings there are,
/// their duplicated lines, and the five files with the most duplication.
pub fn duplicate_summary(findings: &Vec<Finding>) -> (r: (usize, usize, Vec<ModuleDuplicateMetric>))
    requires
        duplicate_line_total(findings@) <= usize::MAX,
        location_total(findings@) <= usize::MAX,
        located_lines(findings@) <= usize::MAX,
    ensures
        r.0 == duplicate_groups(findings@),
        r.1 == duplicate_line_total(findings@),
        r.2@.len() <= 5,
        ordered_by(r.2@, |a: ModuleDuplicateMetric, b: ModuleDuplicateMetric| module_le(a, b)),
        forall|a: int| 0 <= a < r.2@.len() ==> module_metric_ok(findings@, #[trigger] r.2@[a]),
        forall|a: int, b: int| 0 <= a < b < r.2@.len() ==> path_components(r.2@[a].path@) != path_components(r.2@[b].path@),
        forall|c: Seq<ComponentView>|
            #[trigger] is_module(findings@, c) ==> (exists|a: int| 0 <= a < r.2@.len() && path_components(r.2@[a].path@) == c)
                || (r.2@.len() == 5 && ({
                let last = r.2@[4];
                ||| last.duplicate_lines > module_lines(findings@, c)
                ||| last.duplicate_lines == module_lines(findings@, c) && last.duplicate_findings > module_findings(findings@, c)
                ||| last.duplicate_lines == module_lines(findings@, c) && last.duplicate_findings == module_findings(
                    findings@,
                    c,
                ) && crate::paths::components_le(path_components(last.path@), c)
            })),
{
    let ghost fs = findings@;
    let mut groups: usize = 0;
    let mut total_lines: usize = 0;
    let mut table: Vec<ModuleDuplicateMetric> = Vec::new();
    let mut i: usize = 0;
    assert(fs.take(0) =~= Seq::<Finding>::empty());
    while i < findings.len()
        invariant
            fs == findings@,
            i <= fs.len(),
            duplicate_line_total(fs) <= usize::MAX,
            location_total(fs) <= usize::MAX,
            located_lines(fs) <= usize::MAX,
            groups == duplicate_groups(fs.take(i as int)),
            total_lines == duplicate_line_total(fs.take(i as int)),
            table_holds(table@, fs, i as int, 0),
        decreases fs.len() - i,
    {
        let f = &findings[i];
        assert(fs.take(i + 1).drop_last() =~= fs.take(i as int));
        assert(fs.take(i + 1).last() == fs[i as int]);
        proof {
            lemma_prefix_totals(fs, i + 1);
            lemma_prefix_totals(fs, i as int);
        }
        if !f.is_suppressed && is_duplicate_finding(f) {
            groups = groups + 1;
            let line_count: usize = match metadata_usize(f, "line_count") {
                Some(n) => n,
                None => 0,
            };
            let copies = f.locations.len().saturating_sub(1);
            let product: usize = if copies == 0 {
                0
            } else if line_count <= usize::MAX / copies {
                assert(line_count * copies <= usize::MAX) by (nonlinear_arith)
                    requires
                        line_count <= usize::MAX / copies,
                        copies > 0,
                ;
                line_count * copies
            } else {
                proof {
                    assert(line_count * copies > usize::MAX) by (nonlinear_arith)
                        requires
                            line_count > usize::MAX / copies,
                            copies > 0,
                    ;
                }
                usize::MAX
            };
            assert(line_count == line_count_of(fs[i as int]));
            assert(copies == (if fs[i as int].locations@.len() > 0 {
                (fs[i as int].locations@.len() - 1) as nat
            } else {
                0nat
            }));
            assert(line_count * copies == 0 || copies > 0) by (nonlinear_arith);
            assert(product == group_lines(fs[i as int]));
            total_lines = total_lines + product;
            let mut j: usize = 0;
            assert(fs[i as int].locations@.take(0) =~= Seq::<FindingLocation>::empty());
            while j < f.locations.len()
                invariant
                    fs == findings@,
                    i < fs.len(),
                    *f == fs[i as int],
                    counts_as_duplicate(fs[i as int]),
                    line_count == line_count_of(fs[i as int]),
                    j <= f.locations@.len(),
                    location_total(fs) <= usize::MAX,
                    located_lines(fs) <= usize::MAX,
                    location_total(fs.take(i + 1)) <= location_total(fs),
                    located_lines(fs.take(i + 1)) <= located_lines(fs),
                    fs.take(i + 1).drop_last() == fs.take(i as int),
                    fs.take(i + 1).last() == fs[i as int],
                    table_holds(table@, fs, i as int, j as int),
                decreases f.locations@.len() - j,
            {
                let path = &f.locations[j].path;
                let ghost c = path_components(path@);
                let ghost ls = fs[i as int].locations@;
                assert(ls.take(j + 1).drop_last() =~= ls.take(j as int));
                assert(ls.take(j + 1).last() == ls[j as int]);
                let mut found: Option<usize> = None;
                let mut a: usize = 0;
                while a < table.len()
                    invariant
                        a <= table@.len(),
                        c == path_components(path@),
                        found is None ==> forall|b: int| 0 <= b < a ==> path_components(table@[b].path@) != c,
                        found matches Some(p) ==> p < table@.len() && path_components(table@[p as int].path@) == c,
                    decreases table@.len() - a,
                {
                    if found.is_none() && crate::paths::path_eq_exec(table[a].path.as_str(), path.as_str()) {
                        found = Some(a);
                    }
                    a = a + 1;
                }
                proof {
                    lemma_module_bounds(fs.take(i + 1), c);
                    lemma_hits_prefix(ls, j + 1, c);
                    let h1 = location_hits(ls.take(j + 1), c);
                    let h2 = location_hits(ls, c);
                    let lc = line_count_of(fs[i as int]);
                    assert(lc * h1 <= lc * h2) by (nonlinear_arith)
                        requires
                            h1 <= h2,
                    ;
                    assert(module_findings(fs.take(i + 1), c) == module_findings(fs.take(i as int), c) + h2);
                    assert(module_lines(fs.take(i + 1), c) == module_lines(fs.take(i as int), c) + lc * h2);
                    assert(partial_findings(fs, i as int, j + 1, c) <= location_total(fs));
                    assert(partial_lines(fs, i as int, j + 1, c) <= located_lines(fs));
                }
                let ghost before = table@;
                match found {
                    Some(p) => {
                        let old_findings = table[p].duplicate_findings;
                        let old_lines = table[p].duplicate_lines;
                        assert(partial_findings(fs, i as int, j + 1, c) == partial_findings(fs, i as int, j as int, c) + 1);
                        assert(partial_lines(fs, i as int, j + 1, c) == partial_lines(fs, i as int, j as int, c) + line_count) by (nonlinear_arith)
                            requires
                                partial_lines(fs, i as int, j + 1, c) == module_lines(fs.take(i as int), c) + line_count_of(fs[i as int]) * location_hits(ls.take(j + 1), c),
                                partial_lines(fs, i as int, j as int, c) == module_lines(fs.take(i as int), c) + line_count_of(fs[i as int]) * location_hits(ls.take(j as int), c),
                                location_hits(ls.take(j + 1), c) == location_hits(ls.take(j as int), c) + 1,
                                line_count == line_count_of(fs[i as int]),
                        ;
                        table.set(p, ModuleDuplicateMetric {
                            path: table[p].path.clone(),
                            duplicate_findings: old_findings + 1,
                            duplicate_lines: old_lines + line_count,
                        });
                    },
                    None => {
                        assert(partial_findings(fs, i as int, j as int, c) == 0);
                        assert(partial_lines(fs, i as int, j as int, c) == 0) by {
                            lemma_zero_findings_zero_lines(fs.take(i as int), c);
                            let h0 = location_hits(ls.take(j as int), c);
                            let lc = line_count_of(fs[i as int]);
                            assert(lc * h0 == 0) by (nonlinear_arith)
                                requires
                                    h0 == 0,
                            ;
                        }
                        assert(partial_lines(fs, i as int, j + 1, c) == line_count) by (nonlinear_arith)
                            requires
                                partial_lines(fs, i as int, j + 1, c) == module_lines(fs.take(i as int), c) + line_count_of(fs[i as int]) * location_hits(ls.take(j + 1), c),
                                partial_lines(fs, i as int, j as int, c) == module_lines(fs.take(i as int), c) + line_count_of(fs[i as int]) * location_hits(ls.take(j as int), c),
                                partial_lines(fs, i as int, j as int, c) == 0,
                                location_hits(ls.take(j + 1), c) == location_hits(ls.take(j as int), c) + 1,
                                line_count == line_count_of(fs[i as int]),
                        ;
                        table.push(ModuleDuplicateMetric {
                            path: path.clone(),
                            duplicate_findings: 1,
                            duplicate_lines: line_count,
                        });
                    },
                }
                proof {
                    assert forall|c2: Seq<ComponentView>| c2 != c implies partial_findings(fs, i as int, j + 1, c2)
                        == partial_findings(fs, i as int, j as int, c2) && partial_lines(fs, i as int, j + 1, c2)
                        == partial_lines(fs, i as int, j as int, c2) by {}
                    assert(table_holds(table@, fs, i as int, j + 1)) by {
                        assert forall|x: int| 0 <= x < table@.len() implies {
                            let c2 = path_components((#[trigger] table@[x]).path@);
                            &&& table@[x].duplicate_findings == partial_findings(fs, i as int, j + 1, c2)
                            &&& table@[x].duplicate_lines == partial_lines(fs, i as int, j + 1, c2)
                            &&& partial_findings(fs, i as int, j + 1, c2) > 0
                        } by {
                            if x < before.len() {
                                if path_components(before[x].path@) != c {
                                    assert(table@[x] == before[x]);
                                }
                            }
                        }
                        assert forall|c2: Seq<ComponentView>|
                            #[trigger] partial_findings(fs, i as int, j + 1, c2) > 0 implies exists|x: int|
                                0 <= x < table@.len() && path_components(table@[x].path@) == c2 by {
                            if c2 == c {
                                match found {
                                    Some(p) => {
                                        assert(path_components(table@[p as int].path@) == c);
                                    },
                                    None => {
                                        assert(path_components(table@[before.len() as int].path@) == c);
                                    },
                                }
                            } else {
                                assert(partial_findings(fs, i as int, j as int, c2) > 0);
                                let x = choose|x: int| 0 <= x < before.len() && path_components(before[x].path@) == c2;
                                assert(table@[x].path@ == before[x].path@);
                            }
                        }
                    }
                }
                j = j + 1;
            }
            proof {
                assert(fs[i as int].locations@.take(fs[i as int].locations@.len() as int) =~= fs[i as int].locations@);
                assert forall|c2: Seq<ComponentView>| partial_findings(fs, i as int, f.locations@.len() as int, c2)
                    == partial_findings(fs, i + 1, 0, c2) && partial_lines(fs, i as int, f.locations@.len() as int, c2)
                    == partial_lines(fs, i + 1, 0, c2) by {
                    if i + 1 < fs.len() {
                        assert(fs[i + 1].locations@.take(0) =~= Seq::<FindingLocation>::empty());
                        let h = location_hits(fs[i + 1].locations@.take(0), c2);
                        assert(h == 0);
                        assert(line_count_of(fs[i + 1]) * h == 0) by (nonlinear_arith)
                            requires
                                h == 0,
                        ;
                    }
                    let s1 = fs.take(i + 1);
                    assert(s1.drop_last() == fs.take(i as int));
                    assert(s1.last() == fs[i as int]);
                    assert(counts_as_duplicate(s1.last()));
                    assert(module_findings(s1, c2) == module_findings(fs.take(i as int), c2) + location_hits(fs[i as int].locations@, c2));
                    assert(module_lines(s1, c2) == module_lines(fs.take(i as int), c2) + line_count_of(fs[i as int]) * location_hits(fs[i as int].locations@, c2));
                    let ls = fs[i as int].locations@;
                    assert(ls.take(ls.len() as int) =~= ls);
                    assert(f.locations@.len() == ls.len());
                    assert(partial_findings(fs, i as int, f.locations@.len() as int, c2) == module_findings(fs.take(i as int), c2) + location_hits(ls, c2));
                    assert(partial_findings(fs, i + 1, 0, c2) == module_findings(s1, c2));
                    assert(partial_lines(fs, i + 1, 0, c2) == module_lines(s1, c2));
                }
                assert(table_holds(table@, fs, i + 1, 0)) by {
                    assert forall|c2: Seq<ComponentView>|
                        #[trigger] partial_findings(fs, i + 1, 0, c2) > 0 implies exists|x: int|
                            0 <= x < table@.len() && path_components(table@[x].path@) == c2 by {
                        assert(partial_findings(fs, i as int, f.locations@.len() as int, c2) > 0);
                    }
                }
            }
        } else {
            proof {
                assert forall|c2: Seq<ComponentView>| partial_findings(fs, i as int, 0, c2) == partial_findings(fs, i + 1, 0, c2)
                    && partial_lines(fs, i as int, 0, c2) == partial_lines(fs, i + 1, 0, c2) by {
                    if i + 1 < fs.len() {
                        assert(fs[i + 1].locations@.take(0) =~= Seq::<FindingLocation>::empty());
                        let h = location_hits(fs[i + 1].locations@.take(0), c2);
                        assert(h == 0);
                        assert(line_count_of(fs[i + 1]) * h == 0) by (nonlinear_arith)
                            requires
                                h == 0,
                        ;
                    }
                }
                assert(table_holds(table@, fs, i + 1, 0)) by {
                    assert forall|c2: Seq<ComponentView>|
                        #[trigger] partial_findings(fs, i + 1, 0, c2) > 0 implies exists|x: int|
                            0 <= x < table@.len() && path_components(table@[x].path@) == c2 by {
                        assert(partial_findings(fs, i as int, 0, c2) > 0);
                    }
                }
            }
        }
        i = i + 1;
    }
    assert(fs.take(fs.len() as int) =~= fs);
    proof {
        lemma_module_le_total_preorder();
    }
    let ghost unsorted = table@;
    let mut sorted = sort_by_order(
        table,
        module_le_exec,
        Ghost(|a: ModuleDuplicateMetric, b: ModuleDuplicateMetric| module_le(a, b)),
    );
    proof {
        lemma_sorted_table(unsorted, sorted@, fs);
    }
    let ghost full = sorted@;
    assert(full.take(full.len() as int) =~= full);
    while sorted.len() > 5
        invariant
            sorted@ == full.take(sorted@.len() as int),
            full.len() >= sorted@.len(),
            full.len() >= 5 ==> sorted@.len() >= 5,
            full.len() < 5 ==> sorted@.len() == full.len(),
        decreases sorted@.len(),
    {
        sorted.pop();
        assert(sorted@ =~= full.take(sorted@.len() as int));
    }
    proof {
        if full.len() < 5 {
            assert(sorted@ =~= full);
        } else {
            assert(sorted@.len() == 5);
        }
        assert forall|c: Seq<ComponentView>| #[trigger] is_module(fs, c) implies (exists|a: int|
            0 <= a < sorted@.len() && path_components(sorted@[a].path@) == c) || (sorted@.len() == 5 && ({
            let last = sorted@[4];
            ||| last.duplicate_lines > module_lines(fs, c)
            ||| last.duplicate_lines == module_lines(fs, c) && last.duplicate_findings > module_findings(fs, c)
            ||| last.duplicate_lines == module_lines(fs, c) && last.duplicate_findings == module_findings(fs, c)
                && crate::paths::components_le(path_components(last.path@), c)
        })) by {
            let x = choose|x: int| 0 <= x < full.len() && path_components(full[x].path@) == c;
            if x < sorted@.len() {
                assert(sorted@[x] == full[x]);
            } else {
                let leq = |a: ModuleDuplicateMetric, b: ModuleDuplicateMetric| module_le(a, b);
                assert(ordered_by(full, leq));
                assert(leq(full[4], full[x]));
                assert(sorted@[4] == full[4]);
            }
        }
    }
    (groups, total_lines, sorted)
}

} // verus!
