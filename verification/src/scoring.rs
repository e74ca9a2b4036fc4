//! The v1 health score: every visible finding costs tenths of a point by severity,
//! confidence and where it lies (generated files and tests weigh less); findings that
//! repeat the same problem are grouped and their cost is capped; the score is 100 minus
//! the total cost in points, never below 0. The same model scores each category.
use vstd::prelude::*;

use crate::config::text_views;
use crate::findings::{Confidence, Finding, FindingKind, FindingLocation, MetadataValue, ScoreOptions, Severity};
use crate::normalize::last_index_of;
use crate::paths::{components_of, path_components, path_eq_exec};
use crate::text::{chars_of, ends_with, spec_lower, spec_replace_char, spec_split};

verus! {

broadcast use vstd::std_specs::vec::group_vec_axioms;

/// The tenths of a point a finding of this severity costs before weighting.
pub open spec fn severity_weight(s: Severity) -> nat {
    match s {
        Severity::Info => 0,
        Severity::Low => 1,
        Severity::Medium => 3,
        Severity::High => 8,
        Severity::Critical => 15,
    }
}

/// The percentage of its cost that a finding of this confidence keeps.
pub open spec fn confidence_percent(c: Confidence) -> nat {
    match c {
        Confidence::Low => 25,
        Confidence::Medium => 50,
        Confidence::High => 80,
        Confidence::Certain => 100,
    }
}

/// `v / d` rounded up.
pub open spec fn ceil_div(v: nat, d: nat) -> nat {
    if v == 0 {
        0
    } else {
        ((v - 1) as nat / d) + 1
    }
}

/// The last component of a path, when it is a name.
pub open spec fn path_file_name(p: Seq<char>) -> Option<Seq<char>> {
    let cs = path_components(p);
    if cs.len() > 0 && cs.last().0 == 4 {
        Some(cs.last().1)
    } else {
        None
    }
}

/// The stem of a file name: the text before its last dot, unless that dot starts it.
pub open spec fn name_stem(name: Seq<char>) -> Seq<char> {
    let k = last_index_of(name, '.');
    if k > 0 {
        name.take(k)
    } else {
        name
    }
}

/// A directory or file part that marks tests or fixtures.
pub open spec fn test_part(part: Seq<char>) -> bool {
    ||| part == "test"@
    ||| part == "tests"@
    ||| part == "fixture"@
    ||| part == "fixtures"@
    ||| part == "__tests__"@
    ||| part == "__fixtures__"@
}

/// A path of a test or fixture: one of its `/`-separated parts (ASCII lower-cased)
/// marks tests or fixtures, or its file stem ends in `.test` or `.spec`.
pub open spec fn spec_is_test_or_fixture(path: Seq<char>) -> bool {
    let parts = spec_split(spec_lower(spec_replace_char(path, '\\', '/')), '/');
    ||| (exists|i: int| 0 <= i < parts.len() && test_part(#[trigger] parts[i]))
    ||| match path_file_name(path) {
        Some(name) => {
            let stem = spec_lower(name_stem(name));
            ||| (stem.len() >= 5 && stem.skip(stem.len() - 5) == ".test"@)
            ||| (stem.len() >= 5 && stem.skip(stem.len() - 5) == ".spec"@)
        },
        None => false,
    }
}

fn text_is(a: &[char], b: &str) -> (r: bool)
    ensures
        r == (a@ == b@),
{
    crate::text::chars_eq(a, chars_of(b).as_slice())
}

fn is_test_part(part: &[char]) -> (r: bool)
    ensures
        r == test_part(part@),
{
    text_is(part, "test") || text_is(part, "tests") || text_is(part, "fixture") || text_is(part, "fixtures")
        || text_is(part, "__tests__") || text_is(part, "__fixtures__")
}

/// Whether a path belongs to tests or fixtures.
pub fn is_test_or_fixture_path(path: &str) -> (r: bool)
    ensures
        r == spec_is_test_or_fixture(path@),
{
    let chars = chars_of(path);
    let normalized = crate::text::lower_chars(crate::text::replace_char(chars.as_slice(), '\\', '/').as_slice());
    let parts = crate::text::split_chars(normalized.as_slice(), '/');
    let ghost pv = spec_split(spec_lower(spec_replace_char(path@, '\\', '/')), '/');
    let mut marked = false;
    for i in 0..parts.len()
        invariant
            pv == crate::text::views(parts@),
            marked == (exists|j: int| 0 <= j < i && test_part(#[trigger] pv[j])),
    {
        assert(pv[i as int] == parts@[i as int]@);
        if is_test_part(parts[i].as_slice()) {
            marked = true;
        }
    }
    if marked {
        return true;
    }
    let comps = components_of(path);
    let ghost cv = path_components(path@);
    if comps.len() == 0 || comps[comps.len() - 1].rank != 4 {
        return false;
    }
    let last = comps.len() - 1;
    assert(cv[last as int] == (comps@[last as int].rank as int, comps@[last as int].text@));
    let name = &comps[last].text;
    let stem: Vec<char> = match crate::normalize::last_index_exec(name, name.len(), '.') {
        Some(k) => {
            assert(name@.take(name@.len() as int) =~= name@);
            proof {
                crate::normalize::lemma_last_index_bounds_pub(name@, '.');
            }
            if k > 0 {
                crate::text::slice_chars(name.as_slice(), 0, k)
            } else {
                crate::text::slice_chars(name.as_slice(), 0, name.len())
            }
        },
        None => {
            assert(name@.take(name@.len() as int) =~= name@);
            crate::text::slice_chars(name.as_slice(), 0, name.len())
        },
    };
    assert(name@.subrange(0, name@.len() as int) =~= name@);
    let lowered = crate::text::lower_chars(stem.as_slice());
    let test_suffix = chars_of(".test");
    let spec_suffix = chars_of(".spec");
    proof {
        reveal_strlit(".test");
        reveal_strlit(".spec");
    }
    ends_with(lowered.as_slice(), test_suffix.as_slice()) || ends_with(lowered.as_slice(), spec_suffix.as_slice())
}

/// Whether the options list a path among the generated files (as paths compare).
pub open spec fn is_generated(options: ScoreOptions, path: Seq<char>) -> bool {
    exists|i: int|
        0 <= i < options.generated_paths@.len() && path_components(#[trigger] options.generated_paths@[i]@)
            == path_components(path)
}

/// The percentage of its cost that a finding keeps at a path: 25 in generated files,
/// 50 in tests and fixtures, else 100.
pub open spec fn path_percent(path: Seq<char>, options: ScoreOptions) -> nat {
    if is_generated(options, path) {
        25
    } else if spec_is_test_or_fixture(path) {
        50
    } else {
        100
    }
}

fn path_multiplier_percent(path: &str, options: &ScoreOptions) -> (r: u16)
    ensures
        r == path_percent(path@, *options),
{
    for i in 0..options.generated_paths.len()
        invariant
            forall|j: int|
                0 <= j < i ==> path_components(#[trigger] options.generated_paths@[j]@) != path_components(path@),
    {
        if path_eq_exec(options.generated_paths[i].as_str(), path) {
            return 25;
        }
    }
    if is_test_or_fixture_path(path) {
        50
    } else {
        100
    }
}

/// The sum of the path percentages of the first `n` locations.
pub open spec fn percent_sum(locations: Seq<FindingLocation>, options: ScoreOptions, n: int) -> nat
    decreases n,
{
    if n <= 0 {
        0
    } else {
        percent_sum(locations, options, n - 1) + path_percent(locations[n - 1].path@, options)
    }
}

/// A finding's weights sum to at most `u16::MAX` over its locations.
pub open spec fn weights_fit(f: Finding, options: ScoreOptions) -> bool {
    percent_sum(f.locations@, options, f.locations@.len() as int) <= u16::MAX
}

/// Whether a finding's location weights fit the score's sums; a finding that takes
/// part in a score must have weights that fit.
pub fn finding_weights_fit(f: &Finding, options: &ScoreOptions) -> (r: bool)
    ensures
        r == weights_fit(*f, *options),
{
    let mut total: u64 = 0;
    for i in 0..f.locations.len()
        invariant
            total == percent_sum(f.locations@, *options, i as int),
            total <= u16::MAX,
    {
        let p = path_multiplier_percent(f.locations[i].path.as_str(), options);
        total = total + p as u64;
        if total > u16::MAX as u64 {
            proof {
                lemma_percent_sum_grows(f.locations@, *options, i + 1, f.locations@.len() as int);
            }
            return false;
        }
    }
    true
}

proof fn lemma_percent_sum_grows(locations: Seq<FindingLocation>, options: ScoreOptions, a: int, b: int)
    requires
        0 <= a <= b,
    ensures
        percent_sum(locations, options, a) <= percent_sum(locations, options, b),
    decreases b - a,
{
    if a < b {
        lemma_percent_sum_grows(locations, options, a, b - 1);
    }
}

/// The percentage of its cost that a finding keeps: the average (rounded down) of its
/// locations' percentages, or 100 without locations.
pub open spec fn context_percent(f: Finding, options: ScoreOptions) -> nat {
    if f.locations@.len() == 0 {
        100
    } else {
        percent_sum(f.locations@, options, f.locations@.len() as int) / f.locations@.len()
    }
}

proof fn lemma_percent_sum_bounds(locations: Seq<FindingLocation>, options: ScoreOptions, n: int)
    requires
        0 <= n <= locations.len(),
    ensures
        25 * n <= percent_sum(locations, options, n) <= 100 * n,
    decreases n,
{
    if n > 0 {
        lemma_percent_sum_bounds(locations, options, n - 1);
    }
}

fn context_multiplier_percent(finding: &Finding, options: &ScoreOptions) -> (r: u16)
    requires
        weights_fit(*finding, *options),
    ensures
        r == context_percent(*finding, *options),
        r <= 100,
{
    let n = finding.locations.len();
    if n == 0 {
        return 100;
    }
    let mut total: u16 = 0;
    for i in 0..n
        invariant
            n == finding.locations@.len(),
            weights_fit(*finding, *options),
            total == percent_sum(finding.locations@, *options, i as int),
    {
        proof {
            lemma_percent_sum_bounds(finding.locations@, *options, i + 1);
            lemma_percent_sum_monotone(finding.locations@, *options, i + 1, n as int);
        }
        let p = path_multiplier_percent(finding.locations[i].path.as_str(), options);
        total = total + p;
    }
    proof {
        lemma_percent_sum_bounds(finding.locations@, *options, n as int);
    }
    let count: u16 = n as u16;
    assert(total / count <= 100) by (nonlinear_arith)
        requires
            total <= 100 * count,
            count > 0,
    ;
    total / count
}

proof fn lemma_percent_sum_monotone(locations: Seq<FindingLocation>, options: ScoreOptions, a: int, b: int)
    requires
        0 <= a <= b <= locations.len(),
    ensures
        percent_sum(locations, options, a) <= percent_sum(locations, options, b),
    decreases b - a,
{
    if a < b {
        lemma_percent_sum_monotone(locations, options, a, b - 1);
    }
}

/// The cost of a finding in tenths of a point: its severity weight times ten, weighted
/// by its confidence and context percentages, rounded up.
pub open spec fn spec_finding_penalty(f: Finding, options: ScoreOptions) -> nat {
    let s = severity_weight(f.severity);
    if s == 0 {
        0
    } else {
        ceil_div(s * 10 * confidence_percent(f.confidence) * context_percent(f, options), 10000)
    }
}

fn finding_penalty_tenths(finding: &Finding, options: &ScoreOptions) -> (r: u16)
    requires
        weights_fit(*finding, *options),
    ensures
        r == spec_finding_penalty(*finding, *options),
        r <= 150,
{
    let severity: u32 = match finding.severity {
        Severity::Info => 0,
        Severity::Low => 1,
        Severity::Medium => 3,
        Severity::High => 8,
        Severity::Critical => 15,
    };
    if severity == 0 {
        return 0;
    }
    let confidence: u32 = match finding.confidence {
        Confidence::Low => 25,
        Confidence::Medium => 50,
        Confidence::High => 80,
        Confidence::Certain => 100,
    };
    let context = context_multiplier_percent(finding, options) as u32;
    assert(severity * 10 * confidence * context <= 1500000) by (nonlinear_arith)
        requires
            severity <= 15,
            confidence <= 100,
            context <= 100,
    ;
    let numerator = severity * 10 * confidence * context;
    let r = if numerator == 0 {
        0
    } else {
        (numerator - 1) / 10000 + 1
    };
    assert(r <= 150);
    r as u16
}


/// The positive penalties, in order.
pub open spec fn positive(ps: Seq<u16>) -> Seq<u16>
    decreases ps.len(),
{
    if ps.len() == 0 {
        seq![]
    } else if ps.last() > 0 {
        positive(ps.drop_last()).push(ps.last())
    } else {
        positive(ps.drop_last())
    }
}

/// The order that puts larger penalties first.
pub open spec fn larger_first(a: u16, b: u16) -> bool {
    a >= b
}

/// What the penalty at position `i` of a group (largest first) adds: all of the first,
/// half of the second and third, a quarter of the fourth to tenth, nothing after.
pub open spec fn weighted(i: int, p: u16) -> nat {
    if i == 0 {
        p as nat
    } else if i <= 2 {
        ceil_div(p as nat, 2)
    } else if i <= 9 {
        ceil_div(p as nat, 4)
    } else {
        0
    }
}

pub open spec fn weighted_sum(ps: Seq<u16>, n: int) -> nat
    decreases n,
{
    if n <= 0 {
        0
    } else {
        weighted_sum(ps, n - 1) + weighted(n - 1, ps[n - 1])
    }
}

/// The cost of a group of findings of one problem in tenths: with the positive
/// penalties sorted largest first, their weighted sum, capped at three times the
/// largest.
pub open spec fn spec_group_tenths(penalties: Seq<u16>) -> nat {
    let ps = positive(penalties).sort_by(|a: u16, b: u16| larger_first(a, b));
    if ps.len() == 0 {
        0
    } else {
        let total = weighted_sum(ps, ps.len() as int);
        if total <= 3 * ps[0] {
            total
        } else {
            3 * ps[0] as nat
        }
    }
}

proof fn lemma_positive_all(s: Seq<u16>)
    requires
        forall|i: int| 0 <= i < s.len() ==> s[i] > 0,
    ensures
        positive(s) == s,
    decreases s.len(),
{
    if s.len() > 0 {
        lemma_positive_all(s.drop_last());
        assert(s.drop_last().push(s.last()) =~= s);
    }
}

spec fn sort_larger_first(s: Seq<u16>) -> Seq<u16> {
    s.sort_by(|a: u16, b: u16| larger_first(a, b))
}

/// The sorted order of positive penalties holds the same values: every entry comes
/// from `s`, every entry of `s` occurs, and the length is kept.
proof fn lemma_sorted_penalties(s: Seq<u16>)
    ensures
        sort_larger_first(s).len() == s.len(),
        forall|i: int|
            0 <= i < s.len() ==> #[trigger] sort_larger_first(s).contains(s[i]),
        forall|i: int|
            0 <= i < s.len() ==> s.contains(#[trigger] sort_larger_first(s)[i]),
        forall|i: int, j: int|
            0 <= i < j < s.len() ==> #[trigger] sort_larger_first(s)[i] >= #[trigger] sort_larger_first(s)[j],
{
    broadcast use vstd::seq_lib::group_to_multiset_ensures;

    let leq = |a: u16, b: u16| larger_first(a, b);
    lemma_larger_first_orders();
    s.lemma_sort_by_ensures(leq);
    let t = s.sort_by(leq);
    assert(t == sort_larger_first(s));
    assert(t.to_multiset().len() == s.to_multiset().len());
    assert forall|i: int| 0 <= i < s.len() implies #[trigger] t.contains(s[i]) by {
        assert(s.to_multiset().count(s[i]) > 0);
    }
    assert forall|i: int| 0 <= i < t.len() implies s.contains(#[trigger] t[i]) by {
        assert(t.to_multiset().count(t[i]) > 0);
    }
    assert forall|i: int, j: int| 0 <= i < j < s.len() implies #[trigger] t[i] >= #[trigger] t[j] by {
        assert(leq(t[i], t[j]));
    }
}

/// Two repeated findings of one problem cost the larger penalty in full and half of the
/// smaller, rounded up, whatever their order: two equal penalties `p` cost
/// `p + ceil(p/2)`, not `2p`.
pub proof fn lemma_two_penalties_cost(p: u16, q: u16)
    requires
        p > 0,
        q > 0,
    ensures
        spec_group_tenths(seq![p, q]) == (if p >= q {
            p + (q + 1) / 2
        } else {
            q + (p + 1) / 2
        }),
{
    let s = seq![p, q];
    lemma_positive_all(s);
    lemma_sorted_penalties(s);
    let t = sort_larger_first(s);
    assert(s[0] == p && s[1] == q);
    assert(t.contains(p) && t.contains(q));
    assert(t[0] >= t[1]);
    assert(s.contains(t[0]) && s.contains(t[1]));
    if p >= q {
        assert(t[0] == p && t[1] == q);
    } else {
        assert(t[0] == q && t[1] == p);
    }
    assert(weighted_sum(t, 2) == weighted_sum(t, 1) + weighted(1, t[1]));
    assert(weighted_sum(t, 1) == weighted_sum(t, 0) + weighted(0, t[0]));
}

proof fn lemma_weighted_sum_equal(t: Seq<u16>, p: u16, k: int)
    requires
        p > 0,
        1 <= k <= t.len(),
        forall|i: int| 0 <= i < t.len() ==> t[i] == p,
    ensures
        weighted_sum(t, k) == p + (if k >= 3 {
            2
        } else {
            k - 1
        }) * ((p + 1) / 2) + (if k >= 10 {
            7
        } else if k >= 4 {
            k - 3
        } else {
            0
        }) * ((p + 3) / 4),
    decreases k,
{
    let h = (p + 1) / 2;
    let q = (p + 3) / 4;
    assert(weighted_sum(t, k) == weighted_sum(t, k - 1) + weighted(k - 1, t[k - 1]));
    assert(t[k - 1] == p);
    assert(ceil_div(p as nat, 2) == h);
    assert(ceil_div(p as nat, 4) == q);
    let c1: int = if k >= 3 { 2 } else { k - 1 };
    let d1: int = if k >= 10 { 7 } else if k >= 4 { k - 3 } else { 0 };
    if k == 1 {
        assert(weighted_sum(t, 0) == 0);
        assert(c1 * h == 0 && d1 * q == 0) by (nonlinear_arith)
            requires
                c1 == 0,
                d1 == 0,
        ;
    } else {
        lemma_weighted_sum_equal(t, p, k - 1);
        let a0: int = if k - 1 >= 3 { 2 } else { k - 2 };
        let a1: int = if k >= 3 { 2 } else { k - 1 };
        let b0: int = if k - 1 >= 10 { 7 } else if k - 1 >= 4 { k - 4 } else { 0 };
        let b1: int = if k >= 10 { 7 } else if k >= 4 { k - 3 } else { 0 };
        if k <= 3 {
            assert(a1 * h == a0 * h + h && b1 * q == b0 * q) by (nonlinear_arith)
                requires
                    a1 == a0 + 1,
                    b1 == b0,
            ;
        } else if k <= 10 {
            assert(a1 * h == a0 * h && b1 * q == b0 * q + q) by (nonlinear_arith)
                requires
                    a1 == a0,
                    b1 == b0 + 1,
            ;
        } else {
            assert(a1 == a0 && b1 == b0);
        }
    }
}

/// `n` repeated findings of one problem with the same penalty `p` cost `p` for the
/// first, half of `p` (rounded up) for the second and third, a quarter of `p` (rounded
/// up) for the fourth to the tenth and nothing for the rest, capped at three times `p`.
pub proof fn lemma_equal_penalties_cost(p: u16, n: nat)
    requires
        p > 0,
        n >= 1,
    ensures
        ({
            let total = p + (if n >= 3 {
                2
            } else {
                n - 1
            }) * ((p + 1) / 2) + (if n >= 10 {
                7
            } else if n >= 4 {
                n - 3
            } else {
                0
            }) * ((p + 3) / 4);
            spec_group_tenths(Seq::new(n, |i: int| p)) == if total <= 3 * p {
                total
            } else {
                3 * p
            }
        }),
{
    let s = Seq::new(n, |i: int| p);
    lemma_positive_all(s);
    lemma_sorted_penalties(s);
    let t = sort_larger_first(s);
    assert forall|i: int| 0 <= i < t.len() implies t[i] == p by {
        assert(s.contains(t[i]));
    }
    lemma_weighted_sum_equal(t, p, n as int);
}

fn larger_first_exec(a: &u16, b: &u16) -> (r: bool)
    ensures
        r == larger_first(*a, *b),
{
    *a >= *b
}

proof fn lemma_larger_first_orders()
    ensures
        vstd::relations::total_ordering(|a: u16, b: u16| larger_first(a, b)),
        crate::sorting::total_preorder(|a: u16, b: u16| larger_first(a, b)),
{
}

proof fn lemma_weighted_sum_bound(ps: Seq<u16>, n: int)
    requires
        0 <= n <= ps.len(),
        forall|i: int| 0 <= i < ps.len() ==> ps[i] <= 150,
    ensures
        weighted_sum(ps, n) <= 150 * (if n <= 10 {
            n
        } else {
            10
        }),
    decreases n,
{
    if n > 0 {
        lemma_weighted_sum_bound(ps, n - 1);
    }
}

proof fn lemma_positive_bound(ps: Seq<u16>)
    requires
        forall|i: int| 0 <= i < ps.len() ==> ps[i] <= 150,
    ensures
        forall|i: int| 0 <= i < positive(ps).len() ==> positive(ps)[i] <= 150 && positive(ps)[i] > 0,
    decreases ps.len(),
{
    if ps.len() > 0 {
        let rest = ps.drop_last();
        assert forall|i: int| 0 <= i < rest.len() implies rest[i] <= 150 by {
            assert(rest[i] == ps[i]);
        }
        lemma_positive_bound(rest);
        if ps.last() > 0 {
            assert(positive(ps) == positive(rest).push(ps.last()));
        } else {
            assert(positive(ps) == positive(rest));
        }
    }
}

fn repeated_group_penalty_tenths(penalties: &Vec<u16>) -> (r: u16)
    requires
        forall|i: int| 0 <= i < penalties@.len() ==> penalties@[i] <= 150,
    ensures
        r == spec_group_tenths(penalties@),
        r <= 450,
{
    let mut kept: Vec<u16> = Vec::new();
    for i in 0..penalties.len()
        invariant
            kept@ == positive(penalties@.take(i as int)),
    {
        assert(penalties@.take(i + 1).drop_last() =~= penalties@.take(i as int));
        if penalties[i] > 0 {
            kept.push(penalties[i]);
        }
    }
    assert(penalties@.take(penalties@.len() as int) =~= penalties@);
    let ghost leq = |a: u16, b: u16| larger_first(a, b);
    proof {
        lemma_larger_first_orders();
        lemma_positive_bound(penalties@);
    }
    let ghost kv = kept@;
    let sorted = crate::sorting::sort_by_order(kept, larger_first_exec, Ghost(leq));
    proof {
        kv.lemma_sort_by_ensures(leq);
        vstd::seq_lib::lemma_sorted_unique(sorted@, kv.sort_by(leq), leq);
        assert(sorted@ =~= kv.sort_by(leq));
        assert forall|i: int| 0 <= i < sorted@.len() implies sorted@[i] <= 150 && sorted@[i] > 0 by {
            broadcast use vstd::seq_lib::group_to_multiset_ensures;

            assert(sorted@.contains(sorted@[i]));
            assert(kv.to_multiset().count(sorted@[i]) > 0);
            assert(kv.contains(sorted@[i]));
        }
    }
    if sorted.len() == 0 {
        return 0;
    }
    let maximum = sorted[0];
    let mut total: u16 = 0;
    let mut i: usize = 0;
    while i < sorted.len() && i < 10
        invariant
            i <= sorted@.len(),
            i <= 10,
            forall|j: int| 0 <= j < sorted@.len() ==> sorted@[j] <= 150 && sorted@[j] > 0,
            total == weighted_sum(sorted@, i as int),
            total <= 150 * i,
        decreases sorted.len() - i,
    {
        let p = sorted[i];
        let w: u16 = if i == 0 {
            p
        } else if i <= 2 {
            (p - 1) / 2 + 1
        } else {
            (p - 1) / 4 + 1
        };
        assert(p > 0 ==> w == weighted(i as int, p));
        total = total + w;
        i = i + 1;
    }
    proof {
        assert forall|n: int| i <= n <= sorted@.len() implies weighted_sum(sorted@, n) == weighted_sum(sorted@, i as int) by {
            lemma_weighted_tail(sorted@, i as int, n);
        }
    }
    let cap = maximum * 3;
    if total <= cap {
        total
    } else {
        cap
    }
}

proof fn lemma_weighted_tail(ps: Seq<u16>, i: int, n: int)
    requires
        0 <= i <= n <= ps.len(),
        i == ps.len() || i >= 10,
    ensures
        weighted_sum(ps, n) == weighted_sum(ps, i),
    decreases n - i,
{
    if n > i {
        lemma_weighted_tail(ps, i, n - 1);
    }
}


/// A category of the score.
#[derive(Debug, Clone, Copy, PartialEq, Eq, Structural)]
pub enum ScoreCategory {
    Duplication,
    Complexity,
    Style,
    React,
    FastApi,
    RustIdiom,
    Maintainability,
    CiRisk,
}

impl ScoreCategory {
    pub open spec fn spec_label(self) -> Seq<char> {
        match self {
            ScoreCategory::Duplication => "duplication"@,
            ScoreCategory::Complexity => "complexity"@,
            ScoreCategory::Style => "style"@,
            ScoreCategory::React => "react"@,
            ScoreCategory::FastApi => "fastapi"@,
            ScoreCategory::RustIdiom => "rust_idiom"@,
            ScoreCategory::Maintainability => "maintainability"@,
            ScoreCategory::CiRisk => "ci_risk"@,
        }
    }

    /// The name of the category in reports.
    pub fn label(self) -> (r: &'static str)
        ensures
            r@ == self.spec_label(),
    {
        match self {
            ScoreCategory::Duplication => "duplication",
            ScoreCategory::Complexity => "complexity",
            ScoreCategory::Style => "style",
            ScoreCategory::React => "react",
            ScoreCategory::FastApi => "fastapi",
            ScoreCategory::RustIdiom => "rust_idiom",
            ScoreCategory::Maintainability => "maintainability",
            ScoreCategory::CiRisk => "ci_risk",
        }
    }
}

/// The optional text equals `target` up to ASCII case.
pub open spec fn opt_eq_ignore_case(o: Option<String>, target: Seq<char>) -> bool {
    match o {
        Some(s) => crate::findings::eq_ignore_case(s@, target),
        None => false,
    }
}

/// Whether a finding counts in a category.
pub open spec fn spec_in_category(f: Finding, c: ScoreCategory, options: ScoreOptions) -> bool {
    match c {
        ScoreCategory::Duplication => f.kind == FindingKind::DuplicateName || f.kind == FindingKind::ExactDuplicate
            || f.kind == FindingKind::StructuralDuplicate || f.kind == FindingKind::NearDuplicate || f.kind
            == FindingKind::SemanticCandidate,
        ScoreCategory::Complexity => (exists|q: int| crate::text::occurs_at(f.rule_id@, "complex"@, q)) || (exists|q: int|
            crate::text::occurs_at(f.rule_id@, "large.function"@, q)) || crate::baseline_keys::metadata_get(
            f.metadata@,
            "complexity"@,
        ) is Some,
        ScoreCategory::Style => f.kind == FindingKind::Style,
        ScoreCategory::React => f.kind == FindingKind::React || opt_eq_ignore_case(f.framework, "react"@),
        ScoreCategory::FastApi => f.kind == FindingKind::FastApi || opt_eq_ignore_case(f.framework, "fastapi"@),
        ScoreCategory::RustIdiom => f.kind == FindingKind::Rust || (f.rule_id@.len() >= 5 && f.rule_id@.take(5)
            == "rust."@) || opt_eq_ignore_case(f.language, "rust"@),
        ScoreCategory::Maintainability => true,
        ScoreCategory::CiRisk => f.severity.spec_blocks_by_default(f.confidence) || text_views(
            options.baseline_new_keys@,
        ).contains(f.baseline_key@),
    }
}

fn opt_eq_ignore_case_exec(o: &Option<String>, target: &str) -> (r: bool)
    ensures
        r == opt_eq_ignore_case(*o, target@),
{
    match o {
        Some(s) => crate::findings::str_eq_ignore_case(s.as_str(), target),
        None => false,
    }
}

fn lists_text(list: &Vec<String>, value: &String) -> (r: bool)
    ensures
        r == text_views(list@).contains(value@),
{
    for i in 0..list.len()
        invariant
            forall|j: int| 0 <= j < i ==> list@[j]@ != value@,
    {
        if crate::text::chars_eq(chars_of(list[i].as_str()).as_slice(), chars_of(value.as_str()).as_slice()) {
            assert(text_views(list@)[i as int] == value@);
            return true;
        }
    }
    assert forall|j: int| 0 <= j < text_views(list@).len() implies text_views(list@)[j] != value@ by {
        assert(text_views(list@)[j] == list@[j]@);
    }
    false
}

fn has_metadata(m: &Vec<(String, MetadataValue)>, key: &str) -> (r: bool)
    ensures
        r == (crate::baseline_keys::metadata_get(m@, key@) is Some),
{
    let mut n = m.len();
    assert(m@.take(n as int) =~= m@);
    while n > 0
        invariant
            n <= m@.len(),
            crate::baseline_keys::metadata_get(m@.take(n as int), key@) == crate::baseline_keys::metadata_get(m@, key@),
        decreases n,
    {
        assert(m@.take(n as int).drop_last() =~= m@.take(n - 1));
        if crate::text::chars_eq(chars_of(m[n - 1].0.as_str()).as_slice(), chars_of(key).as_slice()) {
            return true;
        }
        n = n - 1;
    }
    false
}

/// Whether a finding counts in a category.
pub fn finding_in_category(finding: &Finding, category: ScoreCategory, options: &ScoreOptions) -> (r: bool)
    ensures
        r == spec_in_category(*finding, category, *options),
{
    match category {
        ScoreCategory::Duplication => match finding.kind {
            FindingKind::DuplicateName | FindingKind::ExactDuplicate | FindingKind::StructuralDuplicate
            | FindingKind::NearDuplicate | FindingKind::SemanticCandidate => true,
            _ => false,
        },
        ScoreCategory::Complexity => {
            let rule = chars_of(finding.rule_id.as_str());
            let complex = chars_of("complex");
            let large = chars_of("large.function");
            crate::text::contains_chars(rule.as_slice(), complex.as_slice()) || crate::text::contains_chars(
                rule.as_slice(),
                large.as_slice(),
            ) || has_metadata(&finding.metadata, "complexity")
        },
        ScoreCategory::Style => finding.kind == FindingKind::Style,
        ScoreCategory::React => finding.kind == FindingKind::React || opt_eq_ignore_case_exec(&finding.framework, "react"),
        ScoreCategory::FastApi => finding.kind == FindingKind::FastApi || opt_eq_ignore_case_exec(
            &finding.framework,
            "fastapi",
        ),
        ScoreCategory::RustIdiom => {
            let rule = chars_of(finding.rule_id.as_str());
            let prefix = chars_of("rust.");
            proof {
                reveal_strlit("rust.");
            }
            finding.kind == FindingKind::Rust || crate::text::starts_with(rule.as_slice(), prefix.as_slice())
                || opt_eq_ignore_case_exec(&finding.language, "rust")
        },
        ScoreCategory::Maintainability => true,
        ScoreCategory::CiRisk => finding.blocks_by_default() || lists_text(&options.baseline_new_keys, &finding.baseline_key),
    }
}

/// The category a finding's cost is reported under: the first it counts in among
/// CI risk, FastAPI, React, Rust idiom, duplication, complexity, style and
/// maintainability.
pub open spec fn spec_primary_category(f: Finding, options: ScoreOptions) -> ScoreCategory {
    if spec_in_category(f, ScoreCategory::CiRisk, options) {
        ScoreCategory::CiRisk
    } else if spec_in_category(f, ScoreCategory::FastApi, options) {
        ScoreCategory::FastApi
    } else if spec_in_category(f, ScoreCategory::React, options) {
        ScoreCategory::React
    } else if spec_in_category(f, ScoreCategory::RustIdiom, options) {
        ScoreCategory::RustIdiom
    } else if spec_in_category(f, ScoreCategory::Duplication, options) {
        ScoreCategory::Duplication
    } else if spec_in_category(f, ScoreCategory::Complexity, options) {
        ScoreCategory::Complexity
    } else if spec_in_category(f, ScoreCategory::Style, options) {
        ScoreCategory::Style
    } else {
        ScoreCategory::Maintainability
    }
}

fn primary_score_category(finding: &Finding, options: &ScoreOptions) -> (r: ScoreCategory)
    ensures
        r == spec_primary_category(*finding, *options),
{
    if finding_in_category(finding, ScoreCategory::CiRisk, options) {
        ScoreCategory::CiRisk
    } else if finding_in_category(finding, ScoreCategory::FastApi, options) {
        ScoreCategory::FastApi
    } else if finding_in_category(finding, ScoreCategory::React, options) {
        ScoreCategory::React
    } else if finding_in_category(finding, ScoreCategory::RustIdiom, options) {
        ScoreCategory::RustIdiom
    } else if finding_in_category(finding, ScoreCategory::Duplication, options) {
        ScoreCategory::Duplication
    } else if finding_in_category(finding, ScoreCategory::Complexity, options) {
        ScoreCategory::Complexity
    } else if finding_in_category(finding, ScoreCategory::Style, options) {
        ScoreCategory::Style
    } else {
        ScoreCategory::Maintainability
    }
}

/// The key that groups repeated findings: the rule id, a bar, and the first of the
/// normalized file hash, normalized body hash, canonical hash and route the finding
/// carries, else its message.
pub open spec fn spec_score_group_key(f: Finding) -> Seq<char> {
    let m = f.metadata@;
    let key = if crate::baseline_keys::metadata_text(m, "normalized_file_hash"@) is Some {
        crate::baseline_keys::metadata_text(m, "normalized_file_hash"@)->0
    } else if crate::baseline_keys::metadata_text(m, "normalized_body_hash"@) is Some {
        crate::baseline_keys::metadata_text(m, "normalized_body_hash"@)->0
    } else if crate::baseline_keys::metadata_text(m, "canonical_hash"@) is Some {
        crate::baseline_keys::metadata_text(m, "canonical_hash"@)->0
    } else if crate::baseline_keys::metadata_text(m, "route"@) is Some {
        crate::baseline_keys::metadata_text(m, "route"@)->0
    } else {
        f.message@
    };
    f.rule_id@ + "|"@ + key
}

fn score_group_key(finding: &Finding) -> (r: String)
    ensures
        r@ == spec_score_group_key(*finding),
{
    let m = &finding.metadata;
    let key = match crate::baseline_keys::metadata_text_exec(m, "normalized_file_hash") {
        Some(v) => v,
        None => match crate::baseline_keys::metadata_text_exec(m, "normalized_body_hash") {
            Some(v) => v,
            None => match crate::baseline_keys::metadata_text_exec(m, "canonical_hash") {
                Some(v) => v,
                None => match crate::baseline_keys::metadata_text_exec(m, "route") {
                    Some(v) => v,
                    None => finding.message.clone(),
                },
            },
        },
    };
    let mut out = finding.rule_id.clone();
    out.append("|");
    out.append(key.as_str());
    out
}


/// Where a path goes in a path-ordered set: the first position whose path is not
/// before it.
pub open spec fn path_insert_position(s: Seq<Seq<char>>, p: Seq<char>, i: int) -> int
    decreases s.len() - i,
{
    if i < 0 || i >= s.len() {
        s.len() as int
    } else if crate::paths::path_le(p, s[i]) {
        i
    } else {
        path_insert_position(s, p, i + 1)
    }
}

/// A path-ordered set of paths with `p` added, as `BTreeSet::insert` leaves it: an
/// equal path already there stays.
pub open spec fn path_set_insert(s: Seq<Seq<char>>, p: Seq<char>) -> Seq<Seq<char>> {
    let q = path_insert_position(s, p, 0);
    if 0 <= q < s.len() && path_components(s[q]) == path_components(p) {
        s
    } else {
        s.insert(q, p)
    }
}

/// The set after adding the paths of the first `k` locations.
pub open spec fn insert_location_paths(s: Seq<Seq<char>>, locations: Seq<FindingLocation>, k: int) -> Seq<Seq<char>>
    decreases k,
{
    if k <= 0 {
        s
    } else {
        path_set_insert(insert_location_paths(s, locations, k - 1), locations[k - 1].path@)
    }
}

/// The set of the location paths of the first `n` members of a group.
pub open spec fn group_paths(fs: Seq<Finding>, members: Seq<usize>, n: int) -> Seq<Seq<char>>
    decreases n,
{
    if n <= 0 {
        seq![]
    } else {
        let f = fs[members[n - 1] as int];
        insert_location_paths(group_paths(fs, members, n - 1), f.locations@, f.locations@.len() as int)
    }
}

fn path_set_insert_exec(set: &mut Vec<String>, p: &String)
    ensures
        text_views(final(set)@) == path_set_insert(text_views(old(set)@), p@),
{
    let ghost v = text_views(set@);
    let mut q: usize = 0;
    while q < set.len() && !crate::paths::path_le_exec(p.as_str(), set[q].as_str())
        invariant
            v == text_views(set@),
            q <= set@.len(),
            path_insert_position(v, p@, q as int) == path_insert_position(v, p@, 0),
        decreases set.len() - q,
    {
        assert(v[q as int] == set@[q as int]@);
        q = q + 1;
    }
    if q < set.len() {
        assert(v[q as int] == set@[q as int]@);
        if path_eq_exec(set[q].as_str(), p.as_str()) {
            return;
        }
    }
    let ghost before = set@;
    set.insert(q, p.clone());
    assert(text_views(set@) =~= v.insert(q as int, p@));
}

fn group_locations(findings: &Vec<Finding>, members: &Vec<usize>) -> (r: Vec<String>)
    requires
        forall|m: int| 0 <= m < members@.len() ==> members@[m] < findings@.len(),
    ensures
        text_views(r@) == group_paths(findings@, members@, members@.len() as int),
{
    let mut set: Vec<String> = Vec::new();
    for i in 0..members.len()
        invariant
            forall|m: int| 0 <= m < members@.len() ==> members@[m] < findings@.len(),
            text_views(set@) == group_paths(findings@, members@, i as int),
    {
        let f = &findings[members[i]];
        let ghost base = text_views(set@);
        for k in 0..f.locations.len()
            invariant
                text_views(set@) == insert_location_paths(base, f.locations@, k as int),
        {
            path_set_insert_exec(&mut set, &f.locations[k].path);
        }
    }
    set
}

/// `a` sorts strictly before `b` by rule id, message and finding id.
pub open spec fn strictly_before(a: Finding, b: Finding) -> bool {
    ||| (a.rule_id@ != b.rule_id@ && crate::sorting::chars_le(a.rule_id@, b.rule_id@))
    ||| (a.rule_id@ == b.rule_id@ && a.message@ != b.message@ && crate::sorting::chars_le(a.message@, b.message@))
    ||| (a.rule_id@ == b.rule_id@ && a.message@ == b.message@ && a.finding_id@ != b.finding_id@
        && crate::sorting::chars_le(a.finding_id@, b.finding_id@))
}

/// The member that represents a group: the first by rule id, message and finding id,
/// the earliest of equal ones.
pub open spec fn representative(fs: Seq<Finding>, members: Seq<usize>, n: int) -> usize
    decreases n,
{
    if n <= 1 {
        members[0]
    } else {
        let prev = representative(fs, members, n - 1);
        let c = members[n - 1];
        if strictly_before(fs[c as int], fs[prev as int]) {
            c
        } else {
            prev
        }
    }
}

fn texts_equal(a: &String, b: &String) -> (r: bool)
    ensures
        r == (a@ == b@),
{
    crate::text::chars_eq(chars_of(a.as_str()).as_slice(), chars_of(b.as_str()).as_slice())
}

fn strictly_before_exec(a: &Finding, b: &Finding) -> (r: bool)
    ensures
        r == strictly_before(*a, *b),
{
    if !texts_equal(&a.rule_id, &b.rule_id) {
        return crate::sorting::str_le(a.rule_id.as_str(), b.rule_id.as_str());
    }
    if !texts_equal(&a.message, &b.message) {
        return crate::sorting::str_le(a.message.as_str(), b.message.as_str());
    }
    !texts_equal(&a.finding_id, &b.finding_id) && crate::sorting::str_le(a.finding_id.as_str(), b.finding_id.as_str())
}

fn representative_exec(findings: &Vec<Finding>, members: &Vec<usize>) -> (r: usize)
    requires
        members@.len() > 0,
        forall|m: int| 0 <= m < members@.len() ==> members@[m] < findings@.len(),
    ensures
        r == representative(findings@, members@, members@.len() as int),
        r < findings@.len(),
{
    let mut best = members[0];
    for i in 1..members.len()
        invariant
            members@.len() > 0,
            forall|m: int| 0 <= m < members@.len() ==> members@[m] < findings@.len(),
            best == representative(findings@, members@, i as int),
            best < findings@.len(),
    {
        let c = members[i];
        if strictly_before_exec(&findings[c], &findings[best]) {
            best = c;
        }
    }
    best
}


/// Whether a finding takes part in a score: it is not suppressed and counts in the
/// category scored (every finding counts in the overall score).
pub open spec fn takes_part(f: Finding, category: Option<ScoreCategory>, options: ScoreOptions) -> bool {
    !f.is_suppressed && match category {
        Some(c) => spec_in_category(f, c, options),
        None => true,
    }
}

/// Every finding that takes part in some score has weights that fit.
pub open spec fn scorable(fs: Seq<Finding>, options: ScoreOptions) -> bool {
    forall|i: int| 0 <= i < fs.len() && !(#[trigger] fs[i]).is_suppressed ==> weights_fit(fs[i], options)
}

pub open spec fn participation(fs: Seq<Finding>, category: Option<ScoreCategory>, options: ScoreOptions) -> Seq<bool> {
    fs.map_values(|f: Finding| takes_part(f, category, options))
}

pub open spec fn group_key_views(fs: Seq<Finding>) -> Seq<Seq<char>> {
    fs.map_values(|f: Finding| spec_score_group_key(f))
}

/// The penalties of the members of a group.
pub open spec fn member_penalties(fs: Seq<Finding>, members: Seq<usize>, options: ScoreOptions) -> Seq<u16> {
    members.map_values(|m: usize| spec_finding_penalty(fs[m as int], options) as u16)
}

/// The cost of a group in tenths.
pub open spec fn group_cost(fs: Seq<Finding>, g: crate::grouping::KeyGroup, options: ScoreOptions) -> nat {
    spec_group_tenths(member_penalties(fs, g.members@, options))
}

/// The cost of the first `k` groups in tenths, added up and held at `u16::MAX`.
pub open spec fn saturated_total(fs: Seq<Finding>, groups: Seq<crate::grouping::KeyGroup>, options: ScoreOptions, k: int) -> nat
    decreases k,
{
    if k <= 0 {
        0
    } else {
        let t = saturated_total(fs, groups, options, k - 1) + group_cost(fs, groups[k - 1], options);
        if t > u16::MAX {
            u16::MAX as nat
        } else {
            t
        }
    }
}

/// Tenths of a point as whole points, rounded up and at most 100.
pub open spec fn points(tenths: nat) -> nat {
    if ceil_div(tenths, 10) <= 100 {
        ceil_div(tenths, 10)
    } else {
        100
    }
}

/// The positions of the first `k` groups that cost something.
pub open spec fn costly(fs: Seq<Finding>, groups: Seq<crate::grouping::KeyGroup>, options: ScoreOptions, k: int) -> Seq<usize>
    decreases k,
{
    if k <= 0 {
        seq![]
    } else if group_cost(fs, groups[k - 1], options) > 0 {
        costly(fs, groups, options, k - 1).push((k - 1) as usize)
    } else {
        costly(fs, groups, options, k - 1)
    }
}

/// The representative finding of a group.
pub open spec fn group_rep(fs: Seq<Finding>, g: crate::grouping::KeyGroup) -> Finding {
    fs[representative(fs, g.members@, g.members@.len() as int) as int]
}

/// The order of contributors: larger penalty first, then by the representative's rule
/// id and message, then by group position.
pub open spec fn contributor_before(
    fs: Seq<Finding>,
    groups: Seq<crate::grouping::KeyGroup>,
    options: ScoreOptions,
    a: int,
    b: int,
) -> bool {
    let pa = points(group_cost(fs, groups[a], options));
    let pb = points(group_cost(fs, groups[b], options));
    let ra = group_rep(fs, groups[a]);
    let rb = group_rep(fs, groups[b]);
    ||| pa > pb
    ||| (pa == pb && ra.rule_id@ != rb.rule_id@ && crate::sorting::chars_le(ra.rule_id@, rb.rule_id@))
    ||| (pa == pb && ra.rule_id@ == rb.rule_id@ && ra.message@ != rb.message@ && crate::sorting::chars_le(
        ra.message@,
        rb.message@,
    ))
    ||| (pa == pb && ra.rule_id@ == rb.rule_id@ && ra.message@ == rb.message@ && a <= b)
}

/// `c` reports group `g`: its representative's rule id and message, the category (the
/// one scored, or the representative's primary one), its penalty in points, its size,
/// and the first five of its paths in path order.
pub open spec fn reports_group(
    c: crate::findings::ScoreContributor,
    fs: Seq<Finding>,
    g: crate::grouping::KeyGroup,
    options: ScoreOptions,
    category: Option<ScoreCategory>,
) -> bool {
    let rep = group_rep(fs, g);
    let paths = group_paths(fs, g.members@, g.members@.len() as int);
    &&& c.rule_id@ == rep.rule_id@
    &&& c.message@ == rep.message@
    &&& c.category@ == (match category {
        Some(cat) => cat.spec_label(),
        None => spec_primary_category(rep, options).spec_label(),
    })
    &&& c.penalty == points(group_cost(fs, g, options))
    &&& c.occurrences == g.members@.len()
    &&& text_views(c.locations@) == paths.take(if paths.len() <= 5 {
        paths.len() as int
    } else {
        5
    })
}

/// What scoring a set of findings produced.
#[derive(Debug, Clone)]
pub struct ScoredFindings {
    pub score: u8,
    pub penalty: u8,
    pub findings: usize,
    pub contributors: Vec<crate::findings::ScoreContributor>,
}

/// The number of true flags among the first `n`.
pub open spec fn count_true(flags: Seq<bool>, n: int) -> nat
    decreases n,
{
    if n <= 0 {
        0
    } else {
        count_true(flags, n - 1) + if flags[n - 1] {
            1nat
        } else {
            0nat
        }
    }
}

/// `r` scores the findings that take part: groups of repeated findings (by group
/// key, in key order) each cost their group cost; the penalty is the saturated total in
/// points and the score 100 minus it; the contributors are the five costliest groups.
pub open spec fn scores(
    r: ScoredFindings,
    fs: Seq<Finding>,
    options: ScoreOptions,
    category: Option<ScoreCategory>,
    groups: Seq<crate::grouping::KeyGroup>,
    order: Seq<usize>,
) -> bool {
    let total = saturated_total(fs, groups, options, groups.len() as int);
    &&& crate::grouping::key_groups_valid(groups, group_key_views(fs), participation(fs, category, options), fs.len() as int)
    &&& r.penalty == points(total)
    &&& r.score == 100 - points(total)
    &&& r.findings == count_true(participation(fs, category, options), fs.len() as int)
    &&& order.to_multiset() == costly(fs, groups, options, groups.len() as int).to_multiset()
    &&& crate::sorting::ordered_by(order, |a: usize, b: usize| contributor_before(fs, groups, options, a as int, b as int))
    &&& r.contributors@.len() == (if order.len() <= 5 {
        order.len() as int
    } else {
        5
    })
    &&& forall|i: int|
        0 <= i < r.contributors@.len() ==> reports_group(
            #[trigger] r.contributors@[i],
            fs,
            groups[order[i] as int],
            options,
            category,
        )
}


/// Tenths of a point as whole points, rounded up and at most 100.
fn tenths_to_points(tenths: u16) -> (r: u8)
    ensures
        r == points(tenths as nat),
        r <= 100,
{
    let up: u16 = if tenths == 0 {
        0
    } else {
        (tenths - 1) / 10 + 1
    };
    if up <= 100 {
        up as u8
    } else {
        100
    }
}

/// The order of group positions by their penalty points, representatives and position;
/// positions past the end come last, in order.
pub open spec fn position_before(pv: Seq<u8>, rv: Seq<usize>, fs: Seq<Finding>, a: usize, b: usize) -> bool {
    if a < pv.len() && b < pv.len() {
        let ra = fs[rv[a as int] as int];
        let rb = fs[rv[b as int] as int];
        ||| pv[a as int] > pv[b as int]
        ||| (pv[a as int] == pv[b as int] && ra.rule_id@ != rb.rule_id@ && crate::sorting::chars_le(ra.rule_id@, rb.rule_id@))
        ||| (pv[a as int] == pv[b as int] && ra.rule_id@ == rb.rule_id@ && ra.message@ != rb.message@
            && crate::sorting::chars_le(ra.message@, rb.message@))
        ||| (pv[a as int] == pv[b as int] && ra.rule_id@ == rb.rule_id@ && ra.message@ == rb.message@ && a <= b)
    } else {
        a <= b
    }
}

proof fn lemma_strict_chain(a: Seq<char>, b: Seq<char>, c: Seq<char>)
    requires
        crate::sorting::chars_le(a, b),
        crate::sorting::chars_le(b, c),
        a != b || b != c,
    ensures
        crate::sorting::chars_le(a, c),
        a != c,
{
    crate::sorting::lemma_chars_le_transitive(a, b, c);
    if a == c {
        crate::sorting::lemma_chars_le_antisymmetric(a, b);
        crate::sorting::lemma_chars_le_antisymmetric(b, c);
    }
}

proof fn lemma_position_before_preorder(pv: Seq<u8>, rv: Seq<usize>, fs: Seq<Finding>)
    ensures
        crate::sorting::total_preorder(|a: usize, b: usize| position_before(pv, rv, fs, a, b)),
{
    let leq = |a: usize, b: usize| position_before(pv, rv, fs, a, b);
    assert forall|a: usize, b: usize, c: usize| #[trigger] leq(a, b) && #[trigger] leq(b, c) implies leq(a, c) by {
        if a < pv.len() && b < pv.len() && c < pv.len() {
            let ra = fs[rv[a as int] as int];
            let rb = fs[rv[b as int] as int];
            let rc = fs[rv[c as int] as int];
            crate::sorting::lemma_chars_le_reflexive(ra.rule_id@);
            crate::sorting::lemma_chars_le_reflexive(rb.rule_id@);
            crate::sorting::lemma_chars_le_reflexive(ra.message@);
            crate::sorting::lemma_chars_le_reflexive(rb.message@);
            if pv[a as int] == pv[b as int] && pv[b as int] == pv[c as int] {
                if ra.rule_id@ != rb.rule_id@ || rb.rule_id@ != rc.rule_id@ {
                    lemma_strict_chain(ra.rule_id@, rb.rule_id@, rc.rule_id@);
                } else if ra.message@ != rb.message@ || rb.message@ != rc.message@ {
                    lemma_strict_chain(ra.message@, rb.message@, rc.message@);
                }
            }
        }
    }
    assert forall|a: usize, b: usize| #[trigger] leq(a, b) || leq(b, a) by {
        if a < pv.len() && b < pv.len() {
            let ra = fs[rv[a as int] as int];
            let rb = fs[rv[b as int] as int];
            crate::sorting::lemma_chars_le_total(ra.rule_id@, rb.rule_id@);
            crate::sorting::lemma_chars_le_total(ra.message@, rb.message@);
        }
    }
}

fn copy_texts(v: &Vec<String>, n: usize) -> (r: Vec<String>)
    requires
        n <= v@.len(),
    ensures
        text_views(r@) == text_views(v@).take(n as int),
{
    let mut out: Vec<String> = Vec::new();
    for i in 0..n
        invariant
            n <= v@.len(),
            text_views(out@) == text_views(v@).take(i as int),
    {
        let ghost before = out@;
        let t = v[i].clone();
        assert(t@ == v@[i as int]@);
        out.push(t);
        assert(text_views(out@) =~= text_views(before).push(t@));
        assert(text_views(out@) =~= text_views(v@).take(i + 1));
    }
    out
}

/// Scores the findings that take part, overall (`category` is `None`) or in one
/// category.
fn score_findings(findings: &Vec<Finding>, options: &ScoreOptions, category: Option<ScoreCategory>) -> (r: ScoredFindings)
    requires
        scorable(findings@, *options),
    ensures
        exists|groups: Seq<crate::grouping::KeyGroup>, order: Seq<usize>|
            scores(r, findings@, *options, category, groups, order),
{
    let ghost fs = findings@;
    let n = findings.len();
    let mut keys: Vec<String> = Vec::new();
    let mut part: Vec<bool> = Vec::new();
    let mut count: usize = 0;
    for i in 0..n
        invariant
            n == fs.len(),
            fs == findings@,
            text_views(keys@) == group_key_views(fs).take(i as int),
            part@ == participation(fs, category, *options).take(i as int),
            count == count_true(part@, i as int),
            count <= i,
    {
        let f = &findings[i];
        let ghost kb = keys@;
        let k = score_group_key(f);
        keys.push(k);
        assert(text_views(keys@) =~= text_views(kb).push(k@));
        assert(text_views(keys@) =~= group_key_views(fs).take(i + 1));
        let takes = !f.is_suppressed && match category {
            Some(c) => finding_in_category(f, c, options),
            None => true,
        };
        let ghost pb = part@;
        part.push(takes);
        assert(part@ =~= participation(fs, category, *options).take(i + 1));
        assert(part@.drop_last() =~= pb);
        assert(part@.take(i as int) =~= part@.drop_last());
        assert(count_true(part@.drop_last(), i as int) == count_true(part@, i as int)) by {
            lemma_count_true_prefix(part@.drop_last(), part@, i as int);
        }
        if takes {
            count = count + 1;
        }
    }
    assert(group_key_views(fs).take(n as int) =~= group_key_views(fs));
    assert(participation(fs, category, *options).take(n as int) =~= participation(fs, category, *options));
    assert(crate::grouping::key_views(keys@) =~= group_key_views(fs));
    let groups = crate::grouping::group_by_key(&keys, &part);
    let ghost gs = groups@;
    let mut total: u16 = 0;
    let mut pts: Vec<u8> = Vec::new();
    let mut reps: Vec<usize> = Vec::new();
    let mut costly_pos: Vec<usize> = Vec::new();
    for g in 0..groups.len()
        invariant
            fs == findings@,
            gs == groups@,
            n == fs.len(),
            scorable(fs, *options),
            crate::grouping::key_groups_valid(gs, group_key_views(fs), participation(fs, category, *options), n as int),
            total == saturated_total(fs, gs, *options, g as int),
            pts@.len() == g,
            reps@.len() == g,
            forall|j: int| 0 <= j < g ==> pts@[j] == points(group_cost(fs, #[trigger] gs[j], *options)),
            forall|j: int|
                0 <= j < g ==> reps@[j] == representative(fs, gs[j].members@, gs[j].members@.len() as int) && reps@[j]
                    < fs.len(),
            costly_pos@ == costly(fs, gs, *options, g as int),
    {
        let members = &groups[g].members;
        assert(*members == gs[g as int].members);
        let mut penalties: Vec<u16> = Vec::new();
        for i in 0..members.len()
            invariant
                fs == findings@,
                n == fs.len(),
                scorable(fs, *options),
                g < gs.len(),
                *members == gs[g as int].members,
                crate::grouping::key_groups_valid(gs, group_key_views(fs), participation(fs, category, *options), n as int),
                penalties@ == member_penalties(fs, members@, *options).take(i as int),
                forall|j: int| 0 <= j < i ==> penalties@[j] <= 150,
        {
            let m = members[i];
            assert(gs[g as int].members@[i as int] == m);
            assert(m < n && participation(fs, category, *options)[m as int]);
            assert(!fs[m as int].is_suppressed);
            let p = finding_penalty_tenths(&findings[m], options);
            penalties.push(p);
            assert(penalties@ =~= member_penalties(fs, members@, *options).take(i + 1));
        }
        assert(member_penalties(fs, members@, *options).take(members@.len() as int) =~= member_penalties(fs, members@, *options));
        let cost = repeated_group_penalty_tenths(&penalties);
        total = if total as u32 + cost as u32 > 65535 {
            65535
        } else {
            total + cost
        };
        assert(forall|m: int| 0 <= m < members@.len() ==> members@[m] < findings@.len());
        assert(members@.len() > 0);
        let rep = representative_exec(findings, members);
        pts.push(tenths_to_points(cost));
        reps.push(rep);
        if cost > 0 {
            costly_pos.push(g);
        }
    }
    let ghost pv = pts@;
    let ghost rv = reps@;
    proof {
        lemma_position_before_preorder(pv, rv, fs);
        lemma_costly_bounds(fs, gs, *options, gs.len() as int);
    }
    let le = |a: &usize, b: &usize| -> (r: bool)
        ensures
            r == position_before(pts@, reps@, findings@, *a, *b),
        {
            if *a < pts.len() && *b < pts.len() {
                let pa = pts[*a];
                let pb = pts[*b];
                if pa != pb {
                    return pa > pb;
                }
                let ra = reps[*a];
                let rb = reps[*b];
                if ra < findings.len() && rb < findings.len() {
                    let fa = &findings[ra];
                    let fb = &findings[rb];
                    if !texts_equal(&fa.rule_id, &fb.rule_id) {
                        return crate::sorting::str_le(fa.rule_id.as_str(), fb.rule_id.as_str());
                    }
                    if !texts_equal(&fa.message, &fb.message) {
                        return crate::sorting::str_le(fa.message.as_str(), fb.message.as_str());
                    }
                    *a <= *b
                } else {
                    false
                }
            } else {
                *a <= *b
            }
        };
    let ghost costly_all = costly_pos@;
    let ghost leq = |a: usize, b: usize| position_before(pv, rv, fs, a, b);
    let order = crate::sorting::sort_by_order(costly_pos, le, Ghost(leq));
    proof {
        broadcast use vstd::seq_lib::group_to_multiset_ensures;

        assert forall|i: int| 0 <= i < order@.len() implies order@[i] < gs.len() by {
            assert(order@.contains(order@[i]));
            assert(costly_all.to_multiset().count(order@[i]) > 0);
            assert(costly_all.contains(order@[i]));
        }
        assert forall|i: int, j: int| 0 <= i < j < order@.len() implies #[trigger] contributor_before(
            fs,
            gs,
            *options,
            order@[i] as int,
            order@[j] as int,
        ) by {
            assert(leq(order@[i], order@[j]));
            assert(position_before(pv, rv, fs, order@[i], order@[j]));
        }
    }
    let shown: usize = if order.len() <= 5 {
        order.len()
    } else {
        5
    };
    let mut contributors: Vec<crate::findings::ScoreContributor> = Vec::new();
    for i in 0..shown
        invariant
            fs == findings@,
            gs == groups@,
            pv == pts@,
            rv == reps@,
            shown <= order@.len(),
            pts@.len() == gs.len(),
            reps@.len() == gs.len(),
            forall|j: int| 0 <= j < gs.len() ==> pts@[j] == points(group_cost(fs, #[trigger] gs[j], *options)),
            forall|j: int|
                0 <= j < gs.len() ==> reps@[j] == representative(fs, gs[j].members@, gs[j].members@.len() as int) && reps@[j]
                    < fs.len(),
            forall|j: int| 0 <= j < order@.len() ==> order@[j] < gs.len(),
            crate::grouping::key_groups_valid(gs, group_key_views(fs), participation(fs, category, *options), fs.len() as int),
            contributors@.len() == i,
            forall|j: int|
                0 <= j < i ==> reports_group(#[trigger] contributors@[j], fs, gs[order@[j] as int], *options, category),
    {
        let g = order[i];
        let rep = reps[g];
        let f = &findings[rep];
        let label = match category {
            Some(c) => c.label(),
            None => primary_score_category(f, options).label(),
        };
        let members = &groups[g].members;
        assert(forall|m: int| 0 <= m < members@.len() ==> members@[m] < findings@.len());
        let paths = group_locations(findings, members);
        let keep: usize = if paths.len() <= 5 {
            paths.len()
        } else {
            5
        };
        let locations = copy_texts(&paths, keep);
        contributors.push(
            crate::findings::ScoreContributor {
                rule_id: f.rule_id.clone(),
                message: f.message.clone(),
                category: String::from_str(label),
                penalty: pts[g],
                occurrences: members.len(),
                locations,
            },
        );
    }
    let penalty = tenths_to_points(total);
    let r = ScoredFindings { score: 100 - penalty, penalty, findings: count, contributors };
    assert(scores(r, fs, *options, category, gs, order@));
    r
}

proof fn lemma_count_true_prefix(a: Seq<bool>, b: Seq<bool>, n: int)
    requires
        0 <= n <= a.len(),
        n <= b.len(),
        forall|j: int| 0 <= j < n ==> a[j] == b[j],
    ensures
        count_true(a, n) == count_true(b, n),
    decreases n,
{
    if n > 0 {
        lemma_count_true_prefix(a, b, n - 1);
    }
}

proof fn lemma_costly_bounds(fs: Seq<Finding>, groups: Seq<crate::grouping::KeyGroup>, options: ScoreOptions, k: int)
    requires
        0 <= k <= groups.len(),
        groups.len() <= usize::MAX,
    ensures
        forall|i: int| 0 <= i < costly(fs, groups, options, k).len() ==> costly(fs, groups, options, k)[i] < k,
    decreases k,
{
    if k > 0 {
        lemma_costly_bounds(fs, groups, options, k - 1);
        let prev = costly(fs, groups, options, k - 1);
        if group_cost(fs, groups[k - 1], options) > 0 {
            let last = (k - 1) as usize;
            assert(last as int == k - 1);
            assert(costly(fs, groups, options, k) == prev.push(last));
            assert forall|i: int| 0 <= i < prev.len() + 1 implies prev.push(last)[i] < k by {
                if i < prev.len() {
                    assert(prev.push(last)[i] == prev[i]);
                }
            }
        }
    }
}


/// `cs` holds the score of one category.
pub open spec fn category_scored(cs: crate::findings::ScoreCategoryScore, fs: Seq<Finding>, options: ScoreOptions, c: ScoreCategory) -> bool {
    exists|r: ScoredFindings, groups: Seq<crate::grouping::KeyGroup>, order: Seq<usize>|
        #[trigger] scores(r, fs, options, Some(c), groups, order) && cs.score == Some(r.score) && cs.penalty
            == r.penalty && cs.findings == r.findings
}

fn category_score(findings: &Vec<Finding>, options: &ScoreOptions, category: ScoreCategory) -> (r: crate::findings::ScoreCategoryScore)
    requires
        scorable(findings@, *options),
    ensures
        category_scored(r, findings@, *options, category),
{
    let scored = score_findings(findings, options, Some(category));
    crate::findings::ScoreCategoryScore { score: Some(scored.score), penalty: scored.penalty, findings: scored.findings }
}

/// The score report of findings: disabled (no values) when the options disable
/// scoring, else the overall score with its top contributors and the score of each
/// category, under the v1 model.
pub fn calculate_score_report(findings: &Vec<Finding>, options: &ScoreOptions) -> (r: crate::findings::ScoreReport)
    requires
        scorable(findings@, *options),
    ensures
        r.model.is_v1(),
        !options.enabled ==> !r.enabled && r.overall is None && r.categories.all(
            crate::findings::ScoreCategoryScore { score: None, penalty: 0, findings: 0 },
        ) && r.top_contributors@.len() == 0,
        options.enabled ==> r.enabled && (exists|o: ScoredFindings, groups: Seq<crate::grouping::KeyGroup>, order: Seq<usize>|
            #[trigger] scores(o, findings@, *options, None, groups, order) && r.overall == Some(o.score)
                && r.top_contributors@ == o.contributors@),
        options.enabled ==> category_scored(r.categories.duplication, findings@, *options, ScoreCategory::Duplication),
        options.enabled ==> category_scored(r.categories.complexity, findings@, *options, ScoreCategory::Complexity),
        options.enabled ==> category_scored(r.categories.style, findings@, *options, ScoreCategory::Style),
        options.enabled ==> category_scored(r.categories.react, findings@, *options, ScoreCategory::React),
        options.enabled ==> category_scored(r.categories.fastapi, findings@, *options, ScoreCategory::FastApi),
        options.enabled ==> category_scored(r.categories.rust_idiom, findings@, *options, ScoreCategory::RustIdiom),
        options.enabled ==> category_scored(
            r.categories.maintainability,
            findings@,
            *options,
            ScoreCategory::Maintainability,
        ),
        options.enabled ==> category_scored(r.categories.ci_risk, findings@, *options, ScoreCategory::CiRisk),
{
    if !options.enabled {
        return crate::findings::ScoreReport::disabled();
    }
    let overall = score_findings(findings, options, None);
    let categories = crate::findings::ScoreCategories {
        duplication: category_score(findings, options, ScoreCategory::Duplication),
        complexity: category_score(findings, options, ScoreCategory::Complexity),
        style: category_score(findings, options, ScoreCategory::Style),
        react: category_score(findings, options, ScoreCategory::React),
        fastapi: category_score(findings, options, ScoreCategory::FastApi),
        rust_idiom: category_score(findings, options, ScoreCategory::RustIdiom),
        maintainability: category_score(findings, options, ScoreCategory::Maintainability),
        ci_risk: category_score(findings, options, ScoreCategory::CiRisk),
    };
    let score = overall.score;
    crate::findings::ScoreReport {
        enabled: true,
        overall: Some(score),
        categories,
        top_contributors: overall.contributors,
        model: crate::findings::ScoreModel::default(),
    }
}

/// The sum of the path percentages of the first `n` locations when no file is
/// generated: 50 for tests and fixtures, 100 otherwise.
pub open spec fn plain_percent_sum(locations: Seq<FindingLocation>, n: int) -> nat
    decreases n,
{
    if n <= 0 {
        0
    } else {
        plain_percent_sum(locations, n - 1) + if spec_is_test_or_fixture(locations[n - 1].path@) {
            50nat
        } else {
            100nat
        }
    }
}

/// Without generated files, every finding that takes part has weights that fit.
pub open spec fn scorable_by_default(fs: Seq<Finding>) -> bool {
    forall|i: int|
        0 <= i < fs.len() && !(#[trigger] fs[i]).is_suppressed ==> plain_percent_sum(
            fs[i].locations@,
            fs[i].locations@.len() as int,
        ) <= u16::MAX
}

proof fn lemma_plain_sum(locations: Seq<FindingLocation>, options: ScoreOptions, n: int)
    requires
        options.generated_paths@.len() == 0,
    ensures
        percent_sum(locations, options, n) == plain_percent_sum(locations, n),
    decreases n,
{
    if n > 0 {
        lemma_plain_sum(locations, options, n - 1);
    }
}

/// The overall score of findings under the default options.
pub fn calculate_score(findings: &Vec<Finding>) -> (r: u8)
    requires
        scorable_by_default(findings@),
    ensures
        exists|o: ScoredFindings, groups: Seq<crate::grouping::KeyGroup>, order: Seq<usize>, options: ScoreOptions|
            #[trigger] scores(o, findings@, options, None, groups, order) && options.enabled
                && options.generated_paths@.len() == 0 && options.baseline_new_keys@.len() == 0 && r == o.score,
{
    let options = ScoreOptions::default();
    assert(scorable(findings@, options)) by {
        assert forall|i: int| 0 <= i < findings@.len() && !(#[trigger] findings@[i]).is_suppressed implies weights_fit(
            findings@[i],
            options,
        ) by {
            lemma_plain_sum(findings@[i].locations@, options, findings@[i].locations@.len() as int);
        }
    }
    let report = calculate_score_report(findings, &options);
    match report.overall {
        Some(score) => score,
        None => 100,
    }
}


/// The path of a finding's first location, or the empty path.
pub open spec fn primary_path_of(f: Finding) -> Seq<char> {
    if f.locations@.len() > 0 {
        f.locations@[0].path@
    } else {
        seq![]
    }
}

/// The start of the span of a finding's first location, or 0.
pub open spec fn primary_start_of(f: Finding) -> nat {
    if f.locations@.len() > 0 {
        match f.locations@[0].span {
            Some(span) => span.start as nat,
            None => 0,
        }
    } else {
        0
    }
}

/// The report order of findings: most severe first, then by primary path (as paths
/// compare), primary span start, rule id and finding id.
pub open spec fn finding_le(a: Finding, b: Finding) -> bool {
    let sa = a.severity.spec_rank();
    let sb = b.severity.spec_rank();
    let pa = primary_path_of(a);
    let pb = primary_path_of(b);
    let path_lt = crate::paths::path_le(pa, pb) && !crate::paths::path_le(pb, pa);
    let path_same = crate::paths::path_le(pa, pb) && crate::paths::path_le(pb, pa);
    ||| sa > sb
    ||| (sa == sb && path_lt)
    ||| (sa == sb && path_same && primary_start_of(a) < primary_start_of(b))
    ||| (sa == sb && path_same && primary_start_of(a) == primary_start_of(b) && a.rule_id@ != b.rule_id@
        && crate::sorting::chars_le(a.rule_id@, b.rule_id@))
    ||| (sa == sb && path_same && primary_start_of(a) == primary_start_of(b) && a.rule_id@ == b.rule_id@
        && crate::sorting::chars_le(a.finding_id@, b.finding_id@))
}

proof fn lemma_finding_le_total_preorder()
    ensures
        crate::sorting::total_preorder(|a: Finding, b: Finding| finding_le(a, b)),
{
    crate::paths::lemma_path_le_total_preorder();
    let pleq = |a: Seq<char>, b: Seq<char>| crate::paths::path_le(a, b);
    let leq = |a: Finding, b: Finding| finding_le(a, b);
    assert forall|a: Finding| #[trigger] leq(a, a) by {
        assert(pleq(primary_path_of(a), primary_path_of(a)));
        crate::sorting::lemma_chars_le_reflexive(a.finding_id@);
    }
    assert forall|a: Finding, b: Finding, c: Finding| #[trigger] leq(a, b) && #[trigger] leq(b, c) implies leq(a, c) by {
        let (pa, pb, pc) = (primary_path_of(a), primary_path_of(b), primary_path_of(c));
        assert(pleq(pa, pb) && pleq(pb, pc) ==> pleq(pa, pc));
        assert(pleq(pb, pa) && pleq(pc, pb) ==> pleq(pc, pa));
        assert(pleq(pa, pb) || pleq(pb, pa));
        assert(pleq(pb, pc) || pleq(pc, pb));
        assert(pleq(pa, pc) || pleq(pc, pa));
        assert(pleq(pb, pa) && pleq(pa, pc) ==> pleq(pb, pc));
        assert(pleq(pc, pa) && pleq(pa, pb) ==> pleq(pc, pb));
        assert(pleq(pc, pb) && pleq(pb, pa) ==> pleq(pc, pa));
        assert(pleq(pa, pc) && pleq(pc, pb) ==> pleq(pa, pb));
        assert(pleq(pb, pc) && pleq(pc, pa) ==> pleq(pb, pa));
        crate::sorting::lemma_chars_le_reflexive(a.rule_id@);
        crate::sorting::lemma_chars_le_reflexive(b.rule_id@);
        if a.rule_id@ != b.rule_id@ || b.rule_id@ != c.rule_id@ {
            if crate::sorting::chars_le(a.rule_id@, b.rule_id@) && crate::sorting::chars_le(b.rule_id@, c.rule_id@) {
                lemma_strict_chain(a.rule_id@, b.rule_id@, c.rule_id@);
            }
        }
        if crate::sorting::chars_le(a.finding_id@, b.finding_id@) && crate::sorting::chars_le(b.finding_id@, c.finding_id@) {
            crate::sorting::lemma_chars_le_transitive(a.finding_id@, b.finding_id@, c.finding_id@);
        }
    }
    assert forall|a: Finding, b: Finding| #[trigger] leq(a, b) || leq(b, a) by {
        assert(pleq(primary_path_of(a), primary_path_of(b)) || pleq(primary_path_of(b), primary_path_of(a)));
        crate::sorting::lemma_chars_le_total(a.rule_id@, b.rule_id@);
        crate::sorting::lemma_chars_le_total(a.finding_id@, b.finding_id@);
    }
}

fn primary_path_exec(f: &Finding) -> (r: String)
    ensures
        r@ == primary_path_of(*f),
{
    if f.locations.len() > 0 {
        f.locations[0].path.clone()
    } else {
        String::new()
    }
}

fn primary_start_exec(f: &Finding) -> (r: usize)
    ensures
        r == primary_start_of(*f),
{
    if f.locations.len() > 0 {
        match f.locations[0].span {
            Some(span) => span.start,
            None => 0,
        }
    } else {
        0
    }
}

fn finding_le_exec(a: &Finding, b: &Finding) -> (r: bool)
    ensures
        r == finding_le(*a, *b),
{
    let sa = a.severity.rank();
    let sb = b.severity.rank();
    if sa != sb {
        return sa > sb;
    }
    let pa = primary_path_exec(a);
    let pb = primary_path_exec(b);
    let ab = crate::paths::path_le_exec(pa.as_str(), pb.as_str());
    let ba = crate::paths::path_le_exec(pb.as_str(), pa.as_str());
    proof {
        crate::paths::lemma_components_le_total(path_components(pa@), path_components(pb@));
    }
    if ab != ba {
        return ab;
    }
    let xa = primary_start_exec(a);
    let xb = primary_start_exec(b);
    if xa != xb {
        return xa < xb;
    }
    if !texts_equal(&a.rule_id, &b.rule_id) {
        return crate::sorting::str_le(a.rule_id.as_str(), b.rule_id.as_str());
    }
    crate::sorting::str_le(a.finding_id.as_str(), b.finding_id.as_str())
}

/// Sorts findings into report order.
pub fn sort_findings(findings: &mut Vec<Finding>)
    ensures
        final(findings)@.to_multiset() == old(findings)@.to_multiset(),
        crate::sorting::ordered_by(final(findings)@, |a: Finding, b: Finding| finding_le(a, b)),
{
    proof {
        lemma_finding_le_total_preorder();
    }
    let mut taken: Vec<Finding> = Vec::new();
    std::mem::swap(findings, &mut taken);
    let sorted = crate::sorting::sort_by_order(taken, finding_le_exec, Ghost(|a: Finding, b: Finding| finding_le(a, b)));
    *findings = sorted;
}

impl crate::findings::ScanResult {
    /// An empty result for the workspace at `root`, with a clean enabled score.
    pub fn new(root: String) -> (r: crate::findings::ScanResult)
        ensures
            r.schema_version == crate::findings::REPORT_SCHEMA_VERSION,
            r.root == root,
            r.score.enabled,
            r.score.overall == Some(100u8),
            r.findings@.len() == 0,
            r.stats == (crate::findings::ScanStats {
                files_scanned: 0,
                files_discovered: 0,
                files_skipped: 0,
                config_files: 0,
                files_parsed: 0,
                parse_errors: 0,
                definitions_indexed: 0,
                imports_indexed: 0,
                suppressed_findings: 0,
            }),
    {
        crate::findings::ScanResult {
            schema_version: crate::findings::REPORT_SCHEMA_VERSION,
            root,
            score: crate::findings::ScoreReport::enabled_clean(),
            stats: crate::findings::ScanStats {
                files_scanned: 0,
                files_discovered: 0,
                files_skipped: 0,
                config_files: 0,
                files_parsed: 0,
                parse_errors: 0,
                definitions_indexed: 0,
                imports_indexed: 0,
                suppressed_findings: 0,
            },
            summary: crate::findings::SummaryMetrics::empty(),
            findings: Vec::new(),
        }
    }

    /// The result with its findings in report order and scored under `options`.
    pub fn finalize_with_score_options(self, options: &ScoreOptions) -> (r: crate::findings::ScanResult)
        requires
            scorable(self.findings@, *options),
        ensures
            r.findings@.to_multiset() == self.findings@.to_multiset(),
            crate::sorting::ordered_by(r.findings@, |a: Finding, b: Finding| finding_le(a, b)),
            r.score.model.is_v1(),
            !options.enabled ==> !r.score.enabled && r.score.overall is None,
            options.enabled ==> r.score.enabled && (exists|o: ScoredFindings, groups: Seq<crate::grouping::KeyGroup>, order: Seq<usize>|
                #[trigger] scores(o, r.findings@, *options, None, groups, order) && r.score.overall == Some(o.score)),
            r.schema_version == self.schema_version,
            r.root == self.root,
            r.stats == self.stats,
    {
        let mut result = self;
        let ghost before = result.findings@;
        sort_findings(&mut result.findings);
        proof {
            lemma_scorable_permutation(before, result.findings@, *options);
        }
        result.score = calculate_score_report(&result.findings, options);
        result
    }

    /// The result in report order, scored under the default options.
    pub fn finalize(self) -> (r: crate::findings::ScanResult)
        requires
            scorable_by_default(self.findings@),
        ensures
            r.findings@.to_multiset() == self.findings@.to_multiset(),
            crate::sorting::ordered_by(r.findings@, |a: Finding, b: Finding| finding_le(a, b)),
            r.score.enabled,
            r.score.model.is_v1(),
    {
        let options = ScoreOptions::default();
        proof {
            assert forall|i: int| 0 <= i < self.findings@.len() && !(#[trigger] self.findings@[i]).is_suppressed implies weights_fit(
                self.findings@[i],
                options,
            ) by {
                lemma_plain_sum(self.findings@[i].locations@, options, self.findings@[i].locations@.len() as int);
            }
        }
        self.finalize_with_score_options(&options)
    }
}

/// Whether every finding that takes part has weights that fit does not depend on their
/// order.
proof fn lemma_scorable_permutation(a: Seq<Finding>, b: Seq<Finding>, options: ScoreOptions)
    requires
        scorable(a, options),
        a.to_multiset() == b.to_multiset(),
    ensures
        scorable(b, options),
{
    broadcast use vstd::seq_lib::group_to_multiset_ensures;

    assert forall|i: int| 0 <= i < b.len() && !(#[trigger] b[i]).is_suppressed implies weights_fit(b[i], options) by {
        assert(b.contains(b[i]));
        assert(a.to_multiset().count(b[i]) > 0);
        assert(a.contains(b[i]));
        let j = choose|j: int| 0 <= j < a.len() && a[j] == b[i];
        assert(!a[j].is_suppressed);
    }
}


/// A score lies between 0 and 100, and the score and the penalty add up to 100.
pub proof fn lemma_score_bounds(
    r: ScoredFindings,
    fs: Seq<Finding>,
    options: ScoreOptions,
    category: Option<ScoreCategory>,
    groups: Seq<crate::grouping::KeyGroup>,
    order: Seq<usize>,
)
    requires
        scores(r, fs, options, category, groups, order),
    ensures
        r.score <= 100,
        r.penalty <= 100,
        r.score + r.penalty == 100,
{
}

proof fn lemma_positive_of_zeros(ps: Seq<u16>)
    requires
        forall|i: int| 0 <= i < ps.len() ==> ps[i] == 0,
    ensures
        positive(ps).len() == 0,
    decreases ps.len(),
{
    if ps.len() > 0 {
        lemma_positive_of_zeros(ps.drop_last());
    }
}

proof fn lemma_clean_totals(fs: Seq<Finding>, groups: Seq<crate::grouping::KeyGroup>, options: ScoreOptions, k: int)
    requires
        0 <= k <= groups.len(),
        forall|g: int| 0 <= g < groups.len() ==> group_cost(fs, #[trigger] groups[g], options) == 0,
    ensures
        saturated_total(fs, groups, options, k) == 0,
        costly(fs, groups, options, k).len() == 0,
    decreases k,
{
    if k > 0 {
        lemma_clean_totals(fs, groups, options, k - 1);
        assert(group_cost(fs, groups[k - 1], options) == 0);
    }
}

/// When no finding that takes part costs anything (no findings, all suppressed, or all
/// of severity info, for instance), the score is 100 with no contributors.
pub proof fn lemma_costless_findings_score_clean(
    r: ScoredFindings,
    fs: Seq<Finding>,
    options: ScoreOptions,
    category: Option<ScoreCategory>,
    groups: Seq<crate::grouping::KeyGroup>,
    order: Seq<usize>,
)
    requires
        scores(r, fs, options, category, groups, order),
        forall|i: int| 0 <= i < fs.len() && takes_part(#[trigger] fs[i], category, options) ==> spec_finding_penalty(fs[i], options) == 0,
    ensures
        r.score == 100,
        r.penalty == 0,
        r.contributors@.len() == 0,
{
    assert forall|g: int| 0 <= g < groups.len() implies group_cost(fs, #[trigger] groups[g], options) == 0 by {
        let members = groups[g].members@;
        let ps = member_penalties(fs, members, options);
        assert forall|i: int| 0 <= i < ps.len() implies ps[i] == 0 by {
            let m = members[i];
            assert(participation(fs, category, options)[m as int]);
            assert(takes_part(fs[m as int], category, options));
        }
        lemma_positive_of_zeros(ps);
        let leq = |a: u16, b: u16| larger_first(a, b);
        lemma_larger_first_orders();
        positive(ps).lemma_sort_by_ensures(leq);
        assert(positive(ps).sort_by(leq).len() == 0) by {
            broadcast use vstd::seq_lib::group_to_multiset_ensures;

            assert(positive(ps).to_multiset().len() == 0);
        }
    }
    lemma_clean_totals(fs, groups, options, groups.len() as int);
    assert(order.len() == 0) by {
        broadcast use vstd::seq_lib::group_to_multiset_ensures;

        assert(order.to_multiset().len() == 0);
    }
}

} // verus!
