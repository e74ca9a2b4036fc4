//! Findings about groups of near-duplicate definitions and of vector-discovered
//! candidates: which members are reported in which order, the averaged pair scores,
//! the shared and differing statements of the strongest pair, and the stable keys.
use vstd::prelude::*;
use vstd::utf8::encode_utf8;

use crate::baseline_keys::sorted_distinct;
use crate::config::{insert_entry, insert_entry_exec, entry_views, text_views};
use crate::findings::{
    AutofixSafety, Confidence, Finding, FindingKind, FindingLocation, MetadataValue, Severity,
};
use crate::hashing::{sha256_hex, spec_hex, spec_sha256};
use crate::duplication::NEAR_FUNCTION_RULE;
use crate::metadata_lines::line_if;
use crate::near::{LshCandidates, NearPairScore, NEAR_DUPLICATE_VERSION};
use crate::policy::{find_entry, lookup};
use crate::paths::{lemma_path_le_total_preorder, path_le, path_le_exec};
use crate::shingles::StatementRegion;
use crate::sorting::{chars_le, lemma_chars_le_reflexive, lemma_chars_le_total, lemma_chars_le_transitive, ordered_by, sort_by_order, str_le, total_preorder};
use crate::symbol_findings::{
    body_location, body_location_exec, lists_key_set, max_of, opt_view, present_frameworks, push_text,
    shared_definition_language, shared_definition_framework, DefinitionInfo,
};
use crate::text::{chars_of, decimal, spec_decimal, spec_join, string_from_chars, views};

verus! {

broadcast use {
    vstd::string::group_string_axioms,
    vstd::std_specs::vec::group_vec_axioms,
};

/// A near-duplicate candidate: its definition, sizes, feature hash and statements.
#[derive(Debug, Clone)]
pub struct NearMember {
    pub definition: DefinitionInfo,
    pub line_count: usize,
    pub token_count: usize,
    pub statement_count: usize,
    pub feature_hash: String,
    pub statements: Vec<StatementRegion>,
}

/// Whether member `a` is reported before (or with) member `b`: by file, then start,
/// then qualified name. Positions past the end come last, by value.
pub open spec fn member_le(ds: Seq<DefinitionInfo>, a: usize, b: usize) -> bool {
    let n = ds.len();
    if a < n && b < n {
        let da = ds[a as int];
        let db = ds[b as int];
        path_le(da.file@, db.file@) && (path_le(db.file@, da.file@) ==> (da.span_start < db.span_start || (
        da.span_start == db.span_start && chars_le(da.qualified_name@, db.qualified_name@))))
    } else if a < n {
        true
    } else if b < n {
        false
    } else {
        a <= b
    }
}

pub(crate) proof fn lemma_member_le_total_preorder(ds: Seq<DefinitionInfo>)
    ensures
        total_preorder(|a: usize, b: usize| member_le(ds, a, b)),
{
    lemma_path_le_total_preorder();
    let pl = |a: Seq<char>, b: Seq<char>| path_le(a, b);
    assert forall|a: usize| #[trigger] member_le(ds, a, a) by {
        if a < ds.len() {
            assert(pl(ds[a as int].file@, ds[a as int].file@));
            lemma_chars_le_reflexive(ds[a as int].qualified_name@);
        }
    }
    assert forall|a: usize, b: usize| #[trigger] member_le(ds, a, b) || member_le(ds, b, a) by {
        if a < ds.len() && b < ds.len() {
            let da = ds[a as int];
            let db = ds[b as int];
            assert(pl(da.file@, db.file@) || pl(db.file@, da.file@));
            lemma_chars_le_total(da.qualified_name@, db.qualified_name@);
        }
    }
    assert forall|a: usize, b: usize, c: usize| #[trigger] member_le(ds, a, b) && #[trigger] member_le(ds, b, c) implies member_le(ds, a, c) by {
        if a < ds.len() && b < ds.len() && c < ds.len() {
            let da = ds[a as int];
            let db = ds[b as int];
            let dc = ds[c as int];
            assert(pl(da.file@, db.file@) && pl(db.file@, dc.file@));
            assert(pl(da.file@, dc.file@));
            if path_le(dc.file@, da.file@) {
                assert(pl(dc.file@, da.file@) && pl(da.file@, db.file@));
                assert(pl(db.file@, da.file@)) by {
                    assert(pl(db.file@, dc.file@) && pl(dc.file@, da.file@));
                }
                assert(pl(dc.file@, db.file@));
                if da.span_start == db.span_start && db.span_start == dc.span_start {
                    lemma_chars_le_transitive(da.qualified_name@, db.qualified_name@, dc.qualified_name@);
                }
            }
        }
    }
}

/// The definitions of the candidates.
pub open spec fn member_definitions(fs: Seq<NearMember>) -> Seq<DefinitionInfo> {
    fs.map_values(|m: NearMember| m.definition)
}

/// `ord` lists the members of `group` in report order.
pub open spec fn report_order(ord: Seq<usize>, group: Seq<usize>, ds: Seq<DefinitionInfo>) -> bool {
    &&& ord.to_multiset() == group.to_multiset()
    &&& ord.len() == group.len()
    &&& ordered_by(ord, |a: usize, b: usize| member_le(ds, a, b))
}

/// Puts the members of a group in report order.
pub fn order_members(features: &Vec<NearMember>, group: &Vec<usize>) -> (r: Vec<usize>)
    ensures
        report_order(r@, group@, member_definitions(features@)),
{
    let ghost dv = member_definitions(features@);
    proof {
        lemma_member_le_total_preorder(dv);
    }
    let le = |a: &usize, b: &usize| -> (r: bool)
        ensures
            r == member_le(member_definitions(features@), *a, *b),
        {
            let n = features.len();
            if *a < n && *b < n {
                let da = &features[*a].definition;
                let db = &features[*b].definition;
                proof {
                    assert(member_definitions(features@)[*a as int] == *da);
                    assert(member_definitions(features@)[*b as int] == *db);
                }
                if !path_le_exec(da.file.as_str(), db.file.as_str()) {
                    false
                } else if !path_le_exec(db.file.as_str(), da.file.as_str()) {
                    true
                } else {
                    da.span_start < db.span_start || (da.span_start == db.span_start && str_le(
                        da.qualified_name.as_str(),
                        db.qualified_name.as_str(),
                    ))
                }
            } else if *a < n {
                true
            } else if *b < n {
                false
            } else {
                *a <= *b
            }
        };
    let copy = clone_indices(group);
    sort_by_order(copy, le, Ghost(|a: usize, b: usize| member_le(dv, a, b)))
}

pub(crate) fn clone_indices(v: &Vec<usize>) -> (r: Vec<usize>)
    ensures
        r@ == v@,
{
    let mut out: Vec<usize> = Vec::new();
    for i in 0..v.len()
        invariant
            out@ == v@.take(i as int),
    {
        out.push(v[i]);
        assert(out@ =~= v@.take(i + 1));
    }
    assert(v@.take(v@.len() as int) =~= v@);
    out
}

/// The pair scores whose two sides are both in the group, in order.
pub open spec fn group_pairs(ps: Seq<NearPairScore>, group: Seq<usize>) -> Seq<NearPairScore>
    decreases ps.len(),
{
    if ps.len() == 0 {
        seq![]
    } else if group.contains(ps.last().left) && group.contains(ps.last().right) {
        group_pairs(ps.drop_last(), group).push(ps.last())
    } else {
        group_pairs(ps.drop_last(), group)
    }
}

pub(crate) fn contains_index(v: &Vec<usize>, x: usize) -> (r: bool)
    ensures
        r == v@.contains(x),
{
    for i in 0..v.len()
        invariant
            forall|j: int| 0 <= j < i ==> v@[j] != x,
    {
        if v[i] == x {
            assert(v@[i as int] == x);
            return true;
        }
    }
    false
}

pub fn select_group_pairs(ps: &Vec<NearPairScore>, group: &Vec<usize>) -> (r: Vec<NearPairScore>)
    ensures
        r@ == group_pairs(ps@, group@),
{
    let mut out: Vec<NearPairScore> = Vec::new();
    for i in 0..ps.len()
        invariant
            out@ == group_pairs(ps@.take(i as int), group@),
    {
        assert(ps@.take(i + 1).drop_last() =~= ps@.take(i as int));
        assert(ps@.take(i + 1).last() == ps@[i as int]);
        let p = ps[i];
        if contains_index(group, p.left) && contains_index(group, p.right) {
            out.push(p);
        }
    }
    assert(ps@.take(ps@.len() as int) =~= ps@);
    out
}

/// The sum of some small numbers.
pub open spec fn sum_u8(s: Seq<u8>) -> nat
    decreases s.len(),
{
    if s.len() == 0 {
        0
    } else {
        sum_u8(s.drop_last()) + s.last() as nat
    }
}

proof fn lemma_sum_u8_bound(s: Seq<u8>)
    ensures
        sum_u8(s) <= 255 * s.len(),
    decreases s.len(),
{
    if s.len() > 0 {
        lemma_sum_u8_bound(s.drop_last());
    }
}

/// The rounded average of some small numbers: 0 for none, 100 when it does not fit
/// a byte.
pub open spec fn average_u8(s: Seq<u8>) -> u8 {
    if s.len() == 0 {
        0
    } else {
        let v = (sum_u8(s) + s.len() / 2) / s.len();
        if v <= 255 {
            v as u8
        } else {
            100
        }
    }
}

/// Averages small numbers, rounding halves up.
pub fn average(values: &Vec<u8>) -> (r: u8)
    requires
        values@.len() * 256 <= usize::MAX,
    ensures
        r == average_u8(values@),
{
    if values.len() == 0 {
        return 0;
    }
    let mut total: usize = 0;
    for i in 0..values.len()
        invariant
            values@.len() * 256 <= usize::MAX,
            total == sum_u8(values@.take(i as int)),
            total <= 255 * i,
    {
        assert(values@.take(i + 1).drop_last() =~= values@.take(i as int));
        total = total + values[i] as usize;
    }
    assert(values@.take(values@.len() as int) =~= values@);
    let v = (total + values.len() / 2) / values.len();
    if v <= 255 {
        v as u8
    } else {
        100
    }
}

/// One of a pair score's metrics: 0 the score, then tokens, syntax paths, statements,
/// statement counts, calls, signature, MinHash estimate and control flow.
pub open spec fn pair_metric(p: NearPairScore, k: int) -> u8 {
    if k == 0 {
        p.score
    } else if k == 1 {
        p.token_similarity
    } else if k == 2 {
        p.ast_similarity
    } else if k == 3 {
        p.statement_similarity
    } else if k == 4 {
        p.statement_count_similarity
    } else if k == 5 {
        p.call_similarity
    } else if k == 6 {
        p.signature_similarity
    } else if k == 7 {
        p.signature_estimate
    } else {
        p.control_flow_similarity
    }
}

/// The average of one metric over some pair scores.
pub open spec fn metric_average(ps: Seq<NearPairScore>, k: int) -> u8 {
    average_u8(ps.map_values(|p: NearPairScore| pair_metric(p, k)))
}

fn pair_metric_exec(p: &NearPairScore, k: usize) -> (r: u8)
    ensures
        r == pair_metric(*p, k as int),
{
    if k == 0 {
        p.score
    } else if k == 1 {
        p.token_similarity
    } else if k == 2 {
        p.ast_similarity
    } else if k == 3 {
        p.statement_similarity
    } else if k == 4 {
        p.statement_count_similarity
    } else if k == 5 {
        p.call_similarity
    } else if k == 6 {
        p.signature_similarity
    } else if k == 7 {
        p.signature_estimate
    } else {
        p.control_flow_similarity
    }
}

fn metric_average_exec(ps: &Vec<NearPairScore>, k: usize) -> (r: u8)
    requires
        ps@.len() * 256 <= usize::MAX,
    ensures
        r == metric_average(ps@, k as int),
{
    let mut values: Vec<u8> = Vec::new();
    for i in 0..ps.len()
        invariant
            values@ == ps@.take(i as int).map_values(|p: NearPairScore| pair_metric(p, k as int)),
    {
        values.push(pair_metric_exec(&ps[i], k));
        assert(values@ =~= ps@.take(i + 1).map_values(|p: NearPairScore| pair_metric(p, k as int)));
    }
    assert(ps@.take(ps@.len() as int) =~= ps@);
    average(&values)
}

/// Whether pair `a` ranks at least as high as `b`: higher score, then lower left
/// side, then lower right side.
pub open spec fn pair_at_least(a: NearPairScore, b: NearPairScore) -> bool {
    a.score > b.score || (a.score == b.score && (a.left < b.left || (a.left == b.left && a.right <= b.right)))
}

/// The strongest pair: the highest-ranked one, the last among equals.
pub open spec fn strongest(ps: Seq<NearPairScore>) -> Option<NearPairScore>
    decreases ps.len(),
{
    if ps.len() == 0 {
        None
    } else {
        match strongest(ps.drop_last()) {
            None => Some(ps.last()),
            Some(c) => if pair_at_least(ps.last(), c) {
                Some(ps.last())
            } else {
                Some(c)
            },
        }
    }
}

fn strongest_exec(ps: &Vec<NearPairScore>) -> (r: Option<NearPairScore>)
    ensures
        r == strongest(ps@),
{
    let mut best: Option<NearPairScore> = None;
    for i in 0..ps.len()
        invariant
            best == strongest(ps@.take(i as int)),
    {
        assert(ps@.take(i + 1).drop_last() =~= ps@.take(i as int));
        assert(ps@.take(i + 1).last() == ps@[i as int]);
        let p = ps[i];
        best = match best {
            None => Some(p),
            Some(c) => if p.score > c.score || (p.score == c.score && (p.left < c.left || (p.left == c.left && p.right <= c.right))) {
                Some(p)
            } else {
                Some(c)
            },
        };
    }
    assert(ps@.take(ps@.len() as int) =~= ps@);
    best
}


proof fn lemma_strongest_in(ps: Seq<NearPairScore>)
    ensures
        strongest(ps) matches Some(p) ==> ps.contains(p),
        ps.len() > 0 ==> strongest(ps) is Some,
    decreases ps.len(),
{
    if ps.len() > 0 {
        lemma_strongest_in(ps.drop_last());
        if let Some(c) = strongest(ps.drop_last()) {
            let k = choose|k: int| 0 <= k < ps.drop_last().len() && ps.drop_last()[k] == c;
            assert(ps[k] == c);
        }
        assert(ps[ps.len() - 1] == ps.last());
    }
}

proof fn lemma_group_pairs(ps: Seq<NearPairScore>, group: Seq<usize>)
    ensures
        group_pairs(ps, group).len() <= ps.len(),
        forall|k: int|
            0 <= k < group_pairs(ps, group).len() ==> group.contains(#[trigger] group_pairs(ps, group)[k].left)
                && group.contains(group_pairs(ps, group)[k].right),
    decreases ps.len(),
{
    if ps.len() > 0 {
        lemma_group_pairs(ps.drop_last(), group);
    }
}

/// The candidates in the order `ord` lists them.
pub open spec fn ordered_members(fs: Seq<NearMember>, ord: Seq<usize>) -> Seq<NearMember> {
    ord.map_values(|i: usize| fs[i as int])
}

/// Whether member `a`'s feature hash sorts before (or with) member `b`'s. Positions
/// past the end come last, by value.
pub open spec fn hash_le(fs: Seq<NearMember>, a: usize, b: usize) -> bool {
    let n = fs.len();
    if a < n && b < n {
        chars_le(fs[a as int].feature_hash@, fs[b as int].feature_hash@)
    } else if a < n {
        true
    } else if b < n {
        false
    } else {
        a <= b
    }
}

proof fn lemma_hash_le_total_preorder(fs: Seq<NearMember>)
    ensures
        total_preorder(|a: usize, b: usize| hash_le(fs, a, b)),
{
    assert forall|a: usize| #[trigger] hash_le(fs, a, a) by {
        if a < fs.len() {
            lemma_chars_le_reflexive(fs[a as int].feature_hash@);
        }
    }
    assert forall|a: usize, b: usize| #[trigger] hash_le(fs, a, b) || hash_le(fs, b, a) by {
        if a < fs.len() && b < fs.len() {
            lemma_chars_le_total(fs[a as int].feature_hash@, fs[b as int].feature_hash@);
        }
    }
    assert forall|a: usize, b: usize, c: usize| #[trigger] hash_le(fs, a, b) && #[trigger] hash_le(fs, b, c) implies hash_le(fs, a, c) by {
        if a < fs.len() && b < fs.len() && c < fs.len() {
            lemma_chars_le_transitive(fs[a as int].feature_hash@, fs[b as int].feature_hash@, fs[c as int].feature_hash@);
        }
    }
}

/// Lists the members of a group by feature hash.
fn order_by_hash(features: &Vec<NearMember>, group: &Vec<usize>) -> (r: Vec<usize>)
    ensures
        r@.to_multiset() == group@.to_multiset(),
        r@.len() == group@.len(),
        ordered_by(r@, |a: usize, b: usize| hash_le(features@, a, b)),
{
    let ghost fv = features@;
    proof {
        lemma_hash_le_total_preorder(fv);
    }
    let le = |a: &usize, b: &usize| -> (r: bool)
        ensures
            r == hash_le(features@, *a, *b),
        {
            let n = features.len();
            if *a < n && *b < n {
                str_le(features[*a].feature_hash.as_str(), features[*b].feature_hash.as_str())
            } else if *a < n {
                true
            } else if *b < n {
                false
            } else {
                *a <= *b
            }
        };
    let copy = clone_indices(group);
    sort_by_order(copy, le, Ghost(|a: usize, b: usize| hash_le(fv, a, b)))
}

/// The group hash: the SHA-256 hex of the version and the sorted feature hashes.
pub open spec fn near_group_hash(sorted_hashes: Seq<Seq<char>>) -> Seq<char> {
    spec_hex(spec_sha256(encode_utf8(NEAR_DUPLICATE_VERSION@ + "|"@ + spec_join(sorted_hashes, "|"@))))
}

/// The stable key of a near-duplicate finding: the SHA-256 hex of the rule, the group
/// hash and the qualified names in report order.
pub open spec fn near_key(group_hash: Seq<char>, qualified: Seq<Seq<char>>) -> Seq<char> {
    spec_hex(spec_sha256(encode_utf8(NEAR_FUNCTION_RULE@ + "|"@ + group_hash + "|"@ + spec_join(qualified, "|"@))))
}

/// The statements of a body by normalised text, each with the last line it is on.
pub open spec fn statement_map(ss: Seq<StatementRegion>) -> Seq<(Seq<char>, usize)>
    decreases ss.len(),
{
    if ss.len() == 0 {
        seq![]
    } else {
        insert_entry(statement_map(ss.drop_last()), ss.last().normalized@, ss.last().line)
    }
}

/// The statements of `l` that `r` also has, in order, with the line on each side.
pub open spec fn shared_statements(l: Seq<(Seq<char>, usize)>, r: Seq<(Seq<char>, usize)>) -> Seq<(Seq<char>, usize, usize)>
    decreases l.len(),
{
    if l.len() == 0 {
        seq![]
    } else {
        let rest = shared_statements(l.drop_last(), r);
        match lookup(r, l.last().0) {
            Some(line) => rest.push((l.last().0, l.last().1, line)),
            None => rest,
        }
    }
}

/// The statements of `l` that `r` lacks, in order.
pub open spec fn unshared_statements(l: Seq<(Seq<char>, usize)>, r: Seq<(Seq<char>, usize)>) -> Seq<(Seq<char>, usize)>
    decreases l.len(),
{
    if l.len() == 0 {
        seq![]
    } else {
        let rest = unshared_statements(l.drop_last(), r);
        match lookup(r, l.last().0) {
            Some(_) => rest,
            None => rest.push(l.last()),
        }
    }
}

/// At most the first `n` items.
pub open spec fn first_n<T>(s: Seq<T>, n: nat) -> Seq<T> {
    if s.len() <= n {
        s
    } else {
        s.take(n as int)
    }
}

/// The text fields of a record.
pub open spec fn field_views(r: Vec<(String, String)>) -> Seq<(Seq<char>, Seq<char>)> {
    r@.map_values(|f: (String, String)| (f.0@, f.1@))
}

/// The text fields of some records.
pub open spec fn record_views(rs: Seq<Vec<(String, String)>>) -> Seq<Seq<(Seq<char>, Seq<char>)>> {
    rs.map_values(|r: Vec<(String, String)>| field_views(r))
}

/// A metadata value that holds exactly the given records.
pub open spec fn records_are(v: MetadataValue, expected: Seq<Seq<(Seq<char>, Seq<char>)>>) -> bool {
    v matches MetadataValue::Records(rs) && record_views(rs@) == expected
}

/// A metadata value that holds exactly the given texts.
pub open spec fn texts_are(v: MetadataValue, expected: Seq<Seq<char>>) -> bool {
    v matches MetadataValue::TextList(l) && text_views(l@) == expected
}

/// A pair score as a record: its metrics in decimal and the qualified names of its sides.
pub open spec fn pair_record(fs: Seq<NearMember>, p: NearPairScore) -> Seq<(Seq<char>, Seq<char>)> {
    seq![
        ("astSimilarity"@, spec_decimal(p.ast_similarity as nat)),
        ("callSimilarity"@, spec_decimal(p.call_similarity as nat)),
        ("controlFlowSimilarity"@, spec_decimal(p.control_flow_similarity as nat)),
        ("left"@, fs[p.left as int].definition.qualified_name@),
        ("right"@, fs[p.right as int].definition.qualified_name@),
        ("score"@, spec_decimal(p.score as nat)),
        ("signatureEstimate"@, spec_decimal(p.signature_estimate as nat)),
        ("signatureSimilarity"@, spec_decimal(p.signature_similarity as nat)),
        ("statementCountSimilarity"@, spec_decimal(p.statement_count_similarity as nat)),
        ("statementSimilarity"@, spec_decimal(p.statement_similarity as nat)),
        ("tokenSimilarity"@, spec_decimal(p.token_similarity as nat)),
    ]
}

/// A statement both sides share, with its line and symbol on each side.
pub open spec fn similar_record(st: (Seq<char>, usize, usize), left: Seq<char>, right: Seq<char>) -> Seq<(Seq<char>, Seq<char>)> {
    seq![
        ("left_line"@, spec_decimal(st.1 as nat)),
        ("left_symbol"@, left),
        ("right_line"@, spec_decimal(st.2 as nat)),
        ("right_symbol"@, right),
        ("statement"@, st.0),
    ]
}

/// A statement only one side has, with its line and symbol.
pub open spec fn differing_record(st: (Seq<char>, usize), symbol: Seq<char>) -> Seq<(Seq<char>, Seq<char>)> {
    seq![("line"@, spec_decimal(st.1 as nat)), ("statement"@, st.0), ("symbol"@, symbol)]
}

/// Up to four statements the strongest pair shares, by statement text.
pub open spec fn similar_regions(fs: Seq<NearMember>, gp: Seq<NearPairScore>) -> Seq<Seq<(Seq<char>, Seq<char>)>> {
    match strongest(gp) {
        None => seq![],
        Some(p) => {
            let l = fs[p.left as int];
            let r = fs[p.right as int];
            first_n(shared_statements(statement_map(l.statements@), statement_map(r.statements@)), 4).map_values(
                |st: (Seq<char>, usize, usize)| similar_record(st, l.definition.qualified_name@, r.definition.qualified_name@),
            )
        },
    }
}

/// Up to two statements only the left side of the strongest pair has, then up to two
/// only the right side has.
pub open spec fn differing_regions(fs: Seq<NearMember>, gp: Seq<NearPairScore>) -> Seq<Seq<(Seq<char>, Seq<char>)>> {
    match strongest(gp) {
        None => seq![],
        Some(p) => {
            let l = fs[p.left as int];
            let r = fs[p.right as int];
            let lm = statement_map(l.statements@);
            let rm = statement_map(r.statements@);
            first_n(unshared_statements(lm, rm), 2).map_values(
                |st: (Seq<char>, usize)| differing_record(st, l.definition.qualified_name@),
            ) + first_n(unshared_statements(rm, lm), 2).map_values(
                |st: (Seq<char>, usize)| differing_record(st, r.definition.qualified_name@),
            )
        },
    }
}

/// The signals of a near-duplicate group: averaged metrics over their thresholds,
/// framework context when a member has a framework, and always the LSH candidate.
pub open spec fn near_signal_list(gp: Seq<NearPairScore>, ms: Seq<NearMember>) -> Seq<Seq<char>> {
    line_if(metric_average(gp, 1) >= 80, "similar_tokens"@) + line_if(metric_average(gp, 2) >= 80, "similar_ast_paths"@)
        + line_if(metric_average(gp, 3) >= 70, "similar_statements"@) + line_if(metric_average(gp, 5) >= 70, "similar_calls"@)
        + line_if(metric_average(gp, 8) >= 70, "similar_control_flow"@) + line_if(
        metric_average(gp, 6) >= 80,
        "compatible_signature"@,
    ) + line_if(exists|i: int| 0 <= i < ms.len() && (#[trigger] ms[i]).definition.framework is Some, "framework_context"@)
        + seq!["lsh_candidate"@]
}

fn lookup_line(m: &Vec<(String, usize)>, key: &str) -> (r: Option<usize>)
    ensures
        r == lookup(entry_views(m@), key@),
{
    match find_entry(m, key) {
        Some(p) => {
            assert(entry_views(m@)[p as int].1 == m@[p as int].1);
            Some(m[p].1)
        },
        None => None,
    }
}

fn statement_map_exec(ss: &Vec<StatementRegion>) -> (r: Vec<(String, usize)>)
    ensures
        entry_views(r@) == statement_map(ss@),
{
    let mut m: Vec<(String, usize)> = Vec::new();
    for i in 0..ss.len()
        invariant
            entry_views(m@) == statement_map(ss@.take(i as int)),
    {
        assert(ss@.take(i + 1).drop_last() =~= ss@.take(i as int));
        assert(ss@.take(i + 1).last() == ss@[i as int]);
        insert_entry_exec(&mut m, ss[i].normalized.clone(), ss[i].line);
    }
    assert(ss@.take(ss@.len() as int) =~= ss@);
    m
}

pub(crate) fn push_field(rec: &mut Vec<(String, String)>, key: &str, value: String)
    ensures
        field_views(*final(rec)) == field_views(*old(rec)).push((key@, value@)),
{
    let ghost before = *rec;
    rec.push((key.to_string(), value));
    assert(field_views(*rec) =~= field_views(before).push((key@, value@)));
}

pub(crate) fn push_record(out: &mut Vec<Vec<(String, String)>>, rec: Vec<(String, String)>)
    ensures
        record_views(final(out)@) == record_views(old(out)@).push(field_views(rec)),
{
    let ghost before = out@;
    out.push(rec);
    assert(record_views(out@) =~= record_views(before).push(field_views(rec)));
}

fn pair_record_exec(features: &Vec<NearMember>, p: &NearPairScore) -> (r: Vec<(String, String)>)
    requires
        p.left < features@.len(),
        p.right < features@.len(),
    ensures
        field_views(r) == pair_record(features@, *p),
{
    let mut r: Vec<(String, String)> = Vec::new();
    push_field(&mut r, "astSimilarity", decimal(p.ast_similarity as usize));
    push_field(&mut r, "callSimilarity", decimal(p.call_similarity as usize));
    push_field(&mut r, "controlFlowSimilarity", decimal(p.control_flow_similarity as usize));
    push_field(&mut r, "left", features[p.left].definition.qualified_name.clone());
    push_field(&mut r, "right", features[p.right].definition.qualified_name.clone());
    push_field(&mut r, "score", decimal(p.score as usize));
    push_field(&mut r, "signatureEstimate", decimal(p.signature_estimate as usize));
    push_field(&mut r, "signatureSimilarity", decimal(p.signature_similarity as usize));
    push_field(&mut r, "statementCountSimilarity", decimal(p.statement_count_similarity as usize));
    push_field(&mut r, "statementSimilarity", decimal(p.statement_similarity as usize));
    push_field(&mut r, "tokenSimilarity", decimal(p.token_similarity as usize));
    assert(field_views(r) =~= pair_record(features@, *p));
    r
}

fn pair_records(features: &Vec<NearMember>, gp: &Vec<NearPairScore>) -> (r: Vec<Vec<(String, String)>>)
    requires
        forall|k: int| 0 <= k < gp@.len() ==> (#[trigger] gp@[k]).left < features@.len() && gp@[k].right < features@.len(),
    ensures
        record_views(r@) == gp@.map_values(|p: NearPairScore| pair_record(features@, p)),
{
    let mut out: Vec<Vec<(String, String)>> = Vec::new();
    for i in 0..gp.len()
        invariant
            forall|k: int| 0 <= k < gp@.len() ==> (#[trigger] gp@[k]).left < features@.len() && gp@[k].right < features@.len(),
            record_views(out@) == gp@.take(i as int).map_values(|p: NearPairScore| pair_record(features@, p)),
    {
        let rec = pair_record_exec(features, &gp[i]);
        push_record(&mut out, rec);
        assert(gp@.take(i + 1).map_values(|p: NearPairScore| pair_record(features@, p)) =~= gp@.take(i as int).map_values(
            |p: NearPairScore| pair_record(features@, p),
        ).push(pair_record(features@, gp@[i as int])));
    }
    assert(gp@.take(gp@.len() as int) =~= gp@);
    out
}

fn similar_records(lm: &Vec<(String, usize)>, rm: &Vec<(String, usize)>, left: &String, right: &String) -> (r: Vec<
    Vec<(String, String)>,
>)
    ensures
        record_views(r@) == first_n(shared_statements(entry_views(lm@), entry_views(rm@)), 4).map_values(
            |st: (Seq<char>, usize, usize)| similar_record(st, left@, right@),
        ),
{
    let ghost lv = entry_views(lm@);
    let ghost rv = entry_views(rm@);
    let mut out: Vec<Vec<(String, String)>> = Vec::new();
    let mut i: usize = 0;
    while i < lm.len() && out.len() < 4
        invariant
            lv == entry_views(lm@),
            rv == entry_views(rm@),
            i <= lm@.len(),
            out@.len() <= 4,
            record_views(out@) == first_n(shared_statements(lv.take(i as int), rv), 4).map_values(
                |st: (Seq<char>, usize, usize)| similar_record(st, left@, right@),
            ),
            out@.len() < 4 ==> shared_statements(lv.take(i as int), rv).len() == out@.len(),
        decreases lm@.len() - i,
    {
        let ghost pre = lv.take(i as int);
        let ghost next = lv.take(i + 1);
        assert(next.drop_last() =~= pre);
        assert(next.last() == lv[i as int]);
        assert(lv[i as int] == (lm@[i as int].0@, lm@[i as int].1));
        match lookup_line(rm, lm[i].0.as_str()) {
            Some(line) => {
                let mut rec: Vec<(String, String)> = Vec::new();
                push_field(&mut rec, "left_line", decimal(lm[i].1));
                push_field(&mut rec, "left_symbol", left.clone());
                push_field(&mut rec, "right_line", decimal(line));
                push_field(&mut rec, "right_symbol", right.clone());
                push_field(&mut rec, "statement", lm[i].0.clone());
                let ghost st = (lm@[i as int].0@, lm@[i as int].1, line);
                assert(field_views(rec) =~= similar_record(st, left@, right@));
                push_record(&mut out, rec);
                assert(shared_statements(next, rv) == shared_statements(pre, rv).push(st));
                assert(first_n(shared_statements(next, rv), 4).map_values(
                    |st: (Seq<char>, usize, usize)| similar_record(st, left@, right@),
                ) =~= first_n(shared_statements(pre, rv), 4).map_values(
                    |st: (Seq<char>, usize, usize)| similar_record(st, left@, right@),
                ).push(similar_record(st, left@, right@)));
            },
            None => {
                assert(shared_statements(next, rv) == shared_statements(pre, rv));
            },
        }
        i = i + 1;
    }
    proof {
        if i == lm@.len() {
            assert(lv.take(i as int) =~= lv);
        } else {
            lemma_shared_prefix_grows(lv, rv, i as int);
        }
    }
    out
}

proof fn lemma_shared_prefix_grows(l: Seq<(Seq<char>, usize)>, r: Seq<(Seq<char>, usize)>, i: int)
    requires
        0 <= i <= l.len(),
        shared_statements(l.take(i), r).len() >= 4,
    ensures
        first_n(shared_statements(l, r), 4) == first_n(shared_statements(l.take(i), r), 4),
    decreases l.len() - i,
{
    if i < l.len() {
        assert(l.take(i + 1).drop_last() =~= l.take(i));
        lemma_shared_prefix_grows(l, r, i + 1);
        assert(first_n(shared_statements(l.take(i + 1), r), 4) =~= first_n(shared_statements(l.take(i), r), 4));
    } else {
        assert(l.take(i) =~= l);
    }
}

fn differing_records(
    out: &mut Vec<Vec<(String, String)>>,
    lm: &Vec<(String, usize)>,
    rm: &Vec<(String, usize)>,
    symbol: &String,
)
    ensures
        record_views(final(out)@) == record_views(old(out)@) + first_n(
            unshared_statements(entry_views(lm@), entry_views(rm@)),
            2,
        ).map_values(|st: (Seq<char>, usize)| differing_record(st, symbol@)),
{
    let ghost lv = entry_views(lm@);
    let ghost rv = entry_views(rm@);
    let ghost start = record_views(out@);
    let mut count: usize = 0;
    let mut i: usize = 0;
    while i < lm.len() && count < 2
        invariant
            lv == entry_views(lm@),
            rv == entry_views(rm@),
            i <= lm@.len(),
            count <= 2,
            record_views(out@) == start + first_n(unshared_statements(lv.take(i as int), rv), 2).map_values(
                |st: (Seq<char>, usize)| differing_record(st, symbol@),
            ),
            count < 2 ==> unshared_statements(lv.take(i as int), rv).len() == count,
            count == 2 ==> unshared_statements(lv.take(i as int), rv).len() >= 2,
        decreases lm@.len() - i,
    {
        let ghost pre = lv.take(i as int);
        let ghost next = lv.take(i + 1);
        assert(next.drop_last() =~= pre);
        assert(next.last() == lv[i as int]);
        assert(lv[i as int] == (lm@[i as int].0@, lm@[i as int].1));
        match lookup_line(rm, lm[i].0.as_str()) {
            Some(_) => {
                assert(unshared_statements(next, rv) == unshared_statements(pre, rv));
            },
            None => {
                let mut rec: Vec<(String, String)> = Vec::new();
                push_field(&mut rec, "line", decimal(lm[i].1));
                push_field(&mut rec, "statement", lm[i].0.clone());
                push_field(&mut rec, "symbol", symbol.clone());
                let ghost st = (lm@[i as int].0@, lm@[i as int].1);
                assert(field_views(rec) =~= differing_record(st, symbol@));
                push_record(out, rec);
                assert(unshared_statements(next, rv) == unshared_statements(pre, rv).push(st));
                assert(first_n(unshared_statements(next, rv), 2).map_values(
                    |st: (Seq<char>, usize)| differing_record(st, symbol@),
                ) =~= first_n(unshared_statements(pre, rv), 2).map_values(
                    |st: (Seq<char>, usize)| differing_record(st, symbol@),
                ).push(differing_record(st, symbol@)));
                count = count + 1;
            },
        }
        i = i + 1;
    }
    proof {
        if i == lm@.len() {
            assert(lv.take(i as int) =~= lv);
        } else {
            lemma_unshared_prefix_grows(lv, rv, i as int);
        }
        assert(record_views(out@) =~= start + first_n(unshared_statements(lv, rv), 2).map_values(
            |st: (Seq<char>, usize)| differing_record(st, symbol@),
        ));
    }
}

proof fn lemma_unshared_prefix_grows(l: Seq<(Seq<char>, usize)>, r: Seq<(Seq<char>, usize)>, i: int)
    requires
        0 <= i <= l.len(),
        unshared_statements(l.take(i), r).len() >= 2,
    ensures
        first_n(unshared_statements(l, r), 2) == first_n(unshared_statements(l.take(i), r), 2),
    decreases l.len() - i,
{
    if i < l.len() {
        assert(l.take(i + 1).drop_last() =~= l.take(i));
        lemma_unshared_prefix_grows(l, r, i + 1);
        assert(first_n(unshared_statements(l.take(i + 1), r), 2) =~= first_n(unshared_statements(l.take(i), r), 2));
    } else {
        assert(l.take(i) =~= l);
    }
}

fn regions_exec(features: &Vec<NearMember>, gp: &Vec<NearPairScore>) -> (r: (Vec<Vec<(String, String)>>, Vec<Vec<(String, String)>>))
    requires
        forall|k: int| 0 <= k < gp@.len() ==> (#[trigger] gp@[k]).left < features@.len() && gp@[k].right < features@.len(),
    ensures
        record_views(r.0@) == similar_regions(features@, gp@),
        record_views(r.1@) == differing_regions(features@, gp@),
{
    proof {
        lemma_strongest_in(gp@);
    }
    match strongest_exec(gp) {
        None => {
            let e1: Vec<Vec<(String, String)>> = Vec::new();
            let e2: Vec<Vec<(String, String)>> = Vec::new();
            assert(record_views(e1@) =~= seq![]);
            assert(record_views(e2@) =~= seq![]);
            (e1, e2)
        },
        Some(p) => {
            proof {
                let k = choose|k: int| 0 <= k < gp@.len() && gp@[k] == p;
                assert(gp@[k].left < features@.len());
            }
            let l = &features[p.left];
            let r = &features[p.right];
            let lm = statement_map_exec(&l.statements);
            let rm = statement_map_exec(&r.statements);
            let similar = similar_records(&lm, &rm, &l.definition.qualified_name, &r.definition.qualified_name);
            let mut differing: Vec<Vec<(String, String)>> = Vec::new();
            assert(record_views(differing@) =~= seq![]);
            differing_records(&mut differing, &lm, &rm, &l.definition.qualified_name);
            differing_records(&mut differing, &rm, &lm, &r.definition.qualified_name);
            assert(record_views(differing@) =~= differing_regions(features@, gp@));
            (similar, differing)
        },
    }
}

/// The definitions of some members.
pub open spec fn member_defs(ms: Seq<NearMember>) -> Seq<DefinitionInfo> {
    ms.map_values(|m: NearMember| m.definition)
}

/// What one pass over the members in report order collects.
struct NearFacts {
    qualified: Vec<String>,
    names: Vec<String>,
    kinds: Vec<String>,
    hashes: Vec<String>,
    frameworks: Vec<String>,
    locations: Vec<FindingLocation>,
    lines: usize,
    tokens: usize,
    statements: usize,
    same_language: bool,
    any_framework: bool,
}

spec fn near_facts_for(f: NearFacts, ms: Seq<NearMember>) -> bool {
    let ds = member_defs(ms);
    &&& text_views(f.qualified@) == ds.map_values(|d: DefinitionInfo| d.qualified_name@)
    &&& text_views(f.names@) == ds.map_values(|d: DefinitionInfo| d.name@)
    &&& text_views(f.kinds@) == ds.map_values(|d: DefinitionInfo| d.kind@)
    &&& text_views(f.hashes@) == ms.map_values(|m: NearMember| m.feature_hash@)
    &&& text_views(f.frameworks@) == present_frameworks(ds)
    &&& f.lines == max_of(ms.map_values(|m: NearMember| m.line_count))
    &&& f.tokens == max_of(ms.map_values(|m: NearMember| m.token_count))
    &&& f.statements == max_of(ms.map_values(|m: NearMember| m.statement_count))
    &&& f.any_framework == (exists|i: int| 0 <= i < ms.len() && (#[trigger] ms[i]).definition.framework is Some)
}

fn collect_near_facts(features: &Vec<NearMember>, ord: &Vec<usize>) -> (r: NearFacts)
    requires
        ord@.len() > 0,
        forall|i: int| 0 <= i < ord@.len() ==> (#[trigger] ord@[i]) < features@.len(),
    ensures
        near_facts_for(r, ordered_members(features@, ord@)),
        r.locations@.len() == ord@.len(),
        forall|l: int| 0 <= l < ord@.len() ==> body_location(#[trigger] r.locations@[l], ordered_members(features@, ord@)[l].definition),
        r.same_language == (shared_definition_language(member_defs(ordered_members(features@, ord@))) is Some),
{
    let ghost ms = ordered_members(features@, ord@);
    let mut f = NearFacts {
        qualified: Vec::new(),
        names: Vec::new(),
        kinds: Vec::new(),
        hashes: Vec::new(),
        frameworks: Vec::new(),
        locations: Vec::new(),
        lines: 0,
        tokens: 0,
        statements: 0,
        same_language: true,
        any_framework: false,
    };
    let first = &features[ord[0]];
    proof {
        let e = ms.take(0);
        assert(e =~= Seq::<NearMember>::empty());
        assert(text_views(f.qualified@) =~= member_defs(e).map_values(|d: DefinitionInfo| d.qualified_name@));
        assert(text_views(f.names@) =~= member_defs(e).map_values(|d: DefinitionInfo| d.name@));
        assert(text_views(f.kinds@) =~= member_defs(e).map_values(|d: DefinitionInfo| d.kind@));
        assert(text_views(f.hashes@) =~= e.map_values(|m: NearMember| m.feature_hash@));
        assert(text_views(f.frameworks@) =~= present_frameworks(member_defs(e)));
        assert(e.map_values(|m: NearMember| m.line_count) =~= Seq::<usize>::empty());
        assert(e.map_values(|m: NearMember| m.token_count) =~= Seq::<usize>::empty());
        assert(e.map_values(|m: NearMember| m.statement_count) =~= Seq::<usize>::empty());
    }
    for i in 0..ord.len()
        invariant
            ms == ordered_members(features@, ord@),
            ms.len() == ord@.len(),
            ord@.len() > 0,
            *first == ms[0],
            forall|i: int| 0 <= i < ord@.len() ==> (#[trigger] ord@[i]) < features@.len(),
            near_facts_for(f, ms.take(i as int)),
            f.locations@.len() == i,
            forall|l: int| 0 <= l < i ==> body_location(#[trigger] f.locations@[l], ms[l].definition),
            f.same_language == (forall|j: int| 0 <= j < i ==> (#[trigger] ms[j]).definition.language@ == ms[0].definition.language@),
    {
        let m = &features[ord[i]];
        let d = &m.definition;
        let ghost pre = ms.take(i as int);
        let ghost next = ms.take(i + 1);
        assert(next.drop_last() =~= pre);
        assert(next.last() == ms[i as int]);
        assert(ms[i as int] == *m);
        assert(member_defs(next) =~= member_defs(pre).push(*d));
        assert(member_defs(next).drop_last() =~= member_defs(pre));
        push_text(&mut f.qualified, d.qualified_name.clone());
        assert(member_defs(next).map_values(|d: DefinitionInfo| d.qualified_name@) =~= member_defs(pre).map_values(
            |d: DefinitionInfo| d.qualified_name@,
        ).push(d.qualified_name@));
        push_text(&mut f.names, d.name.clone());
        assert(member_defs(next).map_values(|d: DefinitionInfo| d.name@) =~= member_defs(pre).map_values(
            |d: DefinitionInfo| d.name@,
        ).push(d.name@));
        push_text(&mut f.kinds, d.kind.clone());
        assert(member_defs(next).map_values(|d: DefinitionInfo| d.kind@) =~= member_defs(pre).map_values(
            |d: DefinitionInfo| d.kind@,
        ).push(d.kind@));
        push_text(&mut f.hashes, m.feature_hash.clone());
        assert(next.map_values(|m: NearMember| m.feature_hash@) =~= pre.map_values(|m: NearMember| m.feature_hash@).push(
            m.feature_hash@,
        ));
        match &d.framework {
            Some(fw) => {
                push_text(&mut f.frameworks, fw.clone());
                f.any_framework = true;
                assert(next[i as int].definition.framework is Some);
            },
            None => {
                assert forall|j: int| 0 <= j < next.len() && (#[trigger] next[j]).definition.framework is Some implies 0 <= j < pre.len()
                    && pre[j].definition.framework is Some by {
                    if j < i {
                        assert(next[j] == pre[j]);
                    }
                }
            },
        }
        f.locations.push(body_location_exec(d));
        assert(next.map_values(|m: NearMember| m.line_count).drop_last() =~= pre.map_values(|m: NearMember| m.line_count));
        assert(next.map_values(|m: NearMember| m.token_count).drop_last() =~= pre.map_values(|m: NearMember| m.token_count));
        assert(next.map_values(|m: NearMember| m.statement_count).drop_last() =~= pre.map_values(
            |m: NearMember| m.statement_count,
        ));
        if m.line_count > f.lines {
            f.lines = m.line_count;
        }
        if m.token_count > f.tokens {
            f.tokens = m.token_count;
        }
        if m.statement_count > f.statements {
            f.statements = m.statement_count;
        }
        if !crate::text::chars_eq(chars_of(d.language.as_str()).as_slice(), chars_of(first.definition.language.as_str()).as_slice()) {
            f.same_language = false;
        }
        proof {
            assert forall|j: int| 0 <= j < pre.len() && (#[trigger] pre[j]).definition.framework is Some implies next[j].definition.framework is Some by {
                assert(next[j] == pre[j]);
            }
        }
    }
    assert(ms.take(ms.len() as int) =~= ms);
    proof {
        let ds = member_defs(ms);
        assert forall|j: int| 0 <= j < ds.len() implies (#[trigger] ds[j]).language@ == ds[0].language@ <== f.same_language by {
            assert(ds[j] == ms[j].definition);
        }
        if !f.same_language {
            let j = choose|j: int| 0 <= j < ms.len() && (#[trigger] ms[j]).definition.language@ != ms[0].definition.language@;
            assert(ds[j] == ms[j].definition);
        }
    }
    f
}

pub(crate) fn push_if(out: &mut Vec<String>, c: bool, text: &str)
    ensures
        text_views(final(out)@) == text_views(old(out)@) + line_if(c, text@),
{
    if c {
        push_text(out, text.to_string());
    }
    assert(text_views(out@) =~= text_views(old(out)@) + line_if(c, text@));
}

fn near_signals_exec(gp: &Vec<NearPairScore>, any_framework: bool, Ghost(ms): Ghost<Seq<NearMember>>) -> (r: Vec<String>)
    requires
        gp@.len() * 256 <= usize::MAX,
        any_framework == (exists|i: int| 0 <= i < ms.len() && (#[trigger] ms[i]).definition.framework is Some),
    ensures
        text_views(r@) == near_signal_list(gp@, ms),
{
    let mut out: Vec<String> = Vec::new();
    assert(text_views(out@) =~= seq![]);
    push_if(&mut out, metric_average_exec(gp, 1) >= 80, "similar_tokens");
    push_if(&mut out, metric_average_exec(gp, 2) >= 80, "similar_ast_paths");
    push_if(&mut out, metric_average_exec(gp, 3) >= 70, "similar_statements");
    push_if(&mut out, metric_average_exec(gp, 5) >= 70, "similar_calls");
    push_if(&mut out, metric_average_exec(gp, 8) >= 70, "similar_control_flow");
    push_if(&mut out, metric_average_exec(gp, 6) >= 80, "compatible_signature");
    push_if(&mut out, any_framework, "framework_context");
    push_if(&mut out, true, "lsh_candidate");
    assert(text_views(out@) =~= near_signal_list(gp@, ms));
    out
}

/// The metadata of a near-duplicate finding, in key order.
pub open spec fn near_metadata_ok(
    md: Seq<(String, MetadataValue)>,
    fs: Seq<NearMember>,
    gp: Seq<NearPairScore>,
    ms: Seq<NearMember>,
    cands: LshCandidates,
    group_hash: Seq<char>,
) -> bool {
    let ds = member_defs(ms);
    &&& md.len() == 25
    &&& md[0].0@ == "ast_similarity"@ && md[0].1 == MetadataValue::Number(metric_average(gp, 2) as u64)
    &&& md[1].0@ == "call_similarity"@ && md[1].1 == MetadataValue::Number(metric_average(gp, 5) as u64)
    &&& md[2].0@ == "candidate_limit_reached"@ && md[2].1 == MetadataValue::Flag(cands.candidate_limit_reached)
    &&& md[3].0@ == "control_flow_similarity"@ && md[3].1 == MetadataValue::Number(metric_average(gp, 8) as u64)
    &&& md[4].0@ == "definition_kinds"@ && lists_key_set(md[4].1, ds.map_values(|d: DefinitionInfo| d.kind@))
    &&& md[5].0@ == "differing_regions"@ && records_are(md[5].1, differing_regions(fs, gp))
    &&& md[6].0@ == "feature_hashes"@ && texts_are(md[6].1, ms.map_values(|m: NearMember| m.feature_hash@))
    &&& md[7].0@ == "line_count"@ && md[7].1 == MetadataValue::Number(max_of(ms.map_values(|m: NearMember| m.line_count)) as u64)
    &&& md[8].0@ == "near_group_hash"@ && (md[8].1 matches MetadataValue::Text(t) && t@ == group_hash)
    &&& md[9].0@ == "near_version"@ && (md[9].1 matches MetadataValue::Text(t) && t@ == NEAR_DUPLICATE_VERSION@)
    &&& md[10].0@ == "pair_scores"@ && records_are(md[10].1, gp.map_values(|p: NearPairScore| pair_record(fs, p)))
    &&& md[11].0@ == "qualified_names"@ && texts_are(md[11].1, ds.map_values(|d: DefinitionInfo| d.qualified_name@))
    &&& md[12].0@ == "signals"@ && texts_are(md[12].1, near_signal_list(gp, ms))
    &&& md[13].0@ == "signature_estimate"@ && md[13].1 == MetadataValue::Number(metric_average(gp, 7) as u64)
    &&& md[14].0@ == "signature_similarity"@ && md[14].1 == MetadataValue::Number(metric_average(gp, 6) as u64)
    &&& md[15].0@ == "similar_regions"@ && records_are(md[15].1, similar_regions(fs, gp))
    &&& md[16].0@ == "similarity_percent"@ && md[16].1 == MetadataValue::Number(metric_average(gp, 0) as u64)
    &&& md[17].0@ == "similarity_score"@ && md[17].1 == MetadataValue::Number(metric_average(gp, 0) as u64)
    &&& md[18].0@ == "skipped_large_buckets"@ && md[18].1 == MetadataValue::Number(cands.skipped_large_buckets as u64)
    &&& md[19].0@ == "statement_count"@ && md[19].1 == MetadataValue::Number(
        max_of(ms.map_values(|m: NearMember| m.statement_count)) as u64,
    )
    &&& md[20].0@ == "statement_count_similarity"@ && md[20].1 == MetadataValue::Number(metric_average(gp, 4) as u64)
    &&& md[21].0@ == "statement_similarity"@ && md[21].1 == MetadataValue::Number(metric_average(gp, 3) as u64)
    &&& md[22].0@ == "symbol_names"@ && lists_key_set(md[22].1, ds.map_values(|d: DefinitionInfo| d.name@))
    &&& md[23].0@ == "token_estimate"@ && md[23].1 == MetadataValue::Number(max_of(ms.map_values(|m: NearMember| m.token_count)) as u64)
    &&& md[24].0@ == "token_similarity"@ && md[24].1 == MetadataValue::Number(metric_average(gp, 1) as u64)
}

fn metric_entry(md: &mut Vec<(String, MetadataValue)>, key: &str, gp: &Vec<NearPairScore>, k: usize)
    requires
        gp@.len() * 256 <= usize::MAX,
    ensures
        final(md)@ == old(md)@.push(final(md)@.last()),
        final(md)@.last().0@ == key@,
        final(md)@.last().1 == MetadataValue::Number(metric_average(gp@, k as int) as u64),
{
    let v = metric_average_exec(gp, k);
    md.push((key.to_string(), MetadataValue::Number(v as u64)));
}

#[verifier::rlimit(40)]
fn near_metadata(
    features: &Vec<NearMember>,
    gp: &Vec<NearPairScore>,
    facts: NearFacts,
    candidates: &LshCandidates,
    group_hash: String,
    Ghost(ms): Ghost<Seq<NearMember>>,
) -> (r: Vec<(String, MetadataValue)>)
    requires
        gp@.len() * 256 <= usize::MAX,
        forall|k: int| 0 <= k < gp@.len() ==> (#[trigger] gp@[k]).left < features@.len() && gp@[k].right < features@.len(),
        near_facts_for(facts, ms),
    ensures
        near_metadata_ok(r@, features@, gp@, ms, *candidates, group_hash@),
{
    let ghost ds = member_defs(ms);
    let (similar, differing) = regions_exec(features, gp);
    let pairs = pair_records(features, gp);
    let signals = near_signals_exec(gp, facts.any_framework, Ghost(ms));
    let kinds = sorted_distinct(&facts.kinds);
    let names = sorted_distinct(&facts.names);
    let mut md: Vec<(String, MetadataValue)> = Vec::new();
    metric_entry(&mut md, "ast_similarity", gp, 2);
    metric_entry(&mut md, "call_similarity", gp, 5);
    md.push((String::from_str("candidate_limit_reached"), MetadataValue::Flag(candidates.candidate_limit_reached)));
    metric_entry(&mut md, "control_flow_similarity", gp, 8);
    md.push((String::from_str("definition_kinds"), MetadataValue::TextList(kinds)));
    md.push((String::from_str("differing_regions"), MetadataValue::Records(differing)));
    md.push((String::from_str("feature_hashes"), MetadataValue::TextList(facts.hashes)));
    md.push((String::from_str("line_count"), MetadataValue::Number(facts.lines as u64)));
    md.push((String::from_str("near_group_hash"), MetadataValue::Text(group_hash)));
    md.push((String::from_str("near_version"), MetadataValue::Text(String::from_str(NEAR_DUPLICATE_VERSION))));
    md.push((String::from_str("pair_scores"), MetadataValue::Records(pairs)));
    md.push((String::from_str("qualified_names"), MetadataValue::TextList(facts.qualified)));
    md.push((String::from_str("signals"), MetadataValue::TextList(signals)));
    metric_entry(&mut md, "signature_estimate", gp, 7);
    metric_entry(&mut md, "signature_similarity", gp, 6);
    md.push((String::from_str("similar_regions"), MetadataValue::Records(similar)));
    metric_entry(&mut md, "similarity_percent", gp, 0);
    metric_entry(&mut md, "similarity_score", gp, 0);
    md.push((String::from_str("skipped_large_buckets"), MetadataValue::Number(candidates.skipped_large_buckets as u64)));
    md.push((String::from_str("statement_count"), MetadataValue::Number(facts.statements as u64)));
    metric_entry(&mut md, "statement_count_similarity", gp, 4);
    metric_entry(&mut md, "statement_similarity", gp, 3);
    md.push((String::from_str("symbol_names"), MetadataValue::TextList(names)));
    md.push((String::from_str("token_estimate"), MetadataValue::Number(facts.tokens as u64)));
    metric_entry(&mut md, "token_similarity", gp, 1);
    md
}

/// `fd` is the finding for the near-duplicate group `group` when `ord` lists the group
/// in report order and `hord` lists it by feature hash: its key, id and texts, one
/// location per member in report order, the shared language and framework, and the
/// metadata in key order.
pub open spec fn near_finding_with(
    fd: Finding,
    fs: Seq<NearMember>,
    ps: Seq<NearPairScore>,
    group: Seq<usize>,
    cands: LshCandidates,
    ord: Seq<usize>,
    hord: Seq<usize>,
) -> bool {
    let ms = ordered_members(fs, ord);
    let ds = member_defs(ms);
    let gp = group_pairs(ps, group);
    let gh = near_group_hash(ordered_members(fs, hord).map_values(|m: NearMember| m.feature_hash@));
    &&& report_order(ord, group, member_definitions(fs))
    &&& hord.to_multiset() == group.to_multiset()
    &&& hord.len() == group.len()
    &&& ordered_by(hord, |a: usize, b: usize| hash_le(fs, a, b))
    &&& fd.rule_id@ == NEAR_FUNCTION_RULE@
    &&& fd.kind == FindingKind::NearDuplicate
    &&& fd.severity == Severity::Medium
    &&& fd.confidence == (if metric_average(gp, 0) >= 90 {
        Confidence::High
    } else {
        Confidence::Medium
    })
    &&& fd.autofix == AutofixSafety::SuggestionOnly
    &&& fd.baseline_key@ == near_key(gh, ds.map_values(|d: DefinitionInfo| d.qualified_name@))
    &&& fd.finding_id@ == NEAR_FUNCTION_RULE@ + ":"@ + fd.baseline_key@.take(12)
    &&& fd.message@ == spec_decimal(group.len()) + " definitions are suspiciously similar."@
    &&& fd.locations@.len() == group.len()
    &&& forall|l: int| 0 <= l < group.len() ==> body_location(#[trigger] fd.locations@[l], ms[l].definition)
    &&& opt_view(fd.language) == shared_definition_language(ds)
    &&& opt_view(fd.framework) == shared_definition_framework(ds)
    &&& fd.explanation@
        == "These definitions share a high near-duplicate score across normalized tokens, canonical AST path shingles, statements, calls, control-flow, and MinHash signatures. This is a suspicious clone signal, not proof that the behavior is the same."@
    &&& fd.remediation@
        == "Compare the domain intent, then extract a shared helper, consolidate validation logic, keep the definitions separate with a short comment, or suppress intentional duplication with a reason."@
    &&& fd.detection_reason@
        == "The detector used locality-sensitive hashing to find candidate pairs, then scored only those candidates with deterministic shingle and signature similarity metrics."@
    &&& fd.autofix_explanation@
        == "Near duplicates are not auto-fixed because extracting shared logic can change APIs, imports, error handling, ownership, and side effects."@
    &&& fd.fixes@.len() == 0
    &&& !fd.is_suppressed
    &&& fd.suppression is None
    &&& near_metadata_ok(fd.metadata@, fs, gp, ms, cands, gh)
}

/// `fd` is the finding for the near-duplicate group `group` (indices into `fs`) with
/// the pair scores `ps`: members are reported by file, start and qualified name, the
/// group hash covers the sorted feature hashes, the scores average the pairs inside
/// the group, and the regions come from the strongest of those pairs.
pub open spec fn describes_near_group(
    fd: Finding,
    fs: Seq<NearMember>,
    ps: Seq<NearPairScore>,
    group: Seq<usize>,
    cands: LshCandidates,
) -> bool {
    exists|ord: Seq<usize>, hord: Seq<usize>| near_finding_with(fd, fs, ps, group, cands, ord, hord)
}

pub(crate) proof fn lemma_indices_in_range(ord: Seq<usize>, group: Seq<usize>, n: nat)
    requires
        ord.to_multiset() == group.to_multiset(),
        forall|j: int| 0 <= j < group.len() ==> (#[trigger] group[j]) < n,
    ensures
        forall|i: int| 0 <= i < ord.len() ==> (#[trigger] ord[i]) < n,
{
    broadcast use vstd::seq_lib::group_to_multiset_ensures;
    assert forall|i: int| 0 <= i < ord.len() implies (#[trigger] ord[i]) < n by {
        assert(ord.contains(ord[i]));
        assert(ord.to_multiset().count(ord[i]) > 0);
        assert(group.to_multiset().count(ord[i]) > 0);
        assert(group.contains(ord[i]));
    }
}

fn hashes_in_order(features: &Vec<NearMember>, hord: &Vec<usize>) -> (r: Vec<Vec<char>>)
    requires
        forall|i: int| 0 <= i < hord@.len() ==> (#[trigger] hord@[i]) < features@.len(),
    ensures
        views(r@) == ordered_members(features@, hord@).map_values(|m: NearMember| m.feature_hash@),
{
    let mut out: Vec<Vec<char>> = Vec::new();
    for i in 0..hord.len()
        invariant
            forall|i: int| 0 <= i < hord@.len() ==> (#[trigger] hord@[i]) < features@.len(),
            views(out@) == ordered_members(features@, hord@.take(i as int)).map_values(|m: NearMember| m.feature_hash@),
    {
        let ghost before = out@;
        let c = chars_of(features[hord[i]].feature_hash.as_str());
        out.push(c);
        assert(views(out@) =~= views(before).push(c@));
        assert(ordered_members(features@, hord@.take(i + 1)) =~= ordered_members(features@, hord@.take(i as int)).push(
            features@[hord@[i as int] as int],
        ));
        assert(views(out@) =~= ordered_members(features@, hord@.take(i + 1)).map_values(|m: NearMember| m.feature_hash@));
    }
    assert(hord@.take(hord@.len() as int) =~= hord@);
    out
}

/// Builds the finding for a group of near-duplicate candidates, given as positions in
/// `features`, from the pair scores that LSH search produced.
#[verifier::rlimit(60)]
pub fn build_near_finding(
    features: &Vec<NearMember>,
    pair_scores: &Vec<NearPairScore>,
    group: &Vec<usize>,
    candidates: &LshCandidates,
) -> (r: Finding)
    requires
        group@.len() > 0,
        forall|j: int| 0 <= j < group@.len() ==> (#[trigger] group@[j]) < features@.len(),
        pair_scores@.len() * 256 <= usize::MAX,
    ensures
        describes_near_group(r, features@, pair_scores@, group@, *candidates),
{
    let ord = order_members(features, group);
    let hord = order_by_hash(features, group);
    proof {
        lemma_indices_in_range(ord@, group@, features@.len());
        lemma_indices_in_range(hord@, group@, features@.len());
        lemma_group_pairs(pair_scores@, group@);
    }
    let ghost ms = ordered_members(features@, ord@);
    let ghost ds = member_defs(ms);
    let gp = select_group_pairs(pair_scores, group);
    proof {
        assert forall|k: int| 0 <= k < gp@.len() implies (#[trigger] gp@[k]).left < features@.len() && gp@[k].right
            < features@.len() by {
            let a = choose|j: int| 0 <= j < group@.len() && group@[j] == gp@[k].left;
            let b = choose|j: int| 0 <= j < group@.len() && group@[j] == gp@[k].right;
        }
    }
    let mut facts = collect_near_facts(features, &ord);
    let bar: Vec<char> = vec!['|'];
    proof {
        reveal_strlit("|");
        assert(bar@ =~= "|"@);
    }
    let sorted_hashes = hashes_in_order(features, &hord);
    let joined = string_from_chars(crate::text::join_chars(&sorted_hashes, bar.as_slice()).as_slice());
    let mut raw_hash = String::from_str(NEAR_DUPLICATE_VERSION);
    raw_hash.append("|");
    raw_hash.append(joined.as_str());
    let group_hash = sha256_hex(raw_hash.as_str());
    let ghost gh = near_group_hash(ordered_members(features@, hord@).map_values(|m: NearMember| m.feature_hash@));
    proof {
        assert(raw_hash@ =~= NEAR_DUPLICATE_VERSION@ + "|"@ + spec_join(
            ordered_members(features@, hord@).map_values(|m: NearMember| m.feature_hash@),
            "|"@,
        ));
        assert(group_hash@ == gh);
    }
    let mut qualified_chars: Vec<Vec<char>> = Vec::new();
    for i in 0..facts.qualified.len()
        invariant
            views(qualified_chars@) == text_views(facts.qualified@.take(i as int)),
    {
        let ghost before = qualified_chars@;
        let c = chars_of(facts.qualified[i].as_str());
        qualified_chars.push(c);
        assert(views(qualified_chars@) =~= views(before).push(c@));
        assert(views(qualified_chars@) =~= text_views(facts.qualified@.take(i + 1)));
    }
    assert(facts.qualified@.take(facts.qualified@.len() as int) =~= facts.qualified@);
    let qualified_joined = string_from_chars(crate::text::join_chars(&qualified_chars, bar.as_slice()).as_slice());
    let mut raw = String::from_str(NEAR_FUNCTION_RULE);
    raw.append("|");
    raw.append(group_hash.as_str());
    raw.append("|");
    raw.append(qualified_joined.as_str());
    proof {
        assert(raw@ =~= NEAR_FUNCTION_RULE@ + "|"@ + gh + "|"@ + spec_join(
            ds.map_values(|d: DefinitionInfo| d.qualified_name@),
            "|"@,
        ));
    }
    let baseline_key = sha256_hex(raw.as_str());
    let key_chars = chars_of(baseline_key.as_str());
    let prefix = string_from_chars(crate::text::slice_chars(key_chars.as_slice(), 0, 12).as_slice());
    let mut finding_id = String::from_str(NEAR_FUNCTION_RULE);
    finding_id.append(":");
    finding_id.append(prefix.as_str());
    proof {
        assert(finding_id@ =~= NEAR_FUNCTION_RULE@ + ":"@ + baseline_key@.take(12));
    }
    let sorted_frameworks = sorted_distinct(&facts.frameworks);
    proof {
        assert(sorted_frameworks@.map_values(|k: String| (k@, ())).len() == sorted_frameworks@.len());
    }
    let framework = if sorted_frameworks.len() == 1 {
        proof {
            assert(sorted_frameworks@.map_values(|k: String| (k@, ()))[0] == (sorted_frameworks@[0]@, ()));
        }
        Some(sorted_frameworks[0].clone())
    } else {
        None
    };
    let language = if facts.same_language {
        Some(features[ord[0]].definition.language.clone())
    } else {
        None
    };
    let score = metric_average_exec(&gp, 0);
    let confidence = if score >= 90 {
        Confidence::High
    } else {
        Confidence::Medium
    };
    let mut message = decimal(group.len());
    message.append(" definitions are suspiciously similar.");
    let mut locations: Vec<FindingLocation> = Vec::new();
    std::mem::swap(&mut locations, &mut facts.locations);
    let metadata = near_metadata(features, &gp, facts, candidates, group_hash, Ghost(ms));
    let r = Finding {
        finding_id,
        baseline_key,
        rule_id: String::from_str(NEAR_FUNCTION_RULE),
        kind: FindingKind::NearDuplicate,
        severity: Severity::Medium,
        confidence,
        message,
        locations,
        language,
        framework,
        explanation: String::from_str(
            "These definitions share a high near-duplicate score across normalized tokens, canonical AST path shingles, statements, calls, control-flow, and MinHash signatures. This is a suspicious clone signal, not proof that the behavior is the same.",
        ),
        remediation: String::from_str(
            "Compare the domain intent, then extract a shared helper, consolidate validation logic, keep the definitions separate with a short comment, or suppress intentional duplication with a reason.",
        ),
        detection_reason: String::from_str(
            "The detector used locality-sensitive hashing to find candidate pairs, then scored only those candidates with deterministic shingle and signature similarity metrics.",
        ),
        autofix: AutofixSafety::SuggestionOnly,
        autofix_explanation: String::from_str(
            "Near duplicates are not auto-fixed because extracting shared logic can change APIs, imports, error handling, ownership, and side effects.",
        ),
        fixes: Vec::new(),
        metadata,
        is_suppressed: false,
        suppression: None,
    };
    assert(near_finding_with(r, features@, pair_scores@, group@, *candidates, ord@, hord@));
    r
}

proof fn lemma_group_pairs_same_members(ps: Seq<NearPairScore>, g1: Seq<usize>, g2: Seq<usize>)
    requires
        forall|x: usize| g1.contains(x) <==> g2.contains(x),
    ensures
        group_pairs(ps, g1) == group_pairs(ps, g2),
    decreases ps.len(),
{
    if ps.len() > 0 {
        lemma_group_pairs_same_members(ps.drop_last(), g1, g2);
    }
}

/// The finding for a near-duplicate group does not depend on the order its members
/// are listed in: a group with the same members is described by the same finding.
pub proof fn lemma_near_finding_ignores_member_order(
    fd: Finding,
    fs: Seq<NearMember>,
    ps: Seq<NearPairScore>,
    g1: Seq<usize>,
    g2: Seq<usize>,
    cands: LshCandidates,
)
    requires
        describes_near_group(fd, fs, ps, g1, cands),
        g1.to_multiset() == g2.to_multiset(),
    ensures
        describes_near_group(fd, fs, ps, g2, cands),
{
    let (ord, hord) = choose|ord: Seq<usize>, hord: Seq<usize>| near_finding_with(fd, fs, ps, g1, cands, ord, hord);
    g1.to_multiset_ensures();
    g2.to_multiset_ensures();
    assert forall|x: usize| g1.contains(x) <==> g2.contains(x) by {
        g1.to_multiset_ensures();
        g2.to_multiset_ensures();
        assert(g1.contains(x) <==> g1.to_multiset().count(x) > 0);
        assert(g2.contains(x) <==> g2.to_multiset().count(x) > 0);
        assert(g1.to_multiset().count(x) == g2.to_multiset().count(x));
    }
    lemma_group_pairs_same_members(ps, g1, g2);
    assert(g1.len() == g2.len());
    assert(near_finding_with(fd, fs, ps, g2, cands, ord, hord));
}

} // verus!
