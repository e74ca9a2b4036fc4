//! Findings about groups of vector-discovered semantic candidates: the members in
//! report order, the averaged pair scores and signals, and the stable keys.
use vstd::prelude::*;
use vstd::utf8::encode_utf8;

use crate::baseline_keys::sorted_distinct;
use crate::config::text_views;
use crate::duplication::{VectorCandidateOptions, SEMANTIC_VECTOR_CANDIDATE_RULE};
use crate::findings::{
    AutofixSafety, Confidence, Finding, FindingKind, FindingLocation, MetadataValue, Severity,
};
use crate::hashing::{sha256_hex, spec_hex, spec_sha256};
use crate::metadata_lines::line_if;
use crate::near_findings::{
    average, average_u8, clone_indices, contains_index, field_views, lemma_indices_in_range,
    lemma_member_le_total_preorder, member_le, push_field, push_if, push_record, record_views, records_are,
    report_order, texts_are,
};
use crate::paths::path_le_exec;
use crate::sorting::{chars_le, lemma_chars_le_reflexive, lemma_chars_le_total, lemma_chars_le_transitive, ordered_by, sort_by_order, str_le, total_preorder};
use crate::symbol_findings::{
    body_location, body_location_exec, lists_key_set, max_of, opt_view, present_frameworks, push_text,
    shared_definition_framework, shared_definition_language, DefinitionInfo,
};
use crate::text::{chars_of, decimal, spec_decimal, spec_join, string_from_chars, views};

verus! {

broadcast use {
    vstd::string::group_string_axioms,
    vstd::std_specs::vec::group_vec_axioms,
};

/// The version of the vector candidate detector, part of every group hash.
pub const VECTOR_CANDIDATE_VERSION: &'static str = "vector_candidate_v1";

/// The version of the function summaries that were embedded.
pub const VECTOR_SUMMARY_VERSION: &'static str = "vector_summary_v1";

/// A vector candidate: its definition, the hash of its embedded summary and its sizes.
#[derive(Debug, Clone)]
pub struct VectorMember {
    pub definition: DefinitionInfo,
    pub summary_hash: String,
    pub line_count: usize,
    pub token_estimate: usize,
}

/// The similarity signals of a pair of vector candidates.
#[derive(Debug, Clone, Copy, PartialEq, Eq, Structural)]
pub struct VectorPairScore {
    pub left: usize,
    pub right: usize,
    pub vector_similarity: u8,
    pub rank_score: u8,
    pub ast_similarity: u8,
    pub signature_similarity: u8,
    pub call_similarity: u8,
    pub name_similarity: u8,
    pub framework_similarity: u8,
}

/// The definitions of the candidates.
pub open spec fn vector_definitions(fs: Seq<VectorMember>) -> Seq<DefinitionInfo> {
    fs.map_values(|m: VectorMember| m.definition)
}

/// The candidates in the order `ord` lists them.
pub open spec fn ordered_vector_members(fs: Seq<VectorMember>, ord: Seq<usize>) -> Seq<VectorMember> {
    ord.map_values(|i: usize| fs[i as int])
}

/// Puts the members of a group in report order: by file, then start, then qualified
/// name.
pub fn order_vector_members(features: &Vec<VectorMember>, group: &Vec<usize>) -> (r: Vec<usize>)
    ensures
        report_order(r@, group@, vector_definitions(features@)),
{
    let ghost dv = vector_definitions(features@);
    proof {
        lemma_member_le_total_preorder(dv);
    }
    let le = |a: &usize, b: &usize| -> (r: bool)
        ensures
            r == member_le(vector_definitions(features@), *a, *b),
        {
            let n = features.len();
            if *a < n && *b < n {
                let da = &features[*a].definition;
                let db = &features[*b].definition;
                proof {
                    assert(vector_definitions(features@)[*a as int] == *da);
                    assert(vector_definitions(features@)[*b as int] == *db);
                }
                if !path_le_exec(da.file.as_str(), db.file.as_str()) {
                    false
                } else if !path_le_exec(db.file.as_str(), da.file.as_str()) {
                    true
                } else {
                    da.span_start < db.span_start || (da.span_start == db.span_start && str_le(
                        da.qualified_name.as_str(),
                        db.qualified_name.as_str(),
                    ))
                }
            } else if *a < n {
                true
            } else if *b < n {
                false
            } else {
                *a <= *b
            }
        };
    let copy = clone_indices(group);
    sort_by_order(copy, le, Ghost(|a: usize, b: usize| member_le(dv, a, b)))
}

/// Whether member `a`'s summary hash sorts before (or with) member `b`'s. Positions
/// past the end come last, by value.
pub open spec fn summary_le(fs: Seq<VectorMember>, a: usize, b: usize) -> bool {
    let n = fs.len();
    if a < n && b < n {
        chars_le(fs[a as int].summary_hash@, fs[b as int].summary_hash@)
    } else if a < n {
        true
    } else if b < n {
        false
    } else {
        a <= b
    }
}

proof fn lemma_summary_le_total_preorder(fs: Seq<VectorMember>)
    ensures
        total_preorder(|a: usize, b: usize| summary_le(fs, a, b)),
{
    assert forall|a: usize| #[trigger] summary_le(fs, a, a) by {
        if a < fs.len() {
            lemma_chars_le_reflexive(fs[a as int].summary_hash@);
        }
    }
    assert forall|a: usize, b: usize| #[trigger] summary_le(fs, a, b) || summary_le(fs, b, a) by {
        if a < fs.len() && b < fs.len() {
            lemma_chars_le_total(fs[a as int].summary_hash@, fs[b as int].summary_hash@);
        }
    }
    assert forall|a: usize, b: usize, c: usize| #[trigger] summary_le(fs, a, b) && #[trigger] summary_le(fs, b, c) implies summary_le(fs, a, c) by {
        if a < fs.len() && b < fs.len() && c < fs.len() {
            lemma_chars_le_transitive(fs[a as int].summary_hash@, fs[b as int].summary_hash@, fs[c as int].summary_hash@);
        }
    }
}

fn order_by_summary(features: &Vec<VectorMember>, group: &Vec<usize>) -> (r: Vec<usize>)
    ensures
        r@.to_multiset() == group@.to_multiset(),
        r@.len() == group@.len(),
        ordered_by(r@, |a: usize, b: usize| summary_le(features@, a, b)),
{
    let ghost fv = features@;
    proof {
        lemma_summary_le_total_preorder(fv);
    }
    let le = |a: &usize, b: &usize| -> (r: bool)
        ensures
            r == summary_le(features@, *a, *b),
        {
            let n = features.len();
            if *a < n && *b < n {
                str_le(features[*a].summary_hash.as_str(), features[*b].summary_hash.as_str())
            } else if *a < n {
                true
            } else if *b < n {
                false
            } else {
                *a <= *b
            }
        };
    let copy = clone_indices(group);
    sort_by_order(copy, le, Ghost(|a: usize, b: usize| summary_le(fv, a, b)))
}

/// The pair scores whose two sides are both in the group, in order.
pub open spec fn vector_group_pairs(ps: Seq<VectorPairScore>, group: Seq<usize>) -> Seq<VectorPairScore>
    decreases ps.len(),
{
    if ps.len() == 0 {
        seq![]
    } else if group.contains(ps.last().left) && group.contains(ps.last().right) {
        vector_group_pairs(ps.drop_last(), group).push(ps.last())
    } else {
        vector_group_pairs(ps.drop_last(), group)
    }
}

proof fn lemma_vector_group_pairs(ps: Seq<VectorPairScore>, group: Seq<usize>)
    ensures
        vector_group_pairs(ps, group).len() <= ps.len(),
        forall|k: int|
            0 <= k < vector_group_pairs(ps, group).len() ==> group.contains(#[trigger] vector_group_pairs(ps, group)[k].left)
                && group.contains(vector_group_pairs(ps, group)[k].right),
    decreases ps.len(),
{
    if ps.len() > 0 {
        lemma_vector_group_pairs(ps.drop_last(), group);
    }
}

fn select_vector_pairs(ps: &Vec<VectorPairScore>, group: &Vec<usize>) -> (r: Vec<VectorPairScore>)
    ensures
        r@ == vector_group_pairs(ps@, group@),
{
    let mut out: Vec<VectorPairScore> = Vec::new();
    for i in 0..ps.len()
        invariant
            out@ == vector_group_pairs(ps@.take(i as int), group@),
    {
        assert(ps@.take(i + 1).drop_last() =~= ps@.take(i as int));
        assert(ps@.take(i + 1).last() == ps@[i as int]);
        let p = ps[i];
        if contains_index(group, p.left) && contains_index(group, p.right) {
            out.push(p);
        }
    }
    assert(ps@.take(ps@.len() as int) =~= ps@);
    out
}

/// One of a pair's metrics: 0 vector similarity, then rank score, syntax paths,
/// signature, calls, names and framework.
pub open spec fn vector_metric(p: VectorPairScore, k: int) -> u8 {
    if k == 0 {
        p.vector_similarity
    } else if k == 1 {
        p.rank_score
    } else if k == 2 {
        p.ast_similarity
    } else if k == 3 {
        p.signature_similarity
    } else if k == 4 {
        p.call_similarity
    } else if k == 5 {
        p.name_similarity
    } else {
        p.framework_similarity
    }
}

/// The average of one metric over some pair scores.
pub open spec fn vector_metric_average(ps: Seq<VectorPairScore>, k: int) -> u8 {
    average_u8(ps.map_values(|p: VectorPairScore| vector_metric(p, k)))
}

fn vector_metric_exec(p: &VectorPairScore, k: usize) -> (r: u8)
    ensures
        r == vector_metric(*p, k as int),
{
    if k == 0 {
        p.vector_similarity
    } else if k == 1 {
        p.rank_score
    } else if k == 2 {
        p.ast_similarity
    } else if k == 3 {
        p.signature_similarity
    } else if k == 4 {
        p.call_similarity
    } else if k == 5 {
        p.name_similarity
    } else {
        p.framework_similarity
    }
}

fn vector_metric_average_exec(ps: &Vec<VectorPairScore>, k: usize) -> (r: u8)
    requires
        ps@.len() * 256 <= usize::MAX,
    ensures
        r == vector_metric_average(ps@, k as int),
{
    let mut values: Vec<u8> = Vec::new();
    for i in 0..ps.len()
        invariant
            values@ == ps@.take(i as int).map_values(|p: VectorPairScore| vector_metric(p, k as int)),
    {
        values.push(vector_metric_exec(&ps[i], k));
        assert(values@ =~= ps@.take(i + 1).map_values(|p: VectorPairScore| vector_metric(p, k as int)));
    }
    assert(ps@.take(ps@.len() as int) =~= ps@);
    average(&values)
}

/// The deterministic signals that back a vector group: averaged metrics over their
/// thresholds.
pub open spec fn vector_signal_list(gp: Seq<VectorPairScore>) -> Seq<Seq<char>> {
    line_if(vector_metric_average(gp, 2) >= 50, "ast_similarity"@) + line_if(
        vector_metric_average(gp, 3) >= 60,
        "signature_similarity"@,
    ) + line_if(vector_metric_average(gp, 4) >= 50, "call_similarity"@) + line_if(
        vector_metric_average(gp, 5) >= 60,
        "name_similarity"@,
    ) + line_if(vector_metric_average(gp, 6) >= 100, "framework_context"@)
}

fn vector_signals_exec(gp: &Vec<VectorPairScore>) -> (r: Vec<String>)
    requires
        gp@.len() * 256 <= usize::MAX,
    ensures
        text_views(r@) == vector_signal_list(gp@),
{
    let mut out: Vec<String> = Vec::new();
    assert(text_views(out@) =~= seq![]);
    push_if(&mut out, vector_metric_average_exec(gp, 2) >= 50, "ast_similarity");
    push_if(&mut out, vector_metric_average_exec(gp, 3) >= 60, "signature_similarity");
    push_if(&mut out, vector_metric_average_exec(gp, 4) >= 50, "call_similarity");
    push_if(&mut out, vector_metric_average_exec(gp, 5) >= 60, "name_similarity");
    push_if(&mut out, vector_metric_average_exec(gp, 6) >= 100, "framework_context");
    assert(text_views(out@) =~= vector_signal_list(gp@));
    out
}

/// A pair score as a record: its metrics in decimal and the qualified names of its sides.
pub open spec fn vector_pair_record(fs: Seq<VectorMember>, p: VectorPairScore) -> Seq<(Seq<char>, Seq<char>)> {
    seq![
        ("astSimilarity"@, spec_decimal(p.ast_similarity as nat)),
        ("callSimilarity"@, spec_decimal(p.call_similarity as nat)),
        ("frameworkSimilarity"@, spec_decimal(p.framework_similarity as nat)),
        ("left"@, fs[p.left as int].definition.qualified_name@),
        ("nameSimilarity"@, spec_decimal(p.name_similarity as nat)),
        ("rankScore"@, spec_decimal(p.rank_score as nat)),
        ("right"@, fs[p.right as int].definition.qualified_name@),
        ("signatureSimilarity"@, spec_decimal(p.signature_similarity as nat)),
        ("vectorSimilarity"@, spec_decimal(p.vector_similarity as nat)),
    ]
}

fn vector_pair_record_exec(features: &Vec<VectorMember>, p: &VectorPairScore) -> (r: Vec<(String, String)>)
    requires
        p.left < features@.len(),
        p.right < features@.len(),
    ensures
        field_views(r) == vector_pair_record(features@, *p),
{
    let mut r: Vec<(String, String)> = Vec::new();
    push_field(&mut r, "astSimilarity", decimal(p.ast_similarity as usize));
    push_field(&mut r, "callSimilarity", decimal(p.call_similarity as usize));
    push_field(&mut r, "frameworkSimilarity", decimal(p.framework_similarity as usize));
    push_field(&mut r, "left", features[p.left].definition.qualified_name.clone());
    push_field(&mut r, "nameSimilarity", decimal(p.name_similarity as usize));
    push_field(&mut r, "rankScore", decimal(p.rank_score as usize));
    push_field(&mut r, "right", features[p.right].definition.qualified_name.clone());
    push_field(&mut r, "signatureSimilarity", decimal(p.signature_similarity as usize));
    push_field(&mut r, "vectorSimilarity", decimal(p.vector_similarity as usize));
    assert(field_views(r) =~= vector_pair_record(features@, *p));
    r
}

fn vector_pair_records(features: &Vec<VectorMember>, gp: &Vec<VectorPairScore>) -> (r: Vec<Vec<(String, String)>>)
    requires
        forall|k: int| 0 <= k < gp@.len() ==> (#[trigger] gp@[k]).left < features@.len() && gp@[k].right < features@.len(),
    ensures
        record_views(r@) == gp@.map_values(|p: VectorPairScore| vector_pair_record(features@, p)),
{
    let mut out: Vec<Vec<(String, String)>> = Vec::new();
    for i in 0..gp.len()
        invariant
            forall|k: int| 0 <= k < gp@.len() ==> (#[trigger] gp@[k]).left < features@.len() && gp@[k].right < features@.len(),
            record_views(out@) == gp@.take(i as int).map_values(|p: VectorPairScore| vector_pair_record(features@, p)),
    {
        let rec = vector_pair_record_exec(features, &gp[i]);
        push_record(&mut out, rec);
        assert(gp@.take(i + 1).map_values(|p: VectorPairScore| vector_pair_record(features@, p)) =~= gp@.take(
            i as int,
        ).map_values(|p: VectorPairScore| vector_pair_record(features@, p)).push(vector_pair_record(features@, gp@[i as int])));
    }
    assert(gp@.take(gp@.len() as int) =~= gp@);
    out
}

/// The definitions of some members.
pub open spec fn vector_member_defs(ms: Seq<VectorMember>) -> Seq<DefinitionInfo> {
    ms.map_values(|m: VectorMember| m.definition)
}

struct VectorFacts {
    qualified: Vec<String>,
    names: Vec<String>,
    kinds: Vec<String>,
    hashes: Vec<String>,
    frameworks: Vec<String>,
    locations: Vec<FindingLocation>,
    lines: usize,
    tokens: usize,
    same_language: bool,
}

spec fn vector_facts_for(f: VectorFacts, ms: Seq<VectorMember>) -> bool {
    let ds = vector_member_defs(ms);
    &&& text_views(f.qualified@) == ds.map_values(|d: DefinitionInfo| d.qualified_name@)
    &&& text_views(f.names@) == ds.map_values(|d: DefinitionInfo| d.name@)
    &&& text_views(f.kinds@) == ds.map_values(|d: DefinitionInfo| d.kind@)
    &&& text_views(f.hashes@) == ms.map_values(|m: VectorMember| m.summary_hash@)
    &&& text_views(f.frameworks@) == present_frameworks(ds)
    &&& f.lines == max_of(ms.map_values(|m: VectorMember| m.line_count))
    &&& f.tokens == max_of(ms.map_values(|m: VectorMember| m.token_estimate))
}

fn collect_vector_facts(features: &Vec<VectorMember>, ord: &Vec<usize>) -> (r: VectorFacts)
    requires
        ord@.len() > 0,
        forall|i: int| 0 <= i < ord@.len() ==> (#[trigger] ord@[i]) < features@.len(),
    ensures
        vector_facts_for(r, ordered_vector_members(features@, ord@)),
        r.locations@.len() == ord@.len(),
        forall|l: int| 0 <= l < ord@.len() ==> body_location(#[trigger] r.locations@[l], ordered_vector_members(features@, ord@)[l].definition),
        r.same_language == (shared_definition_language(vector_member_defs(ordered_vector_members(features@, ord@))) is Some),
{
    let ghost ms = ordered_vector_members(features@, ord@);
    let mut f = VectorFacts {
        qualified: Vec::new(),
        names: Vec::new(),
        kinds: Vec::new(),
        hashes: Vec::new(),
        frameworks: Vec::new(),
        locations: Vec::new(),
        lines: 0,
        tokens: 0,
        same_language: true,
    };
    let first = &features[ord[0]];
    proof {
        let e = ms.take(0);
        assert(e =~= Seq::<VectorMember>::empty());
        assert(text_views(f.qualified@) =~= vector_member_defs(e).map_values(|d: DefinitionInfo| d.qualified_name@));
        assert(text_views(f.names@) =~= vector_member_defs(e).map_values(|d: DefinitionInfo| d.name@));
        assert(text_views(f.kinds@) =~= vector_member_defs(e).map_values(|d: DefinitionInfo| d.kind@));
        assert(text_views(f.hashes@) =~= e.map_values(|m: VectorMember| m.summary_hash@));
        assert(text_views(f.frameworks@) =~= present_frameworks(vector_member_defs(e)));
        assert(e.map_values(|m: VectorMember| m.line_count) =~= Seq::<usize>::empty());
        assert(e.map_values(|m: VectorMember| m.token_estimate) =~= Seq::<usize>::empty());
    }
    for i in 0..ord.len()
        invariant
            ms == ordered_vector_members(features@, ord@),
            ms.len() == ord@.len(),
            ord@.len() > 0,
            *first == ms[0],
            forall|i: int| 0 <= i < ord@.len() ==> (#[trigger] ord@[i]) < features@.len(),
            vector_facts_for(f, ms.take(i as int)),
            f.locations@.len() == i,
            forall|l: int| 0 <= l < i ==> body_location(#[trigger] f.locations@[l], ms[l].definition),
            f.same_language == (forall|j: int| 0 <= j < i ==> (#[trigger] ms[j]).definition.language@ == ms[0].definition.language@),
    {
        let m = &features[ord[i]];
        let d = &m.definition;
        let ghost pre = ms.take(i as int);
        let ghost next = ms.take(i + 1);
        assert(next.drop_last() =~= pre);
        assert(next.last() == ms[i as int]);
        assert(ms[i as int] == *m);
        assert(vector_member_defs(next) =~= vector_member_defs(pre).push(*d));
        assert(vector_member_defs(next).drop_last() =~= vector_member_defs(pre));
        push_text(&mut f.qualified, d.qualified_name.clone());
        assert(vector_member_defs(next).map_values(|d: DefinitionInfo| d.qualified_name@) =~= vector_member_defs(pre).map_values(
            |d: DefinitionInfo| d.qualified_name@,
        ).push(d.qualified_name@));
        push_text(&mut f.names, d.name.clone());
        assert(vector_member_defs(next).map_values(|d: DefinitionInfo| d.name@) =~= vector_member_defs(pre).map_values(
            |d: DefinitionInfo| d.name@,
        ).push(d.name@));
        push_text(&mut f.kinds, d.kind.clone());
        assert(vector_member_defs(next).map_values(|d: DefinitionInfo| d.kind@) =~= vector_member_defs(pre).map_values(
            |d: DefinitionInfo| d.kind@,
        ).push(d.kind@));
        push_text(&mut f.hashes, m.summary_hash.clone());
        assert(next.map_values(|m: VectorMember| m.summary_hash@) =~= pre.map_values(|m: VectorMember| m.summary_hash@).push(
            m.summary_hash@,
        ));
        match &d.framework {
            Some(fw) => {
                push_text(&mut f.frameworks, fw.clone());
            },
            None => {},
        }
        f.locations.push(body_location_exec(d));
        assert(next.map_values(|m: VectorMember| m.line_count).drop_last() =~= pre.map_values(|m: VectorMember| m.line_count));
        assert(next.map_values(|m: VectorMember| m.token_estimate).drop_last() =~= pre.map_values(|m: VectorMember| m.token_estimate));
        if m.line_count > f.lines {
            f.lines = m.line_count;
        }
        if m.token_estimate > f.tokens {
            f.tokens = m.token_estimate;
        }
        if !crate::text::chars_eq(chars_of(d.language.as_str()).as_slice(), chars_of(first.definition.language.as_str()).as_slice()) {
            f.same_language = false;
        }
    }
    assert(ms.take(ms.len() as int) =~= ms);
    proof {
        let ds = vector_member_defs(ms);
        assert forall|j: int| 0 <= j < ds.len() implies (#[trigger] ds[j]).language@ == ds[0].language@ <== f.same_language by {
            assert(ds[j] == ms[j].definition);
        }
        if !f.same_language {
            let j = choose|j: int| 0 <= j < ms.len() && (#[trigger] ms[j]).definition.language@ != ms[0].definition.language@;
            assert(ds[j] == ms[j].definition);
        }
    }
    f
}

/// The metadata of a vector candidate finding, in key order.
pub open spec fn vector_metadata_ok(
    md: Seq<(String, MetadataValue)>,
    fs: Seq<VectorMember>,
    gp: Seq<VectorPairScore>,
    ms: Seq<VectorMember>,
    options: VectorCandidateOptions,
    group_hash: Seq<char>,
) -> bool {
    let ds = vector_member_defs(ms);
    &&& md.len() == 17
    &&& md[0].0@ == "candidate_limit"@ && md[0].1 == MetadataValue::Number(options.candidate_limit as u64)
    &&& md[1].0@ == "candidate_limit_reached"@ && md[1].1 == MetadataValue::Flag(false)
    &&& md[2].0@ == "definition_kinds"@ && lists_key_set(md[2].1, ds.map_values(|d: DefinitionInfo| d.kind@))
    &&& md[3].0@ == "deterministic_signals"@ && texts_are(md[3].1, vector_signal_list(gp))
    &&& md[4].0@ == "embedding_provider"@ && (md[4].1 matches MetadataValue::Text(t) && t@ == options.provider_id@)
    &&& md[5].0@ == "line_count"@ && md[5].1 == MetadataValue::Number(max_of(ms.map_values(|m: VectorMember| m.line_count)) as u64)
    &&& md[6].0@ == "pair_scores"@ && records_are(md[6].1, gp.map_values(|p: VectorPairScore| vector_pair_record(fs, p)))
    &&& md[7].0@ == "privacy_mode"@ && (md[7].1 matches MetadataValue::Text(t) && t@ == options.privacy_mode@)
    &&& md[8].0@ == "qualified_names"@ && texts_are(md[8].1, ds.map_values(|d: DefinitionInfo| d.qualified_name@))
    &&& md[9].0@ == "rank_score"@ && md[9].1 == MetadataValue::Number(vector_metric_average(gp, 1) as u64)
    &&& md[10].0@ == "summary_hashes"@ && texts_are(md[10].1, ms.map_values(|m: VectorMember| m.summary_hash@))
    &&& md[11].0@ == "summary_version"@ && (md[11].1 matches MetadataValue::Text(t) && t@ == VECTOR_SUMMARY_VERSION@)
    &&& md[12].0@ == "symbol_names"@ && lists_key_set(md[12].1, ds.map_values(|d: DefinitionInfo| d.name@))
    &&& md[13].0@ == "token_estimate"@ && md[13].1 == MetadataValue::Number(
        max_of(ms.map_values(|m: VectorMember| m.token_estimate)) as u64,
    )
    &&& md[14].0@ == "vector_group_hash"@ && (md[14].1 matches MetadataValue::Text(t) && t@ == group_hash)
    &&& md[15].0@ == "vector_score"@ && md[15].1 == MetadataValue::Number(vector_metric_average(gp, 0) as u64)
    &&& md[16].0@ == "vector_version"@ && (md[16].1 matches MetadataValue::Text(t) && t@ == VECTOR_CANDIDATE_VERSION@)
}

#[verifier::rlimit(40)]
fn vector_metadata(
    features: &Vec<VectorMember>,
    gp: &Vec<VectorPairScore>,
    facts: VectorFacts,
    options: &VectorCandidateOptions,
    group_hash: String,
    Ghost(ms): Ghost<Seq<VectorMember>>,
) -> (r: Vec<(String, MetadataValue)>)
    requires
        gp@.len() * 256 <= usize::MAX,
        forall|k: int| 0 <= k < gp@.len() ==> (#[trigger] gp@[k]).left < features@.len() && gp@[k].right < features@.len(),
        vector_facts_for(facts, ms),
    ensures
        vector_metadata_ok(r@, features@, gp@, ms, *options, group_hash@),
{
    let pairs = vector_pair_records(features, gp);
    let signals = vector_signals_exec(gp);
    let kinds = sorted_distinct(&facts.kinds);
    let names = sorted_distinct(&facts.names);
    let rank = vector_metric_average_exec(gp, 1);
    let vector = vector_metric_average_exec(gp, 0);
    let mut md: Vec<(String, MetadataValue)> = Vec::new();
    md.push((String::from_str("candidate_limit"), MetadataValue::Number(options.candidate_limit as u64)));
    md.push((String::from_str("candidate_limit_reached"), MetadataValue::Flag(false)));
    md.push((String::from_str("definition_kinds"), MetadataValue::TextList(kinds)));
    md.push((String::from_str("deterministic_signals"), MetadataValue::TextList(signals)));
    md.push((String::from_str("embedding_provider"), MetadataValue::Text(options.provider_id.clone())));
    md.push((String::from_str("line_count"), MetadataValue::Number(facts.lines as u64)));
    md.push((String::from_str("pair_scores"), MetadataValue::Records(pairs)));
    md.push((String::from_str("privacy_mode"), MetadataValue::Text(options.privacy_mode.clone())));
    md.push((String::from_str("qualified_names"), MetadataValue::TextList(facts.qualified)));
    md.push((String::from_str("rank_score"), MetadataValue::Number(rank as u64)));
    md.push((String::from_str("summary_hashes"), MetadataValue::TextList(facts.hashes)));
    md.push((String::from_str("summary_version"), MetadataValue::Text(String::from_str(VECTOR_SUMMARY_VERSION))));
    md.push((String::from_str("symbol_names"), MetadataValue::TextList(names)));
    md.push((String::from_str("token_estimate"), MetadataValue::Number(facts.tokens as u64)));
    md.push((String::from_str("vector_group_hash"), MetadataValue::Text(group_hash)));
    md.push((String::from_str("vector_score"), MetadataValue::Number(vector as u64)));
    md.push((String::from_str("vector_version"), MetadataValue::Text(String::from_str(VECTOR_CANDIDATE_VERSION))));
    md
}

/// The group hash: the SHA-256 hex of the version and the sorted summary hashes.
pub open spec fn vector_group_hash(sorted_hashes: Seq<Seq<char>>) -> Seq<char> {
    spec_hex(spec_sha256(encode_utf8(VECTOR_CANDIDATE_VERSION@ + "|"@ + spec_join(sorted_hashes, "|"@))))
}

/// The stable key of a vector candidate finding: the SHA-256 hex of the rule, the
/// group hash and the qualified names in report order.
pub open spec fn vector_key(group_hash: Seq<char>, qualified: Seq<Seq<char>>) -> Seq<char> {
    spec_hex(
        spec_sha256(encode_utf8(SEMANTIC_VECTOR_CANDIDATE_RULE@ + "|"@ + group_hash + "|"@ + spec_join(qualified, "|"@))),
    )
}

/// `fd` is the finding for the vector candidate group `group` when `ord` lists the
/// group in report order and `hord` lists it by summary hash.
pub open spec fn vector_finding_with(
    fd: Finding,
    fs: Seq<VectorMember>,
    ps: Seq<VectorPairScore>,
    group: Seq<usize>,
    options: VectorCandidateOptions,
    ord: Seq<usize>,
    hord: Seq<usize>,
) -> bool {
    let ms = ordered_vector_members(fs, ord);
    let ds = vector_member_defs(ms);
    let gp = vector_group_pairs(ps, group);
    let gh = vector_group_hash(ordered_vector_members(fs, hord).map_values(|m: VectorMember| m.summary_hash@));
    &&& report_order(ord, group, vector_definitions(fs))
    &&& hord.to_multiset() == group.to_multiset()
    &&& hord.len() == group.len()
    &&& ordered_by(hord, |a: usize, b: usize| summary_le(fs, a, b))
    &&& fd.rule_id@ == SEMANTIC_VECTOR_CANDIDATE_RULE@
    &&& fd.kind == FindingKind::SemanticCandidate
    &&& fd.severity == Severity::Info
    &&& fd.confidence == (if vector_metric_average(gp, 1) >= 82 && vector_metric_average(gp, 0) >= 90 {
        Confidence::Medium
    } else {
        Confidence::Low
    })
    &&& fd.autofix == AutofixSafety::SuggestionOnly
    &&& fd.baseline_key@ == vector_key(gh, ds.map_values(|d: DefinitionInfo| d.qualified_name@))
    &&& fd.finding_id@ == SEMANTIC_VECTOR_CANDIDATE_RULE@ + ":"@ + fd.baseline_key@.take(12)
    &&& fd.message@ == spec_decimal(group.len()) + " definitions are vector-discovered semantic candidates."@
    &&& fd.locations@.len() == group.len()
    &&& forall|l: int| 0 <= l < group.len() ==> body_location(#[trigger] fd.locations@[l], ms[l].definition)
    &&& opt_view(fd.language) == shared_definition_language(ds)
    &&& opt_view(fd.framework) == shared_definition_framework(ds)
    &&& fd.explanation@
        == "These functions appear conceptually similar, but deterministic equivalence was not proven. The vector match was kept only because deterministic AST, signature, call, name, or framework signals also supported the candidate."@
    &&& fd.remediation@
        == "Compare intent and edge cases, then extract a shared helper, consolidate validation, keep the definitions separate with documentation, or suppress intentional duplication with a reason."@
    &&& fd.detection_reason@
        == "The detector embedded compact function summaries, searched deterministic vector LSH buckets, and ranked candidates with deterministic code similarity signals."@
    &&& fd.autofix_explanation@
        == "Vector candidates are discovery-only and cannot be auto-fixed because embeddings do not prove behavior equivalence."@
    &&& fd.fixes@.len() == 0
    &&& !fd.is_suppressed
    &&& fd.suppression is None
    &&& vector_metadata_ok(fd.metadata@, fs, gp, ms, options, gh)
}

/// `fd` is the finding for the vector candidate group `group` (indices into `fs`) with
/// the pair scores `ps`: members are reported by file, start and qualified name, the
/// group hash covers the sorted summary hashes, and the scores average the pairs
/// inside the group.
pub open spec fn describes_vector_group(
    fd: Finding,
    fs: Seq<VectorMember>,
    ps: Seq<VectorPairScore>,
    group: Seq<usize>,
    options: VectorCandidateOptions,
) -> bool {
    exists|ord: Seq<usize>, hord: Seq<usize>| vector_finding_with(fd, fs, ps, group, options, ord, hord)
}

fn summaries_in_order(features: &Vec<VectorMember>, hord: &Vec<usize>) -> (r: Vec<Vec<char>>)
    requires
        forall|i: int| 0 <= i < hord@.len() ==> (#[trigger] hord@[i]) < features@.len(),
    ensures
        views(r@) == ordered_vector_members(features@, hord@).map_values(|m: VectorMember| m.summary_hash@),
{
    let mut out: Vec<Vec<char>> = Vec::new();
    for i in 0..hord.len()
        invariant
            forall|i: int| 0 <= i < hord@.len() ==> (#[trigger] hord@[i]) < features@.len(),
            views(out@) == ordered_vector_members(features@, hord@.take(i as int)).map_values(|m: VectorMember| m.summary_hash@),
    {
        let ghost before = out@;
        let c = chars_of(features[hord[i]].summary_hash.as_str());
        out.push(c);
        assert(views(out@) =~= views(before).push(c@));
        assert(ordered_vector_members(features@, hord@.take(i + 1)) =~= ordered_vector_members(features@, hord@.take(i as int)).push(
            features@[hord@[i as int] as int],
        ));
        assert(views(out@) =~= ordered_vector_members(features@, hord@.take(i + 1)).map_values(|m: VectorMember| m.summary_hash@));
    }
    assert(hord@.take(hord@.len() as int) =~= hord@);
    out
}

/// Builds the finding for a group of vector candidates, given as positions in
/// `features`, from their pair scores.
#[verifier::rlimit(60)]
pub fn build_vector_candidate_finding(
    features: &Vec<VectorMember>,
    pair_scores: &Vec<VectorPairScore>,
    group: &Vec<usize>,
    options: &VectorCandidateOptions,
) -> (r: Finding)
    requires
        group@.len() > 0,
        forall|j: int| 0 <= j < group@.len() ==> (#[trigger] group@[j]) < features@.len(),
        pair_scores@.len() * 256 <= usize::MAX,
    ensures
        describes_vector_group(r, features@, pair_scores@, group@, *options),
{
    let ord = order_vector_members(features, group);
    let hord = order_by_summary(features, group);
    proof {
        lemma_indices_in_range(ord@, group@, features@.len());
        lemma_indices_in_range(hord@, group@, features@.len());
        lemma_vector_group_pairs(pair_scores@, group@);
    }
    let ghost ms = ordered_vector_members(features@, ord@);
    let ghost ds = vector_member_defs(ms);
    let gp = select_vector_pairs(pair_scores, group);
    proof {
        assert forall|k: int| 0 <= k < gp@.len() implies (#[trigger] gp@[k]).left < features@.len() && gp@[k].right
            < features@.len() by {
            let a = choose|j: int| 0 <= j < group@.len() && group@[j] == gp@[k].left;
            let b = choose|j: int| 0 <= j < group@.len() && group@[j] == gp@[k].right;
        }
    }
    let mut facts = collect_vector_facts(features, &ord);
    let bar: Vec<char> = vec!['|'];
    proof {
        reveal_strlit("|");
        assert(bar@ =~= "|"@);
    }
    let sorted_hashes = summaries_in_order(features, &hord);
    let joined = string_from_chars(crate::text::join_chars(&sorted_hashes, bar.as_slice()).as_slice());
    let mut raw_hash = String::from_str(VECTOR_CANDIDATE_VERSION);
    raw_hash.append("|");
    raw_hash.append(joined.as_str());
    let group_hash = sha256_hex(raw_hash.as_str());
    let ghost gh = vector_group_hash(ordered_vector_members(features@, hord@).map_values(|m: VectorMember| m.summary_hash@));
    proof {
        assert(raw_hash@ =~= VECTOR_CANDIDATE_VERSION@ + "|"@ + spec_join(
            ordered_vector_members(features@, hord@).map_values(|m: VectorMember| m.summary_hash@),
            "|"@,
        ));
        assert(group_hash@ == gh);
    }
    let mut qualified_chars: Vec<Vec<char>> = Vec::new();
    for i in 0..facts.qualified.len()
        invariant
            views(qualified_chars@) == text_views(facts.qualified@.take(i as int)),
    {
        let ghost before = qualified_chars@;
        let c = chars_of(facts.qualified[i].as_str());
        qualified_chars.push(c);
        assert(views(qualified_chars@) =~= views(before).push(c@));
        assert(views(qualified_chars@) =~= text_views(facts.qualified@.take(i + 1)));
    }
    assert(facts.qualified@.take(facts.qualified@.len() as int) =~= facts.qualified@);
    let qualified_joined = string_from_chars(crate::text::join_chars(&qualified_chars, bar.as_slice()).as_slice());
    let mut raw = String::from_str(SEMANTIC_VECTOR_CANDIDATE_RULE);
    raw.append("|");
    raw.append(group_hash.as_str());
    raw.append("|");
    raw.append(qualified_joined.as_str());
    proof {
        assert(raw@ =~= SEMANTIC_VECTOR_CANDIDATE_RULE@ + "|"@ + gh + "|"@ + spec_join(
            ds.map_values(|d: DefinitionInfo| d.qualified_name@),
            "|"@,
        ));
    }
    let baseline_key = sha256_hex(raw.as_str());
    let key_chars = chars_of(baseline_key.as_str());
    let prefix = string_from_chars(crate::text::slice_chars(key_chars.as_slice(), 0, 12).as_slice());
    let mut finding_id = String::from_str(SEMANTIC_VECTOR_CANDIDATE_RULE);
    finding_id.append(":");
    finding_id.append(prefix.as_str());
    proof {
        assert(finding_id@ =~= SEMANTIC_VECTOR_CANDIDATE_RULE@ + ":"@ + baseline_key@.take(12));
    }
    let sorted_frameworks = sorted_distinct(&facts.frameworks);
    proof {
        assert(sorted_frameworks@.map_values(|k: String| (k@, ())).len() == sorted_frameworks@.len());
    }
    let framework = if sorted_frameworks.len() == 1 {
        proof {
            assert(sorted_frameworks@.map_values(|k: String| (k@, ()))[0] == (sorted_frameworks@[0]@, ()));
        }
        Some(sorted_frameworks[0].clone())
    } else {
        None
    };
    let language = if facts.same_language {
        Some(features[ord[0]].definition.language.clone())
    } else {
        None
    };
    let rank = vector_metric_average_exec(&gp, 1);
    let vector = vector_metric_average_exec(&gp, 0);
    let confidence = if rank >= 82 && vector >= 90 {
        Confidence::Medium
    } else {
        Confidence::Low
    };
    let mut message = decimal(group.len());
    message.append(" definitions are vector-discovered semantic candidates.");
    let mut locations: Vec<FindingLocation> = Vec::new();
    std::mem::swap(&mut locations, &mut facts.locations);
    let metadata = vector_metadata(features, &gp, facts, options, group_hash, Ghost(ms));
    let r = Finding {
        finding_id,
        baseline_key,
        rule_id: String::from_str(SEMANTIC_VECTOR_CANDIDATE_RULE),
        kind: FindingKind::SemanticCandidate,
        severity: Severity::Info,
        confidence,
        message,
        locations,
        language,
        framework,
        explanation: String::from_str(
            "These functions appear conceptually similar, but deterministic equivalence was not proven. The vector match was kept only because deterministic AST, signature, call, name, or framework signals also supported the candidate.",
        ),
        remediation: String::from_str(
            "Compare intent and edge cases, then extract a shared helper, consolidate validation, keep the definitions separate with documentation, or suppress intentional duplication with a reason.",
        ),
        detection_reason: String::from_str(
            "The detector embedded compact function summaries, searched deterministic vector LSH buckets, and ranked candidates with deterministic code similarity signals.",
        ),
        autofix: AutofixSafety::SuggestionOnly,
        autofix_explanation: String::from_str(
            "Vector candidates are discovery-only and cannot be auto-fixed because embeddings do not prove behavior equivalence.",
        ),
        fixes: Vec::new(),
        metadata,
        is_suppressed: false,
        suppression: None,
    };
    assert(vector_finding_with(r, features@, pair_scores@, group@, *options, ord@, hord@));
    r
}

proof fn lemma_vector_pairs_same_members(ps: Seq<VectorPairScore>, g1: Seq<usize>, g2: Seq<usize>)
    requires
        forall|x: usize| g1.contains(x) <==> g2.contains(x),
    ensures
        vector_group_pairs(ps, g1) == vector_group_pairs(ps, g2),
    decreases ps.len(),
{
    if ps.len() > 0 {
        lemma_vector_pairs_same_members(ps.drop_last(), g1, g2);
    }
}

/// The finding for a vector candidate group does not depend on the order its members
/// are listed in: a group with the same members is described by the same finding.
pub proof fn lemma_vector_finding_ignores_member_order(
    fd: Finding,
    fs: Seq<VectorMember>,
    ps: Seq<VectorPairScore>,
    g1: Seq<usize>,
    g2: Seq<usize>,
    options: VectorCandidateOptions,
)
    requires
        describes_vector_group(fd, fs, ps, g1, options),
        g1.to_multiset() == g2.to_multiset(),
    ensures
        describes_vector_group(fd, fs, ps, g2, options),
{
    let (ord, hord) = choose|ord: Seq<usize>, hord: Seq<usize>| vector_finding_with(fd, fs, ps, g1, options, ord, hord);
    g1.to_multiset_ensures();
    g2.to_multiset_ensures();
    assert forall|x: usize| g1.contains(x) <==> g2.contains(x) by {
        g1.to_multiset_ensures();
        g2.to_multiset_ensures();
        assert(g1.contains(x) <==> g1.to_multiset().count(x) > 0);
        assert(g2.contains(x) <==> g2.to_multiset().count(x) > 0);
        assert(g1.to_multiset().count(x) == g2.to_multiset().count(x));
    }
    lemma_vector_pairs_same_members(ps, g1, g2);
    assert(g1.len() == g2.len());
    assert(vector_finding_with(fd, fs, ps, g2, options, ord, hord));
}

} // verus!
