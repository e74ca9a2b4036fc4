//! Near-duplicate detection from source: each function-like definition's body is read
//! and cut into shingles, rare shingles are weighted and summarised by MinHash, LSH
//! proposes candidate pairs, the pairs of one language with different canonical
//! shapes that score at or above the threshold are kept, and each connected group of
//! kept pairs becomes one finding.
use std::collections::BTreeMap;
use vstd::prelude::*;
use vstd::string::StringSliceAdditionalSpecFns;
use vstd::utf8::*;

use crate::baseline_keys::key_set;
use crate::config::text_views;
use crate::duplication::NearDuplicateOptions;
use crate::exact_body::{body_text, function_like_kind};
use crate::findings::{slice_source, Finding, SourceSpan};
use crate::paths::path_le_exec;
use crate::near::{
    document_count, features_from, keys_of, weight_at, is_min_hash, minhash_signature, near_document_frequency, near_features, no_features,
    near_pair_score, score_signals, lsh_candidate, lsh_candidate_pairs, lsh_candidates, lsh_options_fit, oversized_buckets, spec_signature_similarity, spec_weighted_jaccard, LshCandidates, NearFeatures,
    NearPairScore, NearSignatureShape, RawNearFeatures, NEAR_DUPLICATE_VERSION,
};
use crate::exact_body::{clone_definition, same_definition};
use crate::hashing::{sha256_hex, spec_hex, spec_sha256};
use crate::near_findings::{build_near_finding, describes_near_group, NearMember};
use crate::components::{components_of, connected_groups};
use crate::similarity::{spec_count_similarity, spec_minhash_estimate, spec_weighted_average};
use crate::normalize::{crlf_to_lf, spec_crlf_to_lf, spec_lines, spec_strip_comments, strip_comments_preserving_literals};
use crate::parser::DefinitionKind;
use crate::shingles::{
    ast_path_tokens, canonical_node_names, control_flow_names, control_flow_tokens, filter_tokens, lexical_tokens,
    node_paths, region_views, shingle_strings, spec_lexical_tokens, spec_statement_regions, statement_regions,
    token_windows, StatementRegion,
};
use crate::similarity::{near_ast_shingle_size, near_shingle_size, near_statement_shingle_size};
use crate::symbol_findings::DefinitionInfo;
use crate::near_findings::{lemma_member_le_total_preorder, member_le};
use crate::sorting::{chars_le, lemma_chars_le_antisymmetric, lemma_chars_le_reflexive, lemma_chars_le_total, lemma_chars_le_transitive, ordered_by, sort_by_order, str_le, total_preorder};
use crate::text::{chars_of, decimal, decimal_u64, join_chars, spec_decimal, spec_join, string_from_chars, views};
use crate::utf8_facts::{range_chars, str_len_fits};

verus! {

broadcast use {
    vstd::string::group_string_axioms,
    vstd::std_specs::vec::group_vec_axioms,
    vstd::utf8::encode_utf8_decode_utf8,
};

/// What the structural fingerprint of a definition gives near-duplicate detection:
/// the canonical hash with literals preserved, and, from the fingerprint the features
/// are taken from, its serialisation, token estimate, signature and calls.
#[derive(Debug, Clone)]
pub struct NearStructure {
    pub canonical_hash: String,
    pub serialization: String,
    pub token_estimate: usize,
    pub parameter_count: usize,
    pub return_shape: String,
    pub is_async: bool,
    pub kind: DefinitionKind,
    pub call_names: Vec<String>,
}

/// A definition as near-duplicate detection reads it: the definition, the number of
/// lines its body spans, and its structural fingerprint if it has one.
#[derive(Debug, Clone)]
pub struct NearInput {
    pub definition: DefinitionInfo,
    pub line_count: usize,
    pub structure: Option<NearStructure>,
}

/// Token shingle length for a definition of `t` tokens.
pub open spec fn token_shingle_size(t: nat) -> nat {
    if t < 80 {
        3
    } else if t < 250 {
        5
    } else {
        7
    }
}

/// Syntax-path shingle length for a definition of `t` tokens.
pub open spec fn ast_shingle_size(t: nat) -> nat {
    if t < 80 {
        3
    } else if t < 250 {
        4
    } else {
        5
    }
}

/// Statement shingle length for a definition of `t` tokens.
pub open spec fn statement_shingle_size(t: nat) -> nat {
    if t < 80 {
        1
    } else if t < 250 {
        2
    } else {
        3
    }
}

/// The shingles of some tokens: the distinct windows of `size` tokens, in key order.
pub open spec fn shingles_are(v: Seq<String>, tokens: Seq<Seq<char>>, size: nat) -> bool {
    v.map_values(|k: String| (k@, ())) == key_set(token_windows(tokens, size))
}

/// The body of a definition, comments stripped and line breaks unified, when its
/// source was read and its span slices cleanly.
pub open spec fn stripped_body(inp: NearInput, source: Option<String>) -> Option<Seq<char>> {
    match source {
        None => None,
        Some(s) => match body_text(inp.definition, encode_utf8(s@)) {
            Some(body) => Some(spec_crlf_to_lf(spec_strip_comments(body))),
            None => None,
        },
    }
}

/// The token count of a body: its lexical tokens or the fingerprint's estimate,
/// whichever is larger.
pub open spec fn near_token_count(body: Seq<char>, st: NearStructure) -> nat {
    let n = spec_lexical_tokens(body).len();
    if n >= st.token_estimate {
        n
    } else {
        st.token_estimate as nat
    }
}

/// Whether a definition takes part in near-duplicate detection: a function-like kind
/// with a structural fingerprint and a body of at least the minimum lines, whose
/// source was read and sliced cleanly, with at least the minimum tokens, and whose
/// line numbers fit a `usize`.
pub open spec fn near_kept(inp: NearInput, source: Option<String>, options: NearDuplicateOptions) -> bool {
    &&& function_like_kind(inp.definition.kind@)
    &&& inp.structure is Some
    &&& inp.definition.body_span is Some
    &&& inp.line_count >= options.min_lines
    &&& stripped_body(inp, source) is Some
    &&& near_token_count(stripped_body(inp, source)->0, inp.structure->0) >= options.min_tokens
    &&& inp.definition.body_span->0.line + stripped_body(inp, source)->0.len() <= usize::MAX
}

/// `raw` holds what near-duplicate detection reads of a kept definition: its language
/// and sizes, signature shape, statements, and the shingles of its canonical tokens,
/// syntax paths, statements, calls and control flow.
pub open spec fn raw_from(raw: RawNearFeatures, inp: NearInput, source: Option<String>) -> bool {
    let st = inp.structure->0;
    let body = stripped_body(inp, source)->0;
    let t = near_token_count(body, st);
    let body_tokens = spec_lexical_tokens(body);
    let statements = spec_statement_regions(spec_lines(body), inp.definition.body_span->0.line as nat, spec_lines(body).len() as int);
    &&& raw.language@ == inp.definition.language@
    &&& raw.line_count == inp.line_count
    &&& raw.token_count == t
    &&& raw.statement_count == statements.len()
    &&& raw.signature_shape.parameter_count == st.parameter_count
    &&& raw.signature_shape.return_shape@ == st.return_shape@
    &&& raw.signature_shape.is_async == st.is_async
    &&& raw.signature_shape.kind == st.kind
    &&& region_views(raw.statements@) == statements
    &&& shingles_are(raw.token_shingles@, spec_lexical_tokens(st.serialization@), token_shingle_size(t))
    &&& shingles_are(
        raw.ast_shingles@,
        node_paths(filter_tokens(spec_lexical_tokens(st.serialization@), |t: Seq<char>| canonical_node_names().contains(t))),
        ast_shingle_size(t),
    )
    &&& shingles_are(raw.statement_shingles@, statements.map_values(|r: (nat, Seq<char>)| r.1), statement_shingle_size(t))
    &&& shingles_are(raw.call_shingles@, text_views(st.call_names@), 1)
    &&& shingles_are(
        raw.control_shingles@,
        filter_tokens(body_tokens, |t: Seq<char>| control_flow_names().contains(t)),
        1,
    )
}

pub(crate) fn clone_strings(v: &Vec<String>) -> (r: Vec<String>)
    ensures
        r@ == v@,
{
    let mut out: Vec<String> = Vec::new();
    for i in 0..v.len()
        invariant
            out@ == v@.take(i as int),
    {
        out.push(v[i].clone());
        assert(out@ =~= v@.take(i + 1));
    }
    assert(v@.take(v@.len() as int) =~= v@);
    out
}

/// Reads what near-duplicate detection needs of one definition, or nothing when the
/// definition does not take part.
pub fn raw_near_features(inp: &NearInput, source: &Option<String>, options: NearDuplicateOptions) -> (r: Option<RawNearFeatures>)
    requires
        inp.definition.body_span matches Some(b) ==> b.start <= b.end,
    ensures
        (r is Some) == near_kept(*inp, *source, options),
        r matches Some(raw) ==> raw_from(raw, *inp, *source),
{
    if !crate::exact_body::function_like_kind_exec(inp.definition.kind.as_str()) {
        return None;
    }
    let st = match &inp.structure {
        Some(st) => st,
        None => return None,
    };
    let b = match inp.definition.body_span {
        Some(b) => b,
        None => return None,
    };
    if inp.line_count < options.min_lines {
        return None;
    }
    let src = match source {
        Some(s) => s.as_str(),
        None => return None,
    };
    str_len_fits(src);
    let span = SourceSpan { start: b.start, end: b.end };
    let body = match slice_source(src, span) {
        Ok(t) => t,
        Err(_) => return None,
    };
    assert(body@ == range_chars(src.spec_bytes(), span.start as int, span.end as int));
    let stripped_text = strip_comments_preserving_literals(body);
    let stripped_chars = crlf_to_lf(&chars_of(stripped_text.as_str()));
    let stripped = string_from_chars(stripped_chars.as_slice());
    let ghost sb = stripped@;
    assert(stripped_body(*inp, *source) == Some(sb));
    let body_tokens = lexical_tokens(stripped.as_str());
    let token_count = if body_tokens.len() >= st.token_estimate {
        body_tokens.len()
    } else {
        st.token_estimate
    };
    if token_count < options.min_tokens {
        return None;
    }
    if b.line > usize::MAX - stripped_chars.len() {
        return None;
    }
    let canonical_tokens = lexical_tokens(st.serialization.as_str());
    let ast_paths = ast_path_tokens(st.serialization.as_str());
    let statements = statement_regions(stripped.as_str(), b.line);
    let mut statement_tokens: Vec<String> = Vec::new();
    for i in 0..statements.len()
        invariant
            text_views(statement_tokens@) == region_views(statements@).take(i as int).map_values(|r: (nat, Seq<char>)| r.1),
    {
        let ghost before = statement_tokens@;
        let t = statements[i].normalized.clone();
        statement_tokens.push(t);
        assert(text_views(statement_tokens@) =~= text_views(before).push(t@));
        assert(region_views(statements@)[i as int].1 == t@);
        assert(text_views(statement_tokens@) =~= region_views(statements@).take(i + 1).map_values(|r: (nat, Seq<char>)| r.1));
    }
    assert(region_views(statements@).take(statements@.len() as int) =~= region_views(statements@));
    let control_tokens = control_flow_tokens(body_tokens.as_slice());
    let size = near_shingle_size(token_count);
    let ast_size = near_ast_shingle_size(token_count);
    let statement_size = near_statement_shingle_size(token_count);
    let statement_count = statements.len();
    let raw = RawNearFeatures {
        language: inp.definition.language.clone(),
        line_count: inp.line_count,
        token_count,
        statement_count,
        signature_shape: NearSignatureShape {
            parameter_count: st.parameter_count,
            return_shape: st.return_shape.clone(),
            is_async: st.is_async,
            kind: st.kind,
        },
        statements,
        token_shingles: shingle_strings(canonical_tokens.as_slice(), size),
        ast_shingles: shingle_strings(ast_paths.as_slice(), ast_size),
        statement_shingles: shingle_strings(statement_tokens.as_slice(), statement_size),
        call_shingles: shingle_strings(clone_strings(&st.call_names).as_slice(), 1),
        control_shingles: shingle_strings(control_tokens.as_slice(), 1),
    };
    Some(raw)
}

/// Whether definition `a` comes before (or with) `b` among near-duplicate candidates:
/// by language label, then file, start and qualified name. Positions past the end
/// come last, by value.
pub open spec fn language_member_le(ds: Seq<DefinitionInfo>, a: usize, b: usize) -> bool {
    if a < ds.len() && b < ds.len() {
        let la = ds[a as int].language@;
        let lb = ds[b as int].language@;
        chars_le(la, lb) && (la == lb ==> member_le(ds, a, b))
    } else {
        member_le(ds, a, b)
    }
}

proof fn lemma_language_member_le_total_preorder(ds: Seq<DefinitionInfo>)
    ensures
        total_preorder(|a: usize, b: usize| language_member_le(ds, a, b)),
{
    lemma_member_le_total_preorder(ds);
    let ml = |a: usize, b: usize| member_le(ds, a, b);
    assert forall|a: usize| #[trigger] language_member_le(ds, a, a) by {
        assert(ml(a, a));
        if a < ds.len() {
            lemma_chars_le_reflexive(ds[a as int].language@);
        }
    }
    assert forall|a: usize, b: usize| #[trigger] language_member_le(ds, a, b) || language_member_le(ds, b, a) by {
        assert(ml(a, b) || ml(b, a));
        if a < ds.len() && b < ds.len() {
            lemma_chars_le_total(ds[a as int].language@, ds[b as int].language@);
            if ds[a as int].language@ != ds[b as int].language@ && chars_le(ds[a as int].language@, ds[b as int].language@) && chars_le(ds[b as int].language@, ds[a as int].language@) {
                lemma_chars_le_antisymmetric(ds[a as int].language@, ds[b as int].language@);
            }
        }
    }
    assert forall|a: usize, b: usize, c: usize| #[trigger] language_member_le(ds, a, b) && #[trigger] language_member_le(ds, b, c) implies language_member_le(ds, a, c) by {
        if a < ds.len() && b < ds.len() && c < ds.len() {
            let la = ds[a as int].language@;
            let lb = ds[b as int].language@;
            let lc = ds[c as int].language@;
            lemma_chars_le_transitive(la, lb, lc);
            if la == lc {
                if la != lb {
                    lemma_chars_le_antisymmetric(la, lb);
                }
                assert(la == lb && lb == lc);
                assert(ml(a, b) && ml(b, c));
            }
        } else if a < ds.len() && c < ds.len() {
            assert(b >= ds.len());
            assert(!member_le(ds, b, c));
        } else if a < ds.len() {
            assert(member_le(ds, a, c));
        } else {
            assert(b >= ds.len());
            assert(c >= ds.len());
        }
    }
}

/// The positions `0..n`.
pub open spec fn all_positions(n: nat) -> Seq<usize> {
    Seq::new(n, |i: int| i as usize)
}

/// The definitions of some inputs.
pub open spec fn input_definitions(ins: Seq<NearInput>) -> Seq<DefinitionInfo> {
    ins.map_values(|x: NearInput| x.definition)
}

/// `ord` lists every input once, by language, file, start and qualified name.
pub open spec fn candidate_order(ord: Seq<usize>, ins: Seq<NearInput>) -> bool {
    &&& ord.to_multiset() == all_positions(ins.len()).to_multiset()
    &&& ord.len() == ins.len()
    &&& ordered_by(ord, |a: usize, b: usize| language_member_le(input_definitions(ins), a, b))
}

/// The inputs of `ord` that take part, in that order.
pub open spec fn kept_in_order(ord: Seq<usize>, ins: Seq<NearInput>, srcs: Seq<Option<String>>, options: NearDuplicateOptions) -> Seq<usize>
    decreases ord.len(),
{
    if ord.len() == 0 {
        seq![]
    } else {
        let rest = kept_in_order(ord.drop_last(), ins, srcs, options);
        let x = ord.last();
        if near_kept(ins[x as int], srcs[x as int], options) {
            rest.push(x)
        } else {
            rest
        }
    }
}

fn all_positions_exec(n: usize) -> (r: Vec<usize>)
    ensures
        r@ == all_positions(n as nat),
{
    let mut out: Vec<usize> = Vec::new();
    for i in 0..n
        invariant
            out@ == all_positions(i as nat),
    {
        out.push(i);
        assert(out@ =~= all_positions((i + 1) as nat));
    }
    out
}

fn order_candidates(inputs: &Vec<NearInput>) -> (r: Vec<usize>)
    ensures
        candidate_order(r@, inputs@),
{
    let ghost ds = input_definitions(inputs@);
    proof {
        lemma_language_member_le_total_preorder(ds);
    }
    let le = |a: &usize, b: &usize| -> (r: bool)
        ensures
            r == language_member_le(input_definitions(inputs@), *a, *b),
        {
            let n = inputs.len();
            let ghost dv = input_definitions(inputs@);
            if *a < n && *b < n {
                let da = &inputs[*a].definition;
                let db = &inputs[*b].definition;
                assert(dv[*a as int] == *da && dv[*b as int] == *db);
                let la = da.language.as_str();
                let lb = db.language.as_str();
                if !str_le(la, lb) {
                    false
                } else if !str_le(lb, la) {
                    proof {
                        if la@ == lb@ {
                            lemma_chars_le_reflexive(la@);
                        }
                    }
                    true
                } else {
                    proof {
                        lemma_chars_le_antisymmetric(la@, lb@);
                    }
                    if !path_le_exec(da.file.as_str(), db.file.as_str()) {
                        false
                    } else if !path_le_exec(db.file.as_str(), da.file.as_str()) {
                        true
                    } else {
                        da.span_start < db.span_start || (da.span_start == db.span_start && str_le(
                            da.qualified_name.as_str(),
                            db.qualified_name.as_str(),
                        ))
                    }
                }
            } else if *a < n {
                true
            } else if *b < n {
                false
            } else {
                *a <= *b
            }
        };
    let all = all_positions_exec(inputs.len());
    sort_by_order(all, le, Ghost(|a: usize, b: usize| language_member_le(ds, a, b)))
}

/// `raws` holds what is read of each kept input, in order.
pub open spec fn raws_for(raws: Seq<RawNearFeatures>, kept: Seq<usize>, ins: Seq<NearInput>, srcs: Seq<Option<String>>) -> bool {
    &&& raws.len() == kept.len()
    &&& forall|j: int| 0 <= j < kept.len() ==> raw_from(#[trigger] raws[j], ins[kept[j] as int], srcs[kept[j] as int])
}

fn collect_raws(inputs: &Vec<NearInput>, sources: &Vec<Option<String>>, ord: &Vec<usize>, options: NearDuplicateOptions) -> (r: (
    Vec<usize>,
    Vec<RawNearFeatures>,
))
    requires
        inputs@.len() == sources@.len(),
        forall|i: int| 0 <= i < ord@.len() ==> (#[trigger] ord@[i]) < inputs@.len(),
        forall|i: int|
            0 <= i < inputs@.len() ==> ((#[trigger] inputs@[i]).definition.body_span matches Some(b) ==> b.start <= b.end),
    ensures
        r.0@ == kept_in_order(ord@, inputs@, sources@, options),
        raws_for(r.1@, r.0@, inputs@, sources@),
{
    let mut kept: Vec<usize> = Vec::new();
    let mut raws: Vec<RawNearFeatures> = Vec::new();
    for k in 0..ord.len()
        invariant
            inputs@.len() == sources@.len(),
            forall|i: int| 0 <= i < ord@.len() ==> (#[trigger] ord@[i]) < inputs@.len(),
            forall|i: int|
                0 <= i < inputs@.len() ==> ((#[trigger] inputs@[i]).definition.body_span matches Some(b) ==> b.start <= b.end),
            kept@ == kept_in_order(ord@.take(k as int), inputs@, sources@, options),
            raws_for(raws@, kept@, inputs@, sources@),
    {
        let x = ord[k];
        assert(ord@.take(k + 1).drop_last() =~= ord@.take(k as int));
        assert(ord@.take(k + 1).last() == x);
        match raw_near_features(&inputs[x], &sources[x], options) {
            Some(raw) => {
                kept.push(x);
                raws.push(raw);
                assert forall|j: int| 0 <= j < kept@.len() implies raw_from(#[trigger] raws@[j], inputs@[kept@[j] as int], sources@[kept@[j] as int]) by {
                    if j < kept@.len() - 1 {
                    }
                }
            },
            None => {},
        }
    }
    assert(ord@.take(ord@.len() as int) =~= ord@);
    (kept, raws)
}

/// `m` counts, for each shingle hash, the raw features whose shingles hold it.
pub open spec fn frequency_of(m: Map<u64, usize>, raws: Seq<RawNearFeatures>) -> bool {
    &&& forall|h: u64| #[trigger] m.contains_key(h) <==> document_count(raws, h, raws.len() as int) > 0
    &&& forall|h: u64| #[trigger] m.contains_key(h) ==> m[h] == document_count(raws, h, raws.len() as int)
}

/// `f`'s MinHash signature summarises its combined shingles.
pub open spec fn minhash_of(f: NearFeatures, options: NearDuplicateOptions) -> bool {
    &&& f.minhash_signature@.len() == options.hash_functions
    &&& forall|s: int| 0 <= s < options.hash_functions ==> is_min_hash(f.combined_shingles@, s as nat, #[trigger] f.minhash_signature@[s])
}

/// `fs` holds the weighted features of the raw features at the positions `pos` (in
/// order) with their signatures, and the raw features at no position have no shingle
/// rare enough to weigh.
pub open spec fn features_stage(
    fs: Seq<NearFeatures>,
    pos: Seq<usize>,
    raws: Seq<RawNearFeatures>,
    freq: Map<u64, usize>,
    options: NearDuplicateOptions,
) -> bool {
    &&& fs.len() == pos.len()
    &&& forall|j: int, k: int| 0 <= j < k < pos.len() ==> #[trigger] pos[j] < #[trigger] pos[k]
    &&& forall|j: int| 0 <= j < pos.len() ==> (#[trigger] pos[j]) < raws.len()
    &&& forall|j: int|
        0 <= j < pos.len() ==> features_from(#[trigger] fs[j], raws[pos[j] as int], freq, raws.len() as nat, options)
            && minhash_of(fs[j], options)
    &&& forall|k: int| 0 <= k < raws.len() && !pos.contains(k as usize) ==> no_features(#[trigger] raws[k], freq, raws.len() as nat, options)
}

fn clone_statements(v: &Vec<StatementRegion>) -> (r: Vec<StatementRegion>)
    ensures
        r@ == v@,
{
    let mut out: Vec<StatementRegion> = Vec::new();
    for i in 0..v.len()
        invariant
            out@ == v@.take(i as int),
    {
        out.push(StatementRegion { line: v[i].line, normalized: v[i].normalized.clone() });
        assert(out@ =~= v@.take(i + 1));
    }
    assert(v@.take(v@.len() as int) =~= v@);
    out
}

fn build_features(raws: Vec<RawNearFeatures>, options: NearDuplicateOptions) -> (r: (Vec<usize>, Vec<NearFeatures>, Vec<Vec<StatementRegion>>))
    requires
        raws@.len() * 255 <= usize::MAX,
    ensures
        exists|freq: Map<u64, usize>| frequency_of(freq, raws@) && features_stage(r.1@, r.0@, raws@, freq, options),
        r.2@.len() == r.0@.len(),
        forall|j: int| 0 <= j < r.0@.len() ==> (#[trigger] r.2@[j])@ == raws@[r.0@[j] as int].statements@,
{
    let freq = near_document_frequency(raws.as_slice());
    let total = raws.len();
    let ghost rv = raws@;
    let mut rest = raws;
    let mut pos: Vec<usize> = Vec::new();
    let mut fs: Vec<NearFeatures> = Vec::new();
    let mut stmts: Vec<Vec<StatementRegion>> = Vec::new();
    let mut k: usize = 0;
    assert(rv.skip(0) =~= rv);
    while rest.len() > 0
        invariant
            total == rv.len(),
            total * 255 <= usize::MAX,
            k <= total,
            rest@ == rv.skip(k as int),
            frequency_of(freq@, rv),
            fs@.len() == pos@.len(),
            stmts@.len() == pos@.len(),
            forall|j: int, l: int| 0 <= j < l < pos@.len() ==> #[trigger] pos@[j] < #[trigger] pos@[l],
            forall|j: int| 0 <= j < pos@.len() ==> (#[trigger] pos@[j]) < k,
            forall|j: int|
                0 <= j < pos@.len() ==> features_from(#[trigger] fs@[j], rv[pos@[j] as int], freq@, total as nat, options)
                    && minhash_of(fs@[j], options),
            forall|j: int| 0 <= j < pos@.len() ==> (#[trigger] stmts@[j])@ == rv[pos@[j] as int].statements@,
            forall|q: int| 0 <= q < k && !pos@.contains(q as usize) ==> no_features(#[trigger] rv[q], freq@, total as nat, options),
        decreases rest@.len(),
    {
        let raw = rest.remove(0);
        assert(raw == rv[k as int]);
        assert(rest@ =~= rv.skip(k + 1));
        let st = clone_statements(&raw.statements);
        let ghost old_pos = pos@;
        match near_features(raw, &freq, total, options) {
            Some(f) => {
                let mut f = f;
                let sig = minhash_signature(&f.combined_shingles, options);
                f.minhash_signature = sig;
                pos.push(k);
                fs.push(f);
                stmts.push(st);
                assert forall|q: int| 0 <= q < k + 1 && !pos@.contains(q as usize) implies no_features(#[trigger] rv[q], freq@, total as nat, options) by {
                    if q == k as int {
                        assert(pos@[pos@.len() - 1] == k);
                        assert(pos@.contains(k));
                    }
                    if old_pos.contains(q as usize) {
                        let j = choose|j: int| 0 <= j < old_pos.len() && old_pos[j] == q as usize;
                        assert(pos@[j] == q as usize);
                    }
                }
            },
            None => {
                assert forall|q: int| 0 <= q < k + 1 && !pos@.contains(q as usize) implies no_features(#[trigger] rv[q], freq@, total as nat, options) by {
                    if q < k {
                    }
                }
            },
        }
        k = k + 1;
    }
    assert(k == total);
    (pos, fs, stmts)
}

/// The pair score of functions `a` and `b`: their similarity signals and weighted score.
pub open spec fn spec_pair_score(a: usize, b: usize, l: NearFeatures, r: NearFeatures) -> NearPairScore {
    let signals = NearPairScore {
        left: a,
        right: b,
        score: 0,
        token_similarity: spec_weighted_jaccard(l.token_shingles@, r.token_shingles@),
        ast_similarity: spec_weighted_jaccard(l.ast_shingles@, r.ast_shingles@),
        statement_similarity: spec_weighted_jaccard(l.statement_shingles@, r.statement_shingles@),
        statement_count_similarity: spec_count_similarity(l.statement_count as nat, r.statement_count as nat),
        call_similarity: spec_weighted_jaccard(l.call_shingles@, r.call_shingles@),
        signature_similarity: spec_signature_similarity(l.signature_shape, r.signature_shape),
        signature_estimate: spec_minhash_estimate(l.minhash_signature@, r.minhash_signature@),
        control_flow_similarity: spec_weighted_jaccard(l.control_shingles@, r.control_shingles@),
    };
    NearPairScore { score: spec_weighted_average(score_signals(signals)), ..signals }
}

/// A candidate pair is kept: LSH proposed it, both functions share a language, their
/// canonical hashes differ, their statement counts fit the scoring arithmetic, and
/// their score reaches the threshold.
pub open spec fn pair_kept(
    fs: Seq<NearFeatures>,
    canon: Seq<Seq<char>>,
    cands: Set<(usize, usize)>,
    a: usize,
    b: usize,
    options: NearDuplicateOptions,
) -> bool {
    &&& cands.contains((a, b))
    &&& fs[a as int].language@ == fs[b as int].language@
    &&& canon[a as int] != canon[b as int]
    &&& fs[a as int].statement_count <= usize::MAX / 200
    &&& fs[b as int].statement_count <= usize::MAX / 200
    &&& spec_pair_score(a, b, fs[a as int], fs[b as int]).score >= options.similarity_threshold
}

/// The kept pairs `(a, c)` with `a < c < b`, in order of `c`.
pub open spec fn row_pairs(
    fs: Seq<NearFeatures>,
    canon: Seq<Seq<char>>,
    cands: Set<(usize, usize)>,
    a: usize,
    b: int,
    options: NearDuplicateOptions,
) -> Seq<NearPairScore>
    decreases b,
{
    if b <= a + 1 {
        seq![]
    } else {
        let rest = row_pairs(fs, canon, cands, a, b - 1, options);
        if pair_kept(fs, canon, cands, a, (b - 1) as usize, options) {
            rest.push(spec_pair_score(a, (b - 1) as usize, fs[a as int], fs[b - 1]))
        } else {
            rest
        }
    }
}

/// The kept pairs whose first function is below `a`, in order of both positions.
pub open spec fn kept_pairs(
    fs: Seq<NearFeatures>,
    canon: Seq<Seq<char>>,
    cands: Set<(usize, usize)>,
    a: int,
    options: NearDuplicateOptions,
) -> Seq<NearPairScore>
    decreases a,
{
    if a <= 0 {
        seq![]
    } else {
        kept_pairs(fs, canon, cands, a - 1, options) + row_pairs(fs, canon, cands, (a - 1) as usize, fs.len() as int, options)
    }
}

fn text_eq(a: &String, b: &String) -> (r: bool)
    ensures
        r == (a@ == b@),
{
    crate::text::chars_eq(chars_of(a.as_str()).as_slice(), chars_of(b.as_str()).as_slice())
}

fn select_pairs(
    fs: &Vec<NearFeatures>,
    canon: &Vec<String>,
    cands: &LshCandidates,
    options: NearDuplicateOptions,
) -> (r: Vec<NearPairScore>)
    requires
        canon@.len() == fs@.len(),
        forall|j: int| 0 <= j < fs@.len() ==> (#[trigger] fs@[j]).minhash_signature@.len() <= usize::MAX / 200,
    ensures
        r@ == kept_pairs(fs@, text_views(canon@), cands.pairs@, fs@.len() as int, options),
{
    let n = fs.len();
    let ghost cv = text_views(canon@);
    let mut out: Vec<NearPairScore> = Vec::new();
    for a in 0..n
        invariant
            n == fs@.len(),
            canon@.len() == n,
            cv == text_views(canon@),
            forall|j: int| 0 <= j < fs@.len() ==> (#[trigger] fs@[j]).minhash_signature@.len() <= usize::MAX / 200,
            out@ == kept_pairs(fs@, cv, cands.pairs@, a as int, options),
    {
        let ghost before = out@;
        let mut b: usize = a + 1;
        assert(row_pairs(fs@, cv, cands.pairs@, a, b as int, options) =~= seq![]);
        while b < n
            invariant
                n == fs@.len(),
                canon@.len() == n,
                cv == text_views(canon@),
                a < n,
                a + 1 <= b <= n,
                forall|j: int| 0 <= j < fs@.len() ==> (#[trigger] fs@[j]).minhash_signature@.len() <= usize::MAX / 200,
                out@ == before + row_pairs(fs@, cv, cands.pairs@, a, b as int, options),
            decreases n - b,
        {
            let fa = &fs[a];
            let fb = &fs[b];
            assert(cv[a as int] == canon@[a as int]@ && cv[b as int] == canon@[b as int]@);
            if cands.pairs.contains(&(a, b)) && text_eq(&fa.language, &fb.language) && !text_eq(&canon[a], &canon[b])
                && fa.statement_count <= usize::MAX / 200 && fb.statement_count <= usize::MAX / 200 {
                let p = near_pair_score(a, b, fa, fb);
                assert(p == spec_pair_score(a, b, *fa, *fb));
                if p.score >= options.similarity_threshold {
                    out.push(p);
                }
            }
            b = b + 1;
        }
        assert(out@ =~= kept_pairs(fs@, cv, cands.pairs@, a + 1, options));
    }
    out
}

/// `ks` lists the keys of `m` in increasing order.
pub open spec fn sorted_keys(ks: Seq<u64>, m: Map<u64, u16>) -> bool {
    &&& forall|i: int, j: int| 0 <= i < j < ks.len() ==> #[trigger] ks[i] < #[trigger] ks[j]
    &&& forall|k: u64| ks.contains(k) <==> m.contains_key(k)
}

/// The feature hash of a function: the SHA-256 hex of the detector version, its
/// language, its canonical hash and its weighted shingles as `hash:weight` in hash
/// order, joined by `|`.
pub open spec fn near_feature_hash(language: Seq<char>, canonical: Seq<char>, ks: Seq<u64>, m: Map<u64, u16>) -> Seq<char> {
    spec_hex(
        spec_sha256(
            encode_utf8(
                NEAR_DUPLICATE_VERSION@ + "|"@ + language + "|"@ + canonical + "|"@ + spec_join(
                    ks.map_values(|k: u64| spec_decimal(k as nat) + ":"@ + spec_decimal(m[k] as nat)),
                    "|"@,
                ),
            ),
        ),
    )
}

/// `m` is the member a kept function contributes to a finding: its definition, sizes,
/// statements and feature hash.
pub open spec fn member_for(m: NearMember, inp: NearInput, f: NearFeatures, stmts: Seq<StatementRegion>) -> bool {
    &&& same_definition(m.definition, inp.definition)
    &&& m.line_count == f.line_count
    &&& m.token_count == f.token_count
    &&& m.statement_count == f.statement_count
    &&& m.statements@ == stmts
    &&& exists|ks: Seq<u64>|
        sorted_keys(ks, f.combined_shingles@) && m.feature_hash@ == near_feature_hash(
            f.language@,
            inp.structure->0.canonical_hash@,
            ks,
            f.combined_shingles@,
        )
}

fn sorted_shingle_keys(m: &BTreeMap<u64, u16>) -> (r: Vec<u64>)
    ensures
        sorted_keys(r@, m@),
{
    let keys = keys_of(m);
    let le = |a: &u64, b: &u64| -> (r: bool)
        ensures
            r == (*a <= *b),
        { *a <= *b };
    let ghost leq = |a: u64, b: u64| a <= b;
    let sorted = sort_by_order(keys, le, Ghost(leq));
    proof {
        broadcast use vstd::seq_lib::group_to_multiset_ensures;
        keys@.lemma_multiset_has_no_duplicates();
        assert forall|x: u64| sorted@.to_multiset().contains(x) implies sorted@.to_multiset().count(x) == 1 by {
            assert(keys@.to_multiset().contains(x));
        }
        sorted@.lemma_multiset_has_no_duplicates_conv();
        assert forall|i: int, j: int| 0 <= i < j < sorted@.len() implies #[trigger] sorted@[i] < #[trigger] sorted@[j] by {
            assert(leq(sorted@[i], sorted@[j]));
        }
        assert forall|k: u64| sorted@.contains(k) <==> m@.contains_key(k) by {
            assert(sorted@.contains(k) <==> sorted@.to_multiset().count(k) > 0);
            assert(keys@.contains(k) <==> keys@.to_multiset().count(k) > 0);
        }
    }
    sorted
}

fn feature_hash_exec(f: &NearFeatures, canonical: &String) -> (r: String)
    ensures
        exists|ks: Seq<u64>| sorted_keys(ks, f.combined_shingles@) && r@ == near_feature_hash(
            f.language@,
            canonical@,
            ks,
            f.combined_shingles@,
        ),
{
    let ks = sorted_shingle_keys(&f.combined_shingles);
    let mut parts: Vec<Vec<char>> = Vec::new();
    for i in 0..ks.len()
        invariant
            sorted_keys(ks@, f.combined_shingles@),
            views(parts@) == ks@.take(i as int).map_values(
                |k: u64| spec_decimal(k as nat) + ":"@ + spec_decimal(f.combined_shingles@[k] as nat),
            ),
    {
        let k = ks[i];
        assert(ks@.contains(k));
        let w = weight_at(&f.combined_shingles, k);
        let mut text = decimal_u64(k);
        text.append(":");
        text.append(decimal(w as usize).as_str());
        let ghost before = parts@;
        parts.push(chars_of(text.as_str()));
        assert(views(parts@) =~= views(before).push(text@));
        assert(views(parts@) =~= ks@.take(i + 1).map_values(
            |k: u64| spec_decimal(k as nat) + ":"@ + spec_decimal(f.combined_shingles@[k] as nat),
        ));
    }
    assert(ks@.take(ks@.len() as int) =~= ks@);
    let bar: Vec<char> = vec!['|'];
    proof {
        reveal_strlit("|");
        assert(bar@ =~= "|"@);
    }
    let joined = string_from_chars(join_chars(&parts, bar.as_slice()).as_slice());
    let mut raw = String::from_str(NEAR_DUPLICATE_VERSION);
    raw.append("|");
    raw.append(f.language.as_str());
    raw.append("|");
    raw.append(canonical.as_str());
    raw.append("|");
    raw.append(joined.as_str());
    let r = sha256_hex(raw.as_str());
    assert(r@ == near_feature_hash(f.language@, canonical@, ks@, f.combined_shingles@));
    r
}


proof fn lemma_kept_in_order(ord: Seq<usize>, ins: Seq<NearInput>, srcs: Seq<Option<String>>, options: NearDuplicateOptions)
    requires
        forall|i: int| 0 <= i < ord.len() ==> (#[trigger] ord[i]) < ins.len(),
    ensures
        kept_in_order(ord, ins, srcs, options).len() <= ord.len(),
        forall|i: int|
            0 <= i < kept_in_order(ord, ins, srcs, options).len() ==> {
                let x = #[trigger] kept_in_order(ord, ins, srcs, options)[i];
                x < ins.len() && near_kept(ins[x as int], srcs[x as int], options)
            },
    decreases ord.len(),
{
    if ord.len() > 0 {
        lemma_kept_in_order(ord.drop_last(), ins, srcs, options);
    }
}

proof fn lemma_increasing_bounded(s: Seq<usize>, m: nat)
    requires
        forall|j: int, k: int| 0 <= j < k < s.len() ==> #[trigger] s[j] < #[trigger] s[k],
        forall|j: int| 0 <= j < s.len() ==> (#[trigger] s[j]) < m,
    ensures
        s.len() <= m,
    decreases s.len(),
{
    if s.len() > 0 {
        let t = s.drop_last();
        assert forall|j: int| 0 <= j < t.len() implies (#[trigger] t[j]) < s.last() by {
            assert(s[j] < s[s.len() - 1]);
        }
        lemma_increasing_bounded(t, s.last() as nat);
    }
}

proof fn lemma_row_pairs(
    fs: Seq<NearFeatures>,
    canon: Seq<Seq<char>>,
    cands: Set<(usize, usize)>,
    a: usize,
    b: int,
    options: NearDuplicateOptions,
)
    requires
        b <= fs.len(),
    ensures
        row_pairs(fs, canon, cands, a, b, options).len() <= fs.len(),
        forall|k: int|
            0 <= k < row_pairs(fs, canon, cands, a, b, options).len() ==> (#[trigger] row_pairs(fs, canon, cands, a, b, options)[k]).left
                == a && row_pairs(fs, canon, cands, a, b, options)[k].right < b,
    decreases b,
{
    if b > a + 1 {
        lemma_row_pairs(fs, canon, cands, a, b - 1, options);
        let rest = row_pairs(fs, canon, cands, a, b - 1, options);
        assert(rest.len() <= b - a - 2) by {
            lemma_row_len(fs, canon, cands, a, b - 1, options);
        }
    }
}

proof fn lemma_row_len(
    fs: Seq<NearFeatures>,
    canon: Seq<Seq<char>>,
    cands: Set<(usize, usize)>,
    a: usize,
    b: int,
    options: NearDuplicateOptions,
)
    ensures
        row_pairs(fs, canon, cands, a, b, options).len() <= (if b > a + 1 { b - a - 1 } else { 0 }),
    decreases b,
{
    if b > a + 1 {
        lemma_row_len(fs, canon, cands, a, b - 1, options);
    }
}

proof fn lemma_kept_pairs_bounds(
    fs: Seq<NearFeatures>,
    canon: Seq<Seq<char>>,
    cands: Set<(usize, usize)>,
    a: int,
    options: NearDuplicateOptions,
)
    requires
        0 <= a <= fs.len(),
    ensures
        kept_pairs(fs, canon, cands, a, options).len() <= a * fs.len(),
        forall|k: int|
            0 <= k < kept_pairs(fs, canon, cands, a, options).len() ==> (#[trigger] kept_pairs(fs, canon, cands, a, options)[k]).left
                < fs.len() && kept_pairs(fs, canon, cands, a, options)[k].right < fs.len(),
    decreases a,
{
    if a > 0 {
        lemma_kept_pairs_bounds(fs, canon, cands, a - 1, options);
        lemma_row_pairs(fs, canon, cands, (a - 1) as usize, fs.len() as int, options);
        let prev = kept_pairs(fs, canon, cands, a - 1, options);
        let row = row_pairs(fs, canon, cands, (a - 1) as usize, fs.len() as int, options);
        let n = fs.len() as int;
        assert((a - 1) * n + n == a * n) by (nonlinear_arith);
        assert forall|k: int| 0 <= k < (prev + row).len() implies (#[trigger] (prev + row)[k]).left < fs.len() && (prev
            + row)[k].right < fs.len() by {
            if k >= prev.len() {
                assert((prev + row)[k] == row[k - prev.len()]);
            }
        }
    }
}

/// The near-duplicate options describe a usable LSH layout: some hash functions,
/// bands and rows, with as many hash functions as bands times rows.
pub open spec fn near_options_valid(options: NearDuplicateOptions) -> bool {
    &&& options.hash_functions != 0
    &&& options.lsh_bands != 0
    &&& options.lsh_rows != 0
    &&& options.hash_functions == options.lsh_bands * options.lsh_rows
}

/// The canonical hash of each feature, taken from the input it was read from.
pub open spec fn feature_canon(ins: Seq<NearInput>, kept: Seq<usize>, pos: Seq<usize>) -> Seq<Seq<char>> {
    Seq::new(pos.len(), |j: int| ins[kept[pos[j] as int] as int].structure->0.canonical_hash@)
}

/// `ms` holds one member per feature, built from the input and statements it was read from.
pub open spec fn members_of(
    ms: Seq<NearMember>,
    ins: Seq<NearInput>,
    kept: Seq<usize>,
    pos: Seq<usize>,
    fs: Seq<NearFeatures>,
    raws: Seq<RawNearFeatures>,
) -> bool {
    &&& ms.len() == fs.len()
    &&& forall|j: int|
        0 <= j < fs.len() ==> member_for(#[trigger] ms[j], ins[kept[pos[j] as int] as int], fs[j], raws[pos[j] as int].statements@)
}

/// The graph edges of some kept pairs.
pub open spec fn pair_edges(ps: Seq<NearPairScore>) -> Seq<(usize, usize)> {
    ps.map_values(|p: NearPairScore| (p.left, p.right))
}

/// `c` is what LSH proposes for `fs`: candidates only, all of them unless the limit
/// was reached, and then exactly as many as the limit.
pub open spec fn lsh_outcome(c: LshCandidates, fs: Seq<NearFeatures>, options: NearDuplicateOptions) -> bool {
    &&& forall|q: (usize, usize)| #[trigger] c.pairs@.contains(q) ==> lsh_candidate(fs, options, q.0 as int, q.1 as int)
    &&& c.pairs@.subset_of(lsh_candidates(fs, options))
    &&& !c.candidate_limit_reached ==> c.pairs@ == lsh_candidates(fs, options)
    &&& !c.candidate_limit_reached ==> c.skipped_large_buckets == oversized_buckets(fs, options).len()
    &&& c.candidate_limit_reached ==> c.pairs@.len() == (if options.max_candidate_pairs == 0 {
        1
    } else {
        options.max_candidate_pairs
    })
}

/// The stages of one near-duplicate run, with their intermediate values: inputs in
/// report order, the kept definitions read, their weighted features, the LSH
/// candidates, the members, and the connected groups of kept pairs, one finding each.
pub open spec fn near_stages(
    r: Seq<Finding>,
    ins: Seq<NearInput>,
    srcs: Seq<Option<String>>,
    options: NearDuplicateOptions,
    ord: Seq<usize>,
    raws: Seq<RawNearFeatures>,
    freq: Map<u64, usize>,
    pos: Seq<usize>,
    fs: Seq<NearFeatures>,
    cands: LshCandidates,
    ms: Seq<NearMember>,
    gs: Seq<Seq<usize>>,
) -> bool {
    let kept = kept_in_order(ord, ins, srcs, options);
    let ps = kept_pairs(fs, feature_canon(ins, kept, pos), cands.pairs@, fs.len() as int, options);
    &&& candidate_order(ord, ins)
    &&& raws_for(raws, kept, ins, srcs)
    &&& frequency_of(freq, raws)
    &&& features_stage(fs, pos, raws, freq, options)
    &&& fs.len() < 2 ==> r.len() == 0
    &&& fs.len() >= 2 ==> {
        &&& lsh_outcome(cands, fs, options)
        &&& members_of(ms, ins, kept, pos, fs, raws)
        &&& components_of(gs, pair_edges(ps), fs.len())
        &&& r.len() == gs.len()
        &&& forall|f: int| 0 <= f < r.len() ==> describes_near_group(#[trigger] r[f], ms, ps, gs[f], cands)
    }
}

/// `r` is what a near-duplicate run over the inputs reports.
pub open spec fn near_run(r: Seq<Finding>, ins: Seq<NearInput>, srcs: Seq<Option<String>>, options: NearDuplicateOptions) -> bool {
    exists|
        ord: Seq<usize>,
        raws: Seq<RawNearFeatures>,
        freq: Map<u64, usize>,
        pos: Seq<usize>,
        fs: Seq<NearFeatures>,
        cands: LshCandidates,
        ms: Seq<NearMember>,
        gs: Seq<Seq<usize>>,
    | #[trigger] near_stages(r, ins, srcs, options, ord, raws, freq, pos, fs, cands, ms, gs)
}

/// Finds groups of near-duplicate functions. With an unusable LSH layout nothing is
/// reported. Otherwise the function-like definitions with a structural fingerprint
/// whose source reads cleanly and meets the size minimums are featurised in report
/// order, LSH proposes candidate pairs, the pairs of one language with different
/// canonical hashes scoring at the threshold are kept, and each connected group of
/// kept pairs becomes one finding.
pub fn find_near_function_duplicates(
    inputs: &Vec<NearInput>,
    sources: &Vec<Option<String>>,
    options: NearDuplicateOptions,
) -> (r: Vec<Finding>)
    requires
        inputs@.len() == sources@.len(),
        inputs@.len() * inputs@.len() * 256 <= usize::MAX,
        near_options_valid(options) ==> lsh_options_fit(options) && options.hash_functions <= usize::MAX / 200,
        forall|i: int|
            0 <= i < inputs@.len() ==> ((#[trigger] inputs@[i]).definition.body_span matches Some(b) ==> b.start <= b.end),
    ensures
        !near_options_valid(options) ==> r@.len() == 0,
        near_options_valid(options) ==> near_run(r@, inputs@, sources@, options),
{
    let product = options.lsh_bands.checked_mul(options.lsh_rows);
    let valid = match product {
        Some(p) => options.hash_functions != 0 && options.lsh_bands != 0 && options.lsh_rows != 0 && options.hash_functions == p,
        None => false,
    };
    if !valid {
        return Vec::new();
    }
    let n = inputs.len();
    let ord = order_candidates(inputs);
    proof {
        broadcast use vstd::seq_lib::group_to_multiset_ensures;
        assert forall|i: int| 0 <= i < ord@.len() implies (#[trigger] ord@[i]) < inputs@.len() by {
            assert(ord@.contains(ord@[i]));
            assert(all_positions(inputs@.len()).to_multiset().count(ord@[i]) > 0);
            let k = choose|k: int| 0 <= k < all_positions(inputs@.len()).len() && all_positions(inputs@.len())[k] == ord@[i];
        }
    }
    let (kept, raws) = collect_raws(inputs, sources, &ord, options);
    let ghost rv = raws@;
    proof {
        lemma_kept_in_order(ord@, inputs@, sources@, options);
        assert(raws@.len() <= n);
        assert(raws@.len() * 255 <= usize::MAX) by (nonlinear_arith)
            requires
                raws@.len() <= n,
                n * n * 256 <= usize::MAX,
        ;
    }
    let (pos, fs, stmts) = build_features(raws, options);
    let ghost freq = choose|freq: Map<u64, usize>| frequency_of(freq, rv) && features_stage(fs@, pos@, rv, freq, options);
    proof {
        lemma_increasing_bounded(pos@, rv.len());
    }
    if fs.len() < 2 {
        let r: Vec<Finding> = Vec::new();
        assert(near_stages(r@, inputs@, sources@, options, ord@, rv, freq, pos@, fs@, vstd::pervasive::arbitrary::<LshCandidates>(), seq![], seq![]));
        return r;
    }
    let ghost kv = kept@;
    let ghost cv = feature_canon(inputs@, kv, pos@);
    let mut canon: Vec<String> = Vec::new();
    for j in 0..fs.len()
        invariant
            fs@.len() == pos@.len(),
            forall|q: int| 0 <= q < pos@.len() ==> (#[trigger] pos@[q]) < kv.len(),
            forall|i: int|
                0 <= i < kv.len() ==> {
                    let x = #[trigger] kv[i];
                    x < inputs@.len() && near_kept(inputs@[x as int], sources@[x as int], options)
                },
            kv == kept@,
            cv == feature_canon(inputs@, kv, pos@),
            canon@.len() == j,
            forall|q: int| 0 <= q < j ==> (#[trigger] canon@[q])@ == cv[q],
    {
        let x = kept[pos[j]];
        assert(near_kept(inputs@[x as int], sources@[x as int], options));
        match &inputs[x].structure {
            Some(st) => {
                canon.push(st.canonical_hash.clone());
            },
            None => {
                canon.push(String::new());
            },
        }
    }
    assert(text_views(canon@) =~= cv);
    let cands = lsh_candidate_pairs(fs.as_slice(), options);
    let ps = select_pairs(&fs, &canon, &cands, options);
    proof {
        lemma_kept_pairs_bounds(fs@, cv, cands.pairs@, fs@.len() as int, options);
        let m = fs@.len();
        assert(ps@.len() * 256 <= usize::MAX) by (nonlinear_arith)
            requires
                ps@.len() <= m * m,
                m <= n,
                n * n * 256 <= usize::MAX,
        ;
    }
    let mut members: Vec<NearMember> = Vec::new();
    for j in 0..fs.len()
        invariant
            fs@.len() == pos@.len(),
            stmts@.len() == pos@.len(),
            canon@.len() == fs@.len(),
            forall|q: int| 0 <= q < fs@.len() ==> (#[trigger] canon@[q])@ == cv[q],
            forall|q: int| 0 <= q < pos@.len() ==> (#[trigger] pos@[q]) < kv.len(),
            forall|q: int| 0 <= q < pos@.len() ==> (#[trigger] stmts@[q])@ == rv[pos@[q] as int].statements@,
            forall|i: int|
                0 <= i < kv.len() ==> {
                    let x = #[trigger] kv[i];
                    x < inputs@.len() && near_kept(inputs@[x as int], sources@[x as int], options)
                },
            kv == kept@,
            cv == feature_canon(inputs@, kv, pos@),
            members@.len() == j,
            forall|q: int|
                0 <= q < j ==> member_for(#[trigger] members@[q], inputs@[kv[pos@[q] as int] as int], fs@[q], rv[pos@[q] as int].statements@),
    {
        let x = kept[pos[j]];
        let m = NearMember {
            definition: clone_definition(&inputs[x].definition),
            line_count: fs[j].line_count,
            token_count: fs[j].token_count,
            statement_count: fs[j].statement_count,
            feature_hash: feature_hash_exec(&fs[j], &canon[j]),
            statements: clone_statements(&stmts[j]),
        };
        members.push(m);
    }
    let mut es: Vec<(usize, usize)> = Vec::new();
    for k in 0..ps.len()
        invariant
            forall|q: int| 0 <= q < ps@.len() ==> (#[trigger] ps@[q]).left < fs@.len() && ps@[q].right < fs@.len(),
            es@.len() == k,
            forall|q: int| 0 <= q < k ==> #[trigger] es@[q] == (ps@[q].left, ps@[q].right),
    {
        es.push((ps[k].left, ps[k].right));
    }
    assert(es@ =~= pair_edges(ps@));
    let gs = connected_groups(&es, fs.len());
    let ghost gv = gs@.map_values(|g: Vec<usize>| g@);
    let mut out: Vec<Finding> = Vec::new();
    for g in 0..gs.len()
        invariant
            gv == gs@.map_values(|g: Vec<usize>| g@),
            components_of(gv, pair_edges(ps@), fs@.len() as nat),
            members@.len() == fs@.len(),
            ps@.len() * 256 <= usize::MAX,
            out@.len() == g,
            forall|f: int| 0 <= f < g ==> describes_near_group(#[trigger] out@[f], members@, ps@, gv[f], cands),
    {
        assert(gv[g as int] == gs@[g as int]@);
        assert(gv[g as int].len() >= 2);
        let fd = build_near_finding(&members, &ps, &gs[g], &cands);
        out.push(fd);
    }
    assert(near_stages(out@, inputs@, sources@, options, ord@, rv, freq, pos@, fs@, cands, members@, gv));
    out
}

} // verus!
