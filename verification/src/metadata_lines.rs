//! The lines a text report prints about a finding's metadata, one set per kind of
//! duplicate finding.
use vstd::prelude::*;

use crate::baseline_keys::{metadata_get, metadata_lookup, metadata_text, metadata_text_exec, metadata_texts, metadata_texts_exec};
use crate::config::{join_strings, text_views};
use crate::findings::{Finding, FindingKind, MetadataValue};
use crate::metrics::{metadata_usize, spec_metadata_usize};
use crate::symbol_findings::{bool_text, bool_text_exec, push_text};
use crate::text::{chars_of, decimal, spec_decimal, spec_join, string_from_chars};

verus! {

/// One line when `c` holds, else none.
pub open spec fn line_if(c: bool, line: Seq<char>) -> Seq<Seq<char>> {
    if c {
        seq![line]
    } else {
        seq![]
    }
}

/// The flag under `key`, when the value there is one.
pub open spec fn metadata_flag(m: Seq<(String, MetadataValue)>, key: Seq<char>) -> Option<bool> {
    match metadata_get(m, key) {
        Some(MetadataValue::Flag(b)) => Some(b),
        _ => None,
    }
}

/// The first twelve characters of a text.
pub open spec fn short(t: Seq<char>) -> Seq<char> {
    if t.len() <= 12 {
        t
    } else {
        t.take(12)
    }
}

/// `Symbols: a, b` when the finding lists symbol names.
pub open spec fn symbols_line(f: Finding) -> Seq<Seq<char>> {
    let names = metadata_texts(f.metadata@, "symbol_names"@);
    line_if(names.len() > 0, "Symbols: "@ + spec_join(names, ", "@))
}

/// The lines of an exact-body finding.
pub open spec fn exact_body_lines(f: Finding) -> Seq<Seq<char>> {
    let size = spec_metadata_usize(f, "body_size_bytes"@);
    let lines = spec_metadata_usize(f, "line_count"@);
    let tokens = spec_metadata_usize(f, "token_estimate"@);
    let names_differ = metadata_flag(f.metadata@, "names_differ"@);
    let signatures_differ = metadata_flag(f.metadata@, "signatures_differ"@);
    symbols_line(f) + line_if(
        size is Some && lines is Some && tokens is Some,
        "Body: "@ + spec_decimal(size->0 as nat) + " bytes, "@ + spec_decimal(lines->0 as nat) + " lines, ~"@
            + spec_decimal(tokens->0 as nat) + " tokens"@,
    ) + line_if(
        names_differ is Some && signatures_differ is Some,
        "Names differ: "@ + bool_text(names_differ->0) + "; signatures differ: "@ + bool_text(signatures_differ->0),
    )
}

/// The lines of a structural finding.
pub open spec fn structural_lines(f: Finding) -> Seq<Seq<char>> {
    let hash = metadata_text(f.metadata@, "canonical_hash"@);
    let nodes = spec_metadata_usize(f, "node_count"@);
    let opaque = spec_metadata_usize(f, "opaque_node_count"@);
    let names_differ = metadata_flag(f.metadata@, "names_differ"@);
    symbols_line(f) + line_if(hash is Some, "Canonical hash: "@ + short(hash->0)) + line_if(
        nodes is Some && opaque is Some,
        "Canonical AST: "@ + spec_decimal(nodes->0 as nat) + " nodes, "@ + spec_decimal(opaque->0 as nat) + " opaque"@,
    ) + line_if(names_differ is Some, "Names differ: "@ + bool_text(names_differ->0)) + line_if(
        metadata_flag(f.metadata@, "domain_warning"@) == Some(true),
        "Domain warning: same shape can still represent intentionally separate behavior"@,
    )
}

/// The lines of a near-duplicate finding.
pub open spec fn near_lines(f: Finding) -> Seq<Seq<char>> {
    let similarity = spec_metadata_usize(f, "similarity_percent"@);
    let signals = metadata_texts(f.metadata@, "signals"@);
    let skipped = match spec_metadata_usize(f, "skipped_large_buckets"@) {
        Some(n) => n,
        None => 0,
    };
    let reached = metadata_flag(f.metadata@, "candidate_limit_reached"@);
    symbols_line(f) + line_if(similarity is Some, "Similarity: "@ + spec_decimal(similarity->0 as nat) + "%"@)
        + line_if(signals.len() > 0, "Signals: "@ + spec_join(signals, ", "@)) + line_if(
        skipped > 0 || reached == Some(true),
        "Search limits: skipped large buckets: "@ + spec_decimal(skipped as nat) + "; candidate limit reached: "@
            + bool_text(reached == Some(true)),
    )
}

/// The lines of a semantic finding.
pub open spec fn semantic_lines(f: Finding) -> Seq<Seq<char>> {
    let hash = metadata_text(f.metadata@, "semantic_hash"@);
    let rewrites = metadata_texts(f.metadata@, "semantic_rewrites"@);
    let warnings = metadata_texts(f.metadata@, "safety_warnings"@);
    let evidence = metadata_texts(f.metadata@, "type_evidence"@);
    symbols_line(f) + line_if(hash is Some, "Semantic hash: "@ + short(hash->0)) + line_if(
        rewrites.len() > 0,
        "Semantic rewrites: "@ + spec_join(rewrites, ", "@),
    ) + line_if(evidence.len() > 0, "Type evidence: "@ + spec_join(evidence, ", "@)) + line_if(
        warnings.len() > 0,
        "Caveats: "@ + spec_join(warnings, "; "@),
    )
}

/// The lines of a vector candidate finding.
pub open spec fn vector_lines(f: Finding) -> Seq<Seq<char>> {
    let vector = spec_metadata_usize(f, "vector_score"@);
    let rank = spec_metadata_usize(f, "rank_score"@);
    let signals = metadata_texts(f.metadata@, "deterministic_signals"@);
    let provider = metadata_text(f.metadata@, "embedding_provider"@);
    let privacy = metadata_text(f.metadata@, "privacy_mode"@);
    symbols_line(f) + line_if(
        provider is Some && privacy is Some,
        "Embedding provider: "@ + provider->0 + "; privacy: "@ + privacy->0,
    ) + line_if(
        vector is Some && rank is Some,
        "Vector score: "@ + spec_decimal(vector->0 as nat) + "%; rank score: "@ + spec_decimal(rank->0 as nat) + "%"@,
    ) + line_if(signals.len() > 0, "Deterministic signals: "@ + spec_join(signals, ", "@))
}

/// The metadata lines of a finding in the text report: chosen by its rule (exact body,
/// structural, near, semantic, vector candidate), then the scope and score of a
/// duplicate-name finding, then the route of a duplicate FastAPI route; none otherwise.
pub open spec fn spec_metadata_lines(f: Finding) -> Seq<Seq<char>> {
    let r = f.rule_id@;
    let scope = metadata_text(f.metadata@, "scope"@);
    let score = spec_metadata_usize(f, "score"@);
    let route = metadata_text(f.metadata@, "route"@);
    if r == "duplicate.exact.body"@ {
        exact_body_lines(f)
    } else if r == "duplicate.structural.function"@ {
        structural_lines(f)
    } else if r == "duplicate.near.function"@ {
        near_lines(f)
    } else if r == "duplicate.semantic.function"@ {
        semantic_lines(f)
    } else if r == "duplicate.semantic.vector_candidate"@ {
        vector_lines(f)
    } else if f.kind == FindingKind::DuplicateName && scope is Some && score is Some {
        seq!["Scope: "@ + scope->0 + "; duplicate-name score: "@ + spec_decimal(score->0 as nat)]
    } else if r == "fastapi.duplicate.route"@ && route is Some {
        seq!["Route: "@ + route->0]
    } else {
        seq![]
    }
}

fn flag_of(f: &Finding, key: &str) -> (r: Option<bool>)
    ensures
        r == metadata_flag(f.metadata@, key@),
{
    match metadata_lookup(&f.metadata, key) {
        Some(MetadataValue::Flag(b)) => Some(*b),
        _ => None,
    }
}

fn short_exec(t: &String) -> (r: String)
    ensures
        r@ == short(t@),
{
    let c = chars_of(t.as_str());
    if c.len() <= 12 {
        t.clone()
    } else {
        string_from_chars(crate::text::slice_chars(c.as_slice(), 0, 12).as_slice())
    }
}

fn str_is(a: &str, b: &str) -> (r: bool)
    ensures
        r == (a@ == b@),
{
    crate::text::chars_eq(chars_of(a).as_slice(), chars_of(b).as_slice())
}

fn push_line_if(out: &mut Vec<String>, c: bool, line: String)
    ensures
        text_views(final(out)@) == text_views(old(out)@) + line_if(c, line@),
{
    if c {
        push_text(out, line);
    } else {
        assert(text_views(out@) =~= text_views(out@) + line_if(c, line@));
    }
}

fn push_symbols(out: &mut Vec<String>, f: &Finding)
    ensures
        text_views(final(out)@) == text_views(old(out)@) + symbols_line(*f),
{
    let names = metadata_texts_exec(&f.metadata, "symbol_names");
    let mut line = String::from_str("Symbols: ");
    line.append(join_strings(&names, ", ").as_str());
    push_line_if(out, names.len() > 0, line);
}

fn exact_body_lines_exec(f: &Finding) -> (r: Vec<String>)
    ensures
        text_views(r@) == exact_body_lines(*f),
{
    let mut out: Vec<String> = Vec::new();
    push_symbols(&mut out, f);
    let ghost a = text_views(out@);
    let size = metadata_usize(f, "body_size_bytes");
    let lines = metadata_usize(f, "line_count");
    let tokens = metadata_usize(f, "token_estimate");
    match (size, lines, tokens) {
        (Some(s), Some(l), Some(t)) => {
            let mut line = String::from_str("Body: ");
            line.append(decimal(s).as_str());
            line.append(" bytes, ");
            line.append(decimal(l).as_str());
            line.append(" lines, ~");
            line.append(decimal(t).as_str());
            line.append(" tokens");
            push_text(&mut out, line);
        },
        _ => {},
    }
    let ghost b = text_views(out@);
    let names_differ = flag_of(f, "names_differ");
    let signatures_differ = flag_of(f, "signatures_differ");
    match (names_differ, signatures_differ) {
        (Some(n), Some(s)) => {
            let mut line = String::from_str("Names differ: ");
            line.append(bool_text_exec(n));
            line.append("; signatures differ: ");
            line.append(bool_text_exec(s));
            push_text(&mut out, line);
        },
        _ => {},
    }
    proof {
        assert(text_views(out@) =~= exact_body_lines(*f));
    }
    out
}

fn structural_lines_exec(f: &Finding) -> (r: Vec<String>)
    ensures
        text_views(r@) == structural_lines(*f),
{
    let mut out: Vec<String> = Vec::new();
    push_symbols(&mut out, f);
    match metadata_text_exec(&f.metadata, "canonical_hash") {
        Some(h) => {
            let mut line = String::from_str("Canonical hash: ");
            line.append(short_exec(&h).as_str());
            push_text(&mut out, line);
        },
        None => {},
    }
    match (metadata_usize(f, "node_count"), metadata_usize(f, "opaque_node_count")) {
        (Some(n), Some(o)) => {
            let mut line = String::from_str("Canonical AST: ");
            line.append(decimal(n).as_str());
            line.append(" nodes, ");
            line.append(decimal(o).as_str());
            line.append(" opaque");
            push_text(&mut out, line);
        },
        _ => {},
    }
    match flag_of(f, "names_differ") {
        Some(n) => {
            let mut line = String::from_str("Names differ: ");
            line.append(bool_text_exec(n));
            push_text(&mut out, line);
        },
        None => {},
    }
    let warn = match flag_of(f, "domain_warning") {
        Some(true) => true,
        _ => false,
    };
    push_line_if(&mut out, warn, String::from_str("Domain warning: same shape can still represent intentionally separate behavior"));
    proof {
        assert(text_views(out@) =~= structural_lines(*f));
    }
    out
}

fn near_lines_exec(f: &Finding) -> (r: Vec<String>)
    ensures
        text_views(r@) == near_lines(*f),
{
    let mut out: Vec<String> = Vec::new();
    push_symbols(&mut out, f);
    match metadata_usize(f, "similarity_percent") {
        Some(s) => {
            let mut line = String::from_str("Similarity: ");
            line.append(decimal(s).as_str());
            line.append("%");
            push_text(&mut out, line);
        },
        None => {},
    }
    let signals = metadata_texts_exec(&f.metadata, "signals");
    let mut line = String::from_str("Signals: ");
    line.append(join_strings(&signals, ", ").as_str());
    push_line_if(&mut out, signals.len() > 0, line);
    let skipped = match metadata_usize(f, "skipped_large_buckets") {
        Some(n) => n,
        None => 0,
    };
    let reached = match flag_of(f, "candidate_limit_reached") {
        Some(true) => true,
        _ => false,
    };
    let mut limits = String::from_str("Search limits: skipped large buckets: ");
    limits.append(decimal(skipped).as_str());
    limits.append("; candidate limit reached: ");
    limits.append(bool_text_exec(reached));
    push_line_if(&mut out, skipped > 0 || reached, limits);
    proof {
        assert(text_views(out@) =~= near_lines(*f));
    }
    out
}

fn semantic_lines_exec(f: &Finding) -> (r: Vec<String>)
    ensures
        text_views(r@) == semantic_lines(*f),
{
    let mut out: Vec<String> = Vec::new();
    push_symbols(&mut out, f);
    match metadata_text_exec(&f.metadata, "semantic_hash") {
        Some(h) => {
            let mut line = String::from_str("Semantic hash: ");
            line.append(short_exec(&h).as_str());
            push_text(&mut out, line);
        },
        None => {},
    }
    let rewrites = metadata_texts_exec(&f.metadata, "semantic_rewrites");
    let mut line = String::from_str("Semantic rewrites: ");
    line.append(join_strings(&rewrites, ", ").as_str());
    push_line_if(&mut out, rewrites.len() > 0, line);
    let evidence = metadata_texts_exec(&f.metadata, "type_evidence");
    let mut line = String::from_str("Type evidence: ");
    line.append(join_strings(&evidence, ", ").as_str());
    push_line_if(&mut out, evidence.len() > 0, line);
    let warnings = metadata_texts_exec(&f.metadata, "safety_warnings");
    let mut line = String::from_str("Caveats: ");
    line.append(join_strings(&warnings, "; ").as_str());
    push_line_if(&mut out, warnings.len() > 0, line);
    proof {
        assert(text_views(out@) =~= semantic_lines(*f));
    }
    out
}

fn vector_lines_exec(f: &Finding) -> (r: Vec<String>)
    ensures
        text_views(r@) == vector_lines(*f),
{
    let mut out: Vec<String> = Vec::new();
    push_symbols(&mut out, f);
    match (metadata_text_exec(&f.metadata, "embedding_provider"), metadata_text_exec(&f.metadata, "privacy_mode")) {
        (Some(p), Some(q)) => {
            let mut line = String::from_str("Embedding provider: ");
            line.append(p.as_str());
            line.append("; privacy: ");
            line.append(q.as_str());
            push_text(&mut out, line);
        },
        _ => {},
    }
    match (metadata_usize(f, "vector_score"), metadata_usize(f, "rank_score")) {
        (Some(v), Some(k)) => {
            let mut line = String::from_str("Vector score: ");
            line.append(decimal(v).as_str());
            line.append("%; rank score: ");
            line.append(decimal(k).as_str());
            line.append("%");
            push_text(&mut out, line);
        },
        _ => {},
    }
    let signals = metadata_texts_exec(&f.metadata, "deterministic_signals");
    let mut line = String::from_str("Deterministic signals: ");
    line.append(join_strings(&signals, ", ").as_str());
    push_line_if(&mut out, signals.len() > 0, line);
    proof {
        assert(text_views(out@) =~= vector_lines(*f));
    }
    out
}

/// The metadata lines of a finding in the text report.
pub fn metadata_lines(f: &Finding) -> (r: Vec<String>)
    ensures
        text_views(r@) == spec_metadata_lines(*f),
{
    let r = f.rule_id.as_str();
    if str_is(r, "duplicate.exact.body") {
        return exact_body_lines_exec(f);
    }
    if str_is(r, "duplicate.structural.function") {
        return structural_lines_exec(f);
    }
    if str_is(r, "duplicate.near.function") {
        return near_lines_exec(f);
    }
    if str_is(r, "duplicate.semantic.function") {
        return semantic_lines_exec(f);
    }
    if str_is(r, "duplicate.semantic.vector_candidate") {
        return vector_lines_exec(f);
    }
    let mut out: Vec<String> = Vec::new();
    if f.kind == FindingKind::DuplicateName {
        match (metadata_text_exec(&f.metadata, "scope"), metadata_usize(f, "score")) {
            (Some(scope), Some(score)) => {
                let mut line = String::from_str("Scope: ");
                line.append(scope.as_str());
                line.append("; duplicate-name score: ");
                line.append(decimal(score).as_str());
                push_text(&mut out, line);
                return out;
            },
            _ => {},
        }
    }
    if str_is(r, "fastapi.duplicate.route") {
        match metadata_text_exec(&f.metadata, "route") {
            Some(route) => {
                let mut line = String::from_str("Route: ");
                line.append(route.as_str());
                push_text(&mut out, line);
                return out;
            },
            None => {},
        }
    }
    assert(text_views(out@) =~= Seq::<Seq<char>>::empty());
    out
}

} // verus!
