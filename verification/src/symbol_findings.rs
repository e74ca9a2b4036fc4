//! Findings about symbols whose bodies are identical after normalisation. A symbol is
//! described by the plain values the detector reads of its definition.
use vstd::prelude::*;
use vstd::string::StringSliceAdditionalSpecFns;
use vstd::utf8::encode_utf8;

use crate::baseline_keys::{key_set, sorted_distinct};
use crate::config::text_views;
use crate::duplication::{EXACT_BODY_RULE, SEMANTIC_FUNCTION_RULE, STRUCTURAL_FUNCTION_RULE};
use crate::normalize::{spec_token_count, token_estimate};
use crate::findings::{
    AutofixSafety, Confidence, Finding, FindingKind, FindingLocation, Location, MetadataValue, Severity,
    SourceSpan,
};
use crate::hashing::{sha256_hex, spec_hex, spec_sha256};
use crate::text::{chars_of, decimal, join_chars, spec_decimal, spec_join, string_from_chars, views};

verus! {

broadcast use {
    vstd::string::group_string_axioms,
    vstd::std_specs::vec::group_vec_axioms,
};

/// The byte range of a body and the line and column it starts at.
#[derive(Debug, Clone, Copy)]
pub struct BodySpan {
    pub start: usize,
    pub end: usize,
    pub line: usize,
    pub column: usize,
}

/// One parameter of a signature, as written.
#[derive(Debug, Clone)]
pub struct ParameterInfo {
    pub name: String,
    pub type_annotation: Option<String>,
    pub default_value: Option<String>,
}

/// What the duplicate detectors read of a symbol definition.
#[derive(Debug, Clone)]
pub struct DefinitionInfo {
    pub file: String,
    /// The byte offset where the whole definition starts.
    pub span_start: usize,
    pub name: String,
    pub qualified_name: String,
    /// The label of the definition's kind (`function`, `method`, ...).
    pub kind: String,
    /// The label of the definition's language.
    pub language: String,
    /// The framework the definition belongs to, if any.
    pub framework: Option<String>,
    pub body_span: Option<BodySpan>,
    pub is_async: bool,
    pub parameters: Vec<ParameterInfo>,
    pub return_type: Option<String>,
}

/// A symbol body with its sizes and the hash of its normalised text.
#[derive(Debug, Clone)]
pub struct SymbolBody {
    pub definition: DefinitionInfo,
    pub body_size_bytes: usize,
    pub line_count: usize,
    pub token_estimate: usize,
    pub stable_hash: String,
}

/// The text of an optional value, empty when there is none.
pub open spec fn opt_text(o: Option<String>) -> Seq<char> {
    match o {
        Some(s) => s@,
        None => seq![],
    }
}

/// `true` or `false`.
pub open spec fn bool_text(b: bool) -> Seq<char> {
    if b {
        "true"@
    } else {
        "false"@
    }
}

/// A parameter as `name:type=default`.
pub open spec fn parameter_text(p: ParameterInfo) -> Seq<char> {
    p.name@ + ":"@ + opt_text(p.type_annotation) + "="@ + opt_text(p.default_value)
}

/// The key two signatures are compared by: `async(parameters)->return type`.
pub open spec fn spec_signature_key(d: DefinitionInfo) -> Seq<char> {
    bool_text(d.is_async) + "("@ + spec_join(d.parameters@.map_values(|p: ParameterInfo| parameter_text(p)), ","@)
        + ")->"@ + opt_text(d.return_type)
}

/// A symbol as `file:start:qualified name`.
pub open spec fn symbol_id(d: DefinitionInfo) -> Seq<char> {
    d.file@ + ":"@ + spec_decimal(d.span_start as nat) + ":"@ + d.qualified_name@
}

/// The largest of some numbers, 0 for none.
pub open spec fn max_of(s: Seq<usize>) -> nat
    decreases s.len(),
{
    if s.len() == 0 {
        0
    } else if s.last() as nat > max_of(s.drop_last()) {
        s.last() as nat
    } else {
        max_of(s.drop_last())
    }
}

/// The definitions of a group of bodies.
pub open spec fn definitions(group: Seq<SymbolBody>) -> Seq<DefinitionInfo> {
    group.map_values(|b: SymbolBody| b.definition)
}

/// The language every definition shares, if they share one.
pub open spec fn shared_definition_language(ds: Seq<DefinitionInfo>) -> Option<Seq<char>> {
    if ds.len() > 0 && forall|i: int| 0 <= i < ds.len() ==> (#[trigger] ds[i]).language@ == ds[0].language@ {
        Some(ds[0].language@)
    } else {
        None
    }
}

/// The frameworks of the definitions that have one, in order.
pub open spec fn present_frameworks(ds: Seq<DefinitionInfo>) -> Seq<Seq<char>>
    decreases ds.len(),
{
    if ds.len() == 0 {
        seq![]
    } else {
        let earlier = present_frameworks(ds.drop_last());
        match ds.last().framework {
            Some(f) => earlier.push(f@),
            None => earlier,
        }
    }
}

/// The framework of the group when exactly one distinct framework occurs in it.
pub open spec fn shared_definition_framework(ds: Seq<DefinitionInfo>) -> Option<Seq<char>> {
    let set = key_set(present_frameworks(ds));
    if set.len() == 1 {
        Some(set[0].0)
    } else {
        None
    }
}

/// The location reported for one body: the body's byte range and start position.
pub open spec fn body_location(loc: FindingLocation, d: DefinitionInfo) -> bool {
    &&& loc.path@ == d.file@
    &&& loc.span == match d.body_span {
        Some(b) => Some(SourceSpan { start: b.start, end: b.end }),
        None => None,
    }
    &&& loc.start == match d.body_span {
        Some(b) => Some(Location { line: b.line, column: b.column, byte_offset: b.start }),
        None => None,
    }
    &&& (loc.language matches Some(l) && l@ == d.language@)
}

/// The stable key of an exact-body finding: the SHA-256 hex of the rule, the body
/// hash and the symbols, joined by `|`.
pub open spec fn exact_body_key(group: Seq<SymbolBody>) -> Seq<char> {
    spec_hex(
        spec_sha256(
            encode_utf8(
                EXACT_BODY_RULE@ + "|"@ + group[0].stable_hash@ + "|"@ + spec_join(
                    definitions(group).map_values(|d: DefinitionInfo| symbol_id(d)),
                    "|"@,
                ),
            ),
        ),
    )
}

/// The explanation of an exact-body finding.
pub open spec fn exact_body_explanation(body_size: nat, lines: nat, tokens: nat, names_differ: bool, signatures_differ: bool) -> Seq<char> {
    "These symbols have the same normalized body after comments and whitespace are removed. Body size: "@
        + spec_decimal(body_size) + " bytes, lines: "@ + spec_decimal(lines) + ", token estimate: "@ + spec_decimal(
        tokens,
    ) + ". Names differ: "@ + bool_text(names_differ) + ". Signatures differ: "@ + bool_text(signatures_differ)
        + "."@
}

/// A list of texts in the order of the distinct keys of `keys`.
pub open spec fn lists_key_set(v: MetadataValue, keys: Seq<Seq<char>>) -> bool {
    &&& v matches MetadataValue::TextList(l)
    &&& l@.map_values(|k: String| (k@, ())) == key_set(keys)
}

/// `fd` is the finding for a group of symbols with identical normalised bodies: its
/// key and id, message, one location per body in order, the shared language and
/// framework, and metadata (in key order) with the largest sizes, the distinct names
/// and kinds, and whether names and signatures differ.
pub open spec fn describes_exact_body(fd: Finding, group: Seq<SymbolBody>) -> bool {
    let ds = definitions(group);
    let body_size = max_of(group.map_values(|b: SymbolBody| b.body_size_bytes));
    let lines = max_of(group.map_values(|b: SymbolBody| b.line_count));
    let tokens = max_of(group.map_values(|b: SymbolBody| b.token_estimate));
    let names = ds.map_values(|d: DefinitionInfo| d.name@);
    let kinds = ds.map_values(|d: DefinitionInfo| d.kind@);
    let names_differ = key_set(names).len() > 1;
    let signatures_differ = key_set(ds.map_values(|d: DefinitionInfo| spec_signature_key(d))).len() > 1;
    &&& fd.rule_id@ == EXACT_BODY_RULE@
    &&& fd.kind == FindingKind::ExactDuplicate
    &&& fd.severity == Severity::High
    &&& fd.confidence == Confidence::Certain
    &&& fd.autofix == AutofixSafety::SuggestionOnly
    &&& fd.baseline_key@ == exact_body_key(group)
    &&& fd.finding_id@ == EXACT_BODY_RULE@ + ":"@ + fd.baseline_key@.take(12)
    &&& fd.message@ == spec_decimal(group.len()) + " symbols have identical normalized bodies."@
    &&& fd.locations@.len() == group.len()
    &&& forall|l: int| 0 <= l < group.len() ==> body_location(#[trigger] fd.locations@[l], group[l].definition)
    &&& opt_view(fd.language) == shared_definition_language(ds)
    &&& opt_view(fd.framework) == shared_definition_framework(ds)
    &&& fd.explanation@ == exact_body_explanation(body_size, lines, tokens, names_differ, signatures_differ)
    &&& fd.remediation@
        == "Extract a shared helper, remove the duplicate, export an alias, or keep the duplication with a suppression comment if it is intentional."@
    &&& fd.detection_reason@
        == "The detector hashed normalized symbol bodies and grouped definitions with the same stable hash."@
    &&& fd.autofix_explanation@
        == "Exact body duplicates are not auto-fixed because extracting shared logic can change APIs, ownership, imports, and behavior around side effects."@
    &&& fd.fixes@.len() == 0
    &&& !fd.is_suppressed
    &&& fd.suppression is None
    &&& fd.metadata@.len() == 8
    &&& fd.metadata@[0].0@ == "body_size_bytes"@ && fd.metadata@[0].1 == MetadataValue::Number(body_size as u64)
    &&& fd.metadata@[1].0@ == "definition_kinds"@ && lists_key_set(fd.metadata@[1].1, kinds)
    &&& fd.metadata@[2].0@ == "line_count"@ && fd.metadata@[2].1 == MetadataValue::Number(lines as u64)
    &&& fd.metadata@[3].0@ == "names_differ"@ && fd.metadata@[3].1 == MetadataValue::Flag(names_differ)
    &&& fd.metadata@[4].0@ == "normalized_body_hash"@
    &&& fd.metadata@[4].1 matches MetadataValue::Text(h) && h@ == group[0].stable_hash@
    &&& fd.metadata@[5].0@ == "signatures_differ"@ && fd.metadata@[5].1 == MetadataValue::Flag(signatures_differ)
    &&& fd.metadata@[6].0@ == "symbol_names"@ && lists_key_set(fd.metadata@[6].1, names)
    &&& fd.metadata@[7].0@ == "token_estimate"@ && fd.metadata@[7].1 == MetadataValue::Number(tokens as u64)
}

/// The view of an optional text.
pub open spec fn opt_view(o: Option<String>) -> Option<Seq<char>> {
    match o {
        Some(s) => Some(s@),
        None => None,
    }
}

fn opt_text_exec(o: &Option<String>) -> (r: String)
    ensures
        r@ == opt_text(*o),
{
    match o {
        Some(s) => s.clone(),
        None => String::new(),
    }
}

pub(crate) fn bool_text_exec(b: bool) -> (r: &'static str)
    ensures
        r@ == bool_text(b),
{
    if b {
        "true"
    } else {
        "false"
    }
}

/// The key two signatures are compared by: `async(parameters)->return type`, each
/// parameter written `name:type=default`.
pub fn signature_key(d: &DefinitionInfo) -> (r: String)
    ensures
        r@ == spec_signature_key(*d),
{
    let mut parts: Vec<Vec<char>> = Vec::new();
    for i in 0..d.parameters.len()
        invariant
            views(parts@) == d.parameters@.take(i as int).map_values(|p: ParameterInfo| parameter_text(p)),
    {
        let p = &d.parameters[i];
        let mut text = p.name.clone();
        text.append(":");
        text.append(opt_text_exec(&p.type_annotation).as_str());
        text.append("=");
        text.append(opt_text_exec(&p.default_value).as_str());
        let ghost before = parts@;
        parts.push(chars_of(text.as_str()));
        assert(text@ =~= parameter_text(d.parameters@[i as int]));
        assert(views(parts@) =~= views(before).push(text@));
        assert(d.parameters@.take(i + 1).map_values(|p: ParameterInfo| parameter_text(p)) =~= d.parameters@.take(
            i as int,
        ).map_values(|p: ParameterInfo| parameter_text(p)).push(parameter_text(d.parameters@[i as int])));
    }
    assert(d.parameters@.take(d.parameters@.len() as int) =~= d.parameters@);
    let comma: Vec<char> = vec![','];
    proof {
        reveal_strlit(",");
        assert(comma@ =~= ","@);
    }
    let joined = string_from_chars(join_chars(&parts, comma.as_slice()).as_slice());
    let mut r = String::from_str(bool_text_exec(d.is_async));
    r.append("(");
    r.append(joined.as_str());
    r.append(")->");
    r.append(opt_text_exec(&d.return_type).as_str());
    proof {
        assert(r@ =~= spec_signature_key(*d));
    }
    r
}

pub(crate) fn symbol_id_exec(d: &DefinitionInfo) -> (r: Vec<char>)
    ensures
        r@ == symbol_id(*d),
{
    let mut text = d.file.clone();
    text.append(":");
    text.append(decimal(d.span_start).as_str());
    text.append(":");
    text.append(d.qualified_name.as_str());
    proof {
        assert(text@ =~= symbol_id(*d));
    }
    chars_of(text.as_str())
}

pub(crate) fn body_location_exec(d: &DefinitionInfo) -> (r: FindingLocation)
    ensures
        body_location(r, *d),
{
    FindingLocation {
        path: d.file.clone(),
        span: match d.body_span {
            Some(b) => Some(SourceSpan { start: b.start, end: b.end }),
            None => None,
        },
        start: match d.body_span {
            Some(b) => Some(Location { line: b.line, column: b.column, byte_offset: b.start }),
            None => None,
        },
        language: Some(d.language.clone()),
    }
}

pub(crate) fn push_text(out: &mut Vec<String>, s: String)
    ensures
        text_views(final(out)@) == text_views(old(out)@).push(s@),
{
    let ghost before = out@;
    out.push(s);
    assert(out@ == before.push(s));
    assert(text_views(out@) =~= text_views(before).push(s@));
}

/// What one pass over a group collects.
struct GroupFacts {
    ids: Vec<Vec<char>>,
    names: Vec<String>,
    kinds: Vec<String>,
    signatures: Vec<String>,
    frameworks: Vec<String>,
    locations: Vec<FindingLocation>,
    body_size: usize,
    lines: usize,
    tokens: usize,
    same_language: bool,
}

fn collect_group_facts(group: &Vec<SymbolBody>) -> (r: GroupFacts)
    requires
        group@.len() > 0,
    ensures
        views(r.ids@) == definitions(group@).map_values(|d: DefinitionInfo| symbol_id(d)),
        text_views(r.names@) == definitions(group@).map_values(|d: DefinitionInfo| d.name@),
        text_views(r.kinds@) == definitions(group@).map_values(|d: DefinitionInfo| d.kind@),
        text_views(r.signatures@) == definitions(group@).map_values(|d: DefinitionInfo| spec_signature_key(d)),
        text_views(r.frameworks@) == present_frameworks(definitions(group@)),
        r.locations@.len() == group@.len(),
        forall|l: int| 0 <= l < group@.len() ==> body_location(#[trigger] r.locations@[l], group@[l].definition),
        r.body_size == max_of(group@.map_values(|b: SymbolBody| b.body_size_bytes)),
        r.lines == max_of(group@.map_values(|b: SymbolBody| b.line_count)),
        r.tokens == max_of(group@.map_values(|b: SymbolBody| b.token_estimate)),
        r.same_language == (shared_definition_language(definitions(group@)) is Some),
{
    let mut f = GroupFacts {
        ids: Vec::new(),
        names: Vec::new(),
        kinds: Vec::new(),
        signatures: Vec::new(),
        frameworks: Vec::new(),
        locations: Vec::new(),
        body_size: 0,
        lines: 0,
        tokens: 0,
        same_language: true,
    };
    for i in 0..group.len()
        invariant
            group@.len() > 0,
            views(f.ids@) == definitions(group@.take(i as int)).map_values(|d: DefinitionInfo| symbol_id(d)),
            text_views(f.names@) == definitions(group@.take(i as int)).map_values(|d: DefinitionInfo| d.name@),
            text_views(f.kinds@) == definitions(group@.take(i as int)).map_values(|d: DefinitionInfo| d.kind@),
            text_views(f.signatures@) == definitions(group@.take(i as int)).map_values(
                |d: DefinitionInfo| spec_signature_key(d),
            ),
            text_views(f.frameworks@) == present_frameworks(definitions(group@.take(i as int))),
            f.locations@.len() == i,
            forall|l: int| 0 <= l < i ==> body_location(#[trigger] f.locations@[l], group@[l].definition),
            f.body_size == max_of(group@.take(i as int).map_values(|b: SymbolBody| b.body_size_bytes)),
            f.lines == max_of(group@.take(i as int).map_values(|b: SymbolBody| b.line_count)),
            f.tokens == max_of(group@.take(i as int).map_values(|b: SymbolBody| b.token_estimate)),
            f.same_language == (forall|j: int|
                0 <= j < i ==> (#[trigger] group@[j]).definition.language@ == group@[0].definition.language@),
    {
        let b = &group[i];
        let d = &b.definition;
        let ghost prefix = group@.take(i as int);
        let ghost next = group@.take(i + 1);
        assert(next.drop_last() =~= prefix);
        assert(next.last() == group@[i as int]);
        assert(definitions(next) =~= definitions(prefix).push(*d));
        let ghost ids0 = f.ids@;
        f.ids.push(symbol_id_exec(d));
        assert(views(f.ids@) =~= views(ids0).push(symbol_id(*d)));
        assert(definitions(next).map_values(|d: DefinitionInfo| symbol_id(d)) =~= definitions(prefix).map_values(
            |d: DefinitionInfo| symbol_id(d),
        ).push(symbol_id(*d)));
        push_text(&mut f.names, d.name.clone());
        assert(definitions(next).map_values(|d: DefinitionInfo| d.name@) =~= definitions(prefix).map_values(
            |d: DefinitionInfo| d.name@,
        ).push(d.name@));
        push_text(&mut f.kinds, d.kind.clone());
        assert(definitions(next).map_values(|d: DefinitionInfo| d.kind@) =~= definitions(prefix).map_values(
            |d: DefinitionInfo| d.kind@,
        ).push(d.kind@));
        push_text(&mut f.signatures, signature_key(d));
        assert(definitions(next).map_values(|d: DefinitionInfo| spec_signature_key(d)) =~= definitions(
            prefix,
        ).map_values(|d: DefinitionInfo| spec_signature_key(d)).push(spec_signature_key(*d)));
        assert(definitions(next).drop_last() =~= definitions(prefix));
        match &d.framework {
            Some(fw) => {
                push_text(&mut f.frameworks, fw.clone());
            },
            None => {},
        }
        f.locations.push(body_location_exec(d));
        assert(next.map_values(|b: SymbolBody| b.body_size_bytes).drop_last() =~= prefix.map_values(
            |b: SymbolBody| b.body_size_bytes,
        ));
        assert(next.map_values(|b: SymbolBody| b.line_count).drop_last() =~= prefix.map_values(
            |b: SymbolBody| b.line_count,
        ));
        assert(next.map_values(|b: SymbolBody| b.token_estimate).drop_last() =~= prefix.map_values(
            |b: SymbolBody| b.token_estimate,
        ));
        if b.body_size_bytes > f.body_size {
            f.body_size = b.body_size_bytes;
        }
        if b.line_count > f.lines {
            f.lines = b.line_count;
        }
        if b.token_estimate > f.tokens {
            f.tokens = b.token_estimate;
        }
        if !crate::text::chars_eq(chars_of(d.language.as_str()).as_slice(), chars_of(group[0].definition.language.as_str()).as_slice()) {
            f.same_language = false;
        }
    }
    assert(group@.take(group@.len() as int) =~= group@);
    proof {
        let ds = definitions(group@);
        assert forall|j: int| 0 <= j < ds.len() implies (#[trigger] ds[j]).language@ == ds[0].language@
            <== f.same_language by {
            assert(ds[j] == group@[j].definition);
        }
        if !f.same_language {
            let j = choose|j: int| 0 <= j < group@.len() && (#[trigger] group@[j]).definition.language@
                != group@[0].definition.language@;
            assert(ds[j] == group@[j].definition);
        }
    }
    f
}

/// Builds the finding for a group of symbols with identical normalised bodies, listed
/// in the order they are reported.
pub fn build_exact_body_finding(group: &Vec<SymbolBody>) -> (r: Finding)
    requires
        group@.len() > 0,
    ensures
        describes_exact_body(r, group@),
{
    let facts = collect_group_facts(group);
    let stable_hash = &group[0].stable_hash;
    let bar: Vec<char> = vec!['|'];
    proof {
        reveal_strlit("|");
        assert(bar@ =~= "|"@);
    }
    let symbols = string_from_chars(join_chars(&facts.ids, bar.as_slice()).as_slice());
    let mut raw = String::from_str(EXACT_BODY_RULE);
    raw.append("|");
    raw.append(stable_hash.as_str());
    raw.append("|");
    raw.append(symbols.as_str());
    proof {
        assert(raw@ =~= EXACT_BODY_RULE@ + "|"@ + group@[0].stable_hash@ + "|"@ + spec_join(
            definitions(group@).map_values(|d: DefinitionInfo| symbol_id(d)),
            "|"@,
        ));
    }
    let baseline_key = sha256_hex(raw.as_str());
    let key_chars = chars_of(baseline_key.as_str());
    let prefix = string_from_chars(crate::text::slice_chars(key_chars.as_slice(), 0, 12).as_slice());
    let mut finding_id = String::from_str(EXACT_BODY_RULE);
    finding_id.append(":");
    finding_id.append(prefix.as_str());
    proof {
        assert(finding_id@ =~= EXACT_BODY_RULE@ + ":"@ + baseline_key@.take(12));
    }
    let names = sorted_distinct(&facts.names);
    let kinds = sorted_distinct(&facts.kinds);
    let signatures = sorted_distinct(&facts.signatures);
    let frameworks = sorted_distinct(&facts.frameworks);
    proof {
        assert(names@.map_values(|k: String| (k@, ())).len() == names@.len());
        assert(signatures@.map_values(|k: String| (k@, ())).len() == signatures@.len());
        assert(frameworks@.map_values(|k: String| (k@, ())).len() == frameworks@.len());
    }
    let names_differ = names.len() > 1;
    let signatures_differ = signatures.len() > 1;
    let framework = if frameworks.len() == 1 {
        proof {
            assert(frameworks@.map_values(|k: String| (k@, ()))[0] == (frameworks@[0]@, ()));
        }
        Some(frameworks[0].clone())
    } else {
        None
    };
    let language = if facts.same_language {
        Some(group[0].definition.language.clone())
    } else {
        None
    };
    let mut message = decimal(group.len());
    message.append(" symbols have identical normalized bodies.");
    let mut explanation = String::from_str(
        "These symbols have the same normalized body after comments and whitespace are removed. Body size: ",
    );
    explanation.append(decimal(facts.body_size).as_str());
    explanation.append(" bytes, lines: ");
    explanation.append(decimal(facts.lines).as_str());
    explanation.append(", token estimate: ");
    explanation.append(decimal(facts.tokens).as_str());
    explanation.append(". Names differ: ");
    explanation.append(bool_text_exec(names_differ));
    explanation.append(". Signatures differ: ");
    explanation.append(bool_text_exec(signatures_differ));
    explanation.append(".");
    proof {
        assert(explanation@ =~= exact_body_explanation(
            facts.body_size as nat,
            facts.lines as nat,
            facts.tokens as nat,
            names_differ,
            signatures_differ,
        ));
    }
    let mut metadata: Vec<(String, MetadataValue)> = Vec::new();
    metadata.push((String::from_str("body_size_bytes"), MetadataValue::Number(facts.body_size as u64)));
    metadata.push((String::from_str("definition_kinds"), MetadataValue::TextList(kinds)));
    metadata.push((String::from_str("line_count"), MetadataValue::Number(facts.lines as u64)));
    metadata.push((String::from_str("names_differ"), MetadataValue::Flag(names_differ)));
    metadata.push((String::from_str("normalized_body_hash"), MetadataValue::Text(stable_hash.clone())));
    metadata.push((String::from_str("signatures_differ"), MetadataValue::Flag(signatures_differ)));
    metadata.push((String::from_str("symbol_names"), MetadataValue::TextList(names)));
    metadata.push((String::from_str("token_estimate"), MetadataValue::Number(facts.tokens as u64)));
    Finding {
        finding_id,
        baseline_key,
        rule_id: String::from_str(EXACT_BODY_RULE),
        kind: FindingKind::ExactDuplicate,
        severity: Severity::High,
        confidence: Confidence::Certain,
        message,
        locations: facts.locations,
        language,
        framework,
        explanation,
        remediation: String::from_str(
            "Extract a shared helper, remove the duplicate, export an alias, or keep the duplication with a suppression comment if it is intentional.",
        ),
        detection_reason: String::from_str(
            "The detector hashed normalized symbol bodies and grouped definitions with the same stable hash.",
        ),
        autofix: AutofixSafety::SuggestionOnly,
        autofix_explanation: String::from_str(
            "Exact body duplicates are not auto-fixed because extracting shared logic can change APIs, ownership, imports, and behavior around side effects.",
        ),
        fixes: Vec::new(),
        metadata,
        is_suppressed: false,
        suppression: None,
    }
}

/// A definition with its conservative semantic fingerprint.
#[derive(Debug, Clone)]
pub struct SemanticBody {
    pub definition: DefinitionInfo,
    pub line_count: usize,
    pub stable_hash: String,
    pub version: String,
    /// The serialised normalised form the fingerprint hashes.
    pub serialization: String,
    pub confidence: Confidence,
    pub rewrites: Vec<String>,
    pub skipped_rewrites: Vec<String>,
    pub safety_warnings: Vec<String>,
    pub type_evidence: Vec<String>,
    /// The canonical structural hash of the definition, when it has one.
    pub structural_hash: Option<String>,
}

/// The definitions of a group of semantic fingerprints.
pub open spec fn semantic_definitions(group: Seq<SemanticBody>) -> Seq<DefinitionInfo> {
    group.map_values(|b: SemanticBody| b.definition)
}

/// The lowest confidence of a group, `Medium` for none.
pub open spec fn min_confidence(cs: Seq<Confidence>) -> Confidence
    decreases cs.len(),
{
    if cs.len() == 0 {
        Confidence::Medium
    } else if cs.len() == 1 || cs.last().spec_rank() < min_confidence(cs.drop_last()).spec_rank() {
        cs.last()
    } else {
        min_confidence(cs.drop_last())
    }
}

/// All the texts of several lists, in order.
pub open spec fn all_texts(lists: Seq<Seq<Seq<char>>>) -> Seq<Seq<char>>
    decreases lists.len(),
{
    if lists.len() == 0 {
        seq![]
    } else {
        all_texts(lists.drop_last()) + lists.last()
    }
}

/// The structural hashes present in a group, in order.
pub open spec fn present_structural_hashes(group: Seq<SemanticBody>) -> Seq<Seq<char>>
    decreases group.len(),
{
    if group.len() == 0 {
        seq![]
    } else {
        let earlier = present_structural_hashes(group.drop_last());
        match group.last().structural_hash {
            Some(h) => earlier.push(h@),
            None => earlier,
        }
    }
}

/// The signals of a semantic finding before sorting: the shared fingerprint, each
/// rewrite, differing structural hashes, and typed evidence when the confidence is at
/// least high.
pub open spec fn semantic_signal_list(rewrites: Seq<Seq<char>>, confidence: Confidence, distinct_hashes: nat) -> Seq<Seq<char>> {
    seq!["same_semantic_fingerprint"@] + rewrites.map_values(|r: Seq<char>| "rewrite:"@ + r) + (if distinct_hashes > 1 {
        seq!["different_structural_hashes"@]
    } else {
        seq![]
    }) + (if confidence.spec_rank() >= 2 {
        seq!["typed_or_derived_evidence"@]
    } else {
        seq![]
    })
}

/// `fd` is the finding for a group of definitions that share a semantic fingerprint.
pub open spec fn describes_semantic_group(fd: Finding, group: Seq<SemanticBody>) -> bool {
    let ds = semantic_definitions(group);
    let confidence = min_confidence(group.map_values(|b: SemanticBody| b.confidence));
    let rewrites = key_set(all_texts(group.map_values(|b: SemanticBody| text_views(b.rewrites@))));
    let hashes = key_set(present_structural_hashes(group));
    &&& fd.rule_id@ == SEMANTIC_FUNCTION_RULE@
    &&& fd.kind == FindingKind::SemanticCandidate
    &&& fd.severity == Severity::Medium
    &&& fd.confidence == confidence
    &&& fd.autofix == AutofixSafety::SuggestionOnly
    &&& fd.baseline_key@ == spec_hex(
        spec_sha256(
            encode_utf8(
                SEMANTIC_FUNCTION_RULE@ + "|"@ + group[0].stable_hash@ + "|"@ + spec_join(
                    ds.map_values(|d: DefinitionInfo| symbol_id(d)),
                    "|"@,
                ),
            ),
        ),
    )
    &&& fd.finding_id@ == SEMANTIC_FUNCTION_RULE@ + ":"@ + fd.baseline_key@.take(12)
    &&& fd.message@ == spec_decimal(group.len()) + " definitions share a conservative semantic fingerprint."@
    &&& fd.locations@.len() == group.len()
    &&& forall|l: int| 0 <= l < group.len() ==> body_location(#[trigger] fd.locations@[l], group[l].definition)
    &&& opt_view(fd.language) == shared_definition_language(ds)
    &&& opt_view(fd.framework) == shared_definition_framework(ds)
    &&& fd.fixes@.len() == 0
    &&& !fd.is_suppressed
    &&& fd.suppression is None
    &&& fd.explanation@
        == "These definitions normalize to the same conservative semantic fingerprint after safe rewrites such as typed numeric operand ordering, equality operand ordering, comparison inversion, or boolean-return simplification. This is a semantic clone signal, not proof of identical runtime behavior."@
    &&& fd.remediation@
        == "Compare the intent and edge cases, then extract a shared helper, consolidate validation, keep the definitions separate with documentation, or suppress intentional duplication with a reason."@
    &&& fd.detection_reason@
        == "The detector applied only conservative semantic rewrites and grouped definitions by the resulting stable semantic hash. Unsafe rewrites involving calls, awaits, mutation, property reads, macros, unsafe blocks, or unproven dynamic operators are skipped."@
    &&& fd.autofix_explanation@
        == "Semantic duplicate candidates are not auto-fixed because refactoring can change APIs, imports, side effects, ownership, async behavior, and domain boundaries."@
    &&& fd.metadata@.len() == 14
    &&& fd.metadata@[0].0@ == "canonical_hashes"@
    &&& lists_key_set(fd.metadata@[0].1, present_structural_hashes(group))
    &&& fd.metadata@[1].0@ == "confidence_floor"@
    &&& (fd.metadata@[1].1 matches MetadataValue::Text(t) && t@ == confidence.label_spec())
    &&& fd.metadata@[2].0@ == "definition_kinds"@
    &&& lists_key_set(fd.metadata@[2].1, ds.map_values(|d: DefinitionInfo| d.kind@))
    &&& fd.metadata@[3].0@ == "line_count"@
    &&& fd.metadata@[3].1 == MetadataValue::Number(max_of(group.map_values(|b: SemanticBody| b.line_count)) as u64)
    &&& fd.metadata@[4].0@ == "qualified_names"@
    &&& (fd.metadata@[4].1 matches MetadataValue::TextList(l) && text_views(l@) == ds.map_values(
        |d: DefinitionInfo| d.qualified_name@,
    ))
    &&& fd.metadata@[5].0@ == "safety_warnings"@
    &&& lists_key_set(fd.metadata@[5].1, all_texts(group.map_values(|b: SemanticBody| text_views(b.safety_warnings@))))
    &&& fd.metadata@[6].0@ == "semantic_hash"@
    &&& (fd.metadata@[6].1 matches MetadataValue::Text(t) && t@ == group[0].stable_hash@)
    &&& fd.metadata@[7].0@ == "semantic_rewrites"@
    &&& lists_key_set(fd.metadata@[7].1, all_texts(group.map_values(|b: SemanticBody| text_views(b.rewrites@))))
    &&& fd.metadata@[8].0@ == "semantic_version"@
    &&& (fd.metadata@[8].1 matches MetadataValue::Text(t) && t@ == group[0].version@)
    &&& fd.metadata@[9].0@ == "signals"@
    &&& lists_key_set(
        fd.metadata@[9].1,
        semantic_signal_list(rewrites.map_values(|e: (Seq<char>, ())| e.0), confidence, hashes.len()),
    )
    &&& fd.metadata@[10].0@ == "skipped_rewrites"@
    &&& lists_key_set(fd.metadata@[10].1, all_texts(group.map_values(|b: SemanticBody| text_views(b.skipped_rewrites@))))
    &&& fd.metadata@[11].0@ == "symbol_names"@
    &&& lists_key_set(fd.metadata@[11].1, ds.map_values(|d: DefinitionInfo| d.name@))
    &&& fd.metadata@[12].0@ == "token_estimate"@
    &&& fd.metadata@[12].1 == MetadataValue::Number(
        max_of(group.map_values(|b: SemanticBody| spec_token_count(b.serialization@) as usize)) as u64,
    )
    &&& fd.metadata@[13].0@ == "type_evidence"@
    &&& lists_key_set(fd.metadata@[13].1, all_texts(group.map_values(|b: SemanticBody| text_views(b.type_evidence@))))
}

/// What one pass over a semantic group collects.
struct SemanticFacts {
    ids: Vec<Vec<char>>,
    names: Vec<String>,
    qualified: Vec<String>,
    kinds: Vec<String>,
    frameworks: Vec<String>,
    locations: Vec<FindingLocation>,
    same_language: bool,
    lines: usize,
    tokens: usize,
    confidence: Confidence,
    rewrites: Vec<String>,
    skipped: Vec<String>,
    warnings: Vec<String>,
    evidence: Vec<String>,
    hashes: Vec<String>,
}

/// The facts of the first `i` members of a group.
spec fn semantic_facts_upto(f: SemanticFacts, group: Seq<SemanticBody>, i: int) -> bool {
    let prefix = group.take(i);
    let ds = semantic_definitions(prefix);
    &&& views(f.ids@) == ds.map_values(|d: DefinitionInfo| symbol_id(d))
    &&& text_views(f.names@) == ds.map_values(|d: DefinitionInfo| d.name@)
    &&& text_views(f.qualified@) == ds.map_values(|d: DefinitionInfo| d.qualified_name@)
    &&& text_views(f.kinds@) == ds.map_values(|d: DefinitionInfo| d.kind@)
    &&& text_views(f.frameworks@) == present_frameworks(ds)
    &&& f.locations@.len() == i
    &&& (forall|l: int| 0 <= l < i ==> body_location(#[trigger] f.locations@[l], group[l].definition))
    &&& f.same_language == (forall|j: int|
        0 <= j < i ==> (#[trigger] group[j]).definition.language@ == group[0].definition.language@)
    &&& f.lines == max_of(prefix.map_values(|b: SemanticBody| b.line_count))
    &&& f.tokens == max_of(prefix.map_values(|b: SemanticBody| spec_token_count(b.serialization@) as usize))
    &&& f.confidence == min_confidence(prefix.map_values(|b: SemanticBody| b.confidence))
    &&& text_views(f.rewrites@) == all_texts(prefix.map_values(|b: SemanticBody| text_views(b.rewrites@)))
    &&& text_views(f.skipped@) == all_texts(prefix.map_values(|b: SemanticBody| text_views(b.skipped_rewrites@)))
    &&& text_views(f.warnings@) == all_texts(prefix.map_values(|b: SemanticBody| text_views(b.safety_warnings@)))
    &&& text_views(f.evidence@) == all_texts(prefix.map_values(|b: SemanticBody| text_views(b.type_evidence@)))
    &&& text_views(f.hashes@) == present_structural_hashes(prefix)
}

fn append_texts(out: &mut Vec<String>, items: &Vec<String>)
    ensures
        text_views(final(out)@) == text_views(old(out)@) + text_views(items@),
{
    let ghost start = text_views(out@);
    for i in 0..items.len()
        invariant
            text_views(out@) == start + text_views(items@.take(i as int)),
    {
        push_text(out, items[i].clone());
        assert(text_views(items@.take(i + 1)) =~= text_views(items@.take(i as int)).push(items@[i as int]@));
        assert(text_views(out@) =~= start + text_views(items@.take(i + 1)));
    }
    assert(items@.take(items@.len() as int) =~= items@);
}

fn push_semantic_member(f: &mut SemanticFacts, group: &Vec<SemanticBody>, i: usize)
    requires
        0 < group@.len(),
        i < group@.len(),
        semantic_facts_upto(*old(f), group@, i as int),
    ensures
        semantic_facts_upto(*final(f), group@, i + 1),
{
    let b = &group[i];
    let d = &b.definition;
    let ghost prefix = group@.take(i as int);
    let ghost next = group@.take(i + 1);
    assert(next.drop_last() =~= prefix);
    assert(next.last() == group@[i as int]);
    assert(semantic_definitions(next) =~= semantic_definitions(prefix).push(*d));
    let ghost ids0 = f.ids@;
    f.ids.push(symbol_id_exec(d));
    assert(views(f.ids@) =~= views(ids0).push(symbol_id(*d)));
    assert(semantic_definitions(next).map_values(|d: DefinitionInfo| symbol_id(d)) =~= semantic_definitions(
        prefix,
    ).map_values(|d: DefinitionInfo| symbol_id(d)).push(symbol_id(*d)));
    push_text(&mut f.names, d.name.clone());
    assert(semantic_definitions(next).map_values(|d: DefinitionInfo| d.name@) =~= semantic_definitions(
        prefix,
    ).map_values(|d: DefinitionInfo| d.name@).push(d.name@));
    push_text(&mut f.qualified, d.qualified_name.clone());
    assert(semantic_definitions(next).map_values(|d: DefinitionInfo| d.qualified_name@) =~= semantic_definitions(
        prefix,
    ).map_values(|d: DefinitionInfo| d.qualified_name@).push(d.qualified_name@));
    push_text(&mut f.kinds, d.kind.clone());
    assert(semantic_definitions(next).map_values(|d: DefinitionInfo| d.kind@) =~= semantic_definitions(
        prefix,
    ).map_values(|d: DefinitionInfo| d.kind@).push(d.kind@));
    assert(semantic_definitions(next).drop_last() =~= semantic_definitions(prefix));
    match &d.framework {
        Some(fw) => {
            push_text(&mut f.frameworks, fw.clone());
        },
        None => {},
    }
    f.locations.push(body_location_exec(d));
    assert(next.map_values(|b: SemanticBody| b.line_count).drop_last() =~= prefix.map_values(
        |b: SemanticBody| b.line_count,
    ));
    assert(next.map_values(|b: SemanticBody| spec_token_count(b.serialization@) as usize).drop_last() =~= prefix.map_values(
        |b: SemanticBody| spec_token_count(b.serialization@) as usize,
    ));
    assert(next.map_values(|b: SemanticBody| b.confidence).drop_last() =~= prefix.map_values(
        |b: SemanticBody| b.confidence,
    ));
    if b.line_count > f.lines {
        f.lines = b.line_count;
    }
    let tokens = token_estimate(b.serialization.as_str());
    if tokens > f.tokens {
        f.tokens = tokens;
    }
    if i == 0 || b.confidence.rank() < f.confidence.rank() {
        f.confidence = b.confidence;
    }
    append_texts(&mut f.rewrites, &b.rewrites);
    append_texts(&mut f.skipped, &b.skipped_rewrites);
    append_texts(&mut f.warnings, &b.safety_warnings);
    append_texts(&mut f.evidence, &b.type_evidence);
    assert(next.map_values(|b: SemanticBody| text_views(b.rewrites@)).drop_last() =~= prefix.map_values(
        |b: SemanticBody| text_views(b.rewrites@),
    ));
    assert(next.map_values(|b: SemanticBody| text_views(b.skipped_rewrites@)).drop_last() =~= prefix.map_values(
        |b: SemanticBody| text_views(b.skipped_rewrites@),
    ));
    assert(next.map_values(|b: SemanticBody| text_views(b.safety_warnings@)).drop_last() =~= prefix.map_values(
        |b: SemanticBody| text_views(b.safety_warnings@),
    ));
    assert(next.map_values(|b: SemanticBody| text_views(b.type_evidence@)).drop_last() =~= prefix.map_values(
        |b: SemanticBody| text_views(b.type_evidence@),
    ));
    match &b.structural_hash {
        Some(h) => {
            push_text(&mut f.hashes, h.clone());
        },
        None => {},
    }
    if !crate::text::chars_eq(
        chars_of(d.language.as_str()).as_slice(),
        chars_of(group[0].definition.language.as_str()).as_slice(),
    ) {
        f.same_language = false;
    }
}

fn collect_semantic_facts(group: &Vec<SemanticBody>) -> (r: SemanticFacts)
    requires
        group@.len() > 0,
    ensures
        semantic_facts_upto(r, group@, group@.len() as int),
{
    let mut f = SemanticFacts {
        ids: Vec::new(),
        names: Vec::new(),
        qualified: Vec::new(),
        kinds: Vec::new(),
        frameworks: Vec::new(),
        locations: Vec::new(),
        same_language: true,
        lines: 0,
        tokens: 0,
        confidence: Confidence::Medium,
        rewrites: Vec::new(),
        skipped: Vec::new(),
        warnings: Vec::new(),
        evidence: Vec::new(),
        hashes: Vec::new(),
    };
    proof {
        let prefix = group@.take(0);
        assert(semantic_definitions(prefix) =~= Seq::<DefinitionInfo>::empty());
        assert(text_views(f.names@) =~= Seq::<Seq<char>>::empty());
        assert(views(f.ids@) =~= Seq::<Seq<char>>::empty());
        assert(prefix.map_values(|b: SemanticBody| b.line_count) =~= Seq::<usize>::empty());
        assert(prefix.map_values(|b: SemanticBody| spec_token_count(b.serialization@) as usize) =~= Seq::<usize>::empty());
        assert(prefix.map_values(|b: SemanticBody| b.confidence) =~= Seq::<Confidence>::empty());
        assert(prefix.map_values(|b: SemanticBody| text_views(b.rewrites@)) =~= Seq::<Seq<Seq<char>>>::empty());
        assert(prefix.map_values(|b: SemanticBody| text_views(b.skipped_rewrites@)) =~= Seq::<Seq<Seq<char>>>::empty());
        assert(prefix.map_values(|b: SemanticBody| text_views(b.safety_warnings@)) =~= Seq::<Seq<Seq<char>>>::empty());
        assert(prefix.map_values(|b: SemanticBody| text_views(b.type_evidence@)) =~= Seq::<Seq<Seq<char>>>::empty());
        assert(text_views(f.rewrites@) =~= Seq::<Seq<char>>::empty());
        assert(text_views(f.skipped@) =~= Seq::<Seq<char>>::empty());
        assert(text_views(f.warnings@) =~= Seq::<Seq<char>>::empty());
        assert(text_views(f.evidence@) =~= Seq::<Seq<char>>::empty());
        assert(text_views(f.hashes@) =~= Seq::<Seq<char>>::empty());
        assert(text_views(f.qualified@) =~= Seq::<Seq<char>>::empty());
        assert(text_views(f.kinds@) =~= Seq::<Seq<char>>::empty());
        assert(text_views(f.frameworks@) =~= Seq::<Seq<char>>::empty());
        assert(semantic_definitions(prefix).map_values(|d: DefinitionInfo| symbol_id(d)) =~= Seq::<Seq<char>>::empty());
        assert(semantic_definitions(prefix).map_values(|d: DefinitionInfo| d.name@) =~= Seq::<Seq<char>>::empty());
        assert(semantic_definitions(prefix).map_values(|d: DefinitionInfo| d.qualified_name@) =~= Seq::<Seq<char>>::empty());
        assert(semantic_definitions(prefix).map_values(|d: DefinitionInfo| d.kind@) =~= Seq::<Seq<char>>::empty());
        assert(present_structural_hashes(prefix) =~= Seq::<Seq<char>>::empty());
    }
    for i in 0..group.len()
        invariant
            group@.len() > 0,
            semantic_facts_upto(f, group@, i as int),
    {
        push_semantic_member(&mut f, group, i);
    }
    f
}

fn semantic_signals_exec(rewrites: &Vec<String>, confidence: Confidence, distinct_hashes: usize) -> (r: Vec<String>)
    ensures
        text_views(r@) == semantic_signal_list(text_views(rewrites@), confidence, distinct_hashes as nat),
{
    let mut out: Vec<String> = Vec::new();
    push_text(&mut out, String::from_str("same_semantic_fingerprint"));
    let ghost head = text_views(out@);
    for i in 0..rewrites.len()
        invariant
            text_views(out@) == head + text_views(rewrites@.take(i as int)).map_values(|r: Seq<char>| "rewrite:"@ + r),
    {
        let mut s = String::from_str("rewrite:");
        s.append(rewrites[i].as_str());
        push_text(&mut out, s);
        assert(text_views(rewrites@.take(i + 1)).map_values(|r: Seq<char>| "rewrite:"@ + r) =~= text_views(
            rewrites@.take(i as int),
        ).map_values(|r: Seq<char>| "rewrite:"@ + r).push("rewrite:"@ + rewrites@[i as int]@));
        assert(text_views(out@) =~= head + text_views(rewrites@.take(i + 1)).map_values(|r: Seq<char>| "rewrite:"@ + r));
    }
    assert(rewrites@.take(rewrites@.len() as int) =~= rewrites@);
    let ghost mid = text_views(out@);
    if distinct_hashes > 1 {
        push_text(&mut out, String::from_str("different_structural_hashes"));
    }
    let ghost mid2 = text_views(out@);
    assert(mid2 =~= mid + (if distinct_hashes > 1 { seq!["different_structural_hashes"@] } else { seq![] }));
    if confidence.rank() >= 2 {
        push_text(&mut out, String::from_str("typed_or_derived_evidence"));
    }
    assert(text_views(out@) =~= mid2 + (if confidence.spec_rank() >= 2 { seq!["typed_or_derived_evidence"@] } else { seq![] }));
    assert(text_views(out@) =~= semantic_signal_list(text_views(rewrites@), confidence, distinct_hashes as nat));
    out
}

proof fn lemma_key_texts(l: Seq<String>, keys: Seq<Seq<char>>)
    requires
        l.map_values(|k: String| (k@, ())) == key_set(keys),
    ensures
        text_views(l) == key_set(keys).map_values(|e: (Seq<char>, ())| e.0),
{
    assert(text_views(l) =~= key_set(keys).map_values(|e: (Seq<char>, ())| e.0)) by {
        assert forall|i: int| 0 <= i < l.len() implies text_views(l)[i] == key_set(keys).map_values(
            |e: (Seq<char>, ())| e.0,
        )[i] by {
            assert(l.map_values(|k: String| (k@, ()))[i] == (l[i]@, ()));
        }
    }
}

/// Builds the finding for a group of definitions that share a conservative semantic
/// fingerprint, listed in the order they are reported.
pub fn build_semantic_finding(group: &Vec<SemanticBody>) -> (r: Finding)
    requires
        group@.len() > 0,
    ensures
        describes_semantic_group(r, group@),
{
    let facts = collect_semantic_facts(group);
    assert(group@.take(group@.len() as int) =~= group@);
    let bar: Vec<char> = vec!['|'];
    proof {
        reveal_strlit("|");
        assert(bar@ =~= "|"@);
    }
    let symbols = string_from_chars(join_chars(&facts.ids, bar.as_slice()).as_slice());
    let mut raw = String::from_str(SEMANTIC_FUNCTION_RULE);
    raw.append("|");
    raw.append(group[0].stable_hash.as_str());
    raw.append("|");
    raw.append(symbols.as_str());
    proof {
        assert(raw@ =~= SEMANTIC_FUNCTION_RULE@ + "|"@ + group@[0].stable_hash@ + "|"@ + spec_join(
            semantic_definitions(group@).map_values(|d: DefinitionInfo| symbol_id(d)),
            "|"@,
        ));
    }
    let baseline_key = sha256_hex(raw.as_str());
    let key_chars = chars_of(baseline_key.as_str());
    let prefix = string_from_chars(crate::text::slice_chars(key_chars.as_slice(), 0, 12).as_slice());
    let mut finding_id = String::from_str(SEMANTIC_FUNCTION_RULE);
    finding_id.append(":");
    finding_id.append(prefix.as_str());
    proof {
        assert(finding_id@ =~= SEMANTIC_FUNCTION_RULE@ + ":"@ + baseline_key@.take(12));
    }
    let names = sorted_distinct(&facts.names);
    let kinds = sorted_distinct(&facts.kinds);
    let frameworks = sorted_distinct(&facts.frameworks);
    let hashes = sorted_distinct(&facts.hashes);
    let rewrites = sorted_distinct(&facts.rewrites);
    let skipped = sorted_distinct(&facts.skipped);
    let warnings = sorted_distinct(&facts.warnings);
    let evidence = sorted_distinct(&facts.evidence);
    proof {
        assert(frameworks@.map_values(|k: String| (k@, ())).len() == frameworks@.len());
        assert(hashes@.map_values(|k: String| (k@, ())).len() == hashes@.len());
        lemma_key_texts(rewrites@, text_views(facts.rewrites@));
    }
    let signal_list = semantic_signals_exec(&rewrites, facts.confidence, hashes.len());
    let signals = sorted_distinct(&signal_list);
    let framework = if frameworks.len() == 1 {
        proof {
            assert(frameworks@.map_values(|k: String| (k@, ()))[0] == (frameworks@[0]@, ()));
        }
        Some(frameworks[0].clone())
    } else {
        None
    };
    let language = if facts.same_language {
        Some(group[0].definition.language.clone())
    } else {
        None
    };
    proof {
        let ds = semantic_definitions(group@);
        assert forall|j: int| 0 <= j < ds.len() implies (#[trigger] ds[j]).language@ == ds[0].language@
            <== facts.same_language by {
            assert(ds[j] == group@[j].definition);
        }
        if !facts.same_language {
            let j = choose|j: int| 0 <= j < group@.len() && (#[trigger] group@[j]).definition.language@
                != group@[0].definition.language@;
            assert(ds[j] == group@[j].definition);
        }
    }
    let mut message = decimal(group.len());
    message.append(" definitions share a conservative semantic fingerprint.");
    let mut metadata: Vec<(String, MetadataValue)> = Vec::new();
    metadata.push((String::from_str("canonical_hashes"), MetadataValue::TextList(hashes)));
    metadata.push((String::from_str("confidence_floor"), MetadataValue::Text(String::from_str(facts.confidence.label()))));
    metadata.push((String::from_str("definition_kinds"), MetadataValue::TextList(kinds)));
    metadata.push((String::from_str("line_count"), MetadataValue::Number(facts.lines as u64)));
    metadata.push((String::from_str("qualified_names"), MetadataValue::TextList(facts.qualified)));
    metadata.push((String::from_str("safety_warnings"), MetadataValue::TextList(warnings)));
    metadata.push((String::from_str("semantic_hash"), MetadataValue::Text(group[0].stable_hash.clone())));
    metadata.push((String::from_str("semantic_rewrites"), MetadataValue::TextList(rewrites)));
    metadata.push((String::from_str("semantic_version"), MetadataValue::Text(group[0].version.clone())));
    metadata.push((String::from_str("signals"), MetadataValue::TextList(signals)));
    metadata.push((String::from_str("skipped_rewrites"), MetadataValue::TextList(skipped)));
    metadata.push((String::from_str("symbol_names"), MetadataValue::TextList(names)));
    metadata.push((String::from_str("token_estimate"), MetadataValue::Number(facts.tokens as u64)));
    metadata.push((String::from_str("type_evidence"), MetadataValue::TextList(evidence)));
    let r = Finding {
        finding_id,
        baseline_key,
        rule_id: String::from_str(SEMANTIC_FUNCTION_RULE),
        kind: FindingKind::SemanticCandidate,
        severity: Severity::Medium,
        confidence: facts.confidence,
        message,
        locations: facts.locations,
        language,
        framework,
        explanation: String::from_str(
            "These definitions normalize to the same conservative semantic fingerprint after safe rewrites such as typed numeric operand ordering, equality operand ordering, comparison inversion, or boolean-return simplification. This is a semantic clone signal, not proof of identical runtime behavior.",
        ),
        remediation: String::from_str(
            "Compare the intent and edge cases, then extract a shared helper, consolidate validation, keep the definitions separate with documentation, or suppress intentional duplication with a reason.",
        ),
        detection_reason: String::from_str(
            "The detector applied only conservative semantic rewrites and grouped definitions by the resulting stable semantic hash. Unsafe rewrites involving calls, awaits, mutation, property reads, macros, unsafe blocks, or unproven dynamic operators are skipped.",
        ),
        autofix: AutofixSafety::SuggestionOnly,
        autofix_explanation: String::from_str(
            "Semantic duplicate candidates are not auto-fixed because refactoring can change APIs, imports, side effects, ownership, async behavior, and domain boundaries.",
        ),
        fixes: Vec::new(),
        metadata,
        is_suppressed: false,
        suppression: None,
    };
    r
}

/// A definition with its canonical structural fingerprint.
#[derive(Debug, Clone)]
pub struct StructuralBody {
    pub definition: DefinitionInfo,
    pub line_count: usize,
    pub stable_hash: String,
    pub version: String,
    /// The label of the literal policy (`preserve` or `normalize`).
    pub literal_policy: String,
    pub node_count: usize,
    pub opaque_node_count: usize,
    pub token_estimate: usize,
    pub parameter_count: usize,
    pub return_shape: String,
    pub call_names: Vec<String>,
    pub framework_context: Vec<String>,
}

/// The share of opaque nodes in percent (100 for a fingerprint without nodes); a
/// quotient that does not fit a byte counts as 100.
pub open spec fn spec_opaque_percent(b: StructuralBody) -> nat {
    if b.node_count == 0 {
        100
    } else {
        let v = (b.opaque_node_count * 100) / (b.node_count as int);
        if v <= 255 {
            v as nat
        } else {
            100
        }
    }
}

/// The position of the last `.` of a text.
pub open spec fn last_dot(q: Seq<char>) -> Option<int>
    decreases q.len(),
{
    if q.len() == 0 {
        None
    } else if q.last() == '.' {
        Some(q.len() - 1)
    } else {
        last_dot(q.drop_last())
    }
}

/// The owner of a qualified name: what comes before its last `.`, empty without one.
pub open spec fn owner_of(q: Seq<char>) -> Seq<char> {
    match last_dot(q) {
        Some(k) => q.take(k),
        None => seq![],
    }
}

/// Every member agrees with the first on a property.
pub open spec fn all_agree<T>(group: Seq<StructuralBody>, f: spec_fn(StructuralBody) -> T) -> bool {
    forall|j: int| 0 <= j < group.len() ==> f(#[trigger] group[j]) == f(group[0])
}

/// The structural confidence score of a group.
pub open spec fn structural_score(group: Seq<StructuralBody>) -> nat {
    65 + (if all_agree(group, |b: StructuralBody| b.parameter_count) {
        10nat
    } else {
        0
    }) + (if all_agree(group, |b: StructuralBody| b.return_shape@) {
        10nat
    } else {
        0
    }) + (if all_agree(group, |b: StructuralBody| text_views(b.call_names@)) {
        5nat
    } else {
        0
    }) + (if all_agree(group, |b: StructuralBody| opt_view(b.definition.framework)) {
        5nat
    } else {
        0
    }) + (if group[0].opaque_node_count == 0 {
        5nat
    } else {
        0
    })
}

/// The signals of a structural finding, in this order.
pub open spec fn structural_signal_list(group: Seq<StructuralBody>) -> Seq<Seq<char>> {
    seq!["same_canonical_ast"@] + (if all_agree(group, |b: StructuralBody| b.parameter_count) {
        seq!["compatible_parameter_count"@]
    } else {
        seq![]
    }) + (if all_agree(group, |b: StructuralBody| b.definition.is_async) {
        seq!["same_asyncness"@]
    } else {
        seq![]
    }) + (if all_agree(group, |b: StructuralBody| b.return_shape@) {
        seq!["same_return_shape"@]
    } else {
        seq![]
    }) + (if all_agree(group, |b: StructuralBody| text_views(b.call_names@)) {
        seq!["same_call_names"@]
    } else {
        seq![]
    }) + (if exists|j: int| 0 <= j < group.len() && (#[trigger] group[j]).framework_context@.len() > 0 {
        seq!["framework_context"@]
    } else {
        seq![]
    })
}

/// `fd` is the finding for a group of definitions with the same canonical AST. Its
/// metadata holds every field in key order but the opaque ratio, a fraction.
pub open spec fn describes_structural_group(fd: Finding, group: Seq<StructuralBody>) -> bool {
    let ds = group.map_values(|b: StructuralBody| b.definition);
    let first = group[0];
    let names = ds.map_values(|d: DefinitionInfo| d.name@);
    let names_differ = key_set(names).len() > 1;
    let score = structural_score(group);
    let domain_warning = names_differ || key_set(ds.map_values(|d: DefinitionInfo| owner_of(d.qualified_name@))).len() > 1;
    let opaque = max_of(group.map_values(|b: StructuralBody| spec_opaque_percent(b) as usize));
    &&& fd.rule_id@ == STRUCTURAL_FUNCTION_RULE@
    &&& fd.kind == FindingKind::StructuralDuplicate
    &&& fd.severity == Severity::Medium
    &&& fd.confidence == (if score >= 75 {
        Confidence::High
    } else {
        Confidence::Medium
    })
    &&& fd.autofix == AutofixSafety::SuggestionOnly
    &&& fd.baseline_key@ == spec_hex(
        spec_sha256(
            encode_utf8(
                STRUCTURAL_FUNCTION_RULE@ + "|"@ + first.stable_hash@ + "|"@ + spec_join(
                    ds.map_values(|d: DefinitionInfo| symbol_id(d)),
                    "|"@,
                ),
            ),
        ),
    )
    &&& fd.finding_id@ == STRUCTURAL_FUNCTION_RULE@ + ":"@ + fd.baseline_key@.take(12)
    &&& fd.message@ == spec_decimal(group.len()) + " symbols have the same canonical AST after identifier normalization."@
    &&& fd.locations@.len() == group.len()
    &&& forall|l: int| 0 <= l < group.len() ==> body_location(#[trigger] fd.locations@[l], group[l].definition)
    &&& opt_view(fd.language) == shared_definition_language(ds)
    &&& opt_view(fd.framework) == shared_definition_framework(ds)
    &&& fd.fixes@.len() == 0
    &&& !fd.is_suppressed
    &&& fd.suppression is None
    &&& fd.explanation@
        == "These symbols have the same canonical AST after parameters and local identifiers are renamed. Treat this as a high-confidence clone signal, not proof that the domain behavior should be merged."@
    &&& fd.remediation@
        == "Compare the domain intent, then extract a shared helper, consolidate behind one exported function, or keep the duplication with a suppression comment and reason."@
    &&& fd.detection_reason@
        == "The detector serialized a normalized AST, preserved API/member names, and grouped definitions by the canonical structural hash."@
    &&& fd.autofix_explanation@
        == "Structural duplicates are not auto-fixed because equivalent shape can still represent intentionally separate domain behavior, public APIs, ownership rules, or side effects."@
    &&& fd.metadata@.len() == 19
    &&& fd.metadata@[0].0@ == "call_names"@
    &&& (fd.metadata@[0].1 matches MetadataValue::TextList(l) && text_views(l@) == text_views(first.call_names@))
    &&& fd.metadata@[1].0@ == "canonical_hash"@
    &&& (fd.metadata@[1].1 matches MetadataValue::Text(t) && t@ == first.stable_hash@)
    &&& fd.metadata@[2].0@ == "canonical_version"@
    &&& (fd.metadata@[2].1 matches MetadataValue::Text(t) && t@ == first.version@)
    &&& fd.metadata@[3].0@ == "confidence_score"@
    &&& fd.metadata@[3].1 == MetadataValue::Number(score as u64)
    &&& fd.metadata@[4].0@ == "definition_kinds"@
    &&& lists_key_set(fd.metadata@[4].1, ds.map_values(|d: DefinitionInfo| d.kind@))
    &&& fd.metadata@[5].0@ == "domain_warning"@
    &&& fd.metadata@[5].1 == MetadataValue::Flag(domain_warning)
    &&& fd.metadata@[6].0@ == "framework_context"@
    &&& (fd.metadata@[6].1 matches MetadataValue::TextList(l) && text_views(l@) == text_views(first.framework_context@))
    &&& fd.metadata@[7].0@ == "line_count"@
    &&& fd.metadata@[7].1 == MetadataValue::Number(max_of(group.map_values(|b: StructuralBody| b.line_count)) as u64)
    &&& fd.metadata@[8].0@ == "literal_policy"@
    &&& (fd.metadata@[8].1 matches MetadataValue::Text(t) && t@ == first.literal_policy@)
    &&& fd.metadata@[9].0@ == "names_differ"@
    &&& fd.metadata@[9].1 == MetadataValue::Flag(names_differ)
    &&& fd.metadata@[10].0@ == "node_count"@
    &&& fd.metadata@[10].1 == MetadataValue::Number(first.node_count as u64)
    &&& fd.metadata@[11].0@ == "opaque_node_count"@
    &&& fd.metadata@[11].1 == MetadataValue::Number(first.opaque_node_count as u64)
    &&& fd.metadata@[12].0@ == "opaque_percent"@
    &&& fd.metadata@[12].1 == MetadataValue::Number(opaque as u64)
    &&& fd.metadata@[13].0@ == "parameter_count"@
    &&& fd.metadata@[13].1 == MetadataValue::Number(first.parameter_count as u64)
    &&& fd.metadata@[14].0@ == "qualified_names"@
    &&& (fd.metadata@[14].1 matches MetadataValue::TextList(l) && text_views(l@) == ds.map_values(
        |d: DefinitionInfo| d.qualified_name@,
    ))
    &&& fd.metadata@[15].0@ == "return_shape"@
    &&& (fd.metadata@[15].1 matches MetadataValue::Text(t) && t@ == first.return_shape@)
    &&& fd.metadata@[16].0@ == "signals"@
    &&& (fd.metadata@[16].1 matches MetadataValue::TextList(l) && text_views(l@) == structural_signal_list(group))
    &&& fd.metadata@[17].0@ == "symbol_names"@
    &&& lists_key_set(fd.metadata@[17].1, names)
    &&& fd.metadata@[18].0@ == "token_estimate"@
    &&& fd.metadata@[18].1 == MetadataValue::Number(first.token_estimate as u64)
}

pub(crate) fn opaque_percent(b: &StructuralBody) -> (r: usize)
    requires
        b.opaque_node_count * 100 <= usize::MAX,
    ensures
        r == spec_opaque_percent(*b),
{
    if b.node_count == 0 {
        return 100;
    }
    let v = (b.opaque_node_count * 100) / b.node_count;
    if v <= 255 {
        v
    } else {
        100
    }
}

fn owner_of_exec(q: &String) -> (r: String)
    ensures
        r@ == owner_of(q@),
{
    let c = chars_of(q.as_str());
    let mut k: usize = c.len();
    assert(c@.take(c@.len() as int) =~= c@);
    while k > 0 && c[k - 1] != '.'
        invariant
            k <= c@.len(),
            c@ == q@,
            last_dot(c@.take(k as int)) == last_dot(q@),
        decreases k,
    {
        assert(c@.take(k as int).drop_last() =~= c@.take(k - 1));
        k = k - 1;
    }
    assert(c@.take(c@.len() as int) =~= c@);
    if k == 0 {
        assert(c@.take(0) =~= Seq::<char>::empty());
        String::new()
    } else {
        assert(c@.take(k as int).last() == '.');
        string_from_chars(crate::text::slice_chars(c.as_slice(), 0, k - 1).as_slice())
    }
}

fn texts_equal(a: &Vec<String>, b: &Vec<String>) -> (r: bool)
    ensures
        r == (text_views(a@) == text_views(b@)),
{
    if a.len() != b.len() {
        assert(text_views(a@).len() != text_views(b@).len());
        return false;
    }
    for i in 0..a.len()
        invariant
            a@.len() == b@.len(),
            forall|j: int| 0 <= j < i ==> a@[j]@ == b@[j]@,
    {
        if !crate::text::chars_eq(chars_of(a[i].as_str()).as_slice(), chars_of(b[i].as_str()).as_slice()) {
            assert(text_views(a@)[i as int] != text_views(b@)[i as int]);
            return false;
        }
    }
    assert(text_views(a@) =~= text_views(b@));
    true
}

fn opt_text_eq(a: &Option<String>, b: &Option<String>) -> (r: bool)
    ensures
        r == (opt_view(*a) == opt_view(*b)),
{
    match (a, b) {
        (Some(x), Some(y)) => crate::text::chars_eq(chars_of(x.as_str()).as_slice(), chars_of(y.as_str()).as_slice()),
        (None, None) => true,
        _ => false,
    }
}

/// Whether the members of a group agree with the first on each compared property.
struct Agreement {
    parameters: bool,
    returns: bool,
    calls: bool,
    frameworks: bool,
    asyncness: bool,
    any_context: bool,
}

fn structural_agreement(group: &Vec<StructuralBody>) -> (r: Agreement)
    requires
        group@.len() > 0,
    ensures
        r.parameters == all_agree(group@, |b: StructuralBody| b.parameter_count),
        r.returns == all_agree(group@, |b: StructuralBody| b.return_shape@),
        r.calls == all_agree(group@, |b: StructuralBody| text_views(b.call_names@)),
        r.frameworks == all_agree(group@, |b: StructuralBody| opt_view(b.definition.framework)),
        r.asyncness == all_agree(group@, |b: StructuralBody| b.definition.is_async),
        r.any_context == exists|j: int| 0 <= j < group@.len() && (#[trigger] group@[j]).framework_context@.len() > 0,
{
    let first = &group[0];
    let mut a = Agreement { parameters: true, returns: true, calls: true, frameworks: true, asyncness: true, any_context: false };
    for i in 0..group.len()
        invariant
            group@.len() > 0,
            first == &group@[0],
            a.parameters == forall|j: int| 0 <= j < i ==> (#[trigger] group@[j]).parameter_count == group@[0].parameter_count,
            a.returns == forall|j: int| 0 <= j < i ==> (#[trigger] group@[j]).return_shape@ == group@[0].return_shape@,
            a.calls == forall|j: int| 0 <= j < i ==> text_views((#[trigger] group@[j]).call_names@) == text_views(group@[0].call_names@),
            a.frameworks == forall|j: int| 0 <= j < i ==> opt_view((#[trigger] group@[j]).definition.framework) == opt_view(group@[0].definition.framework),
            a.asyncness == forall|j: int| 0 <= j < i ==> (#[trigger] group@[j]).definition.is_async == group@[0].definition.is_async,
            a.any_context == exists|j: int| 0 <= j < i && (#[trigger] group@[j]).framework_context@.len() > 0,
    {
        let b = &group[i];
        if b.parameter_count != first.parameter_count {
            a.parameters = false;
        }
        if !crate::text::chars_eq(chars_of(b.return_shape.as_str()).as_slice(), chars_of(first.return_shape.as_str()).as_slice()) {
            a.returns = false;
        }
        if !texts_equal(&b.call_names, &first.call_names) {
            a.calls = false;
        }
        if !opt_text_eq(&b.definition.framework, &first.definition.framework) {
            a.frameworks = false;
        }
        if b.definition.is_async != first.definition.is_async {
            a.asyncness = false;
        }
        if b.framework_context.len() > 0 {
            a.any_context = true;
        }
    }
    a
}

fn clone_texts(v: &Vec<String>) -> (r: Vec<String>)
    ensures
        text_views(r@) == text_views(v@),
{
    let mut out: Vec<String> = Vec::new();
    append_texts(&mut out, v);
    assert(text_views(out@) =~= text_views(v@));
    out
}

/// What one pass over a structural group collects.
struct StructuralFacts {
    ids: Vec<Vec<char>>,
    names: Vec<String>,
    qualified: Vec<String>,
    kinds: Vec<String>,
    owners: Vec<String>,
    frameworks: Vec<String>,
    locations: Vec<FindingLocation>,
    same_language: bool,
    lines: usize,
    opaque: usize,
}

fn collect_structural_facts(group: &Vec<StructuralBody>) -> (r: StructuralFacts)
    requires
        group@.len() > 0,
        forall|j: int| 0 <= j < group@.len() ==> (#[trigger] group@[j]).opaque_node_count * 100 <= usize::MAX,
    ensures
        views(r.ids@) == group@.map_values(|b: StructuralBody| b.definition).map_values(|d: DefinitionInfo| symbol_id(d)),
        text_views(r.names@) == group@.map_values(|b: StructuralBody| b.definition).map_values(|d: DefinitionInfo| d.name@),
        text_views(r.qualified@) == group@.map_values(|b: StructuralBody| b.definition).map_values(
            |d: DefinitionInfo| d.qualified_name@,
        ),
        text_views(r.kinds@) == group@.map_values(|b: StructuralBody| b.definition).map_values(|d: DefinitionInfo| d.kind@),
        text_views(r.owners@) == group@.map_values(|b: StructuralBody| b.definition).map_values(
            |d: DefinitionInfo| owner_of(d.qualified_name@),
        ),
        text_views(r.frameworks@) == present_frameworks(group@.map_values(|b: StructuralBody| b.definition)),
        r.locations@.len() == group@.len(),
        forall|l: int| 0 <= l < group@.len() ==> body_location(#[trigger] r.locations@[l], group@[l].definition),
        r.same_language == (shared_definition_language(group@.map_values(|b: StructuralBody| b.definition)) is Some),
        r.lines == max_of(group@.map_values(|b: StructuralBody| b.line_count)),
        r.opaque == max_of(group@.map_values(|b: StructuralBody| spec_opaque_percent(b) as usize)),
{
    let ghost ds = group@.map_values(|b: StructuralBody| b.definition);
    let mut ids: Vec<Vec<char>> = Vec::new();
    let mut names: Vec<String> = Vec::new();
    let mut qualified: Vec<String> = Vec::new();
    let mut kinds: Vec<String> = Vec::new();
    let mut owners: Vec<String> = Vec::new();
    let mut frameworks: Vec<String> = Vec::new();
    let mut locations: Vec<FindingLocation> = Vec::new();
    let mut same_language = true;
    let mut lines: usize = 0;
    let mut opaque: usize = 0;
    for i in 0..group.len()
        invariant
            group@.len() > 0,
            ds == group@.map_values(|b: StructuralBody| b.definition),
            forall|j: int| 0 <= j < group@.len() ==> (#[trigger] group@[j]).opaque_node_count * 100 <= usize::MAX,
            views(ids@) == ds.take(i as int).map_values(|d: DefinitionInfo| symbol_id(d)),
            text_views(names@) == ds.take(i as int).map_values(|d: DefinitionInfo| d.name@),
            text_views(qualified@) == ds.take(i as int).map_values(|d: DefinitionInfo| d.qualified_name@),
            text_views(kinds@) == ds.take(i as int).map_values(|d: DefinitionInfo| d.kind@),
            text_views(owners@) == ds.take(i as int).map_values(|d: DefinitionInfo| owner_of(d.qualified_name@)),
            text_views(frameworks@) == present_frameworks(ds.take(i as int)),
            locations@.len() == i,
            forall|l: int| 0 <= l < i ==> body_location(#[trigger] locations@[l], group@[l].definition),
            same_language == (forall|j: int|
                0 <= j < i ==> (#[trigger] group@[j]).definition.language@ == group@[0].definition.language@),
            lines == max_of(group@.take(i as int).map_values(|b: StructuralBody| b.line_count)),
            opaque == max_of(group@.take(i as int).map_values(|b: StructuralBody| spec_opaque_percent(b) as usize)),
    {
        let b = &group[i];
        let d = &b.definition;
        let ghost prefix = ds.take(i as int);
        let ghost next = ds.take(i + 1);
        assert(next =~= prefix.push(*d));
        let ghost ids0 = ids@;
        ids.push(symbol_id_exec(d));
        assert(views(ids@) =~= views(ids0).push(symbol_id(*d)));
        assert(next.map_values(|d: DefinitionInfo| symbol_id(d)) =~= prefix.map_values(|d: DefinitionInfo| symbol_id(d)).push(symbol_id(*d)));
        push_text(&mut names, d.name.clone());
        assert(next.map_values(|d: DefinitionInfo| d.name@) =~= prefix.map_values(|d: DefinitionInfo| d.name@).push(d.name@));
        push_text(&mut qualified, d.qualified_name.clone());
        assert(next.map_values(|d: DefinitionInfo| d.qualified_name@) =~= prefix.map_values(|d: DefinitionInfo| d.qualified_name@).push(d.qualified_name@));
        push_text(&mut kinds, d.kind.clone());
        assert(next.map_values(|d: DefinitionInfo| d.kind@) =~= prefix.map_values(|d: DefinitionInfo| d.kind@).push(d.kind@));
        push_text(&mut owners, owner_of_exec(&d.qualified_name));
        assert(next.map_values(|d: DefinitionInfo| owner_of(d.qualified_name@)) =~= prefix.map_values(
            |d: DefinitionInfo| owner_of(d.qualified_name@),
        ).push(owner_of(d.qualified_name@)));
        assert(next.drop_last() =~= prefix);
        match &d.framework {
            Some(fw) => {
                push_text(&mut frameworks, fw.clone());
            },
            None => {},
        }
        locations.push(body_location_exec(d));
        let ghost gp = group@.take(i as int);
        let ghost gn = group@.take(i + 1);
        assert(gn.map_values(|b: StructuralBody| b.line_count).drop_last() =~= gp.map_values(|b: StructuralBody| b.line_count));
        assert(gn.map_values(|b: StructuralBody| spec_opaque_percent(b) as usize).drop_last() =~= gp.map_values(
            |b: StructuralBody| spec_opaque_percent(b) as usize,
        ));
        assert(gn.last() == group@[i as int]);
        if b.line_count > lines {
            lines = b.line_count;
        }
        let p = opaque_percent(b);
        if p > opaque {
            opaque = p;
        }
        if !crate::text::chars_eq(chars_of(d.language.as_str()).as_slice(), chars_of(group[0].definition.language.as_str()).as_slice()) {
            same_language = false;
        }
    }
    assert(group@.take(group@.len() as int) =~= group@);
    assert(ds.take(ds.len() as int) =~= ds);
    proof {
        assert forall|j: int| 0 <= j < ds.len() implies (#[trigger] ds[j]).language@ == ds[0].language@
            <== same_language by {
            assert(ds[j] == group@[j].definition);
        }
        if !same_language {
            let j = choose|j: int| 0 <= j < group@.len() && (#[trigger] group@[j]).definition.language@
                != group@[0].definition.language@;
            assert(ds[j] == group@[j].definition);
        }
    }
    StructuralFacts { ids, names, qualified, kinds, owners, frameworks, locations, same_language, lines, opaque }
}

fn structural_signals_exec(agreement: &Agreement, Ghost(group): Ghost<Seq<StructuralBody>>) -> (r: Vec<String>)
    requires
        group.len() > 0,
        agreement.parameters == all_agree(group, |b: StructuralBody| b.parameter_count),
        agreement.returns == all_agree(group, |b: StructuralBody| b.return_shape@),
        agreement.calls == all_agree(group, |b: StructuralBody| text_views(b.call_names@)),
        agreement.asyncness == all_agree(group, |b: StructuralBody| b.definition.is_async),
        agreement.any_context == exists|j: int| 0 <= j < group.len() && (#[trigger] group[j]).framework_context@.len() > 0,
    ensures
        text_views(r@) == structural_signal_list(group),
{
    let mut signals: Vec<String> = Vec::new();
    push_text(&mut signals, String::from_str("same_canonical_ast"));
    let ghost s0 = text_views(signals@);
    if agreement.parameters {
        push_text(&mut signals, String::from_str("compatible_parameter_count"));
    }
    let ghost s1 = text_views(signals@);
    assert(s1 =~= s0 + (if agreement.parameters { seq!["compatible_parameter_count"@] } else { seq![] }));
    if agreement.asyncness {
        push_text(&mut signals, String::from_str("same_asyncness"));
    }
    let ghost s2 = text_views(signals@);
    assert(s2 =~= s1 + (if agreement.asyncness { seq!["same_asyncness"@] } else { seq![] }));
    if agreement.returns {
        push_text(&mut signals, String::from_str("same_return_shape"));
    }
    let ghost s3 = text_views(signals@);
    assert(s3 =~= s2 + (if agreement.returns { seq!["same_return_shape"@] } else { seq![] }));
    if agreement.calls {
        push_text(&mut signals, String::from_str("same_call_names"));
    }
    let ghost s4 = text_views(signals@);
    assert(s4 =~= s3 + (if agreement.calls { seq!["same_call_names"@] } else { seq![] }));
    if agreement.any_context {
        push_text(&mut signals, String::from_str("framework_context"));
    }
    assert(text_views(signals@) =~= s4 + (if agreement.any_context { seq!["framework_context"@] } else { seq![] }));
    assert(text_views(signals@) =~= structural_signal_list(group));
    signals
}

/// Builds the finding for a group of definitions with the same canonical AST, listed
/// in the order they are reported.
pub fn build_structural_finding(group: &Vec<StructuralBody>) -> (r: Finding)
    requires
        group@.len() > 0,
        forall|j: int| 0 <= j < group@.len() ==> (#[trigger] group@[j]).opaque_node_count * 100 <= usize::MAX,
    ensures
        describes_structural_group(r, group@),
{
    let ghost ds = group@.map_values(|b: StructuralBody| b.definition);
    let facts = collect_structural_facts(group);
    let agreement = structural_agreement(group);
    let first = &group[0];
    let mut score: u64 = 65;
    if agreement.parameters {
        score = score + 10;
    }
    if agreement.returns {
        score = score + 10;
    }
    if agreement.calls {
        score = score + 5;
    }
    if agreement.frameworks {
        score = score + 5;
    }
    if first.opaque_node_count == 0 {
        score = score + 5;
    }
    let signals = structural_signals_exec(&agreement, Ghost(group@));
    let bar: Vec<char> = vec!['|'];
    proof {
        reveal_strlit("|");
        assert(bar@ =~= "|"@);
    }
    let symbols = string_from_chars(join_chars(&facts.ids, bar.as_slice()).as_slice());
    let mut raw = String::from_str(STRUCTURAL_FUNCTION_RULE);
    raw.append("|");
    raw.append(first.stable_hash.as_str());
    raw.append("|");
    raw.append(symbols.as_str());
    proof {
        assert(raw@ =~= STRUCTURAL_FUNCTION_RULE@ + "|"@ + group@[0].stable_hash@ + "|"@ + spec_join(
            ds.map_values(|d: DefinitionInfo| symbol_id(d)),
            "|"@,
        ));
    }
    let baseline_key = sha256_hex(raw.as_str());
    let key_chars = chars_of(baseline_key.as_str());
    let prefix = string_from_chars(crate::text::slice_chars(key_chars.as_slice(), 0, 12).as_slice());
    let mut finding_id = String::from_str(STRUCTURAL_FUNCTION_RULE);
    finding_id.append(":");
    finding_id.append(prefix.as_str());
    proof {
        assert(finding_id@ =~= STRUCTURAL_FUNCTION_RULE@ + ":"@ + baseline_key@.take(12));
    }
    let sorted_names = sorted_distinct(&facts.names);
    let sorted_kinds = sorted_distinct(&facts.kinds);
    let sorted_owners = sorted_distinct(&facts.owners);
    let sorted_frameworks = sorted_distinct(&facts.frameworks);
    proof {
        assert(sorted_names@.map_values(|k: String| (k@, ())).len() == sorted_names@.len());
        assert(sorted_owners@.map_values(|k: String| (k@, ())).len() == sorted_owners@.len());
        assert(sorted_frameworks@.map_values(|k: String| (k@, ())).len() == sorted_frameworks@.len());
    }
    let names_differ = sorted_names.len() > 1;
    let domain_warning = names_differ || sorted_owners.len() > 1;
    let framework = if sorted_frameworks.len() == 1 {
        proof {
            assert(sorted_frameworks@.map_values(|k: String| (k@, ()))[0] == (sorted_frameworks@[0]@, ()));
        }
        Some(sorted_frameworks[0].clone())
    } else {
        None
    };
    let language = if facts.same_language {
        Some(first.definition.language.clone())
    } else {
        None
    };
    let mut message = decimal(group.len());
    message.append(" symbols have the same canonical AST after identifier normalization.");
    let confidence = if score >= 75 {
        Confidence::High
    } else {
        Confidence::Medium
    };
    let mut metadata: Vec<(String, MetadataValue)> = Vec::new();
    metadata.push((String::from_str("call_names"), MetadataValue::TextList(clone_texts(&first.call_names))));
    metadata.push((String::from_str("canonical_hash"), MetadataValue::Text(first.stable_hash.clone())));
    metadata.push((String::from_str("canonical_version"), MetadataValue::Text(first.version.clone())));
    metadata.push((String::from_str("confidence_score"), MetadataValue::Number(score)));
    metadata.push((String::from_str("definition_kinds"), MetadataValue::TextList(sorted_kinds)));
    metadata.push((String::from_str("domain_warning"), MetadataValue::Flag(domain_warning)));
    metadata.push((String::from_str("framework_context"), MetadataValue::TextList(clone_texts(&first.framework_context))));
    metadata.push((String::from_str("line_count"), MetadataValue::Number(facts.lines as u64)));
    metadata.push((String::from_str("literal_policy"), MetadataValue::Text(first.literal_policy.clone())));
    metadata.push((String::from_str("names_differ"), MetadataValue::Flag(names_differ)));
    metadata.push((String::from_str("node_count"), MetadataValue::Number(first.node_count as u64)));
    metadata.push((String::from_str("opaque_node_count"), MetadataValue::Number(first.opaque_node_count as u64)));
    metadata.push((String::from_str("opaque_percent"), MetadataValue::Number(facts.opaque as u64)));
    metadata.push((String::from_str("parameter_count"), MetadataValue::Number(first.parameter_count as u64)));
    metadata.push((String::from_str("qualified_names"), MetadataValue::TextList(facts.qualified)));
    metadata.push((String::from_str("return_shape"), MetadataValue::Text(first.return_shape.clone())));
    metadata.push((String::from_str("signals"), MetadataValue::TextList(signals)));
    metadata.push((String::from_str("symbol_names"), MetadataValue::TextList(sorted_names)));
    metadata.push((String::from_str("token_estimate"), MetadataValue::Number(first.token_estimate as u64)));
    Finding {
        finding_id,
        baseline_key,
        rule_id: String::from_str(STRUCTURAL_FUNCTION_RULE),
        kind: FindingKind::StructuralDuplicate,
        severity: Severity::Medium,
        confidence,
        message,
        locations: facts.locations,
        language,
        framework,
        explanation: String::from_str(
            "These symbols have the same canonical AST after parameters and local identifiers are renamed. Treat this as a high-confidence clone signal, not proof that the domain behavior should be merged.",
        ),
        remediation: String::from_str(
            "Compare the domain intent, then extract a shared helper, consolidate behind one exported function, or keep the duplication with a suppression comment and reason.",
        ),
        detection_reason: String::from_str(
            "The detector serialized a normalized AST, preserved API/member names, and grouped definitions by the canonical structural hash.",
        ),
        autofix: AutofixSafety::SuggestionOnly,
        autofix_explanation: String::from_str(
            "Structural duplicates are not auto-fixed because equivalent shape can still represent intentionally separate domain behavior, public APIs, ownership rules, or side effects.",
        ),
        fixes: Vec::new(),
        metadata,
        is_suppressed: false,
        suppression: None,
    }
}

} // verus!
