//! Exact-body duplicate detection: each function-like definition's body is read from
//! its source, stripped of comments, normalised and hashed; definitions whose bodies
//! share a hash, among at least two distinct symbols, form one finding.
use vstd::prelude::*;
use vstd::string::StringSliceAdditionalSpecFns;
use vstd::utf8::*;

use crate::duplication::{DuplicateError, ExactBodyOptions};
use crate::findings::{slice_source, Finding, SourceSpan};
use crate::grouping::{group_by_key, key_groups_valid, key_views, KeyGroup};
use crate::hashing::{sha256_hex, spec_hex, spec_sha256};
use crate::near_findings::{lemma_member_le_total_preorder, member_le, report_order, clone_indices};
use crate::normalize::{
    crlf_to_lf, lines_of, normalize_source, spec_crlf_to_lf, spec_lines, spec_normalize, spec_strip_comments,
    spec_token_count, strip_comments_preserving_literals, token_estimate,
};
use crate::paths::path_le_exec;
use crate::snippets::span_text;
use crate::sorting::{sort_by_order, str_le};
use crate::symbol_findings::{build_exact_body_finding, describes_exact_body, DefinitionInfo, ParameterInfo, SymbolBody};
use crate::text::{chars_of, spec_trim, string_from_chars, trim_chars, views};
use crate::utf8_facts::{range_chars, str_len_fits};

verus! {

broadcast use {
    vstd::string::group_string_axioms,
    vstd::std_specs::vec::group_vec_axioms,
    vstd::utf8::encode_utf8_decode_utf8,
};

/// The kinds whose bodies are compared: functions, methods, React components and
/// hooks, FastAPI routes and dependencies.
pub open spec fn function_like_kind(k: Seq<char>) -> bool {
    ||| k == "function"@
    ||| k == "method"@
    ||| k == "react_component"@
    ||| k == "react_hook"@
    ||| k == "fastapi_route"@
    ||| k == "fastapi_dependency"@
}

pub(crate) fn function_like_kind_exec(k: &str) -> (r: bool)
    ensures
        r == function_like_kind(k@),
{
    let c = chars_of(k);
    let f: Vec<char> = chars_of("function");
    let m: Vec<char> = chars_of("method");
    let rc: Vec<char> = chars_of("react_component");
    let rh: Vec<char> = chars_of("react_hook");
    let fr: Vec<char> = chars_of("fastapi_route");
    let fd: Vec<char> = chars_of("fastapi_dependency");
    crate::text::chars_eq(c.as_slice(), f.as_slice()) || crate::text::chars_eq(c.as_slice(), m.as_slice())
        || crate::text::chars_eq(c.as_slice(), rc.as_slice()) || crate::text::chars_eq(c.as_slice(), rh.as_slice())
        || crate::text::chars_eq(c.as_slice(), fr.as_slice()) || crate::text::chars_eq(c.as_slice(), fd.as_slice())
}

/// The number of lines that hold more than whitespace.
pub open spec fn nonblank_count(ls: Seq<Seq<char>>) -> nat
    decreases ls.len(),
{
    if ls.len() == 0 {
        0
    } else {
        nonblank_count(ls.drop_last()) + if spec_trim(ls.last()).len() > 0 {
            1nat
        } else {
            0nat
        }
    }
}

/// The lines of a body that hold more than whitespace, and at least one.
pub open spec fn body_line_count(s: Seq<char>) -> nat {
    let n = nonblank_count(spec_lines(s));
    if n == 0 {
        1
    } else {
        n
    }
}

proof fn lemma_nonblank_count_bound(ls: Seq<Seq<char>>)
    ensures
        nonblank_count(ls) <= ls.len(),
    decreases ls.len(),
{
    if ls.len() > 0 {
        lemma_nonblank_count_bound(ls.drop_last());
    }
}

fn body_line_count_exec(s: &Vec<char>) -> (r: usize)
    ensures
        r == body_line_count(s@),
{
    let ls = lines_of(s);
    let mut n: usize = 0;
    for i in 0..ls.len()
        invariant
            n == nonblank_count(views(ls@).take(i as int)),
            n <= i,
    {
        let t = trim_chars(ls[i].as_slice());
        assert(views(ls@).take(i + 1).drop_last() =~= views(ls@).take(i as int));
        assert(views(ls@).take(i + 1).last() == ls@[i as int]@);
        if t.len() > 0 {
            n = n + 1;
        }
    }
    assert(views(ls@).take(ls@.len() as int) =~= views(ls@));
    if n == 0 {
        1
    } else {
        n
    }
}

/// A definition whose body is compared: a function-like kind with a body.
pub open spec fn needs_source(d: DefinitionInfo) -> bool {
    function_like_kind(d.kind@) && d.body_span is Some
}

/// The characters of a definition's body in its source, when the span slices cleanly.
pub open spec fn body_text(d: DefinitionInfo, source: Seq<u8>) -> Option<Seq<char>> {
    match d.body_span {
        Some(b) => span_text(source, SourceSpan { start: b.start, end: b.end }),
        None => None,
    }
}

/// What a definition contributes to exact-body detection: the SHA-256 hex of its
/// normalised body, the body's size in bytes, its non-blank lines and its tokens. None
/// when it is not compared, its body does not slice cleanly, or the normalised body is
/// empty or under the line or token minimum.
pub open spec fn exact_entry(d: DefinitionInfo, source: Option<String>, options: ExactBodyOptions) -> Option<
    (Seq<char>, nat, nat, nat),
> {
    if !needs_source(d) || source is None {
        None
    } else {
        match body_text(d, encode_utf8(source->0@)) {
            None => None,
            Some(body) => {
                let stripped = spec_crlf_to_lf(spec_strip_comments(body));
                let normalized = spec_normalize(stripped);
                let lines = body_line_count(stripped);
                let tokens = spec_token_count(normalized);
                if normalized.len() == 0 || lines < options.min_lines || tokens < options.min_tokens {
                    None
                } else {
                    Some(
                        (
                            spec_hex(spec_sha256(encode_utf8(normalized))),
                            (d.body_span->0.end - d.body_span->0.start) as nat,
                            lines,
                            tokens,
                        ),
                    )
                }
            },
        }
    }
}

/// The executable form of an entry.
pub struct ExactEntry {
    pub hash: String,
    pub size: usize,
    pub lines: usize,
    pub tokens: usize,
}

pub open spec fn entry_view(e: Option<ExactEntry>) -> Option<(Seq<char>, nat, nat, nat)> {
    match e {
        Some(x) => Some((x.hash@, x.size as nat, x.lines as nat, x.tokens as nat)),
        None => None,
    }
}

fn exact_entry_exec(d: &DefinitionInfo, source: &Option<String>, options: ExactBodyOptions) -> (r: Option<ExactEntry>)
    requires
        d.body_span matches Some(b) ==> b.start <= b.end,
    ensures
        entry_view(r) == exact_entry(*d, *source, options),
{
    if !function_like_kind_exec(d.kind.as_str()) {
        return None;
    }
    let b = match d.body_span {
        Some(b) => b,
        None => return None,
    };
    let src = match source {
        Some(s) => s.as_str(),
        None => return None,
    };
    let span = SourceSpan { start: b.start, end: b.end };
    str_len_fits(src);
    let body = match slice_source(src, span) {
        Ok(t) => t,
        Err(_) => return None,
    };
    assert(body@ == range_chars(src.spec_bytes(), span.start as int, span.end as int));
    let stripped_text = strip_comments_preserving_literals(body);
    let stripped = crlf_to_lf(&chars_of(stripped_text.as_str()));
    let stripped_string = string_from_chars(stripped.as_slice());
    let normalized = normalize_source(stripped_string.as_str());
    let lines = body_line_count_exec(&stripped);
    let tokens = token_estimate(normalized.as_str());
    if normalized.as_str().is_empty() || lines < options.min_lines || tokens < options.min_tokens {
        return None;
    }
    let hash = sha256_hex(normalized.as_str());
    Some(ExactEntry { hash, size: b.end - b.start, lines, tokens })
}

/// The first definition at or after `i` whose body must be read and whose source is
/// missing.
pub open spec fn first_unreadable(ds: Seq<DefinitionInfo>, sources: Seq<Option<String>>, i: int) -> Option<int>
    decreases ds.len() - i,
{
    if i < 0 || i >= ds.len() {
        None
    } else if needs_source(ds[i]) && i < sources.len() && sources[i] is None {
        Some(i)
    } else {
        first_unreadable(ds, sources, i + 1)
    }
}

/// Two definitions agree in every field.
pub open spec fn same_definition(a: DefinitionInfo, b: DefinitionInfo) -> bool {
    &&& a.file == b.file
    &&& a.span_start == b.span_start
    &&& a.name == b.name
    &&& a.qualified_name == b.qualified_name
    &&& a.kind == b.kind
    &&& a.language == b.language
    &&& a.framework == b.framework
    &&& a.body_span == b.body_span
    &&& a.is_async == b.is_async
    &&& a.parameters@ == b.parameters@
    &&& a.return_type == b.return_type
}

pub(crate) fn clone_text(o: &Option<String>) -> (r: Option<String>)
    ensures
        r == *o,
{
    match o {
        Some(s) => Some(s.clone()),
        None => None,
    }
}

pub(crate) fn clone_definition(d: &DefinitionInfo) -> (r: DefinitionInfo)
    ensures
        same_definition(r, *d),
{
    let mut parameters: Vec<ParameterInfo> = Vec::new();
    for i in 0..d.parameters.len()
        invariant
            parameters@ == d.parameters@.take(i as int),
    {
        let p = &d.parameters[i];
        parameters.push(
            ParameterInfo {
                name: p.name.clone(),
                type_annotation: clone_text(&p.type_annotation),
                default_value: clone_text(&p.default_value),
            },
        );
        assert(parameters@ =~= d.parameters@.take(i + 1));
    }
    assert(d.parameters@.take(d.parameters@.len() as int) =~= d.parameters@);
    DefinitionInfo {
        file: d.file.clone(),
        span_start: d.span_start,
        name: d.name.clone(),
        qualified_name: d.qualified_name.clone(),
        kind: d.kind.clone(),
        language: d.language.clone(),
        framework: clone_text(&d.framework),
        body_span: d.body_span,
        is_async: d.is_async,
        parameters,
        return_type: clone_text(&d.return_type),
    }
}

/// Puts some definitions, given by position, in report order: by file, then start,
/// then qualified name.
pub fn order_definitions(ds: &Vec<DefinitionInfo>, members: &Vec<usize>) -> (r: Vec<usize>)
    ensures
        report_order(r@, members@, ds@),
{
    let ghost dv = ds@;
    proof {
        lemma_member_le_total_preorder(dv);
    }
    let le = |a: &usize, b: &usize| -> (r: bool)
        ensures
            r == member_le(ds@, *a, *b),
        {
            let n = ds.len();
            if *a < n && *b < n {
                let da = &ds[*a];
                let db = &ds[*b];
                if !path_le_exec(da.file.as_str(), db.file.as_str()) {
                    false
                } else if !path_le_exec(db.file.as_str(), da.file.as_str()) {
                    true
                } else {
                    da.span_start < db.span_start || (da.span_start == db.span_start && str_le(
                        da.qualified_name.as_str(),
                        db.qualified_name.as_str(),
                    ))
                }
            } else if *a < n {
                true
            } else if *b < n {
                false
            } else {
                *a <= *b
            }
        };
    let copy = clone_indices(members);
    sort_by_order(copy, le, Ghost(|a: usize, b: usize| member_le(dv, a, b)))
}

/// Two definitions name the same symbol: same file, start and qualified name.
pub open spec fn same_symbol(a: DefinitionInfo, b: DefinitionInfo) -> bool {
    a.file@ == b.file@ && a.span_start == b.span_start && a.qualified_name@ == b.qualified_name@
}

/// A group names at least two distinct symbols.
pub open spec fn several_symbols(members: Seq<usize>, ds: Seq<DefinitionInfo>) -> bool {
    exists|a: int, b: int|
        0 <= a < members.len() && 0 <= b < members.len() && !same_symbol(
            #[trigger] ds[members[a] as int],
            #[trigger] ds[members[b] as int],
        )
}

pub(crate) fn several_symbols_exec(members: &Vec<usize>, ds: &Vec<DefinitionInfo>) -> (r: bool)
    requires
        members@.len() > 0,
        forall|k: int| 0 <= k < members@.len() ==> (#[trigger] members@[k]) < ds@.len(),
    ensures
        r == several_symbols(members@, ds@),
{
    let first = &ds[members[0]];
    for k in 1..members.len()
        invariant
            members@.len() > 0,
            forall|k: int| 0 <= k < members@.len() ==> (#[trigger] members@[k]) < ds@.len(),
            *first == ds@[members@[0] as int],
            forall|j: int| 0 <= j < k ==> same_symbol(#[trigger] ds@[members@[j] as int], *first),
    {
        let d = &ds[members[k]];
        let same = crate::text::chars_eq(chars_of(d.file.as_str()).as_slice(), chars_of(first.file.as_str()).as_slice())
            && d.span_start == first.span_start && crate::text::chars_eq(
            chars_of(d.qualified_name.as_str()).as_slice(),
            chars_of(first.qualified_name.as_str()).as_slice(),
        );
        if !same {
            assert(!same_symbol(ds@[members@[k as int] as int], ds@[members@[0] as int]));
            return true;
        }
    }
    proof {
        assert forall|a: int, b: int|
            0 <= a < members@.len() && 0 <= b < members@.len() implies same_symbol(
            #[trigger] ds@[members@[a] as int],
            #[trigger] ds@[members@[b] as int],
        ) by {
            assert(same_symbol(ds@[members@[a] as int], *first));
            assert(same_symbol(ds@[members@[b] as int], *first));
        }
    }
    false
}

/// The hash key of each definition, empty for one that is not compared.
pub open spec fn entry_keys(ds: Seq<DefinitionInfo>, sources: Seq<Option<String>>, options: ExactBodyOptions) -> Seq<Seq<char>> {
    Seq::new(
        ds.len(),
        |i: int|
            match exact_entry(ds[i], sources[i], options) {
                Some(e) => e.0,
                None => seq![],
            },
    )
}

/// Which definitions are compared.
pub open spec fn entry_kept(ds: Seq<DefinitionInfo>, sources: Seq<Option<String>>, options: ExactBodyOptions) -> Seq<bool> {
    Seq::new(ds.len(), |i: int| exact_entry(ds[i], sources[i], options) is Some)
}

/// The groups that name at least two distinct symbols, in order.
pub open spec fn reported_groups(groups: Seq<KeyGroup>, ds: Seq<DefinitionInfo>) -> Seq<KeyGroup>
    decreases groups.len(),
{
    if groups.len() == 0 {
        seq![]
    } else if several_symbols(groups.last().members@, ds) {
        reported_groups(groups.drop_last(), ds).push(groups.last())
    } else {
        reported_groups(groups.drop_last(), ds)
    }
}

/// `bodies` holds, in the order `ord` gives, each listed definition with its entry.
pub open spec fn bodies_for(
    bodies: Seq<SymbolBody>,
    ord: Seq<usize>,
    ds: Seq<DefinitionInfo>,
    sources: Seq<Option<String>>,
    options: ExactBodyOptions,
) -> bool {
    &&& bodies.len() == ord.len()
    &&& forall|k: int|
        0 <= k < ord.len() ==> {
            &&& same_definition((#[trigger] bodies[k]).definition, ds[ord[k] as int])
            &&& exact_entry(ds[ord[k] as int], sources[ord[k] as int], options) == Some(
                (
                    bodies[k].stable_hash@,
                    bodies[k].body_size_bytes as nat,
                    bodies[k].line_count as nat,
                    bodies[k].token_estimate as nat,
                ),
            )
        }
}

/// `fd` is the finding for the definitions `members` that share a body hash: they are
/// reported by file, start and qualified name, each with its body's entry.
pub open spec fn describes_exact_body_group(
    fd: Finding,
    members: Seq<usize>,
    ds: Seq<DefinitionInfo>,
    sources: Seq<Option<String>>,
    options: ExactBodyOptions,
) -> bool {
    exists|ord: Seq<usize>, bodies: Seq<SymbolBody>|
        report_order(ord, members, ds) && bodies_for(bodies, ord, ds, sources, options) && describes_exact_body(
            fd,
            bodies,
        )
}

fn needs_source_exec(d: &DefinitionInfo) -> (r: bool)
    ensures
        r == needs_source(*d),
{
    function_like_kind_exec(d.kind.as_str()) && d.body_span.is_some()
}

/// Finds definitions with identical normalised bodies. `sources[i]` is the text of the
/// file of `definitions[i]`, `None` when it could not be read: reading fails for the
/// first definition whose body is needed and whose file could not be read. Otherwise
/// the compared bodies are grouped by hash, in hash order, and each group that names
/// at least two distinct symbols becomes one finding.
#[verifier::rlimit(40)]
pub fn find_exact_body_duplicates(
    definitions: &Vec<DefinitionInfo>,
    sources: &Vec<Option<String>>,
    options: ExactBodyOptions,
) -> (r: Result<Vec<Finding>, DuplicateError>)
    requires
        definitions@.len() == sources@.len(),
        forall|i: int| 0 <= i < definitions@.len() ==> ((#[trigger] definitions@[i]).body_span matches Some(b) ==> b.start <= b.end),
    ensures
        match first_unreadable(definitions@, sources@, 0) {
            Some(i) => r matches Err(DuplicateError::Read { path, .. }) && path@ == definitions@[i].file@,
            None => r is Ok,
        },
        r matches Ok(fs) ==> exists|groups: Seq<KeyGroup>|
            #![trigger reported_groups(groups, definitions@)]
            key_groups_valid(
                groups,
                entry_keys(definitions@, sources@, options),
                entry_kept(definitions@, sources@, options),
                definitions@.len() as int,
            ) && fs@.len() == reported_groups(groups, definitions@).len() && forall|f: int|
                0 <= f < fs@.len() ==> describes_exact_body_group(
                    #[trigger] fs@[f],
                    reported_groups(groups, definitions@)[f].members@,
                    definitions@,
                    sources@,
                    options,
                ),
{
    let ghost ds = definitions@;
    let ghost ss = sources@;
    let n = definitions.len();
    let mut keys: Vec<String> = Vec::new();
    let mut kept: Vec<bool> = Vec::new();
    let mut entries: Vec<Option<ExactEntry>> = Vec::new();
    for i in 0..n
        invariant
            n == ds.len(),
            ds == definitions@,
            ss == sources@,
            ds.len() == ss.len(),
            forall|i: int| 0 <= i < ds.len() ==> ((#[trigger] ds[i]).body_span matches Some(b) ==> b.start <= b.end),
            first_unreadable(ds, ss, 0) == first_unreadable(ds, ss, i as int),
            keys@.len() == i,
            kept@.len() == i,
            entries@.len() == i,
            forall|j: int| 0 <= j < i ==> entry_view(#[trigger] entries@[j]) == exact_entry(ds[j], ss[j], options),
            forall|j: int| 0 <= j < i ==> (#[trigger] keys@[j])@ == entry_keys(ds, ss, options)[j],
            forall|j: int| 0 <= j < i ==> #[trigger] kept@[j] == entry_kept(ds, ss, options)[j],
    {
        let d = &definitions[i];
        if needs_source_exec(d) && sources[i].is_none() {
            return Err(DuplicateError::Read { path: d.file.clone(), message: String::from_str("failed to read source file") });
        }
        let e = exact_entry_exec(d, &sources[i], options);
        match &e {
            Some(x) => {
                keys.push(x.hash.clone());
                kept.push(true);
            },
            None => {
                keys.push(String::new());
                kept.push(false);
            },
        }
        entries.push(e);
    }
    let ghost kv = entry_keys(ds, ss, options);
    let ghost ev = entry_kept(ds, ss, options);
    assert(key_views(keys@) =~= kv);
    assert(kept@ =~= ev);
    let groups = group_by_key(&keys, &kept);
    let ghost gs = groups@;
    let mut out: Vec<Finding> = Vec::new();
    for g in 0..groups.len()
        invariant
            gs == groups@,
            n == ds.len(),
            ds == definitions@,
            ss == sources@,
            ds.len() == ss.len(),
            key_groups_valid(gs, kv, ev, n as int),
            kv == entry_keys(ds, ss, options),
            ev == entry_kept(ds, ss, options),
            entries@.len() == n,
            forall|j: int| 0 <= j < n ==> entry_view(#[trigger] entries@[j]) == exact_entry(ds[j], ss[j], options),
            out@.len() == reported_groups(gs.take(g as int), ds).len(),
            forall|f: int|
                0 <= f < out@.len() ==> describes_exact_body_group(
                    #[trigger] out@[f],
                    reported_groups(gs.take(g as int), ds)[f].members@,
                    ds,
                    ss,
                    options,
                ),
    {
        let members = &groups[g].members;
        assert(gs.take(g + 1).drop_last() =~= gs.take(g as int));
        assert(gs.take(g + 1).last() == gs[g as int]);
        proof {
            assert forall|k: int| 0 <= k < members@.len() implies (#[trigger] members@[k]) < ds.len() by {
                let x = gs[g as int].members@[k];
            }
        }
        if several_symbols_exec(members, definitions) {
            let ord = order_definitions(definitions, members);
            proof {
                crate::near_findings::lemma_indices_in_range(ord@, members@, ds.len());
            }
            let mut bodies: Vec<SymbolBody> = Vec::new();
            for k in 0..ord.len()
                invariant
                    forall|i: int| 0 <= i < ord@.len() ==> (#[trigger] ord@[i]) < ds.len(),
                    report_order(ord@, members@, ds),
                    members == gs[g as int].members,
                    key_groups_valid(gs, kv, ev, n as int),
                    0 <= g < gs.len(),
                    ev == entry_kept(ds, ss, options),
                    ds.len() == ss.len(),
                    ds == definitions@,
                    entries@.len() == n,
                    n == ds.len(),
                    forall|j: int| 0 <= j < n ==> entry_view(#[trigger] entries@[j]) == exact_entry(ds[j], ss[j], options),
                    bodies_for(bodies@, ord@.take(k as int), ds, ss, options),
            {
                let x = ord[k];
                proof {
                    broadcast use vstd::seq_lib::group_to_multiset_ensures;
                    assert(ord@.contains(x));
                    assert(ord@.to_multiset().count(x) > 0);
                    assert(members@.to_multiset().count(x) > 0);
                    assert(members@.contains(x));
                    let m = choose|m: int| 0 <= m < members@.len() && members@[m] == x;
                    assert(gs[g as int].members@[m] == x);
                    assert(ev[x as int]);
                }
                match &entries[x] {
                    Some(e) => {
                        let body = SymbolBody {
                            definition: clone_definition(&definitions[x]),
                            body_size_bytes: e.size,
                            line_count: e.lines,
                            token_estimate: e.tokens,
                            stable_hash: e.hash.clone(),
                        };
                        bodies.push(body);
                        assert(ord@.take(k + 1).drop_last() =~= ord@.take(k as int));
                        assert forall|q: int| 0 <= q < k + 1 implies {
                            &&& same_definition((#[trigger] bodies@[q]).definition, ds[ord@.take(k + 1)[q] as int])
                            &&& exact_entry(ds[ord@.take(k + 1)[q] as int], ss[ord@.take(k + 1)[q] as int], options) == Some(
                                (
                                    bodies@[q].stable_hash@,
                                    bodies@[q].body_size_bytes as nat,
                                    bodies@[q].line_count as nat,
                                    bodies@[q].token_estimate as nat,
                                ),
                            )
                        } by {
                            if q < k {
                                assert(ord@.take(k + 1)[q] == ord@.take(k as int)[q]);
                            }
                        }
                    },
                    None => {
                        assert(false);
                    },
                }
            }
            assert(ord@.take(ord@.len() as int) =~= ord@);
            assert(ord@.len() == members@.len()) by {
                assert(members@.len() > 0);
            }
            let f = build_exact_body_finding(&bodies);
            assert(describes_exact_body_group(f, members@, ds, ss, options));
            out.push(f);
            assert(reported_groups(gs.take(g + 1), ds) == reported_groups(gs.take(g as int), ds).push(gs[g as int]));
        } else {
            assert(reported_groups(gs.take(g + 1), ds) == reported_groups(gs.take(g as int), ds));
        }
    }
    assert(gs.take(gs.len() as int) =~= gs);
    Ok(out)
}

} // verus!
