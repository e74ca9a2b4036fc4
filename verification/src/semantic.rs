//! Semantic duplicate detection: function-like definitions whose conservatively
//! normalised forms hash alike in one language are grouped; a group is reported when
//! it names at least two distinct symbols, some rewrite was applied, and its members
//! do not all share one structural hash.
use vstd::prelude::*;

use crate::duplication::SemanticDuplicateOptions;
use crate::exact_body::{
    clone_definition, clone_text, function_like_kind, function_like_kind_exec, order_definitions, same_definition,
    several_symbols, several_symbols_exec,
};
use crate::findings::{Confidence, Finding};
use crate::grouping::{group_by_key, key_groups_valid, key_views, KeyGroup};
use crate::near_findings::report_order;
use crate::near_pipeline::clone_strings;
use crate::normalize::{spec_token_count, token_estimate};
use crate::symbol_findings::{build_semantic_finding, describes_semantic_group, DefinitionInfo, SemanticBody};
use crate::text::{chars_eq, chars_of};

verus! {

/// A conservative semantic fingerprint of a definition's body: its hash and version,
/// the serialised form it hashes, how sure the normalisation is, and the rewrites
/// applied or skipped with their warnings and type evidence.
#[derive(Debug, Clone)]
pub struct SemanticFingerprint {
    pub stable_hash: String,
    pub version: String,
    pub serialization: String,
    pub confidence: Confidence,
    pub rewrites: Vec<String>,
    pub skipped_rewrites: Vec<String>,
    pub safety_warnings: Vec<String>,
    pub type_evidence: Vec<String>,
}

/// What semantic detection reads of a definition besides the definition itself: the
/// number of lines its body spans, its semantic fingerprint, the one taken with
/// property reads counted as pure, and its canonical structural hash, where it has them.
#[derive(Debug, Clone)]
pub struct SemanticFacts {
    pub line_count: usize,
    pub semantic: Option<SemanticFingerprint>,
    pub property_read: Option<SemanticFingerprint>,
    pub structural_hash: Option<String>,
}

/// The fingerprint the options compare: the property-read one when property reads
/// count as pure and it exists, else the plain one.
pub open spec fn selected_semantic(f: SemanticFacts, options: SemanticDuplicateOptions) -> Option<SemanticFingerprint> {
    if options.property_reads_are_pure && f.property_read is Some {
        f.property_read
    } else {
        f.semantic
    }
}

/// The fingerprint applied a rewrite of this name.
pub open spec fn has_rewrite(fp: SemanticFingerprint, name: Seq<char>) -> bool {
    exists|i: int| 0 <= i < fp.rewrites@.len() && (#[trigger] fp.rewrites@[i])@ == name
}

/// The fingerprint applied only rewrites that the options allow.
pub open spec fn rewrites_allowed(fp: SemanticFingerprint, options: SemanticDuplicateOptions) -> bool {
    &&& options.normalize_boolean_returns || !(has_rewrite(fp, "boolean_return_simplification"@) || has_rewrite(
        fp,
        "inverse_boolean_return_simplification"@,
    ))
    &&& options.normalize_commutative_ops || !(has_rewrite(fp, "commutative_numeric_add"@) || has_rewrite(
        fp,
        "commutative_numeric_multiply"@,
    ) || has_rewrite(fp, "pure_boolean_operand_order"@) || has_rewrite(fp, "equality_operand_order"@))
    &&& options.normalize_comparisons || !has_rewrite(fp, "comparison_inversion"@)
}

/// Whether a definition is compared: a function-like kind whose selected fingerprint
/// uses only allowed rewrites, has at least the minimum tokens and confidence, and
/// whose body spans at least the minimum lines.
pub open spec fn semantic_kept(d: DefinitionInfo, facts: SemanticFacts, options: SemanticDuplicateOptions) -> bool {
    match selected_semantic(facts, options) {
        None => false,
        Some(fp) => {
            &&& function_like_kind(d.kind@)
            &&& rewrites_allowed(fp, options)
            &&& spec_token_count(fp.serialization@) >= options.min_tokens
            &&& fp.confidence.spec_rank() >= options.min_confidence.spec_rank()
            &&& facts.line_count >= options.min_lines
        },
    }
}

/// The grouping key of each definition: its language and fingerprint hash, empty for
/// one that is not compared.
pub open spec fn semantic_keys(ds: Seq<DefinitionInfo>, facts: Seq<SemanticFacts>, options: SemanticDuplicateOptions) -> Seq<Seq<char>> {
    Seq::new(
        ds.len(),
        |i: int|
            if semantic_kept(ds[i], facts[i], options) {
                ds[i].language@ + "\n"@ + selected_semantic(facts[i], options)->0.stable_hash@
            } else {
                seq![]
            },
    )
}

/// Which definitions are compared.
pub open spec fn semantic_eligible(ds: Seq<DefinitionInfo>, facts: Seq<SemanticFacts>, options: SemanticDuplicateOptions) -> Seq<bool> {
    Seq::new(ds.len(), |i: int| semantic_kept(ds[i], facts[i], options))
}

/// A group is reported: it names two distinct symbols, some member's fingerprint
/// applied a rewrite, and its members do not all have one and the same structural hash.
pub open spec fn semantic_reported(members: Seq<usize>, ds: Seq<DefinitionInfo>, facts: Seq<SemanticFacts>, options: SemanticDuplicateOptions) -> bool {
    &&& several_symbols(members, ds)
    &&& exists|k: int|
        0 <= k < members.len() && selected_semantic(#[trigger] facts[members[k] as int], options)->0.rewrites@.len() > 0
    &&& !(forall|k: int|
        0 <= k < members.len() ==> (#[trigger] facts[members[k] as int]).structural_hash is Some
            && facts[members[k] as int].structural_hash->0@ == facts[members[0] as int].structural_hash->0@)
}

/// The reported groups, in order.
pub open spec fn reported_semantic_groups(
    groups: Seq<KeyGroup>,
    ds: Seq<DefinitionInfo>,
    facts: Seq<SemanticFacts>,
    options: SemanticDuplicateOptions,
) -> Seq<KeyGroup>
    decreases groups.len(),
{
    if groups.len() == 0 {
        seq![]
    } else if semantic_reported(groups.last().members@, ds, facts, options) {
        reported_semantic_groups(groups.drop_last(), ds, facts, options).push(groups.last())
    } else {
        reported_semantic_groups(groups.drop_last(), ds, facts, options)
    }
}

/// `b` is the semantic body of definition `d` with fingerprint `fp`.
pub open spec fn semantic_body_matches(b: SemanticBody, d: DefinitionInfo, facts: SemanticFacts, fp: SemanticFingerprint) -> bool {
    &&& same_definition(b.definition, d)
    &&& b.line_count == facts.line_count
    &&& b.stable_hash@ == fp.stable_hash@
    &&& b.version@ == fp.version@
    &&& b.serialization@ == fp.serialization@
    &&& b.confidence == fp.confidence
    &&& b.rewrites@ == fp.rewrites@
    &&& b.skipped_rewrites@ == fp.skipped_rewrites@
    &&& b.safety_warnings@ == fp.safety_warnings@
    &&& b.type_evidence@ == fp.type_evidence@
    &&& b.structural_hash == facts.structural_hash
}

/// `fd` is the finding for the definitions `members` that share a language and a
/// semantic hash: they are reported by file, start and qualified name, each with its
/// selected fingerprint.
pub open spec fn describes_semantic_members(
    fd: Finding,
    members: Seq<usize>,
    ds: Seq<DefinitionInfo>,
    facts: Seq<SemanticFacts>,
    options: SemanticDuplicateOptions,
) -> bool {
    exists|ord: Seq<usize>, bodies: Seq<SemanticBody>|
        #![trigger report_order(ord, members, ds), describes_semantic_group(fd, bodies)]
        report_order(ord, members, ds) && bodies.len() == ord.len() && (forall|k: int|
            0 <= k < ord.len() ==> semantic_body_matches(
                #[trigger] bodies[k],
                ds[ord[k] as int],
                facts[ord[k] as int],
                selected_semantic(facts[ord[k] as int], options)->0,
            )) && describes_semantic_group(fd, bodies)
}

fn semantic_body(d: &DefinitionInfo, facts: &SemanticFacts, fp: &SemanticFingerprint) -> (r: SemanticBody)
    ensures
        semantic_body_matches(r, *d, *facts, *fp),
{
    SemanticBody {
        definition: clone_definition(d),
        line_count: facts.line_count,
        stable_hash: fp.stable_hash.clone(),
        version: fp.version.clone(),
        serialization: fp.serialization.clone(),
        confidence: fp.confidence,
        rewrites: clone_strings(&fp.rewrites),
        skipped_rewrites: clone_strings(&fp.skipped_rewrites),
        safety_warnings: clone_strings(&fp.safety_warnings),
        type_evidence: clone_strings(&fp.type_evidence),
        structural_hash: clone_text(&facts.structural_hash),
    }
}

fn has_rewrite_exec(fp: &SemanticFingerprint, name: &str) -> (r: bool)
    ensures
        r == has_rewrite(*fp, name@),
{
    for i in 0..fp.rewrites.len()
        invariant
            forall|j: int| 0 <= j < i ==> (#[trigger] fp.rewrites@[j])@ != name@,
    {
        if chars_eq(chars_of(fp.rewrites[i].as_str()).as_slice(), chars_of(name).as_slice()) {
            return true;
        }
    }
    false
}

fn rewrites_allowed_exec(fp: &SemanticFingerprint, options: SemanticDuplicateOptions) -> (r: bool)
    ensures
        r == rewrites_allowed(*fp, options),
{
    if !options.normalize_boolean_returns && (has_rewrite_exec(fp, "boolean_return_simplification") || has_rewrite_exec(
        fp,
        "inverse_boolean_return_simplification",
    )) {
        return false;
    }
    if !options.normalize_commutative_ops && (has_rewrite_exec(fp, "commutative_numeric_add") || has_rewrite_exec(
        fp,
        "commutative_numeric_multiply",
    ) || has_rewrite_exec(fp, "pure_boolean_operand_order") || has_rewrite_exec(fp, "equality_operand_order")) {
        return false;
    }
    if !options.normalize_comparisons && has_rewrite_exec(fp, "comparison_inversion") {
        return false;
    }
    true
}

fn group_has_rewrites(members: &Vec<usize>, bodies: &Vec<Option<SemanticBody>>) -> (r: bool)
    requires
        forall|k: int| 0 <= k < members@.len() ==> (#[trigger] members@[k]) < bodies@.len() && bodies@[members@[k] as int] is Some,
    ensures
        r == exists|k: int| 0 <= k < members@.len() && (#[trigger] bodies@[members@[k] as int])->0.rewrites@.len() > 0,
{
    for k in 0..members.len()
        invariant
            forall|k: int| 0 <= k < members@.len() ==> (#[trigger] members@[k]) < bodies@.len() && bodies@[members@[k] as int] is Some,
            forall|j: int| 0 <= j < k ==> (#[trigger] bodies@[members@[j] as int])->0.rewrites@.len() == 0,
    {
        match &bodies[members[k]] {
            Some(b) => {
                if b.rewrites.len() > 0 {
                    return true;
                }
            },
            None => {},
        }
    }
    false
}

fn one_structural_hash(members: &Vec<usize>, bodies: &Vec<Option<SemanticBody>>) -> (r: bool)
    requires
        members@.len() > 0,
        forall|k: int| 0 <= k < members@.len() ==> (#[trigger] members@[k]) < bodies@.len() && bodies@[members@[k] as int] is Some,
    ensures
        r == forall|k: int|
            0 <= k < members@.len() ==> (#[trigger] bodies@[members@[k] as int])->0.structural_hash is Some
                && bodies@[members@[k] as int]->0.structural_hash->0@ == bodies@[members@[0] as int]->0.structural_hash->0@,
{
    let first = match &bodies[members[0]] {
        Some(b) => match &b.structural_hash {
            Some(h) => h,
            None => {
                return false;
            },
        },
        None => {
            return false;
        },
    };
    for k in 0..members.len()
        invariant
            members@.len() > 0,
            forall|k: int| 0 <= k < members@.len() ==> (#[trigger] members@[k]) < bodies@.len() && bodies@[members@[k] as int] is Some,
            bodies@[members@[0] as int]->0.structural_hash == Some(*first),
            forall|j: int|
                0 <= j < k ==> (#[trigger] bodies@[members@[j] as int])->0.structural_hash is Some
                    && bodies@[members@[j] as int]->0.structural_hash->0@ == first@,
    {
        match &bodies[members[k]] {
            Some(b) => match &b.structural_hash {
                Some(h) => {
                    if !chars_eq(chars_of(h.as_str()).as_slice(), chars_of(first.as_str()).as_slice()) {
                        return false;
                    }
                },
                None => {
                    return false;
                },
            },
            None => {},
        }
    }
    true
}

/// Finds groups of definitions with the same semantic fingerprint. `facts[i]` holds
/// what was read of `definitions[i]`. The compared definitions are grouped by language
/// and fingerprint hash, in key order, and each reported group becomes one finding.
#[verifier::rlimit(60)]
pub fn find_semantic_function_duplicates(
    definitions: &Vec<DefinitionInfo>,
    facts: &Vec<SemanticFacts>,
    options: SemanticDuplicateOptions,
) -> (r: Vec<Finding>)
    requires
        definitions@.len() == facts@.len(),
    ensures
        exists|groups: Seq<KeyGroup>|
            #![trigger reported_semantic_groups(groups, definitions@, facts@, options)]
            key_groups_valid(
                groups,
                semantic_keys(definitions@, facts@, options),
                semantic_eligible(definitions@, facts@, options),
                definitions@.len() as int,
            ) && r@.len() == reported_semantic_groups(groups, definitions@, facts@, options).len() && forall|f: int|
                0 <= f < r@.len() ==> describes_semantic_members(
                    #[trigger] r@[f],
                    reported_semantic_groups(groups, definitions@, facts@, options)[f].members@,
                    definitions@,
                    facts@,
                    options,
                ),
{
    let ghost ds = definitions@;
    let ghost fs = facts@;
    let n = definitions.len();
    let ghost kv = semantic_keys(ds, fs, options);
    let ghost ev = semantic_eligible(ds, fs, options);
    let mut keys: Vec<String> = Vec::new();
    let mut kept: Vec<bool> = Vec::new();
    let mut bodies: Vec<Option<SemanticBody>> = Vec::new();
    for i in 0..n
        invariant
            n == ds.len(),
            ds == definitions@,
            fs == facts@,
            ds.len() == fs.len(),
            kv == semantic_keys(ds, fs, options),
            ev == semantic_eligible(ds, fs, options),
            keys@.len() == i,
            kept@.len() == i,
            bodies@.len() == i,
            forall|j: int| 0 <= j < i ==> (#[trigger] keys@[j])@ == kv[j],
            forall|j: int| 0 <= j < i ==> #[trigger] kept@[j] == ev[j],
            forall|j: int|
                0 <= j < i ==> (ev[j] <==> (#[trigger] bodies@[j]) is Some) && (bodies@[j] matches Some(b)
                    ==> semantic_body_matches(b, ds[j], fs[j], selected_semantic(fs[j], options)->0)),
    {
        let d = &definitions[i];
        let fc = &facts[i];
        let selected = if options.property_reads_are_pure && fc.property_read.is_some() {
            &fc.property_read
        } else {
            &fc.semantic
        };
        let mut entry: Option<SemanticBody> = None;
        match selected {
            Some(fp) => {
                if function_like_kind_exec(d.kind.as_str()) && rewrites_allowed_exec(fp, options) && token_estimate(
                    fp.serialization.as_str(),
                ) >= options.min_tokens && fp.confidence.rank() >= options.min_confidence.rank() && fc.line_count
                    >= options.min_lines {
                    entry = Some(semantic_body(d, fc, fp));
                }
            },
            None => {},
        }
        match &entry {
            Some(b) => {
                let mut key = d.language.clone();
                key.append("\n");
                key.append(b.stable_hash.as_str());
                keys.push(key);
                kept.push(true);
            },
            None => {
                keys.push(String::new());
                kept.push(false);
            },
        }
        bodies.push(entry);
    }
    assert(key_views(keys@) =~= kv);
    assert(kept@ =~= ev);
    let groups = group_by_key(&keys, &kept);
    let ghost gs = groups@;
    let mut out: Vec<Finding> = Vec::new();
    for g in 0..groups.len()
        invariant
            gs == groups@,
            n == ds.len(),
            ds == definitions@,
            fs == facts@,
            ds.len() == fs.len(),
            key_groups_valid(gs, kv, ev, n as int),
            kv == semantic_keys(ds, fs, options),
            ev == semantic_eligible(ds, fs, options),
            bodies@.len() == n,
            forall|j: int|
                0 <= j < n ==> (ev[j] <==> (#[trigger] bodies@[j]) is Some) && (bodies@[j] matches Some(b)
                    ==> semantic_body_matches(b, ds[j], fs[j], selected_semantic(fs[j], options)->0)),
            out@.len() == reported_semantic_groups(gs.take(g as int), ds, fs, options).len(),
            forall|f: int|
                0 <= f < out@.len() ==> describes_semantic_members(
                    #[trigger] out@[f],
                    reported_semantic_groups(gs.take(g as int), ds, fs, options)[f].members@,
                    ds,
                    fs,
                    options,
                ),
    {
        let members = &groups[g].members;
        assert(gs.take(g + 1).drop_last() =~= gs.take(g as int));
        assert(gs.take(g + 1).last() == gs[g as int]);
        proof {
            assert forall|k: int| 0 <= k < members@.len() implies (#[trigger] members@[k]) < ds.len() && bodies@[members@[k] as int] is Some by {
                let x = gs[g as int].members@[k];
                assert(ev[x as int]);
            }
        }
        let several = several_symbols_exec(members, definitions);
        let rewritten = group_has_rewrites(members, &bodies);
        let same_structure = one_structural_hash(members, &bodies);
        proof {
            let m = members@;
            assert(rewritten == exists|k: int|
                0 <= k < m.len() && selected_semantic(#[trigger] fs[m[k] as int], options)->0.rewrites@.len() > 0) by {
                if rewritten {
                    let k = choose|k: int| 0 <= k < m.len() && (#[trigger] bodies@[m[k] as int])->0.rewrites@.len() > 0;
                    assert(selected_semantic(fs[m[k] as int], options)->0.rewrites@.len() > 0);
                } else {
                    assert forall|k: int| 0 <= k < m.len() implies !(selected_semantic(#[trigger] fs[m[k] as int], options)->0.rewrites@.len() > 0) by {
                        assert(bodies@[m[k] as int]->0.rewrites@.len() == 0);
                    }
                }
            }
            assert(same_structure == forall|k: int|
                0 <= k < m.len() ==> (#[trigger] fs[m[k] as int]).structural_hash is Some
                    && fs[m[k] as int].structural_hash->0@ == fs[m[0] as int].structural_hash->0@) by {
                if same_structure {
                    assert forall|k: int| 0 <= k < m.len() implies (#[trigger] fs[m[k] as int]).structural_hash is Some
                        && fs[m[k] as int].structural_hash->0@ == fs[m[0] as int].structural_hash->0@ by {
                        assert(bodies@[m[k] as int]->0.structural_hash is Some);
                    }
                } else {
                    let k = choose|k: int|
                        !(0 <= k < m.len() ==> (#[trigger] bodies@[m[k] as int])->0.structural_hash is Some
                            && bodies@[m[k] as int]->0.structural_hash->0@ == bodies@[m[0] as int]->0.structural_hash->0@);
                    assert(!(fs[m[k] as int].structural_hash is Some && fs[m[k] as int].structural_hash->0@
                        == fs[m[0] as int].structural_hash->0@));
                }
            }
        }
        if several && rewritten && !same_structure {
            let ord = order_definitions(definitions, members);
            proof {
                crate::near_findings::lemma_indices_in_range(ord@, members@, ds.len());
            }
            let mut group: Vec<SemanticBody> = Vec::new();
            for k in 0..ord.len()
                invariant
                    forall|i: int| 0 <= i < ord@.len() ==> (#[trigger] ord@[i]) < ds.len(),
                    report_order(ord@, members@, ds),
                    members == gs[g as int].members,
                    key_groups_valid(gs, kv, ev, n as int),
                    0 <= g < gs.len(),
                    ev == semantic_eligible(ds, fs, options),
                    ds.len() == fs.len(),
                    ds == definitions@,
                    bodies@.len() == n,
                    n == ds.len(),
                    forall|j: int|
                        0 <= j < n ==> (ev[j] <==> (#[trigger] bodies@[j]) is Some) && (bodies@[j] matches Some(b)
                            ==> semantic_body_matches(b, ds[j], fs[j], selected_semantic(fs[j], options)->0)),
                    group@.len() == k,
                    forall|q: int|
                        0 <= q < k ==> semantic_body_matches(
                            #[trigger] group@[q],
                            ds[ord@[q] as int],
                            fs[ord@[q] as int],
                            selected_semantic(fs[ord@[q] as int], options)->0,
                        ),
            {
                let x = ord[k];
                proof {
                    broadcast use vstd::seq_lib::group_to_multiset_ensures;
                    assert(ord@.contains(x));
                    assert(ord@.to_multiset().count(x) > 0);
                    assert(members@.to_multiset().count(x) > 0);
                    assert(members@.contains(x));
                    let m = choose|m: int| 0 <= m < members@.len() && members@[m] == x;
                    assert(gs[g as int].members@[m] == x);
                    assert(ev[x as int]);
                }
                match &bodies[x] {
                    Some(b) => {
                        let copy = SemanticBody {
                            definition: clone_definition(&b.definition),
                            line_count: b.line_count,
                            stable_hash: b.stable_hash.clone(),
                            version: b.version.clone(),
                            serialization: b.serialization.clone(),
                            confidence: b.confidence,
                            rewrites: clone_strings(&b.rewrites),
                            skipped_rewrites: clone_strings(&b.skipped_rewrites),
                            safety_warnings: clone_strings(&b.safety_warnings),
                            type_evidence: clone_strings(&b.type_evidence),
                            structural_hash: clone_text(&b.structural_hash),
                        };
                        group.push(copy);
                    },
                    None => {
                        assert(false);
                    },
                }
            }
            assert(ord@.len() == members@.len()) by {
                assert(members@.len() > 0);
            }
            let f = build_semantic_finding(&group);
            assert(describes_semantic_members(f, members@, ds, fs, options)) by {
                assert(report_order(ord@, members@, ds));
                assert(describes_semantic_group(f, group@));
            }
            out.push(f);
            assert(reported_semantic_groups(gs.take(g + 1), ds, fs, options) == reported_semantic_groups(
                gs.take(g as int),
                ds,
                fs,
                options,
            ).push(gs[g as int]));
        } else {
            assert(reported_semantic_groups(gs.take(g + 1), ds, fs, options) == reported_semantic_groups(
                gs.take(g as int),
                ds,
                fs,
                options,
            ));
        }
    }
    assert(gs.take(gs.len() as int) =~= gs);
    out
}

} // verus!
