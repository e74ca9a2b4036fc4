//! Structural duplicate detection: function-like definitions whose canonical syntax
//! trees hash alike in one language are grouped, and each group that names at least
//! two distinct symbols becomes one finding.
use vstd::prelude::*;

use crate::duplication::StructuralOptions;
use crate::exact_body::{
    clone_definition, function_like_kind, function_like_kind_exec, order_definitions, reported_groups,
    same_definition, several_symbols_exec,
};
use crate::findings::Finding;
use crate::grouping::{group_by_key, key_groups_valid, key_views, KeyGroup};
use crate::near_findings::report_order;
use crate::near_pipeline::clone_strings;
use crate::symbol_findings::{
    build_structural_finding, describes_structural_group, opaque_percent, spec_opaque_percent, DefinitionInfo,
    StructuralBody,
};

verus! {

/// A canonical structural fingerprint of a definition's body: its hash and version,
/// the literal policy it was taken with, its node counts, token estimate, signature,
/// calls and framework context.
#[derive(Debug, Clone)]
pub struct StructuralFingerprint {
    pub stable_hash: String,
    pub version: String,
    pub literal_policy: String,
    pub node_count: usize,
    pub opaque_node_count: usize,
    pub token_estimate: usize,
    pub parameter_count: usize,
    pub return_shape: String,
    pub call_names: Vec<String>,
    pub framework_context: Vec<String>,
}

/// What structural detection reads of a definition besides the definition itself: the
/// number of lines its body spans, and its fingerprints with literals preserved and
/// with literals normalised, where it has them.
#[derive(Debug, Clone)]
pub struct StructuralFacts {
    pub line_count: usize,
    pub preserved: Option<StructuralFingerprint>,
    pub literal_normalized: Option<StructuralFingerprint>,
}

/// The fingerprint the options compare.
pub open spec fn selected_fingerprint(f: StructuralFacts, options: StructuralOptions) -> Option<StructuralFingerprint> {
    if options.normalize_literals {
        f.literal_normalized
    } else {
        f.preserved
    }
}

/// `b` is the structural body of definition `d` with fingerprint `fp`.
pub open spec fn body_matches(b: StructuralBody, d: DefinitionInfo, facts: StructuralFacts, fp: StructuralFingerprint) -> bool {
    &&& same_definition(b.definition, d)
    &&& b.line_count == facts.line_count
    &&& b.stable_hash@ == fp.stable_hash@
    &&& b.version@ == fp.version@
    &&& b.literal_policy@ == fp.literal_policy@
    &&& b.node_count == fp.node_count
    &&& b.opaque_node_count == fp.opaque_node_count
    &&& b.token_estimate == fp.token_estimate
    &&& b.parameter_count == fp.parameter_count
    &&& b.return_shape@ == fp.return_shape@
    &&& b.call_names@ == fp.call_names@
    &&& b.framework_context@ == fp.framework_context@
}

/// Whether a definition is compared: a function-like kind whose selected fingerprint
/// has at least the minimum nodes and tokens, at most the maximum share of opaque
/// nodes, and whose body spans at least the minimum lines.
pub open spec fn structural_kept(d: DefinitionInfo, facts: StructuralFacts, options: StructuralOptions) -> bool {
    match selected_fingerprint(facts, options) {
        None => false,
        Some(fp) => {
            &&& function_like_kind(d.kind@)
            &&& fp.node_count >= options.min_nodes
            &&& fp.token_estimate >= options.min_tokens
            &&& fingerprint_opaque_percent(fp) <= options.max_opaque_percent
            &&& facts.line_count >= options.min_lines
        },
    }
}

/// The share of a fingerprint's nodes that are opaque, in percent, as structural
/// findings count it.
pub open spec fn fingerprint_opaque_percent(fp: StructuralFingerprint) -> nat {
    if fp.node_count == 0 {
        100
    } else {
        let v = (fp.opaque_node_count * 100) / (fp.node_count as int);
        if v <= 255 {
            v as nat
        } else {
            100
        }
    }
}

/// The grouping key of each definition: its language and fingerprint hash, empty for
/// one that is not compared.
pub open spec fn structural_keys(ds: Seq<DefinitionInfo>, facts: Seq<StructuralFacts>, options: StructuralOptions) -> Seq<Seq<char>> {
    Seq::new(
        ds.len(),
        |i: int|
            if structural_kept(ds[i], facts[i], options) {
                ds[i].language@ + "\n"@ + selected_fingerprint(facts[i], options)->0.stable_hash@
            } else {
                seq![]
            },
    )
}

/// Which definitions are compared.
pub open spec fn structural_eligible(ds: Seq<DefinitionInfo>, facts: Seq<StructuralFacts>, options: StructuralOptions) -> Seq<bool> {
    Seq::new(ds.len(), |i: int| structural_kept(ds[i], facts[i], options))
}

/// `fd` is the finding for the definitions `members` that share a language and a
/// fingerprint hash: they are reported by file, start and qualified name, each with
/// its selected fingerprint.
pub open spec fn describes_structural_members(
    fd: Finding,
    members: Seq<usize>,
    ds: Seq<DefinitionInfo>,
    facts: Seq<StructuralFacts>,
    options: StructuralOptions,
) -> bool {
    exists|ord: Seq<usize>, bodies: Seq<StructuralBody>|
        #![trigger report_order(ord, members, ds), describes_structural_group(fd, bodies)]
        report_order(ord, members, ds) && bodies.len() == ord.len() && (forall|k: int|
            0 <= k < ord.len() ==> body_matches(
                #[trigger] bodies[k],
                ds[ord[k] as int],
                facts[ord[k] as int],
                selected_fingerprint(facts[ord[k] as int], options)->0,
            )) && describes_structural_group(fd, bodies)
}

fn structural_body(d: &DefinitionInfo, facts: &StructuralFacts, fp: &StructuralFingerprint) -> (r: StructuralBody)
    ensures
        body_matches(r, *d, *facts, *fp),
{
    StructuralBody {
        definition: clone_definition(d),
        line_count: facts.line_count,
        stable_hash: fp.stable_hash.clone(),
        version: fp.version.clone(),
        literal_policy: fp.literal_policy.clone(),
        node_count: fp.node_count,
        opaque_node_count: fp.opaque_node_count,
        token_estimate: fp.token_estimate,
        parameter_count: fp.parameter_count,
        return_shape: fp.return_shape.clone(),
        call_names: clone_strings(&fp.call_names),
        framework_context: clone_strings(&fp.framework_context),
    }
}

/// Finds groups of definitions with the same canonical structure. `facts[i]` holds
/// what was read of `definitions[i]`. The compared definitions are grouped by language
/// and fingerprint hash, in key order, and each group that names at least two distinct
/// symbols becomes one finding.
#[verifier::rlimit(40)]
pub fn find_structural_duplicates(
    definitions: &Vec<DefinitionInfo>,
    facts: &Vec<StructuralFacts>,
    options: StructuralOptions,
) -> (r: Vec<Finding>)
    requires
        definitions@.len() == facts@.len(),
        forall|i: int|
            0 <= i < facts@.len() ==> (selected_fingerprint(#[trigger] facts@[i], options) matches Some(fp)
                ==> fp.opaque_node_count * 100 <= usize::MAX),
    ensures
        exists|groups: Seq<KeyGroup>|
            #![trigger reported_groups(groups, definitions@)]
            key_groups_valid(
                groups,
                structural_keys(definitions@, facts@, options),
                structural_eligible(definitions@, facts@, options),
                definitions@.len() as int,
            ) && r@.len() == reported_groups(groups, definitions@).len() && forall|f: int|
                0 <= f < r@.len() ==> describes_structural_members(
                    #[trigger] r@[f],
                    reported_groups(groups, definitions@)[f].members@,
                    definitions@,
                    facts@,
                    options,
                ),
{
    let ghost ds = definitions@;
    let ghost fs = facts@;
    let n = definitions.len();
    let ghost kv = structural_keys(ds, fs, options);
    let ghost ev = structural_eligible(ds, fs, options);
    let mut keys: Vec<String> = Vec::new();
    let mut kept: Vec<bool> = Vec::new();
    let mut bodies: Vec<Option<StructuralBody>> = Vec::new();
    for i in 0..n
        invariant
            n == ds.len(),
            ds == definitions@,
            fs == facts@,
            ds.len() == fs.len(),
            kv == structural_keys(ds, fs, options),
            ev == structural_eligible(ds, fs, options),
            forall|i: int|
                0 <= i < fs.len() ==> (selected_fingerprint(#[trigger] fs[i], options) matches Some(fp) ==> fp.opaque_node_count
                    * 100 <= usize::MAX),
            keys@.len() == i,
            kept@.len() == i,
            bodies@.len() == i,
            forall|j: int| 0 <= j < i ==> (#[trigger] keys@[j])@ == kv[j],
            forall|j: int| 0 <= j < i ==> #[trigger] kept@[j] == ev[j],
            forall|j: int|
                0 <= j < i ==> (ev[j] <==> (#[trigger] bodies@[j]) is Some) && (bodies@[j] matches Some(b) ==> body_matches(
                    b,
                    ds[j],
                    fs[j],
                    selected_fingerprint(fs[j], options)->0,
                )),
    {
        let d = &definitions[i];
        let fc = &facts[i];
        let selected = if options.normalize_literals {
            &fc.literal_normalized
        } else {
            &fc.preserved
        };
        let mut entry: Option<StructuralBody> = None;
        match selected {
            Some(fp) => {
                let b = structural_body(d, fc, fp);
                assert(spec_opaque_percent(b) == fingerprint_opaque_percent(*fp));
                if function_like_kind_exec(d.kind.as_str()) && fp.node_count >= options.min_nodes && fp.token_estimate
                    >= options.min_tokens && opaque_percent(&b) <= options.max_opaque_percent as usize && fc.line_count
                    >= options.min_lines {
                    entry = Some(b);
                }
            },
            None => {},
        }
        match &entry {
            Some(b) => {
                let mut key = d.language.clone();
                key.append("\n");
                key.append(b.stable_hash.as_str());
                keys.push(key);
                kept.push(true);
            },
            None => {
                keys.push(String::new());
                kept.push(false);
            },
        }
        bodies.push(entry);
    }
    assert(key_views(keys@) =~= kv);
    assert(kept@ =~= ev);
    let groups = group_by_key(&keys, &kept);
    let ghost gs = groups@;
    let mut out: Vec<Finding> = Vec::new();
    for g in 0..groups.len()
        invariant
            gs == groups@,
            n == ds.len(),
            ds == definitions@,
            fs == facts@,
            ds.len() == fs.len(),
            key_groups_valid(gs, kv, ev, n as int),
            kv == structural_keys(ds, fs, options),
            ev == structural_eligible(ds, fs, options),
            bodies@.len() == n,
            forall|i: int|
                0 <= i < fs.len() ==> (selected_fingerprint(#[trigger] fs[i], options) matches Some(fp) ==> fp.opaque_node_count
                    * 100 <= usize::MAX),
            forall|j: int|
                0 <= j < n ==> (ev[j] <==> (#[trigger] bodies@[j]) is Some) && (bodies@[j] matches Some(b) ==> body_matches(
                    b,
                    ds[j],
                    fs[j],
                    selected_fingerprint(fs[j], options)->0,
                )),
            out@.len() == reported_groups(gs.take(g as int), ds).len(),
            forall|f: int|
                0 <= f < out@.len() ==> describes_structural_members(
                    #[trigger] out@[f],
                    reported_groups(gs.take(g as int), ds)[f].members@,
                    ds,
                    fs,
                    options,
                ),
    {
        let members = &groups[g].members;
        assert(gs.take(g + 1).drop_last() =~= gs.take(g as int));
        assert(gs.take(g + 1).last() == gs[g as int]);
        proof {
            assert forall|k: int| 0 <= k < members@.len() implies (#[trigger] members@[k]) < ds.len() by {
                let x = gs[g as int].members@[k];
            }
        }
        if several_symbols_exec(members, definitions) {
            let ord = order_definitions(definitions, members);
            proof {
                crate::near_findings::lemma_indices_in_range(ord@, members@, ds.len());
            }
            let mut group: Vec<StructuralBody> = Vec::new();
            for k in 0..ord.len()
                invariant
                    forall|i: int| 0 <= i < ord@.len() ==> (#[trigger] ord@[i]) < ds.len(),
                    report_order(ord@, members@, ds),
                    members == gs[g as int].members,
                    key_groups_valid(gs, kv, ev, n as int),
                    0 <= g < gs.len(),
                    ev == structural_eligible(ds, fs, options),
                    ds.len() == fs.len(),
                    ds == definitions@,
                    bodies@.len() == n,
                    n == ds.len(),
                    forall|i: int|
                        0 <= i < fs.len() ==> (selected_fingerprint(#[trigger] fs[i], options) matches Some(fp)
                            ==> fp.opaque_node_count * 100 <= usize::MAX),
                    forall|j: int|
                        0 <= j < n ==> (ev[j] <==> (#[trigger] bodies@[j]) is Some) && (bodies@[j] matches Some(b)
                            ==> body_matches(b, ds[j], fs[j], selected_fingerprint(fs[j], options)->0)),
                    group@.len() == k,
                    forall|q: int|
                        0 <= q < k ==> body_matches(
                            #[trigger] group@[q],
                            ds[ord@[q] as int],
                            fs[ord@[q] as int],
                            selected_fingerprint(fs[ord@[q] as int], options)->0,
                        ),
                    forall|q: int| 0 <= q < k ==> (#[trigger] group@[q]).opaque_node_count * 100 <= usize::MAX,
            {
                let x = ord[k];
                proof {
                    broadcast use vstd::seq_lib::group_to_multiset_ensures;
                    assert(ord@.contains(x));
                    assert(ord@.to_multiset().count(x) > 0);
                    assert(members@.to_multiset().count(x) > 0);
                    assert(members@.contains(x));
                    let m = choose|m: int| 0 <= m < members@.len() && members@[m] == x;
                    assert(gs[g as int].members@[m] == x);
                    assert(ev[x as int]);
                }
                match &bodies[x] {
                    Some(b) => {
                        assert(selected_fingerprint(fs[x as int], options) is Some);
                        let copy = StructuralBody {
                            definition: clone_definition(&b.definition),
                            line_count: b.line_count,
                            stable_hash: b.stable_hash.clone(),
                            version: b.version.clone(),
                            literal_policy: b.literal_policy.clone(),
                            node_count: b.node_count,
                            opaque_node_count: b.opaque_node_count,
                            token_estimate: b.token_estimate,
                            parameter_count: b.parameter_count,
                            return_shape: b.return_shape.clone(),
                            call_names: clone_strings(&b.call_names),
                            framework_context: clone_strings(&b.framework_context),
                        };
                        group.push(copy);
                    },
                    None => {
                        assert(false);
                    },
                }
            }
            assert(ord@.len() == members@.len()) by {
                assert(members@.len() > 0);
            }
            let f = build_structural_finding(&group);
            assert(describes_structural_members(f, members@, ds, fs, options)) by {
                assert(report_order(ord@, members@, ds));
                assert(describes_structural_group(f, group@));
            }
            out.push(f);
            assert(reported_groups(gs.take(g + 1), ds) == reported_groups(gs.take(g as int), ds).push(gs[g as int]));
        } else {
            assert(reported_groups(gs.take(g + 1), ds) == reported_groups(gs.take(g as int), ds));
        }
    }
    assert(gs.take(gs.len() as int) =~= gs);
    out
}

} // verus!
