//! Safe autofixes: choosing the fixes that may be applied automatically, grouping
//! their edits by file in a stable order, refusing overlapping or invalid edits, and
//! rewriting a source text with a set of edits.
use vstd::prelude::*;
use vstd::string::{StringExecFns, StringSliceAdditionalSpecFns};
use vstd::multiset::Multiset;
use vstd::utf8::*;

use crate::findings::{AutofixSafety, Edit, Finding, Fix, FixApplicability, SourceSpan};
use crate::parser::ParseDiagnostic;
use crate::sorting::{
    chars_le, lemma_chars_le_reflexive, lemma_chars_le_total,
    lemma_chars_le_transitive, ordered_by, sort_by_order, str_le, total_preorder,
};
use crate::text::chars_of;
use crate::utf8_facts::{lemma_encode_concat, str_len_fits, str_range};

verus! {

broadcast use {
    vstd::string::group_string_axioms,
    vstd::utf8::encode_utf8_valid_utf8,
    vstd::utf8::encode_utf8_decode_utf8,
    vstd::utf8::decode_utf8_encode_utf8,
    vstd::seq_lib::group_to_multiset_ensures,
    vstd::seq_lib::lemma_multiset_commutative,
    vstd::multiset::group_multiset_axioms,
};

/// What an autofix run planned and did.
#[derive(Debug, Clone, Copy, PartialEq, Eq, Structural)]
pub struct AutofixSummary {
    pub planned_fixes: usize,
    pub planned_edits: usize,
    pub files_touched: usize,
    pub applied_edits: usize,
    pub dry_run: bool,
}

/// Why an autofix run was refused.
#[derive(Debug, Clone)]
pub enum AutofixError {
    Read { path: String, message: String },
    Write { path: String, message: String },
    OverlappingEdits { path: String, left: SourceSpan, right: SourceSpan },
    InvalidSpan { path: String, span: SourceSpan, source_len: usize },
    ParseErrorInTouchedRegion { path: String, span: SourceSpan, message: String },
    RewriteParseError { path: String, span: SourceSpan, message: String },
    Parse { path: String, message: String },
}

/// A fix that may be applied automatically.
pub open spec fn is_safe_fix(fix: Fix) -> bool {
    fix.safety == AutofixSafety::Safe && fix.applicability == FixApplicability::MachineApplicable
}

/// The safe fixes among `fixes`, in order.
pub open spec fn safe_fixes(fixes: Seq<Fix>) -> Seq<Fix>
    decreases fixes.len(),
{
    if fixes.len() == 0 {
        seq![]
    } else {
        let earlier = safe_fixes(fixes.drop_last());
        if is_safe_fix(fixes.last()) {
            earlier.push(fixes.last())
        } else {
            earlier
        }
    }
}

/// The safe fixes of the unsuppressed findings, in order.
pub open spec fn safe_fixes_of(findings: Seq<Finding>) -> Seq<Fix>
    decreases findings.len(),
{
    if findings.len() == 0 {
        seq![]
    } else {
        let last = findings.last();
        let earlier = safe_fixes_of(findings.drop_last());
        if last.is_suppressed {
            earlier
        } else {
            earlier + safe_fixes(last.fixes@)
        }
    }
}

proof fn lemma_safe_fixes_members(fixes: Seq<Fix>)
    ensures
        forall|k: int|
            0 <= k < safe_fixes(fixes).len() ==> is_safe_fix(#[trigger] safe_fixes(fixes)[k]) && fixes.contains(
                safe_fixes(fixes)[k],
            ),
        forall|j: int| 0 <= j < fixes.len() && is_safe_fix(#[trigger] fixes[j]) ==> safe_fixes(fixes).contains(fixes[j]),
    decreases fixes.len(),
{
    if fixes.len() > 0 {
        let front = fixes.drop_last();
        lemma_safe_fixes_members(front);
        let e = safe_fixes(front);
        let s = safe_fixes(fixes);
        assert forall|k: int| 0 <= k < s.len() implies is_safe_fix(#[trigger] s[k]) && fixes.contains(s[k]) by {
            if k < e.len() {
                assert(s[k] == e[k]);
                assert(front.contains(e[k]));
                let j = choose|j: int| 0 <= j < front.len() && front[j] == e[k];
                assert(fixes[j] == e[k]);
            } else {
                assert(s[k] == fixes.last());
                assert(fixes[fixes.len() - 1] == fixes.last());
            }
        }
        assert forall|j: int| 0 <= j < fixes.len() && is_safe_fix(#[trigger] fixes[j]) implies s.contains(fixes[j]) by {
            if j < fixes.len() - 1 {
                assert(front[j] == fixes[j]);
                assert(e.contains(front[j]));
                let k = choose|k: int| 0 <= k < e.len() && e[k] == front[j];
                assert(s[k] == e[k]);
            } else {
                assert(s[s.len() - 1] == fixes[j]);
            }
        }
    }
}

/// Autofix takes exactly the safe, machine-applicable fixes of the findings that are not
/// suppressed: every collected fix is such a fix of some unsuppressed finding, and every
/// such fix is collected. A suppressed finding contributes no fix.
pub proof fn lemma_safe_fixes_come_from_unsuppressed_findings(findings: Seq<Finding>)
    ensures
        forall|k: int|
            0 <= k < safe_fixes_of(findings).len() ==> {
                let fix = #[trigger] safe_fixes_of(findings)[k];
                &&& fix.safety == AutofixSafety::Safe
                &&& fix.applicability == FixApplicability::MachineApplicable
                &&& exists|i: int| 0 <= i < findings.len() && !findings[i].is_suppressed && #[trigger] findings[i].fixes@.contains(fix)
            },
        forall|i: int, j: int|
            0 <= i < findings.len() && !findings[i].is_suppressed && 0 <= j < findings[i].fixes@.len()
                && (#[trigger] findings[i].fixes@[j]).safety == AutofixSafety::Safe && findings[i].fixes@[j].applicability
                == FixApplicability::MachineApplicable ==> safe_fixes_of(findings).contains(findings[i].fixes@[j]),
    decreases findings.len(),
{
    if findings.len() > 0 {
        let front = findings.drop_last();
        let last = findings.last();
        lemma_safe_fixes_come_from_unsuppressed_findings(front);
        lemma_safe_fixes_members(last.fixes@);
        let e = safe_fixes_of(front);
        let s = safe_fixes_of(findings);
        let t = safe_fixes(last.fixes@);
        assert forall|k: int| 0 <= k < s.len() implies {
            let fix = #[trigger] s[k];
            &&& fix.safety == AutofixSafety::Safe
            &&& fix.applicability == FixApplicability::MachineApplicable
            &&& exists|i: int| 0 <= i < findings.len() && !findings[i].is_suppressed && #[trigger] findings[i].fixes@.contains(fix)
        } by {
            if k < e.len() {
                assert(s[k] == e[k]);
                let fix = e[k];
                let i = choose|i: int| 0 <= i < front.len() && !front[i].is_suppressed && #[trigger] front[i].fixes@.contains(fix);
                assert(findings[i] == front[i]);
            } else {
                assert(!last.is_suppressed);
                assert(s[k] == t[k - e.len()]);
                assert(is_safe_fix(t[k - e.len()]));
                assert(findings[findings.len() - 1] == last);
            }
        }
        assert forall|i: int, j: int|
            0 <= i < findings.len() && !findings[i].is_suppressed && 0 <= j < findings[i].fixes@.len()
                && (#[trigger] findings[i].fixes@[j]).safety == AutofixSafety::Safe && findings[i].fixes@[j].applicability
                == FixApplicability::MachineApplicable implies s.contains(findings[i].fixes@[j]) by {
            let fix = findings[i].fixes@[j];
            if i < findings.len() - 1 {
                assert(front[i] == findings[i]);
                assert(e.contains(fix));
                let k = choose|k: int| 0 <= k < e.len() && e[k] == fix;
                if !last.is_suppressed {
                    assert(s[k] == e[k]);
                } else {
                    assert(s[k] == e[k]);
                }
            } else {
                assert(findings[i] == last);
                assert(is_safe_fix(last.fixes@[j]));
                assert(t.contains(fix));
                let k = choose|k: int| 0 <= k < t.len() && t[k] == fix;
                assert(s[e.len() + k] == t[k]);
            }
        }
    }
}

fn clone_span(span: &SourceSpan) -> (r: SourceSpan)
    ensures
        r == *span,
{
    SourceSpan { start: span.start, end: span.end }
}

fn clone_edit(edit: &Edit) -> (r: Edit)
    ensures
        r == *edit,
{
    Edit {
        file: edit.file.clone(),
        span: clone_span(&edit.span),
        replacement: edit.replacement.clone(),
    }
}

/// Two fixes agree on everything that matters.
pub open spec fn same_fix(a: Fix, b: Fix) -> bool {
    &&& a.title@ == b.title@
    &&& a.safety == b.safety
    &&& a.applicability == b.applicability
    &&& a.edits@ == b.edits@
}

fn clone_fix(fix: &Fix) -> (r: Fix)
    ensures
        same_fix(r, *fix),
{
    let mut edits: Vec<Edit> = Vec::new();
    for i in 0..fix.edits.len()
        invariant
            edits@ == fix.edits@.take(i as int),
    {
        edits.push(clone_edit(&fix.edits[i]));
        assert(edits@ =~= fix.edits@.take(i + 1));
    }
    assert(fix.edits@.take(fix.edits@.len() as int) =~= fix.edits@);
    Fix {
        title: fix.title.clone(),
        safety: fix.safety,
        applicability: fix.applicability,
        edits,
    }
}

/// The safe, machine-applicable fixes of the findings that are not suppressed, in
/// order.
pub fn collect_safe_fixes(findings: &[Finding]) -> (r: Vec<Fix>)
    ensures
        r@.len() == safe_fixes_of(findings@).len(),
        forall|i: int| 0 <= i < r@.len() ==> same_fix(r@[i], safe_fixes_of(findings@)[i]),
{
    let mut out: Vec<Fix> = Vec::new();
    for i in 0..findings.len()
        invariant
            out@.len() == safe_fixes_of(findings@.take(i as int)).len(),
            forall|k: int|
                0 <= k < out@.len() ==> same_fix(out@[k], safe_fixes_of(findings@.take(i as int))[k]),
    {
        let finding = &findings[i];
        let ghost before = safe_fixes_of(findings@.take(i as int));
        assert(findings@.take(i + 1).drop_last() =~= findings@.take(i as int));
        if !finding.is_suppressed {
            let ghost fixes = finding.fixes@;
            for j in 0..finding.fixes.len()
                invariant
                    fixes == finding.fixes@,
                    out@.len() == before.len() + safe_fixes(fixes.take(j as int)).len(),
                    forall|k: int|
                        0 <= k < out@.len() ==> same_fix(
                            out@[k],
                            (before + safe_fixes(fixes.take(j as int)))[k],
                        ),
            {
                assert(fixes.take(j + 1).drop_last() =~= fixes.take(j as int));
                let fix = &finding.fixes[j];
                if matches!(fix.safety, AutofixSafety::Safe) && matches!(
                    fix.applicability,
                    FixApplicability::MachineApplicable
                ) {
                    out.push(clone_fix(fix));
                    assert(before + safe_fixes(fixes.take(j + 1)) =~= (before + safe_fixes(fixes.take(
                        j as int,
                    ))).push(fixes[j as int]));
                }
            }
            assert(fixes.take(fixes.len() as int) =~= fixes);
        }
    }
    assert(findings@.take(findings@.len() as int) =~= findings@);
    out
}

/// The byte ranges of two spans intersect.
pub open spec fn spec_spans_overlap(left: SourceSpan, right: SourceSpan) -> bool {
    left.start < right.end && right.start < left.end
}

/// Whether two spans share at least one byte.
pub fn spans_overlap(left: SourceSpan, right: SourceSpan) -> (r: bool)
    ensures
        r == spec_spans_overlap(left, right),
{
    left.start < right.end && right.start < left.end
}

/// Each edit starts at or after the end of the edit before it.
pub open spec fn adjacent_disjoint(edits: Seq<Edit>) -> bool {
    forall|i: int| 0 < i < edits.len() ==> edits[i - 1].span.end <= #[trigger] edits[i].span.start
}

/// Every edit starts at or after the end of every earlier edit.
pub open spec fn pairwise_disjoint(edits: Seq<Edit>) -> bool {
    forall|i: int, j: int|
        0 <= i < j < edits.len() ==> #[trigger] edits[i].span.end <= #[trigger] edits[j].span.start
}

/// `error` reports that the edits at `left` and `right` in the file `path` overlap.
pub open spec fn is_overlap_error(error: AutofixError, path: Seq<char>, left: SourceSpan, right: SourceSpan) -> bool {
    match error {
        AutofixError::OverlappingEdits { path: p, left: l, right: r } => p@ == path && l == left && r == right,
        _ => false,
    }
}

/// `error` reports that `span` does not fit a source of `source_len` bytes in `path`.
pub open spec fn is_invalid_span_error(error: AutofixError, path: Seq<char>, span: SourceSpan, source_len: nat) -> bool {
    match error {
        AutofixError::InvalidSpan { path: p, span: s, source_len: n } => p@ == path && s == span && n == source_len,
        _ => false,
    }
}

/// Refuses the first pair of neighbouring edits in which the later one starts before the
/// earlier one ends.
pub fn detect_conflicts(path: &str, edits: &[Edit]) -> (r: Result<(), AutofixError>)
    ensures
        r is Ok <==> adjacent_disjoint(edits@),
        r matches Err(error) ==> exists|k: int|
            {
                &&& 0 <= k < edits@.len() - 1
                &&& edits@[k + 1].span.start < edits@[k].span.end
                &&& forall|j: int| 0 < j <= k ==> edits@[j - 1].span.end <= #[trigger] edits@[j].span.start
                &&& is_overlap_error(error, path@, edits@[k].span, edits@[k + 1].span)
            },
{
    if edits.len() < 2 {
        return Ok(());
    }
    for k in 0..edits.len() - 1
        invariant
            edits@.len() >= 2,
            forall|j: int| 0 < j <= k ==> edits@[j - 1].span.end <= #[trigger] edits@[j].span.start,
    {
        if edits[k + 1].span.start < edits[k].span.end {
            let error = AutofixError::OverlappingEdits {
                path: String::from_str(path),
                left: clone_span(&edits[k].span),
                right: clone_span(&edits[k + 1].span),
            };
            assert(edits@[k as int + 1].span.start < edits@[k as int].span.end);
            return Err(error);
        }
    }
    Ok(())
}

/// The span lies inside the source and both of its ends are character boundaries.
pub open spec fn span_valid(bytes: Seq<u8>, span: SourceSpan) -> bool {
    &&& span.start <= span.end <= bytes.len()
    &&& is_char_boundary(bytes, span.start as int)
    &&& is_char_boundary(bytes, span.end as int)
}

/// Refuses the first edit whose span is reversed, ends past the source or splits a
/// character.
pub fn validate_spans(path: &str, source: &str, edits: &[Edit]) -> (r: Result<(), AutofixError>)
    ensures
        r is Ok <==> forall|i: int| 0 <= i < edits@.len() ==> span_valid(source.spec_bytes(), #[trigger] edits@[i].span),
        r matches Err(error) ==> exists|k: int|
            {
                &&& 0 <= k < edits@.len()
                &&& !span_valid(source.spec_bytes(), edits@[k].span)
                &&& forall|j: int| 0 <= j < k ==> span_valid(source.spec_bytes(), #[trigger] edits@[j].span)
                &&& is_invalid_span_error(error, path@, edits@[k].span, source.spec_bytes().len())
            },
{
    str_len_fits(source);
    for k in 0..edits.len()
        invariant
            source.spec_bytes().len() <= usize::MAX,
            forall|j: int| 0 <= j < k ==> span_valid(source.spec_bytes(), #[trigger] edits@[j].span),
    {
        let span = &edits[k].span;
        if span.start > span.end || span.end > source.len() || !source.is_char_boundary(span.start)
            || !source.is_char_boundary(span.end) {
            return Err(
                AutofixError::InvalidSpan {
                    path: String::from_str(path),
                    span: clone_span(span),
                    source_len: source.len(),
                },
            );
        }
    }
    Ok(())
}

/// The bytes of `bytes` with every edit applied. Edits are applied from the last one
/// back, so each edit's offsets refer to the original text.
pub open spec fn spec_apply_edits(bytes: Seq<u8>, edits: Seq<Edit>) -> Seq<u8>
    decreases edits.len(),
{
    if edits.len() == 0 {
        bytes
    } else {
        let e = edits.last();
        spec_apply_edits(bytes.subrange(0, e.span.start as int), edits.drop_last())
            + encode_utf8(e.replacement@) + bytes.subrange(e.span.end as int, bytes.len() as int)
    }
}

/// Text after `p` that no edit touches can be split off before applying the edits.
proof fn lemma_apply_extends(bytes: Seq<u8>, edits: Seq<Edit>, p: int, q: int)
    requires
        0 <= p <= q <= bytes.len(),
        pairwise_disjoint(edits),
        forall|i: int| 0 <= i < edits.len() ==> (#[trigger] edits[i]).span.start <= edits[i].span.end <= p,
    ensures
        spec_apply_edits(bytes.subrange(0, q), edits) == spec_apply_edits(bytes.subrange(0, p), edits)
            + bytes.subrange(p, q),
    decreases edits.len(),
{
    if edits.len() == 0 {
        assert(bytes.subrange(0, q) =~= bytes.subrange(0, p) + bytes.subrange(p, q));
    } else {
        let e = edits.last();
        let s = e.span.start as int;
        let t = e.span.end as int;
        let rest = edits.drop_last();
        assert forall|i: int| 0 <= i < rest.len() implies (#[trigger] rest[i]).span.start
            <= rest[i].span.end <= s by {
            assert(rest[i] == edits[i]);
            assert(edits[i].span.end <= edits[edits.len() - 1].span.start);
        }
        assert(bytes.subrange(0, q).subrange(0, s) =~= bytes.subrange(0, s));
        assert(bytes.subrange(0, p).subrange(0, s) =~= bytes.subrange(0, s));
        assert(bytes.subrange(0, q).subrange(t, q) =~= bytes.subrange(0, p).subrange(t, p)
            + bytes.subrange(p, q));
    }
}

/// `source` with every edit applied.
///
/// The edits must be ordered and must not overlap, and each span must lie inside the
/// source on character boundaries; `detect_conflicts` and `validate_spans` check both.
pub fn apply_edits_to_source(source: &str, edits: &[Edit]) -> (r: String)
    requires
        pairwise_disjoint(edits@),
        forall|i: int| 0 <= i < edits@.len() ==> span_valid(source.spec_bytes(), #[trigger] edits@[i].span),
    ensures
        encode_utf8(r@) == spec_apply_edits(source.spec_bytes(), edits@),
{
    str_len_fits(source);
    let ghost bytes = source.spec_bytes();
    let mut out = String::new();
    let mut pos: usize = 0;
    for i in 0..edits.len()
        invariant
            bytes == source.spec_bytes(),
            bytes.len() <= usize::MAX,
            pairwise_disjoint(edits@),
            forall|k: int| 0 <= k < edits@.len() ==> span_valid(bytes, #[trigger] edits@[k].span),
            pos <= bytes.len(),
            is_char_boundary(bytes, pos as int),
            i == 0 ==> pos == 0,
            i > 0 ==> pos == edits@[i - 1].span.end,
            forall|k: int| 0 <= k < edits@.len() && i <= k ==> pos <= #[trigger] edits@[k].span.start,
            encode_utf8(out@) == spec_apply_edits(bytes.subrange(0, pos as int), edits@.take(i as int)),
    {
        let edit = &edits[i];
        let ghost old_out = out@;
        let ghost e = edits@[i as int];
        let piece = str_range(source, pos, edit.span.start);
        out.append(piece);
        out.append(edit.replacement.as_str());
        proof {
            let s = e.span.start as int;
            let t = e.span.end as int;
            let taken = edits@.take(i as int);
            assert(edits@.take(i + 1).drop_last() =~= taken);
            assert(edits@.take(i + 1).last() == e);
            assert forall|k: int| 0 <= k < taken.len() implies (#[trigger] taken[k]).span.start
                <= taken[k].span.end <= pos by {
                assert(taken[k] == edits@[k]);
                if i > 0 {
                    assert(edits@[k].span.end <= edits@[i - 1].span.start || k == i - 1);
                }
            }
            assert forall|a: int, b: int| 0 <= a < b < taken.len() implies #[trigger] taken[a].span.end
                <= #[trigger] taken[b].span.start by {
                assert(taken[a] == edits@[a]);
                assert(taken[b] == edits@[b]);
            }
            lemma_apply_extends(bytes, taken, pos as int, s);
            lemma_encode_concat(old_out, piece@);
            lemma_encode_concat(old_out + piece@, edit.replacement@);
            vstd::utf8::decode_utf8_encode_utf8(bytes.subrange(pos as int, s));
            assert(bytes.subrange(0, t).subrange(0, s) =~= bytes.subrange(0, s));
            assert(bytes.subrange(0, t).subrange(t, t) =~= Seq::<u8>::empty());
            assert(encode_utf8(out@) =~= spec_apply_edits(bytes.subrange(0, t), edits@.take(i + 1)));
        }
        pos = edit.span.end;
        proof {
            assert forall|k: int| 0 <= k < edits@.len() && i + 1 <= k implies pos
                <= #[trigger] edits@[k].span.start by {
                assert(edits@[i as int].span.end <= edits@[k].span.start);
            }
        }
    }
    let ghost old_out = out@;
    proof {
        vstd::utf8::is_char_boundary_start_end_of_seq(bytes);
    }
    let tail = str_range(source, pos, source.len());
    out.append(tail);
    proof {
        let taken = edits@.take(edits@.len() as int);
        assert(taken =~= edits@);
        assert forall|k: int| 0 <= k < edits@.len() implies (#[trigger] edits@[k]).span.start
            <= edits@[k].span.end <= pos by {
            if k < edits@.len() - 1 {
                assert(edits@[k].span.end <= edits@[edits@.len() - 1].span.start);
            }
        }
        lemma_apply_extends(bytes, edits@, pos as int, bytes.len() as int);
        assert(bytes.subrange(0, bytes.len() as int) =~= bytes);
        lemma_encode_concat(old_out, tail@);
        vstd::utf8::decode_utf8_encode_utf8(bytes.subrange(pos as int, bytes.len() as int));
    }
    out
}

/// Neighbouring disjoint edits with ordered spans are disjoint pairwise.
pub proof fn lemma_adjacent_gives_pairwise(edits: Seq<Edit>)
    requires
        adjacent_disjoint(edits),
        forall|i: int| 0 <= i < edits.len() ==> (#[trigger] edits[i]).span.start <= edits[i].span.end,
    ensures
        pairwise_disjoint(edits),
{
    assert forall|i: int, j: int| 0 <= i < j < edits.len() implies #[trigger] edits[i].span.end
        <= #[trigger] edits[j].span.start by {
        lemma_adjacent_chain(edits, i, j);
    }
}

proof fn lemma_adjacent_chain(edits: Seq<Edit>, i: int, j: int)
    requires
        adjacent_disjoint(edits),
        forall|k: int| 0 <= k < edits.len() ==> (#[trigger] edits[k]).span.start <= edits[k].span.end,
        0 <= i < j < edits.len(),
    ensures
        edits[i].span.end <= edits[j].span.start,
    decreases j - i,
{
    assert(edits[j - 1].span.end <= edits[j].span.start);
    if j > i + 1 {
        lemma_adjacent_chain(edits, i, j - 1);
    }
}

/// Checks a file's edits and, when they are valid, returns the rewritten text: edits
/// that overlap are refused first, then edits whose spans do not fit the source.
pub fn rewrite_source(path: &str, source: &str, edits: &[Edit]) -> (r: Result<String, AutofixError>)
    ensures
        r is Ok <==> (adjacent_disjoint(edits@) && forall|i: int|
            0 <= i < edits@.len() ==> span_valid(source.spec_bytes(), #[trigger] edits@[i].span)),
        r matches Ok(text) ==> encode_utf8(text@) == spec_apply_edits(source.spec_bytes(), edits@),
        !adjacent_disjoint(edits@) ==> r matches Err(AutofixError::OverlappingEdits { .. }),
{
    detect_conflicts(path, edits)?;
    validate_spans(path, source, edits)?;
    proof {
        lemma_adjacent_gives_pairwise(edits@);
    }
    Ok(apply_edits_to_source(source, edits))
}

/// Order of edits within a file: by start, then end, then replacement text.
pub open spec fn edit_le(a: Edit, b: Edit) -> bool {
    ||| a.span.start < b.span.start
    ||| (a.span.start == b.span.start && a.span.end < b.span.end)
    ||| (a.span.start == b.span.start && a.span.end == b.span.end && chars_le(
        a.replacement@,
        b.replacement@,
    ))
}

proof fn lemma_edit_le_total_preorder()
    ensures
        total_preorder(|a: Edit, b: Edit| edit_le(a, b)),
{
    let leq = |a: Edit, b: Edit| edit_le(a, b);
    assert forall|a: Edit| #[trigger] leq(a, a) by {
        lemma_chars_le_reflexive(a.replacement@);
    }
    assert forall|a: Edit, b: Edit, c: Edit| #[trigger] leq(a, b) && #[trigger] leq(b, c) implies leq(a, c) by {
        if a.span.start == b.span.start && b.span.start == c.span.start && a.span.end == b.span.end
            && b.span.end == c.span.end {
            lemma_chars_le_transitive(a.replacement@, b.replacement@, c.replacement@);
        }
    }
    assert forall|a: Edit, b: Edit| #[trigger] leq(a, b) || leq(b, a) by {
        lemma_chars_le_total(a.replacement@, b.replacement@);
    }
}

fn edit_le_exec(a: &Edit, b: &Edit) -> (r: bool)
    ensures
        r == edit_le(*a, *b),
{
    if a.span.start != b.span.start {
        return a.span.start < b.span.start;
    }
    if a.span.end != b.span.end {
        return a.span.end < b.span.end;
    }
    str_le(a.replacement.as_str(), b.replacement.as_str())
}

/// Sorts a file's edits by start, end and replacement.
pub fn sort_edits(edits: Vec<Edit>) -> (r: Vec<Edit>)
    ensures
        r@.to_multiset() =~= edits@.to_multiset(),
        ordered_by(r@, |a: Edit, b: Edit| edit_le(a, b)),
{
    proof {
        lemma_edit_le_total_preorder();
    }
    sort_by_order(edits, edit_le_exec, Ghost(|a: Edit, b: Edit| edit_le(a, b)))
}

/// The edits of one file, ordered for application.
#[derive(Debug, Clone)]
pub struct FileEdits {
    pub path: String,
    pub edits: Vec<Edit>,
}

/// Which files the safe fixes touch and how.
#[derive(Debug, Clone)]
pub struct FixPlan {
    pub planned_fixes: usize,
    pub planned_edits: usize,
    pub files: Vec<FileEdits>,
}

/// All edits of the safe fixes, in order.
pub open spec fn safe_edits(fixes: Seq<Fix>) -> Seq<Edit>
    decreases fixes.len(),
{
    if fixes.len() == 0 {
        seq![]
    } else {
        let earlier = safe_edits(fixes.drop_last());
        if is_safe_fix(fixes.last()) {
            earlier + fixes.last().edits@
        } else {
            earlier
        }
    }
}

/// Every edit held by the groups, counted with multiplicity.
pub open spec fn grouped_edits(files: Seq<FileEdits>) -> Multiset<Edit>
    decreases files.len(),
{
    if files.len() == 0 {
        Multiset::empty()
    } else {
        grouped_edits(files.drop_last()).add(files.last().edits@.to_multiset())
    }
}

/// The paths of the groups strictly increase.
pub open spec fn paths_sorted(files: Seq<FileEdits>) -> bool {
    forall|i: int, j: int|
        0 <= i < j < files.len() ==> chars_le(files[i].path@, files[j].path@) && files[i].path@
            != files[j].path@
}

/// The groups are listed in strictly increasing path order and each holds only edits
/// of its own file.
pub open spec fn groups_well_formed(files: Seq<FileEdits>) -> bool {
    &&& paths_sorted(files)
    &&& forall|i: int, k: int|
        0 <= i < files.len() && 0 <= k < files[i].edits@.len() ==> (
        #[trigger] files[i].edits@[k]).file@ == files[i].path@
}

proof fn lemma_safe_edits_prefix(fixes: Seq<Fix>, n: int)
    requires
        0 <= n <= fixes.len(),
    ensures
        safe_edits(fixes.take(n)).len() <= safe_edits(fixes).len(),
    decreases fixes.len(),
{
    if n < fixes.len() {
        assert(fixes.drop_last().take(n) =~= fixes.take(n));
        lemma_safe_edits_prefix(fixes.drop_last(), n);
    } else {
        assert(fixes.take(n) =~= fixes);
    }
}

proof fn lemma_grouped_insert(files: Seq<FileEdits>, i: int, g: FileEdits)
    requires
        0 <= i <= files.len(),
    ensures
        grouped_edits(files.insert(i, g)) =~= grouped_edits(files).add(g.edits@.to_multiset()),
    decreases files.len(),
{
    if i == files.len() {
        assert(files.insert(i, g).drop_last() =~= files);
    } else {
        assert(files.insert(i, g).drop_last() =~= files.drop_last().insert(i, g));
        lemma_grouped_insert(files.drop_last(), i, g);
    }
}

proof fn lemma_grouped_update(files: Seq<FileEdits>, i: int, g: FileEdits)
    requires
        0 <= i < files.len(),
    ensures
        forall|x: Edit|
            #[trigger] grouped_edits(files.update(i, g)).count(x) + files[i].edits@.to_multiset().count(x)
                == grouped_edits(files).count(x) + g.edits@.to_multiset().count(x),
    decreases files.len(),
{
    let u = files.update(i, g);
    if i == files.len() - 1 {
        assert(u.drop_last() =~= files.drop_last());
        assert(u.last() == g);
        assert(files.last() == files[i]);
    } else {
        assert(u.drop_last() =~= files.drop_last().update(i, g));
        assert(u.last() == files.last());
        assert(files.drop_last()[i] == files[i]);
        lemma_grouped_update(files.drop_last(), i, g);
        assert forall|x: Edit| #[trigger] grouped_edits(u).count(x) + files[i].edits@.to_multiset().count(x)
            == grouped_edits(files).count(x) + g.edits@.to_multiset().count(x) by {
            assert(grouped_edits(files.drop_last().update(i, g)).count(x) + files[i].edits@.to_multiset().count(x)
                == grouped_edits(files.drop_last()).count(x) + g.edits@.to_multiset().count(x));
        }
    }
}

proof fn lemma_grouped_pointwise(a: Seq<FileEdits>, b: Seq<FileEdits>)
    requires
        a.len() == b.len(),
        forall|i: int| 0 <= i < a.len() ==> (#[trigger] a[i]).edits@.to_multiset() =~= b[i].edits@.to_multiset(),
    ensures
        grouped_edits(a) =~= grouped_edits(b),
    decreases a.len(),
{
    if a.len() > 0 {
        lemma_grouped_pointwise(a.drop_last(), b.drop_last());
        assert(a.last() == a[a.len() - 1]);
    }
}

/// Groups the edits of the safe fixes by file. Files are listed in path order, each
/// file once, each holds exactly the safe edits of its file, and each file's edits are
/// sorted by start, end and replacement.
pub fn plan_fixes(fixes: &[Fix]) -> (r: FixPlan)
    requires
        safe_edits(fixes@).len() <= usize::MAX,
    ensures
        r.planned_fixes == fixes@.len(),
        r.planned_edits == safe_edits(fixes@).len(),
        groups_well_formed(r.files@),
        grouped_edits(r.files@) =~= safe_edits(fixes@).to_multiset(),
        forall|i: int|
            0 <= i < r.files@.len() ==> ordered_by(
                (#[trigger] r.files@[i]).edits@,
                |a: Edit, b: Edit| edit_le(a, b),
            ),
{
    let mut groups: Vec<FileEdits> = Vec::new();
    let mut count: usize = 0;
    for f in 0..fixes.len()
        invariant
            safe_edits(fixes@).len() <= usize::MAX,
            count == safe_edits(fixes@.take(f as int)).len(),
            groups_well_formed(groups@),
            grouped_edits(groups@) =~= safe_edits(fixes@.take(f as int)).to_multiset(),
    {
        let fix = &fixes[f];
        assert(fixes@.take(f + 1).drop_last() =~= fixes@.take(f as int));
        proof {
            lemma_safe_edits_prefix(fixes@, f + 1);
        }
        if matches!(fix.safety, AutofixSafety::Safe) && matches!(
            fix.applicability,
            FixApplicability::MachineApplicable
        ) {
            let ghost base = safe_edits(fixes@.take(f as int));
            assert(safe_edits(fixes@.take(f + 1)) == base + fix.edits@);
            for e in 0..fix.edits.len()
                invariant
                    safe_edits(fixes@.take(f + 1)) == base + fix.edits@,
                    safe_edits(fixes@.take(f + 1)).len() <= usize::MAX,
                    count == base.len() + e,
                    groups_well_formed(groups@),
                    grouped_edits(groups@) =~= (base + fix.edits@.take(e as int)).to_multiset(),
            {
                let edit = clone_edit(&fix.edits[e]);
                add_to_group(&mut groups, edit);
                count = count + 1;
                assert(base + fix.edits@.take(e + 1) =~= (base + fix.edits@.take(e as int)).push(
                    fix.edits@[e as int],
                ));
            }
            assert(fix.edits@.take(fix.edits@.len() as int) =~= fix.edits@);
        }
    }
    assert(fixes@.take(fixes@.len() as int) =~= fixes@);
    let mut files: Vec<FileEdits> = Vec::new();
    let mut rest = groups;
    let ghost original = rest@;
    while rest.len() > 0
        invariant
            files@.len() + rest@.len() == original.len(),
            forall|i: int| 0 <= i < rest@.len() ==> rest@[i] == original[files@.len() + i],
            groups_well_formed(original),
            forall|i: int| 0 <= i < files@.len() ==> (#[trigger] files@[i]).path@ == original[i].path@,
            forall|i: int|
                0 <= i < files@.len() ==> (#[trigger] files@[i]).edits@.to_multiset()
                    =~= original[i].edits@.to_multiset(),
            forall|i: int|
                0 <= i < files@.len() ==> ordered_by(
                    (#[trigger] files@[i]).edits@,
                    |a: Edit, b: Edit| edit_le(a, b),
                ),
        decreases rest.len(),
    {
        let ghost done = files@.len();
        let group = rest.remove(0);
        assert(group == original[done as int]);
        let sorted = sort_edits(group.edits);
        files.push(FileEdits { path: group.path, edits: sorted });
    }
    proof {
        assert forall|i: int, k: int|
            0 <= i < files@.len() && 0 <= k < files@[i].edits@.len() implies (
            #[trigger] files@[i].edits@[k]).file@ == files@[i].path@ by {
            let x = files@[i].edits@[k];
            assert(files@[i].edits@.to_multiset().count(x) > 0);
            assert(original[i].edits@.contains(x));
            let m = choose|m: int| 0 <= m < original[i].edits@.len() && original[i].edits@[m] == x;
            assert(original[i].edits@[m].file@ == original[i].path@);
        }
        assert forall|i: int, j: int| 0 <= i < j < files@.len() implies chars_le(
            files@[i].path@,
            files@[j].path@,
        ) && files@[i].path@ != files@[j].path@ by {
            assert(files@[i].path@ == original[i].path@);
            assert(files@[j].path@ == original[j].path@);
        }
        assert(paths_sorted(files@));
        lemma_grouped_pointwise(files@, original);
    }
    FixPlan { planned_fixes: fixes.len(), planned_edits: count, files }
}

proof fn lemma_insert_keeps_paths_sorted(before: Seq<FileEdits>, i: int, g: FileEdits)
    requires
        0 <= i <= before.len(),
        paths_sorted(before),
        forall|j: int| 0 <= j < i ==> chars_le((#[trigger] before[j]).path@, g.path@) && before[j].path@ != g.path@,
        forall|j: int| i <= j < before.len() ==> chars_le(g.path@, (#[trigger] before[j]).path@) && before[j].path@ != g.path@,
    ensures
        paths_sorted(before.insert(i, g)),
{
    let after = before.insert(i, g);
    assert forall|a: int, b: int| 0 <= a < b < after.len() implies chars_le(after[a].path@, after[b].path@)
        && after[a].path@ != after[b].path@ by {
        if b < i {
            assert(after[a] == before[a] && after[b] == before[b]);
        } else if b == i {
            assert(after[a] == before[a] && after[b] == g);
        } else if a < i {
            assert(after[a] == before[a] && after[b] == before[b - 1]);
            lemma_chars_le_transitive(before[a].path@, g.path@, before[b - 1].path@);
            if before[a].path@ == before[b - 1].path@ {
                crate::sorting::lemma_chars_le_antisymmetric(g.path@, before[a].path@);
            }
        } else if a == i {
            assert(after[a] == g && after[b] == before[b - 1]);
        } else {
            assert(after[a] == before[a - 1] && after[b] == before[b - 1]);
        }
    }
}

/// Adds `edit` to the group of its file, creating the group in path order when the
/// file has none yet.
fn add_to_group(groups: &mut Vec<FileEdits>, edit: Edit)
    requires
        groups_well_formed(old(groups)@),
    ensures
        groups_well_formed(final(groups)@),
        grouped_edits(final(groups)@) =~= grouped_edits(old(groups)@).insert(edit),
{
    let mut i: usize = 0;
    while i < groups.len() && !str_le(edit.file.as_str(), groups[i].path.as_str())
        invariant
            i <= groups@.len(),
            forall|j: int| 0 <= j < i ==> !chars_le(edit.file@, (#[trigger] groups@[j]).path@),
        decreases groups.len() - i,
    {
        i = i + 1;
    }
    let ghost before = groups@;
    let ghost file = edit.file@;
    if i < groups.len() && crate::text::chars_eq(
        &chars_of(edit.file.as_str()),
        &chars_of(groups[i].path.as_str()),
    ) {
        let mut group = groups.remove(i);
        let ghost old_group = group;
        group.edits.push(edit);
        let ghost new_group = group;
        groups.insert(i, group);
        proof {
            assert(old_group == before[i as int]);
            assert(new_group.edits@ =~= old_group.edits@.push(edit));
            assert(groups@ =~= before.update(i as int, new_group));
            assert(new_group.path@ == file);
            assert forall|a: int, b: int| 0 <= a < b < groups@.len() implies chars_le(
                groups@[a].path@,
                groups@[b].path@,
            ) && groups@[a].path@ != groups@[b].path@ by {
                assert(groups@[a].path@ == before[a].path@);
                assert(groups@[b].path@ == before[b].path@);
            }
            assert forall|a: int, k: int|
                0 <= a < groups@.len() && 0 <= k < groups@[a].edits@.len() implies (
                #[trigger] groups@[a].edits@[k]).file@ == groups@[a].path@ by {
                if a != i {
                    assert(groups@[a] == before[a]);
                } else if k < before[a].edits@.len() {
                    assert(groups@[a].edits@[k] == before[a].edits@[k]);
                }
            }
            lemma_grouped_update(before, i as int, new_group);
            assert forall|x: Edit| #[trigger] grouped_edits(groups@).count(x) == grouped_edits(before).insert(
                edit,
            ).count(x) by {
                assert(grouped_edits(groups@).count(x) + old_group.edits@.to_multiset().count(x)
                    == grouped_edits(before).count(x) + new_group.edits@.to_multiset().count(x));
            }
        }
    } else {
        let path = edit.file.clone();
        let mut edits: Vec<Edit> = Vec::new();
        edits.push(edit);
        let g = FileEdits { path, edits };
        let ghost new_group = g;
        groups.insert(i, g);
        proof {
            assert(groups@ =~= before.insert(i as int, new_group));
            assert(new_group.path@ == file);
            assert(new_group.edits@ =~= seq![edit]);
            assert forall|j: int| 0 <= j < i implies chars_le(before[j].path@, file)
                && before[j].path@ != file by {
                assert(!chars_le(file, before[j].path@));
                lemma_chars_le_total(file, before[j].path@);
                if before[j].path@ == file {
                    lemma_chars_le_reflexive(file);
                }
            }
            if i < before.len() {
                assert(chars_le(file, before[i as int].path@));
                assert(file != before[i as int].path@);
                assert forall|j: int| i < j < before.len() implies chars_le(file, before[j].path@)
                    && file != before[j].path@ by {
                    lemma_chars_le_transitive(file, before[i as int].path@, before[j].path@);
                    if file == before[j].path@ {
                        crate::sorting::lemma_chars_le_antisymmetric(file, before[i as int].path@);
                    }
                }
            }
            lemma_insert_keeps_paths_sorted(before, i as int, new_group);
            assert forall|a: int, k: int|
                0 <= a < groups@.len() && 0 <= k < groups@[a].edits@.len() implies (
                #[trigger] groups@[a].edits@[k]).file@ == groups@[a].path@ by {
                if a < i {
                    assert(groups@[a] == before[a]);
                    assert(before[a].edits@[k].file@ == before[a].path@);
                } else if a > i {
                    assert(groups@[a] == before[a - 1]);
                    assert(before[a - 1].edits@[k].file@ == before[a - 1].path@);
                } else {
                    assert(groups@[a] == new_group);
                    assert(new_group.edits@[k] == edit);
                    assert(edit.file@ == file);
                }
            }
            lemma_grouped_insert(before, i as int, new_group);
        }
    }
}

/// The byte range of a parser diagnostic.
pub open spec fn diagnostic_span(d: ParseDiagnostic) -> SourceSpan {
    SourceSpan { start: d.span.start, end: d.span.end }
}

/// Some edit touches the byte range of the diagnostic.
pub open spec fn touches_any(edits: Seq<Edit>, span: SourceSpan) -> bool {
    exists|k: int| 0 <= k < edits.len() && spec_spans_overlap(#[trigger] edits[k].span, span)
}

/// `error` refuses the edits in `path` because of the diagnostic `d`.
pub open spec fn is_touched_region_error(error: AutofixError, path: Seq<char>, d: ParseDiagnostic) -> bool {
    match error {
        AutofixError::ParseErrorInTouchedRegion { path: p, span, message } => p@ == path && span
            == diagnostic_span(d) && message@ == d.message@,
        _ => false,
    }
}

fn touches_any_exec(edits: &[Edit], span: SourceSpan) -> (r: bool)
    ensures
        r == touches_any(edits@, span),
{
    for k in 0..edits.len()
        invariant
            forall|j: int| 0 <= j < k ==> !spec_spans_overlap(#[trigger] edits@[j].span, span),
    {
        if spans_overlap(edits[k].span, span) {
            return true;
        }
    }
    false
}

/// Refuses the edits when a parse error of the original source lies in a region that
/// an edit touches; the first such diagnostic is reported.
pub fn reject_parse_errors_in_touched_regions(
    path: &str,
    edits: &[Edit],
    diagnostics: &[ParseDiagnostic],
) -> (r: Result<(), AutofixError>)
    ensures
        r is Ok <==> forall|d: int|
            0 <= d < diagnostics@.len() ==> !touches_any(edits@, diagnostic_span(#[trigger] diagnostics@[d])),
        r matches Err(error) ==> exists|d: int|
            {
                &&& 0 <= d < diagnostics@.len()
                &&& touches_any(edits@, diagnostic_span(diagnostics@[d]))
                &&& forall|e: int| 0 <= e < d ==> !touches_any(edits@, diagnostic_span(#[trigger] diagnostics@[e]))
                &&& is_touched_region_error(error, path@, diagnostics@[d])
            },
{
    for d in 0..diagnostics.len()
        invariant
            forall|e: int| 0 <= e < d ==> !touches_any(edits@, diagnostic_span(#[trigger] diagnostics@[e])),
    {
        let diagnostic = &diagnostics[d];
        let span = SourceSpan { start: diagnostic.span.start, end: diagnostic.span.end };
        if touches_any_exec(edits, span) {
            let error = AutofixError::ParseErrorInTouchedRegion {
                path: String::from_str(path),
                span,
                message: diagnostic.message.clone(),
            };
            assert(is_touched_region_error(error, path@, diagnostics@[d as int]));
            return Err(error);
        }
    }
    Ok(())
}

/// Refuses a rewritten text that does not parse, reporting the parser's first
/// diagnostic.
pub fn reject_parse_errors_after_rewrite(path: &str, diagnostics: &[ParseDiagnostic]) -> (r: Result<(), AutofixError>)
    ensures
        r is Ok <==> diagnostics@.len() == 0,
        r matches Err(error) ==> (match error {
            AutofixError::RewriteParseError { path: p, span, message } => p@ == path@ && span
                == diagnostic_span(diagnostics@[0]) && message@ == diagnostics@[0].message@,
            _ => false,
        }),
{
    if diagnostics.len() == 0 {
        return Ok(());
    }
    let first = &diagnostics[0];
    Err(
        AutofixError::RewriteParseError {
            path: String::from_str(path),
            span: SourceSpan { start: first.span.start, end: first.span.end },
            message: first.message.clone(),
        },
    )
}

/// What a run reports once every file of the plan has been rewritten: nothing is
/// touched when there is nothing to apply, and a dry run applies no edit.
pub fn autofix_summary(plan: &FixPlan, dry_run: bool) -> (r: AutofixSummary)
    ensures
        r.planned_fixes == plan.planned_fixes,
        r.dry_run == dry_run,
        plan.planned_edits == 0 ==> r.planned_edits == 0 && r.files_touched == 0 && r.applied_edits == 0,
        plan.planned_edits != 0 ==> r.planned_edits == plan.planned_edits && r.files_touched
            == plan.files@.len() && r.applied_edits == (if dry_run {
            0
        } else {
            plan.planned_edits
        }),
{
    if plan.planned_edits == 0 {
        return AutofixSummary {
            planned_fixes: plan.planned_fixes,
            planned_edits: 0,
            files_touched: 0,
            applied_edits: 0,
            dry_run,
        };
    }
    AutofixSummary {
        planned_fixes: plan.planned_fixes,
        planned_edits: plan.planned_edits,
        files_touched: plan.files.len(),
        applied_edits: if dry_run {
            0
        } else {
            plan.planned_edits
        },
        dry_run,
    }
}

/// A file's edits apply to its text: they do not overlap, every span fits the text, no
/// edit touches a parse error of the text, and the rewritten text parses.
pub open spec fn file_passes(f: FileEdits, source: Seq<char>, before: Seq<ParseDiagnostic>, after: Seq<ParseDiagnostic>) -> bool {
    &&& adjacent_disjoint(f.edits@)
    &&& forall|i: int| 0 <= i < f.edits@.len() ==> span_valid(encode_utf8(source), #[trigger] f.edits@[i].span)
    &&& forall|d: int| 0 <= d < before.len() ==> !touches_any(f.edits@, diagnostic_span(#[trigger] before[d]))
    &&& after.len() == 0
}

/// The diagnostics of file `i`, none when the caller gave none.
pub open spec fn diagnostics_of(ds: Seq<Vec<ParseDiagnostic>>, i: int) -> Seq<ParseDiagnostic> {
    if 0 <= i < ds.len() {
        ds[i]@
    } else {
        seq![]
    }
}

/// Rewrites every file of a plan, given the files' texts in plan order, the parser's
/// diagnostics of each text (`before`) and of each rewritten text (`after`). Each file
/// is checked in turn: overlapping edits, spans that do not fit, edits that touch a
/// parse error, then a rewrite that does not parse. The rewritten texts come back only
/// when every file passes, so a caller that writes them writes all files or none;
/// otherwise the error is that of the first file that fails.
pub fn rewrite_planned_files(
    plan: &FixPlan,
    sources: &Vec<String>,
    before: &Vec<Vec<ParseDiagnostic>>,
    after: &Vec<Vec<ParseDiagnostic>>,
) -> (r: Result<Vec<String>, AutofixError>)
    requires
        sources@.len() == plan.files@.len(),
    ensures
        r is Ok <==> forall|i: int|
            0 <= i < plan.files@.len() ==> file_passes(
                #[trigger] plan.files@[i],
                sources@[i]@,
                diagnostics_of(before@, i),
                diagnostics_of(after@, i),
            ),
        r matches Ok(texts) ==> texts@.len() == plan.files@.len() && forall|i: int|
            0 <= i < texts@.len() ==> encode_utf8(#[trigger] texts@[i]@) == spec_apply_edits(
                encode_utf8(sources@[i]@),
                plan.files@[i].edits@,
            ),
        r matches Err(e) ==> exists|i: int|
            0 <= i < plan.files@.len() && !file_passes(
                #[trigger] plan.files@[i],
                sources@[i]@,
                diagnostics_of(before@, i),
                diagnostics_of(after@, i),
            ) && (forall|j: int|
                0 <= j < i ==> file_passes(
                    #[trigger] plan.files@[j],
                    sources@[j]@,
                    diagnostics_of(before@, j),
                    diagnostics_of(after@, j),
                )) && (!adjacent_disjoint(plan.files@[i].edits@) ==> e matches AutofixError::OverlappingEdits { .. }),
{
    let mut out: Vec<String> = Vec::new();
    let empty: Vec<ParseDiagnostic> = Vec::new();
    for i in 0..plan.files.len()
        invariant
            sources@.len() == plan.files@.len(),
            empty@.len() == 0,
            out@.len() == i,
            forall|j: int|
                0 <= j < i ==> file_passes(
                    #[trigger] plan.files@[j],
                    sources@[j]@,
                    diagnostics_of(before@, j),
                    diagnostics_of(after@, j),
                ),
            forall|j: int|
                0 <= j < i ==> encode_utf8(#[trigger] out@[j]@) == spec_apply_edits(
                    encode_utf8(sources@[j]@),
                    plan.files@[j].edits@,
                ),
    {
        let file = &plan.files[i];
        let source = sources[i].as_str();
        let b = if i < before.len() {
            &before[i]
        } else {
            &empty
        };
        let a = if i < after.len() {
            &after[i]
        } else {
            &empty
        };
        assert(b@ == diagnostics_of(before@, i as int));
        assert(a@ == diagnostics_of(after@, i as int));
        match rewrite_source(file.path.as_str(), source, file.edits.as_slice()) {
            Ok(text) => {
                match reject_parse_errors_in_touched_regions(file.path.as_str(), file.edits.as_slice(), b.as_slice()) {
                    Ok(()) => {},
                    Err(e) => {
                        return Err(e);
                    },
                }
                match reject_parse_errors_after_rewrite(file.path.as_str(), a.as_slice()) {
                    Ok(()) => {},
                    Err(e) => {
                        return Err(e);
                    },
                }
                out.push(text);
            },
            Err(e) => {
                return Err(e);
            },
        }
    }
    Ok(out)
}

} // verus!
