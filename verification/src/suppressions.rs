//! Inline suppression comments: `codehealth-ignore-next-line <rule> -- <reason>` hides
//! findings of a rule on the next line, and `codehealth-ignore-start <rule>` ...
//! `codehealth-ignore-end <rule>` hides them on the lines between. A directive follows
//! `//` or `#`; its rule is given by id or alias.
use vstd::prelude::*;

use crate::baseline_keys::opt_view;
use crate::config::{insert_entry, insert_position, spec_canonical_rule_id, text_views, RuleCatalog};
use crate::findings::{Finding, FindingLocation};
use crate::normalize::{lines_of, spec_lines};
use crate::paths::{path_components, path_eq_exec};
use crate::sorting::{chars_le, str_le};
use crate::text::{
    chars_eq, chars_of, find_first, first_occurrence, is_whitespace, slice_chars, spec_is_whitespace, spec_trim,
    spec_trim_start, starts_with, string_from_chars, trim_chars, trim_start_chars,
};

verus! {

broadcast use vstd::std_specs::vec::group_vec_axioms;

/// The form of a suppression directive.
#[derive(Debug, Clone, Copy, PartialEq, Eq, Structural)]
pub enum SuppressionKind {
    NextLine,
    Block,
}

/// A parsed suppression: the canonical rule it hides, the line of the directive, the
/// lines it covers, its reason and its warnings.
#[derive(Debug, Clone)]
pub struct SuppressionDirective {
    pub rule_id: String,
    pub path: String,
    pub line: usize,
    pub target_start_line: usize,
    pub target_end_line: usize,
    pub kind: SuppressionKind,
    pub reason: Option<String>,
    pub warnings: Vec<String>,
}

/// What a directive says: rule, directive line, first and last covered line, kind and
/// reason.
pub type DirectiveView = (Seq<char>, int, int, int, SuppressionKind, Option<Seq<char>>);

pub open spec fn directive_view(d: SuppressionDirective) -> DirectiveView {
    (d.rule_id@, d.line as int, d.target_start_line as int, d.target_end_line as int, d.kind, opt_view(d.reason))
}

pub open spec fn directive_views(ds: Seq<SuppressionDirective>) -> Seq<DirectiveView> {
    ds.map_values(|d: SuppressionDirective| directive_view(d))
}

/// The directive belongs to `path` and warns exactly when it gives no reason.
pub open spec fn directive_ok(d: SuppressionDirective, path: Seq<char>) -> bool {
    &&& d.path@ == path
    &&& text_views(d.warnings@) == if d.reason is None {
        seq!["suppression reason is missing"@]
    } else {
        seq![]
    }
}

/// The length of the run of non-whitespace characters that starts `s`.
pub open spec fn word_len(s: Seq<char>) -> nat
    decreases s.len(),
{
    if s.len() > 0 && !spec_is_whitespace(s[0]) {
        1 + word_len(s.drop_first())
    } else {
        0
    }
}

/// The first whitespace-separated word of `s`.
pub open spec fn first_word(s: Seq<char>) -> Option<Seq<char>> {
    let t = spec_trim_start(s);
    if t.len() == 0 {
        None
    } else {
        Some(t.take(word_len(t) as int))
    }
}

proof fn lemma_word_len_bound(s: Seq<char>)
    ensures
        word_len(s) <= s.len(),
        forall|j: int| 0 <= j < word_len(s) ==> !spec_is_whitespace(#[trigger] s[j]),
        word_len(s) < s.len() ==> spec_is_whitespace(s[word_len(s) as int]),
    decreases s.len(),
{
    if s.len() > 0 && !spec_is_whitespace(s[0]) {
        lemma_word_len_bound(s.drop_first());
        assert forall|j: int| 0 <= j < word_len(s) implies !spec_is_whitespace(#[trigger] s[j]) by {
            if j > 0 {
                assert(s[j] == s.drop_first()[j - 1]);
            }
        }
    }
}

proof fn lemma_word_len_exact(s: Seq<char>, i: int)
    requires
        0 <= i <= s.len(),
        forall|j: int| 0 <= j < i ==> !spec_is_whitespace(#[trigger] s[j]),
        i == s.len() || spec_is_whitespace(s[i]),
    ensures
        word_len(s) == i,
    decreases s.len(),
{
    if i > 0 {
        assert forall|j: int| 0 <= j < i - 1 implies !spec_is_whitespace(#[trigger] s.drop_first()[j]) by {
            assert(s.drop_first()[j] == s[j + 1]);
        }
        if i - 1 < s.drop_first().len() {
            assert(s.drop_first()[i - 1] == s[i]);
        }
        lemma_word_len_exact(s.drop_first(), i - 1);
    }
}

fn first_word_exec(s: &[char]) -> (r: Option<Vec<char>>)
    ensures
        match r {
            Some(w) => first_word(s@) == Some(w@),
            None => first_word(s@) is None,
        },
{
    let t = trim_start_chars(s);
    if t.len() == 0 {
        return None;
    }
    let mut i: usize = 0;
    while i < t.len() && !is_whitespace(t[i])
        invariant
            i <= t@.len(),
            forall|j: int| 0 <= j < i ==> !spec_is_whitespace(#[trigger] t@[j]),
        decreases t.len() - i,
    {
        i = i + 1;
    }
    proof {
        lemma_word_len_exact(t@, i as int);
    }
    Some(slice_chars(t.as_slice(), 0, i))
}

/// The text of a directive comment on a line: after leading whitespace and `//` or `#`
/// and more whitespace, text that starts with `codehealth-ignore-`.
pub open spec fn directive_text(line: Seq<char>) -> Option<Seq<char>> {
    let t = spec_trim_start(line);
    let after = if t.len() >= 2 && t.take(2) == "//"@ {
        Some(spec_trim_start(t.skip(2)))
    } else if t.len() >= 1 && t[0] == '#' {
        Some(spec_trim_start(t.skip(1)))
    } else {
        None
    };
    match after {
        Some(a) => if a.len() >= "codehealth-ignore-"@.len() && a.take("codehealth-ignore-"@.len() as int)
            == "codehealth-ignore-"@ {
            Some(a)
        } else {
            None
        },
        None => None,
    }
}

fn directive_text_exec(line: &[char]) -> (r: Option<Vec<char>>)
    ensures
        match r {
            Some(v) => directive_text(line@) == Some(v@),
            None => directive_text(line@) is None,
        },
{
    let t = trim_start_chars(line);
    let slashes = chars_of("//");
    proof {
        reveal_strlit("//");
    }
    let after = if starts_with(t.as_slice(), slashes.as_slice()) {
        trim_start_chars(slice_chars(t.as_slice(), 2, t.len()).as_slice())
    } else if t.len() >= 1 && t[0] == '#' {
        trim_start_chars(slice_chars(t.as_slice(), 1, t.len()).as_slice())
    } else {
        return None;
    };
    let marker = chars_of("codehealth-ignore-");
    if starts_with(after.as_slice(), marker.as_slice()) {
        Some(after)
    } else {
        None
    }
}

/// What follows a directive keyword: the rule named by the first word before any `--`
/// (by id or alias), and the trimmed text after the first `--` as reason when not empty.
pub open spec fn payload(catalog: RuleCatalog, rest: Seq<char>) -> Option<(Seq<char>, Option<Seq<char>>)> {
    let (rule_part, reason_part) = match first_occurrence(rest, "--"@) {
        Some(p) => (rest.take(p), rest.skip(p + 2)),
        None => (rest, seq![]),
    };
    match first_word(rule_part) {
        None => None,
        Some(word) => match spec_canonical_rule_id(catalog, word) {
            None => None,
            Some(rule) => {
                let reason = spec_trim(reason_part);
                Some((rule, if reason.len() > 0 {
                    Some(reason)
                } else {
                    None
                }))
            },
        },
    }
}

/// The position of the first open block stack under `key`.
pub open spec fn key_index<V>(open: Seq<(Seq<char>, V)>, key: Seq<char>, i: int) -> Option<int>
    decreases open.len() - i,
{
    if i < 0 || i >= open.len() {
        None
    } else if open[i].0 == key {
        Some(i)
    } else {
        key_index(open, key, i + 1)
    }
}

/// The open blocks after `d` is pushed on the stack of its rule.
pub open spec fn push_open(open: Seq<(Seq<char>, Seq<DirectiveView>)>, d: DirectiveView) -> Seq<(Seq<char>, Seq<DirectiveView>)> {
    match key_index(open, d.0, 0) {
        Some(p) => open.update(p, (d.0, open[p].1.push(d))),
        None => insert_entry(open, d.0, seq![d]),
    }
}

/// Scanning state: the directives completed so far and the open block stacks by rule.
pub type ScanState = (Seq<DirectiveView>, Seq<(Seq<char>, Seq<DirectiveView>)>);

/// The state after the directive on line number `ln` (of `total` lines).
pub open spec fn scan_step(catalog: RuleCatalog, state: ScanState, line: Seq<char>, ln: int, total: int) -> ScanState {
    let (done, open) = state;
    match directive_text(line) {
        None => state,
        Some(raw) => {
            let next = "codehealth-ignore-next-line"@;
            let start = "codehealth-ignore-start"@;
            let end = "codehealth-ignore-end"@;
            if raw.len() >= next.len() && raw.take(next.len() as int) == next {
                match payload(catalog, raw.skip(next.len() as int)) {
                    Some((rule, reason)) => (done.push((rule, ln, ln + 1, ln + 1, SuppressionKind::NextLine, reason)), open),
                    None => state,
                }
            } else if raw.len() >= start.len() && raw.take(start.len() as int) == start {
                match payload(catalog, raw.skip(start.len() as int)) {
                    Some((rule, reason)) => (done, push_open(open, (rule, ln, ln + 1, total, SuppressionKind::Block, reason))),
                    None => state,
                }
            } else if raw.len() >= end.len() && raw.take(end.len() as int) == end {
                match first_word(raw.skip(end.len() as int)) {
                    None => state,
                    Some(word) => match spec_canonical_rule_id(catalog, word) {
                        None => state,
                        Some(rule) => match key_index(open, rule, 0) {
                            None => state,
                            Some(p) => if open[p].1.len() > 0 {
                                let d = open[p].1.last();
                                (done.push((d.0, d.1, d.2, ln - 1, d.4, d.5)), open.update(p, (open[p].0, open[p].1.drop_last())))
                            } else {
                                state
                            },
                        },
                    },
                }
            } else {
                state
            }
        },
    }
}

/// The state after the first `n` lines.
pub open spec fn scan_lines(catalog: RuleCatalog, lines: Seq<Seq<char>>, n: int) -> ScanState
    decreases n,
{
    if n <= 0 {
        (seq![], seq![])
    } else {
        scan_step(catalog, scan_lines(catalog, lines, n - 1), lines[n - 1], n, lines.len() as int)
    }
}

/// The directives still open, stack by stack in rule order, each from the bottom up.
pub open spec fn flatten_open(open: Seq<(Seq<char>, Seq<DirectiveView>)>) -> Seq<DirectiveView>
    decreases open.len(),
{
    if open.len() == 0 {
        seq![]
    } else {
        flatten_open(open.drop_last()) + open.last().1
    }
}

/// The suppressions of a source text: completed directives in the order they close,
/// then the blocks never closed, which run to the last line.
pub open spec fn spec_parse_suppressions(catalog: RuleCatalog, source: Seq<char>) -> Seq<DirectiveView> {
    let lines = spec_lines(source);
    let (done, open) = scan_lines(catalog, lines, lines.len() as int);
    done + flatten_open(open)
}


/// The open block stacks as views.
pub open spec fn open_view(open: Seq<(String, Vec<SuppressionDirective>)>) -> Seq<(Seq<char>, Seq<DirectiveView>)> {
    open.map_values(|e: (String, Vec<SuppressionDirective>)| (e.0@, directive_views(e.1@)))
}

/// Every directive of the stacks belongs to `path` and carries its warnings.
pub open spec fn open_ok(open: Seq<(String, Vec<SuppressionDirective>)>, path: Seq<char>) -> bool {
    forall|i: int, j: int|
        0 <= i < open.len() && 0 <= j < open[i].1@.len() ==> directive_ok(#[trigger] open[i].1@[j], path)
}

fn text_is(a: &String, b: &String) -> (r: bool)
    ensures
        r == (a@ == b@),
{
    chars_eq(chars_of(a.as_str()).as_slice(), chars_of(b.as_str()).as_slice())
}

fn find_key(open: &Vec<(String, Vec<SuppressionDirective>)>, key: &String) -> (r: Option<usize>)
    ensures
        match r {
            Some(p) => key_index(open_view(open@), key@, 0) == Some(p as int),
            None => key_index(open_view(open@), key@, 0) is None,
        },
{
    let ghost v = open_view(open@);
    for i in 0..open.len()
        invariant
            v == open_view(open@),
            key_index(v, key@, i as int) == key_index(v, key@, 0),
    {
        assert(v[i as int].0 == open@[i as int].0@);
        if text_is(&open[i].0, key) {
            return Some(i);
        }
    }
    None
}

fn push_open_exec(open: &mut Vec<(String, Vec<SuppressionDirective>)>, d: SuppressionDirective, Ghost(path): Ghost<Seq<char>>)
    requires
        open_ok(old(open)@, path),
        directive_ok(d, path),
    ensures
        open_view(final(open)@) == push_open(open_view(old(open)@), directive_view(d)),
        open_ok(final(open)@, path),
{
    let ghost v = open_view(open@);
    let ghost dv = directive_view(d);
    match find_key(open, &d.rule_id) {
        Some(p) => {
            proof {
                lemma_key_index_found(v, dv.0, 0);
            }
            let (k, mut stack) = open.remove(p);
            let ghost before = stack@;
            stack.push(d);
            open.insert(p, (k, stack));
            assert(directive_views(stack@) =~= directive_views(before).push(dv));
            assert(open_view(open@) =~= v.update(p as int, (dv.0, v[p as int].1.push(dv))));
            assert forall|i: int, j: int|
                0 <= i < open@.len() && 0 <= j < open@[i].1@.len() implies directive_ok(#[trigger] open@[i].1@[j], path) by {
                if i != p {
                    assert(open@[i] == old(open)@[i]);
                } else if j < before.len() {
                    assert(open@[i].1@[j] == old(open)@[i].1@[j]);
                }
            }
        },
        None => {
            let mut q: usize = 0;
            while q < open.len() && !str_le(d.rule_id.as_str(), open[q].0.as_str())
                invariant
                    v == open_view(open@),
                    dv == directive_view(d),
                    q <= open@.len(),
                    insert_position(v, dv.0, q as int) == insert_position(v, dv.0, 0),
                decreases open.len() - q,
            {
                assert(v[q as int].0 == open@[q as int].0@);
                assert(!chars_le(dv.0, v[q as int].0));
                q = q + 1;
            }
            if q < open.len() {
                assert(v[q as int].0 == open@[q as int].0@);
            }
            assert(key_index(v, dv.0, 0) is None);
            proof {
                lemma_key_index_absent(v, dv.0, 0);
            }
            let key = d.rule_id.clone();
            let mut stack: Vec<SuppressionDirective> = Vec::new();
            stack.push(d);
            assert(directive_views(stack@) =~= seq![dv]);
            open.insert(q, (key, stack));
            assert(open_view(open@) =~= v.insert(q as int, (dv.0, seq![dv])));
            assert forall|i: int, j: int|
                0 <= i < open@.len() && 0 <= j < open@[i].1@.len() implies directive_ok(#[trigger] open@[i].1@[j], path) by {
                if i < q {
                    assert(open@[i] == old(open)@[i]);
                } else if i > q {
                    assert(open@[i] == old(open)@[i - 1]);
                }
            }
        },
    }
}

proof fn lemma_key_index_absent<V>(v: Seq<(Seq<char>, V)>, key: Seq<char>, i: int)
    requires
        0 <= i,
        key_index(v, key, i) is None,
    ensures
        forall|j: int| i <= j < v.len() ==> v[j].0 != key,
    decreases v.len() - i,
{
    if i < v.len() {
        lemma_key_index_absent(v, key, i + 1);
    }
}

proof fn lemma_key_index_found<V>(v: Seq<(Seq<char>, V)>, key: Seq<char>, i: int)
    requires
        0 <= i,
    ensures
        key_index(v, key, i) matches Some(p) ==> i <= p < v.len() && v[p].0 == key,
    decreases v.len() - i,
{
    if i < v.len() && v[i].0 != key {
        lemma_key_index_found(v, key, i + 1);
    }
}

fn cat_reason(part: &[char]) -> (r: Option<String>)
    ensures
        opt_view(r) == (if spec_trim(part@).len() > 0 {
            Some(spec_trim(part@))
        } else {
            None
        }),
{
    let t = trim_chars(part);
    if t.len() > 0 {
        Some(string_from_chars(t.as_slice()))
    } else {
        None
    }
}

fn payload_exec(catalog: &RuleCatalog, rest: &[char]) -> (r: Option<(String, Option<String>)>)
    ensures
        match r {
            Some((rule, reason)) => payload(*catalog, rest@) == Some((rule@, opt_view(reason))),
            None => payload(*catalog, rest@) is None,
        },
{
    let dashes = chars_of("--");
    proof {
        reveal_strlit("--");
    }
    let n = rest.len();
    let (rule_part, reason_part) = match find_first(rest, dashes.as_slice()) {
        Some(p) => {
            proof {
                crate::text::lemma_first_occurrence_bound(rest@, dashes@);
                assert(dashes@.len() == 2);
                assert(crate::text::occurs_at(rest@, dashes@, p as int));
                assert(p + 2 <= rest@.len());
            }
            (slice_chars(rest, 0, p), slice_chars(rest, p + 2, n))
        },
        None => (slice_chars(rest, 0, rest.len()), Vec::new()),
    };
    assert(rest@.subrange(0, rest@.len() as int) =~= rest@);
    let word = match first_word_exec(rule_part.as_slice()) {
        Some(w) => w,
        None => {
            return None;
        },
    };
    let rule = match catalog.canonical_rule_id(string_from_chars(word.as_slice()).as_str()) {
        Some(c) => c,
        None => {
            return None;
        },
    };
    let reason = cat_reason(reason_part.as_slice());
    Some((rule, reason))
}


fn make_directive(
    rule: String,
    reason: Option<String>,
    path: &str,
    line: usize,
    start: usize,
    end: usize,
    kind: SuppressionKind,
) -> (r: SuppressionDirective)
    ensures
        directive_view(r) == (rule@, line as int, start as int, end as int, kind, opt_view(reason)),
        directive_ok(r, path@),
{
    let mut warnings: Vec<String> = Vec::new();
    if reason.is_none() {
        warnings.push(String::from_str("suppression reason is missing"));
    }
    assert(text_views(warnings@) =~= if reason is None {
        seq!["suppression reason is missing"@]
    } else {
        seq![]
    });
    SuppressionDirective {
        rule_id: rule,
        path: String::from_str(path),
        line,
        target_start_line: start,
        target_end_line: end,
        kind,
        reason,
        warnings,
    }
}

fn copy_directive(d: &SuppressionDirective, path: &str) -> (r: SuppressionDirective)
    requires
        directive_ok(*d, path@),
    ensures
        directive_view(r) == directive_view(*d),
        directive_ok(r, path@),
{
    let reason = match &d.reason {
        Some(t) => Some(t.clone()),
        None => None,
    };
    make_directive(d.rule_id.clone(), reason, path, d.line, d.target_start_line, d.target_end_line, d.kind)
}

fn push_done(done: &mut Vec<SuppressionDirective>, d: SuppressionDirective, Ghost(path): Ghost<Seq<char>>)
    requires
        forall|i: int| 0 <= i < old(done)@.len() ==> directive_ok(#[trigger] old(done)@[i], path),
        directive_ok(d, path),
    ensures
        directive_views(final(done)@) == directive_views(old(done)@).push(directive_view(d)),
        forall|i: int| 0 <= i < final(done)@.len() ==> directive_ok(#[trigger] final(done)@[i], path),
{
    let ghost before = done@;
    done.push(d);
    assert(directive_views(done@) =~= directive_views(before).push(directive_view(d)));
}

/// Parses the suppression directives of the source text of the file at `path`.
pub fn parse_suppressions(path: &str, source: &str, catalog: &RuleCatalog) -> (r: Vec<SuppressionDirective>)
    requires
        source@.len() < usize::MAX,
    ensures
        directive_views(r@) == spec_parse_suppressions(*catalog, source@),
        forall|i: int| 0 <= i < r@.len() ==> directive_ok(#[trigger] r@[i], path@),
{
    let chars = chars_of(source);
    let lines = lines_of(&chars);
    let ghost lv = crate::text::views(lines@);
    let total = lines.len();
    proof {
        crate::normalize::lemma_lines_len(source@);
    }
    let mut done: Vec<SuppressionDirective> = Vec::new();
    let mut open: Vec<(String, Vec<SuppressionDirective>)> = Vec::new();
    let next = chars_of("codehealth-ignore-next-line");
    let start = chars_of("codehealth-ignore-start");
    let end = chars_of("codehealth-ignore-end");
    for i in 0..total
        invariant
            total == lines@.len(),
            total < usize::MAX,
            lv == crate::text::views(lines@),
            lv == spec_lines(source@),
            next@ == "codehealth-ignore-next-line"@,
            start@ == "codehealth-ignore-start"@,
            end@ == "codehealth-ignore-end"@,
            (directive_views(done@), open_view(open@)) == scan_lines(*catalog, lv, i as int),
            forall|j: int| 0 <= j < done@.len() ==> directive_ok(#[trigger] done@[j], path@),
            open_ok(open@, path@),
    {
        let ln = i + 1;
        let ghost state = scan_lines(*catalog, lv, i as int);
        assert(lv[i as int] == lines@[i as int]@);
        assert(scan_lines(*catalog, lv, ln as int) == scan_step(*catalog, state, lv[i as int], ln as int, total as int));
        match directive_text_exec(lines[i].as_slice()) {
            None => {},
            Some(raw) => {
                if starts_with(raw.as_slice(), next.as_slice()) {
                    let rest = slice_chars(raw.as_slice(), next.len(), raw.len());
                    match payload_exec(catalog, rest.as_slice()) {
                        Some((rule, reason)) => {
                            let d = make_directive(rule, reason, path, ln, ln + 1, ln + 1, SuppressionKind::NextLine);
                            push_done(&mut done, d, Ghost(path@));
                        },
                        None => {},
                    }
                } else if starts_with(raw.as_slice(), start.as_slice()) {
                    let rest = slice_chars(raw.as_slice(), start.len(), raw.len());
                    match payload_exec(catalog, rest.as_slice()) {
                        Some((rule, reason)) => {
                            let d = make_directive(rule, reason, path, ln, ln + 1, total, SuppressionKind::Block);
                            push_open_exec(&mut open, d, Ghost(path@));
                        },
                        None => {},
                    }
                } else if starts_with(raw.as_slice(), end.as_slice()) {
                    let rest = slice_chars(raw.as_slice(), end.len(), raw.len());
                    match first_word_exec(rest.as_slice()) {
                        None => {},
                        Some(word) => match catalog.canonical_rule_id(string_from_chars(word.as_slice()).as_str()) {
                            None => {},
                            Some(rule) => match find_key(&open, &rule) {
                                None => {},
                                Some(p) => {
                                    let ghost ov = open_view(open@);
                                    proof {
                                        lemma_key_index_found(ov, rule@, 0);
                                    }
                                    if open[p].1.len() > 0 {
                                        let ghost old_open = open@;
                                        let (k, mut stack) = open.remove(p);
                                        let ghost before = stack@;
                                        let top = stack.pop();
                                        match top {
                                            Some(d) => {
                                                assert(d == before.last());
                                                assert(stack@ == before.drop_last());
                                                assert(directive_ok(d, path@));
                                                let closed = make_directive(
                                                    d.rule_id,
                                                    d.reason,
                                                    path,
                                                    d.line,
                                                    d.target_start_line,
                                                    ln - 1,
                                                    d.kind,
                                                );
                                                push_done(&mut done, closed, Ghost(path@));
                                            },
                                            None => {},
                                        }
                                        open.insert(p, (k, stack));
                                        assert(directive_views(stack@) =~= directive_views(before).drop_last());
                                        assert(open_view(open@) =~= ov.update(p as int, (ov[p as int].0, ov[p as int].1.drop_last())));
                                        assert forall|a: int, b: int|
                                            0 <= a < open@.len() && 0 <= b < open@[a].1@.len() implies directive_ok(
                                            #[trigger] open@[a].1@[b],
                                            path@,
                                        ) by {
                                            if a != p {
                                                assert(open@[a] == old_open[a]);
                                            } else {
                                                assert(open@[a].1@[b] == old_open[a].1@[b]);
                                            }
                                        }
                                    }
                                },
                            },
                        },
                    }
                }
            },
        }
    }
    let ghost opened = open_view(open@);
    let ghost closed = directive_views(done@);
    for a in 0..open.len()
        invariant
            opened == open_view(open@),
            open_ok(open@, path@),
            directive_views(done@) == closed + flatten_open(opened.take(a as int)),
            forall|j: int| 0 <= j < done@.len() ==> directive_ok(#[trigger] done@[j], path@),
    {
        let ghost before = directive_views(done@);
        let count = open[a].1.len();
        for b in 0..count
            invariant
                opened == open_view(open@),
                open_ok(open@, path@),
                a < open@.len(),
                count == open@[a as int].1@.len(),
                directive_views(done@) == before + opened[a as int].1.take(b as int),
                forall|j: int| 0 <= j < done@.len() ==> directive_ok(#[trigger] done@[j], path@),
        {
            let d = copy_directive(&open[a].1[b], path);
            push_done(&mut done, d, Ghost(path@));
            assert(opened[a as int].1.take(b + 1) =~= opened[a as int].1.take(b as int).push(opened[a as int].1[b as int]));
        }
        assert(opened[a as int].1.take(open@[a as int].1@.len() as int) =~= opened[a as int].1);
        assert(opened.take(a + 1).drop_last() =~= opened.take(a as int));
    }
    assert(opened.take(open@.len() as int) =~= opened);
    done
}


impl SuppressionDirective {
    /// Whether the directive hides findings of the rule (by id or alias) on `line`.
    pub open spec fn spec_matches(self, catalog: RuleCatalog, rule_id: Seq<char>, line: int) -> bool {
        match spec_canonical_rule_id(catalog, rule_id) {
            Some(c) => c == self.rule_id@ && self.target_start_line <= line <= self.target_end_line,
            None => false,
        }
    }

    /// Whether the directive hides findings of the rule (by id or alias) on `line`.
    pub fn matches(&self, catalog: &RuleCatalog, rule_id: &str, line: usize) -> (r: bool)
        ensures
            r == self.spec_matches(*catalog, rule_id@, line as int),
    {
        match catalog.canonical_rule_id(rule_id) {
            Some(c) => text_is(&c, &self.rule_id) && line >= self.target_start_line && line <= self.target_end_line,
            None => false,
        }
    }
}

} // verus!
