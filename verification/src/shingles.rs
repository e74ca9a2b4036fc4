//! The token streams that near-duplicate detection cuts into shingles: lexical
//! tokens, paths of canonical syntax nodes, control-flow keywords, statement lines,
//! and the distinct shingles of a stream.
use vstd::prelude::*;

use crate::baseline_keys::{key_set, sorted_distinct};
use crate::config::text_views;
use crate::normalize::{lemma_lines_len, lines_of, normalize_source, spec_lines, spec_normalize};
use crate::text::{
    chars_of, is_ascii_alphanumeric, is_whitespace, join_chars, lower_chars, spec_is_ascii_alphanumeric,
    spec_is_whitespace, spec_join, spec_lower, spec_trim, string_from_chars, views,
};

verus! {

broadcast use vstd::std_specs::vec::group_vec_axioms;

/// Whether a character continues a word token.
pub open spec fn is_token_char(c: char) -> bool {
    spec_is_ascii_alphanumeric(c) || c == '_'
}

/// The finished tokens and the word being read after scanning `s`: a word ends at any
/// other character; that character is a token of its own unless it is whitespace.
pub open spec fn lex_scan(s: Seq<char>) -> (Seq<Seq<char>>, Seq<char>)
    decreases s.len(),
{
    if s.len() == 0 {
        (seq![], seq![])
    } else {
        let prev = lex_scan(s.drop_last());
        let c = s.last();
        if is_token_char(c) {
            (prev.0, prev.1.push(c))
        } else {
            let flushed = if prev.1.len() > 0 {
                prev.0.push(spec_lower(prev.1))
            } else {
                prev.0
            };
            if spec_is_whitespace(c) {
                (flushed, seq![])
            } else {
                (flushed.push(seq![c]), seq![])
            }
        }
    }
}

/// The lexical tokens of a text: its runs of ASCII letters, digits and underscores,
/// lower-cased, and every other character that is not whitespace.
pub open spec fn spec_lexical_tokens(s: Seq<char>) -> Seq<Seq<char>> {
    let st = lex_scan(s);
    if st.1.len() > 0 {
        st.0.push(spec_lower(st.1))
    } else {
        st.0
    }
}

fn push_token(tokens: &mut Vec<String>, word: &Vec<char>)
    ensures
        text_views(final(tokens)@) == text_views(old(tokens)@).push(spec_lower(word@)),
{
    let ghost before = tokens@;
    let t = string_from_chars(lower_chars(word.as_slice()).as_slice());
    tokens.push(t);
    assert(text_views(tokens@) =~= text_views(before).push(spec_lower(word@)));
}

/// The lexical tokens of a text.
pub fn lexical_tokens(source: &str) -> (r: Vec<String>)
    ensures
        text_views(r@) == spec_lexical_tokens(source@),
{
    let chars = chars_of(source);
    let mut tokens: Vec<String> = Vec::new();
    let mut current: Vec<char> = Vec::new();
    for i in 0..chars.len()
        invariant
            chars@ == source@,
            (text_views(tokens@), current@) == lex_scan(chars@.take(i as int)),
    {
        let c = chars[i];
        assert(chars@.take(i + 1).drop_last() =~= chars@.take(i as int));
        if is_ascii_alphanumeric(c) || c == '_' {
            current.push(c);
        } else {
            if current.len() > 0 {
                push_token(&mut tokens, &current);
                current = Vec::new();
            }
            if !is_whitespace(c) {
                let ghost before = tokens@;
                let mut one = String::new();
                crate::text::push_char(&mut one, c);
                tokens.push(one);
                assert(text_views(tokens@) =~= text_views(before).push(seq![c]));
            }
            assert(current@ =~= Seq::<char>::empty());
        }
    }
    assert(chars@.take(chars@.len() as int) =~= chars@);
    if current.len() > 0 {
        push_token(&mut tokens, &current);
    }
    tokens
}

/// The names of the canonical syntax nodes that paths are made of.
pub open spec fn canonical_node_names() -> Seq<Seq<char>> {
    seq![
        "function"@,
        "params"@,
        "block"@,
        "return"@,
        "if"@,
        "binary"@,
        "call"@,
        "member"@,
        "identifier"@,
        "literal"@,
        "assign"@,
        "await"@,
        "match"@,
        "try"@,
        "macro"@,
        "unsafe"@,
        "opaque"@,
        "empty"@,
    ]
}

fn is_one_of(token: &str, names: &Vec<&'static str>) -> (r: bool)
    ensures
        r == names@.map_values(|n: &'static str| n@).contains(token@),
{
    let ghost nv = names@.map_values(|n: &'static str| n@);
    let t = chars_of(token);
    for i in 0..names.len()
        invariant
            t@ == token@,
            nv == names@.map_values(|n: &'static str| n@),
            forall|j: int| 0 <= j < i ==> nv[j] != token@,
    {
        if crate::text::chars_eq(t.as_slice(), chars_of(names[i]).as_slice()) {
            assert(nv[i as int] == token@);
            return true;
        }
    }
    false
}

/// Whether a token names a canonical syntax node.
pub fn canonical_node_token(token: &str) -> (r: bool)
    ensures
        r == canonical_node_names().contains(token@),
{
    let names = vec![
        "function",
        "params",
        "block",
        "return",
        "if",
        "binary",
        "call",
        "member",
        "identifier",
        "literal",
        "assign",
        "await",
        "match",
        "try",
        "macro",
        "unsafe",
        "opaque",
        "empty",
    ];
    proof {
        reveal_strlit("function");
        reveal_strlit("params");
        reveal_strlit("block");
        reveal_strlit("return");
        reveal_strlit("if");
        reveal_strlit("binary");
        reveal_strlit("call");
        reveal_strlit("member");
        reveal_strlit("identifier");
        reveal_strlit("literal");
        reveal_strlit("assign");
        reveal_strlit("await");
        reveal_strlit("match");
        reveal_strlit("try");
        reveal_strlit("macro");
        reveal_strlit("unsafe");
        reveal_strlit("opaque");
        reveal_strlit("empty");
    }
    assert(names@.map_values(|n: &'static str| n@) =~= canonical_node_names());
    is_one_of(token, &names)
}

/// The tokens of `s` that satisfy `keep`, in order.
pub open spec fn filter_tokens(s: Seq<Seq<char>>, keep: spec_fn(Seq<char>) -> bool) -> Seq<Seq<char>>
    decreases s.len(),
{
    if s.len() == 0 {
        seq![]
    } else {
        let prev = filter_tokens(s.drop_last(), keep);
        if keep(s.last()) {
            prev.push(s.last())
        } else {
            prev
        }
    }
}

/// The paths of a node sequence: at each node, the last four nodes up to it joined by
/// `>`.
pub open spec fn node_paths(nodes: Seq<Seq<char>>) -> Seq<Seq<char>> {
    Seq::new(
        nodes.len(),
        |k: int| spec_join(nodes.subrange(if k >= 3 { k - 3 } else { 0 }, k + 1), seq!['>']),
    )
}

/// The syntax paths of a canonical serialization: the node-path of each canonical node
/// among its lexical tokens.
pub fn ast_path_tokens(serialization: &str) -> (r: Vec<String>)
    ensures
        text_views(r@) == node_paths(
            filter_tokens(spec_lexical_tokens(serialization@), |t: Seq<char>| canonical_node_names().contains(t)),
        ),
{
    let tokens = lexical_tokens(serialization);
    let ghost keep = |t: Seq<char>| canonical_node_names().contains(t);
    let mut nodes: Vec<String> = Vec::new();
    for i in 0..tokens.len()
        invariant
            keep == (|t: Seq<char>| canonical_node_names().contains(t)),
            text_views(nodes@) == filter_tokens(text_views(tokens@).take(i as int), keep),
    {
        assert(text_views(tokens@).take(i + 1).drop_last() =~= text_views(tokens@).take(i as int));
        assert(text_views(tokens@).take(i + 1).last() == tokens@[i as int]@);
        if canonical_node_token(tokens[i].as_str()) {
            let ghost before = nodes@;
            nodes.push(tokens[i].clone());
            assert(text_views(nodes@) =~= text_views(before).push(tokens@[i as int]@));
        }
    }
    assert(text_views(tokens@).take(tokens@.len() as int) =~= text_views(tokens@));
    let ghost nv = text_views(nodes@);
    let mut paths: Vec<String> = Vec::new();
    let sep: Vec<char> = vec!['>'];
    assert(sep@ =~= seq!['>']);
    for k in 0..nodes.len()
        invariant
            nv == text_views(nodes@),
            sep@ == seq!['>'],
            paths@.len() == k,
            forall|j: int| 0 <= j < k ==> (#[trigger] paths@[j])@ == node_paths(nv)[j],
    {
        let start: usize = if k >= 3 {
            k - 3
        } else {
            0
        };
        let mut window: Vec<Vec<char>> = Vec::new();
        for j in start..k + 1
            invariant
                nv == text_views(nodes@),
                k < nodes@.len(),
                start <= j <= k + 1,
                views(window@) == nv.subrange(start as int, j as int),
        {
            let ghost before = window@;
            assert(nv[j as int] == nodes@[j as int]@);
            let c = chars_of(nodes[j].as_str());
            window.push(c);
            assert(window@ == before.push(c));
            assert(views(window@) =~= views(before).push(c@));
            assert(views(window@) =~= nv.subrange(start as int, j + 1));
        }
        let path = string_from_chars(join_chars(&window, sep.as_slice()).as_slice());
        paths.push(path);
    }
    assert(text_views(paths@) =~= node_paths(nv));
    paths
}

/// The keywords and marks that make up control flow.
pub open spec fn control_flow_names() -> Seq<Seq<char>> {
    seq!["if"@, "else"@, "for"@, "while"@, "match"@, "case"@, "catch"@, "except"@, "try"@, "return"@, "await"@, "?"@]
}

/// The control-flow tokens of a token stream, in order.
pub fn control_flow_tokens(tokens: &[String]) -> (r: Vec<String>)
    ensures
        text_views(r@) == filter_tokens(text_views(tokens@), |t: Seq<char>| control_flow_names().contains(t)),
{
    let names = vec!["if", "else", "for", "while", "match", "case", "catch", "except", "try", "return", "await", "?"];
    proof {
        reveal_strlit("if");
        reveal_strlit("else");
        reveal_strlit("for");
        reveal_strlit("while");
        reveal_strlit("match");
        reveal_strlit("case");
        reveal_strlit("catch");
        reveal_strlit("except");
        reveal_strlit("try");
        reveal_strlit("return");
        reveal_strlit("await");
        reveal_strlit("?");
    }
    assert(names@.map_values(|n: &'static str| n@) =~= control_flow_names());
    let ghost keep = |t: Seq<char>| control_flow_names().contains(t);
    let mut out: Vec<String> = Vec::new();
    for i in 0..tokens.len()
        invariant
            keep == (|t: Seq<char>| control_flow_names().contains(t)),
            names@.map_values(|n: &'static str| n@) == control_flow_names(),
            text_views(out@) == filter_tokens(text_views(tokens@).take(i as int), keep),
    {
        assert(text_views(tokens@).take(i + 1).drop_last() =~= text_views(tokens@).take(i as int));
        assert(text_views(tokens@).take(i + 1).last() == tokens@[i as int]@);
        if is_one_of(tokens[i].as_str(), &names) {
            let ghost before = out@;
            out.push(tokens[i].clone());
            assert(text_views(out@) =~= text_views(before).push(tokens@[i as int]@));
        }
    }
    assert(text_views(tokens@).take(tokens@.len() as int) =~= text_views(tokens@));
    out
}

/// The shingles of a token stream: each run of `size` consecutive tokens joined by
/// spaces, `size` clamped to between 1 and the number of tokens.
pub open spec fn token_windows(tokens: Seq<Seq<char>>, size: nat) -> Seq<Seq<char>> {
    let w = if size < 1 {
        1
    } else if size > tokens.len() {
        tokens.len()
    } else {
        size
    };
    if tokens.len() == 0 {
        seq![]
    } else {
        Seq::new((tokens.len() - w + 1) as nat, |k: int| spec_join(tokens.subrange(k, k + w), seq![' ']))
    }
}

/// The distinct shingles of a token stream, in text order.
pub fn shingle_strings(tokens: &[String], size: usize) -> (r: Vec<String>)
    ensures
        r@.map_values(|k: String| (k@, ())) == key_set(token_windows(text_views(tokens@), size as nat)),
{
    if tokens.len() == 0 {
        let out: Vec<String> = Vec::new();
        assert(out@.map_values(|k: String| (k@, ())) =~= key_set(token_windows(text_views(tokens@), size as nat)));
        return out;
    }
    let w: usize = if size < 1 {
        1
    } else if size > tokens.len() {
        tokens.len()
    } else {
        size
    };
    let ghost tv = text_views(tokens@);
    let sep: Vec<char> = vec![' '];
    assert(sep@ =~= seq![' ']);
    let mut windows: Vec<String> = Vec::new();
    let count = tokens.len() - w + 1;
    for k in 0..count
        invariant
            tv == text_views(tokens@),
            sep@ == seq![' '],
            1 <= w <= tokens@.len(),
            count == tokens@.len() - w + 1,
            windows@.len() == k,
            forall|j: int| 0 <= j < k ==> (#[trigger] windows@[j])@ == spec_join(tv.subrange(j, j + w), seq![' ']),
    {
        assert(k + w <= tokens.len());
        let mut parts: Vec<Vec<char>> = Vec::new();
        for j in k..k + w
            invariant
                tv == text_views(tokens@),
                k + w <= tokens@.len(),
                k <= j <= k + w,
                views(parts@) == tv.subrange(k as int, j as int),
        {
            let ghost before = parts@;
            assert(tv[j as int] == tokens@[j as int]@);
            let c = chars_of(tokens[j].as_str());
            parts.push(c);
            assert(parts@ == before.push(c));
            assert(views(parts@) =~= views(before).push(c@));
            assert(views(parts@) =~= tv.subrange(k as int, j + 1));
        }
        windows.push(string_from_chars(join_chars(&parts, sep.as_slice()).as_slice()));
    }
    assert(text_views(windows@) =~= token_windows(tv, size as nat));
    sorted_distinct(&windows)
}

/// `s` without its leading copies of `c`.
pub open spec fn strip_start_char(s: Seq<char>, c: char) -> Seq<char>
    decreases s.len(),
{
    if s.len() > 0 && s[0] == c {
        strip_start_char(s.drop_first(), c)
    } else {
        s
    }
}

/// `s` without its trailing copies of `c`.
pub open spec fn strip_end_char(s: Seq<char>, c: char) -> Seq<char>
    decreases s.len(),
{
    if s.len() > 0 && s.last() == c {
        strip_end_char(s.drop_last(), c)
    } else {
        s
    }
}

/// `s` without its leading and trailing copies of `c` (`str::trim_matches`).
pub open spec fn trim_matches_char(s: Seq<char>, c: char) -> Seq<char> {
    strip_end_char(strip_start_char(s, c), c)
}

fn strip_start_exec(s: &Vec<char>, c: char) -> (r: Vec<char>)
    ensures
        r@ == strip_start_char(s@, c),
{
    let mut i: usize = 0;
    assert(s@.subrange(0, s@.len() as int) =~= s@);
    while i < s.len() && s[i] == c
        invariant
            i <= s@.len(),
            strip_start_char(s@.subrange(i as int, s@.len() as int), c) == strip_start_char(s@, c),
        decreases s@.len() - i,
    {
        assert(s@.subrange(i as int, s@.len() as int).drop_first() =~= s@.subrange(i + 1, s@.len() as int));
        i = i + 1;
    }
    crate::text::slice_chars(s.as_slice(), i, s.len())
}

fn strip_end_exec(s: &Vec<char>, c: char) -> (r: Vec<char>)
    ensures
        r@ == strip_end_char(s@, c),
{
    let mut n: usize = s.len();
    assert(s@.take(s@.len() as int) =~= s@);
    while n > 0 && s[n - 1] == c
        invariant
            n <= s@.len(),
            strip_end_char(s@.take(n as int), c) == strip_end_char(s@, c),
        decreases n,
    {
        assert(s@.take(n as int).drop_last() =~= s@.take(n - 1));
        n = n - 1;
    }
    let r = crate::text::slice_chars(s.as_slice(), 0, n);
    assert(r@ =~= s@.take(n as int));
    r
}

/// The text of a statement line: trimmed, without surrounding braces or trailing
/// semicolons, trimmed again, with its whitespace collapsed.
pub open spec fn statement_text(line: Seq<char>) -> Seq<char> {
    spec_normalize(
        spec_trim(strip_end_char(trim_matches_char(trim_matches_char(spec_trim(line), '{'), '}'), ';')),
    )
}

/// Whether a statement text counts as a statement: not empty and not a lone brace
/// or closing bracket.
pub open spec fn is_statement(text: Seq<char>) -> bool {
    text.len() > 0 && text != "{"@ && text != "}"@ && text != ");"@ && text != "};"@
}

/// A statement of a function body: its line and its normalised text.
#[derive(Debug, Clone)]
pub struct StatementRegion {
    pub line: usize,
    pub normalized: String,
}

/// The statements among the first `n` lines, numbered from `start_line`.
pub open spec fn spec_statement_regions(lines: Seq<Seq<char>>, start_line: nat, n: int) -> Seq<(nat, Seq<char>)>
    decreases n,
{
    if n <= 0 {
        seq![]
    } else {
        let prev = spec_statement_regions(lines, start_line, n - 1);
        let text = statement_text(lines[n - 1]);
        if is_statement(text) {
            prev.push(((start_line + n - 1) as nat, text))
        } else {
            prev
        }
    }
}

pub open spec fn region_views(rs: Seq<StatementRegion>) -> Seq<(nat, Seq<char>)> {
    rs.map_values(|r: StatementRegion| (r.line as nat, r.normalized@))
}

/// The statements of a body whose first line is `start_line`, one per line that is
/// a statement.
pub fn statement_regions(source: &str, start_line: usize) -> (r: Vec<StatementRegion>)
    requires
        start_line + source@.len() <= usize::MAX,
    ensures
        region_views(r@) == spec_statement_regions(
            spec_lines(source@),
            start_line as nat,
            spec_lines(source@).len() as int,
        ),
{
    let chars = chars_of(source);
    let lines = lines_of(&chars);
    proof {
        lemma_lines_len(source@);
    }
    let ghost lv = views(lines@);
    let mut regions: Vec<StatementRegion> = Vec::new();
    for offset in 0..lines.len()
        invariant
            lv == views(lines@),
            lv == spec_lines(source@),
            lines@.len() <= source@.len(),
            start_line + source@.len() <= usize::MAX,
            region_views(regions@) == spec_statement_regions(lv, start_line as nat, offset as int),
    {
        assert(lv[offset as int] == lines@[offset as int]@);
        let trimmed = crate::text::trim_chars(lines[offset].as_slice());
        let a = strip_end_exec(&strip_start_exec(&trimmed, '{'), '{');
        let b = strip_end_exec(&strip_start_exec(&a, '}'), '}');
        let d = strip_end_exec(&b, ';');
        let e = crate::text::trim_chars(d.as_slice());
        let normalized = normalize_source(string_from_chars(e.as_slice()).as_str());
        let nc = chars_of(normalized.as_str());
        let keep = nc.len() > 0 && !texts_is(&nc, "{") && !texts_is(&nc, "}") && !texts_is(&nc, ");") && !texts_is(&nc, "};");
        if keep {
            let ghost before = regions@;
            regions.push(StatementRegion { line: start_line + offset, normalized });
            assert(region_views(regions@) =~= region_views(before).push(((start_line + offset) as nat, nc@)));
        }
    }
    regions
}

fn texts_is(v: &Vec<char>, word: &str) -> (r: bool)
    ensures
        r == (v@ == word@),
{
    crate::text::chars_eq(v.as_slice(), chars_of(word).as_slice())
}

} // verus!
