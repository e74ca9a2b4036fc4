//! Text normalisation for duplicate detection: collapsing whitespace, estimating
//! tokens, dropping comments while keeping string literals intact, and classifying a
//! path's language by its extension.
use vstd::prelude::*;

use crate::findings::Location;
use crate::text::{
    chars_eq, chars_of, contains_chars, is_whitespace, is_word_char, join_chars, leading_ws,
    lower_char, lower_chars, occurs_at, slice_chars, spec_is_whitespace, spec_is_word_char,
    spec_join, spec_lower, spec_lower_char, spec_trim, string_from_chars, trim_chars, views,
};
use crate::utf8_facts::{lemma_encode_concat, str_len_fits};
use vstd::string::StringSliceAdditionalSpecFns;
use vstd::utf8::encode_utf8;

verus! {

/// The maximal runs of non-whitespace characters of `s`, in order.
pub open spec fn spec_words(s: Seq<char>) -> Seq<Seq<char>>
    decreases s.len(),
{
    if s.len() == 0 {
        seq![]
    } else {
        let earlier = spec_words(s.drop_last());
        let c = s.last();
        if spec_is_whitespace(c) {
            earlier
        } else if s.len() >= 2 && !spec_is_whitespace(s[s.len() - 2]) {
            earlier.update(earlier.len() - 1, earlier.last().push(c))
        } else {
            earlier.push(seq![c])
        }
    }
}

/// `s` with its words joined by single spaces: leading and trailing whitespace goes,
/// every inner run of whitespace becomes one space.
pub open spec fn spec_normalize(s: Seq<char>) -> Seq<char> {
    spec_join(spec_words(s), seq![' '])
}

/// A word: not empty, and without whitespace.
pub open spec fn is_word(w: Seq<char>) -> bool {
    w.len() > 0 && forall|k: int| 0 <= k < w.len() ==> !spec_is_whitespace(#[trigger] w[k])
}

proof fn lemma_words_are_words(s: Seq<char>)
    ensures
        forall|i: int| 0 <= i < spec_words(s).len() ==> is_word(#[trigger] spec_words(s)[i]),
        s.len() > 0 && !spec_is_whitespace(s.last()) ==> spec_words(s).len() > 0,
    decreases s.len(),
{
    if s.len() > 0 {
        lemma_words_are_words(s.drop_last());
        let earlier = spec_words(s.drop_last());
        let c = s.last();
        if !spec_is_whitespace(c) && s.len() >= 2 && !spec_is_whitespace(s[s.len() - 2]) {
            assert(s.drop_last().last() == s[s.len() - 2]);
            let w = earlier.last().push(c);
            assert forall|k: int| 0 <= k < w.len() implies !spec_is_whitespace(#[trigger] w[k]) by {
                if k < w.len() - 1 {
                    assert(is_word(earlier[earlier.len() - 1]));
                    assert(w[k] == earlier.last()[k]);
                }
            }
        }
    }
}

proof fn lemma_words_append_space(s: Seq<char>, c: char)
    requires
        spec_is_whitespace(c),
    ensures
        spec_words(s.push(c)) == spec_words(s),
{
    assert(s.push(c).drop_last() =~= s);
}

proof fn lemma_words_append_word(s: Seq<char>, t: Seq<char>)
    requires
        s.len() == 0 || spec_is_whitespace(s.last()),
        is_word(t),
    ensures
        spec_words(s + t) == spec_words(s).push(t),
    decreases t.len(),
{
    if t.len() == 1 {
        assert((s + t).drop_last() =~= s);
        assert((s + t).last() == t[0]);
        if s.len() > 0 {
            assert((s + t)[(s + t).len() - 2] == s.last());
        }
        assert(seq![t[0]] =~= t);
    } else {
        let u = t.drop_last();
        assert(is_word(u)) by {
            assert forall|k: int| 0 <= k < u.len() implies !spec_is_whitespace(#[trigger] u[k]) by {
                assert(u[k] == t[k]);
            }
        }
        lemma_words_append_word(s, u);
        assert((s + t).drop_last() =~= s + u);
        assert((s + t).last() == t.last());
        assert((s + t)[(s + t).len() - 2] == t[t.len() - 2]);
        assert(!spec_is_whitespace(t[t.len() - 1]));
        assert(!spec_is_whitespace(t[t.len() - 2]));
        let earlier = spec_words(s + u);
        assert(earlier == spec_words(s).push(u));
        assert(u.push(t.last()) =~= t);
        assert(earlier.last() == u);
        assert(earlier.update(earlier.len() - 1, earlier.last().push(t.last())) =~= spec_words(s).push(t));
    }
}

proof fn lemma_words_of_joined(ws: Seq<Seq<char>>)
    requires
        forall|i: int| 0 <= i < ws.len() ==> is_word(#[trigger] ws[i]),
    ensures
        spec_words(spec_join(ws, seq![' '])) == ws,
    decreases ws.len(),
{
    if ws.len() == 0 {
    } else if ws.len() == 1 {
        assert(is_word(ws[0]));
        lemma_words_append_word(seq![], ws[0]);
        assert(Seq::<char>::empty() + ws[0] =~= ws[0]);
        assert(spec_words(Seq::<char>::empty()) =~= Seq::<Seq<char>>::empty());
        assert(seq![ws[0]] =~= ws);
    } else {
        let front = ws.drop_last();
        assert forall|i: int| 0 <= i < front.len() implies is_word(#[trigger] front[i]) by {
            assert(front[i] == ws[i]);
        }
        lemma_words_of_joined(front);
        let joined = spec_join(front, seq![' ']);
        lemma_words_append_space(joined, ' ');
        assert(joined + seq![' '] =~= joined.push(' '));
        assert(is_word(ws[ws.len() - 1]));
        lemma_words_append_word(joined.push(' '), ws.last());
        assert(spec_join(ws, seq![' ']) =~= joined.push(' ') + ws.last());
        assert(front.push(ws.last()) =~= ws);
    }
}

/// The shape of words joined by single spaces: no whitespace at either end, and every
/// whitespace character is a single space between two characters that are not.
pub open spec fn single_spaced(j: Seq<char>) -> bool {
    &&& j.len() > 0 ==> !spec_is_whitespace(j[0]) && !spec_is_whitespace(j[j.len() - 1])
    &&& forall|k: int|
        0 <= k < j.len() && spec_is_whitespace(#[trigger] j[k]) ==> j[k] == ' ' && 0 < k < j.len() - 1
            && !spec_is_whitespace(j[k - 1]) && !spec_is_whitespace(j[k + 1])
}

proof fn lemma_join_single_spaced(ws: Seq<Seq<char>>)
    requires
        forall|i: int| 0 <= i < ws.len() ==> is_word(#[trigger] ws[i]),
    ensures
        single_spaced(spec_join(ws, seq![' '])),
        ws.len() > 0 ==> spec_join(ws, seq![' ']).len() > 0,
    decreases ws.len(),
{
    if ws.len() == 1 {
        assert(is_word(ws[0]));
    } else if ws.len() >= 2 {
        let front = ws.drop_last();
        assert forall|i: int| 0 <= i < front.len() implies is_word(#[trigger] front[i]) by {
            assert(front[i] == ws[i]);
        }
        lemma_join_single_spaced(front);
        let a = spec_join(front, seq![' ']);
        let w = ws.last();
        assert(is_word(ws[ws.len() - 1]));
        let j = spec_join(ws, seq![' ']);
        assert(j =~= a + seq![' '] + w);
        assert(!spec_is_whitespace(w[0]));
        assert(!spec_is_whitespace(w[w.len() - 1]));
        assert forall|k: int|
            0 <= k < j.len() && spec_is_whitespace(#[trigger] j[k]) implies j[k] == ' ' && 0 < k < j.len() - 1
                && !spec_is_whitespace(j[k - 1]) && !spec_is_whitespace(j[k + 1]) by {
            if k < a.len() {
                assert(j[k] == a[k]);
                assert(j[k - 1] == a[k - 1]);
                assert(j[k + 1] == a[k + 1]);
            } else if k > a.len() {
                assert(j[k] == w[k - a.len() - 1]);
            } else {
                assert(j[k - 1] == a[a.len() - 1]);
                assert(j[k + 1] == w[0]);
            }
        }
    }
}

/// Normalising is idempotent: the result splits at whitespace into the same words as
/// the source, so normalising it again changes nothing. The result has no whitespace
/// at either end, and its words are separated by exactly one space.
pub proof fn lemma_normalize_idempotent(s: Seq<char>)
    ensures
        spec_words(spec_normalize(s)) == spec_words(s),
        spec_normalize(spec_normalize(s)) == spec_normalize(s),
        single_spaced(spec_normalize(s)),
{
    lemma_words_are_words(s);
    lemma_words_of_joined(spec_words(s));
    lemma_join_single_spaced(spec_words(s));
}

/// The words of `chars`, split at Unicode whitespace.
fn split_words(chars: &Vec<char>) -> (r: Vec<Vec<char>>)
    ensures
        views(r@) == spec_words(chars@),
{
    let mut done: Vec<Vec<char>> = Vec::new();
    let mut current: Vec<char> = Vec::new();
    for i in 0..chars.len()
        invariant
            i > 0 && !spec_is_whitespace(chars@[i - 1]) ==> views(done@).push(current@)
                == spec_words(chars@.take(i as int)) && current@.len() > 0,
            !(i > 0 && !spec_is_whitespace(chars@[i - 1])) ==> views(done@) == spec_words(
                chars@.take(i as int),
            ) && current@.len() == 0,
    {
        let c = chars[i];
        let ghost prefix = chars@.take(i + 1);
        assert(prefix.drop_last() =~= chars@.take(i as int));
        assert(prefix.last() == c);
        if is_whitespace(c) {
            if current.len() > 0 {
                let ghost before = done@;
                done.push(current);
                current = Vec::new();
                assert(views(done@) =~= views(before).push(views(done@).last()));
            }
        } else {
            let ghost before = current@;
            current.push(c);
            if i > 0 && !is_whitespace(chars[i - 1]) {
                assert(prefix[prefix.len() - 2] == chars@[i - 1]);
                let ghost earlier = spec_words(chars@.take(i as int));
                assert(earlier == views(done@).push(before));
                assert(earlier.last() == before);
                assert(spec_words(prefix) == earlier.update(earlier.len() - 1, before.push(c)));
                assert(current@ == before.push(c));
                assert(earlier.update(earlier.len() - 1, before.push(c)) =~= views(done@).push(
                    before.push(c),
                ));
                assert(views(done@).push(current@) =~= spec_words(prefix));
            } else {
                if i > 0 {
                    assert(prefix[prefix.len() - 2] == chars@[i - 1]);
                }
                assert(current@ =~= seq![c]);
                assert(views(done@) == spec_words(chars@.take(i as int)));
                assert(views(done@).push(current@) =~= spec_words(prefix));
            }
        }
    }
    assert(chars@.take(chars@.len() as int) =~= chars@);
    if current.len() > 0 {
        let ghost before = done@;
        done.push(current);
        assert(views(done@) =~= views(before).push(views(done@).last()));
    }
    done
}

/// Joins the whitespace-separated words of `source` with single spaces.
pub fn normalize_source(source: &str) -> (r: String)
    ensures
        r@ == spec_normalize(source@),
{
    let chars = chars_of(source);
    let words = split_words(&chars);
    let space: Vec<char> = vec![' '];
    assert(space@ =~= seq![' ']);
    let joined = join_chars(&words, space.as_slice());
    string_from_chars(joined.as_slice())
}

/// The number of tokens in `s`: each run of word characters counts once and every
/// other character that is not whitespace counts on its own.
pub open spec fn spec_token_count(s: Seq<char>) -> nat
    decreases s.len(),
{
    if s.len() == 0 {
        0
    } else {
        let earlier = spec_token_count(s.drop_last());
        let c = s.last();
        if spec_is_word_char(c) {
            if s.len() >= 2 && spec_is_word_char(s[s.len() - 2]) {
                earlier
            } else {
                earlier + 1
            }
        } else if spec_is_whitespace(c) {
            earlier
        } else {
            earlier + 1
        }
    }
}

proof fn lemma_token_count_bound(s: Seq<char>)
    ensures
        spec_token_count(s) <= s.len(),
    decreases s.len(),
{
    if s.len() > 0 {
        lemma_token_count_bound(s.drop_last());
    }
}

/// Counts words (runs of ASCII letters, digits and `_`) and punctuation characters.
pub fn token_estimate(normalized: &str) -> (r: usize)
    ensures
        r == spec_token_count(normalized@),
{
    let chars = chars_of(normalized);
    let mut count: usize = 0;
    let mut in_token = false;
    for i in 0..chars.len()
        invariant
            count == spec_token_count(chars@.take(i as int)),
            count <= i,
            in_token == (i > 0 && spec_is_word_char(chars@[i - 1])),
    {
        let c = chars[i];
        let ghost prefix = chars@.take(i + 1);
        assert(prefix.drop_last() =~= chars@.take(i as int));
        assert(prefix.last() == c);
        if i > 0 {
            assert(prefix[prefix.len() - 2] == chars@[i - 1]);
        }
        if is_word_char(c) {
            if !in_token {
                count = count + 1;
                in_token = true;
            }
        } else {
            in_token = false;
            if !is_whitespace(c) {
                count = count + 1;
            }
        }
    }
    assert(chars@.take(chars@.len() as int) =~= chars@);
    count
}

/// `s` with every carriage-return/line-feed pair turned into a single line feed.
pub open spec fn spec_crlf_to_lf(s: Seq<char>) -> Seq<char>
    decreases s.len(),
{
    if s.len() == 0 {
        seq![]
    } else if s.len() >= 2 && s[0] == '\r' && s[1] == '\n' {
        seq!['\n'] + spec_crlf_to_lf(s.skip(2))
    } else {
        seq![s[0]] + spec_crlf_to_lf(s.skip(1))
    }
}

/// Replaces each `"\r\n"` with `"\n"`.
pub fn crlf_to_lf(chars: &Vec<char>) -> (r: Vec<char>)
    ensures
        r@ == spec_crlf_to_lf(chars@),
{
    let mut out: Vec<char> = Vec::new();
    let mut i: usize = 0;
    assert(chars@.skip(0) =~= chars@);
    while i < chars.len()
        invariant
            i <= chars@.len(),
            out@ + spec_crlf_to_lf(chars@.skip(i as int)) == spec_crlf_to_lf(chars@),
        decreases chars.len() - i,
    {
        let ghost rest = chars@.skip(i as int);
        if i + 1 < chars.len() && chars[i] == '\r' && chars[i + 1] == '\n' {
            out.push('\n');
            assert(rest.skip(2) =~= chars@.skip(i + 2));
            i = i + 2;
        } else {
            out.push(chars[i]);
            assert(rest.skip(1) =~= chars@.skip(i + 1));
            i = i + 1;
        }
        assert(out@ + spec_crlf_to_lf(chars@.skip(i as int)) =~= spec_crlf_to_lf(chars@));
    }
    assert(chars@.skip(i as int) =~= Seq::<char>::empty());
    out
}

/// Where the comment stripper stands: in code, inside a string literal (with its quote
/// character and whether it is triple-quoted), or inside a line or block comment.
#[derive(Debug, Clone, Copy, PartialEq, Eq, Structural)]
pub enum ScanState {
    Code,
    Quoted { quote: char, triple: bool },
    LineComment,
    BlockComment,
}

pub open spec fn is_quote_char(c: char) -> bool {
    c == '"' || c == '\'' || c == '`'
}

pub open spec fn scan_rank(state: ScanState) -> int {
    match state {
        ScanState::Code => 0,
        _ => 1,
    }
}

/// What the stripper emits for `s` from position `i` on, when it reaches `i` in
/// `state`. Comments become one space (block comments keep their line breaks),
/// string literals and all other code are copied unchanged, and a backslash inside a
/// literal always keeps the character after it.
pub open spec fn strip_from(s: Seq<char>, i: int, state: ScanState) -> Seq<char>
    decreases s.len() - i, scan_rank(state),
{
    if i < 0 || i >= s.len() {
        seq![]
    } else {
        let c = s[i];
        match state {
            ScanState::Code => {
                if is_quote_char(c) {
                    if (c == '"' || c == '\'') && i + 2 < s.len() && s[i + 1] == c && s[i + 2] == c {
                        seq![c, c, c] + strip_from(s, i + 3, ScanState::Quoted { quote: c, triple: true })
                    } else {
                        seq![c] + strip_from(s, i + 1, ScanState::Quoted { quote: c, triple: false })
                    }
                } else if c == '/' && i + 1 < s.len() && s[i + 1] == '/' {
                    seq![' '] + strip_from(s, i + 2, ScanState::LineComment)
                } else if c == '/' && i + 1 < s.len() && s[i + 1] == '*' {
                    seq![' '] + strip_from(s, i + 2, ScanState::BlockComment)
                } else if c == '#' {
                    seq![' '] + strip_from(s, i + 1, ScanState::LineComment)
                } else {
                    seq![c] + strip_from(s, i + 1, ScanState::Code)
                }
            },
            ScanState::Quoted { quote, triple } => {
                if c == '\\' && i + 1 < s.len() {
                    seq![c, s[i + 1]] + strip_from(s, i + 2, state)
                } else if triple {
                    if c == quote && i + 2 < s.len() && s[i + 1] == quote && s[i + 2] == quote {
                        seq![c, quote, quote] + strip_from(s, i + 3, ScanState::Code)
                    } else {
                        seq![c] + strip_from(s, i + 1, state)
                    }
                } else if c == quote {
                    seq![c] + strip_from(s, i + 1, ScanState::Code)
                } else {
                    seq![c] + strip_from(s, i + 1, state)
                }
            },
            ScanState::LineComment => {
                if c == '\n' {
                    strip_from(s, i, ScanState::Code)
                } else {
                    strip_from(s, i + 1, ScanState::LineComment)
                }
            },
            ScanState::BlockComment => {
                if i + 1 < s.len() {
                    if c == '*' && s[i + 1] == '/' {
                        strip_from(s, i + 2, ScanState::Code)
                    } else if c == '\n' {
                        seq!['\n'] + strip_from(s, i + 1, ScanState::BlockComment)
                    } else {
                        strip_from(s, i + 1, ScanState::BlockComment)
                    }
                } else {
                    strip_from(s, i, ScanState::Code)
                }
            },
        }
    }
}

/// The text with comments removed.
pub open spec fn spec_strip_comments(s: Seq<char>) -> Seq<char> {
    strip_from(s, 0, ScanState::Code)
}

fn is_quote(c: char) -> (r: bool)
    ensures
        r == is_quote_char(c),
{
    c == '"' || c == '\'' || c == '`'
}

fn strip_comment_chars(chars: &Vec<char>) -> (r: Vec<char>)
    ensures
        r@ == spec_strip_comments(chars@),
{
    let mut out: Vec<char> = Vec::new();
    let mut i: usize = 0;
    let mut state = ScanState::Code;
    let n = chars.len();
    while i < n
        invariant
            n == chars@.len(),
            i <= n,
            out@ + strip_from(chars@, i as int, state) == spec_strip_comments(chars@),
        decreases n - i, scan_rank(state),
    {
        let c = chars[i];
        let ghost old_out = out@;
        let ghost old_i = i as int;
        let ghost old_state = state;
        match state {
            ScanState::Code => {
                if is_quote(c) {
                    if (c == '"' || c == '\'') && n - i > 2 && chars[i + 1] == c && chars[i + 2] == c {
                        out.push(c);
                        out.push(c);
                        out.push(c);
                        state = ScanState::Quoted { quote: c, triple: true };
                        i = i + 3;
                    } else {
                        out.push(c);
                        state = ScanState::Quoted { quote: c, triple: false };
                        i = i + 1;
                    }
                } else if c == '/' && i + 1 < n && chars[i + 1] == '/' {
                    out.push(' ');
                    state = ScanState::LineComment;
                    i = i + 2;
                } else if c == '/' && i + 1 < n && chars[i + 1] == '*' {
                    out.push(' ');
                    state = ScanState::BlockComment;
                    i = i + 2;
                } else if c == '#' {
                    out.push(' ');
                    state = ScanState::LineComment;
                    i = i + 1;
                } else {
                    out.push(c);
                    i = i + 1;
                }
            },
            ScanState::Quoted { quote, triple } => {
                if c == '\\' && i + 1 < n {
                    out.push(c);
                    out.push(chars[i + 1]);
                    i = i + 2;
                } else if triple {
                    if c == quote && n - i > 2 && chars[i + 1] == quote && chars[i + 2] == quote {
                        out.push(c);
                        out.push(quote);
                        out.push(quote);
                        state = ScanState::Code;
                        i = i + 3;
                    } else {
                        out.push(c);
                        i = i + 1;
                    }
                } else if c == quote {
                    out.push(c);
                    state = ScanState::Code;
                    i = i + 1;
                } else {
                    out.push(c);
                    i = i + 1;
                }
            },
            ScanState::LineComment => {
                if c == '\n' {
                    state = ScanState::Code;
                } else {
                    i = i + 1;
                }
            },
            ScanState::BlockComment => {
                if i + 1 < n {
                    if c == '*' && chars[i + 1] == '/' {
                        state = ScanState::Code;
                        i = i + 2;
                    } else if c == '\n' {
                        out.push('\n');
                        i = i + 1;
                    } else {
                        i = i + 1;
                    }
                } else {
                    state = ScanState::Code;
                }
            },
        }
        assert(out@ + strip_from(chars@, i as int, state) =~= old_out + strip_from(
            chars@,
            old_i,
            old_state,
        ));
    }
    out
}

/// Removes `//`, `/* */` and `#` comments while leaving string literals (single,
/// double, back-quoted and triple-quoted) untouched. Each comment leaves one space;
/// a block comment also keeps its line breaks.
pub fn strip_comments_preserving_literals(source: &str) -> (r: String)
    ensures
        r@ == spec_strip_comments(source@),
{
    let chars = chars_of(source);
    let stripped = strip_comment_chars(&chars);
    string_from_chars(stripped.as_slice())
}

/// Normalises a function body for comparison: comments are removed, line endings
/// unified and whitespace collapsed.
pub fn normalize_body_source(source: &str) -> (r: String)
    ensures
        r@ == spec_normalize(spec_crlf_to_lf(spec_strip_comments(source@))),
{
    let chars = chars_of(source);
    let stripped = strip_comment_chars(&chars);
    let unified = crlf_to_lf(&stripped);
    let words = split_words(&unified);
    let space: Vec<char> = vec![' '];
    assert(space@ =~= seq![' ']);
    let joined = join_chars(&words, space.as_slice());
    string_from_chars(joined.as_slice())
}

/// The position of the first line feed in `s`, or -1 when there is none.
pub open spec fn first_newline(s: Seq<char>) -> int
    decreases s.len(),
{
    if s.len() == 0 {
        -1
    } else if s[0] == '\n' {
        0
    } else {
        let k = first_newline(s.skip(1));
        if k < 0 {
            -1
        } else {
            k + 1
        }
    }
}

pub proof fn lemma_first_newline_bounds(s: Seq<char>)
    ensures
        -1 <= first_newline(s) < s.len(),
        first_newline(s) >= 0 ==> s[first_newline(s)] == '\n',
        forall|m: int| 0 <= m < s.len() && (first_newline(s) < 0 || m < first_newline(s)) ==> s[m] != '\n',
    decreases s.len(),
{
    if s.len() > 0 && s[0] != '\n' {
        lemma_first_newline_bounds(s.skip(1));
        assert forall|m: int| 0 <= m < s.len() && (first_newline(s) < 0 || m < first_newline(s)) implies s[m] != '\n' by {
            if m > 0 {
                assert(s[m] == s.skip(1)[m - 1]);
            }
        }
    }
}

proof fn lemma_first_newline_scan(s: Seq<char>, i: int, j: int)
    requires
        0 <= i <= j <= s.len(),
        forall|m: int| i <= m < j ==> s[m] != '\n',
        j == s.len() || s[j] == '\n',
    ensures
        first_newline(s.skip(i)) == (if j == s.len() {
            -1
        } else {
            j - i
        }),
    decreases j - i,
{
    if i < j {
        lemma_first_newline_scan(s, i + 1, j);
        assert(s.skip(i).skip(1) =~= s.skip(i + 1));
        assert(s.skip(i)[0] == s[i]);
    } else if j < s.len() {
        assert(s.skip(i)[0] == s[i]);
    }
}

/// A line without the carriage return that ended it.
pub open spec fn strip_cr(line: Seq<char>) -> Seq<char> {
    if line.len() > 0 && line.last() == '\r' {
        line.drop_last()
    } else {
        line
    }
}

/// The lines of `s` as `str::lines` yields them: split at line feeds, a carriage
/// return before a line feed dropped, and no empty line after a final line feed.
pub open spec fn spec_lines(s: Seq<char>) -> Seq<Seq<char>>
    decreases s.len(),
{
    if s.len() == 0 {
        seq![]
    } else {
        let k = first_newline(s);
        if k < 0 {
            seq![s]
        } else {
            proof {
                lemma_first_newline_bounds(s);
            }
            seq![strip_cr(s.take(k))] + spec_lines(s.skip(k + 1))
        }
    }
}

/// A text has no more lines than characters.
pub proof fn lemma_lines_len(s: Seq<char>)
    ensures
        spec_lines(s).len() <= s.len(),
    decreases s.len(),
{
    if s.len() > 0 && first_newline(s) >= 0 {
        lemma_first_newline_bounds(s);
        lemma_lines_len(s.skip(first_newline(s) + 1));
    }
}

/// The lines of `chars`.
pub fn lines_of(chars: &Vec<char>) -> (r: Vec<Vec<char>>)
    ensures
        views(r@) == spec_lines(chars@),
{
    let mut out: Vec<Vec<char>> = Vec::new();
    let n = chars.len();
    let mut i: usize = 0;
    assert(chars@.skip(0) =~= chars@);
    while i < n
        invariant
            n == chars@.len(),
            i <= n,
            views(out@) + spec_lines(chars@.skip(i as int)) == spec_lines(chars@),
        decreases n - i,
    {
        let mut j = i;
        while j < n && chars[j] != '\n'
            invariant
                n == chars@.len(),
                i <= j <= n,
                forall|m: int| i <= m < j ==> chars@[m] != '\n',
            decreases n - j,
        {
            j = j + 1;
        }
        let ghost rest = chars@.skip(i as int);
        proof {
            lemma_first_newline_scan(chars@, i as int, j as int);
        }
        let ghost before = views(out@);
        if j < n {
            let mut line = slice_chars(chars.as_slice(), i, j);
            if line.len() > 0 && line[line.len() - 1] == '\r' {
                line.pop();
            }
            assert(rest.take(j - i) =~= chars@.subrange(i as int, j as int));
            assert(line@ == strip_cr(rest.take(j - i)));
            out.push(line);
            assert(rest.skip(j - i + 1) =~= chars@.skip(j + 1));
            i = j + 1;
        } else {
            let line = slice_chars(chars.as_slice(), i, n);
            assert(line@ =~= rest);
            out.push(line);
            i = n;
            assert(chars@.skip(n as int) =~= Seq::<char>::empty());
        }
        assert(views(out@) =~= before.push(views(out@).last()));
    }
    out
}

/// How many lines `str::lines` yields for `s`.
pub fn line_count(source: &str) -> (r: usize)
    ensures
        r == spec_lines(source@).len(),
{
    let chars = chars_of(source);
    let lines = lines_of(&chars);
    lines.len()
}

/// The marker that introduces a suppression comment.
pub open spec fn suppression_marker() -> Seq<char> {
    seq!['c', 'o', 'd', 'e', 'h', 'e', 'a', 'l', 't', 'h', '-', 'i', 'g', 'n', 'o', 'r', 'e', '-']
}

/// A line that holds code: something besides whitespace and no suppression marker.
pub open spec fn relevant_line(line: Seq<char>) -> bool {
    spec_trim(line).len() > 0 && !(exists|q: int| occurs_at(spec_trim(line), suppression_marker(), q))
}

/// The UTF-8 length of the lines before `index`, each counted with one byte for its
/// line break.
pub open spec fn offset_before(lines: Seq<Seq<char>>, index: int) -> int
    decreases index,
{
    if index <= 0 {
        0
    } else {
        offset_before(lines, index - 1) + encode_utf8(lines[index - 1]).len() + 1
    }
}

/// The index of the first relevant line at or after `from`, or `lines.len()`.
pub open spec fn first_relevant_index(lines: Seq<Seq<char>>, from: int) -> int
    decreases lines.len() - from,
{
    if from >= lines.len() {
        lines.len() as int
    } else if relevant_line(lines[from]) {
        from
    } else {
        first_relevant_index(lines, from + 1)
    }
}

/// Where the first relevant line of `source` starts: its 1-based line, the 1-based
/// column of its first non-whitespace character and its byte offset; line 1, column 1
/// when no line is relevant.
pub open spec fn spec_first_relevant_location(source: Seq<char>) -> Location {
    let lines = spec_lines(source);
    let k = first_relevant_index(lines, 0);
    if k >= lines.len() {
        Location { line: 1, column: 1, byte_offset: 0 }
    } else {
        Location {
            line: (k + 1) as usize,
            column: (leading_ws(lines[k]) + 1) as usize,
            byte_offset: offset_before(lines, k) as usize,
        }
    }
}

proof fn lemma_strip_cr_len(line: Seq<char>)
    ensures
        encode_utf8(strip_cr(line)).len() <= encode_utf8(line).len(),
{
    if line.len() > 0 && line.last() == '\r' {
        lemma_encode_concat(line.drop_last(), seq![line.last()]);
        assert(line.drop_last() + seq![line.last()] =~= line);
    }
}

/// The offset of every line but the last lies within the text.
proof fn lemma_offset_within(s: Seq<char>, k: int)
    requires
        0 <= k < spec_lines(s).len(),
    ensures
        offset_before(spec_lines(s), k) + encode_utf8(spec_lines(s)[k]).len() <= encode_utf8(s).len(),
    decreases s.len(),
{
    let lines = spec_lines(s);
    let p = first_newline(s);
    lemma_first_newline_bounds(s);
    if p >= 0 {
        let head = s.take(p);
        let tail = s.skip(p + 1);
        assert(s =~= head + (seq!['\n'] + tail));
        lemma_encode_concat(head, seq!['\n'] + tail);
        lemma_encode_concat(seq!['\n'], tail);
        lemma_strip_cr_len(head);
        assert(encode_utf8(seq!['\n']).len() == 1) by {
            reveal_with_fuel(encode_utf8, 2);
        }
        lemma_offset_shift(lines, spec_lines(tail), k);
        if k > 0 {
            lemma_offset_within(tail, k - 1);
        }
    } else {
        assert(lines =~= seq![s]);
    }
}

/// Offsets of lines that follow a first line shift by that line's length and break.
proof fn lemma_offset_shift(lines: Seq<Seq<char>>, rest: Seq<Seq<char>>, k: int)
    requires
        lines.len() == rest.len() + 1,
        forall|j: int| 0 <= j < rest.len() ==> lines[j + 1] == rest[j],
        0 <= k < lines.len(),
    ensures
        k == 0 ==> offset_before(lines, k) == 0,
        k > 0 ==> offset_before(lines, k) == encode_utf8(lines[0]).len() + 1 + offset_before(rest, k - 1),
        k > 0 ==> lines[k] == rest[k - 1],
    decreases k,
{
    if k > 1 {
        lemma_offset_shift(lines, rest, k - 1);
        assert(lines[k] == rest[k - 1]);
        assert(offset_before(lines, k) == offset_before(lines, k - 1) + encode_utf8(lines[k - 1]).len() + 1);
        assert(offset_before(rest, k - 1) == offset_before(rest, k - 2) + encode_utf8(rest[k - 2]).len() + 1);
    } else if k == 1 {
        assert(lines[1] == rest[0]);
        assert(offset_before(lines, 1) == offset_before(lines, 0) + encode_utf8(lines[0]).len() + 1);
        assert(offset_before(rest, 0) == 0);
    }
}

/// Locates the first line that holds code and is not a suppression comment.
pub fn first_relevant_location(source: &str) -> (r: Location)
    ensures
        r == spec_first_relevant_location(source@),
{
    str_len_fits(source);
    let chars = chars_of(source);
    let lines = lines_of(&chars);
    let marker: Vec<char> = vec!['c', 'o', 'd', 'e', 'h', 'e', 'a', 'l', 't', 'h', '-', 'i', 'g', 'n', 'o', 'r', 'e', '-'];
    assert(marker@ =~= suppression_marker());
    let ghost all = views(lines@);
    let mut byte_offset: usize = 0;
    for index in 0..lines.len()
        invariant
            all == views(lines@),
            all == spec_lines(source@),
            marker@ == suppression_marker(),
            encode_utf8(source@).len() <= usize::MAX,
            index < all.len() ==> byte_offset == offset_before(all, index as int),
            first_relevant_index(all, 0) == first_relevant_index(all, index as int),
    {
        let line = &lines[index];
        assert(all[index as int] == line@);
        let trimmed = trim_chars(line.as_slice());
        let is_suppression = contains_chars(trimmed.as_slice(), marker.as_slice());
        if trimmed.len() > 0 && !is_suppression {
            let mut column: usize = 0;
            while column < line.len() && is_whitespace(line[column])
                invariant
                    column <= line@.len(),
                    forall|j: int| 0 <= j < column ==> spec_is_whitespace(#[trigger] line@[j]),
                decreases line.len() - column,
            {
                column = column + 1;
            }
            proof {
                lemma_leading_ws_exact(line@, column as int);
                lemma_offset_within(source@, index as int);
            }
            return Location { line: index + 1, column: column + 1, byte_offset };
        }
        proof {
            lemma_offset_within(source@, index as int);
        }
        if index + 1 < lines.len() {
            let text = string_from_chars(line.as_slice());
            proof {
                lemma_offset_within(source@, index + 1);
            }
            byte_offset = byte_offset + text.as_str().len() + 1;
        }
    }
    Location { line: 1, column: 1, byte_offset: 0 }
}

proof fn lemma_leading_ws_exact(s: Seq<char>, n: int)
    requires
        0 <= n <= s.len(),
        forall|j: int| 0 <= j < n ==> spec_is_whitespace(#[trigger] s[j]),
        n == s.len() || !spec_is_whitespace(s[n]),
    ensures
        leading_ws(s) == n,
    decreases n,
{
    if n > 0 {
        assert forall|j: int| 0 <= j < n - 1 implies spec_is_whitespace(#[trigger] s.drop_first()[j]) by {
            assert(s.drop_first()[j] == s[j + 1]);
        }
        if n < s.len() {
            assert(s.drop_first()[n - 1] == s[n]);
        }
        lemma_leading_ws_exact(s.drop_first(), n - 1);
    }
}

/// `p` without trailing `/` separators and trailing `.` components.
pub open spec fn trim_path_tail(p: Seq<char>) -> Seq<char>
    decreases p.len(),
{
    if p.len() >= 1 && p.last() == '/' {
        trim_path_tail(p.drop_last())
    } else if p.len() >= 2 && p.last() == '.' && p[p.len() - 2] == '/' {
        trim_path_tail(p.drop_last())
    } else {
        p
    }
}

/// The position of the last `c` in `s`, or -1.
pub open spec fn last_index_of(s: Seq<char>, c: char) -> int
    decreases s.len(),
{
    if s.len() == 0 {
        -1
    } else if s.last() == c {
        s.len() - 1
    } else {
        last_index_of(s.drop_last(), c)
    }
}

/// The last component of a `/`-separated path.
pub open spec fn spec_file_name(p: Seq<char>) -> Seq<char> {
    let q = trim_path_tail(p);
    q.skip(last_index_of(q, '/') + 1)
}

/// The extension of a path's file name, as `Path::extension` gives it: the text after
/// the last `.`, unless that dot starts the name or the name is `..`.
pub open spec fn spec_extension(p: Seq<char>) -> Option<Seq<char>> {
    let name = spec_file_name(p);
    let k = last_index_of(name, '.');
    if k <= 0 || name == seq!['.', '.'] {
        None
    } else {
        Some(name.skip(k + 1))
    }
}

/// The language named by a lower-cased extension.
pub open spec fn language_for_extension(e: Seq<char>) -> Option<Seq<char>> {
    if e == seq!['t', 's'] || e == seq!['m', 't', 's'] || e == seq!['c', 't', 's'] {
        Some(seq!['t', 'y', 'p', 'e', 's', 'c', 'r', 'i', 'p', 't'])
    } else if e == seq!['t', 's', 'x'] {
        Some(seq!['t', 's', 'x'])
    } else if e == seq!['p', 'y'] || e == seq!['p', 'y', 'i'] {
        Some(seq!['p', 'y', 't', 'h', 'o', 'n'])
    } else if e == seq!['r', 's'] {
        Some(seq!['r', 'u', 's', 't'])
    } else {
        None
    }
}

/// The language of a path, from its extension with ASCII case ignored.
pub open spec fn spec_language_for_path(p: Seq<char>) -> Option<Seq<char>> {
    match spec_extension(p) {
        Some(e) => language_for_extension(spec_lower(e)),
        None => None,
    }
}

pub proof fn lemma_last_index_bounds_pub(s: Seq<char>, c: char)
    ensures
        -1 <= last_index_of(s, c) < s.len(),
        last_index_of(s, c) >= 0 ==> s[last_index_of(s, c)] == c,
        forall|j: int| last_index_of(s, c) < j < s.len() ==> s[j] != c,
{
    lemma_last_index_bounds(s, c);
}

proof fn lemma_last_index_bounds(s: Seq<char>, c: char)
    ensures
        -1 <= last_index_of(s, c) < s.len(),
        last_index_of(s, c) >= 0 ==> s[last_index_of(s, c)] == c,
        forall|j: int| last_index_of(s, c) < j < s.len() ==> s[j] != c,
    decreases s.len(),
{
    if s.len() > 0 && s.last() != c {
        lemma_last_index_bounds(s.drop_last(), c);
        assert forall|j: int| last_index_of(s, c) < j < s.len() implies s[j] != c by {
            if j < s.len() - 1 {
                assert(s[j] == s.drop_last()[j]);
            }
        }
    }
}

pub fn trim_path_tail_len(p: &Vec<char>) -> (r: usize)
    ensures
        r <= p@.len(),
        p@.take(r as int) == trim_path_tail(p@),
{
    let mut n = p.len();
    assert(p@.take(n as int) =~= p@);
    while n > 0 && (p[n - 1] == '/' || (n >= 2 && p[n - 1] == '.' && p[n - 2] == '/'))
        invariant
            n <= p@.len(),
            trim_path_tail(p@.take(n as int)) == trim_path_tail(p@),
        decreases n,
    {
        assert(p@.take(n as int).drop_last() =~= p@.take(n - 1));
        n = n - 1;
    }
    n
}

/// The position of the last `c` among the first `end` characters.
pub fn last_index_exec(s: &Vec<char>, end: usize, c: char) -> (r: Option<usize>)
    requires
        end <= s@.len(),
    ensures
        match r {
            Some(k) => k == last_index_of(s@.take(end as int), c),
            None => last_index_of(s@.take(end as int), c) == -1,
        },
{
    let mut n = end;
    while n > 0 && s[n - 1] != c
        invariant
            n <= end <= s@.len(),
            last_index_of(s@.take(n as int), c) == last_index_of(s@.take(end as int), c),
        decreases n,
    {
        assert(s@.take(n as int).drop_last() =~= s@.take(n - 1));
        n = n - 1;
    }
    if n == 0 {
        None
    } else {
        Some(n - 1)
    }
}

fn chars_are(s: &[char], expected: &[char]) -> (r: bool)
    ensures
        r == (s@ == expected@),
{
    chars_eq(s, expected)
}

/// The language name for a file path's extension: `typescript`, `tsx`, `python` or
/// `rust`; `None` for any other extension or none.
pub fn language_name_for_path(path: &str) -> (r: Option<&'static str>)
    ensures
        match r {
            Some(name) => spec_language_for_path(path@) == Some(name@),
            None => spec_language_for_path(path@) is None,
        },
{
    let p = chars_of(path);
    let end = trim_path_tail_len(&p);
    let ghost q = trim_path_tail(path@);
    proof {
        lemma_last_index_bounds(q, '/');
    }
    let start = match last_index_exec(&p, end, '/') {
        Some(k) => k + 1,
        None => 0,
    };
    proof {
        lemma_last_index_bounds(q, '/');
    }
    let name = slice_chars(p.as_slice(), start, end);
    assert(name@ =~= spec_file_name(path@));
    let dot = last_index_exec(&name, name.len(), '.');
    assert(name@.take(name@.len() as int) =~= name@);
    proof {
        lemma_last_index_bounds(name@, '.');
    }
    let k = match dot {
        Some(k) => k,
        None => {
            return None;
        },
    };
    let dots: Vec<char> = vec!['.', '.'];
    if k == 0 || chars_are(name.as_slice(), dots.as_slice()) {
        assert(dots@ =~= seq!['.', '.']);
        return None;
    }
    assert(dots@ =~= seq!['.', '.']);
    let ext = lower_chars(slice_chars(name.as_slice(), k + 1, name.len()).as_slice());
    assert(name@.subrange(k + 1, name@.len() as int) =~= name@.skip(k + 1));
    let ts: Vec<char> = vec!['t', 's'];
    let mts: Vec<char> = vec!['m', 't', 's'];
    let cts: Vec<char> = vec!['c', 't', 's'];
    let tsx: Vec<char> = vec!['t', 's', 'x'];
    let py: Vec<char> = vec!['p', 'y'];
    let pyi: Vec<char> = vec!['p', 'y', 'i'];
    let rs: Vec<char> = vec!['r', 's'];
    proof {
        assert(ts@ =~= seq!['t', 's']);
        assert(mts@ =~= seq!['m', 't', 's']);
        assert(cts@ =~= seq!['c', 't', 's']);
        assert(tsx@ =~= seq!['t', 's', 'x']);
        assert(py@ =~= seq!['p', 'y']);
        assert(pyi@ =~= seq!['p', 'y', 'i']);
        assert(rs@ =~= seq!['r', 's']);
        reveal_strlit("typescript");
        reveal_strlit("tsx");
        reveal_strlit("python");
        reveal_strlit("rust");
    }
    if chars_are(&ext, &ts) || chars_are(&ext, &mts) || chars_are(&ext, &cts) {
        let r = "typescript";
        assert(r@ =~= seq!['t', 'y', 'p', 'e', 's', 'c', 'r', 'i', 'p', 't']);
        Some(r)
    } else if chars_are(&ext, &tsx) {
        let r = "tsx";
        assert(r@ =~= seq!['t', 's', 'x']);
        Some(r)
    } else if chars_are(&ext, &py) || chars_are(&ext, &pyi) {
        let r = "python";
        assert(r@ =~= seq!['p', 'y', 't', 'h', 'o', 'n']);
        Some(r)
    } else if chars_are(&ext, &rs) {
        let r = "rust";
        assert(r@ =~= seq!['r', 'u', 's', 't']);
        Some(r)
    } else {
        None
    }
}

} // verus!
