//! The source snippet a report shows for a span: its first lines, trimmed and cut to
//! a size a page can hold.
use vstd::prelude::*;
use vstd::string::StringSliceAdditionalSpecFns;
use vstd::utf8::*;

use crate::findings::{slice_source, SourceSpan};
use crate::normalize::{lines_of, spec_lines};
use crate::text::{chars_of, join_chars, push_char, spec_join, spec_trim_end, string_from_chars, trim_end_chars, views};
use crate::utf8_facts::{lemma_encode_concat, lemma_encode_len, range_chars, str_len_fits};

verus! {

broadcast use {
    vstd::string::group_string_axioms,
    vstd::std_specs::vec::group_vec_axioms,
    vstd::utf8::encode_utf8_decode_utf8,
};

/// The number of bytes of a text in UTF-8.
pub open spec fn byte_len(s: Seq<char>) -> nat {
    encode_utf8(s).len()
}

/// At most the first twelve lines of a text joined by line feeds, and a line `...`
/// when there were more.
pub open spec fn snippet_lines_text(t: Seq<char>) -> Seq<char> {
    let ls = spec_lines(t);
    if ls.len() <= 12 {
        spec_join(ls, "\n"@)
    } else {
        spec_join(ls.take(12), "\n"@) + "\n..."@
    }
}

/// The first `k` characters of `x` take exactly 2000 bytes.
pub open spec fn cut_at(x: Seq<char>, k: int) -> bool {
    0 <= k <= x.len() && byte_len(x.take(k)) == 2000
}

/// A text longer than 2000 bytes can be cut at 2000 bytes without splitting a character.
pub open spec fn cuts_cleanly(x: Seq<char>) -> bool {
    byte_len(x) > 2000 ==> exists|k: int| cut_at(x, k)
}

/// The characters of the span, when both ends are character boundaries inside the source.
pub open spec fn span_text(source: Seq<u8>, span: SourceSpan) -> Option<Seq<char>> {
    if span.start <= span.end && span.end <= source.len() && is_char_boundary(source, span.start as int)
        && is_char_boundary(source, span.end as int) {
        Some(range_chars(source, span.start as int, span.end as int))
    } else {
        None
    }
}

/// The snippet of a span: none for an empty span, one that does not slice cleanly, or
/// one with only white space; else its lines, cut to 2000 bytes and `...` when longer.
pub open spec fn snippet_of(source: Seq<u8>, span: SourceSpan, r: Option<Seq<char>>) -> bool {
    match span_text(source, span) {
        None => r is None,
        Some(t) => {
            let x = snippet_lines_text(spec_trim_end(t));
            if span.start == span.end || spec_trim_end(t).len() == 0 {
                r is None
            } else if byte_len(x) <= 2000 {
                r == Some(x)
            } else {
                exists|k: int| cut_at(x, k) && r == Some(x.take(k) + "..."@)
            }
        },
    }
}

/// Whether the snippet of the span can be made without splitting a character.
pub open spec fn snippet_cuts_cleanly(source: Seq<u8>, span: SourceSpan) -> bool {
    span_text(source, span) matches Some(t) ==> cuts_cleanly(snippet_lines_text(spec_trim_end(t)))
}

proof fn lemma_byte_len_grows(x: Seq<char>, i: int, j: int)
    requires
        0 <= i < j <= x.len(),
    ensures
        byte_len(x.take(i)) < byte_len(x.take(j)),
{
    assert(x.take(j) =~= x.take(i) + x.take(j).skip(i));
    lemma_encode_concat(x.take(i), x.take(j).skip(i));
    lemma_encode_len(x.take(j).skip(i));
}

fn snippet_text(t: &str) -> (r: Option<String>)
    ensures
        spec_trim_end(t@).len() == 0 ==> r is None,
        spec_trim_end(t@).len() > 0 ==> (r matches Some(x) && x@ == snippet_lines_text(spec_trim_end(t@))),
{
    let cs = chars_of(t);
    let trimmed = trim_end_chars(cs.as_slice());
    if trimmed.len() == 0 {
        return None;
    }
    let ls = lines_of(&trimmed);
    let count = ls.len();
    let ghost ls_v = views(ls@);
    let mut shown = ls;
    if count > 12 {
        shown.truncate(12);
    }
    let nl: Vec<char> = vec!['\n'];
    proof {
        reveal_strlit("\n");
        assert(nl@ =~= "\n"@);
    }
    let mut joined = string_from_chars(join_chars(&shown, nl.as_slice()).as_slice());
    proof {
        assert(views(shown@) =~= (if count <= 12 { ls_v } else { ls_v.take(12) }));
    }
    if count > 12 {
        joined.append("\n...");
    }
    Some(joined)
}

fn cut_snippet(x: String) -> (r: String)
    requires
        byte_len(x@) > 2000,
        cuts_cleanly(x@),
    ensures
        exists|k: int| cut_at(x@, k) && r@ == x@.take(k) + "..."@,
{
    let cs = chars_of(x.as_str());
    let ghost k0 = choose|k: int| cut_at(x@, k);
    let mut out = String::new();
    let mut k: usize = 0;
    str_len_fits(out.as_str());
    while k < cs.len() && out.as_str().len() < 2000
        invariant
            cs@ == x@,
            k <= cs@.len(),
            out@ == x@.take(k as int),
            encode_utf8(out@).len() <= usize::MAX,
            cut_at(x@, k0),
            k as int <= k0,
        decreases cs@.len() - k,
    {
        proof {
            if k as int == k0 {
                assert(x@.take(k0) == out@);
            }
        }
        push_char(&mut out, cs[k]);
        k = k + 1;
        assert(out@ =~= x@.take(k as int));
        str_len_fits(out.as_str());
        proof {
            if k as int > k0 {
                lemma_byte_len_grows(x@, k0, k as int - 1);
            }
        }
    }
    str_len_fits(out.as_str());
    proof {
        if k as int != k0 {
            lemma_byte_len_grows(x@, k as int, k0);
        }
    }
    assert(cut_at(x@, k as int));
    out.append("...");
    out
}

/// Whether the snippet of `span` can be cut at 2000 bytes without splitting a
/// character; a snippet is made only when it can.
pub fn snippet_can_be_cut(source: &str, span: SourceSpan) -> (r: bool)
    ensures
        r == snippet_cuts_cleanly(source.spec_bytes(), span),
{
    if span.start > span.end {
        return true;
    }
    str_len_fits(source);
    match slice_source(source, span) {
        Err(_) => true,
        Ok(t) => match snippet_text(t) {
            None => {
                assert(t@ == range_chars(source.spec_bytes(), span.start as int, span.end as int));
                true
            },
            Some(x) => {
                assert(t@ == range_chars(source.spec_bytes(), span.start as int, span.end as int));
                str_len_fits(x.as_str());
                if x.as_str().len() <= 2000 {
                    return true;
                }
                let cs = chars_of(x.as_str());
                let mut out = String::new();
                let mut k: usize = 0;
                str_len_fits(out.as_str());
                while k < cs.len() && out.as_str().len() < 2000
                    invariant
                        cs@ == x@,
                        k <= cs@.len(),
                        out@ == x@.take(k as int),
                        encode_utf8(out@).len() <= usize::MAX,
                        forall|j: int| 0 <= j < k ==> byte_len(x@.take(j)) < 2000,
                    decreases cs@.len() - k,
                {
                    assert(byte_len(x@.take(k as int)) < 2000);
                    push_char(&mut out, cs[k]);
                    k = k + 1;
                    assert(out@ =~= x@.take(k as int));
                    str_len_fits(out.as_str());
                }
                str_len_fits(out.as_str());
                let clean = out.as_str().len() == 2000;
                proof {
                    assert(x@ == snippet_lines_text(spec_trim_end(t@)));
                    if clean {
                        assert(cut_at(x@, k as int));
                    } else {
                        assert forall|j: int| !cut_at(x@, j) by {
                            if 0 <= j <= x@.len() {
                                if j < k {
                                } else if j > k {
                                    lemma_byte_len_grows(x@, k as int, j);
                                    if k == cs@.len() {
                                        assert(false);
                                    }
                                }
                            }
                        }
                        if k == cs@.len() {
                            assert(x@.take(k as int) =~= x@);
                        }
                        assert(!cuts_cleanly(x@));
                    }
                }
                clean
            },
        },
    }
}

/// The snippet a report shows for `span` of `source`: the span's text without
/// trailing white space, its first twelve lines and a line `...` when it has more,
/// and, past 2000 bytes, its first 2000 bytes and `...`. None for an empty span, a
/// span that does not slice cleanly, or one with only white space.
pub fn source_snippet(source: &str, span: SourceSpan) -> (r: Option<String>)
    requires
        snippet_cuts_cleanly(source.spec_bytes(), span),
    ensures
        snippet_of(source.spec_bytes(), span, match r {
            Some(s) => Some(s@),
            None => None,
        }),
{
    if span.start > span.end {
        return None;
    }
    str_len_fits(source);
    match slice_source(source, span) {
        Err(_) => None,
        Ok(t) => {
            assert(t@ == range_chars(source.spec_bytes(), span.start as int, span.end as int));
            if span.start == span.end {
                return None;
            }
            match snippet_text(t) {
                None => None,
                Some(x) => {
                    str_len_fits(x.as_str());
                    if x.as_str().len() <= 2000 {
                        Some(x)
                    } else {
                        Some(cut_snippet(x))
                    }
                },
            }
        },
    }
}

} // verus!
