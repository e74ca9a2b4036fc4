//! Facts about UTF-8 byte offsets that the span and offset code relies on.
use vstd::prelude::*;
use vstd::utf8::*;
use vstd::string::StringSliceAdditionalSpecFns;

verus! {

broadcast use {
    vstd::utf8::encode_utf8_valid_utf8,
    vstd::utf8::encode_utf8_decode_utf8,
    vstd::utf8::is_char_boundary_start_end_of_seq,
    vstd::utf8::is_char_boundary_iff_is_leading_byte,
    vstd::utf8::valid_utf8_split,
    vstd::utf8::decode_utf8_split,
};

/// The characters encoded by the first `offset` bytes of `bytes`.
pub open spec fn prefix_chars(bytes: Seq<u8>, offset: int) -> Seq<char> {
    decode_utf8(bytes.subrange(0, offset))
}

/// The characters encoded by the bytes `start..end` of `bytes`.
pub open spec fn range_chars(bytes: Seq<u8>, start: int, end: int) -> Seq<char> {
    decode_utf8(bytes.subrange(start, end))
}

/// Encoding distributes over concatenation.
pub proof fn lemma_encode_concat(a: Seq<char>, b: Seq<char>)
    ensures
        encode_utf8(a + b) == encode_utf8(a) + encode_utf8(b),
    decreases a.len(),
{
    if a.len() == 0 {
        assert(a + b =~= b);
    } else {
        lemma_encode_concat(a.drop_first(), b);
        assert((a + b).drop_first() =~= a.drop_first() + b);
    }
}

/// Every character takes at least one byte.
pub proof fn lemma_encode_len(chars: Seq<char>)
    ensures
        encode_utf8(chars).len() >= chars.len(),
    decreases chars.len(),
{
    if chars.len() > 0 {
        lemma_encode_len(chars.drop_first());
    }
}

/// The characters of any prefix decode to no more characters than the prefix has bytes.
pub proof fn lemma_decode_len(bytes: Seq<u8>)
    requires
        valid_utf8(bytes),
    ensures
        decode_utf8(bytes).len() <= bytes.len(),
{
    vstd::utf8::decode_utf8_encode_utf8(bytes);
    lemma_encode_len(decode_utf8(bytes));
}

/// A character boundary of `bytes` at or after `start` is a character boundary of the
/// suffix of `bytes` that begins at `start`.
pub proof fn lemma_boundary_of_suffix(bytes: Seq<u8>, start: int, end: int)
    requires
        valid_utf8(bytes),
        is_char_boundary(bytes, start),
        is_char_boundary(bytes, end),
        0 <= start <= end <= bytes.len(),
    ensures
        valid_utf8(bytes.subrange(start, bytes.len() as int)),
        is_char_boundary(bytes.subrange(start, bytes.len() as int), end - start),
{
    let sub = bytes.subrange(start, bytes.len() as int);
    assert(valid_utf8(sub));
    if end == bytes.len() {
        assert(sub.len() == end - start);
        vstd::utf8::is_char_boundary_start_end_of_seq(sub);
    } else {
        assert(sub[end - start] == bytes[end]);
        vstd::utf8::is_char_boundary_iff_is_leading_byte(bytes, end);
        vstd::utf8::is_char_boundary_iff_is_leading_byte(sub, end - start);
    }
}

/// A character boundary of `bytes` at or before `end` is a character boundary of the
/// prefix of `bytes` that ends at `end`.
pub proof fn lemma_boundary_of_prefix(bytes: Seq<u8>, start: int, end: int)
    requires
        valid_utf8(bytes),
        is_char_boundary(bytes, start),
        is_char_boundary(bytes, end),
        0 <= start <= end <= bytes.len(),
    ensures
        valid_utf8(bytes.subrange(0, end)),
        is_char_boundary(bytes.subrange(0, end), start),
{
    let sub = bytes.subrange(0, end);
    assert(valid_utf8(sub));
    if start == end {
        vstd::utf8::is_char_boundary_start_end_of_seq(sub);
    } else {
        assert(sub[start] == bytes[start]);
        vstd::utf8::is_char_boundary_iff_is_leading_byte(bytes, start);
        vstd::utf8::is_char_boundary_iff_is_leading_byte(sub, start);
    }
}

/// The byte length of a string slice fits in `usize`.
pub fn str_len_fits(s: &str)
    ensures
        s.spec_bytes().len() <= usize::MAX,
        s.len() == s.spec_bytes().len(),
{
    let b = s.as_bytes();
    assert(b@.len() == b.len());
}

/// The bytes of a string slice between two character boundaries, as a string slice.
pub fn str_range<'a>(s: &'a str, start: usize, end: usize) -> (r: &'a str)
    requires
        start <= end <= s.spec_bytes().len(),
        is_char_boundary(s.spec_bytes(), start as int),
        is_char_boundary(s.spec_bytes(), end as int),
    ensures
        r.spec_bytes() == s.spec_bytes().subrange(start as int, end as int),
        r@ == range_chars(s.spec_bytes(), start as int, end as int),
{
    let ghost bytes = s.spec_bytes();
    proof {
        lemma_boundary_of_suffix(bytes, start as int, end as int);
    }
    let (_, rest) = s.split_at(start);
    assert(rest.spec_bytes() =~= bytes.subrange(start as int, bytes.len() as int));
    let (middle, _) = rest.split_at(end - start);
    assert(middle.spec_bytes() =~= bytes.subrange(start as int, end as int));
    proof {
        vstd::utf8::encode_utf8_decode_utf8(middle@);
    }
    middle
}

} // verus!
