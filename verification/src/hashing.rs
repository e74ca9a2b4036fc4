//! Content hashes used for fingerprints and stable keys: SHA-256 (rendered as lower-case
//! hex) and XXH3-64, both computed by their crates.
use vstd::prelude::*;

use crate::text::push_char;
use sha2::Digest;
use vstd::string::StringSliceAdditionalSpecFns;

verus! {

/// The SHA-256 digest of a byte sequence.
pub uninterp spec fn spec_sha256(data: Seq<u8>) -> Seq<u8>;

/// The XXH3 64-bit hash (seed 0, default secret) of a byte sequence.
pub uninterp spec fn spec_xxh3_64(data: Seq<u8>) -> u64;

/// `sha2::Sha256::digest`: the 32-byte SHA-256 digest of `data`, which depends on
/// the bytes alone.
#[verifier::external_body]
pub(crate) fn sha256_digest(data: &[u8]) -> (r: Vec<u8>)
    ensures
        r@ == spec_sha256(data@),
        r@.len() == 32,
{
    sha2::Sha256::digest(data).to_vec()
}

/// `xxhash_rust::xxh3::xxh3_64`: the XXH3 64-bit hash of `data`, which depends on the
/// bytes alone.
#[verifier::external_body]
pub(crate) fn xxh3_64(data: &[u8]) -> (r: u64)
    ensures
        r == spec_xxh3_64(data@),
{
    xxhash_rust::xxh3::xxh3_64(data)
}

/// The lower-case hexadecimal digit for a value below 16.
pub open spec fn hex_digit(v: int) -> char {
    if v < 10 {
        (('0' as int) + v) as char
    } else {
        (('a' as int) + v - 10) as char
    }
}

/// Two lower-case hexadecimal digits per byte, most significant first.
pub open spec fn spec_hex(bytes: Seq<u8>) -> Seq<char>
    decreases bytes.len(),
{
    if bytes.len() == 0 {
        seq![]
    } else {
        spec_hex(bytes.drop_last()) + seq![
            hex_digit(bytes.last() as int / 16),
            hex_digit(bytes.last() as int % 16),
        ]
    }
}

pub(crate) fn hex_digit_exec(v: u8) -> (r: char)
    requires
        v < 16,
    ensures
        r == hex_digit(v as int),
{
    if v < 10 {
        ((48u8 + v) as char)
    } else {
        ((87u8 + v) as char)
    }
}

/// Renders bytes as lower-case hexadecimal text.
pub fn hex_lower(bytes: &[u8]) -> (r: String)
    ensures
        r@ == spec_hex(bytes@),
        r@.len() == 2 * bytes@.len(),
{
    let mut out = String::new();
    for i in 0..bytes.len()
        invariant
            out@ == spec_hex(bytes@.take(i as int)),
            out@.len() == 2 * i,
    {
        let b = bytes[i];
        push_char(&mut out, hex_digit_exec(b / 16));
        push_char(&mut out, hex_digit_exec(b % 16));
        assert(bytes@.take(i + 1).drop_last() =~= bytes@.take(i as int));
        assert(out@ =~= spec_hex(bytes@.take(i + 1)));
    }
    assert(bytes@.take(bytes@.len() as int) =~= bytes@);
    out
}

/// The SHA-256 digest of `text`'s UTF-8 bytes as 64 lower-case hex digits.
pub fn sha256_hex(text: &str) -> (r: String)
    ensures
        r@ == spec_hex(spec_sha256(text.spec_bytes())),
        r@.len() == 64,
{
    let digest = sha256_digest(text.as_bytes());
    hex_lower(digest.as_slice())
}

} // verus!
