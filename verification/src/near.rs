//! The features of near-duplicate detection: shingle hashes, rarity-weighted shingle
//! sets, MinHash signatures, weighted Jaccard similarity, LSH candidate pairs and the
//! combined score of a pair of functions.
use vstd::prelude::*;

use crate::duplication::NearDuplicateOptions;
use crate::hashing::{spec_xxh3_64, xxh3_64};
use crate::parser::DefinitionKind;
use crate::text::{decimal, spec_decimal};
use crate::similarity::{
    count_similarity, minhash_estimate, spec_count_similarity, spec_minhash_estimate, spec_weighted_average,
    total_weight, weighted_average, common_shingle_cutoff, rare_shingle_weight, spec_common_shingle_cutoff, spec_percent, spec_rare_shingle_weight,
};
use std::collections::{BTreeMap, BTreeSet};
use vstd::string::StringSliceAdditionalSpecFns;
use vstd::utf8::encode_utf8;
use vstd::slice::slice_subrange;

verus! {

broadcast use vstd::std_specs::btree::group_btree_axioms;

/// The version tag that every shingle hash starts with.
pub const NEAR_DUPLICATE_VERSION: &'static str = "near_duplicate_v1";

/// The text hashed for a shingle of a namespace.
pub open spec fn shingle_text(namespace: Seq<char>, shingle: Seq<char>) -> Seq<char> {
    NEAR_DUPLICATE_VERSION@ + "|"@ + namespace + "|"@ + shingle
}

/// The hash of a shingle of a namespace.
pub open spec fn spec_shingle_hash(namespace: Seq<char>, shingle: Seq<char>) -> u64 {
    spec_xxh3_64(encode_utf8(shingle_text(namespace, shingle)))
}

/// The XXH3 hash of `near_duplicate_v1|namespace|shingle`.
pub fn shingle_hash(namespace: &str, shingle: &str) -> (r: u64)
    ensures
        r == spec_shingle_hash(namespace@, shingle@),
{
    let mut text = String::from_str(NEAR_DUPLICATE_VERSION);
    text.append("|");
    text.append(namespace);
    text.append("|");
    text.append(shingle);
    proof {
        reveal_strlit("|");
    }
    assert(text@ =~= shingle_text(namespace@, shingle@));
    xxh3_64(text.as_str().as_bytes())
}

/// The `n` low bytes of `x`, least significant first.
pub open spec fn le_bytes(x: nat, n: nat) -> Seq<u8>
    decreases n,
{
    if n == 0 {
        seq![]
    } else {
        seq![(x % 256) as u8] + le_bytes(x / 256, (n - 1) as nat)
    }
}

/// Appends the eight little-endian bytes of `x`.
fn push_le_bytes(out: &mut Vec<u8>, x: u64)
    ensures
        final(out)@ == old(out)@ + le_bytes(x as nat, 8),
{
    let ghost start = out@;
    let mut rest: u64 = x;
    let mut i: usize = 0;
    while i < 8
        invariant
            i <= 8,
            out@ + le_bytes(rest as nat, (8 - i) as nat) == start + le_bytes(x as nat, 8),
        decreases 8 - i,
    {
        let ghost before = out@;
        assert(le_bytes(rest as nat, (8 - i) as nat) == seq![(rest as nat % 256) as u8] + le_bytes(
            rest as nat / 256,
            (8 - i - 1) as nat,
        ));
        out.push((rest % 256) as u8);
        assert(out@ + le_bytes((rest / 256) as nat, (8 - i - 1) as nat) =~= before + le_bytes(
            rest as nat,
            (8 - i) as nat,
        ));
        rest = rest / 256;
        i = i + 1;
    }
    assert(le_bytes(rest as nat, 0) =~= Seq::<u8>::empty());
    assert(out@ =~= out@ + le_bytes(rest as nat, 0));
}

/// The hash of a value under a MinHash seed: XXH3 of the seed's and the value's
/// little-endian bytes.
pub open spec fn spec_seeded_hash(seed: nat, value: u64) -> u64 {
    spec_xxh3_64(le_bytes(seed, 8) + le_bytes(value as nat, 8))
}

/// The hash of `value` under the MinHash function numbered `seed`.
pub fn seeded_hash(seed: usize, value: u64) -> (r: u64)
    ensures
        r == spec_seeded_hash(seed as nat, value),
{
    let mut bytes: Vec<u8> = Vec::new();
    push_le_bytes(&mut bytes, seed as u64);
    push_le_bytes(&mut bytes, value);
    assert(bytes@ =~= le_bytes(seed as nat, 8) + le_bytes(value as nat, 8));
    xxh3_64(bytes.as_slice())
}


/// The keys of a weighted shingle set, each once.
pub fn keys_of(m: &BTreeMap<u64, u16>) -> (r: Vec<u64>)
    ensures
        r@.no_duplicates(),
        forall|k: u64| r@.contains(k) <==> m@.contains_key(k),
{
    let mut out: Vec<u64> = Vec::new();
    for k in it: m.keys()
        invariant
            it.seq().unref().to_set() == m@.dom(),
            it.seq().no_duplicates(),
            out@.len() == it.index(),
            forall|j: int| 0 <= j < it.index() ==> out@[j] == *it.seq()[j],
            forall|j: int| 0 <= j < out@.len() ==> m@.contains_key(#[trigger] out@[j]),
            forall|k: u64| #[trigger]
                m@.contains_key(k) ==> (out@.contains(k) || exists|j: int|
                    it.index() <= j < it.seq().len() && *it.seq()[j] == k),
            out@.no_duplicates(),
    {
        assert(m@.contains_key(*k));
        let ghost before = out@;
        out.push(*k);
        assert forall|k2: u64| #[trigger] before.contains(k2) implies out@.contains(k2) by {
            let j = choose|j: int| 0 <= j < before.len() && before[j] == k2;
            assert(out@[j] == k2);
        }
        assert(out@[out@.len() - 1] == *k);
    }
    assert forall|k: u64| out@.contains(k) implies m@.contains_key(k) by {
        let j = choose|j: int| 0 <= j < out@.len() && out@[j] == k;
    }
    out
}

/// The sum of `f` over a finite set of keys.
pub open spec fn key_sum(keys: Set<u64>, f: spec_fn(u64) -> nat) -> nat
    decreases keys.len(),
    when keys.finite()
{
    if keys.len() == 0 {
        0
    } else {
        let k = keys.choose();
        f(k) + key_sum(keys.remove(k), f)
    }
}

proof fn lemma_key_sum_remove(keys: Set<u64>, f: spec_fn(u64) -> nat, x: u64)
    requires
        keys.finite(),
        keys.contains(x),
    ensures
        key_sum(keys, f) == f(x) + key_sum(keys.remove(x), f),
    decreases keys.len(),
{
    let c = keys.choose();
    assert(keys.len() > 0);
    if c != x {
        lemma_key_sum_remove(keys.remove(c), f, x);
        lemma_key_sum_remove(keys.remove(x), f, c);
        assert(keys.remove(c).remove(x) =~= keys.remove(x).remove(c));
    }
}

proof fn lemma_key_sum_insert(keys: Set<u64>, f: spec_fn(u64) -> nat, x: u64)
    requires
        keys.finite(),
        !keys.contains(x),
    ensures
        key_sum(keys.insert(x), f) == f(x) + key_sum(keys, f),
{
    lemma_key_sum_remove(keys.insert(x), f, x);
    assert(keys.insert(x).remove(x) =~= keys);
}

/// The sum of `f` over a sequence of keys.
pub open spec fn seq_sum(keys: Seq<u64>, f: spec_fn(u64) -> nat) -> nat
    decreases keys.len(),
{
    if keys.len() == 0 {
        0
    } else {
        seq_sum(keys.drop_last(), f) + f(keys.last())
    }
}

proof fn lemma_seq_sum_is_key_sum(keys: Seq<u64>, f: spec_fn(u64) -> nat)
    requires
        keys.no_duplicates(),
    ensures
        seq_sum(keys, f) == key_sum(keys.to_set(), f),
    decreases keys.len(),
{
    if keys.len() == 0 {
        assert(keys.to_set() =~= Set::<u64>::empty());
    } else {
        let init = keys.drop_last();
        assert(init.no_duplicates());
        lemma_seq_sum_is_key_sum(init, f);
        assert(keys =~= init + seq![keys.last()]);
        Seq::lemma_to_set_insert_commutes(init, keys.last());
        assert(!init.to_set().contains(keys.last())) by {
            if init.to_set().contains(keys.last()) {
                let j = choose|j: int| 0 <= j < init.len() && init[j] == keys.last();
                assert(keys[j] == keys[keys.len() - 1]);
            }
        }
        vstd::seq_lib::seq_to_set_is_finite(init);
        lemma_key_sum_insert(init.to_set(), f, keys.last());
    }
}


/// In how many definitions a shingle hash occurs, 1 when it is not counted.
pub open spec fn frequency_of(frequency: Map<u64, usize>, h: u64) -> nat {
    if frequency.contains_key(h) {
        frequency[h] as nat
    } else {
        1
    }
}

/// Whether a hash is that of one of the shingles and is rarer than the cutoff.
pub open spec fn kept_shingle_hash(
    namespace: Seq<char>,
    shingles: Seq<String>,
    frequency: Map<u64, usize>,
    cutoff: nat,
    h: u64,
) -> bool {
    &&& frequency_of(frequency, h) < cutoff
    &&& exists|i: int| 0 <= i < shingles.len() && spec_shingle_hash(namespace, (#[trigger] shingles[i])@) == h
}

/// Whether a weighted shingle set is the one made from the shingles of a namespace:
/// the hashes of the shingles rarer than the common cutoff, each with its rarity weight.
pub open spec fn weighted_from(
    m: Map<u64, u16>,
    namespace: Seq<char>,
    shingles: Seq<String>,
    frequency: Map<u64, usize>,
    total: nat,
    options: NearDuplicateOptions,
) -> bool {
    let cutoff = spec_common_shingle_cutoff(
        total,
        options.common_shingle_max_percent as nat,
        options.common_shingle_min_occurrences as nat,
    );
    &&& forall|h: u64| #[trigger] m.contains_key(h) <==> kept_shingle_hash(namespace, shingles, frequency, cutoff, h)
    &&& forall|h: u64| #[trigger] m.contains_key(h) ==> m[h] == spec_rare_shingle_weight(total, frequency_of(frequency, h))
}

/// The rarity-weighted shingle set of a namespace: the hash of every shingle that
/// occurs in fewer definitions than the common cutoff, weighted by its rarity among
/// `total_definitions` definitions.
pub fn weighted_shingles(
    namespace: &str,
    shingles: &[String],
    document_frequency: &BTreeMap<u64, usize>,
    total_definitions: usize,
    options: NearDuplicateOptions,
) -> (r: BTreeMap<u64, u16>)
    requires
        total_definitions * 255 <= usize::MAX,
    ensures
        weighted_from(r@, namespace@, shingles@, document_frequency@, total_definitions as nat, options),
{
    let cutoff = common_shingle_cutoff(
        total_definitions,
        options.common_shingle_max_percent,
        options.common_shingle_min_occurrences,
    );
    let mut output: BTreeMap<u64, u16> = BTreeMap::new();
    for i in 0..shingles.len()
        invariant
            cutoff == spec_common_shingle_cutoff(
                total_definitions as nat,
                options.common_shingle_max_percent as nat,
                options.common_shingle_min_occurrences as nat,
            ),
            forall|h: u64|
                #[trigger] output@.contains_key(h) <==> kept_shingle_hash(
                    namespace@,
                    shingles@.take(i as int),
                    document_frequency@,
                    cutoff as nat,
                    h,
                ),
            forall|h: u64|
                #[trigger] output@.contains_key(h) ==> output@[h] == spec_rare_shingle_weight(
                    total_definitions as nat,
                    frequency_of(document_frequency@, h),
                ),
    {
        let hash = shingle_hash(namespace, shingles[i].as_str());
        let frequency: usize = match document_frequency.get(&hash) {
            Some(f) => *f,
            None => 1,
        };
        assert(frequency == frequency_of(document_frequency@, hash));
        let ghost before = output@;
        assert forall|h: u64| kept_shingle_hash(namespace@, shingles@.take(i as int), document_frequency@, cutoff as nat, h)
            ==> kept_shingle_hash(namespace@, shingles@.take(i + 1), document_frequency@, cutoff as nat, h) by {
            if kept_shingle_hash(namespace@, shingles@.take(i as int), document_frequency@, cutoff as nat, h) {
                let j = choose|j: int| 0 <= j < i && spec_shingle_hash(namespace@, (#[trigger] shingles@.take(i as int)[j])@) == h;
                assert(shingles@.take(i + 1)[j] == shingles@.take(i as int)[j]);
            }
        }
        if frequency < cutoff {
            let weight = rare_shingle_weight(total_definitions, frequency);
            let existing: Option<u16> = match output.get(&hash) {
                Some(w) => Some(*w),
                None => None,
            };
            match existing {
                Some(w) => {
                    if weight > w {
                        output.insert(hash, weight);
                    }
                },
                None => {
                    output.insert(hash, weight);
                },
            }
            assert(shingles@.take(i + 1)[i as int] == shingles@[i as int]);
            assert forall|h: u64|
                #[trigger] output@.contains_key(h) <== kept_shingle_hash(
                    namespace@,
                    shingles@.take(i + 1),
                    document_frequency@,
                    cutoff as nat,
                    h,
                ) by {
                if kept_shingle_hash(namespace@, shingles@.take(i + 1), document_frequency@, cutoff as nat, h) && h != hash {
                    let j = choose|j: int| 0 <= j < i + 1 && spec_shingle_hash(namespace@, (#[trigger] shingles@.take(i + 1)[j])@) == h;
                    assert(j != i);
                    assert(shingles@.take(i as int)[j] == shingles@.take(i + 1)[j]);
                }
            }
        } else {
            assert forall|h: u64|
                #[trigger] output@.contains_key(h) <== kept_shingle_hash(
                    namespace@,
                    shingles@.take(i + 1),
                    document_frequency@,
                    cutoff as nat,
                    h,
                ) by {
                if kept_shingle_hash(namespace@, shingles@.take(i + 1), document_frequency@, cutoff as nat, h) {
                    let j = choose|j: int| 0 <= j < i + 1 && spec_shingle_hash(namespace@, (#[trigger] shingles@.take(i + 1)[j])@) == h;
                    assert(shingles@.take(i + 1)[i as int] == shingles@[i as int]);
                    assert(j != i);
                    assert(shingles@.take(i as int)[j] == shingles@.take(i + 1)[j]);
                }
            }
        }
    }
    assert(shingles@.take(shingles@.len() as int) =~= shingles@);
    output
}


/// Whether `w` is the largest weight that any of the sets gives `k`.
pub open spec fn is_max_weight(groups: Seq<&BTreeMap<u64, u16>>, k: u64, w: u16) -> bool {
    &&& exists|g: int| 0 <= g < groups.len() && (#[trigger] groups[g])@.contains_key(k) && groups[g]@[k] == w
    &&& forall|g: int| 0 <= g < groups.len() && (#[trigger] groups[g])@.contains_key(k) ==> groups[g]@[k] <= w
}

pub(crate) fn weight_at(m: &BTreeMap<u64, u16>, k: u64) -> (r: u16)
    requires
        m@.contains_key(k),
    ensures
        r == m@[k],
{
    match m.get(&k) {
        Some(w) => *w,
        None => 0,
    }
}

/// The union of weighted shingle sets, each hash with the largest weight any set
/// gives it.
pub fn combine_weighted_shingles(groups: &[&BTreeMap<u64, u16>]) -> (r: BTreeMap<u64, u16>)
    ensures
        forall|k: u64|
            #[trigger] r@.contains_key(k) <==> exists|g: int| 0 <= g < groups@.len() && (#[trigger] groups@[g])@.contains_key(k),
        forall|k: u64| #[trigger] r@.contains_key(k) ==> is_max_weight(groups@, k, r@[k]),
{
    let mut combined: BTreeMap<u64, u16> = BTreeMap::new();
    for g in 0..groups.len()
        invariant
            forall|k: u64|
                #[trigger] combined@.contains_key(k) <==> exists|h: int| 0 <= h < g && (#[trigger] groups@[h])@.contains_key(k),
            forall|k: u64|
                #[trigger] combined@.contains_key(k) ==> exists|h: int|
                    0 <= h < g && (#[trigger] groups@[h])@.contains_key(k) && groups@[h]@[k] == combined@[k],
            forall|k: u64, h: int|
                0 <= h < g && #[trigger] groups@[h]@.contains_key(k) ==> groups@[h]@[k] <= combined@[k],
    {
        let group = groups[g];
        let keys = keys_of(group);
        for j in 0..keys.len()
            invariant
                0 <= g < groups@.len(),
                group == groups@[g as int],
                keys@.no_duplicates(),
                forall|k: u64| keys@.contains(k) <==> group@.contains_key(k),
                forall|k: u64|
                    #[trigger] combined@.contains_key(k) <==> (exists|h: int| 0 <= h < g && (#[trigger] groups@[h])@.contains_key(k))
                        || (exists|i: int| 0 <= i < j && keys@[i] == k),
                forall|k: u64|
                    #[trigger] combined@.contains_key(k) ==> (exists|h: int|
                        0 <= h <= g && (#[trigger] groups@[h])@.contains_key(k) && groups@[h]@[k] == combined@[k]),
                forall|k: u64, h: int|
                    0 <= h < g && #[trigger] groups@[h]@.contains_key(k) ==> groups@[h]@[k] <= combined@[k],
                forall|i: int| 0 <= i < j ==> combined@.contains_key(#[trigger] keys@[i]) && group@[keys@[i]] <= combined@[keys@[i]],
        {
            let k = keys[j];
            assert(keys@.contains(k));
            let w = weight_at(group, k);
            let existing: Option<u16> = match combined.get(&k) {
                Some(e) => Some(*e),
                None => None,
            };
            let ghost before = combined@;
            match existing {
                Some(e) => {
                    if w > e {
                        combined.insert(k, w);
                    }
                },
                None => {
                    combined.insert(k, w);
                },
            }
            assert(combined@.contains_key(k) && group@[k] <= combined@[k]);
            assert(combined@.dom() =~= before.dom().insert(k));
            assert forall|k2: u64| k2 != k implies combined@.contains_key(k2) == before.contains_key(k2)
                && (before.contains_key(k2) ==> combined@[k2] == before[k2]) by {}
            assert forall|i: int| 0 <= i < j + 1 implies combined@.contains_key(#[trigger] keys@[i]) && group@[keys@[i]] <= combined@[keys@[i]] by {
                if i < j {
                    assert(keys@[i] != k);
                }
            }
            assert forall|k2: u64| #[trigger] combined@.contains_key(k2) implies (exists|h: int|
                0 <= h <= g && (#[trigger] groups@[h])@.contains_key(k2) && groups@[h]@[k2] == combined@[k2]) by {
                if k2 == k && combined@[k] == w {
                    assert(groups@[g as int]@.contains_key(k));
                }
            }
            assert forall|k2: u64| #[trigger] combined@.contains_key(k2) <== (exists|h: int| 0 <= h < g && (#[trigger] groups@[h])@.contains_key(k2))
                || (exists|i: int| 0 <= i < j + 1 && keys@[i] == k2) by {
                if exists|i: int| 0 <= i < j + 1 && keys@[i] == k2 {
                    let i = choose|i: int| 0 <= i < j + 1 && keys@[i] == k2;
                    if i < j {
                        assert(before.contains_key(keys@[i]));
                    }
                }
            }
            assert forall|k2: u64, h: int|
                0 <= h < g && #[trigger] groups@[h]@.contains_key(k2) implies groups@[h]@[k2] <= combined@[k2] by {
                assert(before.contains_key(k2));
            }
        }
        assert forall|k: u64| #[trigger] combined@.contains_key(k) <==> exists|h: int| 0 <= h < g + 1 && (#[trigger] groups@[h])@.contains_key(k) by {
            if exists|i: int| 0 <= i < keys@.len() && keys@[i] == k {
                let i = choose|i: int| 0 <= i < keys@.len() && keys@[i] == k;
                assert(keys@.contains(keys@[i]));
                assert(group@.contains_key(k));
            }
            if groups@[g as int]@.contains_key(k) {
                assert(keys@.contains(k));
                let i = choose|i: int| 0 <= i < keys@.len() && keys@[i] == k;
            }
        }
        assert forall|k: u64, h: int|
            0 <= h < g + 1 && #[trigger] groups@[h]@.contains_key(k) implies groups@[h]@[k] <= combined@[k] by {
            if h == g {
                assert(keys@.contains(k));
                let i = choose|i: int| 0 <= i < keys@.len() && keys@[i] == k;
                assert(combined@.contains_key(keys@[i]));
            }
        }
    }
    combined
}


/// The weight a set gives a hash, 0 when it lacks it.
pub open spec fn weight_or_zero(m: Map<u64, u16>, k: u64) -> nat {
    if m.contains_key(k) {
        m[k] as nat
    } else {
        0
    }
}

/// For each hash of the left set, the smaller of its two weights.
pub open spec fn smaller_weight(l: Map<u64, u16>, r: Map<u64, u16>) -> spec_fn(u64) -> nat {
    |k: u64| if weight_or_zero(l, k) <= weight_or_zero(r, k) {
        weight_or_zero(l, k)
    } else {
        weight_or_zero(r, k)
    }
}

/// For each hash of the left set, the larger of its two weights.
pub open spec fn larger_weight(l: Map<u64, u16>, r: Map<u64, u16>) -> spec_fn(u64) -> nat {
    |k: u64| if weight_or_zero(l, k) >= weight_or_zero(r, k) {
        weight_or_zero(l, k)
    } else {
        weight_or_zero(r, k)
    }
}

/// For each hash of the right set, its weight when the left set lacks it.
pub open spec fn right_only_weight(l: Map<u64, u16>, r: Map<u64, u16>) -> spec_fn(u64) -> nat {
    |k: u64| if l.contains_key(k) {
        0
    } else {
        weight_or_zero(r, k)
    }
}

/// The weighted Jaccard similarity of two weighted shingle sets, as a rounded
/// percentage: over all hashes of either set (a missing hash weighing 0), the sum of
/// the smaller weights out of the sum of the larger ones; 100 when both are empty and
/// 0 when only one is.
pub open spec fn spec_weighted_jaccard(l: Map<u64, u16>, r: Map<u64, u16>) -> u8 {
    if l.dom().len() == 0 && r.dom().len() == 0 {
        100
    } else if l.dom().len() == 0 || r.dom().len() == 0 {
        0
    } else {
        spec_percent(
            key_sum(l.dom(), smaller_weight(l, r)),
            key_sum(l.dom(), larger_weight(l, r)) + key_sum(r.dom(), right_only_weight(l, r)),
        )
    }
}

fn percent_wide(numerator: u128, denominator: u128) -> (r: u8)
    requires
        numerator <= 0x1_0000_0000_0000_0000_0000_0000,
        denominator <= 0x1_0000_0000_0000_0000_0000_0000,
    ensures
        r == spec_percent(numerator as nat, denominator as nat),
{
    if denominator == 0 {
        return 0;
    }
    let p = (numerator * 100 + denominator / 2) / denominator;
    if p > 100 {
        100
    } else {
        p as u8
    }
}

proof fn lemma_keys_len(m: Map<u64, u16>, keys: Seq<u64>)
    requires
        m.dom().finite(),
        forall|k: u64| keys.contains(k) <==> m.contains_key(k),
    ensures
        (keys.len() == 0) == (m.dom().len() == 0),
        keys.to_set() =~= m.dom(),
{
    if keys.len() == 0 {
        assert forall|k: u64| !m.dom().contains(k) by {
            assert(!keys.contains(k));
        }
        assert(m.dom() =~= Set::<u64>::empty());
    } else {
        assert(keys.contains(keys[0]));
        assert(m.dom().contains(keys[0]));
    }
}

/// The weighted Jaccard similarity of two weighted shingle sets.
pub fn weighted_jaccard(left: &BTreeMap<u64, u16>, right: &BTreeMap<u64, u16>) -> (r: u8)
    ensures
        r == spec_weighted_jaccard(left@, right@),
{
    let lk = keys_of(left);
    let rk = keys_of(right);
    proof {
        lemma_keys_len(left@, lk@);
        lemma_keys_len(right@, rk@);
    }
    if lk.len() == 0 && rk.len() == 0 {
        return 100;
    }
    if lk.len() == 0 || rk.len() == 0 {
        return 0;
    }
    let ghost fmin = smaller_weight(left@, right@);
    let ghost fmax = larger_weight(left@, right@);
    let ghost fright = right_only_weight(left@, right@);
    let mut intersection: u128 = 0;
    let mut union: u128 = 0;
    for i in 0..lk.len()
        invariant
            forall|k: u64| lk@.contains(k) <==> left@.contains_key(k),
            intersection == seq_sum(lk@.take(i as int), fmin),
            union == seq_sum(lk@.take(i as int), fmax),
            intersection <= i * 65535,
            union <= i * 65535,
            fmin == smaller_weight(left@, right@),
            fmax == larger_weight(left@, right@),
    {
        let k = lk[i];
        assert(lk@.contains(k));
        let lw = weight_at(left, k);
        let rw: u16 = match right.get(&k) {
            Some(w) => *w,
            None => 0,
        };
        assert(rw as nat == weight_or_zero(right@, k));
        assert(lk@.take(i + 1).drop_last() =~= lk@.take(i as int));
        if lw <= rw {
            intersection = intersection + lw as u128;
            union = union + rw as u128;
        } else {
            intersection = intersection + rw as u128;
            union = union + lw as u128;
        }
    }
    assert(lk@.take(lk@.len() as int) =~= lk@);
    let nl = lk.len();
    for j in 0..rk.len()
        invariant
            nl == lk@.len(),
            forall|k: u64| rk@.contains(k) <==> right@.contains_key(k),
            union == seq_sum(lk@, fmax) + seq_sum(rk@.take(j as int), fright),
            union <= (lk@.len() + j) * 65535,
            fright == right_only_weight(left@, right@),
    {
        let k = rk[j];
        assert(rk@.contains(k));
        assert(rk@.take(j + 1).drop_last() =~= rk@.take(j as int));
        if !left.contains_key(&k) {
            let w = weight_at(right, k);
            union = union + w as u128;
        }
    }
    assert(rk@.take(rk@.len() as int) =~= rk@);
    proof {
        lemma_seq_sum_is_key_sum(lk@, fmin);
        lemma_seq_sum_is_key_sum(lk@, fmax);
        lemma_seq_sum_is_key_sum(rk@, fright);
    }
    percent_wide(intersection, union)
}


/// The shape of a function's signature compared by near-duplicate scoring.
#[derive(Debug, Clone)]
pub struct NearSignatureShape {
    pub parameter_count: usize,
    pub return_shape: String,
    pub is_async: bool,
    pub kind: DefinitionKind,
}

/// How alike two signature shapes are: 40 for the same parameter count, 30 for the
/// same return shape, 20 for the same asyncness and 10 for the same kind, so 100 for
/// equal shapes.
pub open spec fn spec_signature_similarity(l: NearSignatureShape, r: NearSignatureShape) -> u8 {
    ((if l.parameter_count == r.parameter_count {
        40int
    } else {
        0
    }) + (if l.return_shape@ == r.return_shape@ {
        30int
    } else {
        0
    }) + (if l.is_async == r.is_async {
        20int
    } else {
        0
    }) + (if l.kind == r.kind {
        10int
    } else {
        0
    })) as u8
}

/// The similarity of two signature shapes.
pub fn signature_similarity(left: &NearSignatureShape, right: &NearSignatureShape) -> (r: u8)
    ensures
        r == spec_signature_similarity(*left, *right),
        r <= 100,
{
    let mut score: u8 = 0;
    if left.parameter_count == right.parameter_count {
        score = score + 40;
    }
    if crate::text::chars_eq(
        crate::text::chars_of(left.return_shape.as_str()).as_slice(),
        crate::text::chars_of(right.return_shape.as_str()).as_slice(),
    ) {
        score = score + 30;
    }
    if left.is_async == right.is_async {
        score = score + 20;
    }
    if left.kind == right.kind {
        score = score + 10;
    }
    score
}

/// What near-duplicate detection knows of one function: its language, size, signature
/// shape, the weighted shingle sets of its tokens, syntax paths, statements, calls and
/// control flow, their union, and the MinHash signature of that union.
#[derive(Debug, Clone)]
pub struct NearFeatures {
    pub language: String,
    pub line_count: usize,
    pub token_count: usize,
    pub statement_count: usize,
    pub signature_shape: NearSignatureShape,
    pub token_shingles: BTreeMap<u64, u16>,
    pub ast_shingles: BTreeMap<u64, u16>,
    pub statement_shingles: BTreeMap<u64, u16>,
    pub call_shingles: BTreeMap<u64, u16>,
    pub control_shingles: BTreeMap<u64, u16>,
    pub combined_shingles: BTreeMap<u64, u16>,
    pub minhash_signature: Vec<u64>,
}

/// The similarity signals of a pair of functions and their weighted score.
#[derive(Debug, Clone, Copy, PartialEq, Eq, Structural)]
pub struct NearPairScore {
    pub left: usize,
    pub right: usize,
    pub score: u8,
    pub token_similarity: u8,
    pub ast_similarity: u8,
    pub statement_similarity: u8,
    pub statement_count_similarity: u8,
    pub call_similarity: u8,
    pub signature_similarity: u8,
    pub signature_estimate: u8,
    pub control_flow_similarity: u8,
}

/// The weighted signals of a pair score: tokens 30, syntax paths 25, statements 15,
/// statement counts 5, calls 10, MinHash estimate 10, control flow 5.
pub open spec fn score_signals(p: NearPairScore) -> Seq<(u8, usize)> {
    seq![
        (p.token_similarity, 30usize),
        (p.ast_similarity, 25usize),
        (p.statement_similarity, 15usize),
        (p.statement_count_similarity, 5usize),
        (p.call_similarity, 10usize),
        (p.signature_estimate, 10usize),
        (p.control_flow_similarity, 5usize),
    ]
}

/// Whether a pair score holds the signals of two functions and their weighted average.
pub open spec fn scores_pair(p: NearPairScore, left: usize, right: usize, l: NearFeatures, r: NearFeatures) -> bool {
    &&& p.left == left
    &&& p.right == right
    &&& p.token_similarity == spec_weighted_jaccard(l.token_shingles@, r.token_shingles@)
    &&& p.ast_similarity == spec_weighted_jaccard(l.ast_shingles@, r.ast_shingles@)
    &&& p.statement_similarity == spec_weighted_jaccard(l.statement_shingles@, r.statement_shingles@)
    &&& p.statement_count_similarity == spec_count_similarity(l.statement_count as nat, r.statement_count as nat)
    &&& p.call_similarity == spec_weighted_jaccard(l.call_shingles@, r.call_shingles@)
    &&& p.signature_similarity == spec_signature_similarity(l.signature_shape, r.signature_shape)
    &&& p.signature_estimate == spec_minhash_estimate(l.minhash_signature@, r.minhash_signature@)
    &&& p.control_flow_similarity == spec_weighted_jaccard(l.control_shingles@, r.control_shingles@)
    &&& p.score == spec_weighted_average(score_signals(p))
}

/// Scores a pair of functions by their similarity signals.
pub fn near_pair_score(left: usize, right: usize, left_feature: &NearFeatures, right_feature: &NearFeatures) -> (r:
    NearPairScore)
    requires
        left_feature.minhash_signature@.len() <= usize::MAX / 200,
        left_feature.statement_count <= usize::MAX / 200,
        right_feature.statement_count <= usize::MAX / 200,
    ensures
        scores_pair(r, left, right, *left_feature, *right_feature),
{
    let token_similarity = weighted_jaccard(&left_feature.token_shingles, &right_feature.token_shingles);
    let ast_similarity = weighted_jaccard(&left_feature.ast_shingles, &right_feature.ast_shingles);
    let statement_similarity = weighted_jaccard(&left_feature.statement_shingles, &right_feature.statement_shingles);
    let statement_count_similarity = count_similarity(left_feature.statement_count, right_feature.statement_count);
    let call_similarity = weighted_jaccard(&left_feature.call_shingles, &right_feature.call_shingles);
    let signature = signature_similarity(&left_feature.signature_shape, &right_feature.signature_shape);
    let signature_estimate = minhash_estimate(
        left_feature.minhash_signature.as_slice(),
        right_feature.minhash_signature.as_slice(),
    );
    let control_flow_similarity = weighted_jaccard(&left_feature.control_shingles, &right_feature.control_shingles);
    let mut result = NearPairScore {
        left,
        right,
        score: 0,
        token_similarity,
        ast_similarity,
        statement_similarity,
        statement_count_similarity,
        call_similarity,
        signature_similarity: signature,
        signature_estimate,
        control_flow_similarity,
    };
    let signals = vec![
        (token_similarity, 30usize),
        (ast_similarity, 25usize),
        (statement_similarity, 15usize),
        (statement_count_similarity, 5usize),
        (call_similarity, 10usize),
        (signature_estimate, 10usize),
        (control_flow_similarity, 5usize),
    ];
    assert(signals@ =~= score_signals(result));
    assert(total_weight(signals@) == 100) by {
        reveal_with_fuel(total_weight, 8);
    }
    result.score = weighted_average(signals.as_slice());
    result
}


/// The little-endian bytes of each value, in order.
pub open spec fn le_words(values: Seq<u64>) -> Seq<u8>
    decreases values.len(),
{
    if values.len() == 0 {
        seq![]
    } else {
        le_words(values.drop_last()) + le_bytes(values.last() as nat, 8)
    }
}

/// The hash of one LSH band of a signature.
pub open spec fn spec_band_hash(band: nat, values: Seq<u64>) -> u64 {
    spec_xxh3_64(le_bytes(band, 8) + le_words(values))
}

/// The hash of the band numbered `band` made of `values`: XXH3 of the band's and the
/// values' little-endian bytes.
pub fn band_hash(band: usize, values: &[u64]) -> (r: u64)
    ensures
        r == spec_band_hash(band as nat, values@),
{
    let mut bytes: Vec<u8> = Vec::new();
    push_le_bytes(&mut bytes, band as u64);
    for i in 0..values.len()
        invariant
            bytes@ == le_bytes(band as nat, 8) + le_words(values@.take(i as int)),
    {
        assert(values@.take(i + 1).drop_last() =~= values@.take(i as int));
        push_le_bytes(&mut bytes, values[i]);
        assert(bytes@ =~= le_bytes(band as nat, 8) + le_words(values@.take(i + 1)));
    }
    assert(values@.take(values@.len() as int) =~= values@);
    xxh3_64(bytes.as_slice())
}

/// The text hashed for the shape bucket of a function: its language, kind, parameter
/// count, asyncness, tokens in steps of 25 and statements in steps of 2.
pub open spec fn shape_text(f: NearFeatures) -> Seq<char> {
    "near-shape|"@ + f.language@ + "|"@ + f.signature_shape.kind.spec_label() + "|"@ + spec_decimal(
        f.signature_shape.parameter_count as nat,
    ) + "|"@ + (if f.signature_shape.is_async {
        "true"@
    } else {
        "false"@
    }) + "|"@ + spec_decimal(f.token_count as nat / 25) + "|"@ + spec_decimal(f.statement_count as nat / 2)
}

/// The hash of a function's shape bucket.
pub open spec fn spec_shape_hash(f: NearFeatures) -> u64 {
    spec_xxh3_64(encode_utf8(shape_text(f)))
}

/// The hash of the shape bucket of a function, which groups functions of the same
/// language, kind, parameter count, asyncness and rough size.
pub fn near_shape_bucket_hash(feature: &NearFeatures) -> (r: u64)
    ensures
        r == spec_shape_hash(*feature),
{
    let mut text = String::from_str("near-shape|");
    text.append(feature.language.as_str());
    text.append("|");
    text.append(feature.signature_shape.kind.label());
    text.append("|");
    text.append(decimal(feature.signature_shape.parameter_count).as_str());
    text.append("|");
    text.append(
        if feature.signature_shape.is_async {
            "true"
        } else {
            "false"
        },
    );
    text.append("|");
    text.append(decimal(feature.token_count / 25).as_str());
    text.append("|");
    text.append(decimal(feature.statement_count / 2).as_str());
    proof {
        reveal_strlit("near-shape|");
        reveal_strlit("|");
        reveal_strlit("true");
        reveal_strlit("false");
    }
    assert(text@ =~= shape_text(*feature));
    xxh3_64(text.as_str().as_bytes())
}


/// Whether every value of a signature is the maximum, as for an empty shingle set.
pub open spec fn signature_is_empty(sig: Seq<u64>) -> bool {
    forall|j: int| 0 <= j < sig.len() ==> sig[j] == u64::MAX
}

/// Whether band `band` of a signature of `sig_len` values is hashed.
pub open spec fn band_applies(options: NearDuplicateOptions, sig_len: nat, band: int) -> bool {
    0 <= band < options.lsh_bands && band * options.lsh_rows + options.lsh_rows <= sig_len
}

/// Whether a function falls in the LSH bucket of a language, band and hash: a band
/// bucket when that band of its signature hashes so, or the shape bucket (numbered one
/// past the band after the last) of its shape hash. Functions with an empty signature
/// fall in none.
pub open spec fn in_bucket(f: NearFeatures, options: NearDuplicateOptions, key: (Seq<char>, int, u64)) -> bool {
    let sig = f.minhash_signature@;
    &&& !signature_is_empty(sig)
    &&& f.language@ == key.0
    &&& {
        ||| band_applies(options, sig.len(), key.1) && key.2 == spec_band_hash(
            key.1 as nat,
            sig.subrange(key.1 * options.lsh_rows, key.1 * options.lsh_rows + options.lsh_rows),
        )
        ||| key.1 == options.lsh_bands + 1 && key.2 == spec_shape_hash(f)
    }
}

/// Whether the LSH bands of the options can be numbered and cut without overflow.
pub open spec fn lsh_options_fit(options: NearDuplicateOptions) -> bool {
    &&& options.lsh_bands < usize::MAX
    &&& options.lsh_bands * options.lsh_rows + options.lsh_rows <= usize::MAX
}

proof fn lemma_band_bounds(options: NearDuplicateOptions, band: int)
    requires
        0 <= band < options.lsh_bands,
        lsh_options_fit(options),
    ensures
        band * options.lsh_rows + options.lsh_rows <= options.lsh_bands * options.lsh_rows + options.lsh_rows,
{
    assert(band * options.lsh_rows <= options.lsh_bands * options.lsh_rows) by (nonlinear_arith)
        requires
            0 <= band < options.lsh_bands,
    ;
}

/// The buckets of one function: its band buckets in band order, then its shape bucket.
pub fn feature_buckets(feature: &NearFeatures, options: NearDuplicateOptions) -> (r: Vec<(usize, u64)>)
    requires
        lsh_options_fit(options),
    ensures
        forall|a: int, b: int| 0 <= a < b < r@.len() ==> r@[a].0 < r@[b].0,
        forall|band: usize, hash: u64|
            r@.contains((band, hash)) <==> in_bucket(*feature, options, (feature.language@, band as int, hash)),
{
    let sig = &feature.minhash_signature;
    let mut all_max = true;
    for j in 0..sig.len()
        invariant
            sig@ == feature.minhash_signature@,
            all_max == forall|i: int| 0 <= i < j ==> sig@[i] == u64::MAX,
    {
        if sig[j] != u64::MAX {
            all_max = false;
        }
    }
    let mut out: Vec<(usize, u64)> = Vec::new();
    if all_max {
        return out;
    }
    let rows = options.lsh_rows;
    for band in 0..options.lsh_bands
        invariant
            sig@ == feature.minhash_signature@,
            !signature_is_empty(sig@),
            rows == options.lsh_rows,
            lsh_options_fit(options),
            forall|a: int, b: int| 0 <= a < b < out@.len() ==> out@[a].0 < out@[b].0,
            forall|a: int| 0 <= a < out@.len() ==> out@[a].0 < band,
            forall|bd: usize, hash: u64|
                out@.contains((bd, hash)) <==> (bd < band && in_bucket(*feature, options, (feature.language@, bd as int, hash))),
    {
        proof {
            lemma_band_bounds(options, band as int);
        }
        let start = band * rows;
        let end = start + rows;
        let ghost before = out@;
        if end <= sig.len() {
            let sig_slice = sig.as_slice();
            let h = band_hash(band, slice_subrange(sig_slice, start, end));
            assert(start as int == band as int * options.lsh_rows);
            assert(band_applies(options, sig@.len(), band as int));
            assert(sig_slice@ == feature.minhash_signature@);
            assert(h == spec_band_hash(band as nat, feature.minhash_signature@.subrange(start as int, end as int)));
            assert(h == spec_band_hash(band as nat, feature.minhash_signature@.subrange(band as int * options.lsh_rows, band as int * options.lsh_rows + options.lsh_rows)));
            assert(!signature_is_empty(feature.minhash_signature@));
            assert(in_bucket(*feature, options, (feature.language@, band as int, h)));
            out.push((band, h));
            assert forall|bd: usize, hash: u64|
                out@.contains((bd, hash)) <==> (bd < band + 1 && in_bucket(*feature, options, (feature.language@, bd as int, hash))) by {
                if out@.contains((bd, hash)) {
                    let i = choose|i: int| 0 <= i < out@.len() && out@[i] == (bd, hash);
                    if i < before.len() {
                        assert(before.contains((bd, hash)));
                    }
                }
                if bd < band + 1 && in_bucket(*feature, options, (feature.language@, bd as int, hash)) {
                    if bd < band {
                        assert(before.contains((bd, hash)));
                        let i = choose|i: int| 0 <= i < before.len() && before[i] == (bd, hash);
                        assert(out@[i] == (bd, hash));
                    } else {
                        assert(bd == band);
                        assert(hash == h);
                        assert(out@[before.len() as int] == (bd, hash));
                    }
                }
            }
        } else {
            assert forall|bd: usize, hash: u64|
                out@.contains((bd, hash)) <==> (bd < band + 1 && in_bucket(*feature, options, (feature.language@, bd as int, hash))) by {
            }
        }
    }
    let shape = near_shape_bucket_hash(feature);
    let ghost before = out@;
    out.push((options.lsh_bands + 1, shape));
    assert forall|bd: usize, hash: u64|
        out@.contains((bd, hash)) <==> in_bucket(*feature, options, (feature.language@, bd as int, hash)) by {
        if out@.contains((bd, hash)) {
            let i = choose|i: int| 0 <= i < out@.len() && out@[i] == (bd, hash);
            if i < before.len() {
                assert(before.contains((bd, hash)));
            }
        }
        if in_bucket(*feature, options, (feature.language@, bd as int, hash)) {
            if bd < options.lsh_bands {
                assert(before.contains((bd, hash)));
                let i = choose|i: int| 0 <= i < before.len() && before[i] == (bd, hash);
                assert(out@[i] == (bd, hash));
            } else {
                assert(out@[before.len() as int] == (bd, hash));
            }
        }
    }
    out
}


/// The functions among the first `n` that fall in a bucket, in order.
pub open spec fn bucket_members(
    features: Seq<NearFeatures>,
    options: NearDuplicateOptions,
    key: (Seq<char>, int, u64),
    n: int,
) -> Seq<usize>
    decreases n,
{
    if n <= 0 {
        seq![]
    } else {
        bucket_members(features, options, key, n - 1) + if in_bucket(features[n - 1], options, key) {
            seq![(n - 1) as usize]
        } else {
            seq![]
        }
    }
}

proof fn lemma_bucket_members(features: Seq<NearFeatures>, options: NearDuplicateOptions, key: (Seq<char>, int, u64), n: int)
    requires
        0 <= n <= usize::MAX,
    ensures
        ({
            let m = bucket_members(features, options, key, n);
            &&& forall|x: int, y: int| 0 <= x < y < m.len() ==> m[x] < m[y]
            &&& forall|x: int| 0 <= x < m.len() ==> m[x] < n && in_bucket(features[m[x] as int], options, key)
            &&& forall|a: int|
                0 <= a < n && in_bucket(features[a], options, key) ==> exists|x: int| 0 <= x < m.len() && m[x] == a
        }),
    decreases n,
{
    if n > 0 {
        lemma_bucket_members(features, options, key, n - 1);
        let prev = bucket_members(features, options, key, n - 1);
        let m = bucket_members(features, options, key, n);
        assert forall|a: int| 0 <= a < n && in_bucket(features[a], options, key) implies exists|x: int|
            0 <= x < m.len() && m[x] == a by {
            if a < n - 1 {
                let x = choose|x: int| 0 <= x < prev.len() && prev[x] == a;
                assert(m[x] == prev[x]);
            } else {
                assert(m[prev.len() as int] == a);
            }
        }
    }
}

/// The bucket a stored key stands for.
pub open spec fn bucket_key(languages: Seq<String>, k: (usize, usize, u64)) -> (Seq<char>, int, u64) {
    (languages[k.0 as int]@, k.1 as int, k.2)
}

spec fn in_prefix(fk: Seq<(usize, u64)>, t: int, key: (Seq<char>, int, u64)) -> bool {
    exists|x: int| 0 <= x < t && fk[x].0 as int == key.1 && fk[x].1 == key.2
}

#[verifier::opaque]
spec fn partial_members(
    features: Seq<NearFeatures>,
    options: NearDuplicateOptions,
    key: (Seq<char>, int, u64),
    i: int,
    fk: Seq<(usize, u64)>,
    t: int,
) -> Seq<usize> {
    bucket_members(features, options, key, i) + if key.0 == features[i].language@ && in_prefix(fk, t, key) {
        seq![i as usize]
    } else {
        seq![]
    }
}

/// The index of a language in the list, added at the end when missing.
fn language_index(languages: &mut Vec<String>, language: &String) -> (r: usize)
    requires
        forall|a: int, b: int| 0 <= a < b < old(languages)@.len() ==> old(languages)@[a]@ != old(languages)@[b]@,
    ensures
        r < final(languages)@.len(),
        final(languages)@[r as int]@ == language@,
        forall|a: int, b: int| 0 <= a < b < final(languages)@.len() ==> final(languages)@[a]@ != final(languages)@[b]@,
        final(languages)@.len() >= old(languages)@.len(),
        forall|a: int| 0 <= a < old(languages)@.len() ==> final(languages)@[a] == old(languages)@[a],
{
    for i in 0..languages.len()
        invariant
            languages@ == old(languages)@,
            forall|a: int, b: int| 0 <= a < b < old(languages)@.len() ==> old(languages)@[a]@ != old(languages)@[b]@,
            forall|a: int| 0 <= a < i ==> languages@[a]@ != language@,
    {
        if crate::text::chars_eq(
            crate::text::chars_of(languages[i].as_str()).as_slice(),
            crate::text::chars_of(language.as_str()).as_slice(),
        ) {
            return i;
        }
    }
    languages.push(language.clone());
    languages.len() - 1
}

/// The LSH buckets of the functions: the distinct languages, each bucket's key
/// (language position, band, hash) and its members.
struct Buckets {
    languages: Vec<String>,
    keys: Vec<(usize, usize, u64)>,
    members: Vec<Vec<usize>>,
}

spec fn buckets_hold(b: Buckets, features: Seq<NearFeatures>, options: NearDuplicateOptions, n: int) -> bool {
    &&& b.keys@.len() == b.members@.len()
    &&& forall|a: int, c: int| 0 <= a < c < b.languages@.len() ==> b.languages@[a]@ != b.languages@[c]@
    &&& forall|p: int| 0 <= p < b.keys@.len() ==> (#[trigger] b.keys@[p]).0 < b.languages@.len()
    &&& forall|p: int, q: int| 0 <= p < q < b.keys@.len() ==> b.keys@[p] != b.keys@[q]
    &&& forall|p: int| 0 <= p < b.keys@.len() ==> (#[trigger] b.members@[p])@ == bucket_members(
        features,
        options,
        bucket_key(b.languages@, b.keys@[p]),
        n,
    )
    &&& forall|key: (Seq<char>, int, u64)|
        #[trigger] bucket_members(features, options, key, n).len() > 0 ==> exists|p: int|
            0 <= p < b.keys@.len() && bucket_key(b.languages@, #[trigger] b.keys@[p]) == key
}


spec fn index_holds(index: Map<(usize, usize, u64), usize>, keys: Seq<(usize, usize, u64)>) -> bool {
    &&& forall|ek: (usize, usize, u64)|
        #[trigger] index.contains_key(ek) <==> exists|p: int| 0 <= p < keys.len() && keys[p] == ek
    &&& forall|ek: (usize, usize, u64)| #[trigger] index.contains_key(ek) ==> index[ek] < keys.len() && keys[index[ek] as int] == ek
}

/// Puts every function in its LSH buckets.
fn build_buckets(features: &[NearFeatures], options: NearDuplicateOptions) -> (b: Buckets)
    requires
        lsh_options_fit(options),
    ensures
        buckets_hold(b, features@, options, features@.len() as int),
{
    proof {
        reveal(partial_members);
    }
    let mut b = Buckets { languages: Vec::new(), keys: Vec::new(), members: Vec::new() };
    let mut index: BTreeMap<(usize, usize, u64), usize> = BTreeMap::new();
    for i in 0..features.len()
        invariant
            lsh_options_fit(options),
            buckets_hold(b, features@, options, i as int),
            index_holds(index@, b.keys@),
    {
        proof {
            reveal(partial_members);
        }
        let feature = &features[i];
        let fk = feature_buckets(feature, options);
        let ghost old_languages = b.languages@;
        let li = language_index(&mut b.languages, &feature.language);
        assert forall|p: int| 0 <= p < b.keys@.len() implies bucket_key(b.languages@, #[trigger] b.keys@[p]) == bucket_key(
            old_languages,
            b.keys@[p],
        ) by {}
        assert forall|key: (Seq<char>, int, u64)|
            #[trigger] bucket_members(features@, options, key, i as int).len() > 0 implies exists|p: int|
                0 <= p < b.keys@.len() && bucket_key(b.languages@, #[trigger] b.keys@[p]) == key by {
            let p = choose|p: int| 0 <= p < b.keys@.len() && bucket_key(old_languages, #[trigger] b.keys@[p]) == key;
            assert(bucket_key(b.languages@, b.keys@[p]) == key);
        }
        assert forall|key: (Seq<char>, int, u64)|
            partial_members(features@, options, key, i as int, fk@, 0) == bucket_members(features@, options, key, i as int) by {
            assert(!in_prefix(fk@, 0, key));
            assert(bucket_members(features@, options, key, i as int) + seq![] =~= bucket_members(features@, options, key, i as int));
        }
        let mut t: usize = 0;
        while t < fk.len()
            invariant
                t <= fk@.len(),
                lsh_options_fit(options),
                0 <= i < features@.len(),
                *feature == features@[i as int],
                li < b.languages@.len(),
                b.languages@[li as int]@ == feature.language@,
                forall|a: int, c: int| 0 <= a < c < fk@.len() ==> fk@[a].0 < fk@[c].0,
                forall|band: usize, hash: u64|
                    fk@.contains((band, hash)) <==> in_bucket(*feature, options, (feature.language@, band as int, hash)),
                b.keys@.len() == b.members@.len(),
                forall|a: int, c: int| 0 <= a < c < b.languages@.len() ==> b.languages@[a]@ != b.languages@[c]@,
                forall|p: int| 0 <= p < b.keys@.len() ==> (#[trigger] b.keys@[p]).0 < b.languages@.len(),
                forall|p: int, q: int| 0 <= p < q < b.keys@.len() ==> b.keys@[p] != b.keys@[q],
                forall|p: int| 0 <= p < b.keys@.len() ==> (#[trigger] b.members@[p])@ == partial_members(
                    features@,
                    options,
                    bucket_key(b.languages@, b.keys@[p]),
                    i as int,
                    fk@,
                    t as int,
                ),
                forall|key: (Seq<char>, int, u64)|
                    #[trigger] partial_members(features@, options, key, i as int, fk@, t as int).len() > 0 ==> exists|p: int|
                        0 <= p < b.keys@.len() && bucket_key(b.languages@, #[trigger] b.keys@[p]) == key,
                index_holds(index@, b.keys@),
            decreases fk@.len() - t,
        {
            proof {
                reveal(partial_members);
            }
            let (band, hash) = fk[t];
            let ek = (li, band, hash);
            let ghost k = (feature.language@, band as int, hash);
            assert(bucket_key(b.languages@, ek) == k);
            assert(forall|x: int| 0 <= x < t ==> fk@[x].0 < band);
            assert(!in_prefix(fk@, t as int, k));
            assert(in_prefix(fk@, t + 1, k)) by {
                assert(fk@[t as int].0 as int == k.1 && fk@[t as int].1 == k.2);
            }
            assert forall|key: (Seq<char>, int, u64)| key != k implies (in_prefix(fk@, t + 1, key) && key.0 == feature.language@)
                == (in_prefix(fk@, t as int, key) && key.0 == feature.language@) by {
                if in_prefix(fk@, t + 1, key) && key.0 == feature.language@ && !in_prefix(fk@, t as int, key) {
                    let x = choose|x: int| 0 <= x < t + 1 && fk@[x].0 as int == key.1 && fk@[x].1 == key.2;
                    assert(x == t);
                    assert(key == k);
                }
            }
            let found: Option<usize> = match index.get(&ek) {
                Some(p) => Some(*p),
                None => None,
            };
            let ghost before_members = b.members@;
            let ghost before_keys = b.keys@;
            match found {
                Some(p) => {
                    assert(b.keys@[p as int] == ek);
                    b.members[p].push(i);
                    assert forall|q: int| 0 <= q < b.keys@.len() implies (#[trigger] b.members@[q])@ == partial_members(
                        features@,
                        options,
                        bucket_key(b.languages@, b.keys@[q]),
                        i as int,
                        fk@,
                        t + 1,
                    ) by {
                        if q == p {
                            assert(b.members@[q]@ =~= before_members[q]@.push(i));
                        } else {
                            assert(b.keys@[q] != ek);
                            assert(bucket_key(b.languages@, b.keys@[q]) != k);
                        }
                    }
                },
                None => {
                    assert(!exists|p: int| 0 <= p < b.keys@.len() && b.keys@[p] == ek);
                    assert(partial_members(features@, options, k, i as int, fk@, t as int).len() == 0) by {
                        if partial_members(features@, options, k, i as int, fk@, t as int).len() > 0 {
                            let p = choose|p: int| 0 <= p < b.keys@.len() && bucket_key(b.languages@, #[trigger] b.keys@[p]) == k;
                            assert(b.languages@[b.keys@[p].0 as int]@ == b.languages@[li as int]@);
                            assert(b.keys@[p].0 == li);
                            assert(b.keys@[p] == ek);
                        }
                    }
                    let pos = b.keys.len();
                    b.keys.push(ek);
                    b.members.push(vec![i]);
                    index.insert(ek, pos);
                    assert forall|q: int| 0 <= q < b.keys@.len() implies (#[trigger] b.members@[q])@ == partial_members(
                        features@,
                        options,
                        bucket_key(b.languages@, b.keys@[q]),
                        i as int,
                        fk@,
                        t + 1,
                    ) by {
                        if q == pos {
                            assert(b.members@[q]@ =~= seq![i]);
                            assert(bucket_members(features@, options, k, i as int) =~= Seq::<usize>::empty());
                        } else {
                            assert(b.keys@[q] == before_keys[q]);
                            assert(b.members@[q] == before_members[q]);
                            assert(b.keys@[q] != ek);
                            assert(bucket_key(b.languages@, b.keys@[q]) != k);
                        }
                    }
                    assert(index_holds(index@, b.keys@)) by {
                        assert forall|e: (usize, usize, u64)|
                            #[trigger] index@.contains_key(e) <== exists|p: int| 0 <= p < b.keys@.len() && b.keys@[p] == e by {
                            if exists|p: int| 0 <= p < b.keys@.len() && b.keys@[p] == e {
                                let p = choose|p: int| 0 <= p < b.keys@.len() && b.keys@[p] == e;
                                if p < pos {
                                    assert(before_keys[p] == e);
                                }
                            }
                        }
                        assert forall|e: (usize, usize, u64)|
                            #[trigger] index@.contains_key(e) implies exists|p: int| 0 <= p < b.keys@.len() && b.keys@[p] == e by {
                            if e != ek {
                                let p = choose|p: int| 0 <= p < before_keys.len() && before_keys[p] == e;
                                assert(b.keys@[p] == e);
                            } else {
                                assert(b.keys@[pos as int] == e);
                            }
                        }
                    }
                },
            }
            assert(index@.contains_key(ek));
            assert forall|key: (Seq<char>, int, u64)|
                #[trigger] partial_members(features@, options, key, i as int, fk@, t + 1).len() > 0 implies exists|p: int|
                    0 <= p < b.keys@.len() && bucket_key(b.languages@, #[trigger] b.keys@[p]) == key by {
                if key == k {
                    let p = choose|p: int| 0 <= p < b.keys@.len() && b.keys@[p] == ek;
                    assert(bucket_key(b.languages@, b.keys@[p]) == key);
                } else {
                    assert(partial_members(features@, options, key, i as int, fk@, t as int).len() > 0);
                    let p = choose|p: int| 0 <= p < before_keys.len() && bucket_key(b.languages@, #[trigger] before_keys[p]) == key;
                    assert(b.keys@[p] == before_keys[p]);
                }
            }
            t = t + 1;
        }
        assert forall|key: (Seq<char>, int, u64)|
            partial_members(features@, options, key, i as int, fk@, fk@.len() as int) == bucket_members(
                features@,
                options,
                key,
                i + 1,
            ) by {
            let lhs = key.0 == feature.language@ && in_prefix(fk@, fk@.len() as int, key);
            let rhs = in_bucket(*feature, options, key);
            if lhs {
                let x = choose|x: int| 0 <= x < fk@.len() && fk@[x].0 as int == key.1 && fk@[x].1 == key.2;
                assert(fk@.contains(fk@[x]));
            }
            if rhs {
                let band = key.1 as usize;
                assert(fk@.contains((band, key.2)));
                let x = choose|x: int| 0 <= x < fk@.len() && fk@[x] == (band, key.2);
            }
            assert(lhs == rhs);
        }
        assert forall|p: int| 0 <= p < b.keys@.len() implies (#[trigger] b.members@[p])@ == bucket_members(
            features@,
            options,
            bucket_key(b.languages@, b.keys@[p]),
            i + 1,
        ) by {
            assert(b.members@[p]@ == partial_members(
                features@,
                options,
                bucket_key(b.languages@, b.keys@[p]),
                i as int,
                fk@,
                fk@.len() as int,
            ));
        }
        assert forall|key: (Seq<char>, int, u64)|
            #[trigger] bucket_members(features@, options, key, i + 1).len() > 0 implies exists|p: int|
                0 <= p < b.keys@.len() && bucket_key(b.languages@, #[trigger] b.keys@[p]) == key by {
            assert(partial_members(features@, options, key, i as int, fk@, fk@.len() as int).len() > 0);
        }
    }
    b
}


/// How many functions fall in a bucket.
pub open spec fn bucket_size(features: Seq<NearFeatures>, options: NearDuplicateOptions, key: (Seq<char>, int, u64)) -> nat {
    bucket_members(features, options, key, features.len() as int).len()
}

/// Whether two functions are an LSH candidate pair: `a < b` and they share a bucket
/// that is not larger than the bucket limit.
pub open spec fn lsh_candidate(features: Seq<NearFeatures>, options: NearDuplicateOptions, a: int, b: int) -> bool {
    &&& 0 <= a < b < features.len()
    &&& exists|key: (Seq<char>, int, u64)|
        #[trigger] in_bucket(features[a], options, key) && in_bucket(features[b], options, key) && bucket_size(
            features,
            options,
            key,
        ) <= options.max_bucket_size
}

/// Every candidate pair of the functions.
pub open spec fn lsh_candidates(features: Seq<NearFeatures>, options: NearDuplicateOptions) -> Set<(usize, usize)> {
    Set::new(|q: (usize, usize)| lsh_candidate(features, options, q.0 as int, q.1 as int))
}

/// The number of pairs at which the search stops: the pair limit, or one when the
/// limit is zero.
pub open spec fn pair_limit(options: NearDuplicateOptions) -> nat {
    if options.max_candidate_pairs == 0 {
        1
    } else {
        options.max_candidate_pairs as nat
    }
}

/// The buckets larger than the bucket limit.
pub open spec fn oversized_buckets(features: Seq<NearFeatures>, options: NearDuplicateOptions) -> Set<
    (Seq<char>, int, u64),
> {
    Set::new(|key: (Seq<char>, int, u64)| bucket_size(features, options, key) > options.max_bucket_size)
}

/// The candidate pairs of a run of LSH, the number of buckets skipped for their size,
/// and whether the pair limit stopped the search.
#[derive(Debug, Clone)]
pub struct LshCandidates {
    pub pairs: BTreeSet<(usize, usize)>,
    pub skipped_large_buckets: usize,
    pub candidate_limit_reached: bool,
}

proof fn lemma_distinct_bucket_keys(b: Buckets, features: Seq<NearFeatures>, options: NearDuplicateOptions, n: int, p: int, q: int)
    requires
        buckets_hold(b, features, options, n),
        0 <= p < b.keys@.len(),
        0 <= q < b.keys@.len(),
        p != q,
    ensures
        bucket_key(b.languages@, b.keys@[p]) != bucket_key(b.languages@, b.keys@[q]),
{
    let kp = b.keys@[p];
    let kq = b.keys@[q];
    assert(kp != kq) by {
        if p < q {
        } else {
        }
    }
    assert(kp.0 < b.languages@.len());
    assert(kq.0 < b.languages@.len());
    if kp.0 != kq.0 {
        if kp.0 < kq.0 {
            assert(b.languages@[kp.0 as int]@ != b.languages@[kq.0 as int]@);
        } else {
            assert(b.languages@[kq.0 as int]@ != b.languages@[kp.0 as int]@);
        }
    }
}

/// The candidate pairs of the functions: every pair that shares a band or shape bucket
/// of at most `max_bucket_size` functions; larger buckets are skipped and counted. The
/// search stops once `max_candidate_pairs` pairs are found (one, when the limit is
/// zero): then the limit is reached and the pairs are that many candidates; otherwise
/// the pairs are all the candidates, fewer than the limit.
pub fn lsh_candidate_pairs(features: &[NearFeatures], options: NearDuplicateOptions) -> (r: LshCandidates)
    requires
        lsh_options_fit(options),
    ensures
        forall|q: (usize, usize)| #[trigger]
            r.pairs@.contains(q) ==> lsh_candidate(features@, options, q.0 as int, q.1 as int),
        r.pairs@.subset_of(lsh_candidates(features@, options)),
        !r.candidate_limit_reached ==> r.pairs@ == lsh_candidates(features@, options),
        !r.candidate_limit_reached ==> r.pairs@.len() < pair_limit(options),
        r.candidate_limit_reached ==> r.pairs@.len() == pair_limit(options),
        !r.candidate_limit_reached ==> forall|a: usize, b: usize|
            lsh_candidate(features@, options, a as int, b as int) ==> #[trigger] r.pairs@.contains((a, b)),
        !r.candidate_limit_reached ==> r.skipped_large_buckets == oversized_buckets(features@, options).len(),
        r.candidate_limit_reached ==> r.pairs@.len() == (if options.max_candidate_pairs == 0 {
            1
        } else {
            options.max_candidate_pairs
        }),
{
    let bk = build_buckets(features, options);
    let count = features.len();
    let ghost n = features@.len() as int;
    assert(n == count);
    let mut pairs: BTreeSet<(usize, usize)> = BTreeSet::new();
    let mut skipped: usize = 0;
    let ghost mut seen: Set<(Seq<char>, int, u64)> = Set::empty();
    let mut p: usize = 0;
    while p < bk.members.len()
        invariant
            buckets_hold(bk, features@, options, n),
            n == features@.len(),
            p <= bk.members@.len(),
            forall|q: (usize, usize)| #[trigger]
                pairs@.contains(q) ==> lsh_candidate(features@, options, q.0 as int, q.1 as int),
            forall|pp: int, x: int, y: int|
                0 <= pp < p && bk.members@[pp]@.len() <= options.max_bucket_size && 0 <= x < y < bk.members@[pp]@.len()
                    ==> #[trigger] pairs@.contains((bk.members@[pp]@[x], bk.members@[pp]@[y])),
            seen.finite(),
            skipped == seen.len(),
            forall|key: (Seq<char>, int, u64)|
                #[trigger] seen.contains(key) <==> exists|pp: int|
                    0 <= pp < p && bk.members@[pp]@.len() > options.max_bucket_size && bucket_key(
                        bk.languages@,
                        #[trigger] bk.keys@[pp],
                    ) == key,
            pairs@.len() < options.max_candidate_pairs || pairs@.len() == 0,
            pairs@.finite(),
            n <= usize::MAX,
            skipped <= p,
        decreases bk.members@.len() - p,
    {
        let ghost kp = bucket_key(bk.languages@, bk.keys@[p as int]);
        proof {
            lemma_bucket_members(features@, options, kp, n);
        }
        let size = bk.members[p].len();
        if size > options.max_bucket_size {
            proof {
                assert(!seen.contains(kp)) by {
                    if seen.contains(kp) {
                        let pp = choose|pp: int|
                            0 <= pp < p && bk.members@[pp]@.len() > options.max_bucket_size && bucket_key(
                                bk.languages@,
                                #[trigger] bk.keys@[pp],
                            ) == kp;
                        lemma_distinct_bucket_keys(bk, features@, options, n, pp, p as int);
                    }
                }
                seen = seen.insert(kp);
            }
            skipped = skipped + 1;
        } else {
            let mut x: usize = 0;
            while x < size
                invariant
                    buckets_hold(bk, features@, options, n),
                    n == features@.len(),
                    p < bk.members@.len(),
                    size == bk.members@[p as int]@.len(),
                    size <= options.max_bucket_size,
                    kp == bucket_key(bk.languages@, bk.keys@[p as int]),
                    bk.members@[p as int]@ == bucket_members(features@, options, kp, n),
                    forall|x1: int, y1: int| 0 <= x1 < y1 < bk.members@[p as int]@.len() ==> bk.members@[p as int]@[x1] < bk.members@[p as int]@[y1],
                    forall|x1: int| 0 <= x1 < bk.members@[p as int]@.len() ==> bk.members@[p as int]@[x1] < n && in_bucket(features@[bk.members@[p as int]@[x1] as int], options, kp),
                    x <= size,
                    forall|q: (usize, usize)| #[trigger]
                        pairs@.contains(q) ==> lsh_candidate(features@, options, q.0 as int, q.1 as int),
                    forall|pp: int, x1: int, y1: int|
                        0 <= pp < p && bk.members@[pp]@.len() <= options.max_bucket_size && 0 <= x1 < y1 < bk.members@[pp]@.len()
                            ==> #[trigger] pairs@.contains((bk.members@[pp]@[x1], bk.members@[pp]@[y1])),
                    forall|x1: int, y1: int|
                        0 <= x1 < x && x1 < y1 < size ==> #[trigger] pairs@.contains((bk.members@[p as int]@[x1], bk.members@[p as int]@[y1])),
                    pairs@.len() < options.max_candidate_pairs || pairs@.len() == 0,
                    pairs@.finite(),
                    n <= usize::MAX,
                decreases size - x,
            {
                let mut y: usize = x + 1;
                while y < size
                    invariant
                        buckets_hold(bk, features@, options, n),
                        n == features@.len(),
                        p < bk.members@.len(),
                        size == bk.members@[p as int]@.len(),
                        size <= options.max_bucket_size,
                        kp == bucket_key(bk.languages@, bk.keys@[p as int]),
                        bk.members@[p as int]@ == bucket_members(features@, options, kp, n),
                        forall|x1: int, y1: int| 0 <= x1 < y1 < bk.members@[p as int]@.len() ==> bk.members@[p as int]@[x1] < bk.members@[p as int]@[y1],
                        forall|x1: int| 0 <= x1 < bk.members@[p as int]@.len() ==> bk.members@[p as int]@[x1] < n && in_bucket(features@[bk.members@[p as int]@[x1] as int], options, kp),
                        x < size,
                        x + 1 <= y <= size,
                        forall|q: (usize, usize)| #[trigger]
                            pairs@.contains(q) ==> lsh_candidate(features@, options, q.0 as int, q.1 as int),
                        forall|pp: int, x1: int, y1: int|
                            0 <= pp < p && bk.members@[pp]@.len() <= options.max_bucket_size && 0 <= x1 < y1 < bk.members@[pp]@.len()
                                ==> #[trigger] pairs@.contains((bk.members@[pp]@[x1], bk.members@[pp]@[y1])),
                        forall|x1: int, y1: int|
                            0 <= x1 < x && x1 < y1 < size ==> #[trigger] pairs@.contains((bk.members@[p as int]@[x1], bk.members@[p as int]@[y1])),
                        forall|y1: int| x < y1 < y ==> #[trigger] pairs@.contains((bk.members@[p as int]@[x as int], bk.members@[p as int]@[y1])),
                        pairs@.len() < options.max_candidate_pairs || pairs@.len() == 0,
                        pairs@.finite(),
                        n <= usize::MAX,
                    decreases size - y,
                {
                    let bx = bk.members[p][x];
                    let by = bk.members[p][y];
                    let left = if bx <= by {
                        bx
                    } else {
                        by
                    };
                    let right = if bx <= by {
                        by
                    } else {
                        bx
                    };
                    assert(bx < by);
                    assert(lsh_candidate(features@, options, left as int, right as int)) by {
                        assert(in_bucket(features@[left as int], options, kp));
                        assert(in_bucket(features@[right as int], options, kp));
                        assert(bucket_size(features@, options, kp) == size);
                    }
                    let ghost before = pairs@;
                    pairs.insert((left, right));
                    assert(pairs@ == before.insert((left, right)));
                    if pairs.len() >= options.max_candidate_pairs {
                        proof {
                            if before.len() == 0 {
                                before.lemma_len0_is_empty();
                            }
                        }
                        return LshCandidates { pairs, skipped_large_buckets: skipped, candidate_limit_reached: true };
                    }
                    y = y + 1;
                }
                x = x + 1;
            }
        }
        p = p + 1;
    }
    proof {
        assert forall|a: usize, b: usize|
            lsh_candidate(features@, options, a as int, b as int) implies #[trigger] pairs@.contains((a, b)) by {
            let key = choose|key: (Seq<char>, int, u64)|
                #[trigger] in_bucket(features@[a as int], options, key) && in_bucket(features@[b as int], options, key)
                    && bucket_size(features@, options, key) <= options.max_bucket_size;
            lemma_bucket_members(features@, options, key, n);
            let m = bucket_members(features@, options, key, n);
            let xa = choose|x: int| 0 <= x < m.len() && m[x] == a;
            let xb = choose|x: int| 0 <= x < m.len() && m[x] == b;
            assert(m.len() > 0);
            let pp = choose|pp: int| 0 <= pp < bk.keys@.len() && bucket_key(bk.languages@, #[trigger] bk.keys@[pp]) == key;
            assert(bk.members@[pp]@ == m);
            if xb <= xa {
                if xb < xa {
                    assert(m[xb] < m[xa]);
                }
            }
            assert(pairs@.contains((m[xa], m[xb])));
        }
        assert(seen =~= oversized_buckets(features@, options)) by {
            assert forall|key: (Seq<char>, int, u64)| oversized_buckets(features@, options).contains(key) implies seen.contains(key) by {
                assert(bucket_members(features@, options, key, n).len() > 0);
                let pp = choose|pp: int| 0 <= pp < bk.keys@.len() && bucket_key(bk.languages@, #[trigger] bk.keys@[pp]) == key;
            }
        }
        assert(pairs@ =~= lsh_candidates(features@, options));
    }
    LshCandidates { pairs, skipped_large_buckets: skipped, candidate_limit_reached: false }
}


/// Whether `m` is the union of the sets, each hash with its largest weight.
pub open spec fn is_max_union(m: Map<u64, u16>, parts: Seq<Map<u64, u16>>) -> bool {
    &&& forall|k: u64| #[trigger] m.contains_key(k) <==> exists|g: int| 0 <= g < parts.len() && (#[trigger] parts[g]).contains_key(k)
    &&& forall|k: u64|
        #[trigger] m.contains_key(k) ==> (exists|g: int|
            0 <= g < parts.len() && (#[trigger] parts[g]).contains_key(k) && parts[g][k] == m[k])
    &&& forall|k: u64, g: int| 0 <= g < parts.len() && #[trigger] parts[g].contains_key(k) ==> parts[g][k] <= m[k]
}

/// What near-duplicate detection reads of a function before weighting: its language,
/// size, signature shape, statements, and the shingles of its tokens, syntax paths,
/// statements, calls and control flow.
#[derive(Debug, Clone)]
pub struct RawNearFeatures {
    pub language: String,
    pub line_count: usize,
    pub token_count: usize,
    pub statement_count: usize,
    pub signature_shape: NearSignatureShape,
    pub statements: Vec<crate::shingles::StatementRegion>,
    pub token_shingles: Vec<String>,
    pub ast_shingles: Vec<String>,
    pub statement_shingles: Vec<String>,
    pub call_shingles: Vec<String>,
    pub control_shingles: Vec<String>,
}

/// Whether a hash is that of one of the shingles of a namespace.
pub open spec fn hashes_shingle(namespace: Seq<char>, shingles: Seq<String>, h: u64) -> bool {
    exists|i: int| 0 <= i < shingles.len() && spec_shingle_hash(namespace, (#[trigger] shingles[i])@) == h
}

/// Whether a hash is among the shingle hashes of a function, over its five namespaces.
pub open spec fn in_document(f: RawNearFeatures, h: u64) -> bool {
    ||| hashes_shingle("token"@, f.token_shingles@, h)
    ||| hashes_shingle("ast"@, f.ast_shingles@, h)
    ||| hashes_shingle("statement"@, f.statement_shingles@, h)
    ||| hashes_shingle("call"@, f.call_shingles@, h)
    ||| hashes_shingle("control"@, f.control_shingles@, h)
}

/// In how many of the first `n` functions a hash occurs.
pub open spec fn document_count(features: Seq<RawNearFeatures>, h: u64, n: int) -> nat
    decreases n,
{
    if n <= 0 {
        0
    } else {
        document_count(features, h, n - 1) + if in_document(features[n - 1], h) {
            1nat
        } else {
            0nat
        }
    }
}

fn add_shingle_hashes(
    doc: &mut Vec<u64>,
    seen: &mut BTreeSet<u64>,
    namespace: &str,
    shingles: &Vec<String>,
)
    requires
        old(doc)@.no_duplicates(),
        forall|h: u64| old(seen)@.contains(h) <==> old(doc)@.contains(h),
    ensures
        final(doc)@.no_duplicates(),
        forall|h: u64| final(seen)@.contains(h) <==> final(doc)@.contains(h),
        forall|h: u64| final(doc)@.contains(h) <==> (old(doc)@.contains(h) || hashes_shingle(namespace@, shingles@, h)),
{
    for i in 0..shingles.len()
        invariant
            doc@.no_duplicates(),
            forall|h: u64| seen@.contains(h) <==> doc@.contains(h),
            forall|h: u64| doc@.contains(h) <==> (old(doc)@.contains(h) || hashes_shingle(namespace@, shingles@.take(i as int), h)),
    {
        let h = shingle_hash(namespace, shingles[i].as_str());
        let ghost before = doc@;
        assert(shingles@.take(i + 1)[i as int] == shingles@[i as int]);
        assert forall|h2: u64| hashes_shingle(namespace@, shingles@.take(i + 1), h2) <==> (hashes_shingle(namespace@, shingles@.take(i as int), h2) || h2 == h) by {
            if hashes_shingle(namespace@, shingles@.take(i + 1), h2) {
                let j = choose|j: int| 0 <= j < i + 1 && spec_shingle_hash(namespace@, (#[trigger] shingles@.take(i + 1)[j])@) == h2;
                if j < i {
                    assert(shingles@.take(i as int)[j] == shingles@.take(i + 1)[j]);
                }
            }
            if hashes_shingle(namespace@, shingles@.take(i as int), h2) {
                let j = choose|j: int| 0 <= j < i && spec_shingle_hash(namespace@, (#[trigger] shingles@.take(i as int)[j])@) == h2;
                assert(shingles@.take(i as int)[j] == shingles@.take(i + 1)[j]);
            }
            if h2 == h {
                assert(spec_shingle_hash(namespace@, shingles@.take(i + 1)[i as int]@) == h2);
            }
        }
        if seen.contains(&h) {
            assert(doc@.contains(h));
        } else {
            seen.insert(h);
            doc.push(h);
            assert forall|h2: u64| doc@.contains(h2) <==> (before.contains(h2) || h2 == h) by {
                if doc@.contains(h2) {
                    let j = choose|j: int| 0 <= j < doc@.len() && doc@[j] == h2;
                    if j < before.len() {
                        assert(before[j] == h2);
                    }
                }
                if before.contains(h2) {
                    let j = choose|j: int| 0 <= j < before.len() && before[j] == h2;
                    assert(doc@[j] == h2);
                }
                if h2 == h {
                    assert(doc@[before.len() as int] == h);
                }
            }
        }
        assert forall|h2: u64| doc@.contains(h2) <==> (old(doc)@.contains(h2) || hashes_shingle(namespace@, shingles@.take(i + 1), h2)) by {
            assert(doc@.contains(h2) <==> (before.contains(h2) || h2 == h));
            assert(before.contains(h2) <==> (old(doc)@.contains(h2) || hashes_shingle(namespace@, shingles@.take(i as int), h2)));
        }
    }
    assert(shingles@.take(shingles@.len() as int) =~= shingles@);
}

/// The distinct shingle hashes of a function over its five namespaces.
fn document_hashes(feature: &RawNearFeatures) -> (r: Vec<u64>)
    ensures
        r@.no_duplicates(),
        forall|h: u64| r@.contains(h) <==> in_document(*feature, h),
{
    let mut doc: Vec<u64> = Vec::new();
    let mut seen: BTreeSet<u64> = BTreeSet::new();
    add_shingle_hashes(&mut doc, &mut seen, "token", &feature.token_shingles);
    add_shingle_hashes(&mut doc, &mut seen, "ast", &feature.ast_shingles);
    add_shingle_hashes(&mut doc, &mut seen, "statement", &feature.statement_shingles);
    add_shingle_hashes(&mut doc, &mut seen, "call", &feature.call_shingles);
    add_shingle_hashes(&mut doc, &mut seen, "control", &feature.control_shingles);
    doc
}

proof fn lemma_document_count_bound(features: Seq<RawNearFeatures>, h: u64, n: int)
    requires
        0 <= n,
    ensures
        document_count(features, h, n) <= n,
    decreases n,
{
    if n > 0 {
        lemma_document_count_bound(features, h, n - 1);
    }
}

/// In how many functions each shingle hash occurs, over their five namespaces.
pub fn near_document_frequency(features: &[RawNearFeatures]) -> (r: BTreeMap<u64, usize>)
    ensures
        forall|h: u64| #[trigger] r@.contains_key(h) <==> document_count(features@, h, features@.len() as int) > 0,
        forall|h: u64| #[trigger] r@.contains_key(h) ==> r@[h] == document_count(features@, h, features@.len() as int),
{
    let mut frequency: BTreeMap<u64, usize> = BTreeMap::new();
    let n = features.len();
    let mut i: usize = 0;
    while i < n
        invariant
            n == features@.len(),
            i <= features@.len(),
            forall|h: u64| #[trigger] frequency@.contains_key(h) <==> document_count(features@, h, i as int) > 0,
            forall|h: u64| #[trigger] frequency@.contains_key(h) ==> frequency@[h] == document_count(features@, h, i as int),
        decreases features@.len() - i,
    {
        let doc = document_hashes(&features[i]);
        let mut k: usize = 0;
        assert forall|h: u64| !doc@.take(0).contains(h) by {}
        while k < doc.len()
            invariant
                n == features@.len(),
                i < features@.len(),
                k <= doc@.len(),
                doc@.no_duplicates(),
                forall|h: u64| doc@.contains(h) <==> in_document(features@[i as int], h),
                forall|h: u64|
                    #[trigger] frequency@.contains_key(h) <==> (document_count(features@, h, i as int) > 0
                        || doc@.take(k as int).contains(h)),
                forall|h: u64|
                    #[trigger] frequency@.contains_key(h) ==> frequency@[h] == document_count(features@, h, i as int)
                        + (if doc@.take(k as int).contains(h) {
                        1nat
                    } else {
                        0nat
                    }),
            decreases doc@.len() - k,
        {
            let h = doc[k];
            let ghost before = frequency@;
            assert(!doc@.take(k as int).contains(h)) by {
                if doc@.take(k as int).contains(h) {
                    let j = choose|j: int| 0 <= j < k && doc@.take(k as int)[j] == h;
                    assert(doc@[j] == doc@[k as int]);
                }
            }
            assert(doc@.take(k + 1) =~= doc@.take(k as int).push(h));
            assert(doc@.take(k + 1)[k as int] == h);
            assert(doc@.take(k + 1).contains(h));
            let current: usize = match frequency.get(&h) {
                Some(c) => *c,
                None => 0,
            };
            proof {
                lemma_document_count_bound(features@, h, i as int);
            }
            assert(current == document_count(features@, h, i as int));
            frequency.insert(h, current + 1);
            assert(frequency@ == before.insert(h, (current + 1) as usize));
            assert forall|h2: u64|
                #[trigger] frequency@.contains_key(h2) <==> (document_count(features@, h2, i as int) > 0
                    || doc@.take(k + 1).contains(h2)) by {
                if h2 != h {
                    assert(doc@.take(k + 1).contains(h2) == doc@.take(k as int).contains(h2));
                }
            }
            assert forall|h2: u64|
                #[trigger] frequency@.contains_key(h2) implies frequency@[h2] == document_count(features@, h2, i as int)
                    + (if doc@.take(k + 1).contains(h2) {
                    1nat
                } else {
                    0nat
                }) by {
                if h2 != h {
                    assert(doc@.take(k + 1).contains(h2) == doc@.take(k as int).contains(h2));
                } else {
                    assert(doc@.take(k + 1).contains(h));
                }
            }
            k = k + 1;
        }
        assert(doc@.take(doc@.len() as int) =~= doc@);
        i = i + 1;
    }
    frequency
}

/// None of the shingles of `raw` is rare enough to weigh.
pub open spec fn no_features(raw: RawNearFeatures, frequency: Map<u64, usize>, total: nat, options: NearDuplicateOptions) -> bool {
    forall|h: u64| !(#[trigger] in_document(raw, h)) || !weighted_any(raw, h, frequency, total, options)
}

/// `f` holds the weighted shingles of `raw`, their union, and `raw`'s sizes and shape.
pub open spec fn features_from(
    f: NearFeatures,
    raw: RawNearFeatures,
    frequency: Map<u64, usize>,
    total: nat,
    options: NearDuplicateOptions,
) -> bool {
    &&& f.language == raw.language
    &&& f.line_count == raw.line_count
    &&& f.token_count == raw.token_count
    &&& f.statement_count == raw.statement_count
    &&& f.signature_shape == raw.signature_shape
    &&& weighted_from(f.token_shingles@, "token"@, raw.token_shingles@, frequency, total, options)
    &&& weighted_from(f.ast_shingles@, "ast"@, raw.ast_shingles@, frequency, total, options)
    &&& weighted_from(f.statement_shingles@, "statement"@, raw.statement_shingles@, frequency, total, options)
    &&& weighted_from(f.call_shingles@, "call"@, raw.call_shingles@, frequency, total, options)
    &&& weighted_from(f.control_shingles@, "control"@, raw.control_shingles@, frequency, total, options)
    &&& is_max_union(
        f.combined_shingles@,
        seq![f.token_shingles@, f.ast_shingles@, f.statement_shingles@, f.call_shingles@, f.control_shingles@],
    )
    &&& f.combined_shingles@.dom().len() > 0
}

/// The weighted features of a function, or none when none of its shingles is rare
/// enough to keep. The MinHash signature is left empty.
pub fn near_features(
    raw: RawNearFeatures,
    document_frequency: &BTreeMap<u64, usize>,
    total_definitions: usize,
    options: NearDuplicateOptions,
) -> (r: Option<NearFeatures>)
    requires
        total_definitions * 255 <= usize::MAX,
    ensures
        match r {
            None => no_features(raw, document_frequency@, total_definitions as nat, options),
            Some(f) => features_from(f, raw, document_frequency@, total_definitions as nat, options) && f.minhash_signature@.len() == 0,
        },
{
    let token_shingles = weighted_shingles("token", raw.token_shingles.as_slice(), document_frequency, total_definitions, options);
    let ast_shingles = weighted_shingles("ast", raw.ast_shingles.as_slice(), document_frequency, total_definitions, options);
    let statement_shingles = weighted_shingles("statement", raw.statement_shingles.as_slice(), document_frequency, total_definitions, options);
    let call_shingles = weighted_shingles("call", raw.call_shingles.as_slice(), document_frequency, total_definitions, options);
    let control_shingles = weighted_shingles("control", raw.control_shingles.as_slice(), document_frequency, total_definitions, options);
    let groups = vec![&token_shingles, &ast_shingles, &statement_shingles, &call_shingles, &control_shingles];
    let combined_shingles = combine_weighted_shingles(groups.as_slice());
    let ghost parts = seq![token_shingles@, ast_shingles@, statement_shingles@, call_shingles@, control_shingles@];
    assert forall|g: int| 0 <= g < 5 implies (#[trigger] groups@[g])@ == parts[g] by {}
    assert(is_max_union(combined_shingles@, parts)) by {
        assert forall|k: u64| #[trigger] combined_shingles@.contains_key(k) implies (exists|g: int|
            0 <= g < parts.len() && (#[trigger] parts[g]).contains_key(k) && parts[g][k] == combined_shingles@[k]) by {
            assert(is_max_weight(groups@, k, combined_shingles@[k]));
            let g = choose|g: int| 0 <= g < groups@.len() && (#[trigger] groups@[g])@.contains_key(k) && groups@[g]@[k] == combined_shingles@[k];
            assert(parts[g] == groups@[g]@);
        }
        assert forall|k: u64, g: int| 0 <= g < parts.len() && #[trigger] parts[g].contains_key(k) implies parts[g][k] <= combined_shingles@[k] by {
            assert(groups@[g]@ == parts[g]);
            assert(combined_shingles@.contains_key(k));
            assert(is_max_weight(groups@, k, combined_shingles@[k]));
        }
        assert forall|k: u64| #[trigger] combined_shingles@.contains_key(k) <==> exists|g: int| 0 <= g < parts.len() && (#[trigger] parts[g]).contains_key(k) by {
            if exists|g: int| 0 <= g < parts.len() && (#[trigger] parts[g]).contains_key(k) {
                let g = choose|g: int| 0 <= g < parts.len() && (#[trigger] parts[g]).contains_key(k);
                assert(groups@[g]@ == parts[g]);
            }
            if combined_shingles@.contains_key(k) {
                let g = choose|g: int| 0 <= g < groups@.len() && (#[trigger] groups@[g])@.contains_key(k);
                assert(groups@[g]@ == parts[g]);
            }
        }
    }
    let keys = keys_of(&combined_shingles);
    if keys.len() == 0 {
        proof {
            assert forall|h: u64| !(#[trigger] in_document(raw, h)) || !weighted_any(raw, h, document_frequency@, total_definitions as nat, options) by {
                if in_document(raw, h) && weighted_any(raw, h, document_frequency@, total_definitions as nat, options) {
                    if hashes_shingle("token"@, raw.token_shingles@, h) {
                        assert(token_shingles@.contains_key(h));
                        assert(parts[0].contains_key(h));
                    } else if hashes_shingle("ast"@, raw.ast_shingles@, h) {
                        assert(ast_shingles@.contains_key(h));
                        assert(parts[1].contains_key(h));
                    } else if hashes_shingle("statement"@, raw.statement_shingles@, h) {
                        assert(statement_shingles@.contains_key(h));
                        assert(parts[2].contains_key(h));
                    } else if hashes_shingle("call"@, raw.call_shingles@, h) {
                        assert(call_shingles@.contains_key(h));
                        assert(parts[3].contains_key(h));
                    } else {
                        assert(control_shingles@.contains_key(h));
                        assert(parts[4].contains_key(h));
                    }
                    assert(keys@.contains(h));
                }
            }
        }
        return None;
    }
    proof {
        assert(keys@.contains(keys@[0]));
        assert(combined_shingles@.dom().contains(keys@[0]));
    }
    Some(NearFeatures {
        language: raw.language,
        line_count: raw.line_count,
        token_count: raw.token_count,
        statement_count: raw.statement_count,
        signature_shape: raw.signature_shape,
        token_shingles,
        ast_shingles,
        statement_shingles,
        call_shingles,
        control_shingles,
        combined_shingles,
        minhash_signature: Vec::new(),
    })
}

/// Whether a hash of a function is rare enough to be kept.
pub open spec fn weighted_any(f: RawNearFeatures, h: u64, frequency: Map<u64, usize>, total: nat, options: NearDuplicateOptions) -> bool {
    frequency_of(frequency, h) < spec_common_shingle_cutoff(
        total,
        options.common_shingle_max_percent as nat,
        options.common_shingle_min_occurrences as nat,
    )
}

/// Whether `v` is the least seeded hash of the keys of `m` under `seed`, or the
/// maximum value when `m` is empty.
pub open spec fn is_min_hash(m: Map<u64, u16>, seed: nat, v: u64) -> bool {
    if m.dom().len() == 0 {
        v == u64::MAX
    } else {
        &&& exists|k: u64| #[trigger] m.contains_key(k) && v == spec_seeded_hash(seed, k)
        &&& forall|k: u64| #[trigger] m.contains_key(k) ==> v <= spec_seeded_hash(seed, k)
    }
}

fn min_seeded_hash(shingles: &BTreeMap<u64, u16>, seed: usize) -> (r: u64)
    ensures
        is_min_hash(shingles@, seed as nat, r),
{
    let mut best: u64 = u64::MAX;
    let mut found = false;
    for k in it: shingles.keys()
        invariant
            it.seq().unref().to_set() == shingles@.dom(),
            forall|k: u64| #[trigger]
                shingles@.contains_key(k) ==> (best <= spec_seeded_hash(seed as nat, k) || exists|j: int|
                    it.index() <= j < it.seq().len() && *it.seq()[j] == k),
            found ==> exists|k: u64| #[trigger] shingles@.contains_key(k) && best == spec_seeded_hash(seed as nat, k),
            !found ==> best == u64::MAX && it.index() == 0,
    {
        assert(shingles@.contains_key(*k));
        let h = seeded_hash(seed, *k);
        if !found || h < best {
            best = h;
            found = true;
        }
    }
    proof {
        if shingles@.dom().len() != 0 {
            let k = shingles@.dom().choose();
            assert(shingles@.contains_key(k));
        }
    }
    best
}

/// The MinHash signature of a weighted shingle set: for each of the options' hash
/// functions, the least seeded hash of its shingles (all maxima when it is empty).
pub fn minhash_signature(shingles: &BTreeMap<u64, u16>, options: NearDuplicateOptions) -> (r: Vec<u64>)
    ensures
        r@.len() == options.hash_functions,
        forall|s: int| 0 <= s < options.hash_functions ==> is_min_hash(shingles@, s as nat, #[trigger] r@[s]),
{
    let mut out: Vec<u64> = Vec::new();
    for seed in 0..options.hash_functions
        invariant
            out@.len() == seed,
            forall|s: int| 0 <= s < seed ==> is_min_hash(shingles@, s as nat, #[trigger] out@[s]),
    {
        let v = min_seeded_hash(shingles, seed);
        out.push(v);
    }
    out
}

/// MinHash signatures depend only on which shingle hashes a set holds, not on their
/// weights: two sets with the same hashes get the same signature.
pub proof fn lemma_minhash_depends_on_hashes_only(
    left: Map<u64, u16>,
    right: Map<u64, u16>,
    left_sig: Seq<u64>,
    right_sig: Seq<u64>,
)
    requires
        left.dom() == right.dom(),
        left_sig.len() == right_sig.len(),
        forall|s: int| 0 <= s < left_sig.len() ==> is_min_hash(left, s as nat, #[trigger] left_sig[s]),
        forall|s: int| 0 <= s < right_sig.len() ==> is_min_hash(right, s as nat, #[trigger] right_sig[s]),
    ensures
        left_sig == right_sig,
{
    assert forall|s: int| 0 <= s < left_sig.len() implies left_sig[s] == right_sig[s] by {
        assert(is_min_hash(left, s as nat, left_sig[s]));
        assert(is_min_hash(right, s as nat, right_sig[s]));
        if left.dom().len() != 0 {
            let kl = choose|k: u64| #[trigger] left.contains_key(k) && left_sig[s] == spec_seeded_hash(s as nat, k);
            let kr = choose|k: u64| #[trigger] right.contains_key(k) && right_sig[s] == spec_seeded_hash(s as nat, k);
            assert(right.contains_key(kl));
            assert(left.contains_key(kr));
        }
    }
    assert(left_sig =~= right_sig);
}

proof fn lemma_agreeing_self(s: Seq<u64>, n: int)
    requires
        0 <= n <= s.len(),
    ensures
        crate::similarity::agreeing_positions(s, s, n) == n,
    decreases n,
{
    if n > 0 {
        lemma_agreeing_self(s, n - 1);
    }
}

/// A signature agrees with itself everywhere: the estimate of a non-empty signature
/// against itself is 100.
pub proof fn lemma_minhash_estimate_self(sig: Seq<u64>)
    requires
        sig.len() > 0,
    ensures
        spec_minhash_estimate(sig, sig) == 100,
{
    lemma_agreeing_self(sig, sig.len() as int);
    let n = sig.len();
    assert((n * 100 + n / 2) / n == 100) by (nonlinear_arith)
        requires
            n > 0,
    ;
}

/// Signature similarity does not depend on the order of the two shapes, and equal
/// shapes are 100 alike.
pub proof fn lemma_signature_similarity_symmetric(left: NearSignatureShape, right: NearSignatureShape)
    ensures
        spec_signature_similarity(left, right) == spec_signature_similarity(right, left),
        (left.parameter_count == right.parameter_count && left.return_shape@ == right.return_shape@ && left.is_async
            == right.is_async && left.kind == right.kind) ==> spec_signature_similarity(left, right) == 100,
{
}

proof fn lemma_key_sum_zero(keys: Set<u64>, f: spec_fn(u64) -> nat)
    requires
        keys.finite(),
        forall|k: u64| keys.contains(k) ==> f(k) == 0,
    ensures
        key_sum(keys, f) == 0,
    decreases keys.len(),
{
    if keys.len() > 0 {
        let k = keys.choose();
        lemma_key_sum_zero(keys.remove(k), f);
    }
}

proof fn lemma_key_sum_ext(keys: Set<u64>, f: spec_fn(u64) -> nat, g: spec_fn(u64) -> nat)
    requires
        keys.finite(),
        forall|k: u64| keys.contains(k) ==> f(k) == g(k),
    ensures
        key_sum(keys, f) == key_sum(keys, g),
    decreases keys.len(),
{
    if keys.len() > 0 {
        let k = keys.choose();
        lemma_key_sum_ext(keys.remove(k), f, g);
    }
}

proof fn lemma_key_sum_positive(keys: Set<u64>, f: spec_fn(u64) -> nat, x: u64)
    requires
        keys.finite(),
        keys.contains(x),
        f(x) > 0,
    ensures
        key_sum(keys, f) > 0,
{
    lemma_key_sum_remove(keys, f, x);
}

/// A weighted shingle set with positive weights is fully similar to itself.
pub proof fn lemma_weighted_jaccard_self(m: Map<u64, u16>)
    requires
        m.dom().finite(),
        m.dom().len() > 0,
        forall|k: u64| m.contains_key(k) ==> m[k] > 0,
    ensures
        spec_weighted_jaccard(m, m) == 100,
{
    let d = m.dom();
    let w = |k: u64| weight_or_zero(m, k);
    lemma_key_sum_ext(d, smaller_weight(m, m), w);
    lemma_key_sum_ext(d, larger_weight(m, m), w);
    lemma_key_sum_zero(d, right_only_weight(m, m));
    let x = d.choose();
    assert(d.contains(x));
    lemma_key_sum_positive(d, w, x);
    let total = key_sum(d, w);
    assert((total * 100 + total / 2) / total == 100) by (nonlinear_arith)
        requires
            total > 0,
    ;
}

} // verus!
