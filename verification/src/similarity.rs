//! The arithmetic of near-duplicate scoring: rounded percentages, similarity of counts,
//! weighted averages, shingle weights and sizes, and MinHash agreement.
use vstd::prelude::*;

verus! {

/// `numerator / denominator` as a percentage rounded half up and capped at 100; 0 when
/// the denominator is 0.
pub open spec fn spec_percent(numerator: nat, denominator: nat) -> u8 {
    if denominator == 0 {
        0
    } else {
        let p = (numerator * 100 + denominator / 2) / denominator;
        if p > 100 {
            100
        } else {
            p as u8
        }
    }
}

/// Rounded percentage of `numerator` out of `denominator`.
pub fn percent(numerator: usize, denominator: usize) -> (r: u8)
    requires
        numerator * 100 + denominator / 2 <= usize::MAX,
    ensures
        r == spec_percent(numerator as nat, denominator as nat),
        r <= 100,
{
    if denominator == 0 {
        return 0;
    }
    let p = (numerator * 100 + denominator / 2) / denominator;
    if p > 100 {
        100
    } else {
        p as u8
    }
}

/// How close two counts are: the smaller as a percentage of the larger, 100 when both
/// are zero.
pub open spec fn spec_count_similarity(left: nat, right: nat) -> u8 {
    if left == 0 && right == 0 {
        100
    } else if left <= right {
        spec_percent(left, right)
    } else {
        spec_percent(right, left)
    }
}

/// Similarity of two counts.
pub fn count_similarity(left: usize, right: usize) -> (r: u8)
    requires
        left <= usize::MAX / 200,
        right <= usize::MAX / 200,
    ensures
        r == spec_count_similarity(left as nat, right as nat),
        r <= 100,
{
    if left == 0 && right == 0 {
        return 100;
    }
    let min = if left <= right {
        left
    } else {
        right
    };
    let max = if left <= right {
        right
    } else {
        left
    };
    percent(min, max)
}

/// The sum of the weights.
pub open spec fn total_weight(values: Seq<(u8, usize)>) -> nat
    decreases values.len(),
{
    if values.len() == 0 {
        0
    } else {
        total_weight(values.drop_last()) + values.last().1 as nat
    }
}

/// The sum of each value times its weight.
pub open spec fn weighted_sum(values: Seq<(u8, usize)>) -> nat
    decreases values.len(),
{
    if values.len() == 0 {
        0
    } else {
        weighted_sum(values.drop_last()) + (values.last().0 as nat) * (values.last().1 as nat)
    }
}

/// The weighted mean of the values, rounded half up; 0 when all weights are 0 and 100
/// when the mean does not fit in a byte.
pub open spec fn spec_weighted_average(values: Seq<(u8, usize)>) -> u8 {
    let total = total_weight(values);
    if total == 0 {
        0
    } else {
        let mean = (weighted_sum(values) + total / 2) / total;
        if mean > 255 {
            100
        } else {
            mean as u8
        }
    }
}

proof fn lemma_weighted_sum_bound(values: Seq<(u8, usize)>)
    ensures
        weighted_sum(values) <= 255 * total_weight(values),
    decreases values.len(),
{
    if values.len() > 0 {
        lemma_weighted_sum_bound(values.drop_last());
        let v = values.last();
        assert(v.0 * v.1 <= 255 * v.1) by (nonlinear_arith)
            requires
                v.0 <= 255,
        ;
    }
}

/// Weighted mean of percentage-like values.
pub fn weighted_average(values: &[(u8, usize)]) -> (r: u8)
    requires
        256 * total_weight(values@) <= usize::MAX,
    ensures
        r == spec_weighted_average(values@),
{
    let mut total: usize = 0;
    let mut weighted: usize = 0;
    for i in 0..values.len()
        invariant
            256 * total_weight(values@) <= usize::MAX,
            total == total_weight(values@.take(i as int)),
            weighted == weighted_sum(values@.take(i as int)),
    {
        proof {
            assert(values@.take(i + 1).drop_last() =~= values@.take(i as int));
            lemma_total_weight_prefix(values@, i + 1);
            lemma_weighted_sum_bound(values@.take(i + 1));
        }
        let (value, weight) = values[i];
        total = total + weight;
        weighted = weighted + (value as usize) * weight;
    }
    assert(values@.take(values@.len() as int) =~= values@);
    proof {
        lemma_weighted_sum_bound(values@);
    }
    if total == 0 {
        return 0;
    }
    let mean = (weighted + total / 2) / total;
    if mean > 255 {
        100
    } else {
        mean as u8
    }
}

proof fn lemma_total_weight_prefix(values: Seq<(u8, usize)>, n: int)
    requires
        0 <= n <= values.len(),
    ensures
        total_weight(values.take(n)) <= total_weight(values),
    decreases values.len(),
{
    if n < values.len() {
        assert(values.drop_last().take(n) =~= values.take(n));
        lemma_total_weight_prefix(values.drop_last(), n);
    } else {
        assert(values.take(n) =~= values);
    }
}

/// How many definitions a shingle may occur in before it counts as common: the larger
/// of the configured minimum, the configured share of all definitions, and 2.
pub open spec fn spec_common_shingle_cutoff(total: nat, max_percent: nat, min_occurrences: nat) -> nat {
    let by_percent = total * max_percent / 100;
    let m = if min_occurrences >= by_percent {
        min_occurrences
    } else {
        by_percent
    };
    if m >= 2 {
        m
    } else {
        2
    }
}

/// The frequency at or above which a shingle is ignored as common.
pub fn common_shingle_cutoff(total_definitions: usize, max_percent: u8, min_occurrences: usize) -> (r: usize)
    requires
        total_definitions * 255 <= usize::MAX,
    ensures
        r == spec_common_shingle_cutoff(total_definitions as nat, max_percent as nat, min_occurrences as nat),
{
    assert(total_definitions * (max_percent as usize) <= total_definitions * 255) by (nonlinear_arith)
        requires
            max_percent <= 255,
    ;
    let by_percent = total_definitions * (max_percent as usize) / 100;
    let m = if min_occurrences >= by_percent {
        min_occurrences
    } else {
        by_percent
    };
    if m >= 2 {
        m
    } else {
        2
    }
}

/// The weight of a shingle seen in `frequency` of `total` definitions: one more for
/// each halving of `total / frequency` that stays at least 2, at most 8.
pub open spec fn weight_from_ratio(ratio: nat, weight: nat) -> nat
    decreases 8 - weight,
{
    if ratio >= 2 && weight < 8 {
        weight_from_ratio(ratio / 2, weight + 1)
    } else {
        weight
    }
}

pub open spec fn spec_rare_shingle_weight(total: nat, frequency: nat) -> nat {
    let f = if frequency >= 1 {
        frequency
    } else {
        1
    };
    weight_from_ratio(total / f, 1)
}

proof fn lemma_weight_bounds(ratio: nat, weight: nat)
    requires
        1 <= weight <= 8,
    ensures
        1 <= weight_from_ratio(ratio, weight) <= 8,
    decreases 8 - weight,
{
    if ratio >= 2 && weight < 8 {
        lemma_weight_bounds(ratio / 2, weight + 1);
    }
}

/// The weight of a rare shingle, between 1 and 8.
pub fn rare_shingle_weight(total_definitions: usize, frequency: usize) -> (r: u16)
    ensures
        r == spec_rare_shingle_weight(total_definitions as nat, frequency as nat),
        1 <= r <= 8,
{
    let f = if frequency >= 1 {
        frequency
    } else {
        1
    };
    let mut ratio = total_definitions / f;
    let mut weight: u16 = 1;
    proof {
        lemma_weight_bounds(ratio as nat, 1);
    }
    while ratio >= 2 && weight < 8
        invariant
            1 <= weight <= 8,
            weight_from_ratio(ratio as nat, weight as nat) == spec_rare_shingle_weight(
                total_definitions as nat,
                frequency as nat,
            ),
        decreases 8 - weight,
    {
        weight = weight + 1;
        ratio = ratio / 2;
    }
    proof {
        lemma_weight_bounds(ratio as nat, weight as nat);
    }
    weight
}

/// Token shingle length for a definition of `token_count` tokens.
pub fn near_shingle_size(token_count: usize) -> (r: usize)
    ensures
        r == (if token_count < 80 {
            3usize
        } else if token_count < 250 {
            5usize
        } else {
            7usize
        }),
{
    if token_count < 80 {
        3
    } else if token_count < 250 {
        5
    } else {
        7
    }
}

/// Syntax-path shingle length for a definition of `token_count` tokens.
pub fn near_ast_shingle_size(token_count: usize) -> (r: usize)
    ensures
        r == (if token_count < 80 {
            3usize
        } else if token_count < 250 {
            4usize
        } else {
            5usize
        }),
{
    if token_count < 80 {
        3
    } else if token_count < 250 {
        4
    } else {
        5
    }
}

/// Statement shingle length for a definition of `token_count` tokens.
pub fn near_statement_shingle_size(token_count: usize) -> (r: usize)
    ensures
        r == (if token_count < 80 {
            1usize
        } else if token_count < 250 {
            2usize
        } else {
            3usize
        }),
{
    if token_count < 80 {
        1
    } else if token_count < 250 {
        2
    } else {
        3
    }
}

/// How many positions of the two signatures agree, over their common length.
pub open spec fn agreeing_positions(left: Seq<u64>, right: Seq<u64>, n: int) -> nat
    decreases n,
{
    if n <= 0 {
        0
    } else {
        agreeing_positions(left, right, n - 1) + if left[n - 1] == right[n - 1] {
            1nat
        } else {
            0nat
        }
    }
}

proof fn lemma_agreeing_bound(left: Seq<u64>, right: Seq<u64>, n: int)
    requires
        n >= 0,
    ensures
        agreeing_positions(left, right, n) <= n,
    decreases n,
{
    if n > 0 {
        lemma_agreeing_bound(left, right, n - 1);
    }
}

/// The share of agreeing MinHash positions, as a percentage of the shorter signature.
pub open spec fn spec_minhash_estimate(left: Seq<u64>, right: Seq<u64>) -> u8 {
    let total = if left.len() <= right.len() {
        left.len()
    } else {
        right.len()
    };
    if total == 0 {
        0
    } else {
        spec_percent(agreeing_positions(left, right, total as int), total)
    }
}

/// Estimates the similarity of two MinHash signatures.
pub fn minhash_estimate(left: &[u64], right: &[u64]) -> (r: u8)
    requires
        left@.len() <= usize::MAX / 200,
    ensures
        r == spec_minhash_estimate(left@, right@),
{
    let total = if left.len() <= right.len() {
        left.len()
    } else {
        right.len()
    };
    if total == 0 {
        return 0;
    }
    let mut equal: usize = 0;
    for i in 0..total
        invariant
            total <= left@.len(),
            total <= right@.len(),
            equal == agreeing_positions(left@, right@, i as int),
            equal <= i,
    {
        if left[i] == right[i] {
            equal = equal + 1;
        }
    }
    percent(equal, total)
}

} // verus!
