//! A stable selection sort over an order given as a spec relation and an executable
//! comparison that agrees with it, plus the lexicographic character order that text
//! keys use.
use vstd::prelude::*;

verus! {

broadcast use vstd::seq_lib::group_to_multiset_ensures;

/// `leq` is a total preorder: reflexive, transitive and total.
pub open spec fn total_preorder<T>(leq: spec_fn(T, T) -> bool) -> bool {
    &&& forall|a: T| #[trigger] leq(a, a)
    &&& forall|a: T, b: T, c: T| #[trigger] leq(a, b) && #[trigger] leq(b, c) ==> leq(a, c)
    &&& forall|a: T, b: T| #[trigger] leq(a, b) || leq(b, a)
}

/// `s` is ordered by `leq`.
pub open spec fn ordered_by<T>(s: Seq<T>, leq: spec_fn(T, T) -> bool) -> bool {
    forall|i: int, j: int| 0 <= i < j < s.len() ==> #[trigger] leq(s[i], s[j])
}

/// Sorts `v` by the order that `le` decides and `leq` states. Among elements that are
/// equal in the order, the earlier one in `v` comes first.
pub fn sort_by_order<T, F: Fn(&T, &T) -> bool>(
    v: Vec<T>,
    le: F,
    Ghost(leq): Ghost<spec_fn(T, T) -> bool>,
) -> (r: Vec<T>)
    requires
        total_preorder(leq),
        forall|a: &T, b: &T| #[trigger] le.requires((a, b)),
        forall|a: &T, b: &T, x: bool| le.ensures((a, b), x) ==> x == leq(*a, *b),
    ensures
        r@.to_multiset() =~= v@.to_multiset(),
        r@.len() == v@.len(),
        ordered_by(r@, leq),
{
    let mut rest = v;
    let mut out: Vec<T> = Vec::new();
    while rest.len() > 0
        invariant
            total_preorder(leq),
            forall|a: &T, b: &T| #[trigger] le.requires((a, b)),
            forall|a: &T, b: &T, x: bool| le.ensures((a, b), x) ==> x == leq(*a, *b),
            out@.to_multiset().add(rest@.to_multiset()) =~= v@.to_multiset(),
            out@.len() + rest@.len() == v@.len(),
            ordered_by(out@, leq),
            forall|i: int, j: int|
                0 <= i < out@.len() && 0 <= j < rest@.len() ==> #[trigger] leq(
                    out@[i],
                    #[trigger] rest@[j],
                ),
        decreases rest.len(),
    {
        let mut best: usize = 0;
        let mut k: usize = 1;
        while k < rest.len()
            invariant
                total_preorder(leq),
                forall|a: &T, b: &T| #[trigger] le.requires((a, b)),
                forall|a: &T, b: &T, x: bool| le.ensures((a, b), x) ==> x == leq(*a, *b),
                0 <= best < rest@.len(),
                1 <= k <= rest@.len(),
                best < k,
                forall|j: int| 0 <= j < k ==> #[trigger] leq(rest@[best as int], rest@[j]),
            decreases rest.len() - k,
        {
            let smaller = !le(&rest[best], &rest[k]);
            if smaller {
                assert(leq(rest@[k as int], rest@[best as int]));
                assert forall|j: int| 0 <= j < k + 1 implies #[trigger] leq(
                    rest@[k as int],
                    rest@[j],
                ) by {
                    if j < k {
                        assert(leq(rest@[best as int], rest@[j]));
                    }
                }
                best = k;
            }
            k = k + 1;
        }
        let ghost old_rest = rest@;
        let ghost old_out = out@;
        let x = rest.remove(best);
        assert(x == old_rest[best as int]);
        out.push(x);
        proof {
            assert(old_rest.remove(best as int).to_multiset() =~= old_rest.to_multiset().remove(
                x,
            ));
            assert(out@ == old_out.push(x));
            assert forall|i: int, j: int| 0 <= i < j < out@.len() implies #[trigger] leq(
                out@[i],
                out@[j],
            ) by {
                if j == out@.len() - 1 {
                    assert(old_rest[best as int] == x);
                    assert(leq(old_out[i], old_rest[best as int]));
                } else {
                    assert(leq(old_out[i], old_out[j]));
                }
            }
            assert forall|i: int, j: int|
                0 <= i < out@.len() && 0 <= j < rest@.len() implies #[trigger] leq(
                out@[i],
                #[trigger] rest@[j],
            ) by {
                let jj = if j < best {
                    j
                } else {
                    j + 1
                };
                assert(rest@[j] == old_rest[jj]);
                if i == out@.len() - 1 {
                    assert(leq(old_rest[best as int], old_rest[jj]));
                } else {
                    assert(leq(old_out[i], old_rest[jj]));
                }
            }
        }
    }
    out
}

/// Lexicographic order of character sequences (the order of `str` comparison).
pub open spec fn chars_le(a: Seq<char>, b: Seq<char>) -> bool
    decreases a.len(),
{
    if a.len() == 0 {
        true
    } else if b.len() == 0 {
        false
    } else if a[0] != b[0] {
        a[0] < b[0]
    } else {
        chars_le(a.drop_first(), b.drop_first())
    }
}

pub proof fn lemma_chars_le_reflexive(a: Seq<char>)
    ensures
        chars_le(a, a),
    decreases a.len(),
{
    if a.len() > 0 {
        lemma_chars_le_reflexive(a.drop_first());
    }
}

pub proof fn lemma_chars_le_total(a: Seq<char>, b: Seq<char>)
    ensures
        chars_le(a, b) || chars_le(b, a),
    decreases a.len(),
{
    if a.len() > 0 && b.len() > 0 && a[0] == b[0] {
        lemma_chars_le_total(a.drop_first(), b.drop_first());
    }
}

pub proof fn lemma_chars_le_transitive(a: Seq<char>, b: Seq<char>, c: Seq<char>)
    requires
        chars_le(a, b),
        chars_le(b, c),
    ensures
        chars_le(a, c),
    decreases a.len(),
{
    if a.len() > 0 && b.len() > 0 && c.len() > 0 && a[0] == b[0] && b[0] == c[0] {
        lemma_chars_le_transitive(a.drop_first(), b.drop_first(), c.drop_first());
    }
}

pub proof fn lemma_chars_le_antisymmetric(a: Seq<char>, b: Seq<char>)
    requires
        chars_le(a, b),
        chars_le(b, a),
    ensures
        a == b,
    decreases a.len(),
{
    if a.len() > 0 && b.len() > 0 {
        lemma_chars_le_antisymmetric(a.drop_first(), b.drop_first());
        assert(a =~= seq![a[0]] + a.drop_first());
        assert(b =~= seq![b[0]] + b.drop_first());
    }
}

/// `a <= b` in lexicographic order.
pub fn str_le(a: &str, b: &str) -> (r: bool)
    ensures
        r == chars_le(a@, b@),
{
    let ca = crate::text::chars_of(a);
    let cb = crate::text::chars_of(b);
    chars_slice_le(&ca, &cb)
}

/// `a <= b` in lexicographic order.
pub fn chars_slice_le(a: &[char], b: &[char]) -> (r: bool)
    ensures
        r == chars_le(a@, b@),
{
    let mut i: usize = 0;
    assert(a@.skip(0) =~= a@);
    assert(b@.skip(0) =~= b@);
    while i < a.len() && i < b.len() && a[i] == b[i]
        invariant
            i <= a@.len(),
            i <= b@.len(),
            chars_le(a@, b@) == chars_le(a@.skip(i as int), b@.skip(i as int)),
        decreases a.len() - i,
    {
        assert(a@.skip(i as int).drop_first() =~= a@.skip(i + 1));
        assert(b@.skip(i as int).drop_first() =~= b@.skip(i + 1));
        i = i + 1;
    }
    if i == a.len() {
        true
    } else if i == b.len() {
        false
    } else {
        a[i] < b[i]
    }
}

/// Equality of two texts, decided through the lexicographic order.
pub proof fn lemma_chars_le_both_eq(a: Seq<char>, b: Seq<char>)
    ensures
        (chars_le(a, b) && chars_le(b, a)) == (a == b),
{
    if chars_le(a, b) && chars_le(b, a) {
        lemma_chars_le_antisymmetric(a, b);
    }
    if a == b {
        lemma_chars_le_reflexive(a);
    }
}

} // verus!
