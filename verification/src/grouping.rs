//! Grouping items by a text key: the groups come in strictly increasing key order and
//! each holds, in index order, exactly the eligible items that share its key.
use vstd::prelude::*;

use crate::sorting::{chars_le, lemma_chars_le_antisymmetric, lemma_chars_le_reflexive, lemma_chars_le_total, lemma_chars_le_transitive, str_le};
use crate::text::{chars_eq, chars_of};

verus! {

/// The indices of the items that share one key.
#[derive(Debug, Clone)]
pub struct KeyGroup {
    pub key: String,
    pub members: Vec<usize>,
}

/// `groups` groups the eligible items among the first `upto` by their keys.
pub open spec fn key_groups_valid(groups: Seq<KeyGroup>, keys: Seq<Seq<char>>, eligible: Seq<bool>, upto: int) -> bool {
    &&& forall|g: int| 0 <= g < groups.len() ==> (#[trigger] groups[g]).members@.len() > 0
    &&& forall|g: int, m: int|
        0 <= g < groups.len() && 0 <= m < groups[g].members@.len() ==> {
            let x = #[trigger] groups[g].members@[m];
            &&& x < upto
            &&& x < keys.len()
            &&& x < eligible.len()
            &&& eligible[x as int]
            &&& keys[x as int] == groups[g].key@
        }
    &&& forall|g: int, a: int, b: int|
        0 <= g < groups.len() && 0 <= a < b < groups[g].members@.len() ==> #[trigger] groups[g].members@[a]
            < #[trigger] groups[g].members@[b]
    &&& forall|i: int|
        0 <= i < upto && i < eligible.len() && eligible[i] ==> exists|g: int|
            0 <= g < groups.len() && #[trigger] groups[g].members@.contains(i as usize)
    &&& keys_sorted(groups)
}

/// The keys of the groups strictly increase.
pub open spec fn keys_sorted(groups: Seq<KeyGroup>) -> bool {
    forall|g1: int, g2: int|
        #![trigger groups[g1], groups[g2]]
        0 <= g1 < g2 < groups.len() ==> chars_le(groups[g1].key@, groups[g2].key@) && groups[g1].key@
            != groups[g2].key@
}

/// Two groups of sorted keys are in key order.
pub proof fn lemma_keys_sorted_at(groups: Seq<KeyGroup>, a: int, b: int)
    requires
        keys_sorted(groups),
        0 <= a < b < groups.len(),
    ensures
        chars_le(groups[a].key@, groups[b].key@),
        groups[a].key@ != groups[b].key@,
{
    let ga = groups[a];
    let gb = groups[b];
    assert(chars_le(ga.key@, gb.key@) && ga.key@ != gb.key@);
}

proof fn lemma_insert_keeps_keys_sorted(before: Seq<KeyGroup>, p: int, g: KeyGroup)
    requires
        0 <= p <= before.len(),
        keys_sorted(before),
        forall|j: int| 0 <= j < p ==> chars_le((#[trigger] before[j]).key@, g.key@) && before[j].key@ != g.key@,
        forall|j: int| p <= j < before.len() ==> chars_le(g.key@, (#[trigger] before[j]).key@) && before[j].key@ != g.key@,
    ensures
        keys_sorted(before.insert(p, g)),
{
    let after = before.insert(p, g);
    assert forall|a: int, b: int| 0 <= a < b < after.len() implies chars_le(after[a].key@, after[b].key@)
        && after[a].key@ != after[b].key@ by {
        if b < p {
            assert(after[a] == before[a] && after[b] == before[b]);
        } else if b == p {
            assert(after[a] == before[a] && after[b] == g);
        } else if a < p {
            assert(after[a] == before[a] && after[b] == before[b - 1]);
            lemma_chars_le_transitive(before[a].key@, g.key@, before[b - 1].key@);
            if before[a].key@ == before[b - 1].key@ {
                lemma_chars_le_antisymmetric(g.key@, before[a].key@);
            }
        } else if a == p {
            assert(after[a] == g && after[b] == before[b - 1]);
        } else {
            assert(after[a] == before[a - 1] && after[b] == before[b - 1]);
        }
    }
}

pub open spec fn key_views(keys: Seq<String>) -> Seq<Seq<char>> {
    keys.map_values(|k: String| k@)
}

/// Groups the eligible items by key.
pub fn group_by_key(keys: &Vec<String>, eligible: &Vec<bool>) -> (r: Vec<KeyGroup>)
    requires
        keys@.len() == eligible@.len(),
    ensures
        key_groups_valid(r@, key_views(keys@), eligible@, keys@.len() as int),
{
    let mut groups: Vec<KeyGroup> = Vec::new();
    let ghost kv = key_views(keys@);
    for i in 0..keys.len()
        invariant
            keys@.len() == eligible@.len(),
            kv == key_views(keys@),
            key_groups_valid(groups@, kv, eligible@, i as int),
    {
        if eligible[i] {
            let key = keys[i].clone();
            assert(kv[i as int] == key@);
            insert_member(&mut groups, key, i, Ghost(kv), Ghost(eligible@));
        } else {
            assert forall|j: int| 0 <= j < i + 1 && j < eligible@.len() && eligible@[j] implies exists|g: int|
                0 <= g < groups@.len() && #[trigger] groups@[g].members@.contains(j as usize) by {
                assert(j < i);
            }
        }
    }
    groups
}

fn insert_member(
    groups: &mut Vec<KeyGroup>,
    key: String,
    i: usize,
    Ghost(keys): Ghost<Seq<Seq<char>>>,
    Ghost(eligible): Ghost<Seq<bool>>,
)
    requires
        key_groups_valid(old(groups)@, keys, eligible, i as int),
        i < keys.len(),
        i < eligible.len(),
        eligible[i as int],
        keys[i as int] == key@,
    ensures
        key_groups_valid(final(groups)@, keys, eligible, i + 1),
{
    let mut p: usize = 0;
    while p < groups.len() && !str_le(key.as_str(), groups[p].key.as_str())
        invariant
            p <= groups@.len(),
            forall|j: int| 0 <= j < p ==> !chars_le(key@, (#[trigger] groups@[j]).key@),
        decreases groups.len() - p,
    {
        p = p + 1;
    }
    let ghost before = groups@;
    if p < groups.len() && chars_eq(&chars_of(key.as_str()), &chars_of(groups[p].key.as_str())) {
        let mut group = groups.remove(p);
        let ghost old_group = group;
        group.members.push(i);
        let ghost new_group = group;
        groups.insert(p, group);
        proof {
            assert(old_group == before[p as int]);
            assert(groups@ =~= before.update(p as int, new_group));
            assert forall|g: int| 0 <= g < groups@.len() implies (#[trigger] groups@[g]).members@.len() > 0 by {
                if g != p {
                    assert(groups@[g] == before[g]);
                }
            }
            assert forall|g: int, m: int| 0 <= g < groups@.len() && 0 <= m < groups@[g].members@.len() implies {
                let x = #[trigger] groups@[g].members@[m];
                &&& x < i + 1
                &&& x < keys.len()
                &&& x < eligible.len()
                &&& eligible[x as int]
                &&& keys[x as int] == groups@[g].key@
            } by {
                if g != p {
                    assert(groups@[g] == before[g]);
                    assert(before[g].members@[m] < i);
                } else if m < old_group.members@.len() {
                    assert(groups@[g].members@[m] == before[g].members@[m]);
                }
            }
            assert forall|g: int, a: int, b: int|
                0 <= g < groups@.len() && 0 <= a < b < groups@[g].members@.len() implies #[trigger] groups@[g].members@[a]
                    < #[trigger] groups@[g].members@[b] by {
                if g != p {
                    assert(groups@[g] == before[g]);
                } else {
                    assert(groups@[g].members@[a] == before[g].members@[a]);
                    assert(before[g].members@[a] < i);
                    if b < old_group.members@.len() {
                        assert(groups@[g].members@[b] == before[g].members@[b]);
                    }
                }
            }
            assert forall|j: int| 0 <= j < i + 1 && j < eligible.len() && eligible[j] implies exists|g: int|
                0 <= g < groups@.len() && #[trigger] groups@[g].members@.contains(j as usize) by {
                if j == i {
                    assert(groups@[p as int].members@.last() == i);
                    assert(groups@[p as int].members@.contains(j as usize));
                } else {
                    let g = choose|g: int| 0 <= g < before.len() && #[trigger] before[g].members@.contains(j as usize);
                    if g == p {
                        let m = choose|m: int| 0 <= m < before[g].members@.len() && before[g].members@[m] == j as usize;
                        assert(groups@[g].members@[m] == j as usize);
                    } else {
                        assert(groups@[g] == before[g]);
                    }
                    assert(groups@[g].members@.contains(j as usize));
                }
            }
            assert forall|g1: int, g2: int| 0 <= g1 < g2 < groups@.len() implies chars_le(groups@[g1].key@, groups@[g2].key@)
                && groups@[g1].key@ != groups@[g2].key@ by {
                assert(groups@[g1].key@ == before[g1].key@);
                assert(groups@[g2].key@ == before[g2].key@);
                assert(chars_le(before[g1].key@, before[g2].key@) && before[g1].key@ != before[g2].key@);
            }
            assert(keys_sorted(groups@));
        }
    } else {
        let ghost k = key@;
        let mut members: Vec<usize> = Vec::new();
        members.push(i);
        let g = KeyGroup { key, members };
        let ghost new_group = g;
        groups.insert(p, g);
        proof {
            assert(groups@ =~= before.insert(p as int, new_group));
            assert(new_group.members@ =~= seq![i]);
            assert forall|j: int| 0 <= j < p implies chars_le(before[j].key@, k) && before[j].key@ != k by {
                lemma_chars_le_total(k, before[j].key@);
                if before[j].key@ == k {
                    lemma_chars_le_reflexive(k);
                }
            }
            if p < before.len() {
                assert(chars_le(k, before[p as int].key@));
                assert forall|j: int| p <= j < before.len() implies chars_le(k, before[j].key@) && before[j].key@ != k by {
                    if j > p {
                        lemma_chars_le_transitive(k, before[p as int].key@, before[j].key@);
                        if before[j].key@ == k {
                            lemma_chars_le_antisymmetric(k, before[p as int].key@);
                        }
                    }
                }
            }
            assert forall|g: int| 0 <= g < groups@.len() implies (#[trigger] groups@[g]).members@.len() > 0 by {
                if g < p {
                    assert(groups@[g] == before[g]);
                } else if g > p {
                    assert(groups@[g] == before[g - 1]);
                }
            }
            assert forall|g: int, m: int| 0 <= g < groups@.len() && 0 <= m < groups@[g].members@.len() implies {
                let x = #[trigger] groups@[g].members@[m];
                &&& x < i + 1
                &&& x < keys.len()
                &&& x < eligible.len()
                &&& eligible[x as int]
                &&& keys[x as int] == groups@[g].key@
            } by {
                if g < p {
                    assert(groups@[g] == before[g]);
                    assert(before[g].members@[m] < i);
                } else if g > p {
                    assert(groups@[g] == before[g - 1]);
                    assert(before[g - 1].members@[m] < i);
                }
            }
            assert forall|g: int, a: int, b: int|
                0 <= g < groups@.len() && 0 <= a < b < groups@[g].members@.len() implies #[trigger] groups@[g].members@[a]
                    < #[trigger] groups@[g].members@[b] by {
                if g < p {
                    assert(groups@[g] == before[g]);
                } else if g > p {
                    assert(groups@[g] == before[g - 1]);
                }
            }
            assert forall|j: int| 0 <= j < i + 1 && j < eligible.len() && eligible[j] implies exists|g: int|
                0 <= g < groups@.len() && #[trigger] groups@[g].members@.contains(j as usize) by {
                if j == i {
                    assert(groups@[p as int].members@[0] == i);
                    assert(groups@[p as int].members@.contains(j as usize));
                } else {
                    let g = choose|g: int| 0 <= g < before.len() && #[trigger] before[g].members@.contains(j as usize);
                    if g < p {
                        assert(groups@[g] == before[g]);
                        assert(groups@[g].members@.contains(j as usize));
                    } else {
                        assert(groups@[g + 1] == before[g]);
                        assert(groups@[g + 1].members@.contains(j as usize));
                    }
                }
            }
            lemma_insert_keeps_keys_sorted(before, p as int, new_group);
        }
    }
}

} // verus!
