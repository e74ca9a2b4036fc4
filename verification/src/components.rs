//! Connected components of an undirected graph given by its edges: the groups of
//! positions that edges link, directly or through other positions.
use vstd::prelude::*;

verus! {

broadcast use vstd::std_specs::vec::group_vec_axioms;

/// Some edge joins `a` and `b`, in either direction.
pub open spec fn edge(es: Seq<(usize, usize)>, a: usize, b: usize) -> bool {
    exists|k: int| 0 <= k < es.len() && ((#[trigger] es[k]) == (a, b) || es[k] == (b, a))
}

/// `p` is a walk: each position is joined by an edge to the next.
pub open spec fn is_walk(es: Seq<(usize, usize)>, p: Seq<usize>) -> bool {
    &&& p.len() > 0
    &&& forall|i: int| 0 <= i < p.len() - 1 ==> edge(es, #[trigger] p[i], p[i + 1])
}

/// `a` and `b` are connected: a walk of edges leads from one to the other.
pub open spec fn connected(es: Seq<(usize, usize)>, a: usize, b: usize) -> bool {
    exists|p: Seq<usize>| #[trigger] is_walk(es, p) && p[0] == a && p.last() == b
}

/// Connection is an equivalence, and an edge connects its ends.
pub proof fn lemma_connected_equivalence(es: Seq<(usize, usize)>, a: usize, b: usize, c: usize)
    ensures
        connected(es, a, a),
        edge(es, a, b) ==> connected(es, a, b),
        connected(es, a, b) ==> connected(es, b, a),
        connected(es, a, b) && connected(es, b, c) ==> connected(es, a, c),
{
    let single = seq![a];
    assert(is_walk(es, single));
    if edge(es, a, b) {
        let two = seq![a, b];
        assert(is_walk(es, two));
    }
    if connected(es, a, b) {
        let p = choose|p: Seq<usize>| #[trigger] is_walk(es, p) && p[0] == a && p.last() == b;
        let r = p.reverse();
        assert forall|i: int| 0 <= i < r.len() - 1 implies edge(es, #[trigger] r[i], r[i + 1]) by {
            let j = p.len() - 2 - i;
            assert(r[i] == p[j + 1] && r[i + 1] == p[j]);
            assert(edge(es, p[j], p[j + 1]));
            let k = choose|k: int| 0 <= k < es.len() && ((#[trigger] es[k]) == (p[j], p[j + 1]) || es[k] == (p[j + 1], p[j]));
        }
        assert(is_walk(es, r));
        assert(r[0] == b && r.last() == a);
        if connected(es, b, c) {
            let q = choose|q: Seq<usize>| #[trigger] is_walk(es, q) && q[0] == b && q.last() == c;
            let w = p + q.drop_first();
            assert forall|i: int| 0 <= i < w.len() - 1 implies edge(es, #[trigger] w[i], w[i + 1]) by {
                if i < p.len() - 1 {
                    assert(w[i] == p[i] && w[i + 1] == p[i + 1]);
                } else if i == p.len() - 1 {
                    assert(w[i] == q[0] && w[i + 1] == q[1]);
                } else {
                    let j = i - p.len() + 1;
                    assert(w[i] == q[j] && w[i + 1] == q[j + 1]);
                }
            }
            assert(is_walk(es, w));
            if q.len() == 1 {
                assert(w.last() == p.last());
            } else {
                assert(w.last() == q.last());
            }
        }
    }
}

/// `gs` lists the connected components of the positions below `n` that hold more than
/// one position: each in increasing order, the components ordered by their smallest
/// position.
pub open spec fn components_of(gs: Seq<Seq<usize>>, es: Seq<(usize, usize)>, n: nat) -> bool {
    &&& forall|g: int| 0 <= g < gs.len() ==> (#[trigger] gs[g]).len() >= 2
    &&& forall|g: int, i: int, j: int| 0 <= g < gs.len() && 0 <= i < j < gs[g].len() ==> #[trigger] gs[g][i] < #[trigger] gs[g][j]
    &&& forall|g: int, i: int| 0 <= g < gs.len() && 0 <= i < gs[g].len() ==> #[trigger] gs[g][i] < n
    &&& forall|g: int, i: int, j: int|
        0 <= g < gs.len() && 0 <= i < gs[g].len() && 0 <= j < gs[g].len() ==> connected(es, #[trigger] gs[g][i], #[trigger] gs[g][j])
    &&& forall|g: int, i: int, y: usize|
        0 <= g < gs.len() && 0 <= i < gs[g].len() && y < n && connected(es, #[trigger] gs[g][i], y) ==> #[trigger] gs[g].contains(y)
    &&& forall|x: usize, y: usize|
        x < n && y < n && x != y && #[trigger] connected(es, x, y) ==> exists|g: int| 0 <= g < gs.len() && #[trigger] gs[g].contains(x)
    &&& forall|g1: int, g2: int| 0 <= g1 < g2 < gs.len() ==> #[trigger] gs[g1][0] < #[trigger] gs[g2][0]
}

/// The sum of some positions.
pub open spec fn label_sum(s: Seq<usize>) -> nat
    decreases s.len(),
{
    if s.len() == 0 {
        0
    } else {
        label_sum(s.drop_last()) + s.last() as nat
    }
}

proof fn lemma_label_sum_update(s: Seq<usize>, i: int, v: usize)
    requires
        0 <= i < s.len(),
    ensures
        label_sum(s.update(i, v)) + s[i] == label_sum(s) + v,
    decreases s.len(),
{
    if i < s.len() - 1 {
        lemma_label_sum_update(s.drop_last(), i, v);
        assert(s.update(i, v).drop_last() =~= s.drop_last().update(i, v));
    } else {
        assert(s.update(i, v).drop_last() =~= s.drop_last());
    }
}

/// Labels that name, for each position, a connected position at or below it.
pub open spec fn labels_sound(l: Seq<usize>, es: Seq<(usize, usize)>) -> bool {
    forall|x: int| 0 <= x < l.len() ==> (#[trigger] l[x]) <= x && connected(es, x as usize, l[x])
}

proof fn lemma_walk_same_label(l: Seq<usize>, es: Seq<(usize, usize)>, p: Seq<usize>)
    requires
        is_walk(es, p),
        p[0] < l.len(),
        forall|k: int| 0 <= k < es.len() ==> (#[trigger] es[k]).0 < l.len() && es[k].1 < l.len() && l[es[k].0 as int] == l[es[k].1 as int],
    ensures
        p.last() < l.len(),
        l[p[0] as int] == l[p.last() as int],
    decreases p.len(),
{
    if p.len() > 1 {
        let q = p.drop_last();
        assert forall|i: int| 0 <= i < q.len() - 1 implies edge(es, #[trigger] q[i], q[i + 1]) by {
            assert(q[i] == p[i] && q[i + 1] == p[i + 1]);
        }
        lemma_walk_same_label(l, es, q);
        let i = p.len() - 2;
        assert(edge(es, p[i], p[i + 1]));
        let k = choose|k: int| 0 <= k < es.len() && ((#[trigger] es[k]) == (p[i], p[i + 1]) || es[k] == (p[i + 1], p[i]));
        assert(q.last() == p[i]);
    }
}

fn identity_labels(n: usize) -> (r: Vec<usize>)
    ensures
        r@.len() == n,
        forall|x: int| 0 <= x < n ==> r@[x] == x,
{
    let mut out: Vec<usize> = Vec::new();
    for i in 0..n
        invariant
            out@.len() == i,
            forall|x: int| 0 <= x < i ==> out@[x] == x,
    {
        out.push(i);
    }
    out
}

fn propagate_labels(es: &Vec<(usize, usize)>, n: usize) -> (r: Vec<usize>)
    requires
        forall|k: int| 0 <= k < es@.len() ==> (#[trigger] es@[k]).0 < n && es@[k].1 < n,
    ensures
        r@.len() == n,
        labels_sound(r@, es@),
        forall|k: int| 0 <= k < es@.len() ==> r@[(#[trigger] es@[k]).0 as int] == r@[es@[k].1 as int],
{
    let mut labels = identity_labels(n);
    proof {
        assert forall|x: int| 0 <= x < labels@.len() implies (#[trigger] labels@[x]) <= x && connected(es@, x as usize, labels@[x]) by {
            lemma_connected_equivalence(es@, x as usize, x as usize, x as usize);
        }
    }
    loop
        invariant
            forall|k: int| 0 <= k < es@.len() ==> (#[trigger] es@[k]).0 < n && es@[k].1 < n,
            labels@.len() == n,
            labels_sound(labels@, es@),
        decreases label_sum(labels@),
    {
        let ghost start = labels@;
        let mut changed = false;
        for k in 0..es.len()
            invariant
                forall|k: int| 0 <= k < es@.len() ==> (#[trigger] es@[k]).0 < n && es@[k].1 < n,
                labels@.len() == n,
                labels_sound(labels@, es@),
                !changed ==> labels@ == start,
                !changed ==> forall|j: int| 0 <= j < k ==> labels@[(#[trigger] es@[j]).0 as int] == labels@[es@[j].1 as int],
                changed ==> label_sum(labels@) < label_sum(start),
        {
            let (a, b) = es[k];
            let la = labels[a];
            let lb = labels[b];
            proof {
                assert(edge(es@, a, b));
            }
            if la < lb {
                proof {
                    lemma_connected_equivalence(es@, b, a, la);
                    lemma_connected_equivalence(es@, a, b, la);
                    lemma_label_sum_update(labels@, b as int, la);
                }
                labels.set(b, la);
                changed = true;
                proof {
                    assert forall|x: int| 0 <= x < labels@.len() implies (#[trigger] labels@[x]) <= x && connected(es@, x as usize, labels@[x]) by {
                        if x == b as int {
                            assert(la <= a);
                            assert(labels@[a as int] == la || a == b);
                        }
                    }
                }
            } else if lb < la {
                proof {
                    lemma_connected_equivalence(es@, a, b, lb);
                    lemma_label_sum_update(labels@, a as int, lb);
                }
                labels.set(a, lb);
                changed = true;
            }
        }
        if !changed {
            return labels;
        }
    }
}

proof fn lemma_labels_decide(l: Seq<usize>, es: Seq<(usize, usize)>, x: usize, y: usize)
    requires
        labels_sound(l, es),
        forall|k: int| 0 <= k < es.len() ==> (#[trigger] es[k]).0 < l.len() && es[k].1 < l.len() && l[es[k].0 as int] == l[es[k].1 as int],
        x < l.len(),
        y < l.len(),
    ensures
        connected(es, x, y) <==> l[x as int] == l[y as int],
        l[l[x as int] as int] == l[x as int],
{
    let lx = l[x as int];
    let ly = l[y as int];
    assert(connected(es, x, lx));
    let p = choose|p: Seq<usize>| #[trigger] is_walk(es, p) && p[0] == x && p.last() == lx;
    lemma_walk_same_label(l, es, p);
    if connected(es, x, y) {
        let q = choose|q: Seq<usize>| #[trigger] is_walk(es, q) && q[0] == x && q.last() == y;
        lemma_walk_same_label(l, es, q);
    }
    if lx == ly {
        assert(connected(es, y, ly));
        lemma_connected_equivalence(es, y, ly, x);
        lemma_connected_equivalence(es, x, lx, y);
    }
}

/// The connected components of the positions below `n` that hold more than one
/// position, each in increasing order, ordered by their smallest position.
pub fn connected_groups(es: &Vec<(usize, usize)>, n: usize) -> (r: Vec<Vec<usize>>)
    requires
        forall|k: int| 0 <= k < es@.len() ==> (#[trigger] es@[k]).0 < n && es@[k].1 < n,
    ensures
        components_of(r@.map_values(|g: Vec<usize>| g@), es@, n as nat),
{
    let labels = propagate_labels(es, n);
    let ghost l = labels@;
    let mut out: Vec<Vec<usize>> = Vec::new();
    for root in 0..n
        invariant
            l == labels@,
            l.len() == n,
            labels_sound(l, es@),
            forall|k: int| 0 <= k < es@.len() ==> (#[trigger] es@[k]).0 < l.len() && es@[k].1 < l.len() && l[es@[k].0 as int] == l[es@[k].1 as int],
            forall|g: int| 0 <= g < out@.len() ==> (#[trigger] out@[g])@.len() >= 2 && out@[g]@[0] < root
                && l[out@[g]@[0] as int] == out@[g]@[0]
                && forall|y: usize| y < n ==> (out@[g]@.contains(y) <==> l[y as int] == out@[g]@[0]),
            forall|g: int, i: int, j: int| 0 <= g < out@.len() && 0 <= i < j < out@[g]@.len() ==> #[trigger] out@[g]@[i] < #[trigger] out@[g]@[j],
            forall|g1: int, g2: int| 0 <= g1 < g2 < out@.len() ==> #[trigger] out@[g1]@[0] < #[trigger] out@[g2]@[0],
            forall|g: int, i: int| 0 <= g < out@.len() && 0 <= i < out@[g]@.len() ==> #[trigger] out@[g]@[i] < n,
            forall|x: usize| x < n && l[x as int] < root && (exists|y: usize| y < n && y != x && l[y as int] == l[x as int]) ==> exists|g: int| 0 <= g < out@.len() && (#[trigger] out@[g])@.contains(x),
    {
        let ghost old_out = out@;
        if labels[root] == root {
            let mut members: Vec<usize> = Vec::new();
            for y in 0..n
                invariant
                    l == labels@,
                    l.len() == n,
                    root < n,
                    labels_sound(l, es@),
                    forall|i: int| 0 <= i < members@.len() ==> (#[trigger] members@[i]) < y && l[members@[i] as int] == root,
                    forall|i: int, j: int| 0 <= i < j < members@.len() ==> #[trigger] members@[i] < #[trigger] members@[j],
                    forall|z: usize| z < y && l[z as int] == root ==> #[trigger] members@.contains(z),
                    l[root as int] == root,
                    y <= root ==> members@.len() == 0,
                    y > root ==> members@.len() > 0 && members@[0] == root,
            {
                if labels[y] == root {
                    let ghost before = members@;
                    members.push(y);
                    proof {
                        assert forall|z: usize| z < y + 1 && l[z as int] == root implies #[trigger] members@.contains(z) by {
                            if z < y {
                                assert(before.contains(z));
                                let i = choose|i: int| 0 <= i < before.len() && before[i] == z;
                                assert(members@[i] == z);
                            } else {
                                assert(members@[members@.len() - 1] == z);
                            }
                        }
                        if y < root {
                            assert(l[y as int] <= y);
                        }
                    }
                } else {
                    proof {
                        if y == root {
                            assert(false);
                        }
                    }
                }
            }
            if members.len() >= 2 {
                proof {
                    assert forall|z: usize| z < n implies (members@.contains(z) <==> l[z as int] == members@[0]) by {
                        if members@.contains(z) {
                            let i = choose|i: int| 0 <= i < members@.len() && members@[i] == z;
                        }
                    }
                }
                let ghost m = members@;
                out.push(members);
                proof {
                    assert(out@[out@.len() - 1]@ == m);
                    assert forall|x: usize| x < n && l[x as int] < root + 1 && (exists|y: usize| y < n && y != x && l[y as int] == l[x as int]) implies exists|g: int| 0 <= g < out@.len() && (#[trigger] out@[g])@.contains(x) by {
                        if l[x as int] < root {
                            let g = choose|g: int| 0 <= g < old_out.len() && (#[trigger] old_out[g])@.contains(x);
                            assert(out@[g] == old_out[g]);
                        } else {
                            assert(m.contains(x));
                            assert(out@[out@.len() - 1]@.contains(x));
                        }
                    }
                    assert forall|g: int, i: int| 0 <= g < out@.len() && 0 <= i < out@[g]@.len() implies #[trigger] out@[g]@[i] < n by {
                        if g < old_out.len() {
                            assert(out@[g] == old_out[g]);
                        }
                    }
                }
            } else {
                proof {
                    assert forall|x: usize| x < n && l[x as int] == root implies x == root by {
                        assert(members@.contains(x));
                        assert(members@.contains(root));
                        let i = choose|i: int| 0 <= i < members@.len() && members@[i] == x;
                    }
                }
            }
        } else {
            proof {
                assert forall|x: usize| x < n && l[x as int] == root implies false by {
                    lemma_labels_decide(l, es@, x, x);
                }
            }
        }
    }
    let ghost gs = out@.map_values(|g: Vec<usize>| g@);
    proof {
        assert forall|g: int, i: int, j: int|
            0 <= g < gs.len() && 0 <= i < gs[g].len() && 0 <= j < gs[g].len() implies connected(es@, #[trigger] gs[g][i], #[trigger] gs[g][j]) by {
            assert(gs[g] == out@[g]@);
            assert(out@[g]@[i] < n && out@[g]@[j] < n);
            assert(out@[g]@.contains(gs[g][i]) && out@[g]@.contains(gs[g][j]));
            lemma_labels_decide(l, es@, gs[g][i], gs[g][j]);
        }
        assert forall|g: int, i: int, y: usize|
            0 <= g < gs.len() && 0 <= i < gs[g].len() && y < n && connected(es@, #[trigger] gs[g][i], y) implies #[trigger] gs[g].contains(y) by {
            assert(gs[g] == out@[g]@);
            assert(out@[g]@[i] < n);
            assert(out@[g]@.contains(gs[g][i]));
            lemma_labels_decide(l, es@, gs[g][i], y);
        }
        assert forall|x: usize, y: usize|
            x < n && y < n && x != y && #[trigger] connected(es@, x, y) implies exists|g: int| 0 <= g < gs.len() && #[trigger] gs[g].contains(x) by {
            lemma_labels_decide(l, es@, x, y);
            let g = choose|g: int| 0 <= g < out@.len() && (#[trigger] out@[g])@.contains(x);
            assert(gs[g] == out@[g]@);
        }
        assert forall|g: int, i: int| 0 <= g < gs.len() && 0 <= i < gs[g].len() implies #[trigger] gs[g][i] < n by {
            assert(gs[g] == out@[g]@);
            assert(out@[g]@.contains(gs[g][i]));
        }
    }
    out
}

} // verus!
