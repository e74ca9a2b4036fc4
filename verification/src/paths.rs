//! The order in which paths sort: component by component, as `Path`'s comparison
//! does for `/`-separated paths. A leading `/` is a root component, empty and `.`
//! components are skipped (a leading `.` of a relative path is kept), `..` is a parent
//! component, and a root sorts before `.`, `.` before `..`, and `..` before names.
use vstd::prelude::*;

use crate::sorting::{
    chars_le, lemma_chars_le_antisymmetric, lemma_chars_le_reflexive, lemma_chars_le_total,
    lemma_chars_le_transitive,
};
use crate::text::chars_of;

verus! {

/// A path component as a rank (root 1, current 2, parent 3, name 4) and, for a name,
/// its text.
pub type ComponentView = (int, Seq<char>);

/// The `/`-separated pieces of `s`, empty ones included.
pub open spec fn split_slash(s: Seq<char>) -> Seq<Seq<char>>
    decreases s.len(),
{
    if s.len() == 0 {
        seq![seq![]]
    } else {
        let earlier = split_slash(s.drop_last());
        if s.last() == '/' {
            earlier.push(seq![])
        } else {
            earlier.update(earlier.len() - 1, earlier.last().push(s.last()))
        }
    }
}

pub proof fn lemma_split_slash_nonempty(s: Seq<char>)
    ensures
        split_slash(s).len() >= 1,
    decreases s.len(),
{
    if s.len() > 0 {
        lemma_split_slash_nonempty(s.drop_last());
    }
}

/// The component that the piece at position `k` stands for, if any.
pub open spec fn piece_component(piece: Seq<char>, k: int, absolute: bool) -> Option<ComponentView> {
    if piece.len() == 0 {
        None
    } else if piece == seq!['.'] {
        if k == 0 && !absolute {
            Some((2int, Seq::<char>::empty()))
        } else {
            None
        }
    } else if piece == seq!['.', '.'] {
        Some((3int, Seq::<char>::empty()))
    } else {
        Some((4int, piece))
    }
}

/// The components of the first `n` pieces.
pub open spec fn pieces_components(pieces: Seq<Seq<char>>, n: int, absolute: bool) -> Seq<ComponentView>
    decreases n,
{
    if n <= 0 {
        seq![]
    } else {
        let earlier = pieces_components(pieces, n - 1, absolute);
        match piece_component(pieces[n - 1], n - 1, absolute) {
            Some(c) => earlier.push(c),
            None => earlier,
        }
    }
}

/// The components of a path.
pub open spec fn path_components(p: Seq<char>) -> Seq<ComponentView> {
    let absolute = p.len() > 0 && p[0] == '/';
    let pieces = split_slash(p);
    let rest = pieces_components(pieces, pieces.len() as int, absolute);
    if absolute {
        seq![(1int, Seq::<char>::empty())] + rest
    } else {
        rest
    }
}

/// `a` sorts strictly before `b` as a single component.
pub open spec fn component_lt(a: ComponentView, b: ComponentView) -> bool {
    a.0 < b.0 || (a.0 == b.0 && chars_le(a.1, b.1) && a.1 != b.1)
}

/// Lexicographic order of component sequences.
pub open spec fn components_le(a: Seq<ComponentView>, b: Seq<ComponentView>) -> bool
    decreases a.len(),
{
    if a.len() == 0 {
        true
    } else if b.len() == 0 {
        false
    } else if a[0] != b[0] {
        component_lt(a[0], b[0])
    } else {
        components_le(a.drop_first(), b.drop_first())
    }
}

/// `a` sorts at or before `b`.
pub open spec fn path_le(a: Seq<char>, b: Seq<char>) -> bool {
    components_le(path_components(a), path_components(b))
}

proof fn lemma_component_lt_facts(a: ComponentView, b: ComponentView, c: ComponentView)
    ensures
        !component_lt(a, a),
        a != b ==> component_lt(a, b) || component_lt(b, a),
        component_lt(a, b) ==> !component_lt(b, a),
        component_lt(a, b) && component_lt(b, c) ==> component_lt(a, c),
{
    lemma_chars_le_total(a.1, b.1);
    if component_lt(a, b) && component_lt(b, a) {
        lemma_chars_le_antisymmetric(a.1, b.1);
    }
    if component_lt(a, b) && component_lt(b, c) && a.0 == b.0 && b.0 == c.0 {
        lemma_chars_le_transitive(a.1, b.1, c.1);
        if a.1 == c.1 {
            lemma_chars_le_antisymmetric(a.1, b.1);
        }
    }
    if a != b && a.0 == b.0 && a.1 == b.1 {
        assert(a == b);
    }
}

pub proof fn lemma_components_le_reflexive(a: Seq<ComponentView>)
    ensures
        components_le(a, a),
    decreases a.len(),
{
    if a.len() > 0 {
        lemma_components_le_reflexive(a.drop_first());
    }
}

pub proof fn lemma_components_le_total(a: Seq<ComponentView>, b: Seq<ComponentView>)
    ensures
        components_le(a, b) || components_le(b, a),
    decreases a.len(),
{
    if a.len() > 0 && b.len() > 0 {
        if a[0] == b[0] {
            lemma_components_le_total(a.drop_first(), b.drop_first());
        } else {
            lemma_component_lt_facts(a[0], b[0], a[0]);
        }
    }
}

pub proof fn lemma_components_le_transitive(
    a: Seq<ComponentView>,
    b: Seq<ComponentView>,
    c: Seq<ComponentView>,
)
    requires
        components_le(a, b),
        components_le(b, c),
    ensures
        components_le(a, c),
    decreases a.len(),
{
    if a.len() > 0 && b.len() > 0 && c.len() > 0 {
        lemma_component_lt_facts(a[0], b[0], c[0]);
        if a[0] == b[0] && b[0] == c[0] {
            lemma_components_le_transitive(a.drop_first(), b.drop_first(), c.drop_first());
        }
    }
}

/// Path order is a total preorder.
pub proof fn lemma_path_le_total_preorder()
    ensures
        crate::sorting::total_preorder(|a: Seq<char>, b: Seq<char>| path_le(a, b)),
{
    assert forall|a: Seq<char>| #[trigger] path_le(a, a) by {
        lemma_components_le_reflexive(path_components(a));
    }
    assert forall|a: Seq<char>, b: Seq<char>, c: Seq<char>| #[trigger] path_le(a, b) && #[trigger] path_le(b, c) implies path_le(a, c) by {
        lemma_components_le_transitive(path_components(a), path_components(b), path_components(c));
    }
    assert forall|a: Seq<char>, b: Seq<char>| #[trigger] path_le(a, b) || path_le(b, a) by {
        lemma_components_le_total(path_components(a), path_components(b));
    }
}

/// An executable path component.
pub struct Component {
    pub rank: u8,
    pub text: Vec<char>,
}

pub open spec fn component_view(c: Component) -> ComponentView {
    (c.rank as int, c.text@)
}

pub open spec fn components_view(cs: Seq<Component>) -> Seq<ComponentView> {
    cs.map_values(|c: Component| component_view(c))
}

fn is_dot(piece: &Vec<char>) -> (r: bool)
    ensures
        r == (piece@ == seq!['.']),
{
    if piece.len() == 1 && piece[0] == '.' {
        assert(piece@ =~= seq!['.']);
        true
    } else {
        false
    }
}

fn is_dot_dot(piece: &Vec<char>) -> (r: bool)
    ensures
        r == (piece@ == seq!['.', '.']),
{
    if piece.len() == 2 && piece[0] == '.' && piece[1] == '.' {
        assert(piece@ =~= seq!['.', '.']);
        true
    } else {
        false
    }
}

fn push_piece(out: &mut Vec<Component>, piece: Vec<char>, k: usize, absolute: bool)
    ensures
        components_view(final(out)@) == match piece_component(piece@, k as int, absolute) {
            Some(c) => components_view(old(out)@).push(c),
            None => components_view(old(out)@),
        },
{
    let ghost before = components_view(out@);
    if piece.len() == 0 {
        return;
    }
    if is_dot(&piece) {
        if k == 0 && !absolute {
            out.push(Component { rank: 2, text: Vec::new() });
            assert(components_view(out@) =~= before.push((2int, Seq::<char>::empty())));
        }
        return;
    }
    if is_dot_dot(&piece) {
        out.push(Component { rank: 3, text: Vec::new() });
        assert(components_view(out@) =~= before.push((3int, Seq::<char>::empty())));
        return;
    }
    let ghost text = piece@;
    out.push(Component { rank: 4, text: piece });
    assert(components_view(out@) =~= before.push((4int, text)));
}

/// The components of `path`.
pub fn components_of(path: &str) -> (r: Vec<Component>)
    ensures
        components_view(r@) == path_components(path@),
{
    let chars = chars_of(path);
    let absolute = chars.len() > 0 && chars[0] == '/';
    let mut out: Vec<Component> = Vec::new();
    if absolute {
        out.push(Component { rank: 1, text: Vec::new() });
    }
    let ghost lead: Seq<ComponentView> = if absolute {
        seq![(1int, Seq::<char>::empty())]
    } else {
        seq![]
    };
    assert(components_view(out@) =~= lead);
    let mut current: Vec<char> = Vec::new();
    let mut k: usize = 0;
    for i in 0..chars.len()
        invariant
            absolute == (chars@.len() > 0 && chars@[0] == '/'),
            lead == (if absolute {
                seq![(1int, Seq::<char>::empty())]
            } else {
                seq![]
            }),
            split_slash(chars@.take(i as int)).len() == k + 1,
            split_slash(chars@.take(i as int)).last() == current@,
            components_view(out@) == lead + pieces_components(
                split_slash(chars@.take(i as int)),
                k as int,
                absolute,
            ),
            k <= i,
    {
        let c = chars[i];
        let ghost prefix = chars@.take(i + 1);
        let ghost pieces_before = split_slash(chars@.take(i as int));
        assert(prefix.drop_last() =~= chars@.take(i as int));
        assert(prefix.last() == c);
        if c == '/' {
            let piece = current;
            current = Vec::new();
            let ghost piece_view = piece@;
            push_piece(&mut out, piece, k, absolute);
            proof {
                let pieces_after = split_slash(prefix);
                assert(pieces_after == pieces_before.push(seq![]));
                assert forall|n: int| 0 <= n <= k + 1 implies pieces_components(pieces_after, n, absolute)
                    == pieces_components(pieces_before, n, absolute) by {
                    lemma_pieces_components_prefix(pieces_after, pieces_before, n, absolute);
                }
                assert(pieces_before[k as int] == piece_view);
            }
            k = k + 1;
        } else {
            current.push(c);
            proof {
                let pieces_after = split_slash(prefix);
                assert(pieces_after == pieces_before.update(k as int, pieces_before[k as int].push(c)));
                assert forall|n: int| 0 <= n <= k implies pieces_components(pieces_after, n, absolute)
                    == pieces_components(pieces_before, n, absolute) by {
                    lemma_pieces_components_prefix(pieces_after, pieces_before, n, absolute);
                }
            }
        }
    }
    assert(chars@.take(chars@.len() as int) =~= chars@);
    let ghost pieces = split_slash(chars@);
    push_piece(&mut out, current, k, absolute);
    proof {
        assert(pieces.len() == k + 1);
        assert(components_view(out@) =~= lead + pieces_components(pieces, pieces.len() as int, absolute));
    }
    out
}

proof fn lemma_pieces_components_prefix(a: Seq<Seq<char>>, b: Seq<Seq<char>>, n: int, absolute: bool)
    requires
        0 <= n <= a.len(),
        n <= b.len(),
        forall|j: int| 0 <= j < n ==> a[j] == b[j],
    ensures
        pieces_components(a, n, absolute) == pieces_components(b, n, absolute),
    decreases n,
{
    if n > 0 {
        lemma_pieces_components_prefix(a, b, n - 1, absolute);
    }
}

fn component_lt_exec(a: &Component, b: &Component) -> (r: bool)
    ensures
        r == component_lt(component_view(*a), component_view(*b)),
{
    if a.rank != b.rank {
        return a.rank < b.rank;
    }
    crate::sorting::chars_slice_le(a.text.as_slice(), b.text.as_slice()) && !crate::text::chars_eq(
        a.text.as_slice(),
        b.text.as_slice(),
    )
}

fn component_eq_exec(a: &Component, b: &Component) -> (r: bool)
    ensures
        r == (component_view(*a) == component_view(*b)),
{
    a.rank == b.rank && crate::text::chars_eq(a.text.as_slice(), b.text.as_slice())
}

/// `a` sorts at or before `b` in path order.
pub fn path_le_exec(a: &str, b: &str) -> (r: bool)
    ensures
        r == path_le(a@, b@),
{
    let ca = components_of(a);
    let cb = components_of(b);
    let ghost va = components_view(ca@);
    let ghost vb = components_view(cb@);
    let mut i: usize = 0;
    assert(va.skip(0) =~= va);
    assert(vb.skip(0) =~= vb);
    while i < ca.len() && i < cb.len() && component_eq_exec(&ca[i], &cb[i])
        invariant
            va == components_view(ca@),
            vb == components_view(cb@),
            i <= ca@.len(),
            i <= cb@.len(),
            components_le(va, vb) == components_le(va.skip(i as int), vb.skip(i as int)),
        decreases ca.len() - i,
    {
        assert(va.skip(i as int).drop_first() =~= va.skip(i + 1));
        assert(vb.skip(i as int).drop_first() =~= vb.skip(i + 1));
        i = i + 1;
    }
    if i == ca.len() {
        true
    } else if i == cb.len() {
        false
    } else {
        component_lt_exec(&ca[i], &cb[i])
    }
}


/// Whether two paths are equal as `Path`s are: component by component.
pub fn path_eq_exec(a: &str, b: &str) -> (r: bool)
    ensures
        r == (path_components(a@) == path_components(b@)),
{
    let ca = components_of(a);
    let cb = components_of(b);
    let ghost va = components_view(ca@);
    let ghost vb = components_view(cb@);
    if ca.len() != cb.len() {
        assert(va.len() != vb.len());
        return false;
    }
    for i in 0..ca.len()
        invariant
            va == components_view(ca@),
            vb == components_view(cb@),
            ca@.len() == cb@.len(),
            va == path_components(a@),
            vb == path_components(b@),
            forall|j: int| 0 <= j < i ==> va[j] == vb[j],
    {
        if !component_eq_exec(&ca[i], &cb[i]) {
            assert(va[i as int] != vb[i as int]);
            return false;
        }
    }
    assert(va =~= vb);
    true
}

} // verus!
