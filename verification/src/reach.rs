//! Paths through a grid: which cells can be reached from which by steps
//! between neighbouring open cells.

use vstd::prelude::*;

verus! {

/// A grid position: column, then row.
pub type Pos = (int, int);

/// Two positions that share an edge.
pub open spec fn adjacent(a: Pos, b: Pos) -> bool {
    ||| (a.0 == b.0 && (a.1 == b.1 + 1 || b.1 == a.1 + 1))
    ||| (a.1 == b.1 && (a.0 == b.0 + 1 || b.0 == a.0 + 1))
}

/// A walk over open positions that moves to a neighbour at every step.
pub open spec fn is_path(open: Set<Pos>, path: Seq<Pos>) -> bool {
    &&& path.len() >= 1
    &&& forall|i: int| 0 <= i < path.len() ==> open.contains(#[trigger] path[i])
    &&& forall|i: int| 0 <= i < path.len() - 1 ==> adjacent(#[trigger] path[i], path[i + 1])
}

/// Some path over open positions leads from `a` to `b`.
pub open spec fn connected(open: Set<Pos>, a: Pos, b: Pos) -> bool {
    exists|path: Seq<Pos>| #[trigger] is_path(open, path) && path[0] == a && path.last() == b
}

/// An open position is connected to itself.
pub proof fn lemma_connected_self(open: Set<Pos>, a: Pos)
    requires
        open.contains(a),
    ensures
        connected(open, a, a),
{
    let path = seq![a];
    assert(is_path(open, path));
    assert(path[0] == a && path.last() == a);
}

/// Opening more positions keeps what was connected.
pub proof fn lemma_connected_grows(open: Set<Pos>, more: Set<Pos>, a: Pos, b: Pos)
    requires
        connected(open, a, b),
        open.subset_of(more),
    ensures
        connected(more, a, b),
{
    let path = choose|path: Seq<Pos>| #[trigger] is_path(open, path) && path[0] == a && path.last() == b;
    assert(is_path(more, path));
}

/// A connection can be extended by one step to an open neighbour.
pub proof fn lemma_connected_step(open: Set<Pos>, a: Pos, b: Pos, c: Pos)
    requires
        connected(open, a, b),
        adjacent(b, c),
        open.contains(c),
    ensures
        connected(open, a, c),
{
    let path = choose|path: Seq<Pos>| #[trigger] is_path(open, path) && path[0] == a && path.last() == b;
    let longer = path.push(c);
    assert forall|i: int| 0 <= i < longer.len() implies open.contains(#[trigger] longer[i]) by {
        if i < path.len() {
            assert(longer[i] == path[i]);
        }
    }
    assert forall|i: int| 0 <= i < longer.len() - 1 implies adjacent(
        #[trigger] longer[i],
        longer[i + 1],
    ) by {
        if i < path.len() - 1 {
            assert(longer[i] == path[i] && longer[i + 1] == path[i + 1]);
        } else {
            assert(longer[i] == path.last());
        }
    }
    assert(is_path(open, longer));
    assert(longer[0] == a && longer.last() == c);
}

} // verus!
