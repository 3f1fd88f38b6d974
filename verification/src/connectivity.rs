//! Reachability over Floor tiles: a path is a sequence of orthogonally
//! adjacent in-bounds Floor cells. The dungeon builder uses these lemmas to
//! show that every accepted room is reachable from the first one.

use vstd::prelude::*;

use crate::map::TileMap;

verus! {

/// Two cells are orthogonally adjacent (they differ by one step on exactly
/// one axis).
pub open spec fn adjacent(a: (int, int), b: (int, int)) -> bool {
    (a.0 == b.0 && (b.1 == a.1 + 1 || a.1 == b.1 + 1)) || (a.1 == b.1 && (b.0 == a.0 + 1
        || a.0 == b.0 + 1))
}

/// Every cell of the sequence is an in-bounds Floor cell and consecutive
/// cells are adjacent.
pub open spec fn floor_path(m: TileMap, p: Seq<(int, int)>) -> bool {
    &&& p.len() >= 1
    &&& forall|i: int| 0 <= i < p.len() ==> m.floor_at((#[trigger] p[i]).0, p[i].1)
    &&& forall|i: int| 0 <= i < p.len() - 1 ==> adjacent(#[trigger] p[i], p[i + 1])
}

/// Cell b is reachable from cell a over Floor tiles.
pub open spec fn connected(m: TileMap, a: (int, int), b: (int, int)) -> bool {
    exists|p: Seq<(int, int)>| #[trigger] floor_path(m, p) && p[0] == a && p[p.len() - 1] == b
}

/// A Floor cell is reachable from itself.
pub proof fn lemma_connected_self(m: TileMap, a: (int, int))
    requires
        m.floor_at(a.0, a.1),
    ensures
        connected(m, a, a),
{
    let p = seq![a];
    assert(floor_path(m, p) && p[0] == a && p[p.len() - 1] == a);
}

/// Reachability is transitive: paths concatenate.
pub proof fn lemma_connected_trans(m: TileMap, a: (int, int), b: (int, int), c: (int, int))
    requires
        connected(m, a, b),
        connected(m, b, c),
    ensures
        connected(m, a, c),
{
    let p1 = choose|p: Seq<(int, int)>| #[trigger] floor_path(m, p) && p[0] == a && p[p.len() - 1]
        == b;
    let p2 = choose|p: Seq<(int, int)>| #[trigger] floor_path(m, p) && p[0] == b && p[p.len() - 1]
        == c;
    let q = p1 + p2.subrange(1, p2.len() as int);
    assert(q.len() == p1.len() + p2.len() - 1);
    assert forall|i: int| 0 <= i < q.len() implies m.floor_at((#[trigger] q[i]).0, q[i].1) by {
        if i < p1.len() {
            assert(q[i] == p1[i]);
        } else {
            assert(q[i] == p2[i - p1.len() + 1]);
        }
    }
    assert forall|i: int| 0 <= i < q.len() - 1 implies adjacent(#[trigger] q[i], q[i + 1]) by {
        if i + 1 < p1.len() {
            assert(q[i] == p1[i] && q[i + 1] == p1[i + 1]);
        } else if i + 1 == p1.len() {
            assert(q[i] == p1[p1.len() - 1]);
            assert(q[i + 1] == p2[1]);
            assert(adjacent(p2[0], p2[1]));
        } else {
            assert(q[i] == p2[i - p1.len() + 1] && q[i + 1] == p2[i - p1.len() + 2]);
        }
    }
    assert(q[0] == a && q[q.len() - 1] == c);
    assert(floor_path(m, q));
}

/// Carving can only add Floor cells, so reachability survives any later
/// carve: whatever was connected stays connected.
pub proof fn lemma_connected_monotone(m1: TileMap, m2: TileMap, a: (int, int), b: (int, int))
    requires
        connected(m1, a, b),
        forall|x: int, y: int| #[trigger] m1.floor_at(x, y) ==> m2.floor_at(x, y),
    ensures
        connected(m2, a, b),
{
    let p = choose|p: Seq<(int, int)>| #[trigger] floor_path(m1, p) && p[0] == a && p[p.len() - 1]
        == b;
    assert forall|i: int| 0 <= i < p.len() implies m2.floor_at((#[trigger] p[i]).0, p[i].1) by {
        assert(m1.floor_at(p[i].0, p[i].1));
    }
    assert(floor_path(m2, p));
}

/// The two ends of an all-Floor horizontal segment are mutually reachable.
pub proof fn lemma_horizontal_connected(m: TileMap, x1: int, x2: int, y: int)
    requires
        forall|x: int| x1 <= x <= x2 || x2 <= x <= x1 ==> m.floor_at(x, y),
    ensures
        connected(m, (x1, y), (x2, y)),
{
    let lo = if x1 < x2 {
        x1
    } else {
        x2
    };
    let n = (if x1 < x2 {
        x2 - x1
    } else {
        x1 - x2
    } + 1) as nat;
    if x1 <= x2 {
        let p = Seq::new(n, |i: int| (x1 + i, y));
        assert(floor_path(m, p) && p[0] == (x1, y) && p[p.len() - 1] == (x2, y));
    } else {
        let p = Seq::new(n, |i: int| (x1 - i, y));
        assert(floor_path(m, p) && p[0] == (x1, y) && p[p.len() - 1] == (x2, y));
    }
}

/// The two ends of an all-Floor vertical segment are mutually reachable.
pub proof fn lemma_vertical_connected(m: TileMap, y1: int, y2: int, x: int)
    requires
        forall|y: int| y1 <= y <= y2 || y2 <= y <= y1 ==> m.floor_at(x, y),
    ensures
        connected(m, (x, y1), (x, y2)),
{
    let n = (if y1 < y2 {
        y2 - y1
    } else {
        y1 - y2
    } + 1) as nat;
    if y1 <= y2 {
        let p = Seq::new(n, |i: int| (x, y1 + i));
        assert(floor_path(m, p) && p[0] == (x, y1) && p[p.len() - 1] == (x, y2));
    } else {
        let p = Seq::new(n, |i: int| (x, y1 - i));
        assert(floor_path(m, p) && p[0] == (x, y1) && p[p.len() - 1] == (x, y2));
    }
}

} // verus!
