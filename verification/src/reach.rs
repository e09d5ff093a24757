//! Walking on the map: paths over floor cells and which cells are connected.

use crate::grid::Grid;
use vstd::prelude::*;

verus! {

/// Whether two cells share an edge.
pub open spec fn adjacent(a: (int, int), b: (int, int)) -> bool {
    ||| a.0 == b.0 && (a.1 == b.1 + 1 || b.1 == a.1 + 1)
    ||| a.1 == b.1 && (a.0 == b.0 + 1 || b.0 == a.0 + 1)
}

/// Whether `path` is a walk over floor cells of `map` in which each cell
/// shares an edge with the next.
pub open spec fn is_path(map: Grid, path: Seq<(int, int)>) -> bool {
    &&& path.len() > 0
    &&& forall|i: int| 0 <= i < path.len() ==> map.is_floor((#[trigger] path[i]).0, path[i].1)
    &&& forall|i: int| 0 <= i < path.len() - 1 ==> adjacent(#[trigger] path[i], path[i + 1])
}

/// Whether one can walk from `a` to `b` over floor cells of `map`.
pub open spec fn connected(map: Grid, a: (int, int), b: (int, int)) -> bool {
    exists|path: Seq<(int, int)>| #[trigger]
        is_path(map, path) && path[0] == a && path.last() == b
}

/// Whether every floor cell of `map` can be reached from `origin`.
pub open spec fn all_floor_reachable_from(map: Grid, origin: (int, int)) -> bool {
    forall|x: int, y: int| #[trigger] map.is_floor(x, y) ==> connected(map, origin, (x, y))
}

/// Whether every floor cell of `before` is a floor cell of `after`.
pub open spec fn floor_kept(before: Grid, after: Grid) -> bool {
    forall|x: int, y: int| before.is_floor(x, y) ==> #[trigger] after.is_floor(x, y)
}

/// A floor cell is connected to itself.
pub proof fn lemma_connected_refl(map: Grid, a: (int, int))
    requires
        map.is_floor(a.0, a.1),
    ensures
        connected(map, a, a),
{
    let path = seq![a];
    assert(is_path(map, path));
    assert(path[0] == a && path.last() == a);
}

/// Two neighbouring floor cells are connected.
pub proof fn lemma_connected_step(map: Grid, a: (int, int), b: (int, int))
    requires
        map.is_floor(a.0, a.1),
        map.is_floor(b.0, b.1),
        adjacent(a, b),
    ensures
        connected(map, a, b),
{
    let path = seq![a, b];
    assert(is_path(map, path));
    assert(path[0] == a && path.last() == b);
}

/// A walk can be taken backwards.
pub proof fn lemma_connected_sym(map: Grid, a: (int, int), b: (int, int))
    requires
        connected(map, a, b),
    ensures
        connected(map, b, a),
{
    let path = choose|path: Seq<(int, int)>| #[trigger]
        is_path(map, path) && path[0] == a && path.last() == b;
    let back = Seq::new(path.len(), |i: int| path[path.len() - 1 - i]);
    assert forall|i: int| 0 <= i < back.len() - 1 implies adjacent(#[trigger] back[i], back[i + 1]) by {
        let j = path.len() - 2 - i;
        assert(adjacent(path[j], path[j + 1]));
    }
    assert(is_path(map, back));
    assert(back[0] == b && back.last() == a);
}

/// Two walks that meet can be joined.
pub proof fn lemma_connected_trans(map: Grid, a: (int, int), b: (int, int), c: (int, int))
    requires
        connected(map, a, b),
        connected(map, b, c),
    ensures
        connected(map, a, c),
{
    let p = choose|path: Seq<(int, int)>| #[trigger]
        is_path(map, path) && path[0] == a && path.last() == b;
    let q = choose|path: Seq<(int, int)>| #[trigger]
        is_path(map, path) && path[0] == b && path.last() == c;
    let joined = p + q.skip(1);
    assert forall|i: int| 0 <= i < joined.len() implies map.is_floor(
        (#[trigger] joined[i]).0,
        joined[i].1,
    ) by {
        if i < p.len() {
            assert(joined[i] == p[i]);
        } else {
            assert(joined[i] == q[i - p.len() + 1]);
        }
    }
    assert forall|i: int| 0 <= i < joined.len() - 1 implies adjacent(
        #[trigger] joined[i],
        joined[i + 1],
    ) by {
        if i < p.len() - 1 {
            assert(adjacent(p[i], p[i + 1]));
        } else if i == p.len() - 1 {
            assert(joined[i] == q[0]);
            assert(joined[i + 1] == q[1]);
            assert(adjacent(q[0], q[0int + 1]));
        } else {
            let j = i - p.len() + 1;
            assert(joined[i] == q[j]);
            assert(joined[i + 1] == q[j + 1]);
            assert(adjacent(q[j], q[j + 1]));
        }
    }
    assert(is_path(map, joined));
    assert(joined[0] == a);
    assert(joined.last() == c) by {
        if q.len() == 1 {
            assert(joined =~= p);
        } else {
            assert(joined.last() == q[q.len() - 1]);
        }
    }
}

/// Carving more floor never disconnects cells.
pub proof fn lemma_connected_mono(before: Grid, after: Grid, a: (int, int), b: (int, int))
    requires
        floor_kept(before, after),
        connected(before, a, b),
    ensures
        connected(after, a, b),
{
    let path = choose|path: Seq<(int, int)>| #[trigger]
        is_path(before, path) && path[0] == a && path.last() == b;
    assert forall|i: int| 0 <= i < path.len() implies after.is_floor(
        (#[trigger] path[i]).0,
        path[i].1,
    ) by {
        assert(before.is_floor(path[i].0, path[i].1));
    }
    assert(is_path(after, path));
}

/// The ends of a horizontal run of floor cells are connected.
pub proof fn lemma_row_connected(map: Grid, x1: int, x2: int, y: int)
    requires
        forall|x: int| (x1 <= x <= x2 || x2 <= x <= x1) ==> #[trigger] map.is_floor(x, y),
    ensures
        connected(map, (x1, y), (x2, y)),
    decreases
            if x1 <= x2 {
                x2 - x1
            } else {
                x1 - x2
            },
{
    assert(map.is_floor(x1, y));
    assert(map.is_floor(x2, y));
    if x1 == x2 {
        lemma_connected_refl(map, (x1, y));
    } else {
        let next = if x1 < x2 {
            x1 + 1
        } else {
            x1 - 1
        };
        assert(map.is_floor(next, y));
        lemma_row_connected(map, next, x2, y);
        lemma_connected_step(map, (x1, y), (next, y));
        lemma_connected_trans(map, (x1, y), (next, y), (x2, y));
    }
}

/// The ends of a vertical run of floor cells are connected.
pub proof fn lemma_column_connected(map: Grid, y1: int, y2: int, x: int)
    requires
        forall|y: int| (y1 <= y <= y2 || y2 <= y <= y1) ==> #[trigger] map.is_floor(x, y),
    ensures
        connected(map, (x, y1), (x, y2)),
    decreases
            if y1 <= y2 {
                y2 - y1
            } else {
                y1 - y2
            },
{
    assert(map.is_floor(x, y1));
    assert(map.is_floor(x, y2));
    if y1 == y2 {
        lemma_connected_refl(map, (x, y1));
    } else {
        let next = if y1 < y2 {
            y1 + 1
        } else {
            y1 - 1
        };
        assert(map.is_floor(x, next));
        lemma_column_connected(map, next, y2, x);
        lemma_connected_step(map, (x, y1), (x, next));
        lemma_connected_trans(map, (x, y1), (x, next), (x, y2));
    }
}

} // verus!
