//! Reachability over a floor's carved cells: the specification of
//! connectedness that the floor generator is proved to establish.

use vstd::prelude::*;

use crate::map::{in_grid, FloorMap};

verus! {

/// A carved cell: on the grid, with nothing stacked on it. Generation
/// starts from a grid of wall fixtures and only ever replaces tiles by
/// carved ones, so a cell is open exactly when it has been carved.
pub open spec fn open_cell(map: FloorMap, x: int, y: int) -> bool {
    in_grid(x, y) && map@[x]@[y].items@.len() == 0
}

/// The two cells share an edge.
pub open spec fn step_adj(a: (int, int), b: (int, int)) -> bool {
    ||| (a.0 == b.0 && (a.1 == b.1 + 1 || a.1 + 1 == b.1))
    ||| (a.1 == b.1 && (a.0 == b.0 + 1 || a.0 + 1 == b.0))
}

/// A walk over open cells, each step to an edge-adjacent cell.
pub open spec fn is_path(map: FloorMap, p: Seq<(int, int)>) -> bool {
    &&& forall|i: int| 0 <= i < p.len() ==> open_cell(map, (#[trigger] p[i]).0, p[i].1)
    &&& forall|i: int| 0 <= i < p.len() - 1 ==> step_adj(#[trigger] p[i], p[i + 1])
}

/// `b` can be reached from `a` over open cells alone.
pub open spec fn reach(map: FloorMap, a: (int, int), b: (int, int)) -> bool {
    exists|p: Seq<(int, int)>|
        #![all_triggers]
        is_path(map, p) && p.len() >= 1 && p[0] == a && p.last() == b
}

/// An open cell reaches itself.
pub proof fn lemma_reach_self(map: FloorMap, a: (int, int))
    requires
        open_cell(map, a.0, a.1),
    ensures
        reach(map, a, a),
{
    let p = seq![a];
    assert(is_path(map, p));
    assert(p[0] == a && p.last() == a);
}

/// One step between adjacent open cells is a reach.
pub proof fn lemma_reach_step(map: FloorMap, a: (int, int), b: (int, int))
    requires
        open_cell(map, a.0, a.1),
        open_cell(map, b.0, b.1),
        step_adj(a, b),
    ensures
        reach(map, a, b),
{
    let p = seq![a, b];
    assert(is_path(map, p));
    assert(p[0] == a && p.last() == b);
}

/// Reaches chain together.
pub proof fn lemma_reach_trans(map: FloorMap, a: (int, int), b: (int, int), c: (int, int))
    requires
        reach(map, a, b),
        reach(map, b, c),
    ensures
        reach(map, a, c),
{
    let p1 = choose|p: Seq<(int, int)>|
        #![all_triggers]
        is_path(map, p) && p.len() >= 1 && p[0] == a && p.last() == b;
    let p2 = choose|p: Seq<(int, int)>|
        #![all_triggers]
        is_path(map, p) && p.len() >= 1 && p[0] == b && p.last() == c;
    let q = p1 + p2.skip(1);
    if p2.len() == 1 {
        assert(q =~= p1);
        assert(q.last() == c);
    } else {
        assert(q.len() == p1.len() + p2.len() - 1);
        assert forall|i: int| 0 <= i < q.len() implies open_cell(
            map,
            (#[trigger] q[i]).0,
            q[i].1,
        ) by {
            if i < p1.len() {
                assert(q[i] == p1[i]);
            } else {
                assert(q[i] == p2[i - p1.len() + 1]);
            }
        }
        assert forall|i: int| 0 <= i < q.len() - 1 implies step_adj(
            #[trigger] q[i],
            q[i + 1],
        ) by {
            if i + 1 < p1.len() {
                assert(q[i] == p1[i] && q[i + 1] == p1[i + 1]);
            } else if i + 1 == p1.len() {
                assert(q[i] == p1[i] && p1[i] == p1.last());
                assert(q[i + 1] == p2[1]);
                assert(step_adj(p2[0], p2[1]));
            } else {
                assert(q[i] == p2[i - p1.len() + 1] && q[i + 1] == p2[i - p1.len() + 2]);
            }
        }
        assert(q[0] == a);
        assert(q.last() == p2.last());
    }
}

/// A reach read backwards is a reach.
pub proof fn lemma_reach_sym(map: FloorMap, a: (int, int), b: (int, int))
    requires
        reach(map, a, b),
    ensures
        reach(map, b, a),
{
    let p = choose|p: Seq<(int, int)>|
        #![all_triggers]
        is_path(map, p) && p.len() >= 1 && p[0] == a && p.last() == b;
    let q = Seq::new(p.len(), |i: int| p[p.len() - 1 - i]);
    assert forall|i: int| 0 <= i < q.len() - 1 implies step_adj(#[trigger] q[i], q[i + 1]) by {
        assert(q[i] == p[p.len() - 1 - i]);
        assert(q[i + 1] == p[p.len() - 2 - i]);
        assert(step_adj(p[p.len() - 2 - i], p[p.len() - 1 - i]));
    }
    assert(q[0] == b);
    assert(q.last() == a);
}

/// Opening more cells never breaks a reach: any map whose open cells
/// include the old ones keeps every old path.
pub proof fn lemma_reach_mono(m0: FloorMap, m1: FloorMap, a: (int, int), b: (int, int))
    requires
        forall|x: int, y: int| open_cell(m0, x, y) ==> open_cell(m1, x, y),
        reach(m0, a, b),
    ensures
        reach(m1, a, b),
{
    let p = choose|p: Seq<(int, int)>|
        #![all_triggers]
        is_path(m0, p) && p.len() >= 1 && p[0] == a && p.last() == b;
    assert forall|i: int| 0 <= i < p.len() implies open_cell(m1, (#[trigger] p[i]).0, p[i].1) by {
        assert(open_cell(m0, p[i].0, p[i].1));
    }
    assert(is_path(m1, p));
}

/// A fully open horizontal segment joins its two end cells.
pub proof fn lemma_reach_horizontal(map: FloorMap, x1: int, x2: int, y: int)
    requires
        x1 <= x2,
        forall|x: int| x1 <= x <= x2 ==> open_cell(map, x, y),
    ensures
        reach(map, (x1, y), (x2, y)),
    decreases x2 - x1,
{
    if x1 == x2 {
        lemma_reach_self(map, (x1, y));
    } else {
        lemma_reach_horizontal(map, x1, x2 - 1, y);
        lemma_reach_step(map, (x2 - 1, y), (x2, y));
        lemma_reach_trans(map, (x1, y), (x2 - 1, y), (x2, y));
    }
}

/// A fully open vertical segment joins its two end cells.
pub proof fn lemma_reach_vertical(map: FloorMap, x: int, y1: int, y2: int)
    requires
        y1 <= y2,
        forall|y: int| y1 <= y <= y2 ==> open_cell(map, x, y),
    ensures
        reach(map, (x, y1), (x, y2)),
    decreases y2 - y1,
{
    if y1 == y2 {
        lemma_reach_self(map, (x, y1));
    } else {
        lemma_reach_vertical(map, x, y1, y2 - 1);
        lemma_reach_step(map, (x, y2 - 1), (x, y2));
        lemma_reach_trans(map, (x, y1), (x, y2 - 1), (x, y2));
    }
}

/// Within a fully open rectangle, any two cells reach each other, by an
/// L-shaped route inside the rectangle.
pub proof fn lemma_reach_rect(
    map: FloorMap,
    x1: int,
    y1: int,
    x2: int,
    y2: int,
    a: (int, int),
    b: (int, int),
)
    requires
        forall|x: int, y: int| x1 <= x < x2 && y1 <= y < y2 ==> open_cell(map, x, y),
        x1 <= a.0 < x2,
        y1 <= a.1 < y2,
        x1 <= b.0 < x2,
        y1 <= b.1 < y2,
    ensures
        reach(map, a, b),
{
    let corner = (b.0, a.1);
    if a.0 <= b.0 {
        lemma_reach_horizontal(map, a.0, b.0, a.1);
    } else {
        lemma_reach_horizontal(map, b.0, a.0, a.1);
        lemma_reach_sym(map, (b.0, a.1), (a.0, a.1));
    }
    if a.1 <= b.1 {
        lemma_reach_vertical(map, b.0, a.1, b.1);
    } else {
        lemma_reach_vertical(map, b.0, b.1, a.1);
        lemma_reach_sym(map, (b.0, b.1), (b.0, a.1));
    }
    lemma_reach_trans(map, a, corner, b);
}

} // verus!
