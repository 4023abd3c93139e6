use vstd::prelude::*;
use crate::tile::{in_bounds, Tile};

verus! {

/// The cell lies on the grid and can be walked on.
pub open spec fn open_at(grid: Seq<Seq<Tile>>, x: int, y: int) -> bool {
    in_bounds(grid, x, y) && !grid[x][y].blocked
}

/// The two cells share an edge.
pub open spec fn adjacent(a: (int, int), b: (int, int)) -> bool {
    ||| a.0 == b.0 && (a.1 == b.1 + 1 || b.1 == a.1 + 1)
    ||| a.1 == b.1 && (a.0 == b.0 + 1 || b.0 == a.0 + 1)
}

/// The cells of `path` can be walked in turn: each is open, and each but
/// the first shares an edge with the one before it.
pub open spec fn is_walk(grid: Seq<Seq<Tile>>, path: Seq<(int, int)>) -> bool {
    &&& path.len() > 0
    &&& forall|i: int| 0 <= i < path.len() ==> open_at(grid, (#[trigger] path[i]).0, path[i].1)
    &&& forall|i: int| 0 <= i < path.len() - 1 ==> adjacent(#[trigger] path[i], path[i + 1])
}

/// `path` is a walk from `a` to `b`.
pub open spec fn walks(grid: Seq<Seq<Tile>>, path: Seq<(int, int)>, a: (int, int), b: (int, int)) -> bool {
    is_walk(grid, path) && path[0] == a && path[path.len() - 1] == b
}

/// One can walk from `a` to `b` over open cells, moving up, down, left or
/// right.
pub open spec fn connected(grid: Seq<Seq<Tile>>, a: (int, int), b: (int, int)) -> bool {
    exists|path: Seq<(int, int)>| #[trigger] walks(grid, path, a, b)
}

/// Every open cell of the grid can be reached from `from`.
pub open spec fn all_reachable(grid: Seq<Seq<Tile>>, from: (int, int)) -> bool {
    forall|x: int, y: int| #[trigger] open_at(grid, x, y) ==> connected(grid, from, (x, y))
}

/// Every open cell of `before` is open in `after` as well.
pub open spec fn opens_more(before: Seq<Seq<Tile>>, after: Seq<Seq<Tile>>) -> bool {
    forall|x: int, y: int| #[trigger] open_at(before, x, y) ==> open_at(after, x, y)
}

/// An open cell is connected to itself.
pub proof fn lemma_connected_refl(grid: Seq<Seq<Tile>>, a: (int, int))
    requires
        open_at(grid, a.0, a.1),
    ensures
        connected(grid, a, a),
{
    let path = seq![a];
    assert(walks(grid, path, a, a));
}

/// A walk can be extended by one open neighbour of its end.
pub proof fn lemma_connected_step(grid: Seq<Seq<Tile>>, a: (int, int), b: (int, int), c: (int, int))
    requires
        connected(grid, a, b),
        adjacent(b, c),
        open_at(grid, c.0, c.1),
    ensures
        connected(grid, a, c),
{
    let path = choose|path: Seq<(int, int)>| #[trigger] walks(grid, path, a, b);
    let longer = path.push(c);
    assert forall|i: int| 0 <= i < longer.len() implies open_at(
        grid,
        (#[trigger] longer[i]).0,
        longer[i].1,
    ) by {
        if i < path.len() {
            assert(longer[i] == path[i]);
        }
    }
    assert forall|i: int| 0 <= i < longer.len() - 1 implies adjacent(
        #[trigger] longer[i],
        longer[i + 1],
    ) by {
        if i < path.len() - 1 {
            assert(longer[i] == path[i]);
            assert(longer[i + 1] == path[i + 1]);
        }
    }
    assert(walks(grid, longer, a, c));
}

/// Two walks that meet can be joined.
pub proof fn lemma_connected_trans(grid: Seq<Seq<Tile>>, a: (int, int), b: (int, int), c: (int, int))
    requires
        connected(grid, a, b),
        connected(grid, b, c),
    ensures
        connected(grid, a, c),
{
    let second = choose|path: Seq<(int, int)>| #[trigger] walks(grid, path, b, c);
    lemma_join(grid, a, b, second, second.len() as int);
}

/// Whatever is connected to the start of a walk is connected to each cell
/// of it.
proof fn lemma_join(grid: Seq<Seq<Tile>>, a: (int, int), b: (int, int), path: Seq<(int, int)>, n: int)
    requires
        connected(grid, a, b),
        is_walk(grid, path),
        path[0] == b,
        1 <= n <= path.len(),
    ensures
        connected(grid, a, path[n - 1]),
    decreases n,
{
    if n > 1 {
        lemma_join(grid, a, b, path, n - 1);
        assert(adjacent(path[n - 2], path[n - 2 + 1]));
        lemma_connected_step(grid, a, path[n - 2], path[n - 1]);
    }
}

/// Opening further cells breaks no connection.
pub proof fn lemma_connected_mono(
    before: Seq<Seq<Tile>>,
    after: Seq<Seq<Tile>>,
    a: (int, int),
    b: (int, int),
)
    requires
        opens_more(before, after),
        connected(before, a, b),
    ensures
        connected(after, a, b),
{
    let path = choose|path: Seq<(int, int)>| #[trigger] walks(before, path, a, b);
    assert forall|i: int| 0 <= i < path.len() implies open_at(
        after,
        (#[trigger] path[i]).0,
        path[i].1,
    ) by {
        assert(open_at(before, path[i].0, path[i].1));
    }
    assert(walks(after, path, a, b));
}

/// Every cell of row `y` from column `x_lo` to column `x_hi` is open.
pub open spec fn row_open(grid: Seq<Seq<Tile>>, x_lo: int, x_hi: int, y: int) -> bool {
    forall|x: int| x_lo <= x <= x_hi ==> #[trigger] open_at(grid, x, y)
}

/// Every cell of column `x` from row `y_lo` to row `y_hi` is open.
pub open spec fn column_open(grid: Seq<Seq<Tile>>, x: int, y_lo: int, y_hi: int) -> bool {
    forall|y: int| y_lo <= y <= y_hi ==> #[trigger] open_at(grid, x, y)
}

/// Along an open stretch of a row any two cells are connected.
pub proof fn lemma_row_connected(grid: Seq<Seq<Tile>>, x_lo: int, x_hi: int, y: int, from: int, to: int)
    requires
        row_open(grid, x_lo, x_hi, y),
        x_lo <= from <= x_hi,
        x_lo <= to <= x_hi,
    ensures
        connected(grid, (from, y), (to, y)),
    decreases
        if to >= from {
            to - from
        } else {
            from - to
        },
{
    assert(open_at(grid, from, y));
    assert(open_at(grid, to, y));
    if to == from {
        lemma_connected_refl(grid, (from, y));
    } else if to > from {
        lemma_row_connected(grid, x_lo, x_hi, y, from, to - 1);
        lemma_connected_step(grid, (from, y), (to - 1, y), (to, y));
    } else {
        lemma_row_connected(grid, x_lo, x_hi, y, from, to + 1);
        lemma_connected_step(grid, (from, y), (to + 1, y), (to, y));
    }
}

/// Along an open stretch of a column any two cells are connected.
pub proof fn lemma_column_connected(
    grid: Seq<Seq<Tile>>,
    x: int,
    y_lo: int,
    y_hi: int,
    from: int,
    to: int,
)
    requires
        column_open(grid, x, y_lo, y_hi),
        y_lo <= from <= y_hi,
        y_lo <= to <= y_hi,
    ensures
        connected(grid, (x, from), (x, to)),
    decreases
        if to >= from {
            to - from
        } else {
            from - to
        },
{
    assert(open_at(grid, x, from));
    assert(open_at(grid, x, to));
    if to == from {
        lemma_connected_refl(grid, (x, from));
    } else if to > from {
        lemma_column_connected(grid, x, y_lo, y_hi, from, to - 1);
        lemma_connected_step(grid, (x, from), (x, to - 1), (x, to));
    } else {
        lemma_column_connected(grid, x, y_lo, y_hi, from, to + 1);
        lemma_connected_step(grid, (x, from), (x, to + 1), (x, to));
    }
}

/// Every cell from column `x_lo` to `x_hi` and from row `y_lo` to `y_hi` is
/// open.
pub open spec fn block_open(grid: Seq<Seq<Tile>>, x_lo: int, x_hi: int, y_lo: int, y_hi: int) -> bool {
    forall|x: int, y: int| x_lo <= x <= x_hi && y_lo <= y <= y_hi ==> #[trigger] open_at(grid, x, y)
}

/// Within an open block of cells any two cells are connected.
pub proof fn lemma_block_connected(
    grid: Seq<Seq<Tile>>,
    x_lo: int,
    x_hi: int,
    y_lo: int,
    y_hi: int,
    a: (int, int),
    b: (int, int),
)
    requires
        block_open(grid, x_lo, x_hi, y_lo, y_hi),
        x_lo <= a.0 <= x_hi && y_lo <= a.1 <= y_hi,
        x_lo <= b.0 <= x_hi && y_lo <= b.1 <= y_hi,
    ensures
        connected(grid, a, b),
{
    assert(row_open(grid, x_lo, x_hi, a.1)) by {
        assert forall|x: int| x_lo <= x <= x_hi implies #[trigger] open_at(grid, x, a.1) by {}
    }
    assert(column_open(grid, b.0, y_lo, y_hi)) by {
        assert forall|y: int| y_lo <= y <= y_hi implies #[trigger] open_at(grid, b.0, y) by {}
    }
    lemma_row_connected(grid, x_lo, x_hi, a.1, a.0, b.0);
    lemma_column_connected(grid, b.0, y_lo, y_hi, a.1, b.1);
    lemma_connected_trans(grid, a, (b.0, a.1), b);
}

/// `n` lies between `a` and `b`, whichever of the two is greater.
pub open spec fn between(a: int, b: int, n: int) -> bool {
    (a <= n <= b) || (b <= n <= a)
}

/// The cell `p` lies on the straight stretch of cells from `a` to `b`,
/// which share a column or a row.
pub open spec fn on_segment(a: (int, int), b: (int, int), p: (int, int)) -> bool {
    ||| a.0 == b.0 && p.0 == a.0 && between(a.1, b.1, p.1)
    ||| a.1 == b.1 && p.1 == a.1 && between(a.0, b.0, p.0)
}

/// The cells `a` and `b` share a column or a row, and every cell from one
/// to the other is open.
pub open spec fn segment_open(grid: Seq<Seq<Tile>>, a: (int, int), b: (int, int)) -> bool {
    &&& a.0 == b.0 || a.1 == b.1
    &&& forall|x: int, y: int| on_segment(a, b, (x, y)) ==> #[trigger] open_at(grid, x, y)
}

/// The start of an open straight stretch is connected to each of its cells.
pub proof fn lemma_segment_connected(grid: Seq<Seq<Tile>>, a: (int, int), b: (int, int), p: (int, int))
    requires
        segment_open(grid, a, b),
        on_segment(a, b, p),
    ensures
        connected(grid, a, p),
{
    if a.0 == b.0 && p.0 == a.0 && between(a.1, b.1, p.1) {
        let lo = if a.1 <= b.1 {
            a.1
        } else {
            b.1
        };
        let hi = if a.1 <= b.1 {
            b.1
        } else {
            a.1
        };
        assert forall|y: int| lo <= y <= hi implies #[trigger] open_at(grid, a.0, y) by {
            assert(on_segment(a, b, (a.0, y)));
        }
        lemma_column_connected(grid, a.0, lo, hi, a.1, p.1);
    } else {
        let lo = if a.0 <= b.0 {
            a.0
        } else {
            b.0
        };
        let hi = if a.0 <= b.0 {
            b.0
        } else {
            a.0
        };
        assert forall|x: int| lo <= x <= hi implies #[trigger] open_at(grid, x, a.1) by {
            assert(on_segment(a, b, (x, a.1)));
        }
        lemma_row_connected(grid, lo, hi, a.1, a.0, p.0);
    }
}

/// A block of open cells that is joined to a connected grid by a corridor
/// of two straight legs leaves the grid connected.
///
/// `before` is a grid all of whose open cells can be reached from `origin`,
/// `door` among them. `after` opens, besides those cells, no more than the
/// block from `(x_lo, y_lo)` to `(x_hi, y_hi)`, the leg from `door` to
/// `corner` and the leg from `corner` to `hub`, a cell of the block.
pub proof fn lemma_block_joined(
    before: Seq<Seq<Tile>>,
    after: Seq<Seq<Tile>>,
    origin: (int, int),
    door: (int, int),
    corner: (int, int),
    hub: (int, int),
    x_lo: int,
    x_hi: int,
    y_lo: int,
    y_hi: int,
)
    requires
        all_reachable(before, origin),
        open_at(before, door.0, door.1),
        opens_more(before, after),
        segment_open(after, door, corner),
        segment_open(after, corner, hub),
        block_open(after, x_lo, x_hi, y_lo, y_hi),
        x_lo <= hub.0 <= x_hi && y_lo <= hub.1 <= y_hi,
        forall|x: int, y: int| #[trigger]
            open_at(after, x, y) ==> {
                ||| open_at(before, x, y)
                ||| x_lo <= x <= x_hi && y_lo <= y <= y_hi
                ||| on_segment(door, corner, (x, y))
                ||| on_segment(corner, hub, (x, y))
            },
    ensures
        all_reachable(after, origin),
{
    lemma_connected_mono(before, after, origin, door);
    assert(on_segment(door, corner, corner));
    lemma_segment_connected(after, door, corner, corner);
    lemma_connected_trans(after, origin, door, corner);
    assert(on_segment(corner, hub, hub));
    lemma_segment_connected(after, corner, hub, hub);
    lemma_connected_trans(after, origin, corner, hub);
    assert forall|x: int, y: int| #[trigger] open_at(after, x, y) implies connected(
        after,
        origin,
        (x, y),
    ) by {
        if open_at(before, x, y) {
            lemma_connected_mono(before, after, origin, (x, y));
        } else if x_lo <= x <= x_hi && y_lo <= y <= y_hi {
            lemma_block_connected(after, x_lo, x_hi, y_lo, y_hi, hub, (x, y));
            lemma_connected_trans(after, origin, hub, (x, y));
        } else if on_segment(door, corner, (x, y)) {
            lemma_segment_connected(after, door, corner, (x, y));
            lemma_connected_trans(after, origin, door, (x, y));
        } else {
            lemma_segment_connected(after, corner, hub, (x, y));
            lemma_connected_trans(after, origin, corner, (x, y));
        }
    }
}

/// A grid whose open cells are exactly one block is connected.
pub proof fn lemma_single_block(
    grid: Seq<Seq<Tile>>,
    hub: (int, int),
    x_lo: int,
    x_hi: int,
    y_lo: int,
    y_hi: int,
)
    requires
        block_open(grid, x_lo, x_hi, y_lo, y_hi),
        x_lo <= hub.0 <= x_hi && y_lo <= hub.1 <= y_hi,
        forall|x: int, y: int| #[trigger]
            open_at(grid, x, y) ==> x_lo <= x <= x_hi && y_lo <= y <= y_hi,
    ensures
        all_reachable(grid, hub),
{
    assert forall|x: int, y: int| #[trigger] open_at(grid, x, y) implies connected(
        grid,
        hub,
        (x, y),
    ) by {
        lemma_block_connected(grid, x_lo, x_hi, y_lo, y_hi, hub, (x, y));
    }
}

} // verus!
