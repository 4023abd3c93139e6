use vstd::prelude::*;
use crate::connectivity::between;
use crate::roomgen::Rect;
use crate::tile::{grid_of, in_bounds, level_sized, Tile, TileMap, MAP_HEIGHT, MAP_WIDTH};

verus! {

/// Every cell of the grid is `tile`.
pub open spec fn filled_with(grid: Seq<Seq<Tile>>, tile: Tile) -> bool {
    forall|x: int, y: int| in_bounds(grid, x, y) ==> #[trigger] grid[x][y] == tile
}

/// The grid in which the cells from column `x_lo` to `x_hi` and from row
/// `y_lo` to `y_hi` have been replaced by fresh empty cells, and every other
/// cell is as it was.
pub open spec fn carved(
    grid: Seq<Seq<Tile>>,
    x_lo: int,
    x_hi: int,
    y_lo: int,
    y_hi: int,
) -> Seq<Seq<Tile>> {
    Seq::new(
        grid.len(),
        |x: int|
            Seq::new(
                grid[x].len(),
                |y: int|
                    if x_lo <= x <= x_hi && y_lo <= y <= y_hi {
                        Tile::spec_empty()
                    } else {
                        grid[x][y]
                    },
            ),
    )
}

/// The smaller of two numbers.
pub open spec fn min_of(a: int, b: int) -> int {
    if a <= b {
        a
    } else {
        b
    }
}

/// The greater of two numbers.
pub open spec fn max_of(a: int, b: int) -> int {
    if a >= b {
        a
    } else {
        b
    }
}

/// Carving keeps the size of the grid and changes the cells of the block
/// only.
pub proof fn lemma_carved_cells(grid: Seq<Seq<Tile>>, x_lo: int, x_hi: int, y_lo: int, y_hi: int)
    ensures
        carved(grid, x_lo, x_hi, y_lo, y_hi).len() == grid.len(),
        forall|x: int|
            0 <= x < grid.len() ==> (#[trigger] carved(grid, x_lo, x_hi, y_lo, y_hi)[x]).len()
                == grid[x].len(),
        forall|x: int, y: int|
            in_bounds(grid, x, y) ==> #[trigger] carved(grid, x_lo, x_hi, y_lo, y_hi)[x][y] == if x_lo
                <= x <= x_hi && y_lo <= y <= y_hi {
                Tile::spec_empty()
            } else {
                grid[x][y]
            },
{
}

/// Two grids of the same shape with the same cells are the same grid.
pub proof fn lemma_grid_equal(a: Seq<Seq<Tile>>, b: Seq<Seq<Tile>>)
    requires
        a.len() == b.len(),
        forall|x: int| 0 <= x < a.len() ==> (#[trigger] a[x]).len() == b[x].len(),
        forall|x: int, y: int| in_bounds(a, x, y) ==> #[trigger] a[x][y] == b[x][y],
    ensures
        a == b,
{
    assert forall|x: int| 0 <= x < a.len() implies #[trigger] a[x] == b[x] by {
        assert(a[x].len() == b[x].len());
        assert forall|y: int| 0 <= y < a[x].len() implies a[x][y] == b[x][y] by {
            assert(in_bounds(a, x, y));
        }
        assert(a[x] =~= b[x]);
    }
    assert(a =~= b);
}

/// A level all of whose cells are `tile`.
pub(crate) fn filled_map(tile: Tile) -> (map: TileMap)
    ensures
        level_sized(grid_of(map)),
        filled_with(grid_of(map), tile),
{
    let mut map: TileMap = Vec::new();
    let mut x: i32 = 0;
    while x < MAP_WIDTH
        invariant
            0 <= x <= MAP_WIDTH,
            map.len() == x,
            forall|i: int| 0 <= i < x ==> (#[trigger] map[i]).len() == MAP_HEIGHT,
            forall|i: int, j: int| 0 <= i < x && 0 <= j < MAP_HEIGHT ==> (#[trigger] map[i][j]) == tile,
        decreases MAP_WIDTH - x,
    {
        let mut column: Vec<Tile> = Vec::new();
        let mut y: i32 = 0;
        while y < MAP_HEIGHT
            invariant
                0 <= y <= MAP_HEIGHT,
                column.len() == y,
                forall|j: int| 0 <= j < y ==> (#[trigger] column[j]) == tile,
            decreases MAP_HEIGHT - y,
        {
            column.push(tile);
            y += 1;
        }
        map.push(column);
        x += 1;
    }
    map
}

/// A level without any wall.
pub fn make_empty_map() -> (map: TileMap)
    ensures
        level_sized(grid_of(map)),
        filled_with(grid_of(map), Tile::empty()),
{
    filled_map(Tile::empty())
}

/// Turns the inside of `room` into floor.
pub fn create_room(room: Rect, map: &mut TileMap)
    requires
        room.x1 < i32::MAX,
        room.y1 < i32::MAX,
        forall|x: int, y: int| room.contains(x, y) ==> in_bounds(grid_of(*old(map)), x, y),
    ensures
        grid_of(*final(map)) == carved(
            grid_of(*old(map)),
            room.x1 + 1,
            room.x2 - 1,
            room.y1 + 1,
            room.y2 - 1,
        ),
{
    let ghost before = grid_of(*map);
    let ghost y_lo = room.y1 + 1;
    let ghost y_hi = room.y2 - 1;
    proof {
        lemma_carved_cells(before, room.x1 + 1, room.x1 as int, y_lo, y_hi);
        lemma_grid_equal(grid_of(*map), carved(before, room.x1 + 1, room.x1 as int, y_lo, y_hi));
    }
    let mut x: i32 = room.x1 + 1;
    while x < room.x2
        invariant
            room.x1 < x,
            x <= room.x2 || x == room.x1 + 1,
            room.y1 < i32::MAX,
            y_lo == room.y1 + 1,
            y_hi == room.y2 - 1,
            forall|x: int, y: int| room.contains(x, y) ==> in_bounds(before, x, y),
            grid_of(*map) == carved(before, room.x1 + 1, x - 1, y_lo, y_hi),
        decreases room.x2 - x,
    {
        let ghost column_before = grid_of(*map);
        proof {
            lemma_carved_cells(before, room.x1 + 1, x - 1, y_lo, y_hi);
            lemma_carved_cells(column_before, x as int, x as int, y_lo, room.y1 as int);
            lemma_grid_equal(
                grid_of(*map),
                carved(column_before, x as int, x as int, y_lo, room.y1 as int),
            );
        }
        let mut y: i32 = room.y1 + 1;
        while y < room.y2
            invariant
                room.x1 < x < room.x2,
                room.y1 < y,
                y <= room.y2 || y == y_lo,
                y_lo == room.y1 + 1,
                y_hi == room.y2 - 1,
                forall|x: int, y: int| room.contains(x, y) ==> in_bounds(before, x, y),
                column_before.len() == before.len(),
                forall|i: int|
                    0 <= i < before.len() ==> (#[trigger] column_before[i]).len() == before[i].len(),
                grid_of(*map) == carved(column_before, x as int, x as int, y_lo, y - 1),
            decreases room.y2 - y,
        {
            assert(room.contains(x as int, y as int));
            assert(in_bounds(before, x as int, y as int));
            let ghost cell_before = grid_of(*map);
            proof {
                lemma_carved_cells(column_before, x as int, x as int, y_lo, y - 1);
                assert(cell_before[x as int] == map[x as int]@);
            }
            map[x as usize][y as usize] = Tile::empty();
            proof {
                lemma_carved_cells(column_before, x as int, x as int, y_lo, y as int);
                let after = grid_of(*map);
                let goal = carved(column_before, x as int, x as int, y_lo, y as int);
                assert forall|i: int, j: int| in_bounds(after, i, j) implies #[trigger] after[i][j]
                    == goal[i][j] by {
                    assert(after[i] == map@[i]@);
                    if i != x {
                        assert(after[i] == cell_before[i]);
                    }
                }
                assert forall|i: int| 0 <= i < after.len() implies (#[trigger] after[i]).len()
                    == goal[i].len() by {
                    assert(after[i] == map@[i]@);
                    if i != x {
                        assert(after[i] == cell_before[i]);
                    }
                }
                lemma_grid_equal(after, goal);
            }
            y += 1;
        }
        proof {
            lemma_carved_cells(column_before, x as int, x as int, y_lo, y - 1);
            lemma_carved_cells(before, room.x1 + 1, x - 1, y_lo, y_hi);
            lemma_carved_cells(before, room.x1 + 1, x as int, y_lo, y_hi);
            lemma_grid_equal(grid_of(*map), carved(before, room.x1 + 1, x as int, y_lo, y_hi));
        }
        x += 1;
    }
    proof {
        lemma_carved_cells(before, room.x1 + 1, x - 1, y_lo, y_hi);
        lemma_carved_cells(before, room.x1 + 1, room.x2 - 1, y_lo, y_hi);
        lemma_grid_equal(grid_of(*map), carved(before, room.x1 + 1, room.x2 - 1, y_lo, y_hi));
    }
}

/// Turns the cells of row `y` between the columns `x1` and `x2`, both
/// included and in either order, into floor.
pub fn create_h_tunnel(x1: i32, x2: i32, y: i32, map: &mut TileMap)
    requires
        x1 < i32::MAX,
        x2 < i32::MAX,
        forall|x: int|
            min_of(x1 as int, x2 as int) <= x <= max_of(x1 as int, x2 as int) ==> in_bounds(
                grid_of(*old(map)),
                x,
                y as int,
            ),
    ensures
        grid_of(*final(map)) == carved(
            grid_of(*old(map)),
            min_of(x1 as int, x2 as int),
            max_of(x1 as int, x2 as int),
            y as int,
            y as int,
        ),
{
    let ghost before = grid_of(*map);
    let first: i32 = if x1 <= x2 {
        x1
    } else {
        x2
    };
    let last: i32 = if x1 <= x2 {
        x2
    } else {
        x1
    };
    proof {
        lemma_carved_cells(before, first as int, first - 1, y as int, y as int);
        lemma_grid_equal(grid_of(*map), carved(before, first as int, first - 1, y as int, y as int));
    }
    let mut x: i32 = first;
    while x < last + 1
        invariant
            first <= x <= last + 1,
            last < i32::MAX,
            forall|x: int| first <= x <= last ==> in_bounds(before, x, y as int),
            grid_of(*map) == carved(before, first as int, x - 1, y as int, y as int),
        decreases last + 1 - x,
    {
        assert(in_bounds(before, x as int, y as int));
        let ghost cell_before = grid_of(*map);
        proof {
            lemma_carved_cells(before, first as int, x - 1, y as int, y as int);
            assert(cell_before[x as int] == map[x as int]@);
        }
        map[x as usize][y as usize] = Tile::empty();
        proof {
            lemma_carved_cells(before, first as int, x as int, y as int, y as int);
            let after = grid_of(*map);
            let goal = carved(before, first as int, x as int, y as int, y as int);
            assert forall|i: int, j: int| in_bounds(after, i, j) implies #[trigger] after[i][j]
                == goal[i][j] by {
                assert(after[i] == map@[i]@);
                if i != x {
                    assert(after[i] == cell_before[i]);
                }
            }
            assert forall|i: int| 0 <= i < after.len() implies (#[trigger] after[i]).len()
                == goal[i].len() by {
                assert(after[i] == map@[i]@);
                if i != x {
                    assert(after[i] == cell_before[i]);
                }
            }
            lemma_grid_equal(after, goal);
        }
        x += 1;
    }
}

/// Turns the cells of column `x` between the rows `y1` and `y2`, both
/// included and in either order, into floor.
pub fn create_v_tunnel(y1: i32, y2: i32, x: i32, map: &mut TileMap)
    requires
        y1 < i32::MAX,
        y2 < i32::MAX,
        forall|y: int|
            min_of(y1 as int, y2 as int) <= y <= max_of(y1 as int, y2 as int) ==> in_bounds(
                grid_of(*old(map)),
                x as int,
                y,
            ),
    ensures
        grid_of(*final(map)) == carved(
            grid_of(*old(map)),
            x as int,
            x as int,
            min_of(y1 as int, y2 as int),
            max_of(y1 as int, y2 as int),
        ),
{
    let ghost before = grid_of(*map);
    let first: i32 = if y1 <= y2 {
        y1
    } else {
        y2
    };
    let last: i32 = if y1 <= y2 {
        y2
    } else {
        y1
    };
    proof {
        lemma_carved_cells(before, x as int, x as int, first as int, first - 1);
        lemma_grid_equal(grid_of(*map), carved(before, x as int, x as int, first as int, first - 1));
    }
    let mut y: i32 = first;
    while y < last + 1
        invariant
            first <= y <= last + 1,
            last < i32::MAX,
            forall|y: int| first <= y <= last ==> in_bounds(before, x as int, y),
            grid_of(*map) == carved(before, x as int, x as int, first as int, y - 1),
        decreases last + 1 - y,
    {
        assert(in_bounds(before, x as int, y as int));
        let ghost cell_before = grid_of(*map);
        proof {
            lemma_carved_cells(before, x as int, x as int, first as int, y - 1);
            assert(cell_before[x as int] == map[x as int]@);
        }
        map[x as usize][y as usize] = Tile::empty();
        proof {
            lemma_carved_cells(before, x as int, x as int, first as int, y as int);
            let after = grid_of(*map);
            let goal = carved(before, x as int, x as int, first as int, y as int);
            assert forall|i: int, j: int| in_bounds(after, i, j) implies #[trigger] after[i][j]
                == goal[i][j] by {
                assert(after[i] == map@[i]@);
                if i != x {
                    assert(after[i] == cell_before[i]);
                }
            }
            assert forall|i: int| 0 <= i < after.len() implies (#[trigger] after[i]).len()
                == goal[i].len() by {
                assert(after[i] == map@[i]@);
                if i != x {
                    assert(after[i] == cell_before[i]);
                }
            }
            lemma_grid_equal(after, goal);
        }
        y += 1;
    }
}

/// The grid in which the room has been turned into floor.
pub open spec fn with_room(grid: Seq<Seq<Tile>>, room: Rect) -> Seq<Seq<Tile>> {
    carved(grid, room.x1 + 1, room.x2 - 1, room.y1 + 1, room.y2 - 1)
}

/// The grid in which the straight stretch of cells from `a` to `b`, which
/// share a column or a row, has been turned into floor.
pub open spec fn with_tunnel(grid: Seq<Seq<Tile>>, a: (int, int), b: (int, int)) -> Seq<Seq<Tile>> {
    carved(grid, min_of(a.0, b.0), max_of(a.0, b.0), min_of(a.1, b.1), max_of(a.1, b.1))
}

/// The corner of the corridor from `from` to `to`: the end of its first
/// leg, which runs along the row of `from` if `horizontal_first` is set and
/// along its column otherwise.
pub open spec fn corridor_corner(from: (int, int), to: (int, int), horizontal_first: bool) -> (
    int,
    int,
) {
    if horizontal_first {
        (to.0, from.1)
    } else {
        (from.0, to.1)
    }
}

/// Digs a corridor of two straight legs from `from` to `to`: first along
/// the row of `from` and then along the column of `to` if
/// `horizontal_first` is set, first along the column of `from` and then
/// along the row of `to` otherwise.
pub fn create_corridor(from: (i32, i32), to: (i32, i32), horizontal_first: bool, map: &mut TileMap)
    requires
        from.0 < i32::MAX && from.1 < i32::MAX && to.0 < i32::MAX && to.1 < i32::MAX,
        forall|x: int, y: int|
            between(from.0 as int, to.0 as int, x) && between(from.1 as int, to.1 as int, y)
                ==> in_bounds(grid_of(*old(map)), x, y),
    ensures
        grid_of(*final(map)) == with_tunnel(
            with_tunnel(
                grid_of(*old(map)),
                (from.0 as int, from.1 as int),
                corridor_corner(
                    (from.0 as int, from.1 as int),
                    (to.0 as int, to.1 as int),
                    horizontal_first,
                ),
            ),
            corridor_corner(
                (from.0 as int, from.1 as int),
                (to.0 as int, to.1 as int),
                horizontal_first,
            ),
            (to.0 as int, to.1 as int),
        ),
{
    let ghost before = grid_of(*map);
    let (prev_x, prev_y) = from;
    let (new_x, new_y) = to;
    if horizontal_first {
        proof {
            lemma_carved_cells(
                before,
                min_of(prev_x as int, new_x as int),
                max_of(prev_x as int, new_x as int),
                prev_y as int,
                prev_y as int,
            );
        }
        create_h_tunnel(prev_x, new_x, prev_y, map);
        assert forall|y: int|
            min_of(prev_y as int, new_y as int) <= y <= max_of(
                prev_y as int,
                new_y as int,
            ) implies in_bounds(grid_of(*map), new_x as int, y) by {
            assert(in_bounds(before, new_x as int, y));
        }
        create_v_tunnel(prev_y, new_y, new_x, map);
    } else {
        proof {
            lemma_carved_cells(
                before,
                prev_x as int,
                prev_x as int,
                min_of(prev_y as int, new_y as int),
                max_of(prev_y as int, new_y as int),
            );
        }
        create_v_tunnel(prev_y, new_y, prev_x, map);
        assert forall|x: int|
            min_of(prev_x as int, new_x as int) <= x <= max_of(
                prev_x as int,
                new_x as int,
            ) implies in_bounds(grid_of(*map), x, new_y as int) by {
            assert(in_bounds(before, x, new_y as int));
        }
        create_h_tunnel(prev_x, new_x, new_y, map);
    }
}

} // verus!
