use vstd::prelude::*;

verus! {

/// One cell of the dungeon grid.
#[derive(Clone, Copy, Debug, PartialEq, Eq, Structural)]
pub struct Tile {
    /// Nothing can walk onto the cell.
    pub blocked: bool,
    /// Nothing can be seen through the cell.
    pub block_sight: bool,
    /// The player has seen the cell at least once.
    pub explored: bool,
}

impl Tile {
    /// A walkable, transparent cell that has not been seen yet.
    pub open spec fn spec_empty() -> Tile {
        Tile { blocked: false, block_sight: false, explored: false }
    }

    /// A solid, opaque cell that has not been seen yet.
    pub open spec fn spec_wall() -> Tile {
        Tile { blocked: true, block_sight: true, explored: false }
    }

    /// A walkable, transparent cell that has not been seen yet.
    #[verifier::when_used_as_spec(spec_empty)]
    pub fn empty() -> (t: Tile)
        ensures
            t == Tile::spec_empty(),
            !t.blocked,
    {
        Tile { blocked: false, block_sight: false, explored: false }
    }

    /// A solid, opaque cell that has not been seen yet.
    #[verifier::when_used_as_spec(spec_wall)]
    pub fn wall() -> (t: Tile)
        ensures
            t == Tile::spec_wall(),
            t.blocked,
    {
        Tile { blocked: true, block_sight: true, explored: false }
    }
}

/// The dungeon grid, stored column by column: `map[x][y]` is the cell at
/// column `x`, row `y`.
pub type TileMap = Vec<Vec<Tile>>;

/// Number of columns of a dungeon grid.
pub const MAP_WIDTH: i32 = 80;

/// Number of rows of a dungeon grid.
pub const MAP_HEIGHT: i32 = 43;

/// The cells of a grid as a sequence of columns.
pub open spec fn grid_of(map: TileMap) -> Seq<Seq<Tile>> {
    map@.map_values(|column: Vec<Tile>| column@)
}

/// Every column of the grid has the same number of rows, `height`, and
/// there are `width` columns.
pub open spec fn has_size(grid: Seq<Seq<Tile>>, width: int, height: int) -> bool {
    &&& grid.len() == width
    &&& forall|x: int| 0 <= x < width ==> (#[trigger] grid[x]).len() == height
}

/// The grid has the dimensions of a dungeon level.
pub open spec fn level_sized(grid: Seq<Seq<Tile>>) -> bool {
    has_size(grid, MAP_WIDTH as int, MAP_HEIGHT as int)
}

/// The position lies on the grid.
pub open spec fn in_bounds(grid: Seq<Seq<Tile>>, x: int, y: int) -> bool {
    0 <= x < grid.len() && 0 <= y < grid[x].len()
}

} // verus!
