use vstd::prelude::*;
use crate::colors::{dark_ground, dark_wall, light_ground, light_wall, Color};
use crate::fov::{covers, FovSnapshot};
use crate::object::{views, Object, ObjectView};
use crate::text::{decimal, decimal_string};
use crate::tile::{grid_of, in_bounds, level_sized, Tile, TileMap, MAP_HEIGHT, MAP_WIDTH};

verus! {

/// The background colour of a cell: lit where the player sees it, dark
/// where not, and for a wall another colour than for floor.
pub open spec fn tile_colour_of(visible: bool, wall: bool) -> Color {
    if visible {
        if wall {
            light_wall()
        } else {
            light_ground()
        }
    } else {
        if wall {
            dark_wall()
        } else {
            dark_ground()
        }
    }
}

/// The background colour of a cell.
pub fn tile_colour(visible: bool, wall: bool) -> (colour: Color)
    ensures
        colour == tile_colour_of(visible, wall),
{
    match (visible, wall) {
        (false, true) => dark_wall(),
        (false, false) => dark_ground(),
        (true, true) => light_wall(),
        (true, false) => light_ground(),
    }
}

/// The snapshot has the size of a dungeon level.
pub open spec fn level_sized_fov(fov: Seq<Seq<bool>>) -> bool {
    &&& fov.len() == MAP_WIDTH
    &&& forall|x: int| 0 <= x < MAP_WIDTH ==> (#[trigger] fov[x]).len() == MAP_HEIGHT
}

/// The grid in which every visible cell counts as explored, and nothing
/// else has changed.
pub open spec fn explored(grid: Seq<Seq<Tile>>, fov: Seq<Seq<bool>>) -> Seq<Seq<Tile>> {
    Seq::new(
        grid.len(),
        |x: int|
            Seq::new(
                grid[x].len(),
                |y: int| Tile { explored: grid[x][y].explored || fov[x][y], ..grid[x][y] },
            ),
    )
}

/// Marking never takes away: a cell that was explored before is explored
/// after, and walls stay walls.
pub proof fn lemma_explored_stays(grid: Seq<Seq<Tile>>, fov: Seq<Seq<bool>>, x: int, y: int)
    requires
        in_bounds(grid, x, y),
    ensures
        in_bounds(explored(grid, fov), x, y),
        grid[x][y].explored ==> explored(grid, fov)[x][y].explored,
        explored(grid, fov)[x][y].blocked == grid[x][y].blocked,
        explored(grid, fov)[x][y].block_sight == grid[x][y].block_sight,
{
}

/// Marks every cell that the player sees as explored. A cell that has been
/// explored stays so.
pub fn mark_explored(map: &mut TileMap, fov: &FovSnapshot)
    requires
        level_sized(grid_of(*old(map))),
        level_sized_fov(fov@),
    ensures
        grid_of(*final(map)) == explored(grid_of(*old(map)), fov@),
{
    let ghost before = grid_of(*map);
    let ghost goal = explored(before, fov@);
    let mut y: i32 = 0;
    while y < MAP_HEIGHT
        invariant
            0 <= y <= MAP_HEIGHT,
            level_sized(before),
            level_sized_fov(fov@),
            goal == explored(before, fov@),
            level_sized(grid_of(*map)),
            forall|i: int, j: int|
                0 <= i < MAP_WIDTH && 0 <= j < MAP_HEIGHT ==> #[trigger] grid_of(*map)[i][j] == if j
                    < y {
                    goal[i][j]
                } else {
                    before[i][j]
                },
        decreases MAP_HEIGHT - y,
    {
        let mut x: i32 = 0;
        while x < MAP_WIDTH
            invariant
                0 <= x <= MAP_WIDTH,
                0 <= y < MAP_HEIGHT,
                level_sized(before),
                level_sized_fov(fov@),
                goal == explored(before, fov@),
                level_sized(grid_of(*map)),
                forall|i: int, j: int|
                    0 <= i < MAP_WIDTH && 0 <= j < MAP_HEIGHT ==> #[trigger] grid_of(*map)[i][j]
                        == if j < y || (j == y && i < x) {
                        goal[i][j]
                    } else {
                        before[i][j]
                    },
            decreases MAP_WIDTH - x,
        {
            let ghost cells = grid_of(*map);
            assert(cells[x as int].len() == MAP_HEIGHT);
            assert(cells[x as int] == map[x as int]@);
            assert(fov@[x as int].len() == MAP_HEIGHT);
            assert(before[x as int].len() == MAP_HEIGHT);
            let visible = fov.is_in_fov(x, y);
            if visible {
                map[x as usize][y as usize].explored = true;
            }
            proof {
                let after = grid_of(*map);
                assert forall|i: int| 0 <= i < MAP_WIDTH implies (#[trigger] after[i]).len()
                    == MAP_HEIGHT by {
                    assert(after[i] == map@[i]@);
                    if i != x {
                        assert(after[i] == cells[i]);
                    }
                    assert(cells[i].len() == MAP_HEIGHT);
                }
                assert forall|i: int, j: int|
                    0 <= i < MAP_WIDTH && 0 <= j < MAP_HEIGHT implies #[trigger] after[i][j] == if j
                    < y || (j == y && i < x + 1) {
                    goal[i][j]
                } else {
                    before[i][j]
                } by {
                    assert(after[i] == map@[i]@);
                    assert(cells[i].len() == MAP_HEIGHT);
                    assert(before[i].len() == MAP_HEIGHT);
                    if i != x {
                        assert(after[i] == cells[i]);
                    }
                    assert(cells[i][j] == if j < y || (j == y && i < x) {
                        goal[i][j]
                    } else {
                        before[i][j]
                    });
                }
            }
            x += 1;
        }
        y += 1;
    }
    proof {
        let after = grid_of(*map);
        assert forall|i: int| 0 <= i < after.len() implies #[trigger] after[i] == goal[i] by {
            assert(before[i].len() == MAP_HEIGHT);
            assert(after[i].len() == MAP_HEIGHT);
            assert forall|j: int| 0 <= j < MAP_HEIGHT implies after[i][j] == goal[i][j] by {}
            assert(after[i] =~= goal[i]);
        }
        assert(after =~= goal);
    }
}

/// The row that a message of `height` rows gets when it is written above
/// what has been written from row `y` down, or nothing if it does not fit
/// above row 0.
pub open spec fn message_row_of(y: int, height: int) -> Option<int> {
    if y - height < 0 {
        None
    } else {
        Some(y - height)
    }
}

/// Finds the row for the next older message of the log, which is written
/// from the bottom of its panel upwards: see [`message_row_of`].
pub fn message_row(y: i32, height: i32) -> (row: Option<i32>)
    requires
        i32::MIN <= y - height <= i32::MAX,
    ensures
        match row {
            Some(r) => message_row_of(y as int, height as int) == Some(r as int),
            None => message_row_of(y as int, height as int) is None,
        },
{
    let row: i32 = y - height;
    if row < 0 {
        None
    } else {
        Some(row)
    }
}

/// The hit points and the greatest number of hit points of an object, both
/// zero for one that cannot fight.
pub fn hit_points(o: &Object) -> (hp: (i32, i32))
    ensures
        hp == match o.fighter {
            Some(f) => (f.hp, f.max_hp),
            None => (0i32, 0i32),
        },
{
    match o.fighter {
        Some(f) => (f.hp, f.max_hp),
        None => (0, 0),
    }
}

/// The caption of a status bar: its name, the value and the maximum.
pub open spec fn bar_caption_of(name: Seq<char>, value: int, maximum: int) -> Seq<char> {
    name + ": "@ + decimal(value) + "/"@ + decimal(maximum)
}

/// Writes the caption of a status bar.
pub fn bar_caption(name: &str, value: i32, maximum: i32) -> (caption: String)
    ensures
        caption@ == bar_caption_of(name@, value as int, maximum as int),
{
    let mut caption = String::from_str(name);
    caption.append(": ");
    caption.append(decimal_string(value).as_str());
    caption.append("/");
    caption.append(decimal_string(maximum).as_str());
    caption
}

/// The indices, in ascending order, of those among the first `upto` objects
/// that the player sees and that block movement, if `blocking` is set, or
/// do not, if it is not.
pub open spec fn seen_layer(
    objects: Seq<ObjectView>,
    fov: Seq<Seq<bool>>,
    blocking: bool,
    upto: int,
) -> Seq<int>
    decreases upto,
{
    if upto <= 0 {
        Seq::empty()
    } else {
        let below = seen_layer(objects, fov, blocking, upto - 1);
        let o = objects[upto - 1];
        if fov[o.x][o.y] && o.blocks_motion == blocking {
            below.push(upto - 1)
        } else {
            below
        }
    }
}

/// The order in which the objects are drawn: those that the player sees,
/// first the ones that do not block movement and then the ones that do, so
/// that a monster is drawn over an item or a corpse on its cell. Within
/// each group the objects keep their order.
pub open spec fn draw_order_of(objects: Seq<ObjectView>, fov: Seq<Seq<bool>>) -> Seq<int> {
    seen_layer(objects, fov, false, objects.len() as int) + seen_layer(
        objects,
        fov,
        true,
        objects.len() as int,
    )
}

/// Every object lies within the snapshot.
pub open spec fn all_covered(objects: Seq<ObjectView>, fov: Seq<Seq<bool>>) -> bool {
    forall|i: int| 0 <= i < objects.len() ==> covers(fov, (#[trigger] objects[i]).x, objects[i].y)
}

/// Finds the order in which the objects are to be drawn, as a list of
/// their indices.
pub fn draw_order(objects: &Vec<Object>, fov: &FovSnapshot) -> (order: Vec<usize>)
    requires
        all_covered(views(objects@), fov@),
    ensures
        order@.map_values(|i: usize| i as int) == draw_order_of(views(objects@), fov@),
{
    let ghost vs = views(objects@);
    let mut order: Vec<usize> = Vec::new();
    let mut i: usize = 0;
    assert(order@.map_values(|i: usize| i as int) =~= seen_layer(vs, fov@, false, 0));
    while i < objects.len()
        invariant
            i <= objects.len(),
            vs == views(objects@),
            all_covered(vs, fov@),
            order@.map_values(|i: usize| i as int) == seen_layer(vs, fov@, false, i as int),
        decreases objects.len() - i,
    {
        let object = &objects[i];
        let ghost before = order@;
        assert(vs[i as int] == object@);
        if fov.is_in_fov(object.x, object.y) && !object.blocks_motion {
            order.push(i);
            assert(order@.map_values(|i: usize| i as int) =~= before.map_values(
                |i: usize| i as int,
            ).push(i as int));
        }
        i += 1;
    }
    let ghost lower = order@.map_values(|i: usize| i as int);
    let mut i: usize = 0;
    assert(order@.map_values(|i: usize| i as int) =~= lower + seen_layer(vs, fov@, true, 0));
    while i < objects.len()
        invariant
            i <= objects.len(),
            vs == views(objects@),
            all_covered(vs, fov@),
            lower == seen_layer(vs, fov@, false, objects.len() as int),
            order@.map_values(|i: usize| i as int) == lower + seen_layer(vs, fov@, true, i as int),
        decreases objects.len() - i,
    {
        let object = &objects[i];
        let ghost before = order@;
        assert(vs[i as int] == object@);
        if fov.is_in_fov(object.x, object.y) && object.blocks_motion {
            order.push(i);
            assert(order@.map_values(|i: usize| i as int) =~= before.map_values(
                |i: usize| i as int,
            ).push(i as int));
            assert(order@.map_values(|i: usize| i as int) =~= lower + seen_layer(
                vs,
                fov@,
                true,
                i as int + 1,
            ));
        }
        i += 1;
    }
    order
}

/// The names, in order, of those among the first `upto` objects that lie
/// on `(x, y)` and that the player sees.
pub open spec fn names_at(
    objects: Seq<ObjectView>,
    fov: Seq<Seq<bool>>,
    x: int,
    y: int,
    upto: int,
) -> Seq<Seq<char>>
    decreases upto,
{
    if upto <= 0 {
        Seq::empty()
    } else {
        let earlier = names_at(objects, fov, x, y, upto - 1);
        let o = objects[upto - 1];
        if o.x == x && o.y == y && fov[x][y] {
            earlier.push(o.name)
        } else {
            earlier
        }
    }
}

/// The names one after the other, with a comma and a space between each
/// two.
pub open spec fn comma_list(names: Seq<Seq<char>>) -> Seq<char>
    decreases names.len(),
{
    if names.len() == 0 {
        Seq::empty()
    } else if names.len() == 1 {
        names[0]
    } else {
        comma_list(names.drop_last()) + ", "@ + names.last()
    }
}

/// Lists the names of the objects on the cell `(x, y)` that the player
/// sees, separated by commas.
pub fn get_names_under_mouse(
    x: i32,
    y: i32,
    objects: &Vec<Object>,
    fov: &FovSnapshot,
) -> (names: String)
    requires
        forall|i: int|
            0 <= i < objects.len() && (#[trigger] objects[i]).x == x && objects[i].y == y
                ==> covers(fov@, x as int, y as int),
    ensures
        names@ == comma_list(
            names_at(views(objects@), fov@, x as int, y as int, objects.len() as int),
        ),
{
    let ghost vs = views(objects@);
    let mut names = String::new();
    let mut found: usize = 0;
    let mut i: usize = 0;
    while i < objects.len()
        invariant
            i <= objects.len(),
            vs == views(objects@),
            forall|i: int|
                0 <= i < objects.len() && (#[trigger] objects[i]).x == x && objects[i].y == y
                    ==> covers(fov@, x as int, y as int),
            found == names_at(vs, fov@, x as int, y as int, i as int).len(),
            found <= i,
            names@ == comma_list(names_at(vs, fov@, x as int, y as int, i as int)),
        decreases objects.len() - i,
    {
        let object = &objects[i];
        if object.x == x && object.y == y && fov.is_in_fov(object.x, object.y) {
            let ghost earlier = names_at(vs, fov@, x as int, y as int, i as int);
            let ghost now = names_at(vs, fov@, x as int, y as int, i as int + 1);
            assert(now == earlier.push(vs[i as int].name));
            assert(now.drop_last() =~= earlier);
            if found > 0 {
                names.append(", ");
            }
            names.append(object.name.as_str());
            assert(names@ =~= comma_list(now));
            found += 1;
        }
        i += 1;
    }
    names
}

} // verus!
