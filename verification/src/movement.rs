use vstd::prelude::*;
use crate::colors::{green, red, Color};
use crate::game::{Game, INVENTORY_CAPACITY};
use crate::object::{after_attack, attack_fits, attack_log, views, Object, ObjectView};
use crate::tile::{grid_of, in_bounds, Tile, TileMap};

verus! {

/// The object stands on `(x, y)` and keeps others from entering.
pub open spec fn occupies(o: ObjectView, x: int, y: int) -> bool {
    o.blocks_motion && o.x == x && o.y == y
}

/// Nothing can move onto `(x, y)`: the cell is a wall, or an object that
/// blocks movement stands on it.
pub open spec fn blocked_at(
    grid: Seq<Seq<Tile>>,
    objects: Seq<ObjectView>,
    x: int,
    y: int,
) -> bool {
    grid[x][y].blocked || exists|i: int| 0 <= i < objects.len() && occupies(#[trigger] objects[i], x, y)
}

/// The objects after object `id` has tried to step by `(dx, dy)`: it
/// stands on the new cell if that cell was free, and nothing has changed if
/// it was not.
pub open spec fn after_move(
    grid: Seq<Seq<Tile>>,
    objects: Seq<ObjectView>,
    id: int,
    dx: int,
    dy: int,
) -> Seq<ObjectView> {
    let o = objects[id];
    if blocked_at(grid, objects, o.x + dx, o.y + dy) {
        objects
    } else {
        objects.update(id, ObjectView { x: o.x + dx, y: o.y + dy, ..o })
    }
}

/// The step can be computed in `i32` and ends on the grid.
pub open spec fn step_on_grid(grid: Seq<Seq<Tile>>, o: ObjectView, dx: int, dy: int) -> bool {
    &&& i32::MIN <= o.x + dx <= i32::MAX
    &&& i32::MIN <= o.y + dy <= i32::MAX
    &&& in_bounds(grid, o.x + dx, o.y + dy)
}

/// Replacing one object replaces its value and no other.
pub proof fn lemma_views_update(objects: Seq<Object>, i: int, o: Object)
    requires
        0 <= i < objects.len(),
    ensures
        views(objects.update(i, o)) == views(objects).update(i, o@),
{
    assert(views(objects.update(i, o)) =~= views(objects).update(i, o@));
}

/// Whether anything keeps an object from moving onto `(x, y)`.
pub fn is_blocked(x: i32, y: i32, map: &TileMap, objects: &Vec<Object>) -> (blocked: bool)
    requires
        in_bounds(grid_of(*map), x as int, y as int),
    ensures
        blocked == blocked_at(grid_of(*map), views(objects@), x as int, y as int),
{
    if map[x as usize][y as usize].blocked {
        return true;
    }
    let mut i: usize = 0;
    while i < objects.len()
        invariant
            i <= objects.len(),
            forall|j: int| 0 <= j < i ==> !occupies(#[trigger] views(objects@)[j], x as int, y as int),
        decreases objects.len() - i,
    {
        let object = &objects[i];
        if object.blocks_motion && object.x == x && object.y == y {
            assert(occupies(views(objects@)[i as int], x as int, y as int));
            return true;
        }
        i += 1;
    }
    false
}

/// Borrows two different elements of a slice at once.
pub fn mut_two<T>(first_index: usize, second_index: usize, items: &mut [T]) -> (pair: (
    &mut T,
    &mut T,
))
    requires
        first_index != second_index,
        first_index < old(items)@.len(),
        second_index < old(items)@.len(),
    ensures
        *pair.0 == old(items)@[first_index as int],
        *pair.1 == old(items)@[second_index as int],
        final(items)@ == old(items)@.update(first_index as int, *final(pair.0)).update(
            second_index as int,
            *final(pair.1),
        ),
{
    let split_at_index: usize = if first_index < second_index {
        second_index
    } else {
        first_index
    };
    let (first_slice, second_slice) = items.split_at_mut(split_at_index);
    if first_index < second_index {
        (&mut first_slice[first_index], &mut second_slice[0])
    } else {
        (&mut second_slice[0], &mut first_slice[second_index])
    }
}

/// Moves object `id` by `(dx, dy)` unless the cell it would reach is
/// blocked, in which case nothing changes.
pub fn move_by(id: usize, dx: i32, dy: i32, game: &Game, objects: &mut Vec<Object>)
    requires
        id < old(objects).len(),
        step_on_grid(grid_of(game.map), old(objects)[id as int]@, dx as int, dy as int),
    ensures
        views(final(objects)@) == after_move(
            grid_of(game.map),
            views(old(objects)@),
            id as int,
            dx as int,
            dy as int,
        ),
        blocked_at(
            grid_of(game.map),
            views(old(objects)@),
            old(objects)[id as int].x + dx,
            old(objects)[id as int].y + dy,
        ) ==> views(final(objects)@) == views(old(objects)@),
{
    let (x, y) = objects[id].pos();
    if !is_blocked(x + dx, y + dy, &game.map, objects) {
        objects[id].set_pos(x + dx, y + dy);
        proof {
            lemma_views_update(old(objects)@, id as int, objects@[id as int]);
        }
    }
}

/// The sign of an integer: -1, 0 or 1.
pub open spec fn signum(d: int) -> int {
    if d > 0 {
        1
    } else if d < 0 {
        -1
    } else {
        0
    }
}

/// One component of the single step that leads from a cell towards another
/// cell `(d, e)` away, where `d` is the offset along the component's own
/// axis and `e` the offset along the other.
///
/// It is `d` divided by the straight-line distance, rounded to the nearest
/// integer: a step in the direction of `d` where `d` makes up at least half
/// of the distance, and no step otherwise, nor where both offsets are zero.
pub open spec fn unit_step(d: int, e: int) -> int {
    if 4 * d * d >= d * d + e * e {
        signum(d)
    } else {
        0
    }
}

/// Computes one component of the step towards a target: see
/// [`unit_step`].
pub fn step_component(d: i64, e: i64) -> (s: i32)
    requires
        -0x1_0000_0000 < d < 0x1_0000_0000,
        -0x1_0000_0000 < e < 0x1_0000_0000,
    ensures
        s == unit_step(d as int, e as int),
{
    assert(0 <= d * d <= 0x1_0000_0000 * 0x1_0000_0000) by (nonlinear_arith)
        requires
            -0x1_0000_0000 < d < 0x1_0000_0000,
    ;
    assert(0 <= e * e <= 0x1_0000_0000 * 0x1_0000_0000) by (nonlinear_arith)
        requires
            -0x1_0000_0000 < e < 0x1_0000_0000,
    ;
    let d2: i128 = (d as i128) * (d as i128);
    let e2: i128 = (e as i128) * (e as i128);
    assert(4 * d * d == 4 * (d * d)) by (nonlinear_arith);
    if 4 * d2 >= d2 + e2 {
        if d > 0 {
            1
        } else if d < 0 {
            -1
        } else {
            0
        }
    } else {
        0
    }
}

/// The step towards a target never leaves the rectangle spanned by the
/// mover and the target.
pub proof fn lemma_unit_step_between(from: int, to: int, other: int)
    ensures
        from <= to ==> from <= from + unit_step(to - from, other) <= to,
        to <= from ==> to <= from + unit_step(to - from, other) <= from,
{
}

/// The step towards a target that lies elsewhere leads to one of the eight
/// cells around the mover, and that cell is closer to the target.
pub proof fn lemma_step_leads_closer(dx: int, dy: int)
    requires
        dx != 0 || dy != 0,
    ensures
        -1 <= unit_step(dx, dy) <= 1,
        -1 <= unit_step(dy, dx) <= 1,
        unit_step(dx, dy) != 0 || unit_step(dy, dx) != 0,
        (dx - unit_step(dx, dy)) * (dx - unit_step(dx, dy)) + (dy - unit_step(dy, dx)) * (dy
            - unit_step(dy, dx)) < dx * dx + dy * dy,
{
    let sx = unit_step(dx, dy);
    let sy = unit_step(dy, dx);
    assert(sx != 0 || sy != 0) by (nonlinear_arith)
        requires
            dx != 0 || dy != 0,
            sx == unit_step(dx, dy),
            sy == unit_step(dy, dx),
    {
        if dx * dx >= dy * dy {
            assert(4 * dx * dx >= dx * dx + dy * dy);
            assert(dx != 0);
        } else {
            assert(4 * dy * dy >= dy * dy + dx * dx);
            assert(dy != 0);
        }
    }
    lemma_one_step_less(dx, sx);
    lemma_one_step_less(dy, sy);
}

/// A step of one in the direction of an offset brings its square down; no
/// step leaves it.
proof fn lemma_one_step_less(d: int, s: int)
    requires
        s == 0 || (s == signum(d) && d != 0),
    ensures
        s == 0 ==> (d - s) * (d - s) == d * d,
        s != 0 ==> (d - s) * (d - s) < d * d,
{
    if s == 1 {
        assert((d - 1) * (d - 1) == d * d - 2 * d + 1) by (nonlinear_arith);
    } else if s == -1 {
        assert((d + 1) * (d + 1) == d * d + 2 * d + 1) by (nonlinear_arith);
    }
}

/// The magnitude of a number.
pub open spec fn magnitude(d: int) -> int {
    if d >= 0 {
        d
    } else {
        -d
    }
}

/// The distance between two cells that are `(dx, dy)` apart, counted in
/// steps to any of the eight cells around: the greater of the distances
/// along the two axes.
pub open spec fn steps_apart(dx: int, dy: int) -> int {
    if magnitude(dx) >= magnitude(dy) {
        magnitude(dx)
    } else {
        magnitude(dy)
    }
}

/// Along the axis on which the target lies farther away, or no nearer, the
/// step always goes towards the target.
pub proof fn lemma_major_axis_steps(d: int, e: int)
    requires
        magnitude(d) >= magnitude(e),
        d != 0,
    ensures
        unit_step(d, e) == signum(d),
{
    assert(e * e <= d * d) by (nonlinear_arith)
        requires
            (d >= 0 && -d <= e <= d) || (d < 0 && d <= e <= -d),
    ;
    assert(d * d >= 0) by (nonlinear_arith);
    assert(4 * d * d == 4 * (d * d)) by (nonlinear_arith);
}

/// The step towards a target that lies elsewhere goes, along each axis,
/// towards the target or not at all, and it brings the mover exactly one
/// step nearer.
pub proof fn lemma_step_one_cell_closer(dx: int, dy: int)
    requires
        dx != 0 || dy != 0,
    ensures
        unit_step(dx, dy) == 0 || unit_step(dx, dy) == signum(dx),
        unit_step(dy, dx) == 0 || unit_step(dy, dx) == signum(dy),
        unit_step(dx, dy) != 0 || unit_step(dy, dx) != 0,
        steps_apart(dx - unit_step(dx, dy), dy - unit_step(dy, dx)) == steps_apart(dx, dy) - 1,
{
    if magnitude(dx) >= magnitude(dy) {
        lemma_major_axis_steps(dx, dy);
    }
    if magnitude(dy) >= magnitude(dx) {
        lemma_major_axis_steps(dy, dx);
    }
}

/// One step towards a target that lies elsewhere either is barred, and
/// then nothing changes, or takes the mover exactly one step nearer and
/// leaves every other object as it is.
pub proof fn lemma_move_towards_one_cell(
    grid: Seq<Seq<Tile>>,
    objects: Seq<ObjectView>,
    id: int,
    target_x: int,
    target_y: int,
)
    requires
        0 <= id < objects.len(),
        objects[id].x != target_x || objects[id].y != target_y,
    ensures
        ({
            let after = after_move_towards(grid, objects, id, target_x, target_y);
            let o = objects[id];
            ||| after == objects
            ||| {
                &&& after == objects.update(
                    id,
                    ObjectView { x: after[id].x, y: after[id].y, ..o },
                )
                &&& steps_apart(target_x - after[id].x, target_y - after[id].y) == steps_apart(
                    target_x - o.x,
                    target_y - o.y,
                ) - 1
            }
        }),
{
    let o = objects[id];
    lemma_step_one_cell_closer(target_x - o.x, target_y - o.y);
}

/// The objects after object `id` has tried to take one step towards
/// `(target_x, target_y)`.
pub open spec fn after_move_towards(
    grid: Seq<Seq<Tile>>,
    objects: Seq<ObjectView>,
    id: int,
    target_x: int,
    target_y: int,
) -> Seq<ObjectView> {
    let dx = target_x - objects[id].x;
    let dy = target_y - objects[id].y;
    after_move(grid, objects, id, unit_step(dx, dy), unit_step(dy, dx))
}

/// Moves object `id` one step towards `(target_x, target_y)` unless the
/// cell it would reach is blocked. An object that stands on the target
/// already stays there.
pub fn move_towards(
    id: usize,
    target_x: i32,
    target_y: i32,
    game: &Game,
    objects: &mut Vec<Object>,
)
    requires
        id < old(objects).len(),
        in_bounds(
            grid_of(game.map),
            old(objects)[id as int].x + unit_step(
                target_x - old(objects)[id as int].x,
                target_y - old(objects)[id as int].y,
            ),
            old(objects)[id as int].y + unit_step(
                target_y - old(objects)[id as int].y,
                target_x - old(objects)[id as int].x,
            ),
        ),
    ensures
        views(final(objects)@) == after_move_towards(
            grid_of(game.map),
            views(old(objects)@),
            id as int,
            target_x as int,
            target_y as int,
        ),
{
    let dx: i64 = target_x as i64 - objects[id].x as i64;
    let dy: i64 = target_y as i64 - objects[id].y as i64;
    let step_x = step_component(dx, dy);
    let step_y = step_component(dy, dx);
    proof {
        lemma_unit_step_between(objects[id as int].x as int, target_x as int, dy as int);
        lemma_unit_step_between(objects[id as int].y as int, target_y as int, dx as int);
    }
    move_by(id, step_x, step_y, game, objects)
}

/// The object stands on `(x, y)` and can fight.
pub open spec fn fighter_at(o: ObjectView, x: int, y: int) -> bool {
    o.x == x && o.y == y && o.fighter is Some
}

/// Object `i` is the first in the sequence that stands on `(x, y)` and can
/// fight.
pub open spec fn is_first_fighter_at(objects: Seq<ObjectView>, x: int, y: int, i: int) -> bool {
    &&& 0 <= i < objects.len()
    &&& fighter_at(objects[i], x, y)
    &&& forall|j: int| 0 <= j < i ==> !fighter_at(#[trigger] objects[j], x, y)
}

/// The index of the first object that stands on `(x, y)` and can fight, if
/// there is one.
pub open spec fn first_fighter_at(objects: Seq<ObjectView>, x: int, y: int) -> Option<int> {
    if exists|i: int| is_first_fighter_at(objects, x, y, i) {
        Some(choose|i: int| is_first_fighter_at(objects, x, y, i))
    } else {
        None
    }
}

/// Finds the first object that stands on `(x, y)` and can fight.
pub fn find_fighter_at(objects: &Vec<Object>, x: i32, y: i32) -> (found: Option<usize>)
    ensures
        match found {
            Some(i) => first_fighter_at(views(objects@), x as int, y as int) == Some(i as int),
            None => first_fighter_at(views(objects@), x as int, y as int) is None,
        },
        found is Some ==> found.unwrap() < objects.len(),
{
    let ghost vs = views(objects@);
    let mut i: usize = 0;
    while i < objects.len()
        invariant
            i <= objects.len(),
            vs == views(objects@),
            forall|j: int| 0 <= j < i ==> !fighter_at(#[trigger] vs[j], x as int, y as int),
        decreases objects.len() - i,
    {
        let object = &objects[i];
        if object.x == x && object.y == y && object.fighter.is_some() {
            assert(is_first_fighter_at(vs, x as int, y as int, i as int));
            return Some(i);
        }
        i += 1;
    }
    None
}

/// The objects after object `id` has acted in direction `(dx, dy)`: where
/// a fighter stands on the cell it aims at, object `id` has attacked the
/// first such fighter in place of moving; otherwise it has tried to move
/// there.
pub open spec fn after_move_or_attack(
    grid: Seq<Seq<Tile>>,
    objects: Seq<ObjectView>,
    id: int,
    dx: int,
    dy: int,
) -> Seq<ObjectView> {
    match first_fighter_at(objects, objects[id].x + dx, objects[id].y + dy) {
        Some(target) => objects.update(target, after_attack(objects[id], objects[target])),
        None => after_move(grid, objects, id, dx, dy),
    }
}

/// The lines logged while object `id` acts in direction `(dx, dy)`: those
/// of the attack where there is one, none for a move.
pub open spec fn move_or_attack_log(objects: Seq<ObjectView>, id: int, dx: int, dy: int) -> Seq<
    (Seq<char>, Color),
> {
    match first_fighter_at(objects, objects[id].x + dx, objects[id].y + dy) {
        Some(target) => attack_log(objects[id], objects[target]),
        None => Seq::empty(),
    }
}

/// What has to hold for object `id` to act in direction `(dx, dy)`: the
/// cell it aims at can be computed in `i32`; a fighter found there is not
/// the object itself and the attack on it can be computed; and a cell
/// without a fighter lies on the grid.
pub open spec fn can_move_or_attack(
    grid: Seq<Seq<Tile>>,
    objects: Seq<ObjectView>,
    id: int,
    dx: int,
    dy: int,
) -> bool {
    &&& 0 <= id < objects.len()
    &&& i32::MIN <= objects[id].x + dx <= i32::MAX
    &&& i32::MIN <= objects[id].y + dy <= i32::MAX
    &&& match first_fighter_at(objects, objects[id].x + dx, objects[id].y + dy) {
        Some(target) => target != id && attack_fits(objects[id], objects[target]),
        None => in_bounds(grid, objects[id].x + dx, objects[id].y + dy),
    }
}

/// Whether `attacker` can attack `target` without leaving the range of
/// `i32`.
pub fn attack_is_computable(attacker: &Object, target: &Object) -> (fits: bool)
    ensures
        fits == attack_fits(attacker@, target@),
{
    let power: i64 = match attacker.fighter {
        Some(f) => f.power as i64,
        None => 0,
    };
    let damage: i64 = match target.fighter {
        Some(f) => power - f.defense as i64,
        None => power,
    };
    if damage < i32::MIN as i64 || damage > i32::MAX as i64 {
        return false;
    }
    match target.fighter {
        Some(f) => damage <= 0 || f.hp as i64 - damage >= i32::MIN as i64,
        None => true,
    }
}

/// Whether the cell `(x, y)` lies on the map.
pub fn is_on_map(x: i64, y: i64, map: &TileMap) -> (on: bool)
    ensures
        on == in_bounds(grid_of(*map), x as int, y as int),
{
    if x < 0 || y < 0 || x as u64 >= map.len() as u64 {
        return false;
    }
    assert(grid_of(*map)[x as int] == map[x as int]@);
    (y as u64) < map[x as usize].len() as u64
}

/// Whether object `id` can act in direction `(dx, dy)`: see
/// [`can_move_or_attack`].
pub fn is_move_or_attack_possible(
    id: usize,
    dx: i32,
    dy: i32,
    game: &Game,
    objects: &Vec<Object>,
) -> (possible: bool)
    ensures
        possible == can_move_or_attack(
            grid_of(game.map),
            views(objects@),
            id as int,
            dx as int,
            dy as int,
        ),
{
    if id >= objects.len() {
        return false;
    }
    let x: i64 = objects[id].x as i64 + dx as i64;
    let y: i64 = objects[id].y as i64 + dy as i64;
    if x < i32::MIN as i64 || x > i32::MAX as i64 || y < i32::MIN as i64 || y > i32::MAX as i64 {
        return false;
    }
    match find_fighter_at(objects, x as i32, y as i32) {
        Some(target) => target != id && attack_is_computable(&objects[id], &objects[target]),
        None => is_on_map(x, y, &game.map),
    }
}

/// Lets object `id` act in direction `(dx, dy)`: an attack if a fighter
/// stands on the cell aimed at, a move otherwise.
pub fn player_move_or_attack(
    id: usize,
    dx: i32,
    dy: i32,
    game: &mut Game,
    objects: &mut Vec<Object>,
)
    requires
        can_move_or_attack(
            grid_of(old(game).map),
            views(old(objects)@),
            id as int,
            dx as int,
            dy as int,
        ),
    ensures
        views(final(objects)@) == after_move_or_attack(
            grid_of(old(game).map),
            views(old(objects)@),
            id as int,
            dx as int,
            dy as int,
        ),
        final(game).messages@ == old(game).messages@ + move_or_attack_log(
            views(old(objects)@),
            id as int,
            dx as int,
            dy as int,
        ),
        final(game).map == old(game).map,
        final(game).inventory == old(game).inventory,
{
    let (mut x, mut y) = objects[id].pos();
    x = x + dx;
    y = y + dy;

    let target_id = find_fighter_at(objects, x, y);
    match target_id {
        Some(target_id) => {
            let (attacker, target) = mut_two(id, target_id, objects);
            attacker.attack(target, game);
            proof {
                assert(views(objects@) =~= after_move_or_attack(
                    grid_of(old(game).map),
                    views(old(objects)@),
                    id as int,
                    dx as int,
                    dy as int,
                ));
            }
        },
        None => {
            move_by(id, dx, dy, game, objects);
            assert(game.messages@ =~= old(game).messages@ + move_or_attack_log(
                views(old(objects)@),
                id as int,
                dx as int,
                dy as int,
            ));
        },
    }
}

/// The line logged when an item cannot be picked up for want of room.
pub open spec fn inventory_full_text(name: Seq<char>) -> Seq<char> {
    "The inventory is full, cannot pick up "@ + name + "."@
}

/// The line logged when an item has been picked up.
pub open spec fn picked_up_text(name: Seq<char>) -> Seq<char> {
    "You picked up a "@ + name + "!"@
}

/// The sequence after the element at `i` has been taken out and the last
/// element has been put in its place.
pub open spec fn swap_removed<T>(s: Seq<T>, i: int) -> Seq<T> {
    s.update(i, s.last()).drop_last()
}

/// The objects on the map after an attempt to pick up object `id` with
/// `carried` items in the inventory: with room left the object is gone and
/// the last object has taken its index; otherwise nothing has changed.
pub open spec fn objects_after_pick_up(objects: Seq<ObjectView>, carried: int, id: int) -> Seq<
    ObjectView,
> {
    if carried >= INVENTORY_CAPACITY {
        objects
    } else {
        swap_removed(objects, id)
    }
}

/// The inventory after an attempt to pick up object `id`: with room left
/// the object has been added at the end; otherwise nothing has changed.
pub open spec fn inventory_after_pick_up(
    objects: Seq<ObjectView>,
    inventory: Seq<ObjectView>,
    id: int,
) -> Seq<ObjectView> {
    if inventory.len() >= INVENTORY_CAPACITY {
        inventory
    } else {
        inventory.push(objects[id])
    }
}

/// The line logged for an attempt to pick up object `id` with `carried`
/// items in the inventory.
pub open spec fn pick_up_message(objects: Seq<ObjectView>, carried: int, id: int) -> (
    Seq<char>,
    Color,
) {
    if carried >= INVENTORY_CAPACITY {
        (inventory_full_text(objects[id].name), red())
    } else {
        (picked_up_text(objects[id].name), green())
    }
}

/// Moves object `object_id` from the map into the inventory, where there
/// is room for it; the last object on the map takes its index. With a full
/// inventory the object stays on the map. Either way the outcome is logged.
pub fn pick_item_up(object_id: usize, game: &mut Game, objects: &mut Vec<Object>)
    requires
        object_id < old(objects).len(),
    ensures
        views(final(objects)@) == objects_after_pick_up(
            views(old(objects)@),
            old(game).inventory.len() as int,
            object_id as int,
        ),
        views(final(game).inventory@) == inventory_after_pick_up(
            views(old(objects)@),
            views(old(game).inventory@),
            object_id as int,
        ),
        final(game).messages@ == old(game).messages@.push(
            pick_up_message(
                views(old(objects)@),
                old(game).inventory.len() as int,
                object_id as int,
            ),
        ),
        final(game).map == old(game).map,
        old(game).inventory.len() <= INVENTORY_CAPACITY ==> final(game).inventory.len()
            <= INVENTORY_CAPACITY,
{
    if game.inventory.len() >= INVENTORY_CAPACITY {
        let mut line = String::from_str("The inventory is full, cannot pick up ");
        line.append(objects[object_id].name.as_str());
        line.append(".");
        game.messages.add(line, red());
    } else {
        let item = objects.swap_remove(object_id);
        let mut line = String::from_str("You picked up a ");
        line.append(item.name.as_str());
        line.append("!");
        game.messages.add(line, green());
        game.inventory.push(item);
        assert(views(objects@) =~= swap_removed(views(old(objects)@), object_id as int));
        assert(views(game.inventory@) =~= views(old(game).inventory@).push(
            old(objects)[object_id as int]@,
        ));
    }
}

} // verus!
