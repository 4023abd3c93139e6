use vstd::prelude::*;
use crate::colors::Color;
use crate::fov::{covers, FovSnapshot};
use crate::game::Game;
use crate::movement::{
    after_move_towards, attack_is_computable, is_on_map, lemma_unit_step_between, move_towards,
    mut_two, step_component, unit_step,
};
use crate::object::{
    after_attack, attack_damage, attack_fits, attack_log, defense_of, distance_squared, views,
    Object, ObjectView,
};
use crate::tile::{grid_of, has_size, in_bounds, Tile, MAP_HEIGHT, MAP_WIDTH};

verus! {

/// What a monster does on its turn.
pub enum AiAction {
    /// Nothing.
    Wait,
    /// One step towards the player.
    Approach,
    /// An attack on the player.
    Attack,
}

/// The object still has hit points.
pub open spec fn has_hit_points(o: ObjectView) -> bool {
    o.fighter is Some && o.fighter.unwrap().hp > 0
}

/// What object `id` does on its turn, the player being the object at index
/// 0.
///
/// A monster that the player does not see waits. One that the player sees
/// approaches while its straight-line distance to the player is at least
/// two cells; once nearer it attacks, as long as the player has hit points
/// left. What a monster sees is what the player sees.
pub open spec fn ai_action(fov: Seq<Seq<bool>>, objects: Seq<ObjectView>, id: int) -> AiAction {
    let monster = objects[id];
    let player = objects[0];
    if !fov[monster.x][monster.y] {
        AiAction::Wait
    } else if distance_squared(monster.x, monster.y, player.x, player.y) >= 4 {
        AiAction::Approach
    } else if has_hit_points(player) {
        AiAction::Attack
    } else {
        AiAction::Wait
    }
}

/// The objects after the turn of object `id`.
pub open spec fn after_ai_turn(
    fov: Seq<Seq<bool>>,
    grid: Seq<Seq<Tile>>,
    objects: Seq<ObjectView>,
    id: int,
) -> Seq<ObjectView> {
    match ai_action(fov, objects, id) {
        AiAction::Wait => objects,
        AiAction::Approach => after_move_towards(grid, objects, id, objects[0].x, objects[0].y),
        AiAction::Attack => objects.update(0, after_attack(objects[id], objects[0])),
    }
}

/// The lines logged during the turn of object `id`.
pub open spec fn ai_turn_log(fov: Seq<Seq<bool>>, objects: Seq<ObjectView>, id: int) -> Seq<
    (Seq<char>, Color),
> {
    match ai_action(fov, objects, id) {
        AiAction::Attack => attack_log(objects[id], objects[0]),
        _ => Seq::empty(),
    }
}

/// What has to hold for object `id` to take its turn: its cell lies within
/// the snapshot; the cell it would step to lies on the grid; and where it
/// attacks, it is not the player itself and the attack can be computed.
pub open spec fn can_take_ai_turn(
    fov: Seq<Seq<bool>>,
    grid: Seq<Seq<Tile>>,
    objects: Seq<ObjectView>,
    id: int,
) -> bool {
    let monster = objects[id];
    let player = objects[0];
    &&& 0 <= id < objects.len()
    &&& covers(fov, monster.x, monster.y)
    &&& match ai_action(fov, objects, id) {
        AiAction::Wait => true,
        AiAction::Approach => in_bounds(
            grid,
            monster.x + unit_step(player.x - monster.x, player.y - monster.y),
            monster.y + unit_step(player.y - monster.y, player.x - monster.x),
        ),
        AiAction::Attack => id != 0 && attack_fits(monster, player),
    }
}

/// Lets monster `monster_id` take its turn against the player, the object
/// at index 0.
pub fn ai_take_turn(
    monster_id: usize,
    fov: &FovSnapshot,
    game: &mut Game,
    objects: &mut Vec<Object>,
)
    requires
        can_take_ai_turn(fov@, grid_of(old(game).map), views(old(objects)@), monster_id as int),
    ensures
        views(final(objects)@) == after_ai_turn(
            fov@,
            grid_of(old(game).map),
            views(old(objects)@),
            monster_id as int,
        ),
        final(game).messages@ == old(game).messages@ + ai_turn_log(
            fov@,
            views(old(objects)@),
            monster_id as int,
        ),
        final(game).map == old(game).map,
        final(game).inventory == old(game).inventory,
{
    let (monster_x, monster_y) = objects[monster_id].pos();
    if fov.is_in_fov(monster_x, monster_y) {
        if objects[monster_id].distance_squared_to(&objects[0]) >= 4 {
            let (player_x, player_y) = objects[0].pos();
            move_towards(monster_id, player_x, player_y, game, objects);
            assert(game.messages@ =~= old(game).messages@ + ai_turn_log(
                fov@,
                views(old(objects)@),
                monster_id as int,
            ));
        } else if player_has_hit_points(&objects[0]) {
            let (monster, player) = mut_two(monster_id, 0, objects);
            monster.attack(player, game);
            assert(views(objects@) =~= after_ai_turn(
                fov@,
                grid_of(old(game).map),
                views(old(objects)@),
                monster_id as int,
            ));
        } else {
            assert(game.messages@ =~= old(game).messages@ + ai_turn_log(
                fov@,
                views(old(objects)@),
                monster_id as int,
            ));
        }
    } else {
        assert(game.messages@ =~= old(game).messages@ + ai_turn_log(
            fov@,
            views(old(objects)@),
            monster_id as int,
        ));
    }
}

fn player_has_hit_points(player: &Object) -> (b: bool)
    ensures
        b == has_hit_points(player@),
{
    match player.fighter {
        Some(f) => f.hp > 0,
        None => false,
    }
}

/// The objects after each of the first `upto` objects that has an AI has
/// taken its turn, in the order of their indices.
pub open spec fn after_ai_turns(
    fov: Seq<Seq<bool>>,
    grid: Seq<Seq<Tile>>,
    objects: Seq<ObjectView>,
    upto: int,
) -> Seq<ObjectView>
    decreases upto,
{
    if upto <= 0 {
        objects
    } else {
        let earlier = after_ai_turns(fov, grid, objects, upto - 1);
        if earlier[upto - 1].ai is Some {
            after_ai_turn(fov, grid, earlier, upto - 1)
        } else {
            earlier
        }
    }
}

/// The lines logged while the first `upto` objects take their turns.
pub open spec fn ai_turns_log(
    fov: Seq<Seq<bool>>,
    grid: Seq<Seq<Tile>>,
    objects: Seq<ObjectView>,
    upto: int,
) -> Seq<(Seq<char>, Color)>
    decreases upto,
{
    if upto <= 0 {
        Seq::empty()
    } else {
        let earlier = after_ai_turns(fov, grid, objects, upto - 1);
        let log = ai_turns_log(fov, grid, objects, upto - 1);
        if earlier[upto - 1].ai is Some {
            log + ai_turn_log(fov, earlier, upto - 1)
        } else {
            log
        }
    }
}

/// Each of the first `upto` objects that has an AI can take its turn when
/// its time has come.
pub open spec fn can_take_ai_turns(
    fov: Seq<Seq<bool>>,
    grid: Seq<Seq<Tile>>,
    objects: Seq<ObjectView>,
    upto: int,
) -> bool
    decreases upto,
{
    if upto <= 0 {
        true
    } else {
        let earlier = after_ai_turns(fov, grid, objects, upto - 1);
        &&& can_take_ai_turns(fov, grid, objects, upto - 1)
        &&& earlier[upto - 1].ai is Some ==> can_take_ai_turn(fov, grid, earlier, upto - 1)
    }
}

/// The turns do not change the number of objects.
pub proof fn lemma_ai_turns_len(
    fov: Seq<Seq<bool>>,
    grid: Seq<Seq<Tile>>,
    objects: Seq<ObjectView>,
    upto: int,
)
    requires
        0 <= upto <= objects.len(),
    ensures
        after_ai_turns(fov, grid, objects, upto).len() == objects.len(),
    decreases upto,
{
    if upto > 0 {
        lemma_ai_turns_len(fov, grid, objects, upto - 1);
    }
}

/// Whether object `monster_id` can take its turn: see
/// [`can_take_ai_turn`].
pub fn is_ai_turn_possible(
    monster_id: usize,
    fov: &FovSnapshot,
    game: &Game,
    objects: &Vec<Object>,
) -> (possible: bool)
    ensures
        possible == can_take_ai_turn(
            fov@,
            grid_of(game.map),
            views(objects@),
            monster_id as int,
        ),
{
    if monster_id >= objects.len() {
        return false;
    }
    let monster = &objects[monster_id];
    let player = &objects[0];
    if monster.x < 0 || monster.y < 0 || monster.x as usize >= fov.visible.len() {
        return false;
    }
    assert(fov@[monster.x as int] == fov.visible[monster.x as int]@);
    if monster.y as usize >= fov.visible[monster.x as usize].len() {
        return false;
    }
    if !fov.is_in_fov(monster.x, monster.y) {
        return true;
    }
    if monster.distance_squared_to(player) >= 4 {
        let dx: i64 = player.x as i64 - monster.x as i64;
        let dy: i64 = player.y as i64 - monster.y as i64;
        let x: i64 = monster.x as i64 + step_component(dx, dy) as i64;
        let y: i64 = monster.y as i64 + step_component(dy, dx) as i64;
        is_on_map(x, y, &game.map)
    } else if player_has_hit_points(player) {
        monster_id != 0 && attack_is_computable(monster, player)
    } else {
        true
    }
}

/// The number of turns that are taken when the first `upto` objects are to
/// take their turns one after the other and the pass ends before the first
/// turn that cannot be taken.
pub open spec fn ai_turns_taken(
    fov: Seq<Seq<bool>>,
    grid: Seq<Seq<Tile>>,
    objects: Seq<ObjectView>,
    upto: int,
) -> int
    decreases upto,
{
    if upto <= 0 {
        0
    } else if can_take_ai_turns(fov, grid, objects, upto) {
        upto
    } else {
        ai_turns_taken(fov, grid, objects, upto - 1)
    }
}

/// The pass ends before the first turn that cannot be taken.
pub proof fn lemma_ai_turns_end(
    fov: Seq<Seq<bool>>,
    grid: Seq<Seq<Tile>>,
    objects: Seq<ObjectView>,
    upto: int,
    taken: int,
)
    requires
        0 <= taken < upto,
        can_take_ai_turns(fov, grid, objects, taken),
        !can_take_ai_turns(fov, grid, objects, taken + 1),
    ensures
        ai_turns_taken(fov, grid, objects, upto) == taken,
    decreases upto,
{
    if can_take_ai_turns(fov, grid, objects, upto) {
        lemma_can_take_earlier(fov, grid, objects, upto, taken + 1);
    }
    if upto - 1 > taken {
        lemma_ai_turns_end(fov, grid, objects, upto - 1, taken);
    } else {
        assert(ai_turns_taken(fov, grid, objects, taken) == taken);
    }
}

/// Lets the objects that have an AI take their turns, in the order of
/// their indices, as far as that can be done: the pass ends before the
/// first turn that cannot be taken. Says whether every turn was taken.
pub fn try_take_ai_turns(fov: &FovSnapshot, game: &mut Game, objects: &mut Vec<Object>) -> (done:
    bool)
    ensures
        done == can_take_ai_turns(
            fov@,
            grid_of(old(game).map),
            views(old(objects)@),
            old(objects).len() as int,
        ),
        views(final(objects)@) == after_ai_turns(
            fov@,
            grid_of(old(game).map),
            views(old(objects)@),
            ai_turns_taken(
                fov@,
                grid_of(old(game).map),
                views(old(objects)@),
                old(objects).len() as int,
            ),
        ),
        final(game).messages@ == old(game).messages@ + ai_turns_log(
            fov@,
            grid_of(old(game).map),
            views(old(objects)@),
            ai_turns_taken(
                fov@,
                grid_of(old(game).map),
                views(old(objects)@),
                old(objects).len() as int,
            ),
        ),
        final(game).map == old(game).map,
        final(game).inventory == old(game).inventory,
{
    let ghost grid = grid_of(game.map);
    let ghost first = views(objects@);
    let count = objects.len();
    assert(game.messages@ =~= old(game).messages@ + ai_turns_log(fov@, grid, first, 0));
    let mut id: usize = 0;
    while id < count
        invariant
            id <= count,
            count == first.len(),
            objects.len() == count,
            grid == grid_of(old(game).map),
            first == views(old(objects)@),
            can_take_ai_turns(fov@, grid, first, id as int),
            views(objects@) == after_ai_turns(fov@, grid, first, id as int),
            game.messages@ == old(game).messages@ + ai_turns_log(fov@, grid, first, id as int),
            game.map == old(game).map,
            game.inventory == old(game).inventory,
        decreases count - id,
    {
        if objects[id].ai.is_some() {
            if !is_ai_turn_possible(id, fov, game, objects) {
                proof {
                    lemma_ai_turns_end(fov@, grid, first, count as int, id as int);
                    if can_take_ai_turns(fov@, grid, first, count as int) {
                        lemma_can_take_earlier(fov@, grid, first, count as int, id as int + 1);
                    }
                }
                return false;
            }
            ai_take_turn(id, fov, game, objects);
            proof {
                lemma_ai_turns_len(fov@, grid, first, id as int + 1);
                assert(game.messages@ =~= old(game).messages@ + ai_turns_log(
                    fov@,
                    grid,
                    first,
                    id as int + 1,
                ));
            }
        }
        id += 1;
    }
    true
}

/// Lets every object that has an AI take its turn, in the order of their
/// indices.
pub fn take_ai_turns(fov: &FovSnapshot, game: &mut Game, objects: &mut Vec<Object>)
    requires
        can_take_ai_turns(
            fov@,
            grid_of(old(game).map),
            views(old(objects)@),
            old(objects).len() as int,
        ),
    ensures
        views(final(objects)@) == after_ai_turns(
            fov@,
            grid_of(old(game).map),
            views(old(objects)@),
            old(objects).len() as int,
        ),
        final(game).messages@ == old(game).messages@ + ai_turns_log(
            fov@,
            grid_of(old(game).map),
            views(old(objects)@),
            old(objects).len() as int,
        ),
        final(game).map == old(game).map,
        final(game).inventory == old(game).inventory,
{
    let ghost grid = grid_of(game.map);
    let ghost first = views(objects@);
    let count = objects.len();
    assert(game.messages@ =~= old(game).messages@ + ai_turns_log(fov@, grid, first, 0));
    let mut id: usize = 0;
    while id < count
        invariant
            id <= count,
            count == first.len(),
            objects.len() == count,
            grid == grid_of(old(game).map),
            first == views(old(objects)@),
            can_take_ai_turns(fov@, grid, first, count as int),
            views(objects@) == after_ai_turns(fov@, grid, first, id as int),
            game.messages@ == old(game).messages@ + ai_turns_log(fov@, grid, first, id as int),
            game.map == old(game).map,
            game.inventory == old(game).inventory,
        decreases count - id,
    {
        proof {
            lemma_can_take_earlier(fov@, grid, first, count as int, id as int + 1);
        }
        if objects[id].ai.is_some() {
            ai_take_turn(id, fov, game, objects);
            proof {
                lemma_ai_turns_len(fov@, grid, first, id as int + 1);
                assert(game.messages@ =~= old(game).messages@ + ai_turns_log(
                    fov@,
                    grid,
                    first,
                    id as int + 1,
                ));
            }
        }
        id += 1;
    }
}

/// What can be done up to a later turn can be done up to an earlier one.
pub proof fn lemma_can_take_earlier(
    fov: Seq<Seq<bool>>,
    grid: Seq<Seq<Tile>>,
    objects: Seq<ObjectView>,
    upto: int,
    earlier: int,
)
    requires
        can_take_ai_turns(fov, grid, objects, upto),
        earlier <= upto,
    ensures
        can_take_ai_turns(fov, grid, objects, earlier),
    decreases upto,
{
    if earlier < upto && upto > 0 {
        lemma_can_take_earlier(fov, grid, objects, upto - 1, earlier);
    }
}

/// The position lies on a grid of the given size.
pub open spec fn within(o: ObjectView, width: int, height: int) -> bool {
    0 <= o.x < width && 0 <= o.y < height
}

/// A plain state of play, in which every monster can take its turn: the
/// grid and the snapshot have the same size; the player, at index 0, and
/// every object with an AI stand on the grid; the player has no AI; and
/// the damage that each object with an AI does to the player can be
/// computed in `i32`.
pub open spec fn ready_for_ai_turns(
    fov: Seq<Seq<bool>>,
    grid: Seq<Seq<Tile>>,
    objects: Seq<ObjectView>,
    width: int,
    height: int,
) -> bool {
    &&& objects.len() > 0
    &&& has_size(grid, width, height)
    &&& fov.len() == width
    &&& forall|x: int| 0 <= x < width ==> (#[trigger] fov[x]).len() == height
    &&& objects[0].ai is None
    &&& within(objects[0], width, height)
    &&& forall|i: int|
        0 <= i < objects.len() && (#[trigger] objects[i]).ai is Some ==> {
            &&& within(objects[i], width, height)
            &&& i32::MIN <= attack_damage(objects[i], objects[0]) <= i32::MAX
        }
}

/// Whether the game on a map and a snapshot of the size of a level is in a
/// plain state of play: see [`ready_for_ai_turns`].
pub fn is_ready_for_ai_turns(fov: &FovSnapshot, game: &Game, objects: &Vec<Object>) -> (ready: bool)
    ensures
        ready == ready_for_ai_turns(
            fov@,
            grid_of(game.map),
            views(objects@),
            MAP_WIDTH as int,
            MAP_HEIGHT as int,
        ),
{
    let ghost grid = grid_of(game.map);
    let ghost vs = views(objects@);
    if objects.len() == 0 || game.map.len() != MAP_WIDTH as usize || fov.visible.len()
        != MAP_WIDTH as usize {
        return false;
    }
    let mut x: usize = 0;
    while x < MAP_WIDTH as usize
        invariant
            x <= MAP_WIDTH,
            grid == grid_of(game.map),
            grid.len() == MAP_WIDTH,
            fov@.len() == MAP_WIDTH,
            forall|i: int| 0 <= i < x ==> (#[trigger] grid[i]).len() == MAP_HEIGHT,
            forall|i: int| 0 <= i < x ==> (#[trigger] fov@[i]).len() == MAP_HEIGHT,
        decreases MAP_WIDTH - x,
    {
        assert(grid[x as int] == game.map[x as int]@);
        assert(fov@[x as int] == fov.visible[x as int]@);
        if game.map[x].len() != MAP_HEIGHT as usize || fov.visible[x].len() != MAP_HEIGHT as usize {
            return false;
        }
        x += 1;
    }
    let player = &objects[0];
    if player.ai.is_some() || !is_within_level(player) {
        return false;
    }
    let defense: i64 = match player.fighter {
        Some(f) => f.defense as i64,
        None => 0,
    };
    let mut i: usize = 0;
    while i < objects.len()
        invariant
            i <= objects.len(),
            vs == views(objects@),
            defense == defense_of(vs[0]),
            forall|j: int|
                0 <= j < i && (#[trigger] vs[j]).ai is Some ==> {
                    &&& within(vs[j], MAP_WIDTH as int, MAP_HEIGHT as int)
                    &&& i32::MIN <= attack_damage(vs[j], vs[0]) <= i32::MAX
                },
        decreases objects.len() - i,
    {
        let object = &objects[i];
        if object.ai.is_some() {
            let power: i64 = match object.fighter {
                Some(f) => f.power as i64,
                None => 0,
            };
            let damage: i64 = power - defense;
            if !is_within_level(object) || damage < i32::MIN as i64 || damage > i32::MAX as i64 {
                assert(vs[i as int].ai is Some);
                return false;
            }
        }
        i += 1;
    }
    true
}

fn is_within_level(o: &Object) -> (b: bool)
    ensures
        b == within(o@, MAP_WIDTH as int, MAP_HEIGHT as int),
{
    0 <= o.x && o.x < MAP_WIDTH && 0 <= o.y && o.y < MAP_HEIGHT
}

/// What the turns of the monsters leave untouched: the player's place and
/// armour, unless the player can fight no more, and of every other object
/// all but its place, which stays on the grid.
spec fn kept_through_turns(
    objects: Seq<ObjectView>,
    state: Seq<ObjectView>,
    width: int,
    height: int,
) -> bool {
    &&& state.len() == objects.len()
    &&& state[0].x == objects[0].x
    &&& state[0].y == objects[0].y
    &&& state[0].ai is None
    &&& state[0].fighter is None || (objects[0].fighter is Some
        && state[0].fighter.unwrap().defense == objects[0].fighter.unwrap().defense)
    &&& forall|i: int|
        1 <= i < objects.len() ==> {
            &&& (#[trigger] state[i]).ai == objects[i].ai
            &&& state[i].fighter == objects[i].fighter
            &&& state[i].ai is Some ==> within(state[i], width, height)
        }
}

proof fn lemma_turn_keeps(
    fov: Seq<Seq<bool>>,
    grid: Seq<Seq<Tile>>,
    objects: Seq<ObjectView>,
    state: Seq<ObjectView>,
    width: int,
    height: int,
    id: int,
)
    requires
        ready_for_ai_turns(fov, grid, objects, width, height),
        kept_through_turns(objects, state, width, height),
        0 <= id < state.len(),
        state[id].ai is Some,
    ensures
        can_take_ai_turn(fov, grid, state, id),
        kept_through_turns(objects, after_ai_turn(fov, grid, state, id), width, height),
{
    let monster = state[id];
    let player = state[0];
    assert(id != 0);
    assert(objects[id].ai is Some);
    assert(within(monster, width, height));
    assert(fov[monster.x].len() == height);
    let dx = player.x - monster.x;
    let dy = player.y - monster.y;
    lemma_unit_step_between(monster.x, player.x, dy);
    lemma_unit_step_between(monster.y, player.y, dx);
    let to_x = monster.x + unit_step(dx, dy);
    let to_y = monster.y + unit_step(dy, dx);
    assert(0 <= to_x < width && 0 <= to_y < height);
    assert(grid[to_x].len() == height);
    let next = after_ai_turn(fov, grid, state, id);
    assert(next.len() == state.len());
    match ai_action(fov, state, id) {
        AiAction::Wait => {},
        AiAction::Approach => {
            assert forall|i: int| 1 <= i < objects.len() implies {
                &&& (#[trigger] next[i]).ai == objects[i].ai
                &&& next[i].fighter == objects[i].fighter
                &&& next[i].ai is Some ==> within(next[i], width, height)
            } by {
                if i != id {
                    assert(next[i] == state[i]);
                }
            }
        },
        AiAction::Attack => {
            assert(state[id].fighter == objects[id].fighter);
            assert forall|i: int| 1 <= i < objects.len() implies {
                &&& (#[trigger] next[i]).ai == objects[i].ai
                &&& next[i].fighter == objects[i].fighter
                &&& next[i].ai is Some ==> within(next[i], width, height)
            } by {
                assert(next[i] == state[i]);
            }
        },
    }
}

proof fn lemma_turns_keep(
    fov: Seq<Seq<bool>>,
    grid: Seq<Seq<Tile>>,
    objects: Seq<ObjectView>,
    width: int,
    height: int,
    upto: int,
)
    requires
        ready_for_ai_turns(fov, grid, objects, width, height),
        0 <= upto <= objects.len(),
    ensures
        can_take_ai_turns(fov, grid, objects, upto),
        kept_through_turns(objects, after_ai_turns(fov, grid, objects, upto), width, height),
    decreases upto,
{
    if upto > 0 {
        lemma_turns_keep(fov, grid, objects, width, height, upto - 1);
        let earlier = after_ai_turns(fov, grid, objects, upto - 1);
        if earlier[upto - 1].ai is Some {
            lemma_turn_keeps(fov, grid, objects, earlier, width, height, upto - 1);
        }
    }
}

/// In a plain state of play every monster can take its turn.
pub proof fn lemma_ready_for_ai_turns(
    fov: Seq<Seq<bool>>,
    grid: Seq<Seq<Tile>>,
    objects: Seq<ObjectView>,
    width: int,
    height: int,
)
    requires
        ready_for_ai_turns(fov, grid, objects, width, height),
    ensures
        can_take_ai_turns(fov, grid, objects, objects.len() as int),
{
    lemma_turns_keep(fov, grid, objects, width, height, objects.len() as int);
}

} // verus!
