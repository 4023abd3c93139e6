use vstd::prelude::*;
use crate::colors::{darker_green, desaturated_green, violet};
use crate::components::{Ai, DeathCallback, Fighter, Item};
use crate::game::Game;
use crate::movement::{blocked_at, is_blocked};
use crate::object::{views, Object, ObjectView};
use crate::rng::{random_range, random_ratio};
use crate::roomgen::Rect;
use crate::tile::{grid_of, in_bounds, Tile};

verus! {

/// Greatest number of monsters placed in one room.
pub const MAX_ROOM_MONSTERS: i32 = 4;

/// Greatest number of items placed in one room.
pub const MAX_ROOM_ITEMS: i32 = 3;

/// An orc on `(x, y)`: a weak monster.
pub open spec fn orc_at(x: int, y: int) -> ObjectView {
    ObjectView {
        x,
        y,
        glyph: 'o',
        color: desaturated_green(),
        name: "Orc"@,
        blocks_motion: true,
        is_alive: true,
        fighter: Some(
            Fighter { max_hp: 10, hp: 10, defense: 0, power: 3, on_death: DeathCallback::Monster },
        ),
        ai: Some(Ai::Basic),
        item: None,
    }
}

/// A troll on `(x, y)`: a monster that is stronger than an orc in every
/// respect.
pub open spec fn troll_at(x: int, y: int) -> ObjectView {
    ObjectView {
        x,
        y,
        glyph: 'T',
        color: darker_green(),
        name: "Troll"@,
        blocks_motion: true,
        is_alive: true,
        fighter: Some(
            Fighter { max_hp: 16, hp: 16, defense: 1, power: 4, on_death: DeathCallback::Monster },
        ),
        ai: Some(Ai::Basic),
        item: None,
    }
}

/// A healing potion on `(x, y)`.
pub open spec fn potion_at(x: int, y: int) -> ObjectView {
    ObjectView {
        x,
        y,
        glyph: '!',
        color: violet(),
        name: "Potion of Healing"@,
        blocks_motion: false,
        is_alive: true,
        fighter: None,
        ai: None,
        item: Some(Item::Heal),
    }
}

/// The object is a fresh orc or troll.
pub open spec fn is_monster(o: ObjectView) -> bool {
    o == orc_at(o.x, o.y) || o == troll_at(o.x, o.y)
}

/// The object is a fresh healing potion.
pub open spec fn is_potion(o: ObjectView) -> bool {
    o == potion_at(o.x, o.y)
}

/// Makes a monster on `(x, y)`: an orc if `orc` is set, a troll otherwise.
pub fn make_monster(x: i32, y: i32, orc: bool) -> (monster: Object)
    ensures
        monster@ == monster_at(x as int, y as int, orc),
{
    if orc {
        let mut orc = Object::new(
            x,
            y,
            'o',
            desaturated_green(),
            String::from_str("Orc"),
            true,
            true,
        );
        orc.ai = Some(Ai::Basic);
        orc.fighter = Some(
            Fighter { max_hp: 10, hp: 10, defense: 0, power: 3, on_death: DeathCallback::Monster },
        );
        orc
    } else {
        let mut troll = Object::new(
            x,
            y,
            'T',
            darker_green(),
            String::from_str("Troll"),
            true,
            true,
        );
        troll.ai = Some(Ai::Basic);
        troll.fighter = Some(
            Fighter { max_hp: 16, hp: 16, defense: 1, power: 4, on_death: DeathCallback::Monster },
        );
        troll
    }
}

/// Makes a healing potion on `(x, y)`.
pub fn make_potion(x: i32, y: i32) -> (potion: Object)
    ensures
        potion@ == potion_at(x as int, y as int),
{
    let mut object = Object::new(
        x,
        y,
        '!',
        violet(),
        String::from_str("Potion of Healing"),
        false,
        true,
    );
    object.item = Some(Item::Heal);
    object
}

/// The monster that `make_monster` makes on `(x, y)`.
pub open spec fn monster_at(x: int, y: int, orc: bool) -> ObjectView {
    if orc {
        orc_at(x, y)
    } else {
        troll_at(x, y)
    }
}

/// The objects after an attempt to place `candidate`: it has been added at
/// the end if its cell was blocked, by a wall or by an object that blocks
/// movement, and nothing has changed if the cell was free.
pub open spec fn after_placing(
    grid: Seq<Seq<Tile>>,
    objects: Seq<ObjectView>,
    candidate: ObjectView,
) -> Seq<ObjectView> {
    if blocked_at(grid, objects, candidate.x, candidate.y) {
        objects.push(candidate)
    } else {
        objects
    }
}

/// Places a monster on `(x, y)`, an orc if `orc` is set and a troll
/// otherwise, if that cell is blocked on the map of `game` with the objects
/// as they are; says whether it did.
pub fn place_monster(x: i32, y: i32, orc: bool, objects: &mut Vec<Object>, game: &Game) -> (placed:
    bool)
    requires
        in_bounds(grid_of(game.map), x as int, y as int),
    ensures
        placed == blocked_at(grid_of(game.map), views(old(objects)@), x as int, y as int),
        views(final(objects)@) == after_placing(
            grid_of(game.map),
            views(old(objects)@),
            monster_at(x as int, y as int, orc),
        ),
{
    if is_blocked(x, y, &game.map, objects) {
        let monster = make_monster(x, y, orc);
        objects.push(monster);
        assert(views(objects@) =~= views(old(objects)@).push(monster@));
        true
    } else {
        false
    }
}

/// Places a healing potion on `(x, y)` if that cell is blocked on the map
/// of `game` with the objects as they are; says whether it did.
pub fn place_potion(x: i32, y: i32, objects: &mut Vec<Object>, game: &Game) -> (placed: bool)
    requires
        in_bounds(grid_of(game.map), x as int, y as int),
    ensures
        placed == blocked_at(grid_of(game.map), views(old(objects)@), x as int, y as int),
        views(final(objects)@) == after_placing(
            grid_of(game.map),
            views(old(objects)@),
            potion_at(x as int, y as int),
        ),
{
    if is_blocked(x, y, &game.map, objects) {
        let potion = make_potion(x, y);
        objects.push(potion);
        assert(views(objects@) =~= views(old(objects)@).push(potion@));
        true
    } else {
        false
    }
}

/// `added` holds what one room can be stocked with: at most
/// `MAX_ROOM_MONSTERS` fresh monsters followed by at most `MAX_ROOM_ITEMS`
/// fresh potions, all inside `room`.
pub open spec fn is_stock_of(added: Seq<ObjectView>, room: Rect) -> bool {
    exists|monsters: int|
        {
            &&& 0 <= monsters <= MAX_ROOM_MONSTERS
            &&& monsters <= added.len() <= #[trigger] (monsters + MAX_ROOM_ITEMS)
            &&& forall|i: int|
                0 <= i < added.len() ==> room.contains((#[trigger] added[i]).x, added[i].y)
            &&& forall|i: int| 0 <= i < monsters ==> is_monster(#[trigger] added[i])
            &&& forall|i: int| monsters <= i < added.len() ==> is_potion(#[trigger] added[i])
        }
}

/// Stocks `room` with monsters and items.
///
/// Up to `MAX_ROOM_MONSTERS` times a cell inside the room is drawn for a
/// monster, four out of five of which are orcs and the others trolls, and
/// handed to [`place_monster`]; then up to `MAX_ROOM_ITEMS` times one for a
/// potion, handed to [`place_potion`]. So an object is placed only where
/// its cell is blocked on the map of `game` with the objects placed so far.
/// Every object already there stays as it is, and the new ones follow in
/// the order in which they were placed.
pub fn place_objects(room: &Rect, objects: &mut Vec<Object>, game: &Game)
    requires
        room.x1 + 1 < room.x2,
        room.y1 + 1 < room.y2,
        forall|x: int, y: int| room.contains(x, y) ==> in_bounds(grid_of(game.map), x, y),
    ensures
        final(objects).len() >= old(objects).len(),
        views(final(objects)@).take(old(objects).len() as int) == views(old(objects)@),
        is_stock_of(views(final(objects)@).skip(old(objects).len() as int), *room),
        forall|i: int|
            old(objects).len() <= i < final(objects).len() ==> blocked_at(
                grid_of(game.map),
                views(final(objects)@).take(i),
                (#[trigger] views(final(objects)@)[i]).x,
                views(final(objects)@)[i].y,
            ),
{
    let ghost start = objects.len() as int;
    let ghost grid = grid_of(game.map);
    assert(views(objects@).take(start) =~= views(old(objects)@));
    let num_monsters = random_range(0, MAX_ROOM_MONSTERS + 1);
    let mut placed: i32 = 0;
    while placed < num_monsters
        invariant
            0 <= placed <= num_monsters <= MAX_ROOM_MONSTERS,
            room.x1 + 1 < room.x2,
            room.y1 + 1 < room.y2,
            grid == grid_of(game.map),
            forall|x: int, y: int| room.contains(x, y) ==> in_bounds(grid, x, y),
            0 <= start <= objects.len() <= start + placed,
            views(objects@).take(start) == views(old(objects)@),
            forall|i: int|
                start <= i < objects.len() ==> {
                    &&& room.contains((#[trigger] views(objects@)[i]).x, views(objects@)[i].y)
                    &&& is_monster(views(objects@)[i])
                    &&& blocked_at(
                        grid,
                        views(objects@).take(i),
                        views(objects@)[i].x,
                        views(objects@)[i].y,
                    )
                },
        decreases num_monsters - placed,
    {
        let x = random_range(room.x1 + 1, room.x2);
        let y = random_range(room.y1 + 1, room.y2);
        assert(room.contains(x as int, y as int));
        let ghost before = views(objects@);
        if place_monster(x, y, random_ratio(4, 5), objects, game) {
            proof {
                let after = views(objects@);
                assert(after.take(start) =~= before.take(start));
                assert(after.take(before.len() as int) =~= before);
                assert forall|i: int| start <= i < before.len() implies after.take(i)
                    == before.take(i) by {
                    assert(after.take(i) =~= before.take(i));
                }
            }
        }
        placed += 1;
    }
    let ghost monsters = objects.len() as int - start;
    let ghost first_item = objects.len() as int;

    let num_items = random_range(0, MAX_ROOM_ITEMS + 1);
    let mut placed: i32 = 0;
    while placed < num_items
        invariant
            0 <= placed <= num_items <= MAX_ROOM_ITEMS,
            room.x1 + 1 < room.x2,
            room.y1 + 1 < room.y2,
            grid == grid_of(game.map),
            forall|x: int, y: int| room.contains(x, y) ==> in_bounds(grid, x, y),
            0 <= monsters <= MAX_ROOM_MONSTERS,
            0 <= start,
            first_item == start + monsters,
            first_item <= objects.len() <= first_item + placed,
            views(objects@).take(start) == views(old(objects)@),
            forall|i: int|
                start <= i < objects.len() ==> {
                    &&& room.contains((#[trigger] views(objects@)[i]).x, views(objects@)[i].y)
                    &&& i < first_item ==> is_monster(views(objects@)[i])
                    &&& i >= first_item ==> is_potion(views(objects@)[i])
                    &&& blocked_at(
                        grid,
                        views(objects@).take(i),
                        views(objects@)[i].x,
                        views(objects@)[i].y,
                    )
                },
        decreases num_items - placed,
    {
        let x = random_range(room.x1 + 1, room.x2);
        let y = random_range(room.y1 + 1, room.y2);
        assert(room.contains(x as int, y as int));
        let ghost before = views(objects@);
        if place_potion(x, y, objects, game) {
            proof {
                let after = views(objects@);
                assert(after.take(start) =~= before.take(start));
                assert(after.take(before.len() as int) =~= before);
                assert forall|i: int| start <= i < before.len() implies after.take(i)
                    == before.take(i) by {
                    assert(after.take(i) =~= before.take(i));
                }
            }
        }
        placed += 1;
    }
    proof {
        let added = views(objects@).skip(start);
        assert forall|i: int| 0 <= i < added.len() implies room.contains(
            (#[trigger] added[i]).x,
            added[i].y,
        ) by {
            assert(added[i] == views(objects@)[start + i]);
        }
        assert forall|i: int| 0 <= i < monsters implies is_monster(#[trigger] added[i]) by {
            assert(added[i] == views(objects@)[start + i]);
        }
        assert forall|i: int| monsters <= i < added.len() implies is_potion(
            #[trigger] added[i],
        ) by {
            assert(added[i] == views(objects@)[start + i]);
        }
        assert(monsters <= added.len() <= monsters + MAX_ROOM_ITEMS);
    }
}

} // verus!
