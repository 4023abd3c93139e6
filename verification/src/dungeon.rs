use vstd::prelude::*;
use crate::connectivity::{
    all_reachable, between, lemma_block_joined, lemma_single_block, on_segment, open_at,
};
use crate::game::Game;
use crate::grid::{
    corridor_corner, create_corridor, create_room, filled_map, filled_with, lemma_carved_cells,
    lemma_grid_equal,
    max_of, min_of, with_room, with_tunnel,
};
use crate::messages::Messages;
use crate::movement::lemma_views_update;
use crate::object::{views, Object, ObjectView};
use crate::rng::{random_bool, random_range};
use crate::roomgen::{lemma_center_inside, Rect};
use crate::spawn::{is_stock_of, place_objects};
use crate::tile::{grid_of, in_bounds, level_sized, Tile, TileMap, MAP_HEIGHT, MAP_WIDTH};

verus! {

/// The grid in which the room has been turned into floor and joined to
/// `door` by a corridor of two straight legs: from `door` to `corner` and
/// from `corner` to `hub`.
pub open spec fn with_joined_room(
    grid: Seq<Seq<Tile>>,
    room: Rect,
    door: (int, int),
    corner: (int, int),
    hub: (int, int),
) -> Seq<Seq<Tile>> {
    with_tunnel(with_tunnel(with_room(grid, room), door, corner), corner, hub)
}

/// The cells that joining a room has turned into floor are those of the
/// room and of the two legs of its corridor; every other cell is as it was.
pub proof fn lemma_joined_room_cells(
    grid: Seq<Seq<Tile>>,
    room: Rect,
    door: (int, int),
    corner: (int, int),
    hub: (int, int),
)
    requires
        door.0 == corner.0 || door.1 == corner.1,
        corner.0 == hub.0 || corner.1 == hub.1,
    ensures
        with_joined_room(grid, room, door, corner, hub).len() == grid.len(),
        forall|x: int|
            0 <= x < grid.len() ==> (#[trigger] with_joined_room(
                grid,
                room,
                door,
                corner,
                hub,
            )[x]).len() == grid[x].len(),
        forall|x: int, y: int|
            in_bounds(grid, x, y) ==> #[trigger] with_joined_room(
                grid,
                room,
                door,
                corner,
                hub,
            )[x][y] == if room.contains(x, y) || on_segment(door, corner, (x, y)) || on_segment(
                corner,
                hub,
                (x, y),
            ) {
                Tile::spec_empty()
            } else {
                grid[x][y]
            },
{
    let g1 = with_room(grid, room);
    let g2 = with_tunnel(g1, door, corner);
    let g3 = with_tunnel(g2, corner, hub);
    lemma_carved_cells(grid, room.x1 + 1, room.x2 - 1, room.y1 + 1, room.y2 - 1);
    lemma_carved_cells(
        g1,
        min_of(door.0, corner.0),
        max_of(door.0, corner.0),
        min_of(door.1, corner.1),
        max_of(door.1, corner.1),
    );
    lemma_carved_cells(
        g2,
        min_of(corner.0, hub.0),
        max_of(corner.0, hub.0),
        min_of(corner.1, hub.1),
        max_of(corner.1, hub.1),
    );
    assert forall|x: int| 0 <= x < grid.len() implies (#[trigger] g3[x]).len()
        == grid[x].len() by {
        assert(g2[x].len() == g1[x].len());
        assert(g1[x].len() == grid[x].len());
    }
    assert forall|x: int, y: int| in_bounds(grid, x, y) implies #[trigger] g3[x][y] == if room.contains(
        x,
        y,
    ) || on_segment(door, corner, (x, y)) || on_segment(corner, hub, (x, y)) {
        Tile::spec_empty()
    } else {
        grid[x][y]
    } by {
        assert(in_bounds(g1, x, y));
        assert(in_bounds(g2, x, y));
    }
}

/// Joining a room to a connected grid leaves the grid connected.
///
/// Every open cell of `grid` can be reached from `origin`, `door` among
/// them; the room and the two legs of its corridor lie on the grid, and
/// `hub` inside the room.
pub proof fn lemma_joined_room_reachable(
    grid: Seq<Seq<Tile>>,
    room: Rect,
    origin: (int, int),
    door: (int, int),
    corner: (int, int),
    hub: (int, int),
)
    requires
        all_reachable(grid, origin),
        open_at(grid, door.0, door.1),
        door.0 == corner.0 || door.1 == corner.1,
        corner.0 == hub.0 || corner.1 == hub.1,
        room.contains(hub.0, hub.1),
        forall|x: int, y: int| room.contains(x, y) ==> in_bounds(grid, x, y),
        forall|x: int, y: int| on_segment(door, corner, (x, y)) ==> in_bounds(grid, x, y),
        forall|x: int, y: int| on_segment(corner, hub, (x, y)) ==> in_bounds(grid, x, y),
    ensures
        all_reachable(with_joined_room(grid, room, door, corner, hub), origin),
{
    let after = with_joined_room(grid, room, door, corner, hub);
    lemma_joined_room_cells(grid, room, door, corner, hub);
    assert forall|x: int, y: int| in_bounds(after, x, y) <==> in_bounds(grid, x, y) by {
        if 0 <= x < grid.len() {
            assert(after[x].len() == grid[x].len());
        }
    }
    assert forall|x: int, y: int| #[trigger] open_at(grid, x, y) implies open_at(after, x, y) by {
        assert(in_bounds(grid, x, y));
    }
    assert forall|x: int, y: int| on_segment(door, corner, (x, y)) implies #[trigger] open_at(
        after,
        x,
        y,
    ) by {
        assert(in_bounds(grid, x, y));
    }
    assert forall|x: int, y: int| on_segment(corner, hub, (x, y)) implies #[trigger] open_at(
        after,
        x,
        y,
    ) by {
        assert(in_bounds(grid, x, y));
    }
    assert forall|x: int, y: int|
        room.x1 + 1 <= x <= room.x2 - 1 && room.y1 + 1 <= y <= room.y2 - 1 implies #[trigger] open_at(
        after,
        x,
        y,
    ) by {
        assert(room.contains(x, y));
        assert(in_bounds(grid, x, y));
    }
    assert forall|x: int, y: int| #[trigger] open_at(after, x, y) implies {
        ||| open_at(grid, x, y)
        ||| room.x1 + 1 <= x <= room.x2 - 1 && room.y1 + 1 <= y <= room.y2 - 1
        ||| on_segment(door, corner, (x, y))
        ||| on_segment(corner, hub, (x, y))
    } by {
        assert(in_bounds(grid, x, y));
    }
    lemma_block_joined(
        grid,
        after,
        origin,
        door,
        corner,
        hub,
        room.x1 + 1,
        room.x2 - 1,
        room.y1 + 1,
        room.y2 - 1,
    );
}

/// A grid without floor in which one room has been turned into floor is
/// connected.
pub proof fn lemma_first_room_reachable(grid: Seq<Seq<Tile>>, room: Rect, hub: (int, int))
    requires
        forall|x: int, y: int| !open_at(grid, x, y),
        room.contains(hub.0, hub.1),
        forall|x: int, y: int| room.contains(x, y) ==> in_bounds(grid, x, y),
    ensures
        all_reachable(with_room(grid, room), hub),
{
    let after = with_room(grid, room);
    lemma_carved_cells(grid, room.x1 + 1, room.x2 - 1, room.y1 + 1, room.y2 - 1);
    assert forall|x: int, y: int| in_bounds(after, x, y) <==> in_bounds(grid, x, y) by {
        if 0 <= x < grid.len() {
            assert(after[x].len() == grid[x].len());
        }
    }
    assert forall|x: int, y: int|
        room.x1 + 1 <= x <= room.x2 - 1 && room.y1 + 1 <= y <= room.y2 - 1 implies #[trigger] open_at(
        after,
        x,
        y,
    ) by {
        assert(room.contains(x, y));
        assert(in_bounds(grid, x, y));
    }
    assert forall|x: int, y: int| #[trigger] open_at(after, x, y) implies room.x1 + 1 <= x
        <= room.x2 - 1 && room.y1 + 1 <= y <= room.y2 - 1 by {
        assert(in_bounds(grid, x, y));
        assert(!open_at(grid, x, y));
    }
    lemma_single_block(after, hub, room.x1 + 1, room.x2 - 1, room.y1 + 1, room.y2 - 1);
}

/// Number of attempts to place a room.
pub const MAX_ROOMS: i32 = 30;

/// Least extent of a room along either axis, from wall to wall.
pub const ROOM_MIN_SIZE: i32 = 6;

/// Greatest extent of a room along either axis, from wall to wall.
pub const ROOM_MAX_SIZE: i32 = 10;

/// The room, walls included, lies on a level without reaching its last
/// column or row, and its extent is within the limits for rooms.
pub open spec fn room_fits(room: Rect) -> bool {
    &&& 0 <= room.x1
    &&& room.x2 < MAP_WIDTH
    &&& 0 <= room.y1
    &&& room.y2 < MAP_HEIGHT
    &&& ROOM_MIN_SIZE <= room.x2 - room.x1 <= ROOM_MAX_SIZE
    &&& ROOM_MIN_SIZE <= room.y2 - room.y1 <= ROOM_MAX_SIZE
}

/// No two of the rooms, walls included, have a cell in common.
pub open spec fn apart(rooms: Seq<Rect>) -> bool {
    forall|i: int, j: int| 0 <= i < j < rooms.len() ==> !(#[trigger] rooms[i]).touches(#[trigger] rooms[j])
}

/// The cell lies inside one of the rooms.
pub open spec fn in_some_room(rooms: Seq<Rect>, x: int, y: int) -> bool {
    exists|i: int| 0 <= i < rooms.len() && (#[trigger] rooms[i]).contains(x, y)
}

/// The cell `p` lies on the rim of the rectangle of cells that has `a` and
/// `b` as opposite corners.
pub open spec fn on_frame(a: (int, int), b: (int, int), p: (int, int)) -> bool {
    ||| between(a.0, b.0, p.0) && (p.1 == a.1 || p.1 == b.1)
    ||| between(a.1, b.1, p.1) && (p.0 == a.0 || p.0 == b.0)
}

/// The cell lies where a corridor between a room and the one placed before
/// it can run: on the rim of the rectangle spanned by their middles.
pub open spec fn on_some_corridor(rooms: Seq<Rect>, x: int, y: int) -> bool {
    exists|i: int|
        1 <= i < rooms.len() && on_frame(
            rooms[i - 1].spec_center(),
            (#[trigger] rooms[i]).spec_center(),
            (x, y),
        )
}

/// `grid` is a level dug out of solid rock for `rooms`, in the order in
/// which they were placed.
///
/// The rooms fit on the level and keep apart. Every cell is an untouched
/// wall or untouched floor; the inside of every room is floor, and there is
/// no floor but inside the rooms and along the corridors between each room
/// and the one before it. From the middle of the first room every floor
/// cell can be reached.
pub open spec fn is_level(grid: Seq<Seq<Tile>>, rooms: Seq<Rect>) -> bool {
    &&& level_sized(grid)
    &&& forall|x: int, y: int|
        in_bounds(grid, x, y) ==> #[trigger] grid[x][y] == Tile::spec_wall() || grid[x][y]
            == Tile::spec_empty()
    &&& forall|i: int| 0 <= i < rooms.len() ==> room_fits(#[trigger] rooms[i])
    &&& apart(rooms)
    &&& forall|i: int, x: int, y: int|
        0 <= i < rooms.len() && (#[trigger] rooms[i]).contains(x, y) ==> #[trigger] open_at(
            grid,
            x,
            y,
        )
    &&& forall|x: int, y: int| #[trigger]
        open_at(grid, x, y) ==> in_some_room(rooms, x, y) || on_some_corridor(rooms, x, y)
    &&& rooms.len() > 0 ==> all_reachable(grid, rooms[0].spec_center())
}

/// Solid rock is a level without rooms.
pub proof fn lemma_rock_is_level(grid: Seq<Seq<Tile>>)
    requires
        level_sized(grid),
        filled_with(grid, Tile::spec_wall()),
    ensures
        is_level(grid, Seq::empty()),
{
    assert forall|x: int, y: int| #[trigger] open_at(grid, x, y) implies false by {
        assert(grid[x][y] == Tile::spec_wall());
    }
}

/// A level stays a level when its first room is dug.
pub proof fn lemma_first_room(grid: Seq<Seq<Tile>>, room: Rect)
    requires
        is_level(grid, Seq::empty()),
        room_fits(room),
    ensures
        is_level(with_room(grid, room), seq![room]),
{
    let after = with_room(grid, room);
    let rooms = seq![room];
    let hub = room.spec_center();
    lemma_center_inside(room);
    lemma_carved_cells(grid, room.x1 + 1, room.x2 - 1, room.y1 + 1, room.y2 - 1);
    assert forall|x: int, y: int| !open_at(grid, x, y) by {
        if open_at(grid, x, y) {
            assert(in_some_room(Seq::<Rect>::empty(), x, y) || on_some_corridor(
                Seq::<Rect>::empty(),
                x,
                y,
            ));
        }
    }
    assert forall|x: int, y: int| room.contains(x, y) implies in_bounds(grid, x, y) by {
        assert(grid[x].len() == MAP_HEIGHT);
    }
    lemma_first_room_reachable(grid, room, hub);
    assert forall|x: int| 0 <= x < MAP_WIDTH implies (#[trigger] after[x]).len() == MAP_HEIGHT by {
        assert(grid[x].len() == MAP_HEIGHT);
    }
    assert forall|x: int, y: int| in_bounds(after, x, y) implies #[trigger] after[x][y]
        == Tile::spec_wall() || after[x][y] == Tile::spec_empty() by {
        assert(in_bounds(grid, x, y));
    }
    assert forall|i: int, x: int, y: int|
        0 <= i < rooms.len() && (#[trigger] rooms[i]).contains(x, y) implies #[trigger] open_at(
        after,
        x,
        y,
    ) by {
        assert(in_bounds(grid, x, y));
    }
    assert forall|x: int, y: int| #[trigger] open_at(after, x, y) implies in_some_room(rooms, x, y)
        || on_some_corridor(rooms, x, y) by {
        assert(in_bounds(grid, x, y));
        assert(!open_at(grid, x, y));
        assert(rooms[0].contains(x, y));
    }
}

/// A level stays a level when a further room that keeps apart from the
/// others is dug and joined to the room before it by a corridor, whichever
/// way the corridor turns.
pub proof fn lemma_next_room(
    grid: Seq<Seq<Tile>>,
    rooms: Seq<Rect>,
    room: Rect,
    horizontal_first: bool,
)
    requires
        is_level(grid, rooms),
        rooms.len() > 0,
        room_fits(room),
        forall|i: int| 0 <= i < rooms.len() ==> !room.touches(#[trigger] rooms[i]),
    ensures
        is_level(
            with_joined_room(
                grid,
                room,
                rooms.last().spec_center(),
                corridor_corner(rooms.last().spec_center(), room.spec_center(), horizontal_first),
                room.spec_center(),
            ),
            rooms.push(room),
        ),
{
    let door = rooms.last().spec_center();
    let hub = room.spec_center();
    let corner = corridor_corner(door, hub, horizontal_first);
    let after = with_joined_room(grid, room, door, corner, hub);
    let more = rooms.push(room);
    let origin = rooms[0].spec_center();
    let last = rooms.len() - 1;
    lemma_center_inside(room);
    assert(room_fits(rooms[last]));
    lemma_center_inside(rooms[last]);
    assert(rooms[last].contains(door.0, door.1));
    assert(open_at(grid, door.0, door.1));
    lemma_joined_room_cells(grid, room, door, corner, hub);
    assert forall|x: int, y: int| 0 <= x < MAP_WIDTH && 0 <= y < MAP_HEIGHT implies in_bounds(
        grid,
        x,
        y,
    ) by {
        assert(grid[x].len() == MAP_HEIGHT);
    }
    lemma_joined_room_reachable(grid, room, origin, door, corner, hub);
    assert forall|x: int| 0 <= x < MAP_WIDTH implies (#[trigger] after[x]).len() == MAP_HEIGHT by {
        assert(grid[x].len() == MAP_HEIGHT);
    }
    assert forall|x: int, y: int| in_bounds(after, x, y) implies #[trigger] after[x][y]
        == Tile::spec_wall() || after[x][y] == Tile::spec_empty() by {
        assert(in_bounds(grid, x, y));
    }
    assert forall|i: int| 0 <= i < more.len() implies room_fits(#[trigger] more[i]) by {
        if i < rooms.len() {
            assert(more[i] == rooms[i]);
        }
    }
    assert forall|i: int, j: int| 0 <= i < j < more.len() implies !(#[trigger] more[i]).touches(
        #[trigger] more[j],
    ) by {
        assert(more[i] == rooms[i]);
        if j < rooms.len() {
            assert(more[j] == rooms[j]);
        } else {
            assert(!room.touches(rooms[i]));
        }
    }
    assert forall|i: int, x: int, y: int|
        0 <= i < more.len() && (#[trigger] more[i]).contains(x, y) implies #[trigger] open_at(
        after,
        x,
        y,
    ) by {
        if i < rooms.len() {
            assert(more[i] == rooms[i]);
            assert(open_at(grid, x, y));
        }
        assert(in_bounds(grid, x, y));
    }
    assert forall|x: int, y: int| #[trigger] open_at(after, x, y) implies in_some_room(more, x, y)
        || on_some_corridor(more, x, y) by {
        assert(in_bounds(grid, x, y));
        if room.contains(x, y) {
            assert(more[rooms.len() as int].contains(x, y));
        } else if on_segment(door, corner, (x, y)) || on_segment(corner, hub, (x, y)) {
            let i = rooms.len() as int;
            assert(more[i - 1] == rooms[last]);
            assert(on_frame(more[i - 1].spec_center(), more[i].spec_center(), (x, y)));
        } else {
            assert(open_at(grid, x, y));
            if in_some_room(rooms, x, y) {
                let i = choose|i: int| 0 <= i < rooms.len() && (#[trigger] rooms[i]).contains(x, y);
                assert(more[i].contains(x, y));
            } else {
                let i = choose|i: int|
                    1 <= i < rooms.len() && on_frame(
                        rooms[i - 1].spec_center(),
                        (#[trigger] rooms[i]).spec_center(),
                        (x, y),
                    );
                assert(more[i - 1] == rooms[i - 1]);
                assert(on_frame(more[i - 1].spec_center(), more[i].spec_center(), (x, y)));
            }
        }
    }
    assert(more[0] == rooms[0]);
}

/// Whether `room` has a cell in common with one of `rooms`, walls
/// included.
pub fn intersects_any(room: &Rect, rooms: &Vec<Rect>) -> (b: bool)
    ensures
        b == exists|i: int| 0 <= i < rooms.len() && room.touches(#[trigger] rooms[i]),
{
    let mut i: usize = 0;
    while i < rooms.len()
        invariant
            i <= rooms.len(),
            forall|j: int| 0 <= j < i ==> !room.touches(#[trigger] rooms[j]),
        decreases rooms.len() - i,
    {
        if room.intersects_with(&rooms[i]) {
            return true;
        }
        i += 1;
    }
    false
}

/// A level of solid rock.
pub open spec fn solid_rock() -> Seq<Seq<Tile>> {
    Seq::new(MAP_WIDTH as nat, |x: int| Seq::new(MAP_HEIGHT as nat, |y: int| Tile::spec_wall()))
}

/// The level that is left when the rooms have been dug out of solid rock
/// in their order, each but the first joined to the one before it by a
/// corridor from middle to middle. `turns` says for each room whether its
/// corridor first runs along a row; for the first room it says nothing.
pub open spec fn dug_level(rooms: Seq<Rect>, turns: Seq<bool>) -> Seq<Seq<Tile>>
    decreases rooms.len(),
{
    if rooms.len() == 0 {
        solid_rock()
    } else if rooms.len() == 1 {
        with_room(solid_rock(), rooms[0])
    } else {
        let door = rooms[rooms.len() - 2].spec_center();
        let hub = rooms.last().spec_center();
        with_joined_room(
            dug_level(rooms.drop_last(), turns.drop_last()),
            rooms.last(),
            door,
            corridor_corner(door, hub, turns.last()),
            hub,
        )
    }
}

/// The candidate is taken into the level: it keeps apart from every room
/// placed so far.
pub open spec fn is_accepted(rooms: Seq<Rect>, candidate: Rect) -> bool {
    !(exists|i: int| 0 <= i < rooms.len() && candidate.touches(#[trigger] rooms[i]))
}

/// The level after `candidate` has been proposed: as it was if the
/// candidate is dropped; with the room dug if it is the first; and with the
/// room dug and joined to the room placed last otherwise, by a corridor
/// that first runs along a row if `horizontal_first` is set.
pub open spec fn grid_after_room(
    grid: Seq<Seq<Tile>>,
    rooms: Seq<Rect>,
    candidate: Rect,
    horizontal_first: bool,
) -> Seq<Seq<Tile>> {
    if !is_accepted(rooms, candidate) {
        grid
    } else if rooms.len() == 0 {
        with_room(grid, candidate)
    } else {
        let door = rooms.last().spec_center();
        let hub = candidate.spec_center();
        with_joined_room(grid, candidate, door, corridor_corner(door, hub, horizontal_first), hub)
    }
}

/// The rooms after `candidate` has been proposed.
pub open spec fn rooms_after_room(rooms: Seq<Rect>, candidate: Rect) -> Seq<Rect> {
    if is_accepted(rooms, candidate) {
        rooms.push(candidate)
    } else {
        rooms
    }
}

/// The objects after `candidate` has been proposed: the first room that is
/// accepted takes the object at index 0, the player, into its middle;
/// nothing else changes.
pub open spec fn objects_after_room(
    objects: Seq<ObjectView>,
    rooms: Seq<Rect>,
    candidate: Rect,
) -> Seq<ObjectView> {
    if is_accepted(rooms, candidate) && rooms.len() == 0 {
        objects.update(
            0,
            ObjectView {
                x: candidate.spec_center().0,
                y: candidate.spec_center().1,
                ..objects[0]
            },
        )
    } else {
        objects
    }
}

/// Proposes `candidate` as the next room of the level and says whether it
/// was accepted.
///
/// A candidate that touches a room placed before is dropped, and nothing
/// changes. Any other is dug and added to the rooms. If it is the first,
/// the player, the object at index 0, is put into its middle; if not, it is
/// joined to the room placed last by a corridor from middle to middle that
/// first runs along a row if `horizontal_first` is set and first along a
/// column otherwise.
pub fn try_room(
    candidate: Rect,
    horizontal_first: bool,
    map: &mut TileMap,
    rooms: &mut Vec<Rect>,
    objects: &mut Vec<Object>,
) -> (accepted: bool)
    requires
        room_fits(candidate),
        level_sized(grid_of(*old(map))),
        forall|i: int| 0 <= i < old(rooms).len() ==> room_fits(#[trigger] old(rooms)[i]),
        old(objects).len() > 0,
    ensures
        accepted == is_accepted(old(rooms)@, candidate),
        final(rooms)@ == rooms_after_room(old(rooms)@, candidate),
        grid_of(*final(map)) == grid_after_room(
            grid_of(*old(map)),
            old(rooms)@,
            candidate,
            horizontal_first,
        ),
        views(final(objects)@) == objects_after_room(views(old(objects)@), old(rooms)@, candidate),
{
    if intersects_any(&candidate, rooms) {
        return false;
    }
    let ghost grid = grid_of(*map);
    proof {
        lemma_center_inside(candidate);
        assert forall|x: int, y: int| 0 <= x < MAP_WIDTH && 0 <= y < MAP_HEIGHT implies in_bounds(
            grid,
            x,
            y,
        ) by {
            assert(grid[x].len() == MAP_HEIGHT);
        }
    }
    let (new_x, new_y) = candidate.center();
    create_room(candidate, map);
    if rooms.is_empty() {
        objects[0].set_pos(new_x, new_y);
        proof {
            lemma_views_update(old(objects)@, 0, objects@[0]);
        }
    } else {
        let (prev_x, prev_y) = rooms[rooms.len() - 1].center();
        proof {
            let prev = rooms[rooms.len() - 1];
            assert(room_fits(prev));
            lemma_center_inside(prev);
            lemma_carved_cells(
                grid,
                candidate.x1 + 1,
                candidate.x2 - 1,
                candidate.y1 + 1,
                candidate.y2 - 1,
            );
            assert forall|x: int, y: int|
                between(prev_x as int, new_x as int, x) && between(
                    prev_y as int,
                    new_y as int,
                    y,
                ) implies in_bounds(grid_of(*map), x, y) by {
                assert(in_bounds(grid, x, y));
            }
        }
        create_corridor((prev_x, prev_y), (new_x, new_y), horizontal_first, map);
    }
    rooms.push(candidate);
    true
}

/// Where the stock of room `r` begins among the objects, of which the
/// first `start` were there before the level: where the stock of the room
/// before it ends.
pub open spec fn stock_begin(start: int, ends: Seq<int>, r: int) -> int {
    if r == 0 {
        start
    } else {
        ends[r - 1]
    }
}

/// From index `start` on the objects are the stock of the rooms, room by
/// room in the order of the rooms, that of room `r` ending before index
/// `ends[r]`: for each room at most `MAX_ROOM_MONSTERS` fresh monsters
/// followed by at most `MAX_ROOM_ITEMS` fresh potions, all inside that
/// room.
pub open spec fn is_stocked(
    objects: Seq<ObjectView>,
    start: int,
    rooms: Seq<Rect>,
    ends: Seq<int>,
) -> bool {
    &&& ends.len() == rooms.len()
    &&& 0 <= start <= objects.len()
    &&& stock_begin(start, ends, rooms.len() as int) == objects.len()
    &&& forall|r: int|
        0 <= r < rooms.len() ==> {
            &&& stock_begin(start, ends, r) <= #[trigger] ends[r] <= objects.len()
            &&& is_stock_of(objects.subrange(stock_begin(start, ends, r), ends[r]), rooms[r])
        }
}

/// What generating a level does to the objects.
///
/// The first object, the player, has been moved to the middle of the first
/// room. Every other object that was there is as it was, and after them
/// comes the stock of the rooms, room by room.
pub open spec fn is_population(
    before: Seq<ObjectView>,
    after: Seq<ObjectView>,
    rooms: Seq<Rect>,
) -> bool {
    &&& before.len() <= after.len()
    &&& after[0] == (ObjectView {
        x: rooms[0].spec_center().0,
        y: rooms[0].spec_center().1,
        ..before[0]
    })
    &&& forall|i: int| 1 <= i < before.len() ==> #[trigger] after[i] == before[i]
    &&& exists|ends: Seq<int>| #[trigger] is_stocked(after, before.len() as int, rooms, ends)
}

/// Objects that are stocked stay so when a further room is placed and its
/// stock is added at the end, whatever happens to the objects before the
/// stock.
pub proof fn lemma_stocked_more(
    objects: Seq<ObjectView>,
    more: Seq<ObjectView>,
    start: int,
    rooms: Seq<Rect>,
    ends: Seq<int>,
    room: Rect,
)
    requires
        is_stocked(objects, start, rooms, ends),
        objects.len() <= more.len(),
        forall|i: int| start <= i < objects.len() ==> #[trigger] more[i] == objects[i],
        is_stock_of(more.skip(objects.len() as int), room),
    ensures
        is_stocked(more, start, rooms.push(room), ends.push(more.len() as int)),
{
    let rooms2 = rooms.push(room);
    let ends2 = ends.push(more.len() as int);
    assert forall|r: int| 0 <= r < rooms2.len() implies {
        &&& stock_begin(start, ends2, r) <= #[trigger] ends2[r] <= more.len()
        &&& is_stock_of(more.subrange(stock_begin(start, ends2, r), ends2[r]), rooms2[r])
    } by {
        if r < rooms.len() {
            assert(ends2[r] == ends[r]);
            assert(rooms2[r] == rooms[r]);
            if r > 0 {
                assert(ends2[r - 1] == ends[r - 1]);
                assert(stock_begin(start, ends, r - 1) <= ends[r - 1]);
            }
            let from = stock_begin(start, ends, r);
            lemma_stock_begins_late(objects, start, rooms, ends, r);
            assert(more.subrange(from, ends[r]) =~= objects.subrange(from, ends[r]));
        } else {
            if r > 0 {
                assert(ends2[r - 1] == ends[r - 1]);
            }
            assert(stock_begin(start, ends2, r) == objects.len());
            assert(more.subrange(objects.len() as int, more.len() as int) =~= more.skip(
                objects.len() as int,
            ));
        }
    }
}

/// No room's stock begins before the objects that were there first.
pub proof fn lemma_stock_begins_late(
    objects: Seq<ObjectView>,
    start: int,
    rooms: Seq<Rect>,
    ends: Seq<int>,
    r: int,
)
    requires
        is_stocked(objects, start, rooms, ends),
        0 <= r <= rooms.len(),
    ensures
        start <= stock_begin(start, ends, r) <= objects.len(),
    decreases r,
{
    if r > 0 {
        lemma_stock_begins_late(objects, start, rooms, ends, r - 1);
        assert(stock_begin(start, ends, r - 1) <= ends[r - 1] <= objects.len());
    }
}

/// A level stays a level when a room is accepted, and it is the level dug
/// for the rooms with that room added.
pub proof fn lemma_room_accepted(
    grid: Seq<Seq<Tile>>,
    rooms: Seq<Rect>,
    turns: Seq<bool>,
    candidate: Rect,
    horizontal_first: bool,
)
    requires
        is_level(grid, rooms),
        turns.len() == rooms.len(),
        grid == dug_level(rooms, turns),
        room_fits(candidate),
        is_accepted(rooms, candidate),
    ensures
        is_level(grid_after_room(grid, rooms, candidate, horizontal_first), rooms.push(candidate)),
        grid_after_room(grid, rooms, candidate, horizontal_first) == dug_level(
            rooms.push(candidate),
            turns.push(horizontal_first),
        ),
{
    assert(rooms.push(candidate).drop_last() =~= rooms);
    assert(turns.push(horizontal_first).drop_last() =~= turns);
    if rooms.len() == 0 {
        assert(rooms =~= Seq::<Rect>::empty());
        lemma_first_room(grid, candidate);
        assert(rooms.push(candidate) =~= seq![candidate]);
    } else {
        lemma_next_room(grid, rooms, candidate, horizontal_first);
    }
}

/// The objects stay a population in the making when a room is accepted
/// and stocked.
///
/// `crowd` holds the objects before the room was proposed, `moved` those
/// after it was accepted and `now` those after it was stocked.
pub proof fn lemma_room_stocked(
    first: Seq<ObjectView>,
    crowd: Seq<ObjectView>,
    moved: Seq<ObjectView>,
    now: Seq<ObjectView>,
    rooms: Seq<Rect>,
    ends: Seq<int>,
    candidate: Rect,
)
    requires
        first.len() > 0,
        is_stocked(crowd, first.len() as int, rooms, ends),
        is_accepted(rooms, candidate),
        moved == objects_after_room(crowd, rooms, candidate),
        moved.len() <= now.len(),
        now.take(moved.len() as int) == moved,
        is_stock_of(now.skip(moved.len() as int), candidate),
    ensures
        is_stocked(now, first.len() as int, rooms.push(candidate), ends.push(now.len() as int)),
        now[0] == moved[0],
        forall|i: int| 1 <= i < crowd.len() ==> #[trigger] now[i] == crowd[i],
{
    assert forall|i: int| 0 <= i < moved.len() implies now[i] == moved[i] by {
        assert(now.take(moved.len() as int)[i] == now[i]);
    }
    assert(moved.len() == crowd.len());
    lemma_stocked_more(crowd, now, first.len() as int, rooms, ends, candidate);
}

/// Generates a level and returns it with the rooms that were placed, in
/// the order of their placing.
///
/// `MAX_ROOMS` times a room of random size at a random place on the level
/// and the toss of a coin are handed to [`try_room`]. Each room that it
/// accepts is then stocked by [`place_objects`].
///
/// Stocking places an object where its cell is blocked, and is given the
/// level as it was before any digging: solid rock. So every cell that is
/// drawn for a monster or a potion gets one, also a cell on which an
/// object stands already.
pub fn generate_level(objects: &mut Vec<Object>) -> (level: (TileMap, Vec<Rect>))
    requires
        old(objects).len() > 0,
    ensures
        1 <= level.1.len() <= MAX_ROOMS,
        exists|turns: Seq<bool>|
            turns.len() == level.1.len() && grid_of(level.0) == #[trigger] dug_level(
                level.1@,
                turns,
            ),
        is_level(grid_of(level.0), level.1@),
        is_population(views(old(objects)@), views(final(objects)@), level.1@),
        apart(level.1@),
        open_at(grid_of(level.0), final(objects)[0].x as int, final(objects)[0].y as int),
        all_reachable(
            grid_of(level.0),
            (final(objects)[0].x as int, final(objects)[0].y as int),
        ),
{
    let mut map = filled_map(Tile::wall());
    let game = Game { map: filled_map(Tile::wall()), messages: Messages::new(), inventory: Vec::new() };
    let mut rooms: Vec<Rect> = Vec::new();
    let ghost first = views(objects@);
    let ghost turns = Seq::<bool>::empty();
    let ghost ends = Seq::<int>::empty();
    proof {
        lemma_rock_is_level(grid_of(map));
        assert(rooms@ =~= Seq::<Rect>::empty());
        lemma_grid_equal(grid_of(map), solid_rock());
    }

    let mut attempt: i32 = 0;
    while attempt < MAX_ROOMS
        invariant
            0 <= attempt <= MAX_ROOMS,
            rooms.len() <= attempt,
            attempt > 0 ==> rooms.len() > 0,
            turns.len() == rooms.len(),
            grid_of(map) == dug_level(rooms@, turns),
            is_level(grid_of(map), rooms@),
            level_sized(grid_of(game.map)),
            first == views(old(objects)@),
            first.len() > 0,
            is_stocked(views(objects@), first.len() as int, rooms@, ends),
            views(objects@)[0] == if rooms.len() > 0 {
                ObjectView {
                    x: rooms[0].spec_center().0,
                    y: rooms[0].spec_center().1,
                    ..first[0]
                }
            } else {
                first[0]
            },
            forall|i: int| 1 <= i < first.len() ==> #[trigger] views(objects@)[i] == first[i],
        decreases MAX_ROOMS - attempt,
    {
        let w = random_range(ROOM_MIN_SIZE, ROOM_MAX_SIZE + 1);
        let h = random_range(ROOM_MIN_SIZE, ROOM_MAX_SIZE + 1);
        let x = random_range(0, MAP_WIDTH - w);
        let y = random_range(0, MAP_HEIGHT - h);
        let new_room = Rect::new(x, y, w, h);
        let horizontal_first = random_bool();
        let ghost grid = grid_of(map);
        let ghost earlier = rooms@;
        let ghost crowd = views(objects@);
        if try_room(new_room, horizontal_first, &mut map, &mut rooms, objects) {
            let ghost moved = views(objects@);
            proof {
                lemma_room_accepted(grid, earlier, turns, new_room, horizontal_first);
                turns = turns.push(horizontal_first);
                lemma_center_inside(new_room);
                assert forall|x: int, y: int| new_room.contains(x, y) implies in_bounds(
                    grid_of(game.map),
                    x,
                    y,
                ) by {
                    assert(grid_of(game.map)[x].len() == MAP_HEIGHT);
                }
            }
            place_objects(&new_room, objects, &game);
            proof {
                lemma_room_stocked(first, crowd, moved, views(objects@), earlier, ends, new_room);
                ends = ends.push(objects.len() as int);
            }
        }
        attempt += 1;
    }
    proof {
        lemma_center_inside(rooms[0]);
        assert(rooms[0].contains(rooms[0].spec_center().0, rooms[0].spec_center().1));
    }
    (map, rooms)
}

/// Generates a level: see [`generate_level`], of which this returns the
/// map alone.
pub fn make_map(objects: &mut Vec<Object>) -> (map: TileMap)
    requires
        old(objects).len() > 0,
    ensures
        exists|rooms: Seq<Rect>, turns: Seq<bool>|
            {
                &&& 1 <= rooms.len() <= MAX_ROOMS
                &&& turns.len() == rooms.len()
                &&& grid_of(map) == #[trigger] dug_level(rooms, turns)
                &&& is_level(grid_of(map), rooms)
                &&& is_population(views(old(objects)@), views(final(objects)@), rooms)
            },
        open_at(grid_of(map), final(objects)[0].x as int, final(objects)[0].y as int),
        all_reachable(grid_of(map), (final(objects)[0].x as int, final(objects)[0].y as int)),
{
    let (map, rooms) = generate_level(objects);
    proof {
        let turns = choose|turns: Seq<bool>|
            turns.len() == rooms.len() && grid_of(map) == #[trigger] dug_level(rooms@, turns);
        assert(grid_of(map) == dug_level(rooms@, turns));
    }
    map
}

} // verus!
