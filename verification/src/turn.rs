use vstd::prelude::*;
use crate::ai::{
    after_ai_turns, ai_turns_log, ai_turns_taken, can_take_ai_turns, take_ai_turns,
    try_take_ai_turns,
};
use crate::colors::{white, Color};
use crate::fov::FovSnapshot;
use crate::game::Game;
use crate::movement::{
    after_move_or_attack, can_move_or_attack, inventory_after_pick_up,
    is_move_or_attack_possible, move_or_attack_log, objects_after_pick_up, pick_item_up,
    pick_up_message, player_move_or_attack,
};
use crate::object::{views, Object, ObjectView};
use crate::tile::{grid_of, Tile};

verus! {

/// What became of the player's turn.
#[derive(Clone, Copy, Debug, PartialEq, Eq, Structural)]
pub enum PlayerAction {
    TookTurn,
    DidntTakeTurn,
    Exit,
}

/// The keys that the game tells apart.
#[derive(Clone, Copy, Debug, PartialEq, Eq, Structural)]
pub enum KeyCode {
    Up,
    Down,
    Left,
    Right,
    Enter,
    Escape,
    /// A key that produced text.
    Text,
    /// Any other key, or none.
    Other,
}

/// One key press.
#[derive(Debug)]
pub struct Key {
    pub code: KeyCode,
    /// An Alt key was held down.
    pub alt: bool,
    /// The text that the key produced, if any.
    pub text: String,
}

/// What a key press asks for.
#[derive(Clone, Copy, Debug, PartialEq, Eq, Structural)]
pub enum Command {
    ToggleFullscreen,
    Quit,
    /// Move or attack in the given direction.
    Step { dx: i32, dy: i32 },
    PickUp,
    ShowInventory,
    Nothing,
}

/// The command that a key press stands for.
///
/// Alt+Enter toggles full screen and Escape quits, whether the player is
/// alive or not. Only a living player can do more: the arrow keys step,
/// "g" picks up, "i" shows the inventory. Everything else asks for nothing.
pub open spec fn command_of(code: KeyCode, alt: bool, text: Seq<char>, player_alive: bool) -> Command {
    if code == KeyCode::Enter && alt {
        Command::ToggleFullscreen
    } else if code == KeyCode::Escape {
        Command::Quit
    } else if !player_alive {
        Command::Nothing
    } else if code == KeyCode::Up {
        Command::Step { dx: 0, dy: -1i32 }
    } else if code == KeyCode::Down {
        Command::Step { dx: 0, dy: 1 }
    } else if code == KeyCode::Left {
        Command::Step { dx: -1i32, dy: 0 }
    } else if code == KeyCode::Right {
        Command::Step { dx: 1, dy: 0 }
    } else if code == KeyCode::Text && text == "g"@ {
        Command::PickUp
    } else if code == KeyCode::Text && text == "i"@ {
        Command::ShowInventory
    } else {
        Command::Nothing
    }
}

/// Decodes a key press.
pub fn key_command(key: &Key, player_alive: bool) -> (command: Command)
    ensures
        command == command_of(key.code, key.alt, key.text@, player_alive),
{
    match key.code {
        KeyCode::Enter => if key.alt {
            Command::ToggleFullscreen
        } else {
            Command::Nothing
        },
        KeyCode::Escape => Command::Quit,
        KeyCode::Up => if player_alive {
            Command::Step { dx: 0, dy: -1 }
        } else {
            Command::Nothing
        },
        KeyCode::Down => if player_alive {
            Command::Step { dx: 0, dy: 1 }
        } else {
            Command::Nothing
        },
        KeyCode::Left => if player_alive {
            Command::Step { dx: -1, dy: 0 }
        } else {
            Command::Nothing
        },
        KeyCode::Right => if player_alive {
            Command::Step { dx: 1, dy: 0 }
        } else {
            Command::Nothing
        },
        KeyCode::Text => if !player_alive {
            Command::Nothing
        } else if key.text == String::from_str("g") {
            Command::PickUp
        } else if key.text == String::from_str("i") {
            Command::ShowInventory
        } else {
            Command::Nothing
        },
        KeyCode::Other => Command::Nothing,
    }
}

/// Whether the command uses up the player's turn, or ends the game.
pub open spec fn action_of(command: Command) -> PlayerAction {
    match command {
        Command::Quit => PlayerAction::Exit,
        Command::Step { .. } => PlayerAction::TookTurn,
        Command::ShowInventory => PlayerAction::TookTurn,
        _ => PlayerAction::DidntTakeTurn,
    }
}

/// The object lies on `(x, y)` and is an item.
pub open spec fn item_at(o: ObjectView, x: int, y: int) -> bool {
    o.x == x && o.y == y && o.item is Some
}

/// Object `i` is the first in the sequence that lies on `(x, y)` and is an
/// item.
pub open spec fn is_first_item_at(objects: Seq<ObjectView>, x: int, y: int, i: int) -> bool {
    &&& 0 <= i < objects.len()
    &&& item_at(objects[i], x, y)
    &&& forall|j: int| 0 <= j < i ==> !item_at(#[trigger] objects[j], x, y)
}

/// The index of the first item that lies on `(x, y)`, if there is one.
pub open spec fn first_item_at(objects: Seq<ObjectView>, x: int, y: int) -> Option<int> {
    if exists|i: int| is_first_item_at(objects, x, y, i) {
        Some(choose|i: int| is_first_item_at(objects, x, y, i))
    } else {
        None
    }
}

/// Finds the first item that lies on `(x, y)`.
pub fn find_item_at(objects: &Vec<Object>, x: i32, y: i32) -> (found: Option<usize>)
    ensures
        match found {
            Some(i) => first_item_at(views(objects@), x as int, y as int) == Some(i as int),
            None => first_item_at(views(objects@), x as int, y as int) is None,
        },
        found is Some ==> found.unwrap() < objects.len(),
{
    let ghost vs = views(objects@);
    let mut i: usize = 0;
    while i < objects.len()
        invariant
            i <= objects.len(),
            vs == views(objects@),
            forall|j: int| 0 <= j < i ==> !item_at(#[trigger] vs[j], x as int, y as int),
        decreases objects.len() - i,
    {
        let object = &objects[i];
        if object.x == x && object.y == y && object.item.is_some() {
            assert(is_first_item_at(vs, x as int, y as int, i as int));
            return Some(i);
        }
        i += 1;
    }
    None
}

/// The item that a pick-up takes: the first that lies where the object at
/// index 0 stands.
pub open spec fn item_underfoot(objects: Seq<ObjectView>) -> Option<int> {
    first_item_at(objects, objects[0].x, objects[0].y)
}

/// The objects on the map after the command has been carried out for the
/// object `player_id`, with `carried` items in the inventory.
pub open spec fn objects_after_command(
    grid: Seq<Seq<Tile>>,
    objects: Seq<ObjectView>,
    carried: int,
    player_id: int,
    command: Command,
) -> Seq<ObjectView> {
    match command {
        Command::Step { dx, dy } => after_move_or_attack(
            grid,
            objects,
            player_id,
            dx as int,
            dy as int,
        ),
        Command::PickUp => match item_underfoot(objects) {
            Some(item) => objects_after_pick_up(objects, carried, item),
            None => objects,
        },
        _ => objects,
    }
}

/// The inventory after the command has been carried out.
pub open spec fn inventory_after_command(
    objects: Seq<ObjectView>,
    inventory: Seq<ObjectView>,
    command: Command,
) -> Seq<ObjectView> {
    match command {
        Command::PickUp => match item_underfoot(objects) {
            Some(item) => inventory_after_pick_up(objects, inventory, item),
            None => inventory,
        },
        _ => inventory,
    }
}

/// The line logged when the player tries to pick up where no item lies.
pub open spec fn nothing_to_pick_up_message() -> (Seq<char>, Color) {
    ("There is nothing here to pick up."@, white())
}

/// The lines logged while the command is carried out: those of an attack
/// for a step, and for a pick-up one line that tells how it went.
pub open spec fn command_log(
    objects: Seq<ObjectView>,
    carried: int,
    player_id: int,
    command: Command,
) -> Seq<(Seq<char>, Color)> {
    match command {
        Command::Step { dx, dy } => move_or_attack_log(objects, player_id, dx as int, dy as int),
        Command::PickUp => match item_underfoot(objects) {
            Some(item) => seq![pick_up_message(objects, carried, item)],
            None => seq![nothing_to_pick_up_message()],
        },
        _ => Seq::empty(),
    }
}

/// What has to hold for the command to be carried out: a step must be one
/// that the object `player_id` can take.
pub open spec fn can_carry_out(
    grid: Seq<Seq<Tile>>,
    objects: Seq<ObjectView>,
    player_id: int,
    command: Command,
) -> bool {
    match command {
        Command::Step { dx, dy } => can_move_or_attack(
            grid,
            objects,
            player_id,
            dx as int,
            dy as int,
        ),
        _ => true,
    }
}

/// Whether what the key press asks of the object `player_id` can be
/// carried out: see [`can_carry_out`].
pub fn is_key_possible(key: &Key, player_id: usize, objects: &Vec<Object>, game: &Game) -> (possible:
    bool)
    ensures
        possible == (player_id < objects.len() && can_carry_out(
            grid_of(game.map),
            views(objects@),
            player_id as int,
            command_of(key.code, key.alt, key.text@, objects[player_id as int].is_alive),
        )),
{
    if player_id >= objects.len() {
        return false;
    }
    match key_command(key, objects[player_id].is_alive) {
        Command::Step { dx, dy } => is_move_or_attack_possible(player_id, dx, dy, game, objects),
        _ => true,
    }
}

/// Carries out what the key press asks of the object `player_id` and says
/// whether that used up the turn.
///
/// A step lets the object move or attack. A pick-up takes the first item
/// that lies where the object at index 0 stands and never uses up the turn;
/// the log tells whether the item was taken, the inventory was full or
/// nothing lay there. Toggling full screen and showing the inventory change
/// nothing in the game; they are left to whoever owns the screen.
pub fn handle_keys(
    key: &Key,
    player_id: usize,
    objects: &mut Vec<Object>,
    game: &mut Game,
) -> (action: PlayerAction)
    requires
        player_id < old(objects).len(),
        can_carry_out(
            grid_of(old(game).map),
            views(old(objects)@),
            player_id as int,
            command_of(key.code, key.alt, key.text@, old(objects)[player_id as int].is_alive),
        ),
    ensures
        ({
            let command = command_of(
                key.code,
                key.alt,
                key.text@,
                old(objects)[player_id as int].is_alive,
            );
            &&& action == action_of(command)
            &&& views(final(objects)@) == objects_after_command(
                grid_of(old(game).map),
                views(old(objects)@),
                old(game).inventory.len() as int,
                player_id as int,
                command,
            )
            &&& views(final(game).inventory@) == inventory_after_command(
                views(old(objects)@),
                views(old(game).inventory@),
                command,
            )
            &&& final(game).messages@ == old(game).messages@ + command_log(
                views(old(objects)@),
                old(game).inventory.len() as int,
                player_id as int,
                command,
            )
        }),
        final(game).map == old(game).map,
{
    let player_alive = objects[player_id].is_alive;
    match key_command(key, player_alive) {
        Command::ToggleFullscreen => {
            assert(game.messages@ =~= old(game).messages@ + Seq::empty());
            PlayerAction::DidntTakeTurn
        },
        Command::Quit => {
            assert(game.messages@ =~= old(game).messages@ + Seq::empty());
            PlayerAction::Exit
        },
        Command::Step { dx, dy } => {
            player_move_or_attack(player_id, dx, dy, game, objects);
            PlayerAction::TookTurn
        },
        Command::PickUp => {
            let (x, y) = objects[0].pos();
            let item_id = find_item_at(objects, x, y);
            if let Some(item_id) = item_id {
                pick_item_up(item_id, game, objects);
                assert(game.messages@ =~= old(game).messages@ + seq![
                    pick_up_message(
                        views(old(objects)@),
                        old(game).inventory.len() as int,
                        item_id as int,
                    ),
                ]);
            } else {
                game.messages.add(String::from_str("There is nothing here to pick up."), white());
                assert(game.messages@ =~= old(game).messages@ + seq![nothing_to_pick_up_message()]);
            }
            PlayerAction::DidntTakeTurn
        },
        Command::ShowInventory => {
            assert(game.messages@ =~= old(game).messages@ + Seq::empty());
            PlayerAction::TookTurn
        },
        Command::Nothing => {
            assert(game.messages@ =~= old(game).messages@ + Seq::empty());
            PlayerAction::DidntTakeTurn
        },
    }
}

/// Whether the monsters act after the player's action: they do while the
/// player, the object at index 0, is alive, unless the action took no
/// turn.
pub open spec fn monsters_act(objects: Seq<ObjectView>, action: PlayerAction) -> bool {
    objects[0].is_alive && action != PlayerAction::DidntTakeTurn
}

/// Completes a turn after the player's action: lets every monster take its
/// turn, in the order of their indices, if the monsters act at all.
pub fn monsters_take_turns(
    action: PlayerAction,
    fov: &FovSnapshot,
    game: &mut Game,
    objects: &mut Vec<Object>,
)
    requires
        old(objects).len() > 0,
        monsters_act(views(old(objects)@), action) ==> can_take_ai_turns(
            fov@,
            grid_of(old(game).map),
            views(old(objects)@),
            old(objects).len() as int,
        ),
    ensures
        views(final(objects)@) == if monsters_act(views(old(objects)@), action) {
            after_ai_turns(
                fov@,
                grid_of(old(game).map),
                views(old(objects)@),
                old(objects).len() as int,
            )
        } else {
            views(old(objects)@)
        },
        final(game).messages@ == if monsters_act(views(old(objects)@), action) {
            old(game).messages@ + ai_turns_log(
                fov@,
                grid_of(old(game).map),
                views(old(objects)@),
                old(objects).len() as int,
            )
        } else {
            old(game).messages@
        },
        final(game).map == old(game).map,
        final(game).inventory == old(game).inventory,
{
    if objects[0].is_alive && action != PlayerAction::DidntTakeTurn {
        take_ai_turns(fov, game, objects);
    }
}

/// Completes a turn after the player's action as far as that can be done:
/// if the monsters act at all, they take their turns in the order of their
/// indices up to the first turn that cannot be taken. Says whether nothing
/// was left undone.
pub fn try_monsters_take_turns(
    action: PlayerAction,
    fov: &FovSnapshot,
    game: &mut Game,
    objects: &mut Vec<Object>,
) -> (done: bool)
    requires
        old(objects).len() > 0,
    ensures
        done == (monsters_act(views(old(objects)@), action) ==> can_take_ai_turns(
            fov@,
            grid_of(old(game).map),
            views(old(objects)@),
            old(objects).len() as int,
        )),
        views(final(objects)@) == if monsters_act(views(old(objects)@), action) {
            after_ai_turns(
                fov@,
                grid_of(old(game).map),
                views(old(objects)@),
                ai_turns_taken(
                    fov@,
                    grid_of(old(game).map),
                    views(old(objects)@),
                    old(objects).len() as int,
                ),
            )
        } else {
            views(old(objects)@)
        },
        final(game).messages@ == if monsters_act(views(old(objects)@), action) {
            old(game).messages@ + ai_turns_log(
                fov@,
                grid_of(old(game).map),
                views(old(objects)@),
                ai_turns_taken(
                    fov@,
                    grid_of(old(game).map),
                    views(old(objects)@),
                    old(objects).len() as int,
                ),
            )
        } else {
            old(game).messages@
        },
        final(game).map == old(game).map,
        final(game).inventory == old(game).inventory,
{
    if objects[0].is_alive && action != PlayerAction::DidntTakeTurn {
        try_take_ai_turns(fov, game, objects)
    } else {
        true
    }
}

/// Whether the field of view has to be computed anew: it has if the
/// player no longer stands where the last computation was made from.
pub fn fov_needs_update(previous_player_position: (i32, i32), player: &Object) -> (stale: bool)
    ensures
        stale == (previous_player_position != (player.x, player.y)),
{
    previous_player_position.0 != player.x || previous_player_position.1 != player.y
}

} // verus!
