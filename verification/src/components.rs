use vstd::prelude::*;
use crate::colors::{dark_red, orange, red, Color};
use crate::game::Game;
use crate::object::{Object, ObjectView};

verus! {

/// What happens to an object when its hit points run out.
#[derive(Clone, Copy, Debug, PartialEq, Eq, Structural)]
pub enum DeathCallback {
    Player,
    Monster,
}

/// The ability to fight: hit points and combat statistics.
#[derive(Clone, Copy, Debug, PartialEq, Eq, Structural)]
pub struct Fighter {
    pub max_hp: i32,
    pub hp: i32,
    pub defense: i32,
    pub power: i32,
    pub on_death: DeathCallback,
}

/// How a monster decides what to do on its turn.
#[derive(Clone, Copy, Debug, PartialEq, Eq, Structural)]
pub enum Ai {
    /// Approach the player while in sight, attack when adjacent.
    Basic,
}

/// What an item does when used.
#[derive(Clone, Copy, Debug, PartialEq, Eq, Structural)]
pub enum Item {
    Heal,
}

/// The glyph that marks a corpse.
pub open spec fn corpse_glyph() -> char {
    '%'
}

/// The object after its death has been carried out.
///
/// The player only turns into a corpse marker. A monster in addition stops
/// blocking movement, loses the abilities to fight and to act, and is
/// renamed to "remains of" followed by its former name.
pub open spec fn death_result(policy: DeathCallback, o: ObjectView) -> ObjectView {
    match policy {
        DeathCallback::Player => ObjectView { glyph: corpse_glyph(), color: dark_red(), ..o },
        DeathCallback::Monster => ObjectView {
            glyph: corpse_glyph(),
            color: dark_red(),
            blocks_motion: false,
            fighter: None,
            ai: None,
            name: "remains of "@ + o.name,
            ..o
        },
    }
}

/// The line logged when the object dies.
pub open spec fn death_message(policy: DeathCallback, o: ObjectView) -> (Seq<char>, Color) {
    match policy {
        DeathCallback::Player => ("You died!"@, red()),
        DeathCallback::Monster => (o.name + " is dead!"@, orange()),
    }
}

impl DeathCallback {
    /// Carries out the death of `object` and logs it.
    pub fn callback(self, object: &mut Object, game: &mut Game)
        ensures
            final(object)@ == death_result(self, old(object)@),
            final(game).messages@ == old(game).messages@.push(death_message(self, old(object)@)),
            final(game).map == old(game).map,
            final(game).inventory == old(game).inventory,
    {
        match self {
            DeathCallback::Player => player_death(object, game),
            DeathCallback::Monster => monster_death(object, game),
        }
    }
}

fn player_death(player: &mut Object, game: &mut Game)
    ensures
        final(player)@ == death_result(DeathCallback::Player, old(player)@),
        final(game).messages@ == old(game).messages@.push(
            death_message(DeathCallback::Player, old(player)@),
        ),
        final(game).map == old(game).map,
        final(game).inventory == old(game).inventory,
{
    game.messages.add(String::from_str("You died!"), red());
    player.char = '%';
    player.color = dark_red();
}

fn monster_death(monster: &mut Object, game: &mut Game)
    ensures
        final(monster)@ == death_result(DeathCallback::Monster, old(monster)@),
        final(game).messages@ == old(game).messages@.push(
            death_message(DeathCallback::Monster, old(monster)@),
        ),
        final(game).map == old(game).map,
        final(game).inventory == old(game).inventory,
{
    let mut line = monster.name.clone();
    line.append(" is dead!");
    game.messages.add(line, orange());
    monster.char = '%';
    monster.color = dark_red();
    monster.blocks_motion = false;
    monster.fighter = None;
    monster.ai = None;
    let mut name = String::from_str("remains of ");
    name.append(monster.name.as_str());
    monster.name = name;
}

} // verus!
