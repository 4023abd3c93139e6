use vstd::prelude::*;
use crate::colors::{white, Color};
use crate::components::{death_message, death_result, Ai, Fighter, Item};
use crate::game::Game;
use crate::text::{decimal, decimal_string};

verus! {

/// Anything that has a place on the map: the player, a monster, an item, a
/// corpse.
#[derive(Debug)]
pub struct Object {
    pub x: i32,
    pub y: i32,
    pub char: char,
    pub color: Color,
    pub name: String,
    pub blocks_motion: bool,
    pub is_alive: bool,
    pub fighter: Option<Fighter>,
    pub ai: Option<Ai>,
    pub item: Option<Item>,
}

/// The mathematical value of an [`Object`].
pub struct ObjectView {
    pub x: int,
    pub y: int,
    pub glyph: char,
    pub color: Color,
    pub name: Seq<char>,
    pub blocks_motion: bool,
    pub is_alive: bool,
    pub fighter: Option<Fighter>,
    pub ai: Option<Ai>,
    pub item: Option<Item>,
}

impl View for Object {
    type V = ObjectView;

    open spec fn view(&self) -> ObjectView {
        ObjectView {
            x: self.x as int,
            y: self.y as int,
            glyph: self.char,
            color: self.color,
            name: self.name@,
            blocks_motion: self.blocks_motion,
            is_alive: self.is_alive,
            fighter: self.fighter,
            ai: self.ai,
            item: self.item,
        }
    }
}

/// The values of a sequence of objects, in order.
pub open spec fn views(objects: Seq<Object>) -> Seq<ObjectView> {
    objects.map_values(|o: Object| o@)
}

/// The attack strength of an object; zero for one that cannot fight.
pub open spec fn power_of(o: ObjectView) -> int {
    match o.fighter {
        Some(f) => f.power as int,
        None => 0,
    }
}

/// The armour of an object; zero for one that cannot fight.
pub open spec fn defense_of(o: ObjectView) -> int {
    match o.fighter {
        Some(f) => f.defense as int,
        None => 0,
    }
}

/// The hit points that one attack of `attacker` takes from `defender`; an
/// attack has an effect only where this is positive.
pub open spec fn attack_damage(attacker: ObjectView, defender: ObjectView) -> int {
    power_of(attacker) - defense_of(defender)
}

/// The hit points of a fighter after `amount` points of damage; an amount
/// that is not positive changes nothing.
pub open spec fn hp_after(hp: int, amount: int) -> int {
    if amount > 0 {
        hp - amount
    } else {
        hp
    }
}

/// Whether `amount` points of damage kill the object: it can fight, is
/// still alive, and is left without hit points.
pub open spec fn dies_from(o: ObjectView, amount: int) -> bool {
    &&& o.fighter is Some
    &&& o.is_alive
    &&& hp_after(o.fighter.unwrap().hp as int, amount) <= 0
}

/// The object after it has taken `amount` points of damage.
///
/// An object that cannot fight is left as it is. Otherwise the damage is
/// taken from its hit points, and if that kills it, it is marked dead and
/// its death is carried out. An object that is dead already only loses hit
/// points.
pub open spec fn after_damage(o: ObjectView, amount: int) -> ObjectView {
    match o.fighter {
        None => o,
        Some(f) => {
            let hit = ObjectView {
                fighter: Some(Fighter { hp: hp_after(f.hp as int, amount) as i32, ..f }),
                ..o
            };
            if dies_from(o, amount) {
                death_result(f.on_death, ObjectView { is_alive: false, ..hit })
            } else {
                hit
            }
        },
    }
}

/// The lines logged while the object takes `amount` points of damage: the
/// announcement of its death if the damage kills it, nothing otherwise.
pub open spec fn damage_log(o: ObjectView, amount: int) -> Seq<(Seq<char>, Color)> {
    if dies_from(o, amount) {
        seq![death_message(o.fighter.unwrap().on_death, o)]
    } else {
        Seq::empty()
    }
}

/// An object that is left without hit points is dead, whether the damage
/// killed it or it was dead before.
pub proof fn lemma_no_hit_points_left(o: ObjectView, amount: int)
    requires
        o.fighter is Some,
        hp_after(o.fighter.unwrap().hp as int, amount) <= 0,
    ensures
        !after_damage(o, amount).is_alive,
{
}

/// Damage to an object that is dead already is not announced, and leaves
/// it dead, under the same name and with the same looks.
pub proof fn lemma_dead_stays_dead(o: ObjectView, amount: int)
    requires
        !o.is_alive,
    ensures
        damage_log(o, amount) == Seq::<(Seq<char>, Color)>::empty(),
        !after_damage(o, amount).is_alive,
        after_damage(o, amount).name == o.name,
        after_damage(o, amount).glyph == o.glyph,
        after_damage(o, amount).color == o.color,
        after_damage(o, amount).blocks_motion == o.blocks_motion,
        after_damage(o, amount).ai == o.ai,
        after_damage(o, amount).item == o.item,
        after_damage(o, amount).x == o.x,
        after_damage(o, amount).y == o.y,
{
}

/// Death comes once. The damage that kills an object is announced in one
/// line; whatever damage follows is not announced and does not rename the
/// object again.
pub proof fn lemma_death_comes_once(o: ObjectView, deadly: int, later: int)
    requires
        dies_from(o, deadly),
    ensures
        damage_log(o, deadly).len() == 1,
        !after_damage(o, deadly).is_alive,
        damage_log(after_damage(o, deadly), later) == Seq::<(Seq<char>, Color)>::empty(),
        after_damage(after_damage(o, deadly), later).name == after_damage(o, deadly).name,
        !after_damage(after_damage(o, deadly), later).is_alive,
{
    lemma_dead_stays_dead(after_damage(o, deadly), later);
}

/// The damage does not take the object's hit points below what an `i32`
/// holds.
pub open spec fn damage_fits(o: ObjectView, amount: int) -> bool {
    o.fighter is Some ==> hp_after(o.fighter.unwrap().hp as int, amount) >= i32::MIN
}

/// The line logged for an attack that does damage.
pub open spec fn hit_text(attacker: Seq<char>, target: Seq<char>, damage: int) -> Seq<char> {
    attacker + " attacks "@ + target + " for "@ + decimal(damage) + " hit points."@
}

/// The line logged for an attack that does no damage.
pub open spec fn miss_text(attacker: Seq<char>, target: Seq<char>) -> Seq<char> {
    attacker + " attacks "@ + target + " but it has no effect!"@
}

/// The line logged for an attack of `attacker` on `target`.
pub open spec fn attack_message(attacker: ObjectView, target: ObjectView) -> (Seq<char>, Color) {
    let damage = attack_damage(attacker, target);
    if damage > 0 {
        (hit_text(attacker.name, target.name, damage), white())
    } else {
        (miss_text(attacker.name, target.name), white())
    }
}

/// The target after an attack of `attacker`: it takes the damage if there
/// is any, and is left untouched otherwise.
pub open spec fn after_attack(attacker: ObjectView, target: ObjectView) -> ObjectView {
    let damage = attack_damage(attacker, target);
    if damage > 0 {
        after_damage(target, damage)
    } else {
        target
    }
}

/// All lines logged for an attack of `attacker` on `target`: the attack
/// itself, then the target's death if it dies.
pub open spec fn attack_log(attacker: ObjectView, target: ObjectView) -> Seq<(Seq<char>, Color)> {
    let damage = attack_damage(attacker, target);
    if damage > 0 {
        seq![attack_message(attacker, target)] + damage_log(target, damage)
    } else {
        seq![attack_message(attacker, target)]
    }
}

/// An attack holds no chance. The damage is settled by the attacker's
/// power and the target's defense alone, and what becomes of the target and
/// what is logged by the damage, the target and the attacker's name.
pub proof fn lemma_attack_is_determined(
    attacker: ObjectView,
    target: ObjectView,
    other_attacker: ObjectView,
    other_target: ObjectView,
)
    ensures
        power_of(attacker) == power_of(other_attacker) && defense_of(target) == defense_of(
            other_target,
        ) ==> attack_damage(attacker, target) == attack_damage(other_attacker, other_target),
        power_of(attacker) == power_of(other_attacker) && attacker.name == other_attacker.name
            && target == other_target ==> {
            &&& after_attack(attacker, target) == after_attack(other_attacker, other_target)
            &&& attack_log(attacker, target) == attack_log(other_attacker, other_target)
        },
{
}

/// The attack can be computed in `i32`: neither the damage nor the target's
/// remaining hit points leave its range.
pub open spec fn attack_fits(attacker: ObjectView, target: ObjectView) -> bool {
    &&& i32::MIN <= attack_damage(attacker, target) <= i32::MAX
    &&& damage_fits(target, attack_damage(attacker, target))
}

/// The square of the straight-line distance between two positions.
pub open spec fn distance_squared(x1: int, y1: int, x2: int, y2: int) -> int {
    (x2 - x1) * (x2 - x1) + (y2 - y1) * (y2 - y1)
}

impl Object {
    /// An object with no abilities: it cannot fight, act or be used.
    pub fn new(
        x: i32,
        y: i32,
        char: char,
        color: Color,
        name: String,
        blocks_motion: bool,
        is_alive: bool,
    ) -> (o: Object)
        ensures
            o@ == (ObjectView {
                x: x as int,
                y: y as int,
                glyph: char,
                color,
                name: name@,
                blocks_motion,
                is_alive,
                fighter: None,
                ai: None,
                item: None,
            }),
    {
        Object {
            x: x,
            y: y,
            char: char,
            color: color,
            name: name,
            blocks_motion: blocks_motion,
            is_alive: is_alive,
            fighter: None,
            ai: None,
            item: None,
        }
    }

    /// The object's position.
    pub fn pos(&self) -> (p: (i32, i32))
        ensures
            p == (self.x, self.y),
    {
        (self.x, self.y)
    }

    /// Moves the object to `(x, y)`.
    pub fn set_pos(&mut self, x: i32, y: i32)
        ensures
            final(self)@ == (ObjectView { x: x as int, y: y as int, ..old(self)@ }),
    {
        self.x = x;
        self.y = y;
    }

    /// The square of the straight-line distance to `other`.
    pub fn distance_squared_to(&self, other: &Object) -> (d: i128)
        ensures
            d == distance_squared(self.x as int, self.y as int, other.x as int, other.y as int),
    {
        let dx: i128 = other.x as i128 - self.x as i128;
        let dy: i128 = other.y as i128 - self.y as i128;
        assert(0 <= dx * dx <= 0x1_0000_0000 * 0x1_0000_0000) by (nonlinear_arith)
            requires
                -0x1_0000_0000 < dx < 0x1_0000_0000,
        ;
        assert(0 <= dy * dy <= 0x1_0000_0000 * 0x1_0000_0000) by (nonlinear_arith)
            requires
                -0x1_0000_0000 < dy < 0x1_0000_0000,
        ;
        dx * dx + dy * dy
    }

    /// Takes `damage` hit points from the object and, if that kills it,
    /// carries out its death.
    ///
    /// The death is carried out once only: an object that is no longer alive
    /// is neither announced dead nor renamed again.
    pub fn take_damage(&mut self, damage: i32, game: &mut Game)
        requires
            damage_fits(old(self)@, damage as int),
        ensures
            final(self)@ == after_damage(old(self)@, damage as int),
            final(game).messages@ == old(game).messages@ + damage_log(old(self)@, damage as int),
            final(game).map == old(game).map,
            final(game).inventory == old(game).inventory,
    {
        match self.fighter {
            Some(mut fighter) => {
                if damage > 0 {
                    fighter.hp = fighter.hp - damage;
                    self.fighter = Some(fighter);
                }
                if fighter.hp <= 0 && self.is_alive {
                    self.is_alive = false;
                    fighter.on_death.callback(self, game);
                    assert(game.messages@ =~= old(game).messages@ + damage_log(
                        old(self)@,
                        damage as int,
                    ));
                } else {
                    assert(game.messages@ =~= old(game).messages@ + damage_log(
                        old(self)@,
                        damage as int,
                    ));
                }
            },
            None => {
                assert(game.messages@ =~= old(game).messages@ + damage_log(
                    old(self)@,
                    damage as int,
                ));
            },
        }
    }

    /// Attacks `target`: the damage is the attacker's power less the
    /// target's defense. Positive damage is taken from the target and
    /// logged; otherwise only the failure is logged.
    pub fn attack(&mut self, target: &mut Object, game: &mut Game)
        requires
            attack_fits(old(self)@, old(target)@),
        ensures
            final(self)@ == old(self)@,
            final(target)@ == after_attack(old(self)@, old(target)@),
            final(game).messages@ == old(game).messages@ + attack_log(old(self)@, old(target)@),
            final(game).map == old(game).map,
            final(game).inventory == old(game).inventory,
    {
        let power: i32 = match self.fighter {
            Some(f) => f.power,
            None => 0,
        };
        let defense: i32 = match target.fighter {
            Some(f) => f.defense,
            None => 0,
        };
        let damage: i32 = power - defense;
        if damage > 0 {
            let mut line = self.name.clone();
            line.append(" attacks ");
            line.append(target.name.as_str());
            line.append(" for ");
            line.append(decimal_string(damage).as_str());
            line.append(" hit points.");
            assert(line@ == hit_text(old(self)@.name, old(target)@.name, damage as int));
            game.messages.add(line, white());
            let ghost logged = game.messages@;
            target.take_damage(damage, game);
            assert(logged == old(game).messages@.push(attack_message(old(self)@, old(target)@)));
            assert(game.messages@ == logged + damage_log(old(target)@, damage as int));
        } else {
            let mut line = self.name.clone();
            line.append(" attacks ");
            line.append(target.name.as_str());
            line.append(" but it has no effect!");
            assert(line@ == miss_text(old(self)@.name, old(target)@.name));
            game.messages.add(line, white());
        }
        assert(game.messages@ =~= old(game).messages@ + attack_log(old(self)@, old(target)@));
    }
}

} // verus!
