use roguelike::colors::{dark_red, orange, red, white, Color};
use roguelike::components::{Ai, DeathCallback, Fighter, Item};
use roguelike::game::Game;
use roguelike::grid::make_empty_map;
use roguelike::messages::Messages;
use roguelike::object::Object;

fn new_game() -> Game {
    Game { map: make_empty_map(), messages: Messages::new(), inventory: vec![] }
}

fn fighter(hp: i32, defense: i32, power: i32, on_death: DeathCallback) -> Fighter {
    Fighter { max_hp: hp, hp, defense, power, on_death }
}

fn player(x: i32, y: i32) -> Object {
    let mut o = Object::new(x, y, '@', white(), "me".to_string(), true, true);
    o.fighter = Some(fighter(30, 2, 5, DeathCallback::Player));
    o
}

fn orc(x: i32, y: i32) -> Object {
    let mut o = Object::new(x, y, 'o', Color::new(63, 127, 63), "Orc".to_string(), true, true);
    o.fighter = Some(fighter(10, 0, 3, DeathCallback::Monster));
    o.ai = Some(Ai::Basic);
    o
}

fn lines(game: &Game) -> Vec<(String, Color)> {
    game.messages.iter().cloned().collect()
}

#[test]
fn new_object_has_no_abilities() {
    let o = Object::new(3, 4, 'x', red(), "thing".to_string(), false, true);
    assert_eq!(o.pos(), (3, 4));
    assert_eq!(o.char, 'x');
    assert_eq!(o.color, red());
    assert_eq!(o.name, "thing");
    assert!(!o.blocks_motion);
    assert!(o.is_alive);
    assert!(o.fighter.is_none());
    assert!(o.ai.is_none());
    assert!(o.item.is_none());
}

#[test]
fn set_pos_moves_only_the_position() {
    let mut o = orc(1, 2);
    o.set_pos(-7, 40);
    assert_eq!(o.pos(), (-7, 40));
    assert_eq!(o.name, "Orc");
    assert_eq!(o.fighter, Some(fighter(10, 0, 3, DeathCallback::Monster)));
}

#[test]
fn distance_squared_is_exact() {
    let a = Object::new(0, 0, 'a', white(), "a".to_string(), false, true);
    let b = Object::new(3, -4, 'b', white(), "b".to_string(), false, true);
    assert_eq!(a.distance_squared_to(&b), 25);
    assert_eq!(b.distance_squared_to(&a), 25);
    assert_eq!(a.distance_squared_to(&a), 0);
    let far = Object::new(i32::MAX, i32::MIN, 'c', white(), "c".to_string(), false, true);
    let other = Object::new(i32::MIN, i32::MAX, 'd', white(), "d".to_string(), false, true);
    let side: i128 = 4294967295;
    assert_eq!(far.distance_squared_to(&other), 2 * side * side);
}

#[test]
fn attack_deals_power_less_defense() {
    let mut attacker = player(1, 1);
    let mut defender = orc(2, 1);
    defender.fighter = Some(fighter(10, 2, 3, DeathCallback::Monster));
    let mut game = new_game();
    attacker.attack(&mut defender, &mut game);
    assert_eq!(defender.fighter.unwrap().hp, 7);
    assert_eq!(defender.fighter.unwrap().max_hp, 10);
    assert!(defender.is_alive);
    assert_eq!(lines(&game), vec![("me attacks Orc for 3 hit points.".to_string(), white())]);
    assert_eq!(attacker.fighter, Some(fighter(30, 2, 5, DeathCallback::Player)));
}

#[test]
fn attack_is_the_same_every_time() {
    for _ in 0..20 {
        let mut attacker = player(1, 1);
        let mut defender = orc(2, 1);
        defender.fighter = Some(fighter(10, 2, 3, DeathCallback::Monster));
        let mut game = new_game();
        attacker.attack(&mut defender, &mut game);
        assert_eq!(defender.fighter.unwrap().hp, 7);
        assert_eq!(game.messages.len(), 1);
    }
}

#[test]
fn attack_without_effect_changes_nothing() {
    let mut attacker = orc(1, 1);
    let mut defender = player(2, 1);
    defender.fighter = Some(fighter(30, 3, 5, DeathCallback::Player));
    let mut game = new_game();
    attacker.attack(&mut defender, &mut game);
    assert_eq!(defender.fighter.unwrap().hp, 30);
    assert!(defender.is_alive);
    assert_eq!(lines(&game), vec![("Orc attacks me but it has no effect!".to_string(), white())]);
}

#[test]
fn attack_without_effect_does_not_kill_the_hurt() {
    let mut attacker = orc(1, 1);
    let mut defender = player(2, 1);
    defender.fighter = Some(Fighter {
        max_hp: 30,
        hp: 0,
        defense: 9,
        power: 5,
        on_death: DeathCallback::Player,
    });
    let mut game = new_game();
    attacker.attack(&mut defender, &mut game);
    assert!(defender.is_alive);
    assert_eq!(defender.char, '@');
    assert_eq!(game.messages.len(), 1);
}

#[test]
fn objects_without_fighter_count_as_zero() {
    let mut rock = Object::new(1, 1, '#', white(), "rock".to_string(), true, true);
    let mut target = orc(2, 1);
    let mut game = new_game();
    rock.attack(&mut target, &mut game);
    assert_eq!(target.fighter.unwrap().hp, 10);
    assert_eq!(lines(&game), vec![("rock attacks Orc but it has no effect!".to_string(), white())]);

    let mut game = new_game();
    target.attack(&mut rock, &mut game);
    assert!(rock.is_alive);
    assert!(rock.fighter.is_none());
    assert_eq!(lines(&game), vec![("Orc attacks rock for 3 hit points.".to_string(), white())]);
}

#[test]
fn take_damage_subtracts_positive_amounts_only() {
    let mut o = orc(1, 1);
    let mut game = new_game();
    o.take_damage(4, &mut game);
    assert_eq!(o.fighter.unwrap().hp, 6);
    o.take_damage(0, &mut game);
    assert_eq!(o.fighter.unwrap().hp, 6);
    o.take_damage(-5, &mut game);
    assert_eq!(o.fighter.unwrap().hp, 6);
    assert!(o.is_alive);
    assert_eq!(game.messages.len(), 0);
}

#[test]
fn take_damage_leaves_what_cannot_fight() {
    let mut o = Object::new(1, 1, '!', white(), "potion".to_string(), false, true);
    o.item = Some(Item::Heal);
    let mut game = new_game();
    o.take_damage(100, &mut game);
    assert!(o.is_alive);
    assert_eq!(o.name, "potion");
    assert_eq!(game.messages.len(), 0);
}

#[test]
fn monster_death_leaves_remains() {
    let mut o = orc(1, 1);
    let mut game = new_game();
    o.take_damage(10, &mut game);
    assert!(!o.is_alive);
    assert_eq!(o.name, "remains of Orc");
    assert_eq!(o.char, '%');
    assert_eq!(o.color, dark_red());
    assert!(!o.blocks_motion);
    assert!(o.fighter.is_none());
    assert!(o.ai.is_none());
    assert_eq!(o.pos(), (1, 1));
    assert_eq!(lines(&game), vec![("Orc is dead!".to_string(), orange())]);
}

#[test]
fn player_death_keeps_the_player_in_place() {
    let mut p = player(4, 5);
    let mut game = new_game();
    p.take_damage(31, &mut game);
    assert!(!p.is_alive);
    assert_eq!(p.name, "me");
    assert_eq!(p.char, '%');
    assert_eq!(p.color, dark_red());
    assert!(p.blocks_motion);
    assert_eq!(p.fighter.unwrap().hp, -1);
    assert_eq!(p.pos(), (4, 5));
    assert_eq!(lines(&game), vec![("You died!".to_string(), red())]);
}

#[test]
fn death_happens_once_for_a_monster() {
    let mut o = orc(1, 1);
    let mut game = new_game();
    o.take_damage(10, &mut game);
    o.take_damage(10, &mut game);
    o.take_damage(1, &mut game);
    assert!(!o.is_alive);
    assert_eq!(o.name, "remains of Orc");
    assert_eq!(game.messages.len(), 1);
}

#[test]
fn death_happens_once_for_the_player() {
    let mut p = player(4, 5);
    let mut game = new_game();
    p.take_damage(30, &mut game);
    assert!(!p.is_alive);
    assert_eq!(game.messages.len(), 1);
    p.take_damage(5, &mut game);
    p.take_damage(0, &mut game);
    assert!(!p.is_alive);
    assert_eq!(p.name, "me");
    assert_eq!(p.fighter.unwrap().hp, -5);
    assert_eq!(lines(&game), vec![("You died!".to_string(), red())]);
}

#[test]
fn damage_that_leaves_hit_points_does_not_kill() {
    let mut o = orc(1, 1);
    let mut game = new_game();
    o.take_damage(9, &mut game);
    assert!(o.is_alive);
    assert_eq!(o.fighter.unwrap().hp, 1);
    assert_eq!(o.name, "Orc");
    o.take_damage(1, &mut game);
    assert!(!o.is_alive);
}

#[test]
fn callback_player_marks_the_corpse() {
    let mut p = player(4, 5);
    let mut game = new_game();
    DeathCallback::Player.callback(&mut p, &mut game);
    assert_eq!(p.char, '%');
    assert_eq!(p.color, dark_red());
    assert_eq!(p.name, "me");
    assert!(p.fighter.is_some());
    assert_eq!(lines(&game), vec![("You died!".to_string(), red())]);
}

#[test]
fn callback_monster_strips_the_corpse() {
    let mut o = orc(4, 5);
    let mut game = new_game();
    DeathCallback::Monster.callback(&mut o, &mut game);
    assert_eq!(o.name, "remains of Orc");
    assert!(!o.blocks_motion);
    assert!(o.fighter.is_none());
    assert!(o.ai.is_none());
    assert_eq!(lines(&game), vec![("Orc is dead!".to_string(), orange())]);
}

#[test]
fn messages_keep_their_order() {
    let mut log = Messages::new();
    assert_eq!(log.len(), 0);
    log.add("Testing!".to_string(), red());
    log.add("second".to_string(), white());
    assert_eq!(log.len(), 2);
    assert_eq!(log.get(0), &("Testing!".to_string(), red()));
    assert_eq!(log.get(1), &("second".to_string(), white()));
    let newest_first: Vec<&(String, Color)> = log.iter().rev().collect();
    assert_eq!(newest_first[0].0, "second");
    assert_eq!(newest_first[1].0, "Testing!");
}
