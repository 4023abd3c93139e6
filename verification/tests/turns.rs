use roguelike::ai::{
    ai_take_turn, is_ai_turn_possible, is_ready_for_ai_turns, take_ai_turns, try_take_ai_turns,
};
use roguelike::colors::{red, white};
use roguelike::components::{Ai, DeathCallback, Fighter, Item};
use roguelike::fov::FovSnapshot;
use roguelike::game::Game;
use roguelike::grid::make_empty_map;
use roguelike::messages::Messages;
use roguelike::object::Object;
use roguelike::tile::Tile;
use roguelike::turn::{
    find_item_at, fov_needs_update, handle_keys, is_key_possible, key_command,
    monsters_take_turns, try_monsters_take_turns, Command, Key, KeyCode, PlayerAction,
};

fn open_game() -> Game {
    Game { map: make_empty_map(), messages: Messages::new(), inventory: vec![] }
}

fn hero(x: i32, y: i32) -> Object {
    let mut o = Object::new(x, y, '@', white(), "me".to_string(), true, true);
    o.fighter = Some(Fighter {
        max_hp: 30,
        hp: 30,
        defense: 2,
        power: 5,
        on_death: DeathCallback::Player,
    });
    o
}

fn orc_at(x: i32, y: i32) -> Object {
    let mut o = Object::new(x, y, 'o', white(), "Orc".to_string(), true, true);
    o.fighter = Some(Fighter {
        max_hp: 10,
        hp: 10,
        defense: 0,
        power: 3,
        on_death: DeathCallback::Monster,
    });
    o.ai = Some(Ai::Basic);
    o
}

fn potion_at(x: i32, y: i32) -> Object {
    let mut o = Object::new(x, y, '!', white(), "Potion of Healing".to_string(), false, true);
    o.item = Some(Item::Heal);
    o
}

fn dark() -> FovSnapshot {
    FovSnapshot::new(80, 43)
}

fn lit() -> FovSnapshot {
    FovSnapshot { visible: vec![vec![true; 43]; 80] }
}

fn key(code: KeyCode) -> Key {
    Key { code, alt: false, text: String::new() }
}

fn text(s: &str) -> Key {
    Key { code: KeyCode::Text, alt: false, text: s.to_string() }
}

#[test]
fn snapshot_starts_dark() {
    let fov = FovSnapshot::new(80, 43);
    assert_eq!(fov.visible.len(), 80);
    assert_eq!(fov.visible[79].len(), 43);
    assert!(!fov.is_in_fov(0, 0));
    assert!(!fov.is_in_fov(79, 42));
}

#[test]
fn snapshot_records_what_is_set() {
    let mut fov = FovSnapshot::new(4, 3);
    fov.set(2, 1, true);
    assert!(fov.is_in_fov(2, 1));
    assert!(!fov.is_in_fov(1, 2));
    assert!(!fov.is_in_fov(2, 0));
    fov.set(2, 1, false);
    assert!(!fov.is_in_fov(2, 1));
}

#[test]
fn unseen_monster_waits() {
    let mut game = open_game();
    let mut objects = vec![hero(10, 10), orc_at(15, 10)];
    ai_take_turn(1, &dark(), &mut game, &mut objects);
    assert_eq!(objects[1].pos(), (15, 10));
    assert_eq!(objects[0].fighter.unwrap().hp, 30);
    assert_eq!(game.messages.len(), 0);
}

#[test]
fn unseen_monster_next_to_the_player_does_not_attack() {
    let mut game = open_game();
    let mut objects = vec![hero(10, 10), orc_at(11, 10)];
    ai_take_turn(1, &dark(), &mut game, &mut objects);
    assert_eq!(objects[0].fighter.unwrap().hp, 30);
    assert_eq!(game.messages.len(), 0);
}

#[test]
fn seen_monster_steps_one_cell_closer() {
    let mut game = open_game();
    let mut objects = vec![hero(10, 10), orc_at(15, 10)];
    let mut fov = dark();
    fov.set(15, 10, true);
    ai_take_turn(1, &fov, &mut game, &mut objects);
    assert_eq!(objects[1].pos(), (14, 10));
    assert_eq!(objects[0].pos(), (10, 10));
    assert_eq!(game.messages.len(), 0);
    // The cell it stands on now is dark: it waits again.
    ai_take_turn(1, &fov, &mut game, &mut objects);
    assert_eq!(objects[1].pos(), (14, 10));
}

#[test]
fn monster_at_distance_two_still_approaches() {
    let mut game = open_game();
    let mut objects = vec![hero(10, 10), orc_at(12, 10)];
    ai_take_turn(1, &lit(), &mut game, &mut objects);
    assert_eq!(objects[1].pos(), (11, 10));
    assert_eq!(objects[0].fighter.unwrap().hp, 30);
}

#[test]
fn adjacent_monster_attacks() {
    let mut game = open_game();
    let mut objects = vec![hero(10, 10), orc_at(11, 10)];
    ai_take_turn(1, &lit(), &mut game, &mut objects);
    assert_eq!(objects[1].pos(), (11, 10));
    assert_eq!(objects[0].fighter.unwrap().hp, 29);
    assert_eq!(game.messages.get(0).0, "Orc attacks me for 1 hit points.");
}

#[test]
fn diagonal_neighbour_attacks() {
    let mut game = open_game();
    let mut objects = vec![hero(10, 10), orc_at(11, 11)];
    ai_take_turn(1, &lit(), &mut game, &mut objects);
    assert_eq!(objects[1].pos(), (11, 11));
    assert_eq!(objects[0].fighter.unwrap().hp, 29);
}

#[test]
fn monster_spares_a_player_without_hit_points() {
    let mut game = open_game();
    let mut player = hero(10, 10);
    player.fighter = Some(Fighter {
        max_hp: 30,
        hp: 0,
        defense: 2,
        power: 5,
        on_death: DeathCallback::Player,
    });
    let mut objects = vec![player, orc_at(11, 10)];
    ai_take_turn(1, &lit(), &mut game, &mut objects);
    assert_eq!(objects[0].fighter.unwrap().hp, 0);
    assert_eq!(game.messages.len(), 0);
    assert_eq!(objects[1].pos(), (11, 10));
}

#[test]
fn monster_kills_the_player() {
    let mut game = open_game();
    let mut player = hero(10, 10);
    player.fighter = Some(Fighter {
        max_hp: 30,
        hp: 1,
        defense: 2,
        power: 5,
        on_death: DeathCallback::Player,
    });
    let mut objects = vec![player, orc_at(11, 10), orc_at(10, 11)];
    take_ai_turns(&lit(), &mut game, &mut objects);
    assert!(!objects[0].is_alive);
    assert_eq!(objects[0].char, '%');
    assert_eq!(objects[0].fighter.unwrap().hp, 0);
    assert_eq!(game.messages.len(), 2);
    assert_eq!(game.messages.get(0).0, "Orc attacks me for 1 hit points.");
    assert_eq!(game.messages.get(1), &("You died!".to_string(), red()));
}

#[test]
fn monsters_act_in_the_order_of_their_indices() {
    let mut game = open_game();
    // The nearer monster moves first and makes room for the one behind it.
    let mut objects = vec![hero(10, 10), orc_at(12, 10), potion_at(1, 1), orc_at(13, 10)];
    take_ai_turns(&lit(), &mut game, &mut objects);
    assert_eq!(objects[1].pos(), (11, 10));
    assert_eq!(objects[3].pos(), (12, 10));
    assert_eq!(objects[2].pos(), (1, 1));

    // The farther monster moves first and finds its way barred.

    let mut objects = vec![hero(10, 10), orc_at(13, 10), orc_at(12, 10)];
    take_ai_turns(&lit(), &mut game, &mut objects);
    assert_eq!(objects[1].pos(), (13, 10));
    assert_eq!(objects[2].pos(), (11, 10));
}

#[test]
fn monsters_rest_when_no_turn_was_taken() {
    let mut game = open_game();
    let mut objects = vec![hero(10, 10), orc_at(11, 10)];
    monsters_take_turns(PlayerAction::DidntTakeTurn, &lit(), &mut game, &mut objects);
    assert_eq!(objects[0].fighter.unwrap().hp, 30);
    monsters_take_turns(PlayerAction::TookTurn, &lit(), &mut game, &mut objects);
    assert_eq!(objects[0].fighter.unwrap().hp, 29);
    monsters_take_turns(PlayerAction::Exit, &lit(), &mut game, &mut objects);
    assert_eq!(objects[0].fighter.unwrap().hp, 28);
}

#[test]
fn monsters_rest_when_the_player_is_dead() {
    let mut game = open_game();
    let mut player = hero(10, 10);
    player.is_alive = false;
    let mut objects = vec![player, orc_at(15, 10)];
    monsters_take_turns(PlayerAction::TookTurn, &lit(), &mut game, &mut objects);
    assert_eq!(objects[1].pos(), (15, 10));
}

#[test]
fn keys_decode_to_commands() {
    assert_eq!(key_command(&key(KeyCode::Up), true), Command::Step { dx: 0, dy: -1 });
    assert_eq!(key_command(&key(KeyCode::Down), true), Command::Step { dx: 0, dy: 1 });
    assert_eq!(key_command(&key(KeyCode::Left), true), Command::Step { dx: -1, dy: 0 });
    assert_eq!(key_command(&key(KeyCode::Right), true), Command::Step { dx: 1, dy: 0 });
    assert_eq!(key_command(&key(KeyCode::Escape), true), Command::Quit);
    assert_eq!(key_command(&text("g"), true), Command::PickUp);
    assert_eq!(key_command(&text("i"), true), Command::ShowInventory);
    assert_eq!(key_command(&text("x"), true), Command::Nothing);
    assert_eq!(key_command(&text("gg"), true), Command::Nothing);
    assert_eq!(key_command(&text(""), true), Command::Nothing);
    assert_eq!(key_command(&key(KeyCode::Other), true), Command::Nothing);
    assert_eq!(key_command(&key(KeyCode::Enter), true), Command::Nothing);
    let alt_enter = Key { code: KeyCode::Enter, alt: true, text: String::new() };
    assert_eq!(key_command(&alt_enter, true), Command::ToggleFullscreen);
    let alt_up = Key { code: KeyCode::Up, alt: true, text: String::new() };
    assert_eq!(key_command(&alt_up, true), Command::Step { dx: 0, dy: -1 });
    let g_on_other_key = Key { code: KeyCode::Other, alt: false, text: "g".to_string() };
    assert_eq!(key_command(&g_on_other_key, true), Command::Nothing);
}

#[test]
fn the_dead_can_only_quit_or_toggle() {
    assert_eq!(key_command(&key(KeyCode::Up), false), Command::Nothing);
    assert_eq!(key_command(&key(KeyCode::Right), false), Command::Nothing);
    assert_eq!(key_command(&text("g"), false), Command::Nothing);
    assert_eq!(key_command(&text("i"), false), Command::Nothing);
    assert_eq!(key_command(&key(KeyCode::Escape), false), Command::Quit);
    let alt_enter = Key { code: KeyCode::Enter, alt: true, text: String::new() };
    assert_eq!(key_command(&alt_enter, false), Command::ToggleFullscreen);
}

#[test]
fn arrows_take_a_turn() {
    let mut game = open_game();
    let mut objects = vec![hero(10, 10)];
    assert_eq!(handle_keys(&key(KeyCode::Up), 0, &mut objects, &mut game), PlayerAction::TookTurn);
    assert_eq!(objects[0].pos(), (10, 9));
    assert_eq!(
        handle_keys(&key(KeyCode::Left), 0, &mut objects, &mut game),
        PlayerAction::TookTurn
    );
    assert_eq!(objects[0].pos(), (9, 9));
    assert_eq!(
        handle_keys(&key(KeyCode::Down), 0, &mut objects, &mut game),
        PlayerAction::TookTurn
    );
    assert_eq!(
        handle_keys(&key(KeyCode::Right), 0, &mut objects, &mut game),
        PlayerAction::TookTurn
    );
    assert_eq!(objects[0].pos(), (10, 10));
}

#[test]
fn arrow_into_a_wall_still_takes_a_turn() {
    let mut game = open_game();
    game.map[10][9] = Tile::wall();
    let mut objects = vec![hero(10, 10)];
    assert_eq!(handle_keys(&key(KeyCode::Up), 0, &mut objects, &mut game), PlayerAction::TookTurn);
    assert_eq!(objects[0].pos(), (10, 10));
}

#[test]
fn arrow_towards_a_monster_attacks() {
    let mut game = open_game();
    let mut objects = vec![hero(10, 10), orc_at(10, 11)];
    assert_eq!(
        handle_keys(&key(KeyCode::Down), 0, &mut objects, &mut game),
        PlayerAction::TookTurn
    );
    assert_eq!(objects[0].pos(), (10, 10));
    assert_eq!(objects[1].fighter.unwrap().hp, 5);
}

#[test]
fn escape_exits() {
    let mut game = open_game();
    let mut objects = vec![hero(10, 10)];
    assert_eq!(handle_keys(&key(KeyCode::Escape), 0, &mut objects, &mut game), PlayerAction::Exit);
    assert_eq!(objects[0].pos(), (10, 10));
}

#[test]
fn other_keys_take_no_turn() {
    let mut game = open_game();
    let mut objects = vec![hero(10, 10)];
    assert_eq!(
        handle_keys(&key(KeyCode::Other), 0, &mut objects, &mut game),
        PlayerAction::DidntTakeTurn
    );
    assert_eq!(handle_keys(&text("z"), 0, &mut objects, &mut game), PlayerAction::DidntTakeTurn);
    let alt_enter = Key { code: KeyCode::Enter, alt: true, text: String::new() };
    assert_eq!(handle_keys(&alt_enter, 0, &mut objects, &mut game), PlayerAction::DidntTakeTurn);
    assert_eq!(objects[0].pos(), (10, 10));
    assert_eq!(game.messages.len(), 0);
}

#[test]
fn inventory_key_takes_a_turn() {
    let mut game = open_game();
    let mut objects = vec![hero(10, 10)];
    assert_eq!(handle_keys(&text("i"), 0, &mut objects, &mut game), PlayerAction::TookTurn);
    assert_eq!(game.messages.len(), 0);
}

#[test]
fn g_picks_up_what_lies_underfoot() {
    let mut game = open_game();
    let mut objects = vec![hero(10, 10), potion_at(11, 10), potion_at(10, 10)];
    assert_eq!(handle_keys(&text("g"), 0, &mut objects, &mut game), PlayerAction::DidntTakeTurn);
    assert_eq!(objects.len(), 2);
    assert_eq!(objects[1].pos(), (11, 10));
    assert_eq!(game.inventory.len(), 1);
    assert_eq!(game.messages.get(0).0, "You picked up a Potion of Healing!");
}

#[test]
fn g_with_nothing_underfoot_says_so() {
    let mut game = open_game();
    let mut objects = vec![hero(10, 10), potion_at(11, 10), orc_at(10, 10)];
    assert_eq!(handle_keys(&text("g"), 0, &mut objects, &mut game), PlayerAction::DidntTakeTurn);
    assert_eq!(objects.len(), 3);
    assert_eq!(objects[0].name, "me");
    assert_eq!(objects[1].pos(), (11, 10));
    assert_eq!(game.inventory.len(), 0);
    assert_eq!(game.messages.len(), 1);
    assert_eq!(game.messages.get(0), &("There is nothing here to pick up.".to_string(), white()));
}

#[test]
fn twenty_seventh_item_stays_on_the_map() {
    let mut game = open_game();
    for i in 0..26 {
        game.inventory.push(potion_at(i, 0));
    }
    let mut objects = vec![hero(10, 10), potion_at(10, 10)];
    assert_eq!(handle_keys(&text("g"), 0, &mut objects, &mut game), PlayerAction::DidntTakeTurn);
    assert_eq!(game.inventory.len(), 26);
    assert_eq!(objects.len(), 2);
    assert_eq!(objects[1].name, "Potion of Healing");
    assert_eq!(objects[1].pos(), (10, 10));
    assert_eq!(game.messages.len(), 1);
    assert!(game.messages.get(0).0.contains("full"));
    assert_eq!(game.messages.get(0).1, red());
}

#[test]
fn dead_player_does_not_move() {
    let mut game = open_game();
    let mut player = hero(10, 10);
    player.is_alive = false;
    let mut objects = vec![player];
    assert_eq!(
        handle_keys(&key(KeyCode::Up), 0, &mut objects, &mut game),
        PlayerAction::DidntTakeTurn
    );
    assert_eq!(objects[0].pos(), (10, 10));
}

#[test]
fn find_item_takes_the_first() {
    let objects = vec![hero(4, 4), orc_at(4, 4), potion_at(4, 4), potion_at(4, 4)];
    assert_eq!(find_item_at(&objects, 4, 4), Some(2));
    assert_eq!(find_item_at(&objects, 4, 5), None);
}

#[test]
fn fov_is_stale_after_a_move() {
    let player = hero(10, 10);
    assert!(fov_needs_update((-1, -1), &player));
    assert!(fov_needs_update((10, 9), &player));
    assert!(fov_needs_update((9, 10), &player));
    assert!(!fov_needs_update((10, 10), &player));
}

#[test]
fn two_blows_fell_an_orc() {
    let mut game = open_game();
    let mut objects = vec![hero(25, 23), orc_at(25, 22)];
    handle_keys(&key(KeyCode::Up), 0, &mut objects, &mut game);
    assert_eq!(objects[1].fighter.unwrap().hp, 5);
    assert_eq!(game.messages.get(0).0, "me attacks Orc for 5 hit points.");
    monsters_take_turns(PlayerAction::TookTurn, &lit(), &mut game, &mut objects);
    assert_eq!(objects[0].fighter.unwrap().hp, 29);
    handle_keys(&key(KeyCode::Up), 0, &mut objects, &mut game);
    assert_eq!(objects[1].name, "remains of Orc");
    assert!(!objects[1].blocks_motion);
    assert!(objects[1].fighter.is_none());
    assert!(objects[1].ai.is_none());
    monsters_take_turns(PlayerAction::TookTurn, &lit(), &mut game, &mut objects);
    assert_eq!(objects[0].fighter.unwrap().hp, 29);
    assert_eq!(game.messages.len(), 4);
}

#[test]
fn turns_are_possible_in_a_plain_state() {
    let game = open_game();
    let objects = vec![hero(10, 10), orc_at(11, 10), potion_at(3, 3), orc_at(20, 20)];
    assert!(is_ready_for_ai_turns(&lit(), &game, &objects));
    assert!(is_ai_turn_possible(1, &lit(), &game, &objects));
    assert!(is_ai_turn_possible(3, &lit(), &game, &objects));
    assert!(is_ai_turn_possible(1, &dark(), &game, &objects));
    assert!(!is_ai_turn_possible(4, &lit(), &game, &objects));
}

#[test]
fn a_turn_beyond_the_snapshot_is_impossible() {
    let game = open_game();
    let objects = vec![hero(10, 10), orc_at(11, 10)];
    let small = FovSnapshot::new(11, 43);
    assert!(!is_ai_turn_possible(1, &small, &game, &objects));
    assert!(!is_ready_for_ai_turns(&small, &game, &objects));
    let objects = vec![hero(10, 10), orc_at(-1, 10)];
    assert!(!is_ai_turn_possible(1, &lit(), &game, &objects));
    assert!(!is_ready_for_ai_turns(&lit(), &game, &objects));
}

#[test]
fn the_player_cannot_attack_itself() {
    let game = open_game();
    let mut player = hero(10, 10);
    player.ai = Some(Ai::Basic);
    let objects = vec![player];
    assert!(!is_ai_turn_possible(0, &lit(), &game, &objects));
    assert!(is_ai_turn_possible(0, &dark(), &game, &objects));
    assert!(!is_ready_for_ai_turns(&lit(), &game, &objects));
}

#[test]
fn an_attack_beyond_the_numbers_is_impossible() {
    let game = open_game();
    let mut brute = orc_at(11, 10);
    brute.fighter = Some(Fighter {
        max_hp: 10,
        hp: 10,
        defense: 0,
        power: i32::MAX,
        on_death: DeathCallback::Monster,
    });
    let mut player = hero(10, 10);
    player.fighter = Some(Fighter {
        max_hp: 30,
        hp: 30,
        defense: -1,
        power: 5,
        on_death: DeathCallback::Player,
    });
    let objects = vec![player, brute];
    assert!(!is_ai_turn_possible(1, &lit(), &game, &objects));
    assert!(!is_ready_for_ai_turns(&lit(), &game, &objects));
}

#[test]
fn the_pass_ends_before_an_impossible_turn() {
    let mut game = open_game();
    let mut objects = vec![hero(10, 10), orc_at(12, 10), orc_at(90, 10), orc_at(10, 12)];
    assert!(!try_take_ai_turns(&lit(), &mut game, &mut objects));
    // The first monster has moved; the one beyond the snapshot and the one after it have not.
    assert_eq!(objects[1].pos(), (11, 10));
    assert_eq!(objects[2].pos(), (90, 10));
    assert_eq!(objects[3].pos(), (10, 12));
}

#[test]
fn the_checked_pass_does_what_the_pass_does() {
    let mut game = open_game();
    let mut objects = vec![hero(10, 10), orc_at(12, 10), orc_at(11, 11), orc_at(30, 30)];
    assert!(try_take_ai_turns(&lit(), &mut game, &mut objects));
    let mut other_game = open_game();
    let mut others = vec![hero(10, 10), orc_at(12, 10), orc_at(11, 11), orc_at(30, 30)];
    take_ai_turns(&lit(), &mut other_game, &mut others);
    for (a, b) in objects.iter().zip(others.iter()) {
        assert_eq!(a.pos(), b.pos());
        assert_eq!(a.fighter, b.fighter);
    }
    assert_eq!(objects[1].pos(), (11, 10));
    assert_eq!(objects[0].fighter.unwrap().hp, 29);
    assert_eq!(objects[3].pos(), (29, 29));
    assert_eq!(game.messages.len(), 1);
    assert_eq!(other_game.messages.len(), 1);
}

#[test]
fn the_checked_turn_rests_with_the_monsters() {
    let mut game = open_game();
    let mut objects = vec![hero(10, 10), orc_at(90, 10)];
    assert!(try_monsters_take_turns(
        PlayerAction::DidntTakeTurn,
        &lit(),
        &mut game,
        &mut objects
    ));
    assert!(!try_monsters_take_turns(PlayerAction::TookTurn, &lit(), &mut game, &mut objects));
    let mut objects = vec![hero(10, 10), orc_at(11, 10)];
    assert!(try_monsters_take_turns(PlayerAction::TookTurn, &lit(), &mut game, &mut objects));
    assert_eq!(objects[0].fighter.unwrap().hp, 29);
}

#[test]
fn keys_are_possible_on_the_map_only() {
    let game = open_game();
    let objects = vec![hero(0, 0), orc_at(1, 0)];
    assert!(!is_key_possible(&key(KeyCode::Up), 0, &objects, &game));
    assert!(!is_key_possible(&key(KeyCode::Left), 0, &objects, &game));
    assert!(is_key_possible(&key(KeyCode::Down), 0, &objects, &game));
    assert!(is_key_possible(&key(KeyCode::Right), 0, &objects, &game));
    assert!(is_key_possible(&key(KeyCode::Escape), 0, &objects, &game));
    assert!(is_key_possible(&text("g"), 0, &objects, &game));
    assert!(!is_key_possible(&key(KeyCode::Escape), 2, &objects, &game));
}
