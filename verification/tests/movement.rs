use roguelike::colors::{green, red, white, Color};
use roguelike::components::{Ai, DeathCallback, Fighter, Item};
use roguelike::game::Game;
use roguelike::grid::make_empty_map;
use roguelike::messages::Messages;
use roguelike::movement::{
    attack_is_computable, find_fighter_at, is_blocked, is_move_or_attack_possible, is_on_map,
    move_by, move_towards, mut_two, pick_item_up, player_move_or_attack, step_component,
};
use roguelike::object::Object;
use roguelike::tile::Tile;

fn open_game() -> Game {
    Game { map: make_empty_map(), messages: Messages::new(), inventory: vec![] }
}

fn hero(x: i32, y: i32) -> Object {
    let mut o = Object::new(x, y, '@', white(), "me".to_string(), true, true);
    o.fighter = Some(Fighter {
        max_hp: 30,
        hp: 30,
        defense: 2,
        power: 5,
        on_death: DeathCallback::Player,
    });
    o
}

fn orc_at(x: i32, y: i32) -> Object {
    let mut o = Object::new(x, y, 'o', white(), "Orc".to_string(), true, true);
    o.fighter = Some(Fighter {
        max_hp: 10,
        hp: 10,
        defense: 0,
        power: 3,
        on_death: DeathCallback::Monster,
    });
    o.ai = Some(Ai::Basic);
    o
}

fn potion_at(x: i32, y: i32) -> Object {
    let mut o = Object::new(x, y, '!', white(), "Potion of Healing".to_string(), false, true);
    o.item = Some(Item::Heal);
    o
}

fn lines(game: &Game) -> Vec<(String, Color)> {
    game.messages.iter().cloned().collect()
}

#[test]
fn walls_block() {
    let mut game = open_game();
    game.map[3][4] = Tile::wall();
    let objects = vec![hero(1, 1)];
    assert!(is_blocked(3, 4, &game.map, &objects));
    assert!(!is_blocked(4, 3, &game.map, &objects));
}

#[test]
fn blocking_objects_block() {
    let game = open_game();
    let objects = vec![hero(1, 1), potion_at(2, 2), orc_at(3, 3)];
    assert!(is_blocked(1, 1, &game.map, &objects));
    assert!(!is_blocked(2, 2, &game.map, &objects));
    assert!(is_blocked(3, 3, &game.map, &objects));
    assert!(!is_blocked(3, 1, &game.map, &objects));
    assert!(!is_blocked(1, 3, &game.map, &objects));
}

#[test]
fn nothing_blocks_an_empty_map_without_objects() {
    let game = open_game();
    let objects: Vec<Object> = vec![];
    assert!(!is_blocked(0, 0, &game.map, &objects));
    assert!(!is_blocked(79, 42, &game.map, &objects));
}

#[test]
fn mut_two_hands_out_both_elements() {
    let mut items = vec![10, 20, 30, 40];
    {
        let (a, b) = mut_two(0, 2, &mut items);
        assert_eq!((*a, *b), (10, 30));
        *a = 11;
        *b = 31;
    }
    assert_eq!(items, vec![11, 20, 31, 40]);
    {
        let (a, b) = mut_two(3, 1, &mut items);
        assert_eq!((*a, *b), (40, 20));
        *a = 41;
        *b = 21;
    }
    assert_eq!(items, vec![11, 21, 31, 41]);
}

#[test]
fn move_by_steps_onto_a_free_cell() {
    let game = open_game();
    let mut objects = vec![hero(5, 5), orc_at(9, 9)];
    move_by(0, 1, -1, &game, &mut objects);
    assert_eq!(objects[0].pos(), (6, 4));
    assert_eq!(objects[1].pos(), (9, 9));
    move_by(1, -2, 0, &game, &mut objects);
    assert_eq!(objects[1].pos(), (7, 9));
}

#[test]
fn move_by_into_a_wall_stays_put() {
    let mut game = open_game();
    game.map[6][5] = Tile::wall();
    let mut objects = vec![hero(5, 5)];
    move_by(0, 1, 0, &game, &mut objects);
    assert_eq!(objects[0].pos(), (5, 5));
    assert_eq!(game.messages.len(), 0);
}

#[test]
fn move_by_into_a_blocker_stays_put() {
    let game = open_game();
    let mut objects = vec![hero(5, 5), orc_at(5, 6)];
    move_by(0, 0, 1, &game, &mut objects);
    assert_eq!(objects[0].pos(), (5, 5));
    assert_eq!(objects[1].pos(), (5, 6));
    assert_eq!(game.messages.len(), 0);
    assert_eq!(objects[1].fighter.unwrap().hp, 10);
}

#[test]
fn move_by_onto_an_item_is_free() {
    let game = open_game();
    let mut objects = vec![hero(5, 5), potion_at(5, 6)];
    move_by(0, 0, 1, &game, &mut objects);
    assert_eq!(objects[0].pos(), (5, 6));
}

#[test]
fn move_by_nowhere_is_blocked_by_oneself() {
    let game = open_game();
    let mut objects = vec![hero(5, 5)];
    move_by(0, 0, 0, &game, &mut objects);
    assert_eq!(objects[0].pos(), (5, 5));
}

#[test]
fn move_towards_takes_one_step() {
    let game = open_game();
    let mut objects = vec![hero(10, 10), orc_at(15, 10)];
    move_towards(1, 10, 10, &game, &mut objects);
    assert_eq!(objects[1].pos(), (14, 10));
    move_towards(1, 10, 10, &game, &mut objects);
    assert_eq!(objects[1].pos(), (13, 10));
}

#[test]
fn move_towards_goes_diagonally_when_both_offsets_count() {
    let game = open_game();
    let mut objects = vec![hero(10, 10), orc_at(14, 13)];
    move_towards(1, 10, 10, &game, &mut objects);
    assert_eq!(objects[1].pos(), (13, 12));
}

#[test]
fn move_towards_drops_the_minor_offset() {
    let game = open_game();
    // Offsets (-5, 1): 1 / sqrt(26) rounds to 0.
    let mut objects = vec![hero(10, 10), orc_at(15, 9)];
    move_towards(1, 10, 10, &game, &mut objects);
    assert_eq!(objects[1].pos(), (14, 9));
    // Offsets (4, 7): 4 / sqrt(65) = 0.496 rounds to 0.
    let mut objects = vec![hero(10, 10), orc_at(6, 3)];
    move_towards(1, 10, 10, &game, &mut objects);
    assert_eq!(objects[1].pos(), (6, 4));
    // Offsets (3, 5): 3 / sqrt(34) = 0.514 rounds to 1.
    let mut objects = vec![hero(10, 10), orc_at(7, 5)];
    move_towards(1, 10, 10, &game, &mut objects);
    assert_eq!(objects[1].pos(), (8, 6));
}

#[test]
fn move_towards_agrees_with_rounding() {
    let game = open_game();
    for tx in 0..30 {
        for ty in 0..30 {
            let (mx, my) = (15, 14);
            if (tx, ty) == (mx, my) {
                continue;
            }
            let mut monster = Object::new(mx, my, 'g', white(), "ghost".to_string(), false, true);
            monster.ai = Some(Ai::Basic);
            let mut objects = vec![monster];
            move_towards(0, tx, ty, &game, &mut objects);
            let dx = (tx - mx) as f32;
            let dy = (ty - my) as f32;
            let distance = (dx * dx + dy * dy).sqrt();
            let sx = (dx / distance).round() as i32;
            let sy = (dy / distance).round() as i32;
            assert_eq!(objects[0].pos(), (mx + sx, my + sy), "target ({}, {})", tx, ty);
        }
    }
}

#[test]
fn move_towards_own_cell_stays() {
    let game = open_game();
    let mut objects = vec![hero(10, 10), potion_at(3, 3)];
    move_towards(1, 3, 3, &game, &mut objects);
    assert_eq!(objects[1].pos(), (3, 3));
    move_towards(0, 10, 10, &game, &mut objects);
    assert_eq!(objects[0].pos(), (10, 10));
}

#[test]
fn move_towards_waits_at_a_wall() {
    let mut game = open_game();
    game.map[14][10] = Tile::wall();
    let mut objects = vec![hero(10, 10), orc_at(15, 10)];
    move_towards(1, 10, 10, &game, &mut objects);
    assert_eq!(objects[1].pos(), (15, 10));
}

#[test]
fn find_fighter_takes_the_first() {
    let objects = vec![hero(1, 1), potion_at(4, 4), orc_at(4, 4), orc_at(4, 4)];
    assert_eq!(find_fighter_at(&objects, 4, 4), Some(2));
    assert_eq!(find_fighter_at(&objects, 1, 1), Some(0));
    assert_eq!(find_fighter_at(&objects, 4, 1), None);
    assert_eq!(find_fighter_at(&vec![], 0, 0), None);
}

#[test]
fn player_moves_where_nobody_fights() {
    let mut game = open_game();
    let mut objects = vec![hero(5, 5), potion_at(6, 5)];
    player_move_or_attack(0, 1, 0, &mut game, &mut objects);
    assert_eq!(objects[0].pos(), (6, 5));
    assert_eq!(game.messages.len(), 0);
}

#[test]
fn player_attacks_the_orc_next_to_it() {
    let mut game = open_game();
    let mut objects = vec![hero(25, 23), orc_at(26, 23)];
    player_move_or_attack(0, 1, 0, &mut game, &mut objects);
    assert_eq!(objects[0].pos(), (25, 23));
    assert_eq!(objects[1].fighter.unwrap().hp, 5);
    assert_eq!(lines(&game), vec![("me attacks Orc for 5 hit points.".to_string(), white())]);

    player_move_or_attack(0, 1, 0, &mut game, &mut objects);
    assert_eq!(objects[0].pos(), (25, 23));
    assert!(!objects[1].is_alive);
    assert_eq!(objects[1].name, "remains of Orc");
    assert!(!objects[1].blocks_motion);
    assert!(objects[1].fighter.is_none());
    assert!(objects[1].ai.is_none());
    assert_eq!(objects[1].char, '%');
    assert_eq!(game.messages.len(), 3);
    assert_eq!(game.messages.get(1).0, "me attacks Orc for 5 hit points.");
    assert_eq!(game.messages.get(2).0, "Orc is dead!");

    player_move_or_attack(0, 1, 0, &mut game, &mut objects);
    assert_eq!(objects[0].pos(), (26, 23));
    assert_eq!(game.messages.len(), 3);
}

#[test]
fn player_bumps_into_what_cannot_fight() {
    let mut game = open_game();
    let boulder = Object::new(6, 5, '0', white(), "boulder".to_string(), true, true);
    let mut objects = vec![hero(5, 5), boulder];
    player_move_or_attack(0, 1, 0, &mut game, &mut objects);
    assert_eq!(objects[0].pos(), (5, 5));
    assert_eq!(game.messages.len(), 0);
}

#[test]
fn pick_up_moves_the_item_into_the_inventory() {
    let mut game = open_game();
    let mut objects = vec![hero(5, 5), potion_at(5, 5), orc_at(9, 9), orc_at(8, 8)];
    pick_item_up(1, &mut game, &mut objects);
    assert_eq!(objects.len(), 3);
    assert_eq!(objects[0].name, "me");
    assert_eq!(objects[1].pos(), (8, 8));
    assert_eq!(objects[2].pos(), (9, 9));
    assert_eq!(game.inventory.len(), 1);
    assert_eq!(game.inventory[0].name, "Potion of Healing");
    assert_eq!(game.inventory[0].item, Some(Item::Heal));
    assert_eq!(lines(&game), vec![("You picked up a Potion of Healing!".to_string(), green())]);
}

#[test]
fn pick_up_of_the_last_object() {
    let mut game = open_game();
    let mut objects = vec![hero(5, 5), potion_at(5, 5)];
    pick_item_up(1, &mut game, &mut objects);
    assert_eq!(objects.len(), 1);
    assert_eq!(objects[0].name, "me");
    assert_eq!(game.inventory.len(), 1);
}

#[test]
fn full_inventory_takes_no_more() {
    let mut game = open_game();
    for i in 0..26 {
        game.inventory.push(potion_at(i, 0));
    }
    let mut objects = vec![hero(5, 5), potion_at(5, 5)];
    pick_item_up(1, &mut game, &mut objects);
    assert_eq!(game.inventory.len(), 26);
    assert_eq!(objects.len(), 2);
    assert_eq!(objects[1].pos(), (5, 5));
    assert_eq!(objects[1].item, Some(Item::Heal));
    assert_eq!(
        lines(&game),
        vec![("The inventory is full, cannot pick up Potion of Healing.".to_string(), red())]
    );
}

#[test]
fn inventory_fills_up_to_its_capacity() {
    let mut game = open_game();
    for i in 0..25 {
        game.inventory.push(potion_at(i, 0));
    }
    let mut objects = vec![hero(5, 5), potion_at(5, 5), potion_at(5, 5)];
    pick_item_up(1, &mut game, &mut objects);
    assert_eq!(game.inventory.len(), 26);
    assert_eq!(objects.len(), 2);
    pick_item_up(1, &mut game, &mut objects);
    assert_eq!(game.inventory.len(), 26);
    assert_eq!(objects.len(), 2);
    assert_eq!(game.messages.get(1).1, red());
}

#[test]
fn the_one_that_acts_is_the_one_that_attacks() {
    let mut game = open_game();
    let mut objects = vec![hero(0, 0), orc_at(5, 5), orc_at(6, 5)];
    player_move_or_attack(1, 1, 0, &mut game, &mut objects);
    // The orc's power of 3 counts, not the player's 5.
    assert_eq!(objects[2].fighter.unwrap().hp, 7);
    assert_eq!(objects[1].pos(), (5, 5));
    assert_eq!(objects[1].fighter.unwrap().hp, 10);
    assert_eq!(objects[0].fighter.unwrap().hp, 30);
    assert_eq!(lines(&game), vec![("Orc attacks Orc for 3 hit points.".to_string(), white())]);
}

#[test]
fn a_monster_that_acts_attacks_the_player() {
    let mut game = open_game();
    let mut objects = vec![hero(5, 5), orc_at(5, 6)];
    player_move_or_attack(1, 0, -1, &mut game, &mut objects);
    assert_eq!(objects[0].fighter.unwrap().hp, 29);
    assert_eq!(objects[1].fighter.unwrap().hp, 10);
    assert_eq!(objects[1].pos(), (5, 6));
    assert_eq!(lines(&game), vec![("Orc attacks me for 1 hit points.".to_string(), white())]);
}

#[test]
fn a_monster_that_acts_moves_where_nobody_fights() {
    let mut game = open_game();
    let mut objects = vec![hero(5, 5), orc_at(9, 9)];
    player_move_or_attack(1, -1, -1, &mut game, &mut objects);
    assert_eq!(objects[1].pos(), (8, 8));
    assert_eq!(objects[0].pos(), (5, 5));
    assert_eq!(game.messages.len(), 0);
}

#[test]
fn move_towards_comes_exactly_one_step_nearer() {
    let game = open_game();
    for tx in 0..30 {
        for ty in 0..30 {
            let (mx, my): (i32, i32) = (15, 14);
            if (tx, ty) == (mx, my) {
                continue;
            }
            let mut objects =
                vec![Object::new(mx, my, 'g', white(), "ghost".to_string(), false, true)];
            move_towards(0, tx, ty, &game, &mut objects);
            let (x, y) = objects[0].pos();
            let before = (tx - mx).abs().max((ty - my).abs());
            let after = (tx - x).abs().max((ty - y).abs());
            assert_eq!(after, before - 1, "target ({}, {})", tx, ty);
            assert!((x - mx).abs() <= 1 && (y - my).abs() <= 1);
        }
    }
}

#[test]
fn cells_on_and_off_the_map() {
    let map = make_empty_map();
    assert!(is_on_map(0, 0, &map));
    assert!(is_on_map(79, 42, &map));
    assert!(!is_on_map(80, 0, &map));
    assert!(!is_on_map(0, 43, &map));
    assert!(!is_on_map(-1, 0, &map));
    assert!(!is_on_map(0, -1, &map));
    assert!(!is_on_map(i64::MAX, 0, &map));
    assert!(!is_on_map(0, 0, &vec![]));
}

#[test]
fn step_components() {
    assert_eq!(step_component(5, 0), 1);
    assert_eq!(step_component(-5, 0), -1);
    assert_eq!(step_component(0, 5), 0);
    assert_eq!(step_component(0, 0), 0);
    assert_eq!(step_component(4, 7), 0);
    assert_eq!(step_component(-3, 5), -1);
    assert_eq!(step_component(4294967295, 4294967295), 1);
    assert_eq!(step_component(-4294967295, 1), -1);
}

#[test]
fn acting_is_possible_where_it_does_not_fail() {
    let game = open_game();
    let objects = vec![hero(0, 5), orc_at(1, 5)];
    assert!(is_move_or_attack_possible(0, 1, 0, &game, &objects));
    assert!(is_move_or_attack_possible(0, 0, 1, &game, &objects));
    assert!(!is_move_or_attack_possible(0, -1, 0, &game, &objects));
    assert!(!is_move_or_attack_possible(2, 1, 0, &game, &objects));
    assert!(!is_move_or_attack_possible(0, i32::MIN, 0, &game, &objects));
    // Nobody can attack oneself.
    assert!(!is_move_or_attack_possible(0, 0, 0, &game, &objects));
    assert!(is_move_or_attack_possible(1, -1, 0, &game, &objects));
}

#[test]
fn attacks_within_and_beyond_the_numbers() {
    let mut a = hero(0, 0);
    let mut b = orc_at(1, 0);
    assert!(attack_is_computable(&a, &b));
    a.fighter = Some(Fighter {
        max_hp: 1,
        hp: 1,
        defense: 0,
        power: i32::MAX,
        on_death: DeathCallback::Player,
    });
    assert!(attack_is_computable(&a, &b));
    b.fighter = Some(Fighter {
        max_hp: 1,
        hp: 1,
        defense: -1,
        power: 0,
        on_death: DeathCallback::Monster,
    });
    assert!(!attack_is_computable(&a, &b));
    b.fighter = Some(Fighter {
        max_hp: 1,
        hp: i32::MIN,
        defense: 0,
        power: 0,
        on_death: DeathCallback::Monster,
    });
    assert!(!attack_is_computable(&a, &b));
    let bystander = Object::new(0, 0, 'x', white(), "x".to_string(), false, true);
    assert!(attack_is_computable(&bystander, &b));
    assert!(attack_is_computable(&a, &bystander));
}
