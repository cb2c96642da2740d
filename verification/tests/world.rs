use rustworld::actor::{DeathCallback, Fighter};
use rustworld::game::{new_game, next_level, Game, PLAYER};
use rustworld::keys::{handle_keys, Command};
use rustworld::load::{select_weighted, ObjectTypes};
use rustworld::map::{
    is_blocked, make_floor, make_suburban_home, Rect, FLOOR_HEIGHT, FLOOR_WIDTH,
};
use rustworld::object::{Blocks, Color, Object, ObjectClass};

fn catalog_class(
    name: &str,
    object_type: &str,
    chance: u32,
    blocks: Blocks,
    blocks_view: Blocks,
    can_pick_up: bool,
) -> ObjectClass {
    ObjectClass {
        ai: None,
        alive: false,
        blocks,
        blocks_view,
        can_pick_up,
        chance,
        color: Color { r: 50, g: 60, b: 70 },
        context: String::new(),
        description: String::new(),
        fighter: None,
        function: None,
        inventory: None,
        name: name.to_owned(),
        object_type: object_type.to_owned(),
        symbol: '#',
    }
}

fn item_catalog() -> ObjectTypes {
    let categories = vec![
        "wall".to_owned(),
        "floor".to_owned(),
        "door".to_owned(),
        "stairs".to_owned(),
        "environmental weapon".to_owned(),
    ];
    let mut types = ObjectTypes::new(categories);
    types.add_class(
        "wall".to_owned(),
        catalog_class("drywall", "wall", 1, Blocks::Full, Blocks::Full, false),
    );
    types.add_class(
        "floor".to_owned(),
        catalog_class("carpet", "floor", 1, Blocks::No, Blocks::No, false),
    );
    types.add_class(
        "door".to_owned(),
        catalog_class("front door", "door", 1, Blocks::Full, Blocks::Full, false),
    );
    types.add_class(
        "stairs".to_owned(),
        catalog_class("stairs", "stairs", 1, Blocks::No, Blocks::No, false),
    );
    types.add_class(
        "stairs".to_owned(),
        catalog_class("stairs up", "stairs", 1, Blocks::No, Blocks::No, false),
    );
    types.add_class(
        "environmental weapon".to_owned(),
        catalog_class("brick", "environmental weapon", 2, Blocks::No, Blocks::No, true),
    );
    types
}

fn actor_catalog() -> ObjectTypes {
    ObjectTypes::new(vec!["zombie".to_owned()])
}

fn test_player() -> Object {
    let mut p = Object::new(
        4,
        4,
        '@',
        "player",
        Color { r: 255, g: 255, b: 255 },
        Blocks::Full,
        Blocks::No,
    );
    p.alive = true;
    p.fighter = Some(Fighter {
        max_hp: 30,
        hp: 30,
        defense: 2,
        power: 5,
        on_death: DeathCallback::Player,
    });
    p.inventory = Some(Vec::new());
    p
}

fn room_cells(r: &Rect) -> Vec<(i32, i32)> {
    let mut cells = Vec::new();
    let mut x = r.x1;
    while x < r.x2 {
        let mut y = r.y1;
        while y < r.y2 {
            cells.push((x, y));
            y += 1;
        }
        x += 1;
    }
    cells
}

#[test]
fn catalog_lookup_finds_class() {
    let types = item_catalog();
    let c = types.get_class("carpet");
    assert_eq!(c.name, "carpet");
    assert_eq!(c.blocks, Blocks::No);
    let d = types.get_class("front door");
    assert_eq!(d.object_type, "door");
}

#[test]
fn create_object_copies_template() {
    let types = item_catalog();
    let brick_class = types.get_class("brick");
    let brick = brick_class.create_object();
    assert_eq!(brick.name, "brick");
    assert_eq!(brick.object_type, "environmental weapon");
    assert!(brick.can_pick_up);
    assert_eq!(brick.pos(), (0, 0));
    assert_eq!(brick.color, Color { r: 50, g: 60, b: 70 });
}

#[test]
fn randomizer_absent_for_empty_category() {
    let types = item_catalog();
    assert!(types.create_randomizer("no such category").is_none());
    let actors = actor_catalog();
    assert!(actors.create_randomizer("zombie").is_none());
}

#[test]
fn select_weighted_is_exact() {
    let classes = vec![
        catalog_class("rare", "zombie", 1, Blocks::No, Blocks::No, false),
        catalog_class("common", "zombie", 3, Blocks::No, Blocks::No, false),
    ];
    assert_eq!(select_weighted(&classes, 0), 0);
    assert_eq!(select_weighted(&classes, 1), 1);
    assert_eq!(select_weighted(&classes, 2), 1);
    assert_eq!(select_weighted(&classes, 3), 1);
}

#[test]
fn select_weighted_skips_zero_weight() {
    let classes = vec![
        catalog_class("never", "zombie", 0, Blocks::No, Blocks::No, false),
        catalog_class("always", "zombie", 2, Blocks::No, Blocks::No, false),
    ];
    assert_eq!(select_weighted(&classes, 0), 1);
    assert_eq!(select_weighted(&classes, 1), 1);
}

#[test]
fn weighted_draw_distribution_roughly_matches_weights() {
    let categories = vec!["zombie".to_owned()];
    let mut types = ObjectTypes::new(categories);
    types.add_class(
        "zombie".to_owned(),
        catalog_class("rare", "zombie", 1, Blocks::No, Blocks::No, false),
    );
    types.add_class(
        "zombie".to_owned(),
        catalog_class("common", "zombie", 3, Blocks::No, Blocks::No, false),
    );
    let randomizer = types.create_randomizer("zombie").unwrap();
    let draws = 8000;
    let mut commons = 0;
    let mut i = 0;
    while i < draws {
        let c = randomizer.get_class();
        if c.name == "common" {
            commons += 1;
        } else {
            assert_eq!(c.name, "rare");
        }
        i += 1;
    }
    // expected share 75%; allow a generous statistical margin
    let share = commons as f64 / draws as f64;
    assert!(share > 0.70 && share < 0.80, "share was {}", share);
}

#[test]
fn floor_rooms_stay_off_the_border() {
    let types = item_catalog();
    let carpet = types.get_class("carpet");
    let drywall = types.get_class("drywall");
    let mut trial = 0;
    while trial < 10 {
        let floor = make_floor(&carpet, &drywall);
        assert!(!floor.rooms.is_empty());
        for room in &floor.rooms {
            for (x, y) in room_cells(room) {
                assert!(x >= 1 && x <= FLOOR_WIDTH - 2, "room cell on border column");
                assert!(y >= 1 && y <= FLOOR_HEIGHT - 2, "room cell on border row");
            }
        }
        trial += 1;
    }
}

#[test]
fn floor_rooms_are_all_connected() {
    let types = item_catalog();
    let carpet = types.get_class("carpet");
    let drywall = types.get_class("drywall");
    let mut trial = 0;
    while trial < 10 {
        let floor = make_floor(&carpet, &drywall);
        // flood fill over carved (empty-stack) cells from the entry room
        let entry = &floor.rooms[0];
        assert_eq!((entry.x1, entry.y1), (1, 1));
        let start = ((entry.x1 + entry.x2) / 2, (entry.y1 + entry.y2) / 2);
        let mut seen = vec![vec![false; FLOOR_HEIGHT as usize]; FLOOR_WIDTH as usize];
        let mut queue = vec![start];
        seen[start.0 as usize][start.1 as usize] = true;
        while let Some((x, y)) = queue.pop() {
            let steps = [(1, 0), (-1, 0), (0, 1), (0, -1)];
            for (dx, dy) in steps {
                let nx = x + dx;
                let ny = y + dy;
                if nx >= 0 && nx < FLOOR_WIDTH && ny >= 0 && ny < FLOOR_HEIGHT {
                    if !seen[nx as usize][ny as usize]
                        && floor.map[nx as usize][ny as usize].items.is_empty()
                    {
                        seen[nx as usize][ny as usize] = true;
                        queue.push((nx, ny));
                    }
                }
            }
        }
        for room in &floor.rooms {
            for (x, y) in room_cells(room) {
                assert!(
                    floor.map[x as usize][y as usize].items.is_empty(),
                    "room cell not carved"
                );
                assert!(seen[x as usize][y as usize], "room cell unreachable");
            }
        }
        trial += 1;
    }
}

#[test]
fn full_blocking_item_dominates_tile() {
    let types = item_catalog();
    let carpet = types.get_class("carpet");
    let drywall = types.get_class("drywall");
    let mut floor = make_floor(&carpet, &drywall);
    let room = floor.rooms[0];
    let (cx, cy) = ((room.x1 + room.x2) / 2, (room.y1 + room.y2) / 2);
    let actors: Vec<Object> = Vec::new();
    assert_eq!(is_blocked(cx, cy, &floor.map, &actors), Blocks::No);
    let mut wall = drywall.create_object();
    wall.set_pos(cx, cy);
    floor.map[cx as usize][cy as usize].items.push(wall);
    assert_eq!(is_blocked(cx, cy, &floor.map, &actors), Blocks::Full);
    // an actor standing there cannot weaken the terrain's level
    let mut walker = Object::new(
        cx,
        cy,
        'z',
        "walker",
        Color { r: 1, g: 2, b: 3 },
        Blocks::No,
        Blocks::No,
    );
    walker.alive = true;
    let with_actor = vec![walker];
    assert_eq!(is_blocked(cx, cy, &floor.map, &with_actor), Blocks::Full);
}

#[test]
fn building_floors_carry_stairs() {
    let types = item_catalog();
    let actor_types = actor_catalog();
    let mut actors = vec![test_player()];
    let plan = make_suburban_home(&types, &actor_types, &mut actors);
    assert!(!plan.is_empty());
    for floor in &plan {
        let mut stairs_found = false;
        for column in &floor.map {
            for tile in column {
                for item in &tile.items {
                    if item.name == "stairs" || item.name == "stairs up" {
                        stairs_found = true;
                    }
                }
            }
        }
        assert!(stairs_found, "a floor without stairs");
    }
}

#[test]
fn regeneration_preserves_player_identity() {
    let types = item_catalog();
    let actor_types = actor_catalog();
    let mut monster_a = test_player();
    monster_a.name = "monsterA".to_owned();
    let mut monster_b = test_player();
    monster_b.name = "monsterB".to_owned();
    let mut actors = vec![test_player(), monster_a, monster_b];
    let mut game = Game {
        map: Vec::new(),
        log: Vec::new(),
    };
    // regenerate; only the map may hold an arbitrary prior value here,
    // and next_level replaces it wholesale
    next_level(&mut game, &mut actors, &types, &actor_types);
    assert_eq!(actors.len(), 1);
    assert_eq!(actors[0].name, "player");
    assert!(actors[0].alive);
    let f = actors[0].fighter.unwrap();
    assert_eq!((f.max_hp, f.hp, f.defense, f.power), (30, 30, 2, 5));
    assert_eq!(f.on_death, DeathCallback::Player);
}

#[test]
fn new_game_builds_expected_player() {
    let types = item_catalog();
    let actor_types = actor_catalog();
    let (actors, game) = new_game(&types, &actor_types);
    assert_eq!(actors.len(), 1);
    let p = &actors[PLAYER];
    assert_eq!(p.name, "player");
    assert_eq!(p.symbol, '@');
    assert!(p.alive);
    assert_eq!(p.blocks, Blocks::Full);
    assert_eq!(p.fighter.unwrap().hp, 30);
    assert_eq!(p.inventory.as_ref().unwrap().len(), 0);
    assert_eq!(game.log.len(), 1);
    assert_eq!(game.log[0].0, "Meow!");
    // the player starts inside the entry room's doorway column
    assert_eq!(p.x, 1);
}

#[test]
fn pick_up_and_drop_round_trip() {
    let types = item_catalog();
    let actor_types = actor_catalog();
    let (mut actors, mut game) = new_game(&types, &actor_types);
    let (px, py) = actors[PLAYER].pos();
    let mut brick = types.get_class("brick").create_object();
    brick.set_pos(px, py);
    game.map[px as usize][py as usize].items.push(brick);
    let fov = vec![vec![false; FLOOR_HEIGHT as usize]; FLOOR_WIDTH as usize];

    handle_keys(Command::PickUp, &mut game, &mut actors, &fov);
    let held = actors[PLAYER].inventory.as_ref().unwrap();
    assert_eq!(held.len(), 1);
    assert_eq!(held[0].name, "brick");
    assert_eq!(held[0].pos(), (-1, -1));
    assert!(game
        .log
        .iter()
        .any(|entry| entry.0 == "You picked up brick"));

    handle_keys(
        Command::DropHeld { inventory_id: 0 },
        &mut game,
        &mut actors,
        &fov,
    );
    assert_eq!(actors[PLAYER].inventory.as_ref().unwrap().len(), 0);
    let tile = &game.map[px as usize][py as usize];
    assert!(tile.items.iter().any(|o| o.name == "brick" && o.pos() == (px, py)));
    assert!(game.log.iter().any(|entry| entry.0 == "You dropped a brick."));
}

#[test]
fn target_monster_picks_first_fighter_at_cell() {
    let mut bystander = test_player();
    bystander.name = "bystander".to_owned();
    bystander.x = 8;
    bystander.y = 8;
    let mut decoy = test_player();
    decoy.name = "decoy".to_owned();
    decoy.x = 8;
    decoy.y = 8;
    decoy.fighter = None;
    let actors = vec![test_player(), decoy, bystander];
    assert_eq!(rustworld::item::target_monster(&actors, 8, 8), Some(2));
    assert_eq!(rustworld::item::target_monster(&actors, 9, 9), None);
    // the player is never a target, even on the same cell
    let (px, py) = actors[0].pos();
    assert_eq!(rustworld::item::target_monster(&actors, px, py), None);
}
