use rustworld::actor::{attack_between, move_by, DeathCallback, Fighter};
use rustworld::ai::{take_turn, Ai};
use rustworld::game::{Game, PlayerAction, PLAYER};
use rustworld::item::{cast_confuse, cast_lightning, heal_player, UseResult};
use rustworld::keys::{handle_keys, Command};
use rustworld::log::{MessageLog, MessageType, Messages};
use rustworld::map::{FloorMap, FovGrid, Tile, FLOOR_HEIGHT, FLOOR_WIDTH};
use rustworld::object::{Blocks, Color, Object, ObjectClass};

fn plain_class(name: &str, object_type: &str, blocks: Blocks, blocks_view: Blocks) -> ObjectClass {
    ObjectClass {
        ai: None,
        alive: false,
        blocks,
        blocks_view,
        can_pick_up: false,
        chance: 1,
        color: Color { r: 100, g: 100, b: 100 },
        context: String::new(),
        description: String::new(),
        fighter: None,
        function: None,
        inventory: None,
        name: name.to_owned(),
        object_type: object_type.to_owned(),
        symbol: '?',
    }
}

fn empty_floor_grid() -> FloorMap {
    let carpet = plain_class("carpet", "floor", Blocks::No, Blocks::No);
    let mut map: FloorMap = Vec::new();
    let mut x = 0;
    while x < FLOOR_WIDTH {
        let mut row: Vec<Tile> = Vec::new();
        let mut y = 0;
        while y < FLOOR_HEIGHT {
            row.push(Tile::new(&carpet));
            y += 1;
        }
        map.push(row);
        x += 1;
    }
    map
}

fn monster(name: &str, hp: i32, defense: i32, power: i32, x: i32, y: i32) -> Object {
    let mut m = Object::new(
        x,
        y,
        'z',
        name,
        Color { r: 0, g: 200, b: 0 },
        Blocks::Full,
        Blocks::No,
    );
    m.alive = true;
    m.fighter = Some(Fighter {
        max_hp: hp,
        hp,
        defense,
        power,
        on_death: DeathCallback::Monster,
    });
    m.ai = Some(Ai::Basic);
    m
}

fn closed_fov() -> FovGrid {
    vec![vec![false; FLOOR_HEIGHT as usize]; FLOOR_WIDTH as usize]
}

#[test]
fn damage_clamp_nonpositive_is_noop() {
    let mut m = monster("zombie", 10, 2, 3, 5, 5);
    let mut log: Messages = Vec::new();
    m.take_damage(0, &mut log);
    assert_eq!(m.fighter.unwrap().hp, 10);
    assert!(m.alive);
    m.take_damage(-7, &mut log);
    assert_eq!(m.fighter.unwrap().hp, 10);
    assert!(m.alive);
    assert_eq!(log.len(), 0);
}

#[test]
fn damage_clamp_overkill_kills_once() {
    let mut m = monster("zombie", 10, 2, 3, 5, 5);
    let mut log: Messages = Vec::new();
    m.take_damage(25, &mut log);
    assert!(!m.alive);
    assert!(m.fighter.is_none());
    assert!(m.ai.is_none());
    assert_eq!(m.name, "remains of zombie");
    assert_eq!(m.symbol, '%');
    assert_eq!(m.blocks, Blocks::No);
    assert_eq!(log.len(), 1);
    assert_eq!(log[0].0, "zombie is dead!");
    assert_eq!(log[0].1, MessageType::StatusChange);
    // the remains cannot die a second time
    m.take_damage(25, &mut log);
    assert_eq!(log.len(), 1);
}

#[test]
fn heal_clamps_at_max_hp() {
    let mut m = monster("zombie", 10, 2, 3, 5, 5);
    if let Some(f) = &mut m.fighter {
        f.hp = 4;
    }
    m.heal(3);
    assert_eq!(m.fighter.unwrap().hp, 7);
    m.heal(100);
    assert_eq!(m.fighter.unwrap().hp, 10);
}

#[test]
fn heal_is_noop_without_fighter() {
    let mut rock = Object::new(
        1,
        1,
        '*',
        "rock",
        Color { r: 9, g: 9, b: 9 },
        Blocks::No,
        Blocks::No,
    );
    rock.heal(5);
    assert!(rock.fighter.is_none());
    assert!(!rock.alive);
}

#[test]
fn combat_scenario_three_damage_per_hit() {
    let mut attacker = monster("attacker", 20, 0, 5, 1, 1);
    let mut defender = monster("defender", 10, 2, 1, 1, 2);
    let mut log: Messages = Vec::new();

    attacker.attack(&mut defender, &mut log);
    assert_eq!(defender.fighter.unwrap().hp, 7);
    assert!(defender.alive);
    assert_eq!(log.len(), 1);
    assert_eq!(log[0].0, "attacker attacks defender for 3 hit points.");

    attacker.attack(&mut defender, &mut log);
    assert_eq!(defender.fighter.unwrap().hp, 4);
    attacker.attack(&mut defender, &mut log);
    assert_eq!(defender.fighter.unwrap().hp, 1);
    assert!(defender.alive);

    attacker.attack(&mut defender, &mut log);
    assert!(!defender.alive);
    assert!(defender.fighter.is_none());
    assert_eq!(defender.name, "remains of defender");
    // three hit logs, one hit log plus one death log
    assert_eq!(log.len(), 5);
    assert_eq!(log[4].0, "defender is dead!");
}

#[test]
fn attack_fully_absorbed_logs_no_effect() {
    let mut attacker = monster("weakling", 10, 0, 2, 1, 1);
    let mut defender = monster("tank", 10, 5, 1, 1, 2);
    let mut log: Messages = Vec::new();
    attacker.attack(&mut defender, &mut log);
    assert_eq!(defender.fighter.unwrap().hp, 10);
    assert_eq!(log.len(), 1);
    assert_eq!(log[0].0, "weakling attacks tank but whatevs!");
    assert_eq!(log[0].1, MessageType::Info);
}

#[test]
fn movement_blocked_by_wall_is_silent_noop() {
    let mut map = empty_floor_grid();
    let wall_class = plain_class("drywall", "wall", Blocks::Full, Blocks::Full);
    let mut wall = wall_class.create_object();
    wall.set_pos(6, 5);
    map[6][5].items.push(wall);
    let mut actors = vec![monster("walker", 10, 0, 1, 5, 5)];
    move_by(0, 1, 0, &map, &mut actors);
    assert_eq!(actors[0].pos(), (5, 5));
    // the open cell in the other direction works
    move_by(0, -1, 0, &map, &mut actors);
    assert_eq!(actors[0].pos(), (4, 5));
}

#[test]
fn actor_blocking_stops_movement() {
    let map = empty_floor_grid();
    let mut actors = vec![monster("walker", 10, 0, 1, 5, 5), monster("blocker", 10, 0, 1, 6, 5)];
    move_by(0, 1, 0, &map, &mut actors);
    assert_eq!(actors[0].pos(), (5, 5));
}

#[test]
fn stun_round_trip_restores_basic() {
    let map = empty_floor_grid();
    let mut game = Game { map, log: Vec::new() };
    let mut player = monster("player", 30, 2, 5, 2, 2);
    player.ai = None;
    player.fighter = Some(Fighter {
        max_hp: 30,
        hp: 30,
        defense: 2,
        power: 5,
        on_death: DeathCallback::Player,
    });
    let mut stunned = monster("zombie", 10, 0, 3, 9, 9);
    stunned.ai = Some(Ai::Stunned {
        previous_ai: Box::new(Ai::Basic),
        num_turns: 0,
    });
    let mut actors = vec![player, stunned];
    let fov = closed_fov();

    take_turn(1, &mut game, &mut actors, &fov);
    assert_eq!(
        actors[1].ai,
        Some(Ai::Stunned { previous_ai: Box::new(Ai::Basic), num_turns: -1 })
    );
    assert_eq!(game.log.len(), 1);
    assert_eq!(game.log[0].0, "The zombie is stunned!");

    take_turn(1, &mut game, &mut actors, &fov);
    assert_eq!(actors[1].ai, Some(Ai::Basic));
    assert_eq!(game.log.len(), 2);
    assert_eq!(game.log[1].0, "The zombie is no longer stunned!");
    // the monster never moved while stunned
    assert_eq!(actors[1].pos(), (9, 9));
}

#[test]
fn chrysalis_stays_put_when_unseen() {
    let map = empty_floor_grid();
    let mut game = Game { map, log: Vec::new() };
    let player = monster("player", 30, 2, 5, 2, 2);
    let mut sleeper = monster("chrysalis", 10, 0, 3, 9, 9);
    sleeper.ai = Some(Ai::Chrysalis);
    let mut actors = vec![player, sleeper];
    let fov = closed_fov();
    take_turn(1, &mut game, &mut actors, &fov);
    assert_eq!(actors[1].pos(), (9, 9));
    assert_eq!(actors[1].ai, Some(Ai::Chrysalis));
}

#[test]
fn basic_attacks_adjacent_player_in_view() {
    let map = empty_floor_grid();
    let mut game = Game { map, log: Vec::new() };
    let mut player = monster("player", 30, 2, 5, 5, 5);
    player.ai = None;
    let mut zombie = monster("zombie", 10, 0, 6, 6, 5);
    zombie.ai = Some(Ai::Basic);
    let mut actors = vec![player, zombie];
    let fov = vec![vec![true; FLOOR_HEIGHT as usize]; FLOOR_WIDTH as usize];
    take_turn(1, &mut game, &mut actors, &fov);
    // damage is 6 - 2 = 4
    assert_eq!(actors[0].fighter.unwrap().hp, 26);
}

#[test]
fn attack_between_only_touches_defender() {
    let mut actors = vec![monster("a", 10, 0, 4, 1, 1), monster("b", 10, 1, 1, 2, 1)];
    let mut log: Messages = Vec::new();
    attack_between(&mut actors, 0, 1, &mut log);
    assert_eq!(actors[0].fighter.unwrap().hp, 10);
    assert_eq!(actors[1].fighter.unwrap().hp, 7);
}

#[test]
fn heal_player_at_full_health_cancels() {
    let map = empty_floor_grid();
    let mut game = Game { map, log: Vec::new() };
    let mut actors = vec![monster("player", 30, 2, 5, 5, 5)];
    let r = heal_player(&mut game, &mut actors);
    assert_eq!(r, UseResult::Cancelled);
    assert_eq!(game.log.last().unwrap().0, "You are already at full health.");
}

#[test]
fn heal_player_restores_three_points() {
    let map = empty_floor_grid();
    let mut game = Game { map, log: Vec::new() };
    let mut player = monster("player", 30, 2, 5, 5, 5);
    if let Some(f) = &mut player.fighter {
        f.hp = 10;
    }
    let mut actors = vec![player];
    let r = heal_player(&mut game, &mut actors);
    assert_eq!(r, UseResult::UsedUp);
    assert_eq!(actors[0].fighter.unwrap().hp, 13);
    assert_eq!(game.log.last().unwrap().0, "Your wounds start to feel better!");
}

#[test]
fn confuse_wraps_current_behavior() {
    let map = empty_floor_grid();
    let mut game = Game { map, log: Vec::new() };
    let player = monster("player", 30, 2, 5, 5, 5);
    let mut zombie = monster("zombie", 10, 0, 3, 6, 5);
    zombie.ai = Some(Ai::Chrysalis);
    let mut actors = vec![player, zombie];
    let r = cast_confuse(Some(1), &mut game, &mut actors);
    assert_eq!(r, UseResult::UsedUp);
    assert_eq!(
        actors[1].ai,
        Some(Ai::Stunned { previous_ai: Box::new(Ai::Chrysalis), num_turns: 3 })
    );
}

#[test]
fn lightning_without_target_cancels() {
    let map = empty_floor_grid();
    let mut game = Game { map, log: Vec::new() };
    let mut actors = vec![monster("player", 30, 2, 5, 5, 5)];
    let fov = closed_fov();
    let r = cast_lightning(&mut game, &mut actors, &fov);
    assert_eq!(r, UseResult::Cancelled);
    assert_eq!(game.log.last().unwrap().0, "No enemy is within range.");
}

#[test]
fn lightning_strikes_closest_visible_monster() {
    let map = empty_floor_grid();
    let mut game = Game { map, log: Vec::new() };
    let player = monster("player", 30, 2, 5, 5, 5);
    let far = monster("far", 20, 0, 1, 12, 5);
    let near = monster("near", 20, 0, 1, 7, 5);
    let mut actors = vec![player, far, near];
    let fov = vec![vec![true; FLOOR_HEIGHT as usize]; FLOOR_WIDTH as usize];
    let r = cast_lightning(&mut game, &mut actors, &fov);
    assert_eq!(r, UseResult::UsedUp);
    assert_eq!(actors[2].fighter.unwrap().hp, 10);
    assert_eq!(actors[1].fighter.unwrap().hp, 20);
}

#[test]
fn exit_command_always_exits() {
    let map = empty_floor_grid();
    let mut game = Game { map, log: Vec::new() };
    let mut player = monster("player", 30, 2, 5, 5, 5);
    player.alive = false;
    let mut actors = vec![player];
    let fov = closed_fov();
    let action = handle_keys(Command::Exit, &mut game, &mut actors, &fov);
    assert_eq!(action, PlayerAction::Exit);
}

#[test]
fn dead_player_takes_no_turn() {
    let map = empty_floor_grid();
    let mut game = Game { map, log: Vec::new() };
    let mut player = monster("player", 30, 2, 5, 5, 5);
    player.alive = false;
    let mut actors = vec![player];
    let fov = closed_fov();
    let action = handle_keys(
        Command::Walk { dx: 1, dy: 0 },
        &mut game,
        &mut actors,
        &fov,
    );
    assert_eq!(action, PlayerAction::DidntTakeTurn);
    assert_eq!(actors[0].pos(), (5, 5));
}

#[test]
fn walk_command_moves_on_open_floor() {
    let map = empty_floor_grid();
    let mut game = Game { map, log: Vec::new() };
    let mut actors = vec![monster("player", 30, 2, 5, 5, 5)];
    actors[0].ai = None;
    let fov = closed_fov();
    let action = handle_keys(
        Command::Walk { dx: 0, dy: 1 },
        &mut game,
        &mut actors,
        &fov,
    );
    assert_eq!(action, PlayerAction::TookTurn);
    assert_eq!(actors[0].pos(), (5, 6));
}

#[test]
fn message_log_records_severities() {
    let mut log: Messages = Vec::new();
    log.alert("a".to_owned());
    log.info("b".to_owned());
    log.status_change("c".to_owned());
    log.success("d".to_owned());
    assert_eq!(log[0].1, MessageType::Alert);
    assert_eq!(log[1].1, MessageType::Info);
    assert_eq!(log[2].1, MessageType::StatusChange);
    assert_eq!(log[3].1, MessageType::Success);
    assert_eq!(log[1].0, "b");
}

#[test]
fn move_towards_takes_unit_steps() {
    let map = empty_floor_grid();
    let mut actors = vec![monster("walker", 10, 0, 1, 5, 5)];
    rustworld::actor::move_towards(0, 9, 5, &map, &mut actors);
    assert_eq!(actors[0].pos(), (6, 5));
    rustworld::actor::move_towards(0, 9, 9, &map, &mut actors);
    assert_eq!(actors[0].pos(), (7, 6));
}

#[test]
fn attack_text_carries_multi_digit_damage() {
    let mut attacker = monster("ogre", 20, 0, 17, 1, 1);
    let mut defender = monster("victim", 40, 5, 1, 1, 2);
    let mut log: Messages = Vec::new();
    attacker.attack(&mut defender, &mut log);
    assert_eq!(log[0].0, "ogre attacks victim for 12 hit points.");
    assert_eq!(defender.fighter.unwrap().hp, 28);
}

#[test]
fn fireball_burns_everything_in_radius() {
    let map = empty_floor_grid();
    let mut game = Game { map, log: Vec::new() };
    let player = monster("player", 30, 2, 5, 5, 5);
    let near = monster("near", 20, 0, 1, 7, 7);
    let far = monster("far", 20, 0, 1, 20, 20);
    let mut actors = vec![player, near, far];
    let r = rustworld::item::cast_fireball(Some((6, 6)), &mut game, &mut actors);
    assert_eq!(r, UseResult::UsedUp);
    // the player is caught in the blast as well
    assert_eq!(actors[0].fighter.unwrap().hp, 20);
    assert_eq!(actors[1].fighter.unwrap().hp, 10);
    assert_eq!(actors[2].fighter.unwrap().hp, 20);
}

#[test]
fn fireball_without_target_cancels() {
    let map = empty_floor_grid();
    let mut game = Game { map, log: Vec::new() };
    let mut actors = vec![monster("player", 30, 2, 5, 5, 5)];
    let r = rustworld::item::cast_fireball(None, &mut game, &mut actors);
    assert_eq!(r, UseResult::Cancelled);
    assert_eq!(actors[0].fighter.unwrap().hp, 30);
}

#[test]
fn unusable_item_logs_alert() {
    let map = empty_floor_grid();
    let mut game = Game { map, log: Vec::new() };
    let mut actors = vec![monster("player", 30, 2, 5, 5, 5)];
    let junk = Object::new(
        -1,
        -1,
        '*',
        "pet rock",
        Color { r: 7, g: 7, b: 7 },
        Blocks::No,
        Blocks::No,
    );
    let mut inventory = vec![junk];
    let fov = closed_fov();
    rustworld::actor::use_item(
        0,
        rustworld::item::UseTarget::Untargeted,
        &mut game,
        &mut actors,
        &mut inventory,
        &fov,
    );
    assert_eq!(inventory.len(), 1);
    assert_eq!(game.log.last().unwrap().0, "The pet rock cannot be used.");
    assert_eq!(game.log.last().unwrap().1, MessageType::Alert);
}

#[test]
fn used_up_item_leaves_inventory() {
    let map = empty_floor_grid();
    let mut game = Game { map, log: Vec::new() };
    let mut player = monster("player", 30, 2, 5, 5, 5);
    if let Some(f) = &mut player.fighter {
        f.hp = 5;
    }
    let mut actors = vec![player];
    let mut potion = Object::new(
        -1,
        -1,
        '!',
        "first aid kit",
        Color { r: 200, g: 0, b: 0 },
        Blocks::No,
        Blocks::No,
    );
    potion.function = Some(rustworld::item::Function::Heal);
    let mut inventory = vec![potion];
    let fov = closed_fov();
    rustworld::actor::use_item(
        0,
        rustworld::item::UseTarget::Untargeted,
        &mut game,
        &mut actors,
        &mut inventory,
        &fov,
    );
    assert_eq!(inventory.len(), 0);
    assert_eq!(actors[0].fighter.unwrap().hp, 8);
}

#[test]
fn negative_heal_drains_but_never_below_zero() {
    let mut m = monster("zombie", 10, 2, 3, 5, 5);
    m.heal(-4);
    assert_eq!(m.fighter.unwrap().hp, 6);
    m.heal(-100);
    assert_eq!(m.fighter.unwrap().hp, 0);
    // draining does not kill by itself; only take_damage does
    assert!(m.alive);
}

#[test]
fn stun_item_needs_a_visible_target_in_range() {
    let map = empty_floor_grid();
    let mut game = Game { map, log: Vec::new() };
    let player = monster("player", 30, 2, 5, 5, 5);
    let mut zombie = monster("zombie", 10, 0, 3, 6, 5);
    zombie.ai = Some(Ai::Basic);
    let mut actors = vec![player, zombie];
    let mut wand = Object::new(
        -1,
        -1,
        '/',
        "stun wand",
        Color { r: 0, g: 0, b: 200 },
        Blocks::No,
        Blocks::No,
    );
    wand.function = Some(rustworld::item::Function::Confuse);
    let mut inventory = vec![wand];
    // the monster stands outside the field of view: the use cancels
    let fov = closed_fov();
    rustworld::actor::use_item(
        0,
        rustworld::item::UseTarget::AtMonster(1),
        &mut game,
        &mut actors,
        &mut inventory,
        &fov,
    );
    assert_eq!(inventory.len(), 1);
    assert_eq!(actors[1].ai, Some(Ai::Basic));
    assert_eq!(game.log.last().unwrap().0, "Cancelled");
    // visible and adjacent: the same use lands
    let open = vec![vec![true; FLOOR_HEIGHT as usize]; FLOOR_WIDTH as usize];
    rustworld::actor::use_item(
        0,
        rustworld::item::UseTarget::AtMonster(1),
        &mut game,
        &mut actors,
        &mut inventory,
        &open,
    );
    assert_eq!(inventory.len(), 0);
    assert_eq!(
        actors[1].ai,
        Some(Ai::Stunned { previous_ai: Box::new(Ai::Basic), num_turns: 3 })
    );
}
