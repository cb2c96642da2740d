//! Combat stats, the two death transformations, and actor movement.

use vstd::prelude::*;
use vstd::string::StringExecFns;

use crate::game::{Game, PLAYER};
use crate::log::{added_msgs, log_extends, one_msg, MessageLog, MessageType, Messages};
use crate::map::{cell_block, in_grid, map_wf, tile_push_item, FloorMap, Tile};
use crate::object::{attack_rel, dark_red, lemma_small_square, Blocks, Color, Object};

verus! {

/// Which terminal transformation runs when a fighter's hit points reach
/// zero.
#[derive(Clone, Copy, Debug, PartialEq, Eq, Structural)]
pub enum DeathCallback {
    Player,
    Monster,
}

/// Combat stats of an actor.
#[derive(Clone, Copy, Debug, PartialEq, Eq, Structural)]
pub struct Fighter {
    pub max_hp: i32,
    pub hp: i32,
    pub defense: i32,
    pub power: i32,
    pub on_death: DeathCallback,
}

/// The monster death transformation, relative to the state at death:
/// like `monster_remains_rel`, except that the alive flag is whatever it
/// already was (the caller clears it before the callback runs).
pub open spec fn monster_death_rel(o0: Object, o1: Object) -> bool {
    &&& o1.ai is None
    &&& o1.alive == o0.alive
    &&& o1.blocks == crate::object::Blocks::No
    &&& o1.blocks_view == crate::object::Blocks::No
    &&& o1.can_pick_up == o0.can_pick_up
    &&& o1.color == dark_red()
    &&& o1.fighter is None
    &&& o1.function == o0.function
    &&& o1.inventory == o0.inventory
    &&& o1.name@ == "remains of "@ + o0.name@
    &&& o1.object_type == o0.object_type
    &&& o1.symbol == '%'
    &&& o1.x == o0.x
    &&& o1.y == o0.y
}

impl DeathCallback {
    /// Runs the terminal transformation this variant selects.
    pub fn callback(self, object: &mut Object, messages: &mut Messages)
        ensures
            log_extends(old(messages)@, final(messages)@),
            match self {
                DeathCallback::Player => *final(object) == (Object {
                    symbol: '%',
                    color: dark_red(),
                    ..*old(object)
                }) && one_msg(
                    added_msgs(old(messages)@, final(messages)@),
                    "You died!"@,
                    MessageType::Alert,
                ),
                DeathCallback::Monster => monster_death_rel(*old(object), *final(object))
                    && one_msg(
                    added_msgs(old(messages)@, final(messages)@),
                    old(object).name@ + " is dead!"@,
                    MessageType::StatusChange,
                ),
            },
    {
        match self {
            DeathCallback::Player => player_death(object, messages),
            DeathCallback::Monster => monster_death(object, messages),
        }
    }
}

/// The player's death: the glyph and color change to a corpse; the
/// player object otherwise stays as it is.
fn player_death(player: &mut Object, log: &mut Messages)
    ensures
        *final(player) == (Object { symbol: '%', color: dark_red(), ..*old(player) }),
        log_extends(old(log)@, final(log)@),
        one_msg(added_msgs(old(log)@, final(log)@), "You died!"@, MessageType::Alert),
{
    log.alert("You died!".to_owned());
    player.symbol = '%';
    player.color = Color { r: 191, g: 0, b: 0 };
    proof {
        crate::log::lemma_log_push(old(log)@, log@);
    }
}

/// A monster's death: it becomes walkable, see-through remains with its
/// components cleared and its name prefixed accordingly.
fn monster_death(monster: &mut Object, log: &mut Messages)
    ensures
        monster_death_rel(*old(monster), *final(monster)),
        log_extends(old(log)@, final(log)@),
        one_msg(
            added_msgs(old(log)@, final(log)@),
            old(monster).name@ + " is dead!"@,
            MessageType::StatusChange,
        ),
{
    log.status_change(monster.name.clone().concat(" is dead!"));
    monster.symbol = '%';
    monster.color = Color { r: 191, g: 0, b: 0 };
    monster.blocks = crate::object::Blocks::No;
    monster.blocks_view = crate::object::Blocks::No;
    monster.fighter = Option::None;
    monster.ai = Option::None;
    monster.name = "remains of ".to_owned().concat(monster.name.as_str());
    proof {
        crate::log::lemma_log_push(old(log)@, log@);
    }
}

/// How `move_by` changes the actor list: the actor steps to the target
/// cell exactly when that cell is on the grid and nothing there blocks
/// movement at all; otherwise nothing happens.
pub open spec fn move_by_rel(
    map: FloorMap,
    a0: Seq<Object>,
    a1: Seq<Object>,
    id: int,
    dx: int,
    dy: int,
) -> bool {
    let nx = a0[id].x + dx;
    let ny = a0[id].y + dy;
    if in_grid(nx, ny) && cell_block(map, a0, nx, ny, false) == 0 {
        a1 == a0.update(id, Object { x: nx as i32, y: ny as i32, ..a0[id] })
    } else {
        a1 == a0
    }
}

/// Moves actor `id` by one step if the target cell is free; stepping
/// into anything blocking is a silent no-op, not an error.
pub fn move_by(id: usize, dx: i32, dy: i32, map: &FloorMap, actors: &mut Vec<Object>)
    requires
        map_wf(*map),
        id < old(actors)@.len(),
    ensures
        move_by_rel(*map, old(actors)@, final(actors)@, id as int, dx as int, dy as int),
{
    let x = actors[id].x;
    let y = actors[id].y;
    let nx64: i64 = x as i64 + dx as i64;
    let ny64: i64 = y as i64 + dy as i64;
    if nx64 >= 0 && nx64 < crate::map::FLOOR_WIDTH as i64 && ny64 >= 0 && ny64
        < crate::map::FLOOR_HEIGHT as i64 {
        let nx: i32 = nx64 as i32;
        let ny: i32 = ny64 as i32;
        if crate::map::is_blocked(nx, ny, map, actors) == Blocks::No {
            let mut o = actors.remove(id);
            o.set_pos(nx, ny);
            actors.insert(id, o);
            proof {
                assert(actors@ =~= old(actors)@.update(
                    id as int,
                    Object { x: nx, y: ny, ..old(actors)@[id as int] },
                ));
            }
        }
    }
}

/// The unit step toward a target along one axis: the sign of the
/// difference `d`, rounded away from zero exactly when `d` is at least
/// half the straight-line distance (`e` is the difference along the
/// other axis).
pub open spec fn step1(d: int, e: int) -> int {
    if d == 0 {
        0
    } else if 3 * (d * d) >= e * e {
        if d > 0 {
            1
        } else {
            -1
        }
    } else {
        0
    }
}

/// The rounded unit step, computed without leaving the integers.
fn unit_step(d: i64, e: i64) -> (r: i32)
    requires
        -4294967296 <= d <= 4294967296,
        -4294967296 <= e <= 4294967296,
    ensures
        r as int == step1(d as int, e as int),
{
    if d == 0 {
        0
    } else {
        proof {
            lemma_small_square(d as int);
            lemma_small_square(e as int);
        }
        let d2: i128 = (d as i128) * (d as i128);
        let e2: i128 = (e as i128) * (e as i128);
        if 3 * d2 >= e2 {
            if d > 0 {
                1
            } else {
                -1
            }
        } else {
            0
        }
    }
}

/// Takes one rounded unit step toward the target cell, moving only if
/// the stepped-to cell is free. With obstacles nearby this can
/// oscillate; that is accepted for simple monster pursuit.
pub fn move_towards(
    id: usize,
    target_x: i32,
    target_y: i32,
    map: &FloorMap,
    actors: &mut Vec<Object>,
)
    requires
        map_wf(*map),
        id < old(actors)@.len(),
    ensures
        move_by_rel(
            *map,
            old(actors)@,
            final(actors)@,
            id as int,
            step1(
                target_x - old(actors)@[id as int].x,
                target_y - old(actors)@[id as int].y,
            ),
            step1(
                target_y - old(actors)@[id as int].y,
                target_x - old(actors)@[id as int].x,
            ),
        ),
{
    let dx: i64 = target_x as i64 - actors[id].x as i64;
    let dy: i64 = target_y as i64 - actors[id].y as i64;
    let sx: i32 = unit_step(dx, dy);
    let sy: i32 = unit_step(dy, dx);
    move_by(id, sx, sy, map, actors);
}

/// Resolves an attack between two actors of one list, by index. Only
/// the defender's entry and the log change.
pub fn attack_between(
    actors: &mut Vec<Object>,
    attacker_id: usize,
    defender_id: usize,
    log: &mut Messages,
)
    requires
        attacker_id != defender_id,
        attacker_id < old(actors)@.len(),
        defender_id < old(actors)@.len(),
    ensures
        final(actors)@.len() == old(actors)@.len(),
        forall|k: int|
            0 <= k < old(actors)@.len() && k != defender_id as int ==> final(actors)@[k]
                == old(actors)@[k],
        log_extends(old(log)@, final(log)@),
        attack_rel(
            old(actors)@[attacker_id as int],
            old(actors)@[defender_id as int],
            final(actors)@[defender_id as int],
            added_msgs(old(log)@, final(log)@),
        ),
{
    let mut proxy = Object::new(
        0,
        0,
        '?',
        actors[attacker_id].name.as_str(),
        Color { r: 0, g: 0, b: 0 },
        Blocks::No,
        Blocks::No,
    );
    proxy.fighter = actors[attacker_id].fighter;
    let mut defender = actors.remove(defender_id);
    proxy.attack(&mut defender, log);
    actors.insert(defender_id, defender);
    proof {
        assert(actors@ =~= old(actors)@.update(
            defender_id as int,
            actors@[defender_id as int],
        ));
    }
}

/// An actor with a fighter stands at `(x, y)`.
pub open spec fn is_target_at(s: Seq<Object>, x: int, y: int, t: int) -> bool {
    0 <= t < s.len() && s[t].fighter is Some && s[t].x == x && s[t].y == y
}

/// `t` is the first actor with a fighter standing at `(x, y)`.
pub open spec fn is_first_target_at(s: Seq<Object>, x: int, y: int, t: int) -> bool {
    is_target_at(s, x, y, t) && forall|k: int| 0 <= k < t ==> !is_target_at(s, x, y, k)
}

/// How the player's directional intent resolves: if some fighter stands
/// on the stepped-to cell, the first such one is attacked; otherwise the
/// player tries to move there, and nothing is logged.
pub open spec fn pmoa_rel(
    map: FloorMap,
    a0: Seq<Object>,
    a1: Seq<Object>,
    added: Seq<(String, MessageType)>,
    dx: int,
    dy: int,
) -> bool {
    let nx = a0[PLAYER as int].x + dx;
    let ny = a0[PLAYER as int].y + dy;
    if exists|t: int| is_target_at(a0, nx, ny, t) {
        exists|t: int|
            {
                &&& #[trigger] is_first_target_at(a0, nx, ny, t)
                &&& attack_rel(a0[PLAYER as int], a0[t], a1[t], added)
                &&& a1.len() == a0.len()
                &&& forall|k: int| 0 <= k < a0.len() && k != t ==> a1[k] == a0[k]
            }
    } else {
        &&& move_by_rel(map, a0, a1, PLAYER as int, dx, dy)
        &&& added.len() == 0
    }
}

/// The player's directional intent: if a fighter stands on the stepped-to
/// cell, attack the first such one; otherwise try to move there.
pub fn player_move_or_attack(dx: i32, dy: i32, game: &mut Game, actors: &mut Vec<Object>)
    requires
        map_wf(old(game).map),
        old(actors)@.len() >= 1,
        !(dx == 0 && dy == 0),
    ensures
        final(game).map == old(game).map,
        log_extends(old(game).log@, final(game).log@),
        final(actors)@.len() == old(actors)@.len(),
        pmoa_rel(
            old(game).map,
            old(actors)@,
            final(actors)@,
            added_msgs(old(game).log@, final(game).log@),
            dx as int,
            dy as int,
        ),
{
    let x = actors[PLAYER].x;
    let y = actors[PLAYER].y;
    let nx64: i64 = x as i64 + dx as i64;
    let ny64: i64 = y as i64 + dy as i64;
    let ghost a0 = actors@;
    let ghost nx = a0[PLAYER as int].x + dx;
    let ghost ny = a0[PLAYER as int].y + dy;
    let mut target: Option<usize> = Option::None;
    let mut i: usize = 0;
    while i < actors.len()
        invariant
            0 <= i <= a0.len(),
            actors@ == a0,
            a0.len() >= 1,
            nx == a0[PLAYER as int].x + dx,
            ny == a0[PLAYER as int].y + dy,
            nx64 == nx,
            ny64 == ny,
            match target {
                Option::Some(t) => is_first_target_at(a0, nx, ny, t as int) && (t as int)
                    < (i as int),
                Option::None => forall|k: int| 0 <= k < i as int ==> !is_target_at(a0, nx, ny, k),
            },
        decreases a0.len() - i,
    {
        if target.is_none() && actors[i].fighter.is_some() && actors[i].x as i64 == nx64
            && actors[i].y as i64 == ny64 {
            target = Option::Some(i);
        }
        i += 1;
    }
    match target {
        Option::Some(t) => {
            proof {
                assert(a0[PLAYER as int].x == x && a0[PLAYER as int].y == y);
                assert(!(a0[t as int].x == x && a0[t as int].y == y));
                assert(t != PLAYER);
            }
            attack_between(actors, PLAYER, t, &mut game.log);
        },
        Option::None => {
            move_by(PLAYER, dx, dy, &game.map, actors);
            proof {
                crate::log::lemma_log_same(old(game).log@);
            }
        },
    }
}

/// Removes an item from an inventory and places it on the floor at the
/// given cell.
pub fn drop_item(
    x: i32,
    y: i32,
    inventory_id: usize,
    game: &mut Game,
    inventory: &mut Vec<Object>,
)
    requires
        map_wf(old(game).map),
        inventory_id < old(inventory)@.len(),
        in_grid(x as int, y as int),
    ensures
        map_wf(final(game).map),
        final(inventory)@ == old(inventory)@.remove(inventory_id as int),
        log_extends(old(game).log@, final(game).log@),
        one_msg(
            added_msgs(old(game).log@, final(game).log@),
            "You dropped a "@ + old(inventory)@[inventory_id as int].name@ + "."@,
            MessageType::Info,
        ),
        final(game).map@.len() == old(game).map@.len(),
        forall|k: int|
            0 <= k < old(game).map@.len() && k != x as int ==> final(game).map@[k]
                == old(game).map@[k],
        forall|k: int|
            0 <= k < old(game).map@[x as int]@.len() && k != y as int
                ==> final(game).map@[x as int]@[k] == old(game).map@[x as int]@[k],
        final(game).map@[x as int]@[y as int].items@ == old(game).map@[x as int]@[y as int].items@
            .push(
            Object { x: x, y: y, ..old(inventory)@[inventory_id as int] },
        ),
{
    let mut item = inventory.remove(inventory_id);
    item.set_pos(x, y);
    let text = "You dropped a ".to_owned().concat(item.name.as_str()).concat(".");
    proof {
        assert(text@ =~= "You dropped a "@ + old(inventory)@[inventory_id as int].name@ + "."@);
    }
    game.log.info(text);
    proof {
        crate::log::lemma_log_push(old(game).log@, game.log@);
    }
    tile_push_item(&mut game.map, x as usize, y as usize, item);
}

/// The objects of a tile stack that stay behind: those not flagged as
/// portable, in their original order.
pub open spec fn kept_items(items: Seq<Object>) -> Seq<Object>
    decreases items.len(),
{
    if items.len() == 0 {
        Seq::empty()
    } else if items.last().can_pick_up {
        kept_items(items.drop_last())
    } else {
        kept_items(items.drop_last()).push(items.last())
    }
}

/// The objects picked up from a tile stack: the portable ones, in their
/// original order, each with its position cleared off the grid.
pub open spec fn picked_items(items: Seq<Object>) -> Seq<Object>
    decreases items.len(),
{
    if items.len() == 0 {
        Seq::empty()
    } else if items.last().can_pick_up {
        picked_items(items.drop_last()).push(Object { x: -1i32, y: -1i32, ..items.last() })
    } else {
        picked_items(items.drop_last())
    }
}

/// The names of a list of objects, joined with commas.
pub open spec fn names_joined(s: Seq<Object>) -> Seq<char>
    decreases s.len(),
{
    if s.len() == 0 {
        Seq::empty()
    } else if s.len() == 1 {
        s[0].name@
    } else {
        names_joined(s.drop_last()) + ", "@ + s.last().name@
    }
}

/// Picks up everything portable from the tile at `(x, y)`: those objects
/// move from the tile's stack into the inventory, taken off the grid,
/// and one message lists their names; the rest of the stack stays in
/// order.
pub fn pick_up_items(x: i32, y: i32, inventory: &mut Vec<Object>, game: &mut Game)
    requires
        map_wf(old(game).map),
        in_grid(x as int, y as int),
    ensures
        map_wf(final(game).map),
        final(game).map@.len() == old(game).map@.len(),
        forall|k: int|
            0 <= k < old(game).map@.len() && k != x as int ==> final(game).map@[k]
                == old(game).map@[k],
        forall|k: int|
            0 <= k < old(game).map@[x as int]@.len() && k != y as int
                ==> final(game).map@[x as int]@[k] == old(game).map@[x as int]@[k],
        ({
            let items0 = old(game).map@[x as int]@[y as int].items@;
            let tile1 = final(game).map@[x as int]@[y as int];
            &&& tile1.items@ == kept_items(items0)
            &&& tile1.explored == old(game).map@[x as int]@[y as int].explored
            &&& tile1.floor == old(game).map@[x as int]@[y as int].floor
            &&& final(inventory)@ == old(inventory)@ + picked_items(items0)
            &&& log_extends(old(game).log@, final(game).log@)
            &&& if picked_items(items0).len() > 0 {
                one_msg(
                    added_msgs(old(game).log@, final(game).log@),
                    "You picked up "@ + names_joined(picked_items(items0)),
                    MessageType::Info,
                )
            } else {
                final(game).log == old(game).log
            }
        }),
{
    let xs = x as usize;
    let ys = y as usize;
    let mut row = game.map.remove(xs);
    let tile = row.remove(ys);
    let ghost items0 = tile.items@;
    let ghost inv0 = inventory@;
    let Tile { floor, explored, items: mut items } = tile;
    let mut kept: Vec<Object> = Vec::new();
    let mut names: String = String::new();
    let mut picked: usize = 0;
    let n0: usize = items.len();
    let ghost mut k: int = 0;
    while items.len() > 0
        invariant
            0 <= k <= items0.len(),
            items0.len() == n0 as int,
            items@ == items0.skip(k),
            kept@ == kept_items(items0.take(k)),
            inventory@ == inv0 + picked_items(items0.take(k)),
            names@ == names_joined(picked_items(items0.take(k))),
            picked as int == picked_items(items0.take(k)).len(),
            picked as int <= k,
        decreases items@.len(),
    {
        proof {
            assert(items0.take(k + 1).drop_last() =~= items0.take(k));
            assert(items0.take(k + 1).last() == items0[k]);
            assert(items0.skip(k)[0] == items0[k]);
        }
        let mut it = items.remove(0);
        proof {
            assert(items@ =~= items0.skip(k + 1));
        }
        if it.can_pick_up {
            if picked > 0 {
                names.append(", ");
            }
            names.append(it.name.as_str());
            it.set_pos(-1, -1);
            inventory.push(it);
            picked += 1;
            proof {
                let prefix = picked_items(items0.take(k));
                let entry = Object { x: -1i32, y: -1i32, ..items0[k] };
                assert(picked_items(items0.take(k + 1)) == prefix.push(entry));
                assert(prefix.push(entry).drop_last() =~= prefix);
                assert(prefix.push(entry).last() == entry);
                assert(names@ =~= names_joined(prefix.push(entry)));
            }
        } else {
            kept.push(it);
        }
        proof {
            k = k + 1;
        }
    }
    proof {
        assert(items0.take(items0.len() as int) =~= items0);
    }
    row.insert(ys, Tile { floor, explored, items: kept });
    game.map.insert(xs, row);
    if picked > 0 {
        let text = "You picked up ".to_owned().concat(names.as_str());
        proof {
            assert(text@ =~= "You picked up "@ + names_joined(picked_items(items0)));
        }
        game.log.info(text);
        proof {
            crate::log::lemma_log_push(old(game).log@, game.log@);
        }
    } else {
        proof {
            crate::log::lemma_log_same(old(game).log@);
        }
    }
}

/// Uses the item at `inventory_id` on the picked target: the effect it
/// carries runs against the world, a consumed item leaves the
/// inventory, and a cancelled use logs that it came to nothing. An
/// object without an effect cannot be used.
pub fn use_item(
    inventory_id: usize,
    target: crate::item::UseTarget,
    game: &mut Game,
    actors: &mut Vec<Object>,
    inventory: &mut Vec<Object>,
    fov: &crate::map::FovGrid,
)
    requires
        inventory_id < old(inventory)@.len(),
        old(actors)@.len() >= 1,
    ensures
        final(game).map == old(game).map,
        log_extends(old(game).log@, final(game).log@),
        final(actors)@.len() == old(actors)@.len(),
        ({
            let added = added_msgs(old(game).log@, final(game).log@);
            match old(inventory)@[inventory_id as int].function {
                Option::None => {
                    &&& final(inventory)@ == old(inventory)@
                    &&& final(actors)@ == old(actors)@
                    &&& one_msg(
                        added,
                        "The "@ + old(inventory)@[inventory_id as int].name@
                            + " cannot be used."@,
                        MessageType::Alert,
                    )
                },
                Option::Some(f) => {
                    ||| {
                        &&& crate::item::function_rel(
                            f,
                            target,
                            *fov,
                            old(actors)@,
                            final(actors)@,
                            added,
                            crate::item::UseResult::UsedUp,
                        )
                        &&& final(inventory)@ == old(inventory)@.remove(inventory_id as int)
                    }
                    ||| {
                        &&& crate::item::function_rel(
                            f,
                            target,
                            *fov,
                            old(actors)@,
                            final(actors)@,
                            added.drop_last(),
                            crate::item::UseResult::Cancelled,
                        )
                        &&& final(inventory)@ == old(inventory)@
                        &&& added.len() >= 1
                        &&& added.last().0@ == "Cancelled"@
                        &&& added.last().1 == MessageType::Info
                    }
                },
            }
        }),
{
    let function = inventory[inventory_id].function;
    match function {
        Option::None => {
            let text = "The ".to_owned().concat(inventory[inventory_id].name.as_str()).concat(
                " cannot be used.",
            );
            proof {
                assert(text@ =~= "The "@ + old(inventory)@[inventory_id as int].name@
                    + " cannot be used."@);
            }
            game.log.alert(text);
            proof {
                crate::log::lemma_log_push(old(game).log@, game.log@);
            }
        },
        Option::Some(f) => {
            let u = match f {
                crate::item::Function::Confuse => {
                    let t: Option<usize> = match target {
                        crate::item::UseTarget::AtMonster(id) => {
                            if 0 < id && id < actors.len() && crate::item::target_in_range(
                                actors,
                                fov,
                                id,
                                5,
                            ) {
                                Option::Some(id)
                            } else {
                                Option::None
                            }
                        },
                        _ => Option::None,
                    };
                    crate::item::cast_confuse(t, game, actors)
                },
                crate::item::Function::Fireball => {
                    let t: Option<(i32, i32)> = match target {
                        crate::item::UseTarget::AtTile(x, y) => {
                            if crate::ai::in_fov(fov, x, y) {
                                Option::Some((x, y))
                            } else {
                                Option::None
                            }
                        },
                        _ => Option::None,
                    };
                    crate::item::cast_fireball(t, game, actors)
                },
                crate::item::Function::Heal => crate::item::heal_player(game, actors),
                crate::item::Function::Lightning => crate::item::cast_lightning(
                    game,
                    actors,
                    fov,
                ),
            };
            let ghost log_cast = game.log@;
            match u {
                crate::item::UseResult::UsedUp => {
                    inventory.remove(inventory_id);
                    proof {
                        assert(added_msgs(old(game).log@, game.log@) == if u
                            == crate::item::UseResult::Cancelled {
                            added_msgs(old(game).log@, game.log@).drop_last()
                        } else {
                            added_msgs(old(game).log@, game.log@)
                        });
                    }
                },
                crate::item::UseResult::Cancelled => {
                    game.log.info("Cancelled".to_owned());
                    proof {
                        crate::log::lemma_log_push(log_cast, game.log@);
                        crate::log::lemma_log_trans(old(game).log@, log_cast, game.log@);
                        assert(added_msgs(old(game).log@, game.log@).drop_last() =~= added_msgs(
                            old(game).log@,
                            log_cast,
                        ));
                    }
                },
            }
        },
    }
}

} // verus!