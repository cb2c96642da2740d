//! Resolution of the player's decoded intent into one turn's action.
//! The input layer turns raw key events into `Command` values; this
//! module applies them to the world.

use vstd::prelude::*;

use crate::actor::{
    drop_item, kept_items, picked_items, pick_up_items, player_move_or_attack, pmoa_rel,
    use_item, names_joined,
};
use crate::game::{Game, PlayerAction, PLAYER};
use crate::item::UseTarget;
use crate::log::{added_msgs, log_extends, one_msg, MessageLog, MessageType};
use crate::map::{in_grid, map_wf, FloorMap, FovGrid};
use crate::object::Object;

verus! {

/// One decoded player intent, as the input layer hands it in.
#[derive(Clone, Copy, Debug, PartialEq, Eq, Structural)]
pub enum Command {
    Exit,
    Walk { dx: i32, dy: i32 },
    Wait,
    PickUp,
    ApplyItem { inventory_id: usize, target: UseTarget },
    DropHeld { inventory_id: usize },
    Descend,
    Idle,
}

/// Some stairs fixture stands on the tile at `(x, y)`.
pub open spec fn on_stairs(map: FloorMap, x: int, y: int) -> bool {
    in_grid(x, y) && exists|k: int|
        0 <= k < map@[x]@[y].items@.len() && ((#[trigger] map@[x]@[y].items@[k]).name@
            == "stairs up"@ || map@[x]@[y].items@[k].name@ == "stairs"@)
}

/// Whether the player stands on a stairs fixture.
pub fn player_on_stairs(game: &Game, actors: &Vec<Object>) -> (r: bool)
    requires
        map_wf(game.map),
        actors@.len() >= 1,
    ensures
        r == on_stairs(game.map, actors@[PLAYER as int].x as int, actors@[PLAYER as int].y as int),
{
    let x = actors[PLAYER].x;
    let y = actors[PLAYER].y;
    if !(x >= 0 && x < crate::map::FLOOR_WIDTH && y >= 0 && y < crate::map::FLOOR_HEIGHT) {
        return false;
    }
    let key_up: String = "stairs up".to_owned();
    let key_down: String = "stairs".to_owned();
    let tile_items: &Vec<Object> = &game.map[x as usize][y as usize].items;
    let mut k: usize = 0;
    while k < tile_items.len()
        invariant
            0 <= k <= tile_items@.len(),
            actors@.len() >= 1,
            x == actors@[PLAYER as int].x,
            y == actors@[PLAYER as int].y,
            key_up@ == "stairs up"@,
            key_down@ == "stairs"@,
            tile_items@ == game.map@[x as int]@[y as int].items@,
            in_grid(x as int, y as int),
            forall|j: int|
                0 <= j < k as int ==> (#[trigger] tile_items@[j]).name@ != "stairs up"@
                    && tile_items@[j].name@ != "stairs"@,
        decreases tile_items@.len() - k,
    {
        if tile_items[k].name == key_up || tile_items[k].name == key_down {
            proof {
                assert(game.map@[x as int]@[y as int].items@[k as int].name@ == "stairs up"@
                    || game.map@[x as int]@[y as int].items@[k as int].name@ == "stairs"@);
                assert(on_stairs(game.map, x as int, y as int));
                assert(x == actors@[PLAYER as int].x && y == actors@[PLAYER as int].y);
            }
            return true;
        }
        k += 1;
    }
    false
}

/// Applies one decoded command for this frame. Movement and waiting
/// take the turn; everything else resolves without consuming it, and a
/// dead player can do nothing but quit.
pub fn handle_keys(
    cmd: Command,
    game: &mut Game,
    actors: &mut Vec<Object>,
    fov: &FovGrid,
) -> (action: PlayerAction)
    requires
        map_wf(old(game).map),
        old(actors)@.len() >= 1,
    ensures
        log_extends(old(game).log@, final(game).log@),
        final(actors)@.len() == old(actors)@.len(),
        map_wf(final(game).map),
        ({
            let a0 = old(actors)@;
            let a1 = final(actors)@;
            let added = added_msgs(old(game).log@, final(game).log@);
            match cmd {
                Command::Exit => action == PlayerAction::Exit && a1 == a0 && *final(game)
                    == *old(game),
                _ => !a0[PLAYER as int].alive ==> action == PlayerAction::DidntTakeTurn && a1
                    == a0 && *final(game) == *old(game),
            }
        }),
        ({
            let a0 = old(actors)@;
            let a1 = final(actors)@;
            let added = added_msgs(old(game).log@, final(game).log@);
            a0[PLAYER as int].alive ==> match cmd {
                Command::Exit => true,
                Command::Walk { dx, dy } => {
                    &&& action == PlayerAction::TookTurn
                    &&& final(game).map == old(game).map
                    &&& if dx == 0 && dy == 0 {
                        a1 == a0 && *final(game) == *old(game)
                    } else {
                        pmoa_rel(old(game).map, a0, a1, added, dx as int, dy as int)
                    }
                },
                Command::Wait => action == PlayerAction::TookTurn && a1 == a0 && *final(game)
                    == *old(game),
                Command::Idle => action == PlayerAction::DidntTakeTurn && a1 == a0
                    && *final(game) == *old(game),
                Command::Descend => {
                    &&& action == PlayerAction::DidntTakeTurn
                    &&& a1 == a0
                    &&& final(game).map == old(game).map
                    &&& if on_stairs(old(game).map, a0[PLAYER as int].x as int, a0[PLAYER as int].y as int) {
                        one_msg(added, "Go upstairs!"@, MessageType::Success)
                    } else {
                        *final(game) == *old(game)
                    }
                },
                Command::PickUp => {
                    &&& action == PlayerAction::DidntTakeTurn
                    &&& match a0[PLAYER as int].inventory {
                        Option::None => a1 == a0 && *final(game) == *old(game),
                        Option::Some(inv0) => {
                            let px = a0[PLAYER as int].x as int;
                            let py = a0[PLAYER as int].y as int;
                            if in_grid(px, py) {
                                let items0 = old(game).map@[px]@[py].items@;
                                &&& forall|k: int| 0 < k < a0.len() ==> a1[k] == a0[k]
                                &&& a1[PLAYER as int] == (Object {
                                    inventory: a1[PLAYER as int].inventory,
                                    ..a0[PLAYER as int]
                                })
                                &&& match a1[PLAYER as int].inventory {
                                    Option::Some(v) => v@ == inv0@ + picked_items(items0),
                                    Option::None => false,
                                }
                                &&& final(game).map@[px]@[py].items@ == kept_items(items0)
                                &&& if picked_items(items0).len() > 0 {
                                    one_msg(
                                        added,
                                        "You picked up "@ + names_joined(picked_items(items0)),
                                        MessageType::Info,
                                    )
                                } else {
                                    final(game).log == old(game).log
                                }
                            } else {
                                a1 == a0 && *final(game) == *old(game)
                            }
                        },
                    }
                },
                Command::DropHeld { inventory_id } => {
                    &&& action == PlayerAction::DidntTakeTurn
                    &&& match a0[PLAYER as int].inventory {
                        Option::None => a1 == a0 && *final(game) == *old(game),
                        Option::Some(inv0) => {
                            let px = a0[PLAYER as int].x as int;
                            let py = a0[PLAYER as int].y as int;
                            if inventory_id < inv0@.len() && in_grid(px, py) {
                                &&& forall|k: int| 0 < k < a0.len() ==> a1[k] == a0[k]
                                &&& a1[PLAYER as int] == (Object {
                                    inventory: a1[PLAYER as int].inventory,
                                    ..a0[PLAYER as int]
                                })
                                &&& match a1[PLAYER as int].inventory {
                                    Option::Some(v) => v@ == inv0@.remove(inventory_id as int),
                                    Option::None => false,
                                }
                                &&& final(game).map@[px]@[py].items@ == old(game).map@[px]@[py]
                                    .items@.push(
                                    Object {
                                        x: a0[PLAYER as int].x,
                                        y: a0[PLAYER as int].y,
                                        ..inv0@[inventory_id as int]
                                    },
                                )
                                &&& one_msg(
                                    added,
                                    "You dropped a "@ + inv0@[inventory_id as int].name@ + "."@,
                                    MessageType::Info,
                                )
                            } else {
                                a1 == a0 && *final(game) == *old(game)
                            }
                        },
                    }
                },
                Command::ApplyItem { inventory_id, target } => {
                    &&& action == PlayerAction::DidntTakeTurn
                    &&& final(game).map == old(game).map
                    &&& match a0[PLAYER as int].inventory {
                        Option::None => a1 == a0 && *final(game) == *old(game),
                        Option::Some(inv0) => {
                            if inventory_id < inv0@.len() {
                                let mid0 = a0.update(
                                    PLAYER as int,
                                    Object {
                                        inventory: Option::None,
                                        ..a0[PLAYER as int]
                                    },
                                );
                                let mid1 = a1.update(
                                    PLAYER as int,
                                    Object {
                                        inventory: Option::None,
                                        ..a1[PLAYER as int]
                                    },
                                );
                                let held = a1[PLAYER as int].inventory;
                                match inv0@[inventory_id as int].function {
                                    Option::None => {
                                        &&& mid1 == mid0
                                        &&& match held {
                                            Option::Some(v) => v@ == inv0@,
                                            Option::None => false,
                                        }
                                        &&& one_msg(
                                            added,
                                            "The "@ + inv0@[inventory_id as int].name@
                                                + " cannot be used."@,
                                            MessageType::Alert,
                                        )
                                    },
                                    Option::Some(f) => {
                                        ||| {
                                            &&& crate::item::function_rel(
                                                f,
                                                target,
                                                *fov,
                                                mid0,
                                                mid1,
                                                added,
                                                crate::item::UseResult::UsedUp,
                                            )
                                            &&& match held {
                                                Option::Some(v) => v@ == inv0@.remove(
                                                    inventory_id as int,
                                                ),
                                                Option::None => false,
                                            }
                                        }
                                        ||| {
                                            &&& crate::item::function_rel(
                                                f,
                                                target,
                                                *fov,
                                                mid0,
                                                mid1,
                                                added.drop_last(),
                                                crate::item::UseResult::Cancelled,
                                            )
                                            &&& match held {
                                                Option::Some(v) => v@ == inv0@,
                                                Option::None => false,
                                            }
                                            &&& added.len() >= 1
                                            &&& added.last().0@ == "Cancelled"@
                                            &&& added.last().1 == MessageType::Info
                                        }
                                    },
                                }
                            } else {
                                a1 == a0 && *final(game) == *old(game)
                            }
                        },
                    }
                },
            }
        }),
{
    let alive = actors[PLAYER].alive;
    match cmd {
        Command::Exit => {
            proof {
                crate::log::lemma_log_same(old(game).log@);
            }
            PlayerAction::Exit
        },
        Command::Walk { dx, dy } => {
            if !alive {
                proof {
                    crate::log::lemma_log_same(old(game).log@);
                }
                PlayerAction::DidntTakeTurn
            } else {
                if dx != 0 || dy != 0 {
                    player_move_or_attack(dx, dy, game, actors);
                } else {
                    proof {
                        crate::log::lemma_log_same(old(game).log@);
                    }
                }
                PlayerAction::TookTurn
            }
        },
        Command::Wait => {
            proof {
                crate::log::lemma_log_same(old(game).log@);
            }
            if !alive {
                PlayerAction::DidntTakeTurn
            } else {
                PlayerAction::TookTurn
            }
        },
        Command::Idle => {
            proof {
                crate::log::lemma_log_same(old(game).log@);
            }
            PlayerAction::DidntTakeTurn
        },
        Command::Descend => {
            if !alive {
                proof {
                    crate::log::lemma_log_same(old(game).log@);
                }
                PlayerAction::DidntTakeTurn
            } else {
                if player_on_stairs(game, actors) {
                    game.log.success("Go upstairs!".to_owned());
                    proof {
                        crate::log::lemma_log_push(old(game).log@, game.log@);
                    }
                } else {
                    proof {
                        crate::log::lemma_log_same(old(game).log@);
                    }
                }
                PlayerAction::DidntTakeTurn
            }
        },
        Command::PickUp => {
            if !alive {
                proof {
                    crate::log::lemma_log_same(old(game).log@);
                }
                return PlayerAction::DidntTakeTurn;
            }
            let px = actors[PLAYER].x;
            let py = actors[PLAYER].y;
            let mut player = actors.remove(PLAYER);
            let inv_opt = player.inventory.take();
            match inv_opt {
                Option::None => {
                    actors.insert(PLAYER, player);
                    proof {
                        assert(actors@ =~= old(actors)@);
                        crate::log::lemma_log_same(old(game).log@);
                    }
                },
                Option::Some(mut inventory) => {
                    if px >= 0 && px < crate::map::FLOOR_WIDTH && py >= 0 && py
                        < crate::map::FLOOR_HEIGHT {
                        pick_up_items(px, py, &mut inventory, game);
                    } else {
                        proof {
                            crate::log::lemma_log_same(old(game).log@);
                        }
                    }
                    player.inventory = Option::Some(inventory);
                    actors.insert(PLAYER, player);
                    proof {
                        if !in_grid(px as int, py as int) {
                            assert(actors@ =~= old(actors)@);
                        }
                    }
                },
            }
            PlayerAction::DidntTakeTurn
        },
        Command::DropHeld { inventory_id } => {
            if !alive {
                proof {
                    crate::log::lemma_log_same(old(game).log@);
                }
                return PlayerAction::DidntTakeTurn;
            }
            let px = actors[PLAYER].x;
            let py = actors[PLAYER].y;
            let mut player = actors.remove(PLAYER);
            let inv_opt = player.inventory.take();
            match inv_opt {
                Option::None => {
                    actors.insert(PLAYER, player);
                    proof {
                        assert(actors@ =~= old(actors)@);
                        crate::log::lemma_log_same(old(game).log@);
                    }
                },
                Option::Some(mut inventory) => {
                    if inventory_id < inventory.len() && px >= 0 && px < crate::map::FLOOR_WIDTH
                        && py >= 0 && py < crate::map::FLOOR_HEIGHT {
                        drop_item(px, py, inventory_id, game, &mut inventory);
                    } else {
                        proof {
                            crate::log::lemma_log_same(old(game).log@);
                        }
                    }
                    player.inventory = Option::Some(inventory);
                    actors.insert(PLAYER, player);
                    proof {
                        if !(inventory_id < old(actors)@[PLAYER as int].inventory.unwrap()@.len()
                            && in_grid(px as int, py as int)) {
                            assert(actors@ =~= old(actors)@);
                        }
                    }
                },
            }
            PlayerAction::DidntTakeTurn
        },
        Command::ApplyItem { inventory_id, target } => {
            if !alive {
                proof {
                    crate::log::lemma_log_same(old(game).log@);
                }
                return PlayerAction::DidntTakeTurn;
            }
            let mut player = actors.remove(PLAYER);
            let inv_opt = player.inventory.take();
            match inv_opt {
                Option::None => {
                    actors.insert(PLAYER, player);
                    proof {
                        assert(actors@ =~= old(actors)@);
                        crate::log::lemma_log_same(old(game).log@);
                    }
                },
                Option::Some(mut inventory) => {
                    actors.insert(PLAYER, player);
                    proof {
                        assert(actors@ =~= old(actors)@.update(
                            PLAYER as int,
                            Object { inventory: Option::None, ..old(actors)@[PLAYER as int] },
                        ));
                    }
                    let ghost mid0 = actors@;
                    let usable = inventory_id < inventory.len();
                    if usable {
                        use_item(inventory_id, target, game, actors, &mut inventory, fov);
                    } else {
                        proof {
                            crate::log::lemma_log_same(old(game).log@);
                        }
                    }
                    let ghost used = actors@;
                    let mut player2 = actors.remove(PLAYER);
                    let ghost player_mid = player2;
                    player2.inventory = Option::Some(inventory);
                    actors.insert(PLAYER, player2);
                    proof {
                        assert(actors@ =~= used.update(
                            PLAYER as int,
                            Object { inventory: actors@[PLAYER as int].inventory, ..player_mid },
                        ));
                        if usable {
                            let inv0 = old(actors)@[PLAYER as int].inventory.unwrap();
                            match inv0@[inventory_id as int].function {
                                Option::None => {
                                    assert(used == mid0);
                                },
                                Option::Some(f) => {
                                    assert(player_mid.inventory is None) by {
                                        if crate::item::function_rel(
                                            f,
                                            target,
                                            *fov,
                                            mid0,
                                            used,
                                            crate::log::added_msgs(old(game).log@, game.log@),
                                            crate::item::UseResult::UsedUp,
                                        ) {
                                            crate::item::lemma_use_keeps_player_inventory(
                                                f,
                                                target,
                                                *fov,
                                                mid0,
                                                used,
                                                crate::log::added_msgs(old(game).log@, game.log@),
                                                crate::item::UseResult::UsedUp,
                                            );
                                        } else {
                                            crate::item::lemma_use_keeps_player_inventory(
                                                f,
                                                target,
                                                *fov,
                                                mid0,
                                                used,
                                                crate::log::added_msgs(
                                                    old(game).log@,
                                                    game.log@,
                                                ).drop_last(),
                                                crate::item::UseResult::Cancelled,
                                            );
                                        }
                                    }
                                    assert(actors@.update(
                                        PLAYER as int,
                                        Object {
                                            inventory: Option::None,
                                            ..actors@[PLAYER as int]
                                        },
                                    ) =~= used);
                                },
                            }
                        } else {
                            assert(actors@ =~= old(actors)@);
                        }
                    }
                },
            }
            PlayerAction::DidntTakeTurn
        },
    }
}

} // verus!
