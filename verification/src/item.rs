//! Usable items: the closed set of item effects, each a function of the
//! world state and a target the caller picked.

use vstd::prelude::*;
use vstd::string::StringExecFns;

use crate::actor::Fighter;
use crate::ai::{clone_ai_opt, dist_sq, in_fov_spec, Ai};
use crate::game::{Game, PLAYER};
use crate::log::{added_msgs, log_extends, one_msg, MessageLog, MessageType};
use crate::map::FovGrid;
use crate::object::{take_damage_msgs_rel, take_damage_state_rel, Object};

verus! {

/// What came of using an item: consumed, or nothing happened.
#[derive(Clone, Copy, Debug, PartialEq, Eq, Structural)]
pub enum UseResult {
    UsedUp,
    Cancelled,
}

/// The effect a usable item carries. A closed set, dispatched by match.
#[derive(Clone, Copy, Debug, PartialEq, Eq, Structural)]
pub enum Function {
    Confuse,
    Fireball,
    Heal,
    Lightning,
}

/// The target the caller picked for an item use: none, a ground tile,
/// or one actor of the list.
#[derive(Clone, Copy, Debug, PartialEq, Eq, Structural)]
pub enum UseTarget {
    Untargeted,
    AtTile(i32, i32),
    AtMonster(usize),
}

/// The monster index a stun accepts from the picked target: an actual
/// non-player actor of the list, standing in the field of view and
/// within five cells of the player - the same acceptance the targeting
/// surface enforces.
pub open spec fn confuse_target(t: UseTarget, a0: Seq<Object>, fov: FovGrid) -> Option<int> {
    match t {
        UseTarget::AtMonster(id) => if 0 < id < a0.len() && in_fov_spec(
            fov,
            a0[id as int].x as int,
            a0[id as int].y as int,
        ) && dist_sq(a0[PLAYER as int], a0[id as int]) <= 25 {
            Option::Some(id as int)
        } else {
            Option::None
        },
        _ => Option::None,
    }
}

/// The tile a molotov accepts from the picked target: one inside the
/// field of view.
pub open spec fn fireball_target(t: UseTarget, fov: FovGrid) -> Option<(int, int)> {
    match t {
        UseTarget::AtTile(x, y) => if in_fov_spec(fov, x as int, y as int) {
            Option::Some((x as int, y as int))
        } else {
            Option::None
        },
        _ => Option::None,
    }
}

/// Whether the actor at `id` is an acceptable target: visible in the
/// field of view and within `max_range` cells of the player.
pub fn target_in_range(actors: &Vec<Object>, fov: &FovGrid, id: usize, max_range: i32) -> (r:
    bool)
    requires
        actors@.len() >= 1,
        id < actors@.len(),
        0 <= max_range,
    ensures
        r == (in_fov_spec(*fov, actors@[id as int].x as int, actors@[id as int].y as int)
            && dist_sq(actors@[PLAYER as int], actors@[id as int]) <= max_range * max_range),
{
    proof {
        crate::object::lemma_small_square(max_range as int);
    }
    let limit: i128 = (max_range as i128) * (max_range as i128);
    crate::ai::in_fov(fov, actors[id].x, actors[id].y) && actors[PLAYER].distance_to_sq(
        &actors[id],
    ) <= limit
}

/// What one use of an item with the given effect does to the world,
/// the appropriate relation for each effect of the closed set.
pub open spec fn function_rel(
    f: Function,
    target: UseTarget,
    fov: FovGrid,
    a0: Seq<Object>,
    a1: Seq<Object>,
    added: Seq<(String, MessageType)>,
    r: UseResult,
) -> bool {
    match f {
        Function::Heal => heal_player_rel(a0, a1, added, r),
        Function::Confuse => confuse_rel(confuse_target(target, a0, fov), a0, a1, added, r),
        Function::Fireball => fireball_rel(fireball_target(target, fov), a0, a1, added, r),
        Function::Lightning => lightning_rel(fov, a0, a1, added, r),
    }
}

/// How healing the player relates the old and new state: nothing
/// happens without a fighter; at full health the item is not consumed;
/// otherwise three hit points return, clamped at the maximum.
pub open spec fn heal_player_rel(
    a0: Seq<Object>,
    a1: Seq<Object>,
    added: Seq<(String, MessageType)>,
    r: UseResult,
) -> bool {
    match a0[PLAYER as int].fighter {
        Option::None => r == UseResult::Cancelled && a1 == a0 && added.len() == 0,
        Option::Some(f) => if f.hp == f.max_hp {
            &&& r == UseResult::Cancelled
            &&& a1 == a0
            &&& one_msg(added, "You are already at full health."@, MessageType::Alert)
        } else {
            &&& r == UseResult::UsedUp
            &&& a1 == a0.update(
                PLAYER as int,
                Object {
                    fighter: Option::Some(
                        Fighter {
                            hp: crate::object::healed_hp(f.hp as int, f.max_hp as int, 3),
                            ..f
                        },
                    ),
                    ..a0[PLAYER as int]
                },
            )
            &&& one_msg(added, "Your wounds start to feel better!"@, MessageType::Success)
        },
    }
}

/// Restores some of the player's health, unless already full.
pub fn heal_player(game: &mut Game, actors: &mut Vec<Object>) -> (r: UseResult)
    requires
        old(actors)@.len() >= 1,
    ensures
        final(game).map == old(game).map,
        log_extends(old(game).log@, final(game).log@),
        heal_player_rel(
            old(actors)@,
            final(actors)@,
            added_msgs(old(game).log@, final(game).log@),
            r,
        ),
{
    let fighter = actors[PLAYER].fighter;
    match fighter {
        Option::None => {
            proof {
                crate::log::lemma_log_same(old(game).log@);
            }
            UseResult::Cancelled
        },
        Option::Some(f) => {
            if f.hp == f.max_hp {
                game.log.alert("You are already at full health.".to_owned());
                proof {
                    crate::log::lemma_log_push(old(game).log@, game.log@);
                }
                UseResult::Cancelled
            } else {
                game.log.success("Your wounds start to feel better!".to_owned());
                proof {
                    crate::log::lemma_log_push(old(game).log@, game.log@);
                }
                let mut player = actors.remove(PLAYER);
                player.heal(3);
                actors.insert(PLAYER, player);
                proof {
                    assert(actors@ =~= old(actors)@.update(
                        PLAYER as int,
                        actors@[PLAYER as int],
                    ));
                }
                UseResult::UsedUp
            }
        },
    }
}

/// How stunning a monster relates the states: with no target nothing
/// changes and the item is kept; with one, its current behavior is
/// wrapped in a three-turn stun, preserved underneath.
pub open spec fn confuse_rel(
    target: Option<int>,
    a0: Seq<Object>,
    a1: Seq<Object>,
    added: Seq<(String, MessageType)>,
    r: UseResult,
) -> bool {
    match target {
        Option::None => {
            &&& r == UseResult::Cancelled
            &&& a1 == a0
            &&& added.len() == 2
            &&& added[0].0@ == confuse_prompt()
            &&& added[0].1 == MessageType::Info
            &&& added[1].0@ == "No enemy is within range."@
            &&& added[1].1 == MessageType::Alert
        },
        Option::Some(id) => {
            &&& r == UseResult::UsedUp
            &&& a1.len() == a0.len()
            &&& forall|k: int| 0 <= k < a0.len() && k != id ==> a1[k] == a0[k]
            &&& a1[id] == (Object { ai: a1[id].ai, ..a0[id] })
            &&& match a1[id].ai {
                Option::Some(Ai::Stunned { previous_ai, num_turns }) => {
                    &&& *previous_ai == match a0[id].ai {
                        Option::Some(a) => a,
                        Option::None => Ai::Basic,
                    }
                    &&& num_turns == 3
                },
                _ => false,
            }
            &&& added.len() == 2
            &&& added[0].0@ == confuse_prompt()
            &&& added[0].1 == MessageType::Info
            &&& added[1].0@ == "The eyes of the "@ + a0[id].name@
                + " look vacant and it starts to stumble around!"@
            &&& added[1].1 == MessageType::Info
        },
    }
}

/// The prompt the stun item logs while a target is being chosen.
pub open spec fn confuse_prompt() -> Seq<char> {
    "Left-click an enemy to confuse it, or right-click to cancel."@
}

/// Wraps the chosen monster's behavior in a three-turn stun. Stunning
/// an already stunned monster nests: the earlier stun is preserved
/// underneath and resumes counting when the new one runs out.
pub fn cast_confuse(target: Option<usize>, game: &mut Game, actors: &mut Vec<Object>) -> (r:
    UseResult)
    requires
        match target {
            Option::Some(id) => 0 < id < old(actors)@.len(),
            Option::None => true,
        },
    ensures
        final(game).map == old(game).map,
        log_extends(old(game).log@, final(game).log@),
        confuse_rel(
            match target {
                Option::Some(id) => Option::Some(id as int),
                Option::None => Option::None,
            },
            old(actors)@,
            final(actors)@,
            added_msgs(old(game).log@, final(game).log@),
            r,
        ),
{
    game.log.info(
        "Left-click an enemy to confuse it, or right-click to cancel.".to_owned(),
    );
    proof {
        crate::log::lemma_log_push(old(game).log@, game.log@);
    }
    let ghost log1 = game.log@;
    match target {
        Option::Some(monster_id) => {
            let mut monster = actors.remove(monster_id);
            let old_ai = match clone_ai_opt(&monster.ai) {
                Option::Some(a) => a,
                Option::None => Ai::Basic,
            };
            monster.ai = Option::Some(
                Ai::Stunned { previous_ai: Box::new(old_ai), num_turns: 3 },
            );
            let mut text = "The eyes of the ".to_owned().concat(monster.name.as_str());
            text = text.concat(" look vacant and it starts to stumble around!");
            proof {
                assert(text@ =~= "The eyes of the "@ + old(actors)@[monster_id as int].name@
                    + " look vacant and it starts to stumble around!"@);
            }
            actors.insert(monster_id, monster);
            game.log.info(text);
            proof {
                crate::log::lemma_log_push(log1, game.log@);
                crate::log::lemma_log_trans(old(game).log@, log1, game.log@);
                assert(actors@ =~= old(actors)@.update(
                    monster_id as int,
                    actors@[monster_id as int],
                ));
                assert(added_msgs(old(game).log@, game.log@) =~= seq![log1.last()].push(
                    game.log@.last(),
                ));
            }
            UseResult::UsedUp
        },
        Option::None => {
            game.log.alert("No enemy is within range.".to_owned());
            proof {
                crate::log::lemma_log_push(log1, game.log@);
                crate::log::lemma_log_trans(old(game).log@, log1, game.log@);
                assert(added_msgs(old(game).log@, game.log@) =~= seq![log1.last()].push(
                    game.log@.last(),
                ));
            }
            UseResult::Cancelled
        },
    }
}

/// The molotov's burst catches the object: it stands within five cells
/// of the burst and has a fighter.
pub open spec fn fireball_hits(o: Object, x: int, y: int) -> bool {
    (x - o.x) * (x - o.x) + (y - o.y) * (y - o.y) <= 25 && o.fighter is Some
}

/// The prompt the molotov logs while a target tile is being chosen.
pub open spec fn fireball_prompt() -> Seq<char> {
    "Left-click a target tile for the molotov, or right-click to cancel."@
}

/// The object dies of `damage`: it has a fighter, is alive, and the
/// damage reaches its hit points.
pub open spec fn dies_of(o: Object, damage: int) -> bool {
    match o.fighter {
        Option::Some(f) => damage > 0 && damage >= f.hp && o.alive,
        Option::None => false,
    }
}

/// How many log entries one burned actor contributes: its burn message
/// and, when it dies of the burst, its death message.
pub open spec fn burn_seg_len(o: Object) -> int {
    1 + if dies_of(o, 10) {
        1int
    } else {
        0int
    }
}

/// The log position where actor `k`'s burn entries start: after the two
/// opening messages and every earlier burned actor's entries.
pub open spec fn burn_offset(a0: Seq<Object>, x: int, y: int, k: int) -> int
    decreases k,
{
    if k <= 0 {
        2
    } else {
        burn_offset(a0, x, y, k - 1) + if fireball_hits(a0[k - 1], x, y) {
            burn_seg_len(a0[k - 1])
        } else {
            0int
        }
    }
}

/// Burn offsets start behind the two opening messages.
proof fn lemma_burn_offset_ge2(a0: Seq<Object>, x: int, y: int, k: int)
    requires
        0 <= k,
    ensures
        2 <= burn_offset(a0, x, y, k),
    decreases k,
{
    if k > 0 {
        lemma_burn_offset_ge2(a0, x, y, k - 1);
    }
}

/// Burn offsets only grow along the actor list.
proof fn lemma_burn_offset_mono(a0: Seq<Object>, x: int, y: int, k1: int, k2: int)
    requires
        0 <= k1 <= k2,
    ensures
        burn_offset(a0, x, y, k1) <= burn_offset(a0, x, y, k2),
    decreases k2 - k1,
{
    if k1 < k2 {
        lemma_burn_offset_mono(a0, x, y, k1, k2 - 1);
    }
}

/// How the molotov relates the states: everything with a fighter within
/// its radius takes ten damage, the player included, and the log gains
/// one burn message per caught actor - with a death message where the
/// burst kills - in list order after the two opening messages.
pub open spec fn fireball_rel(
    target: Option<(int, int)>,
    a0: Seq<Object>,
    a1: Seq<Object>,
    added: Seq<(String, MessageType)>,
    r: UseResult,
) -> bool {
    match target {
        Option::None => {
            &&& r == UseResult::Cancelled
            &&& a1 == a0
            &&& one_msg(added, fireball_prompt(), MessageType::Info)
        },
        Option::Some((x, y)) => {
            &&& r == UseResult::UsedUp
            &&& a1.len() == a0.len()
            &&& forall|k: int|
                0 <= k < a0.len() ==> if fireball_hits(#[trigger] a0[k], x, y) {
                    take_damage_state_rel(a0[k], a1[k], 10)
                } else {
                    a1[k] == a0[k]
                }
            &&& added.len() == burn_offset(a0, x, y, a0.len() as int)
            &&& added[0].0@ == fireball_prompt()
            &&& added[0].1 == MessageType::Info
            &&& added[1].0@ == "The molotov explodes, burning everything within a 5 radius!"@
            &&& added[1].1 == MessageType::Success
            &&& forall|k: int|
                0 <= k < a0.len() && fireball_hits(#[trigger] a0[k], x, y) ==> {
                    let off = burn_offset(a0, x, y, k);
                    &&& added[off].0@ == "The "@ + a0[k].name@
                        + " gets burned for 10 hit points."@
                    &&& added[off].1 == MessageType::Success
                    &&& take_damage_msgs_rel(
                        a0[k],
                        added.subrange(off + 1, off + burn_seg_len(a0[k])),
                        10,
                    )
                }
        },
    }
}

/// Burns everything with a fighter within five cells of the target tile.
#[verifier::rlimit(60)]
pub fn cast_fireball(target: Option<(i32, i32)>, game: &mut Game, actors: &mut Vec<Object>) -> (r:
    UseResult)
    ensures
        final(game).map == old(game).map,
        log_extends(old(game).log@, final(game).log@),
        fireball_rel(
            match target {
                Option::Some((x, y)) => Option::Some((x as int, y as int)),
                Option::None => Option::None,
            },
            old(actors)@,
            final(actors)@,
            added_msgs(old(game).log@, final(game).log@),
            r,
        ),
{
    game.log.info(
        "Left-click a target tile for the molotov, or right-click to cancel.".to_owned(),
    );
    proof {
        crate::log::lemma_log_push(old(game).log@, game.log@);
    }
    let ghost log1 = game.log@;
    let (x, y) = match target {
        Option::Some(pos) => pos,
        Option::None => {
            return UseResult::Cancelled;
        },
    };
    game.log.success(
        "The molotov explodes, burning everything within a 5 radius!".to_owned(),
    );
    proof {
        crate::log::lemma_log_push(log1, game.log@);
        crate::log::lemma_log_trans(old(game).log@, log1, game.log@);
        assert(added_msgs(old(game).log@, game.log@) =~= seq![log1.last()].push(
            game.log@.last(),
        ));
    }
    let ghost a0 = actors@;
    let ghost log2 = game.log@;
    proof {
        crate::log::lemma_log_same(log2);
    }
    let ghost map0 = game.map;
    let mut k: usize = 0;
    while k < actors.len()
        invariant
            0 <= k <= a0.len(),
            game.map == map0,
            actors@.len() == a0.len(),
            forall|j: int| k as int <= j < a0.len() ==> actors@[j] == a0[j],
            forall|j: int|
                0 <= j < k as int ==> if fireball_hits(#[trigger] a0[j], x as int, y as int) {
                    take_damage_state_rel(a0[j], actors@[j], 10)
                } else {
                    actors@[j] == a0[j]
                },
            log_extends(old(game).log@, game.log@),
            log_extends(log2, game.log@),
            added_msgs(old(game).log@, log2).len() == 2,
            added_msgs(old(game).log@, log2) == added_msgs(old(game).log@, game.log@).take(2),
            added_msgs(old(game).log@, game.log@).len() == burn_offset(
                a0,
                x as int,
                y as int,
                k as int,
            ),
            forall|j: int|
                0 <= j < k as int && fireball_hits(#[trigger] a0[j], x as int, y as int) ==> {
                    let off = burn_offset(a0, x as int, y as int, j);
                    let added = added_msgs(old(game).log@, game.log@);
                    &&& added[off].0@ == "The "@ + a0[j].name@
                        + " gets burned for 10 hit points."@
                    &&& added[off].1 == MessageType::Success
                    &&& take_damage_msgs_rel(
                        a0[j],
                        added.subrange(off + 1, off + burn_seg_len(a0[j])),
                        10,
                    )
                },
        decreases a0.len() - k,
    {
        let ghost added_pre = added_msgs(old(game).log@, game.log@);
        let hit = actors[k].fighter.is_some() && actors[k].distance_sq(x, y) <= 25;
        if hit {
            let mut text = "The ".to_owned().concat(actors[k].name.as_str());
            text = text.concat(" gets burned for 10 hit points.");
            proof {
                assert(text@ =~= "The "@ + a0[k as int].name@
                    + " gets burned for 10 hit points."@);
            }
            let ghost logp = game.log@;
            game.log.success(text);
            proof {
                crate::log::lemma_log_push(logp, game.log@);
                crate::log::lemma_log_trans(log2, logp, game.log@);
                crate::log::lemma_log_trans(old(game).log@, logp, game.log@);
            }
            let ghost logq = game.log@;
            let ghost pre = actors@;
            let mut obj = actors.remove(k);
            obj.take_damage(10, &mut game.log);
            actors.insert(k, obj);
            proof {
                crate::log::lemma_log_trans(log2, logq, game.log@);
                crate::log::lemma_log_trans(old(game).log@, logq, game.log@);
                assert(actors@ =~= pre.update(k as int, actors@[k as int]));
                let added_now = added_msgs(old(game).log@, game.log@);
                let off = burn_offset(a0, x as int, y as int, k as int);
                lemma_burn_offset_ge2(a0, x as int, y as int, k as int);
                assert(added_msgs(old(game).log@, logq) == added_pre + added_msgs(logp, logq));
                assert(added_now == added_msgs(old(game).log@, logq) + added_msgs(
                    logq,
                    game.log@,
                ));
                assert(added_now[off] == logq.last());
                assert(added_now.subrange(off + 1, off + burn_seg_len(a0[k as int]))
                    =~= added_msgs(logq, game.log@));
                assert(added_now.take(2) =~= added_pre.take(2));
                assert forall|j: int|
                    0 <= j < k as int && fireball_hits(
                        #[trigger] a0[j],
                        x as int,
                        y as int,
                    ) implies ({
                    let offj = burn_offset(a0, x as int, y as int, j);
                    &&& added_now[offj].0@ == "The "@ + a0[j].name@
                        + " gets burned for 10 hit points."@
                    &&& added_now[offj].1 == MessageType::Success
                    &&& take_damage_msgs_rel(
                        a0[j],
                        added_now.subrange(offj + 1, offj + burn_seg_len(a0[j])),
                        10,
                    )
                }) by {
                    let offj = burn_offset(a0, x as int, y as int, j);
                    lemma_burn_offset_ge2(a0, x as int, y as int, j);
                    lemma_burn_offset_mono(a0, x as int, y as int, j + 1, k as int);
                    assert(offj + burn_seg_len(a0[j]) == burn_offset(a0, x as int, y as int, j + 1));
                    assert(added_now[offj] == added_pre[offj]);
                    assert(added_now.subrange(offj + 1, offj + burn_seg_len(a0[j]))
                        =~= added_pre.subrange(offj + 1, offj + burn_seg_len(a0[j])));
                }
            }
        } else {
            proof {
                assert(!fireball_hits(a0[k as int], x as int, y as int));
            }
        }
        k += 1;
    }
    proof {
        assert(added_msgs(old(game).log@, game.log@)[0] == added_msgs(
            old(game).log@,
            game.log@,
        ).take(2)[0]);
        assert(added_msgs(old(game).log@, game.log@)[1] == added_msgs(
            old(game).log@,
            game.log@,
        ).take(2)[1]);
    }
    UseResult::UsedUp
}

/// A live monster the lightning can see: not the player, with both its
/// fighter and behavior intact, standing in the field of view.
pub open spec fn lightning_candidate(s: Seq<Object>, fov: FovGrid, k: int) -> bool {
    &&& 0 <= k < s.len()
    &&& k != PLAYER as int
    &&& s[k].fighter is Some
    &&& s[k].ai is Some
    &&& in_fov_spec(fov, s[k].x as int, s[k].y as int)
}

/// `t` is the first closest candidate within the strike range.
pub open spec fn is_closest_monster(
    s: Seq<Object>,
    fov: FovGrid,
    max_range: int,
    t: int,
) -> bool {
    &&& lightning_candidate(s, fov, t)
    &&& dist_sq(s[PLAYER as int], s[t]) < (max_range + 1) * (max_range + 1)
    &&& forall|j: int|
        #[trigger] lightning_candidate(s, fov, j) ==> dist_sq(s[PLAYER as int], s[j]) > dist_sq(
            s[PLAYER as int],
            s[t],
        ) || (dist_sq(s[PLAYER as int], s[j]) == dist_sq(s[PLAYER as int], s[t]) && j >= t)
}

/// The nearest visible live monster within `max_range` of the player,
/// ties broken toward the earliest list position; nothing if none is
/// close enough.
pub fn closest_monster(max_range: i32, actors: &Vec<Object>, fov: &FovGrid) -> (r: Option<usize>)
    requires
        actors@.len() >= 1,
        0 <= max_range,
    ensures
        match r {
            Option::Some(t) => is_closest_monster(actors@, *fov, max_range as int, t as int),
            Option::None => forall|j: int|
                #[trigger] lightning_candidate(actors@, *fov, j) ==> dist_sq(
                    actors@[PLAYER as int],
                    actors@[j],
                ) >= (max_range + 1) * (max_range + 1),
        },
{
    let mut closest_enemy: Option<usize> = Option::None;
    proof {
        crate::object::lemma_small_square(max_range as int + 1);
    }
    let limit: i128 = (max_range as i128 + 1) * (max_range as i128 + 1);
    let mut closest_dist: i128 = limit;
    let mut id: usize = 0;
    while id < actors.len()
        invariant
            0 <= id <= actors@.len(),
            actors@.len() >= 1,
            limit == (max_range + 1) * (max_range + 1),
            0 <= max_range,
            match closest_enemy {
                Option::Some(t) => {
                    &&& lightning_candidate(actors@, *fov, t as int)
                    &&& (t as int) < id as int
                    &&& closest_dist == dist_sq(actors@[PLAYER as int], actors@[t as int])
                    &&& closest_dist < limit
                    &&& forall|j: int|
                        0 <= j < id as int && #[trigger] lightning_candidate(actors@, *fov, j)
                            ==> dist_sq(actors@[PLAYER as int], actors@[j]) > closest_dist || (
                        dist_sq(actors@[PLAYER as int], actors@[j]) == closest_dist && j
                            >= t as int)
                },
                Option::None => {
                    &&& closest_dist == limit
                    &&& forall|j: int|
                        0 <= j < id as int && #[trigger] lightning_candidate(actors@, *fov, j)
                            ==> dist_sq(actors@[PLAYER as int], actors@[j]) >= limit
                },
            },
        decreases actors@.len() - id,
    {
        let candidate = id != PLAYER && actors[id].fighter.is_some() && actors[id].ai.is_some()
            && crate::ai::in_fov(fov, actors[id].x, actors[id].y);
        if candidate {
            let dist = actors[PLAYER].distance_to_sq(&actors[id]);
            if dist < closest_dist {
                closest_enemy = Option::Some(id);
                closest_dist = dist;
            }
        }
        id += 1;
    }
    closest_enemy
}

/// `t` is the first actor other than the player with a fighter standing
/// at `(x, y)`.
pub open spec fn is_monster_at(s: Seq<Object>, x: int, y: int, t: int) -> bool {
    &&& 0 <= t < s.len()
    &&& t != PLAYER as int
    &&& s[t].fighter is Some
    &&& s[t].x == x
    &&& s[t].y == y
}

/// The monster a click on `(x, y)` selects: the first non-player actor
/// with a fighter standing there, or nothing.
pub fn target_monster(actors: &Vec<Object>, x: i32, y: i32) -> (r: Option<usize>)
    ensures
        match r {
            Option::Some(t) => is_monster_at(actors@, x as int, y as int, t as int)
                && forall|k: int| 0 <= k < t as int ==> !is_monster_at(actors@, x as int, y as int, k),
            Option::None => forall|k: int| !is_monster_at(actors@, x as int, y as int, k),
        },
{
    let mut id: usize = 0;
    while id < actors.len()
        invariant
            0 <= id <= actors@.len(),
            forall|k: int| 0 <= k < id as int ==> !is_monster_at(actors@, x as int, y as int, k),
        decreases actors@.len() - id,
    {
        if id != PLAYER && actors[id].fighter.is_some() && actors[id].x == x && actors[id].y
            == y {
            return Option::Some(id);
        }
        id += 1;
    }
    Option::None
}

/// How the lightning bolt relates the states: the closest visible
/// monster within ten cells takes ten damage; with none in range the
/// item is kept.
pub open spec fn lightning_rel(
    fov: FovGrid,
    a0: Seq<Object>,
    a1: Seq<Object>,
    added: Seq<(String, MessageType)>,
    r: UseResult,
) -> bool {
    if exists|t: int| is_closest_monster(a0, fov, 10, t) {
        exists|t: int|
            {
                &&& #[trigger] is_closest_monster(a0, fov, 10, t)
                &&& r == UseResult::UsedUp
                &&& a1.len() == a0.len()
                &&& forall|k: int| 0 <= k < a0.len() && k != t ==> a1[k] == a0[k]
                &&& take_damage_state_rel(a0[t], a1[t], 10)
                &&& added.len() >= 1
                &&& added[0].0@ == "A lightning bolt strikes the "@ + a0[t].name@
                    + " with loud thunder! The damage is 10 hit points."@
                &&& added[0].1 == MessageType::Success
                &&& take_damage_msgs_rel(a0[t], added.skip(1), 10)
            }
    } else {
        &&& r == UseResult::Cancelled
        &&& a1 == a0
        &&& one_msg(added, "No enemy is within range."@, MessageType::Alert)
    }
}

/// Strikes the closest visible monster within ten cells for ten damage.
pub fn cast_lightning(game: &mut Game, actors: &mut Vec<Object>, fov: &FovGrid) -> (r: UseResult)
    requires
        old(actors)@.len() >= 1,
    ensures
        final(game).map == old(game).map,
        log_extends(old(game).log@, final(game).log@),
        lightning_rel(
            *fov,
            old(actors)@,
            final(actors)@,
            added_msgs(old(game).log@, final(game).log@),
            r,
        ),
{
    let monster_id = closest_monster(10, actors, fov);
    match monster_id {
        Option::Some(t) => {
            let mut text = "A lightning bolt strikes the ".to_owned().concat(
                actors[t].name.as_str(),
            );
            text = text.concat(" with loud thunder! The damage is 10 hit points.");
            proof {
                assert(text@ =~= "A lightning bolt strikes the "@
                    + old(actors)@[t as int].name@
                    + " with loud thunder! The damage is 10 hit points."@);
            }
            game.log.success(text);
            proof {
                crate::log::lemma_log_push(old(game).log@, game.log@);
            }
            let ghost log1 = game.log@;
            let mut monster = actors.remove(t);
            monster.take_damage(10, &mut game.log);
            actors.insert(t, monster);
            proof {
                crate::log::lemma_log_trans(old(game).log@, log1, game.log@);
                assert(actors@ =~= old(actors)@.update(t as int, actors@[t as int]));
                assert(added_msgs(old(game).log@, game.log@)[0] == log1.last());
                assert(added_msgs(old(game).log@, game.log@).skip(1) =~= added_msgs(
                    log1,
                    game.log@,
                ));
                assert(is_closest_monster(old(actors)@, *fov, 10, t as int));
            }
            UseResult::UsedUp
        },
        Option::None => {
            game.log.alert("No enemy is within range.".to_owned());
            proof {
                crate::log::lemma_log_push(old(game).log@, game.log@);
                if exists|t: int| is_closest_monster(old(actors)@, *fov, 10, t) {
                    let t = choose|t: int| is_closest_monster(old(actors)@, *fov, 10, t);
                    assert(lightning_candidate(old(actors)@, *fov, t));
                    assert(false);
                }
            }
            UseResult::Cancelled
        },
    }
}

/// No item effect touches what the player carries: an effect may wound
/// or stun, but the carried list rides through unchanged.
pub proof fn lemma_use_keeps_player_inventory(
    f: Function,
    target: UseTarget,
    fov: FovGrid,
    a0: Seq<Object>,
    a1: Seq<Object>,
    added: Seq<(String, MessageType)>,
    r: UseResult,
)
    requires
        function_rel(f, target, fov, a0, a1, added, r),
        a0.len() >= 1,
    ensures
        a1.len() == a0.len(),
        a1[PLAYER as int].inventory == a0[PLAYER as int].inventory,
{
    match f {
        Function::Heal => {
        },
        Function::Confuse => {
        },
        Function::Fireball => {
            match fireball_target(target, fov) {
                Option::None => {},
                Option::Some((x, y)) => {
                    if fireball_hits(a0[PLAYER as int], x, y) {
                        crate::object::lemma_damage_keeps_inventory(
                            a0[PLAYER as int],
                            a1[PLAYER as int],
                            10,
                        );
                    }
                },
            }
        },
        Function::Lightning => {
            if exists|t: int| is_closest_monster(a0, fov, 10, t) {
                let t = choose|t: int| #[trigger] is_closest_monster(a0, fov, 10, t);
            }
        },
    }
}

} // verus!
