//! Per-monster behavior: a small state machine run once per turn for every
//! live actor that carries an `Ai` component.

use vstd::prelude::*;
use vstd::string::StringExecFns;

use crate::actor::{attack_between, move_by, move_by_rel, move_towards, step1};
use crate::game::{Game, PLAYER};
use crate::log::{added_msgs, log_extends, one_msg, MessageLog, MessageType};
use crate::map::{map_wf, FloorMap, FovGrid};
use crate::object::{attack_rel, Object};
use crate::rng::rand_range_i32;

verus! {

/// One monster's behavior state. `Stunned` wraps the behavior it will
/// restore once its counter runs out, so the type is recursive.
#[derive(Debug, PartialEq, Eq)]
pub enum Ai {
    Basic,
    Chrysalis,
    Stunned { previous_ai: Box<Ai>, num_turns: i32 },
}

impl Clone for Ai {
    /// A deep copy that keeps the value.
    fn clone(&self) -> (r: Ai)
        ensures
            r == *self,
    {
        clone_ai(self)
    }
}

/// A deep copy of a behavior state.
pub fn clone_ai(ai: &Ai) -> (r: Ai)
    ensures
        r == *ai,
    decreases *ai,
{
    match ai {
        Ai::Basic => Ai::Basic,
        Ai::Chrysalis => Ai::Chrysalis,
        Ai::Stunned { previous_ai, num_turns } => Ai::Stunned {
            previous_ai: Box::new(clone_ai(previous_ai)),
            num_turns: *num_turns,
        },
    }
}

/// A deep copy of an optional behavior state.
pub fn clone_ai_opt(ai: &Option<Ai>) -> (r: Option<Ai>)
    ensures
        r == *ai,
{
    match ai {
        Option::None => Option::None,
        Option::Some(a) => Option::Some(clone_ai(a)),
    }
}

/// How the stun counter evolves in one turn: a stunned state counts its
/// counter down, and unwraps back to the state it preserved once the
/// counter has gone negative; the other states keep themselves.
pub open spec fn ai_step(a: Ai) -> Ai {
    match a {
        Ai::Basic => Ai::Basic,
        Ai::Chrysalis => Ai::Chrysalis,
        Ai::Stunned { previous_ai, num_turns } => if num_turns >= 0 {
            Ai::Stunned { previous_ai, num_turns: (num_turns - 1) as i32 }
        } else {
            *previous_ai
        },
    }
}

/// Stunning is a round trip: wrapping any behavior in a stun with no
/// turns left and stepping twice restores exactly the wrapped behavior,
/// with no information lost.
pub proof fn lemma_stun_round_trip(previous: Box<Ai>)
    ensures
        ai_step(ai_step(Ai::Stunned { previous_ai: previous, num_turns: 0 }))
            == *previous,
{
}

/// The display layer's field of view marks `(x, y)` visible.
pub open spec fn in_fov_spec(fov: FovGrid, x: int, y: int) -> bool {
    &&& 0 <= x < fov@.len()
    &&& 0 <= y < fov@[x]@.len()
    &&& fov@[x]@[y]
}

/// Looks up a cell in the field-of-view grid; anything off the grid
/// counts as not visible.
pub fn in_fov(fov: &FovGrid, x: i32, y: i32) -> (r: bool)
    ensures
        r == in_fov_spec(*fov, x as int, y as int),
{
    x >= 0 && (x as usize) < fov.len() && y >= 0 && (y as usize) < fov[x as usize].len()
        && fov[x as usize][y as usize]
}

/// The object has a fighter with hit points left.
pub open spec fn fighter_hp_positive(o: Object) -> bool {
    match o.fighter {
        Option::Some(f) => f.hp > 0,
        Option::None => false,
    }
}

/// The squared distance between two objects' positions.
pub open spec fn dist_sq(a: Object, b: Object) -> int {
    (b.x - a.x) * (b.x - a.x) + (b.y - a.y) * (b.y - a.y)
}

/// What a monster does when it can see the player: two or more tiles
/// away it steps toward the player; in melee range it attacks a player
/// who still has hit points, and stands over a downed one.
pub open spec fn chase_rel(
    map: FloorMap,
    a0: Seq<Object>,
    a1: Seq<Object>,
    added: Seq<(String, MessageType)>,
    id: int,
) -> bool {
    let m = a0[id];
    let p = a0[PLAYER as int];
    if dist_sq(m, p) >= 4 {
        &&& move_by_rel(map, a0, a1, id, step1(p.x - m.x, p.y - m.y), step1(p.y - m.y, p.x - m.x))
        &&& added.len() == 0
    } else if fighter_hp_positive(p) {
        &&& a1.len() == a0.len()
        &&& forall|k: int| 0 <= k < a0.len() && k != PLAYER as int ==> a1[k] == a0[k]
        &&& attack_rel(a0[id], a0[PLAYER as int], a1[PLAYER as int], added)
    } else {
        &&& a1 == a0
        &&& added.len() == 0
    }
}

/// A monster's turn leaves the player standing where they were: the
/// chase may wound the player but never displaces them.
pub proof fn lemma_chase_keeps_player_position(
    map: FloorMap,
    a0: Seq<Object>,
    a1: Seq<Object>,
    added: Seq<(String, MessageType)>,
    id: int,
)
    requires
        chase_rel(map, a0, a1, added, id),
        0 < id < a0.len(),
    ensures
        a1.len() == a0.len(),
        a1[PLAYER as int].x == a0[PLAYER as int].x,
        a1[PLAYER as int].y == a0[PLAYER as int].y,
{
    let m = a0[id];
    let p = a0[PLAYER as int];
    if dist_sq(m, p) >= 4 {
    } else if fighter_hp_positive(p) {
        crate::object::lemma_attack_keeps_position(
            a0[id],
            a0[PLAYER as int],
            a1[PLAYER as int],
            added,
        );
    } else {
    }
}

/// Chases or attacks the player, as `chase_rel` says.
fn chase_or_attack(monster_id: usize, game: &mut Game, actors: &mut Vec<Object>)
    requires
        map_wf(old(game).map),
        0 < monster_id < old(actors)@.len(),
    ensures
        final(game).map == old(game).map,
        log_extends(old(game).log@, final(game).log@),
        chase_rel(
            old(game).map,
            old(actors)@,
            final(actors)@,
            added_msgs(old(game).log@, final(game).log@),
            monster_id as int,
        ),
{
    let d2: i128 = actors[monster_id].distance_to_sq(&actors[PLAYER]);
    if d2 >= 4 {
        let px = actors[PLAYER].x;
        let py = actors[PLAYER].y;
        move_towards(monster_id, px, py, &game.map, actors);
        proof {
            crate::log::lemma_log_same(old(game).log@);
        }
    } else {
        let player_up = match &actors[PLAYER].fighter {
            Option::Some(f) => f.hp > 0,
            Option::None => false,
        };
        if player_up {
            attack_between(actors, monster_id, PLAYER, &mut game.log);
        } else {
            proof {
                crate::log::lemma_log_same(old(game).log@);
            }
        }
    }
}

/// One random single-step move: each axis draws from `{-1, 0, 1}`
/// independently, so the step may be diagonal or a stand-still.
fn move_randomly(monster_id: usize, map: &FloorMap, actors: &mut Vec<Object>)
    requires
        map_wf(*map),
        monster_id < old(actors)@.len(),
    ensures
        exists|dx: int, dy: int|
            -1 <= dx <= 1 && -1 <= dy <= 1 && #[trigger] move_by_rel(
                *map,
                old(actors)@,
                final(actors)@,
                monster_id as int,
                dx,
                dy,
            ),
{
    let dx = rand_range_i32(-1, 2);
    let dy = rand_range_i32(-1, 2);
    move_by(monster_id, dx, dy, map, actors);
}

/// Overwrites one actor's behavior state, leaving everything else of the
/// actor and the list as it was.
fn set_actor_ai(actors: &mut Vec<Object>, id: usize, ai: Option<Ai>)
    requires
        id < old(actors)@.len(),
    ensures
        final(actors)@ == old(actors)@.update(
            id as int,
            Object { ai: ai, ..old(actors)@[id as int] },
        ),
{
    let mut o = actors.remove(id);
    o.ai = ai;
    actors.insert(id, o);
    proof {
        assert(actors@ =~= old(actors)@.update(
            id as int,
            Object { ai: ai, ..old(actors)@[id as int] },
        ));
    }
}

/// Everything one monster's turn does, as a relation between the actor
/// lists and the appended log entries: only the monster itself and the
/// player can change; the behavior left behind is `ai_step` of the one
/// consumed; `Basic` hunts a visible player and wanders blindly
/// otherwise, `Chrysalis` hunts but never wanders, and `Stunned` only
/// counts down, restoring the preserved behavior once the counter has
/// run out. An actor without a behavior state does nothing.
pub open spec fn turn_rel(
    map: FloorMap,
    fov: FovGrid,
    a0: Seq<Object>,
    a1: Seq<Object>,
    added: Seq<(String, MessageType)>,
    id: int,
) -> bool {
    &&& a1.len() == a0.len()
    &&& forall|k: int|
        0 <= k < a0.len() && k != id && k != PLAYER as int ==> a1[k] == a0[k]
    &&& match a0[id].ai {
        Option::None => a1 == a0 && added.len() == 0,
        Option::Some(a) => {
            &&& a1[id].ai == Option::Some(ai_step(a))
            &&& match a {
                Ai::Basic => if in_fov_spec(fov, a0[id].x as int, a0[id].y as int) {
                    chase_rel(map, a0, a1, added, id)
                } else {
                    exists|dx: int, dy: int|
                        -1 <= dx <= 1 && -1 <= dy <= 1 && #[trigger] move_by_rel(
                            map,
                            a0,
                            a1,
                            id,
                            dx,
                            dy,
                        ) && added.len() == 0
                },
                Ai::Chrysalis => if in_fov_spec(fov, a0[id].x as int, a0[id].y as int) {
                    chase_rel(map, a0, a1, added, id)
                } else {
                    a1 == a0 && added.len() == 0
                },
                Ai::Stunned { previous_ai, num_turns } => {
                    &&& a1 == a0.update(id, Object { ai: Option::Some(ai_step(a)), ..a0[id] })
                    &&& if num_turns >= 0 {
                        one_msg(
                            added,
                            "The "@ + a0[id].name@ + " is stunned!"@,
                            MessageType::StatusChange,
                        )
                    } else {
                        one_msg(
                            added,
                            "The "@ + a0[id].name@ + " is no longer stunned!"@,
                            MessageType::StatusChange,
                        )
                    }
                },
            }
        },
    }
}

/// Runs one turn of the behavior a monster currently carries, exactly
/// as `turn_rel` describes.
pub fn take_turn(monster_id: usize, game: &mut Game, actors: &mut Vec<Object>, fov: &FovGrid)
    requires
        map_wf(old(game).map),
        0 < monster_id < old(actors)@.len(),
    ensures
        final(game).map == old(game).map,
        log_extends(old(game).log@, final(game).log@),
        turn_rel(
            old(game).map,
            *fov,
            old(actors)@,
            final(actors)@,
            added_msgs(old(game).log@, final(game).log@),
            monster_id as int,
        ),
{
    let ai_opt = clone_ai_opt(&actors[monster_id].ai);
    match ai_opt {
        Option::None => {
            proof {
                crate::log::lemma_log_same(old(game).log@);
            }
        },
        Option::Some(ai) => {
            let ghost a_spec = ai;
            let new_ai = match ai {
                Ai::Basic => basic(monster_id, game, actors, fov),
                Ai::Chrysalis => chrysalis(monster_id, game, actors, fov),
                Ai::Stunned { previous_ai, num_turns } => stunned(
                    monster_id,
                    game,
                    actors,
                    previous_ai,
                    num_turns,
                ),
            };
            let ghost gnew = new_ai;
            let ghost mid = actors@;
            set_actor_ai(actors, monster_id, Option::Some(new_ai));
            proof {
                let id = monster_id as int;
                assert(gnew == ai_step(a_spec));
                if mid[id].ai == Option::Some(gnew) {
                    assert(Object { ai: Option::Some(gnew), ..mid[id] } == mid[id]);
                    assert(mid.update(id, mid[id]) =~= mid);
                }
            }
        },
    }
}

/// The default hunter: pursues or attacks a visible player, wanders one
/// random step otherwise, and always stays `Basic`.
fn basic(monster_id: usize, game: &mut Game, actors: &mut Vec<Object>, fov: &FovGrid) -> (r: Ai)
    requires
        map_wf(old(game).map),
        0 < monster_id < old(actors)@.len(),
    ensures
        r == Ai::Basic,
        final(game).map == old(game).map,
        log_extends(old(game).log@, final(game).log@),
        ({
            let a0 = old(actors)@;
            let a1 = final(actors)@;
            let added = added_msgs(old(game).log@, final(game).log@);
            let id = monster_id as int;
            if in_fov_spec(*fov, a0[id].x as int, a0[id].y as int) {
                chase_rel(old(game).map, a0, a1, added, id)
            } else {
                exists|dx: int, dy: int|
                    -1 <= dx <= 1 && -1 <= dy <= 1 && #[trigger] move_by_rel(
                        old(game).map,
                        a0,
                        a1,
                        id,
                        dx,
                        dy,
                    ) && added.len() == 0
            }
        }),
{
    let mx = actors[monster_id].x;
    let my = actors[monster_id].y;
    if in_fov(fov, mx, my) {
        chase_or_attack(monster_id, game, actors);
    } else {
        move_randomly(monster_id, &game.map, actors);
        proof {
            crate::log::lemma_log_same(old(game).log@);
        }
    }
    Ai::Basic
}

/// The dormant variant: identical to `Basic` toward a visible player,
/// but it never wanders while unseen, and always stays `Chrysalis`.
fn chrysalis(monster_id: usize, game: &mut Game, actors: &mut Vec<Object>, fov: &FovGrid) -> (r:
    Ai)
    requires
        map_wf(old(game).map),
        0 < monster_id < old(actors)@.len(),
    ensures
        r == Ai::Chrysalis,
        final(game).map == old(game).map,
        log_extends(old(game).log@, final(game).log@),
        ({
            let a0 = old(actors)@;
            let a1 = final(actors)@;
            let added = added_msgs(old(game).log@, final(game).log@);
            let id = monster_id as int;
            if in_fov_spec(*fov, a0[id].x as int, a0[id].y as int) {
                chase_rel(old(game).map, a0, a1, added, id)
            } else {
                a1 == a0 && added.len() == 0
            }
        }),
{
    let mx = actors[monster_id].x;
    let my = actors[monster_id].y;
    if in_fov(fov, mx, my) {
        chase_or_attack(monster_id, game, actors);
    } else {
        proof {
            crate::log::lemma_log_same(old(game).log@);
        }
    }
    Ai::Chrysalis
}

/// The stunned state: it logs its condition and counts down; once the
/// counter has gone negative it hands back the preserved behavior.
fn stunned(
    monster_id: usize,
    game: &mut Game,
    actors: &Vec<Object>,
    previous_ai: Box<Ai>,
    num_turns: i32,
) -> (r: Ai)
    requires
        monster_id < actors@.len(),
    ensures
        final(game).map == old(game).map,
        log_extends(old(game).log@, final(game).log@),
        r == ai_step(Ai::Stunned { previous_ai: previous_ai, num_turns: num_turns }),
        if num_turns >= 0 {
            one_msg(
                added_msgs(old(game).log@, final(game).log@),
                "The "@ + actors@[monster_id as int].name@ + " is stunned!"@,
                MessageType::StatusChange,
            )
        } else {
            one_msg(
                added_msgs(old(game).log@, final(game).log@),
                "The "@ + actors@[monster_id as int].name@ + " is no longer stunned!"@,
                MessageType::StatusChange,
            )
        },
{
    if num_turns >= 0 {
        let text = "The ".to_owned().concat(actors[monster_id].name.as_str()).concat(
            " is stunned!",
        );
        proof {
            assert(text@ =~= "The "@ + actors@[monster_id as int].name@ + " is stunned!"@);
        }
        game.log.status_change(text);
        proof {
            crate::log::lemma_log_push(old(game).log@, game.log@);
        }
        Ai::Stunned { previous_ai: previous_ai, num_turns: num_turns - 1 }
    } else {
        let text = "The ".to_owned().concat(actors[monster_id].name.as_str()).concat(
            " is no longer stunned!",
        );
        proof {
            assert(text@ =~= "The "@ + actors@[monster_id as int].name@
                + " is no longer stunned!"@);
        }
        game.log.status_change(text);
        proof {
            crate::log::lemma_log_push(old(game).log@, game.log@);
        }
        *previous_ai
    }
}

} // verus!
