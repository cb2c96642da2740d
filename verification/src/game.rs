//! The world state one game carries between turns.

use vstd::prelude::*;
use vstd::string::StringExecFns;

use crate::actor::{DeathCallback, Fighter};
use crate::load::{has_class, of_type, total_weight, ObjectTypes};
use crate::log::{added_msgs, log_extends, MessageLog, MessageType, Messages};
use crate::map::{generated_level, make_map, map_wf, player_at_doorway, FloorMap, FovGrid};
use crate::object::{Blocks, Color, Object};

verus! {

/// The player's index in the actor list, an identity the whole game
/// preserves.
pub const PLAYER: usize = 0;

/// The world: the current floor's grid and the message log.
pub struct Game {
    pub map: FloorMap,
    pub log: Messages,
}

/// How the player's intent resolved this frame.
#[derive(Clone, Copy, Debug, PartialEq, Eq, Structural)]
pub enum PlayerAction {
    TookTurn,
    DidntTakeTurn,
    Exit,
}

/// The catalog entries a world needs to generate its floors: the two
/// terrain surfaces, both stairs fixtures, at least one door to draw,
/// and weights the draw arithmetic can hold.
pub open spec fn catalog_ready(items: ObjectTypes) -> bool {
    &&& has_class(items.classes(), "drywall"@)
    &&& has_class(items.classes(), "carpet"@)
    &&& has_class(items.classes(), "stairs"@)
    &&& has_class(items.classes(), "stairs up"@)
    &&& 0 < total_weight(of_type(items.classes(), "door"@)) <= u64::MAX
    &&& total_weight(of_type(items.classes(), "environmental weapon"@)) <= u64::MAX
}

/// Checks `catalog_ready` of a loaded catalog, so a caller can reject a
/// broken content file before generating anything from it.
pub fn check_catalog(items: &ObjectTypes) -> (r: bool)
    ensures
        r == catalog_ready(*items),
{
    let door_weight = items.category_weight("door");
    let weapon_weight = items.category_weight("environmental weapon");
    items.contains_class("drywall") && items.contains_class("carpet") && items.contains_class(
        "stairs",
    ) && items.contains_class("stairs up") && match door_weight {
        Option::Some(w) => w > 0,
        Option::None => false,
    } && weapon_weight.is_some()
}

/// Starts a fresh game: one player with the starting stats and an empty
/// inventory, a freshly generated building, and a greeting in the log.
pub fn new_game(item_types: &ObjectTypes, actor_types: &ObjectTypes) -> (r: (Vec<Object>, Game))
    requires
        catalog_ready(*item_types),
    ensures
        r.0@.len() == 1,
        ({
            let p = r.0@[0];
            &&& p.name@ == "player"@
            &&& p.symbol == '@'
            &&& p.alive == true
            &&& p.blocks == Blocks::Full
            &&& p.blocks_view == Blocks::No
            &&& p.fighter == Option::Some(
                Fighter {
                    max_hp: 30i32,
                    hp: 30i32,
                    defense: 2i32,
                    power: 5i32,
                    on_death: DeathCallback::Player,
                },
            )
            &&& p.ai is None
            &&& p.function is None
            &&& match p.inventory {
                Option::Some(v) => v@.len() == 0,
                Option::None => false,
            }
        }),
        map_wf(r.1.map),
        exists|rooms: Seq<crate::map::Rect>|
            #[trigger] generated_level(r.1.map, rooms, item_types.classes(), 0)
                && player_at_doorway(r.0@[0], rooms),
        r.1.log@.len() == 1,
        r.1.log@[0].0@ == "Meow!"@,
        r.1.log@[0].1 == MessageType::Info,
{
    let mut player = Object::new(
        4,
        4,
        '@',
        "player",
        Color { r: 255, g: 255, b: 255 },
        Blocks::Full,
        Blocks::No,
    );
    player.alive = true;
    player.fighter = Option::Some(
        Fighter { max_hp: 30, hp: 30, defense: 2, power: 5, on_death: DeathCallback::Player },
    );
    player.inventory = Option::Some(Vec::new());
    let mut actors: Vec<Object> = Vec::new();
    actors.push(player);
    let mut plan = make_map(&mut actors, item_types, actor_types);
    let first_floor = plan.remove(0);
    proof {
        assert(generated_level(first_floor.map, first_floor.rooms@, item_types.classes(), 0));
        assert(player_at_doorway(actors@[0], first_floor.rooms@));
    }
    let mut log: Messages = Vec::new();
    log.info("Meow!".to_owned());
    let game = Game { map: first_floor.map, log: log };
    (actors, game)
}

/// The AI sweep of one turn, as a relation: starting from `a0`, the
/// actors with indexes `start` up to `stop` act one after the other in
/// index order, each step an exact `turn_rel` of the list the previous
/// step left behind, and the appended log entries are their turns'
/// entries in the same order.
pub open spec fn sweep_rel(
    map: FloorMap,
    fov: FovGrid,
    a0: Seq<Object>,
    a1: Seq<Object>,
    added: Seq<(String, MessageType)>,
    start: int,
    stop: int,
) -> bool
    decreases stop - start,
{
    if start >= stop {
        a1 == a0 && added.len() == 0
    } else {
        exists|mid: Seq<Object>, n: int|
            {
                &&& 0 <= n <= added.len()
                &&& mid.len() == a0.len()
                &&& #[trigger] crate::ai::turn_rel(map, fov, a0, mid, added.take(n), start)
                &&& sweep_rel(map, fov, mid, a1, added.skip(n), start + 1, stop)
            }
    }
}

/// A sweep grows at its end: one more actor's turn after a sweep is
/// the sweep over the extended index range, with the turn's log
/// entries appended.
proof fn lemma_sweep_snoc(
    map: FloorMap,
    fov: FovGrid,
    a0: Seq<Object>,
    m1: Seq<Object>,
    m2: Seq<Object>,
    added1: Seq<(String, MessageType)>,
    added2: Seq<(String, MessageType)>,
    start: int,
    stop: int,
)
    requires
        start <= stop,
        sweep_rel(map, fov, a0, m1, added1, start, stop),
        crate::ai::turn_rel(map, fov, m1, m2, added2, stop),
        m1.len() == a0.len(),
    ensures
        sweep_rel(map, fov, a0, m2, added1 + added2, start, stop + 1),
    decreases stop - start,
{
    let whole = added1 + added2;
    if start == stop {
        assert(a0 == m1);
        assert(whole.take(whole.len() as int) =~= whole);
        assert(whole =~= added2);
        assert(crate::ai::turn_rel(map, fov, a0, m2, whole.take(whole.len() as int), start));
        assert(whole.skip(whole.len() as int).len() == 0);
        assert(sweep_rel(map, fov, m2, m2, whole.skip(whole.len() as int), start + 1, stop + 1));
        assert(m2.len() == a0.len());
    } else {
        let (mid, n) = choose|mid: Seq<Object>, n: int|
            {
                &&& 0 <= n <= added1.len()
                &&& mid.len() == a0.len()
                &&& #[trigger] crate::ai::turn_rel(map, fov, a0, mid, added1.take(n), start)
                &&& sweep_rel(map, fov, mid, m1, added1.skip(n), start + 1, stop)
            };
        lemma_sweep_snoc(map, fov, mid, m1, m2, added1.skip(n), added2, start + 1, stop);
        assert(whole.take(n) =~= added1.take(n));
        assert(whole.skip(n) =~= added1.skip(n) + added2);
        assert(crate::ai::turn_rel(map, fov, a0, mid, whole.take(n), start));
        assert(sweep_rel(map, fov, mid, m2, whole.skip(n), start + 1, stop + 1));
    }
}

/// Runs the behavior of every non-player actor once, in list index
/// order: exactly the sweep `sweep_rel` describes over indexes one up
/// to the end of the list. The player always acts first in a turn;
/// this sweep is what follows, and it can wound the player but never
/// move them.
pub fn run_ai_turns(game: &mut Game, actors: &mut Vec<Object>, fov: &FovGrid)
    requires
        map_wf(old(game).map),
        old(actors)@.len() >= 1,
    ensures
        final(game).map == old(game).map,
        log_extends(old(game).log@, final(game).log@),
        final(actors)@.len() == old(actors)@.len(),
        sweep_rel(
            old(game).map,
            *fov,
            old(actors)@,
            final(actors)@,
            added_msgs(old(game).log@, final(game).log@),
            1,
            old(actors)@.len() as int,
        ),
        final(actors)@[PLAYER as int].x == old(actors)@[PLAYER as int].x,
        final(actors)@[PLAYER as int].y == old(actors)@[PLAYER as int].y,
{
    proof {
        crate::log::lemma_log_same(old(game).log@);
    }
    let mut id: usize = 1;
    while id < actors.len()
        invariant
            1 <= id <= actors@.len(),
            map_wf(game.map),
            game.map == old(game).map,
            log_extends(old(game).log@, game.log@),
            actors@.len() == old(actors)@.len(),
            actors@.len() >= 1,
            sweep_rel(
                old(game).map,
                *fov,
                old(actors)@,
                actors@,
                added_msgs(old(game).log@, game.log@),
                1,
                id as int,
            ),
            actors@[PLAYER as int].x == old(actors)@[PLAYER as int].x,
            actors@[PLAYER as int].y == old(actors)@[PLAYER as int].y,
        decreases actors@.len() - id,
    {
        let ghost log_pre = game.log@;
        let ghost pre = actors@;
        let has_ai = actors[id].ai.is_some();
        if has_ai {
            crate::ai::take_turn(id, game, actors, fov);
            proof {
                crate::log::lemma_log_trans(old(game).log@, log_pre, game.log@);
                lemma_turn_keeps_player_position(
                    game.map,
                    *fov,
                    pre,
                    actors@,
                    added_msgs(log_pre, game.log@),
                    id as int,
                );
                lemma_sweep_snoc(
                    old(game).map,
                    *fov,
                    old(actors)@,
                    pre,
                    actors@,
                    added_msgs(old(game).log@, log_pre),
                    added_msgs(log_pre, game.log@),
                    1,
                    id as int,
                );
                assert(added_msgs(old(game).log@, game.log@) == added_msgs(
                    old(game).log@,
                    log_pre,
                ) + added_msgs(log_pre, game.log@));
            }
        } else {
            proof {
                let empty_added = Seq::<(String, MessageType)>::empty();
                assert(crate::ai::turn_rel(game.map, *fov, pre, pre, empty_added, id as int));
                lemma_sweep_snoc(
                    old(game).map,
                    *fov,
                    old(actors)@,
                    pre,
                    pre,
                    added_msgs(old(game).log@, game.log@),
                    empty_added,
                    1,
                    id as int,
                );
                assert(added_msgs(old(game).log@, game.log@) + empty_added =~= added_msgs(
                    old(game).log@,
                    game.log@,
                ));
            }
        }
        id += 1;
    }
}

/// One monster's turn never displaces the player, whatever behavior it
/// ran: the only thing it can do to the player is deal damage, and
/// damage keeps positions.
proof fn lemma_turn_keeps_player_position(
    map: FloorMap,
    fov: FovGrid,
    a0: Seq<Object>,
    a1: Seq<Object>,
    added: Seq<(String, MessageType)>,
    id: int,
)
    requires
        0 < id < a0.len(),
        crate::ai::turn_rel(map, fov, a0, a1, added, id),
    ensures
        a1[PLAYER as int].x == a0[PLAYER as int].x,
        a1[PLAYER as int].y == a0[PLAYER as int].y,
{
    match a0[id].ai {
        Option::None => {},
        Option::Some(a) => match a {
            crate::ai::Ai::Basic => {
                if crate::ai::in_fov_spec(fov, a0[id].x as int, a0[id].y as int) {
                    crate::ai::lemma_chase_keeps_player_position(map, a0, a1, added, id);
                } else {
                    let (dx, dy) = choose|dx: int, dy: int|
                        -1 <= dx <= 1 && -1 <= dy <= 1 && #[trigger] crate::actor::move_by_rel(
                            map,
                            a0,
                            a1,
                            id,
                            dx,
                            dy,
                        ) && added.len() == 0;
                }
            },
            crate::ai::Ai::Chrysalis => {
                if crate::ai::in_fov_spec(fov, a0[id].x as int, a0[id].y as int) {
                    crate::ai::lemma_chase_keeps_player_position(map, a0, a1, added, id);
                }
            },
            crate::ai::Ai::Stunned { .. } => {},
        },
    }
}

/// Descends to a fresh floor: the building regenerates around the
/// preserved player, and the log carries over.
pub fn next_level(
    game: &mut Game,
    actors: &mut Vec<Object>,
    item_types: &ObjectTypes,
    actor_types: &ObjectTypes,
)
    requires
        old(actors)@.len() >= 1,
        catalog_ready(*item_types),
    ensures
        map_wf(final(game).map),
        exists|rooms: Seq<crate::map::Rect>|
            #[trigger] generated_level(final(game).map, rooms, item_types.classes(), 0)
                && player_at_doorway(final(actors)@[0], rooms),
        final(game).log == old(game).log,
        final(actors)@.len() == 1,
        final(actors)@[0] == (Object {
            x: final(actors)@[0].x,
            y: final(actors)@[0].y,
            ..old(actors)@[0]
        }),
{
    let mut plan = make_map(actors, item_types, actor_types);
    let first_floor = plan.remove(0);
    game.map = first_floor.map;
    proof {
        assert(generated_level(game.map, first_floor.rooms@, item_types.classes(), 0));
        assert(player_at_doorway(actors@[0], first_floor.rooms@));
    }
}

} // verus!
