//! The tile grid of one floor and its layered blocking model.

use vstd::prelude::*;

use crate::load::{first_class_at, has_class, of_type, total_weight, ObjectTypes};
use crate::object::{
    instantiates, level_max, Blocks, Object, ObjectClass,
};
use crate::path::{
    lemma_reach_horizontal, lemma_reach_mono, lemma_reach_rect, lemma_reach_self,
    lemma_reach_sym, lemma_reach_trans, lemma_reach_vertical, open_cell, reach,
};
use crate::rng::{rand_index, rand_range_i32};

verus! {

pub const MAP_WIDTH: i32 = 80;
pub const MAP_HEIGHT: i32 = 43;

pub const FLOOR_WIDTH: i32 = 30;
pub const FLOOR_HEIGHT: i32 = 30;

pub const ROOM_MAX_SIZE: i32 = 10;
pub const ROOM_MIN_X: i32 = 8;
pub const ROOM_MIN_Y: i32 = 8;
pub const MAX_ROOMS: i32 = 30;

pub const MAX_ROOM_MONSTERS: i32 = 3;
pub const MAX_ROOM_ITEMS: i32 = 4;

/// The kinds of buildings a plan may describe.
pub enum BuildingType {
    LargeHome,
    SmallHome,
    Office,
    ApartmentComplex,
    OfficeComplex,
    Store,
}

/// One grid cell: a floor surface, whether the player has ever seen it,
/// and the stack of objects placed on it.
#[derive(Debug)]
pub struct Tile {
    pub floor: Object,
    pub explored: bool,
    pub items: Vec<Object>,
}

impl Tile {
    /// A fresh, empty tile over the given floor surface.
    pub fn new(floor: &ObjectClass) -> (t: Tile)
        ensures
            instantiates(t.floor, *floor),
            t.explored == false,
            t.items@ == Seq::<Object>::empty(),
    {
        Tile { floor: floor.create_object(), explored: false, items: Vec::new() }
    }
}

/// A floor's grid of tiles, indexed `map[x][y]`.
pub type FloorMap = Vec<Vec<Tile>>;

/// Per-cell visibility, as the display layer's field-of-view hands it in.
pub type FovGrid = Vec<Vec<bool>>;

/// The grid has exactly the fixed floor dimensions.
pub open spec fn map_wf(map: FloorMap) -> bool {
    &&& map@.len() == FLOOR_WIDTH as int
    &&& forall|x: int| 0 <= x < map@.len() ==> (#[trigger] map@[x])@.len() == FLOOR_HEIGHT as int
}

/// Whether a grid has exactly the fixed floor dimensions; the check a
/// caller runs before trusting a deserialized grid.
pub fn grid_ok(map: &FloorMap) -> (r: bool)
    ensures
        r == map_wf(*map),
{
    if map.len() != FLOOR_WIDTH as usize {
        return false;
    }
    let mut x: usize = 0;
    while x < map.len()
        invariant
            0 <= x <= map@.len(),
            map@.len() == FLOOR_WIDTH as int,
            forall|k: int| 0 <= k < x as int ==> (#[trigger] map@[k])@.len() == FLOOR_HEIGHT as int,
        decreases map@.len() - x,
    {
        if map[x].len() != FLOOR_HEIGHT as usize {
            return false;
        }
        x += 1;
    }
    true
}

/// The cell lies on the grid.
pub open spec fn in_grid(x: int, y: int) -> bool {
    0 <= x < FLOOR_WIDTH as int && 0 <= y < FLOOR_HEIGHT as int
}

/// One floor: its grid and the rooms carved during generation (kept for
/// object placement; not needed once the floor is populated).
pub struct Floor {
    pub map: FloorMap,
    pub rooms: Vec<Rect>,
}

/// A whole building: one floor per level.
pub type BuildingPlan = Vec<Floor>;

/// An axis-aligned rectangle; the cells are `[x1, x2) x [y1, y2)`.
#[derive(Clone, Copy, Debug, PartialEq, Eq, Structural)]
pub struct Rect {
    pub x1: i32,
    pub y1: i32,
    pub x2: i32,
    pub y2: i32,
}

impl Rect {
    /// The rectangle of width `w` and height `h` with corner `(x, y)`.
    pub fn new(x: i32, y: i32, w: i32, h: i32) -> (r: Rect)
        requires
            i32::MIN as int <= x + w <= i32::MAX as int,
            i32::MIN as int <= y + h <= i32::MAX as int,
        ensures
            r == (Rect { x1: x, y1: y, x2: (x + w) as i32, y2: (y + h) as i32 }),
    {
        Rect { x1: x, y1: y, x2: x + w, y2: y + h }
    }

    /// The rectangle's central cell.
    pub fn center(&self) -> (c: (i32, i32))
        requires
            0 <= self.x1,
            0 <= self.y1,
            0 <= self.x2,
            0 <= self.y2,
        ensures
            c.0 == (self.x1 + self.x2) as int / 2,
            c.1 == (self.y1 + self.y2) as int / 2,
    {
        let cx: i32 = ((self.x1 as i64 + self.x2 as i64) / 2) as i32;
        let cy: i32 = ((self.y1 as i64 + self.y2 as i64) / 2) as i32;
        (cx, cy)
    }

    /// Whether the two rectangles' closed bounds overlap.
    pub fn intersects_with(&self, other: &Rect) -> (r: bool)
        ensures
            r == (self.x1 <= other.x2 && self.x2 >= other.x1 && self.y1 <= other.y2
                && self.y2 >= other.y1),
    {
        (self.x1 <= other.x2) && (self.x2 >= other.x1) && (self.y1 <= other.y2) && (self.y2
            >= other.y1)
    }
}

/// The blocking level an object contributes, for movement or for sight.
pub open spec fn obj_block(o: Object, for_sight: bool) -> int {
    if for_sight {
        o.blocks_view.level()
    } else {
        o.blocks.level()
    }
}

/// The strongest blocking level among the actors standing on cell
/// `(x, y)`.
pub open spec fn actors_block(actors: Seq<Object>, x: int, y: int, for_sight: bool) -> int
    decreases actors.len(),
{
    if actors.len() == 0 {
        0
    } else {
        level_max(
            actors_block(actors.drop_last(), x, y, for_sight),
            if actors.last().x == x && actors.last().y == y {
                obj_block(actors.last(), for_sight)
            } else {
                0
            },
        )
    }
}

/// The strongest blocking level among the objects of one tile's stack.
pub open spec fn items_block(items: Seq<Object>, for_sight: bool) -> int
    decreases items.len(),
{
    if items.len() == 0 {
        0
    } else {
        level_max(items_block(items.drop_last(), for_sight), obj_block(items.last(), for_sight))
    }
}

/// The combined blocking level of a cell: every stacked object and every
/// actor standing there contributes, and the most restrictive wins.
pub open spec fn cell_block(
    map: FloorMap,
    actors: Seq<Object>,
    x: int,
    y: int,
    for_sight: bool,
) -> int {
    level_max(actors_block(actors, x, y, for_sight), items_block(map@[x]@[y].items@, for_sight))
}

proof fn lemma_actors_block_bound(actors: Seq<Object>, x: int, y: int, for_sight: bool)
    ensures
        0 <= actors_block(actors, x, y, for_sight) <= 2,
    decreases actors.len(),
{
    if actors.len() > 0 {
        lemma_actors_block_bound(actors.drop_last(), x, y, for_sight);
    }
}

proof fn lemma_items_block_bound(items: Seq<Object>, for_sight: bool)
    ensures
        0 <= items_block(items, for_sight) <= 2,
    decreases items.len(),
{
    if items.len() > 0 {
        lemma_items_block_bound(items.drop_last(), for_sight);
    }
}

proof fn lemma_actors_block_prefix(actors: Seq<Object>, i: int, x: int, y: int, for_sight: bool)
    requires
        0 <= i <= actors.len(),
    ensures
        actors_block(actors.take(i), x, y, for_sight) <= actors_block(actors, x, y, for_sight),
    decreases actors.len(),
{
    if i == actors.len() {
        assert(actors.take(i) =~= actors);
    } else {
        assert(actors.drop_last().take(i) =~= actors.take(i));
        lemma_actors_block_prefix(actors.drop_last(), i, x, y, for_sight);
    }
}

proof fn lemma_items_block_prefix(items: Seq<Object>, i: int, for_sight: bool)
    requires
        0 <= i <= items.len(),
    ensures
        items_block(items.take(i), for_sight) <= items_block(items, for_sight),
    decreases items.len(),
{
    if i == items.len() {
        assert(items.take(i) =~= items);
    } else {
        assert(items.drop_last().take(i) =~= items.take(i));
        lemma_items_block_prefix(items.drop_last(), i, for_sight);
    }
}

proof fn lemma_items_block_ge_elem(items: Seq<Object>, i: int, for_sight: bool)
    requires
        0 <= i < items.len(),
    ensures
        items_block(items, for_sight) >= obj_block(items[i], for_sight),
    decreases items.len(),
{
    if i < items.len() - 1 {
        lemma_items_block_ge_elem(items.drop_last(), i, for_sight);
    }
}

/// A cell's combined blocking level is never less restrictive than the
/// level of any single object stacked on it, whatever actors stand
/// there.
pub proof fn lemma_cell_block_ge_item(
    map: FloorMap,
    actors: Seq<Object>,
    x: int,
    y: int,
    i: int,
    for_sight: bool,
)
    requires
        in_grid(x, y),
        map_wf(map),
        0 <= i < map@[x]@[y].items@.len(),
    ensures
        cell_block(map, actors, x, y, for_sight) >= obj_block(map@[x]@[y].items@[i], for_sight),
{
    lemma_items_block_ge_elem(map@[x]@[y].items@, i, for_sight);
    lemma_actors_block_bound(actors, x, y, for_sight);
}

/// Adding an object to a tile's stack never weakens the stack's blocking
/// level; and once any stacked object blocks fully, the cell's combined
/// level is full no matter which actors stand there.
pub proof fn lemma_blocking_monotonic(
    items: Seq<Object>,
    item: Object,
    actors: Seq<Object>,
    x: int,
    y: int,
    for_sight: bool,
)
    ensures
        items_block(items.push(item), for_sight) >= items_block(items, for_sight),
        obj_block(item, for_sight) == 2 ==> level_max(
            actors_block(actors, x, y, for_sight),
            items_block(items.push(item), for_sight),
        ) == 2,
{
    assert(items.push(item).drop_last() =~= items);
    assert(items.push(item).last() == item);
    lemma_items_block_bound(items.push(item), for_sight);
    lemma_actors_block_bound(actors, x, y, for_sight);
}

/// Adds an object to the stack of the tile at `(x, y)`; everything else
/// on the grid stays as it is.
pub fn tile_push_item(map: &mut FloorMap, x: usize, y: usize, item: Object)
    requires
        map_wf(*old(map)),
        in_grid(x as int, y as int),
    ensures
        map_wf(*final(map)),
        final(map)@.len() == old(map)@.len(),
        forall|k: int|
            0 <= k < old(map)@.len() && k != x as int ==> final(map)@[k] == old(map)@[k],
        final(map)@[x as int]@.len() == old(map)@[x as int]@.len(),
        forall|k: int|
            0 <= k < old(map)@[x as int]@.len() && k != y as int ==> final(map)@[x as int]@[k]
                == old(map)@[x as int]@[k],
        final(map)@[x as int]@[y as int].items@ == old(map)@[x as int]@[y as int].items@.push(
            item,
        ),
        final(map)@[x as int]@[y as int].explored == old(map)@[x as int]@[y as int].explored,
        final(map)@[x as int]@[y as int].floor == old(map)@[x as int]@[y as int].floor,
{
    let mut row = map.remove(x);
    let mut tile = row.remove(y);
    tile.items.push(item);
    row.insert(y, tile);
    map.insert(x, row);
}

/// The strongest movement obstruction at `(x, y)`: every object placed
/// there and every actor standing there contributes, and the most
/// restrictive level wins.
pub fn is_blocked(x: i32, y: i32, map: &FloorMap, actors: &Vec<Object>) -> (r: Blocks)
    requires
        map_wf(*map),
        in_grid(x as int, y as int),
    ensures
        r.level() == cell_block(*map, actors@, x as int, y as int, false),
{
    blocking_at(x, y, map, actors, false)
}

/// The strongest sight obstruction at `(x, y)`, combined like
/// `is_blocked`.
pub fn blocks_view(x: i32, y: i32, map: &FloorMap, actors: &Vec<Object>) -> (r: Blocks)
    requires
        map_wf(*map),
        in_grid(x as int, y as int),
    ensures
        r.level() == cell_block(*map, actors@, x as int, y as int, true),
{
    blocking_at(x, y, map, actors, true)
}

/// The shared fold behind `is_blocked` and `blocks_view`, stopping early
/// once something blocks fully.
#[verifier::loop_isolation(false)]
fn blocking_at(x: i32, y: i32, map: &FloorMap, actors: &Vec<Object>, for_sight: bool) -> (r: Blocks)
    requires
        map_wf(*map),
        in_grid(x as int, y as int),
    ensures
        r.level() == cell_block(*map, actors@, x as int, y as int, for_sight),
{
    let ghost gx = x as int;
    let ghost gy = y as int;
    let mut blocks = Blocks::No;
    let mut i: usize = 0;
    while i < actors.len()
        invariant
            0 <= i <= actors@.len(),
            blocks.level() == actors_block(actors@.take(i as int), gx, gy, for_sight),
        decreases actors@.len() - i,
    {
        let a = &actors[i];
        proof {
            assert(actors@.take(i + 1).drop_last() =~= actors@.take(i as int));
            assert(actors@.take(i + 1).last() == actors@[i as int]);
        }
        if a.x == x && a.y == y {
            let contribution = if for_sight {
                a.blocks_view
            } else {
                a.blocks
            };
            blocks = blocks.combine(contribution);
            if blocks == Blocks::Full {
                proof {
                    lemma_actors_block_prefix(actors@, i + 1, gx, gy, for_sight);
                    lemma_actors_block_bound(actors@, gx, gy, for_sight);
                    lemma_items_block_bound(map@[gx]@[gy].items@, for_sight);
                }
                return Blocks::Full;
            }
        }
        i += 1;
    }
    proof {
        assert(actors@.take(actors@.len() as int) =~= actors@);
    }
    let tile_items: &Vec<Object> = &map[x as usize][y as usize].items;
    let mut j: usize = 0;
    while j < tile_items.len()
        invariant
            0 <= j <= tile_items@.len(),
            tile_items@ == map@[gx]@[gy].items@,
            map_wf(*map),
            in_grid(gx, gy),
            blocks.level() == level_max(
                actors_block(actors@, gx, gy, for_sight),
                items_block(tile_items@.take(j as int), for_sight),
            ),
        decreases tile_items@.len() - j,
    {
        let o = &tile_items[j];
        proof {
            assert(tile_items@.take(j + 1).drop_last() =~= tile_items@.take(j as int));
            assert(tile_items@.take(j + 1).last() == tile_items@[j as int]);
        }
        let contribution = if for_sight {
            o.blocks_view
        } else {
            o.blocks
        };
        blocks = blocks.combine(contribution);
        if blocks == Blocks::Full {
            proof {
                lemma_items_block_prefix(tile_items@, j + 1, for_sight);
                lemma_items_block_bound(tile_items@, for_sight);
                lemma_actors_block_bound(actors@, gx, gy, for_sight);
            }
            return Blocks::Full;
        }
        j += 1;
    }
    proof {
        assert(tile_items@.take(tile_items@.len() as int) =~= tile_items@);
    }
    blocks
}

} // verus!

// The floor generator: a binary space partition carves rooms and the
// corridors that join them out of a grid of wall fixtures. The carved
// connectors here are open corridors; doors stand only at the building's
// entry, placed during population.

verus! {

/// A cell of the grid's interior: off the outermost ring.
pub open spec fn inner_cell(x: int, y: int) -> bool {
    1 <= x <= FLOOR_WIDTH as int - 2 && 1 <= y <= FLOOR_HEIGHT as int - 2
}

/// A well-formed room: its cells lie off the outermost ring, and it is
/// at least four cells wide and tall, so its center lies strictly
/// inside it.
pub open spec fn room_wf(r: Rect) -> bool {
    &&& 1 <= r.x1 && r.x1 + 4 <= r.x2 <= FLOOR_WIDTH as int - 1
    &&& 1 <= r.y1 && r.y1 + 4 <= r.y2 <= FLOOR_HEIGHT as int - 1
}

/// Every cell of the room is carved open.
pub open spec fn room_open(map: FloorMap, r: Rect) -> bool {
    forall|x: int, y: int| r.x1 <= x < r.x2 && r.y1 <= y < r.y2 ==> open_cell(map, x, y)
}

/// The room's central cell.
pub open spec fn room_center(r: Rect) -> (int, int) {
    ((r.x1 + r.x2) / 2, (r.y1 + r.y2) / 2)
}

/// Replaces the tile at `(x, y)`, leaving the rest of the grid as it is.
fn set_tile(map: &mut FloorMap, x: usize, y: usize, tile: Tile)
    requires
        map_wf(*old(map)),
        in_grid(x as int, y as int),
    ensures
        map_wf(*final(map)),
        forall|i: int, j: int|
            in_grid(i, j) && !(i == x as int && j == y as int) ==> final(map)@[i]@[j]
                == old(map)@[i]@[j],
        final(map)@[x as int]@[y as int] == tile,
{
    let mut row = map.remove(x);
    row.set(y, tile);
    map.insert(x, row);
    proof {
        assert(map@ =~= old(map)@.update(x as int, map@[x as int]));
    }
}

/// Carves every cell of `[x1, x2) x [y1, y2)` open, replacing each tile
/// by a fresh one over the given floor surface.
fn create_room(x1: i32, y1: i32, x2: i32, y2: i32, floor_class: &ObjectClass, map: &mut FloorMap)
    requires
        map_wf(*old(map)),
        1 <= x1 <= x2 <= FLOOR_WIDTH as int - 1,
        1 <= y1 <= y2 <= FLOOR_HEIGHT as int - 1,
    ensures
        map_wf(*final(map)),
        forall|i: int, j: int| open_cell(*old(map), i, j) ==> open_cell(*final(map), i, j),
        forall|i: int, j: int|
            in_grid(i, j) && !(x1 <= i < x2 && y1 <= j < y2) ==> final(map)@[i]@[j]
                == old(map)@[i]@[j],
        forall|i: int, j: int| x1 <= i < x2 && y1 <= j < y2 ==> open_cell(*final(map), i, j),
        forall|i: int, j: int|
            in_grid(i, j) ==> final(map)@[i]@[j] == old(map)@[i]@[j] || open_cell(
                *final(map),
                i,
                j,
            ),
{
    let ghost m0 = *map;
    let mut cx: i32 = x1;
    while cx < x2
        invariant
            x1 <= cx <= x2,
            map_wf(*map),
            map_wf(m0),
            1 <= x1 <= x2 <= FLOOR_WIDTH as int - 1,
            1 <= y1 <= y2 <= FLOOR_HEIGHT as int - 1,
            forall|i: int, j: int| open_cell(m0, i, j) ==> open_cell(*map, i, j),
            forall|i: int, j: int|
                in_grid(i, j) && !(x1 <= i < x2 && y1 <= j < y2) ==> map@[i]@[j] == m0@[i]@[j],
            forall|i: int, j: int| x1 <= i < cx && y1 <= j < y2 ==> open_cell(*map, i, j),
        decreases x2 - cx,
    {
        let mut cy: i32 = y1;
        while cy < y2
            invariant
                x1 <= cx < x2,
                y1 <= cy <= y2,
                map_wf(*map),
                map_wf(m0),
                1 <= x1 <= x2 <= FLOOR_WIDTH as int - 1,
                1 <= y1 <= y2 <= FLOOR_HEIGHT as int - 1,
                forall|i: int, j: int| open_cell(m0, i, j) ==> open_cell(*map, i, j),
                forall|i: int, j: int|
                    in_grid(i, j) && !(x1 <= i < x2 && y1 <= j < y2) ==> map@[i]@[j] == m0@[i]@[j],
                forall|i: int, j: int| x1 <= i < cx && y1 <= j < y2 ==> open_cell(*map, i, j),
                forall|j: int| y1 <= j < cy ==> open_cell(*map, cx as int, j),
            decreases y2 - cy,
        {
            let ghost mp = *map;
            set_tile(map, cx as usize, cy as usize, Tile::new(floor_class));
            proof {
                assert(open_cell(*map, cx as int, cy as int));
                assert forall|i: int, j: int| open_cell(mp, i, j) implies open_cell(
                    *map,
                    i,
                    j,
                ) by {
                    if !(i == cx as int && j == cy as int) {
                        assert(map@[i]@[j] == mp@[i]@[j]);
                    }
                }
                assert forall|i: int, j: int|
                    x1 <= i < cx as int && y1 <= j < y2 implies open_cell(*map, i, j) by {
                    assert(open_cell(mp, i, j));
                }
                assert forall|j: int| y1 <= j <= cy as int implies open_cell(
                    *map,
                    cx as int,
                    j,
                ) by {
                    if j < cy as int {
                        assert(open_cell(mp, cx as int, j));
                    }
                }
            }
            cy += 1;
        }
        cx += 1;
    }
}

/// Carves the horizontal segment of cells between `(xa, y)` and
/// `(xb, y)`, in whichever order the ends come.
fn carve_h_tunnel(xa: i32, xb: i32, y: i32, floor_class: &ObjectClass, map: &mut FloorMap)
    requires
        map_wf(*old(map)),
        1 <= xa <= FLOOR_WIDTH as int - 2,
        1 <= xb <= FLOOR_WIDTH as int - 2,
        1 <= y <= FLOOR_HEIGHT as int - 2,
    ensures
        map_wf(*final(map)),
        forall|i: int, j: int| open_cell(*old(map), i, j) ==> open_cell(*final(map), i, j),
        forall|i: int, j: int|
            in_grid(i, j) && !inner_cell(i, j) ==> final(map)@[i]@[j] == old(map)@[i]@[j],
        forall|i: int|
            (if xa <= xb {
                xa <= i <= xb
            } else {
                xb <= i <= xa
            }) ==> open_cell(*final(map), i, y as int),
        forall|i: int, j: int|
            in_grid(i, j) ==> final(map)@[i]@[j] == old(map)@[i]@[j] || open_cell(
                *final(map),
                i,
                j,
            ),
{
    let lo: i32 = if xa <= xb { xa } else { xb };
    let hi: i32 = if xa <= xb { xb } else { xa };
    create_room(lo, y, hi + 1, y + 1, floor_class, map);
}

/// Carves the vertical segment of cells between `(x, ya)` and `(x, yb)`.
fn carve_v_tunnel(x: i32, ya: i32, yb: i32, floor_class: &ObjectClass, map: &mut FloorMap)
    requires
        map_wf(*old(map)),
        1 <= x <= FLOOR_WIDTH as int - 2,
        1 <= ya <= FLOOR_HEIGHT as int - 2,
        1 <= yb <= FLOOR_HEIGHT as int - 2,
    ensures
        map_wf(*final(map)),
        forall|i: int, j: int| open_cell(*old(map), i, j) ==> open_cell(*final(map), i, j),
        forall|i: int, j: int|
            in_grid(i, j) && !inner_cell(i, j) ==> final(map)@[i]@[j] == old(map)@[i]@[j],
        forall|j: int|
            (if ya <= yb {
                ya <= j <= yb
            } else {
                yb <= j <= ya
            }) ==> open_cell(*final(map), x as int, j),
        forall|i: int, j: int|
            in_grid(i, j) ==> final(map)@[i]@[j] == old(map)@[i]@[j] || open_cell(
                *final(map),
                i,
                j,
            ),
{
    let lo: i32 = if ya <= yb { ya } else { yb };
    let hi: i32 = if ya <= yb { yb } else { ya };
    create_room(x, lo, x + 1, hi + 1, floor_class, map);
}

/// Carves an L-shaped corridor of open cells between the two cells,
/// drawing the horizontal or the vertical leg first at random; after it,
/// the two cells reach each other.
fn connect(ax: i32, ay: i32, bx: i32, by: i32, floor_class: &ObjectClass, map: &mut FloorMap)
    requires
        map_wf(*old(map)),
        inner_cell(ax as int, ay as int),
        inner_cell(bx as int, by as int),
    ensures
        map_wf(*final(map)),
        forall|i: int, j: int| open_cell(*old(map), i, j) ==> open_cell(*final(map), i, j),
        forall|i: int, j: int|
            in_grid(i, j) && !inner_cell(i, j) ==> final(map)@[i]@[j] == old(map)@[i]@[j],
        forall|i: int, j: int|
            in_grid(i, j) ==> final(map)@[i]@[j] == old(map)@[i]@[j] || open_cell(
                *final(map),
                i,
                j,
            ),
        reach(*final(map), (ax as int, ay as int), (bx as int, by as int)),
{
    let horizontal_first = rand_range_i32(0, 2) == 0;
    if horizontal_first {
        carve_h_tunnel(ax, bx, ay, floor_class, map);
        let ghost m1 = *map;
        carve_v_tunnel(bx, ay, by, floor_class, map);
        proof {
            assert forall|i: int, j: int| in_grid(i, j) implies map@[i]@[j]
                == old(map)@[i]@[j] || open_cell(*map, i, j) by {
                if map@[i]@[j] != old(map)@[i]@[j] {
                    if m1@[i]@[j] != old(map)@[i]@[j] {
                        assert(open_cell(m1, i, j));
                    }
                }
            }
            if ax <= bx {
                lemma_reach_horizontal(*map, ax as int, bx as int, ay as int);
            } else {
                lemma_reach_horizontal(*map, bx as int, ax as int, ay as int);
                lemma_reach_sym(*map, (bx as int, ay as int), (ax as int, ay as int));
            }
            if ay <= by {
                lemma_reach_vertical(*map, bx as int, ay as int, by as int);
            } else {
                lemma_reach_vertical(*map, bx as int, by as int, ay as int);
                lemma_reach_sym(*map, (bx as int, by as int), (bx as int, ay as int));
            }
            lemma_reach_trans(
                *map,
                (ax as int, ay as int),
                (bx as int, ay as int),
                (bx as int, by as int),
            );
        }
    } else {
        carve_v_tunnel(ax, ay, by, floor_class, map);
        let ghost m1 = *map;
        carve_h_tunnel(ax, bx, by, floor_class, map);
        proof {
            assert forall|i: int, j: int| in_grid(i, j) implies map@[i]@[j]
                == old(map)@[i]@[j] || open_cell(*map, i, j) by {
                if map@[i]@[j] != old(map)@[i]@[j] {
                    if m1@[i]@[j] != old(map)@[i]@[j] {
                        assert(open_cell(m1, i, j));
                    }
                }
            }
            if ay <= by {
                lemma_reach_vertical(*map, ax as int, ay as int, by as int);
            } else {
                lemma_reach_vertical(*map, ax as int, by as int, ay as int);
                lemma_reach_sym(*map, (ax as int, by as int), (ax as int, ay as int));
            }
            if ax <= bx {
                lemma_reach_horizontal(*map, ax as int, bx as int, by as int);
            } else {
                lemma_reach_horizontal(*map, bx as int, ax as int, by as int);
                lemma_reach_sym(*map, (bx as int, by as int), (ax as int, by as int));
            }
            lemma_reach_trans(
                *map,
                (ax as int, ay as int),
                (ax as int, by as int),
                (bx as int, by as int),
            );
        }
    }
}

/// The center of a well-formed room lies strictly inside it, off the
/// grid's outermost ring.
proof fn lemma_center_inside(r: Rect)
    requires
        room_wf(r),
    ensures
        r.x1 + 1 <= room_center(r).0 < r.x2 - 1,
        r.y1 + 1 <= room_center(r).1 < r.y2 - 1,
        inner_cell(room_center(r).0, room_center(r).1),
{
}

/// The room's cells keep a one-cell margin to the partition's near
/// edges and stay within the partition.
pub open spec fn room_in_node(r: Rect, x: int, y: int, w: int, h: int) -> bool {
    &&& x + 1 <= r.x1
    &&& r.x2 <= x + w
    &&& y + 1 <= r.y1
    &&& r.y2 <= y + h
}

/// The two rooms' cells are disjoint with at least one wall cell
/// between them on some axis: carved rooms never touch.
pub open spec fn rooms_separated(a: Rect, b: Rect) -> bool {
    ||| a.x2 < b.x1
    ||| b.x2 < a.x1
    ||| a.y2 < b.y1
    ||| b.y2 < a.y1
}

/// Splits the rectangle `[x, x+w) x [y, y+h)` recursively into two
/// partitions along a random axis at a random position, down to the
/// depth limit or the minimum partition size; each leaf partition is
/// carved into a room shrunk one cell off the partition's near edges
/// and clamped one further cell off the grid's far border, and the two
/// halves of every split are joined by a corridor between their first
/// rooms' centers. Every room carved here is well formed, fully open,
/// and its center reachable from the first one's center.
#[verifier::rlimit(60)]
fn carve_partition(
    x: i32,
    y: i32,
    w: i32,
    h: i32,
    depth: u32,
    floor_class: &ObjectClass,
    rooms: &mut Vec<Rect>,
    map: &mut FloorMap,
)
    requires
        map_wf(*old(map)),
        0 <= x,
        0 <= y,
        ROOM_MIN_X as int <= w,
        ROOM_MIN_Y as int <= h,
        x + w <= FLOOR_WIDTH as int,
        y + h <= FLOOR_HEIGHT as int,
    ensures
        map_wf(*final(map)),
        forall|i: int, j: int| open_cell(*old(map), i, j) ==> open_cell(*final(map), i, j),
        forall|i: int, j: int|
            in_grid(i, j) && !inner_cell(i, j) ==> final(map)@[i]@[j] == old(map)@[i]@[j],
        final(rooms)@.len() > old(rooms)@.len(),
        final(rooms)@.take(old(rooms)@.len() as int) == old(rooms)@,
        forall|i: int|
            old(rooms)@.len() <= i < final(rooms)@.len() ==> room_wf(#[trigger] final(rooms)@[i]),
        forall|i: int|
            old(rooms)@.len() <= i < final(rooms)@.len() ==> room_open(
                *final(map),
                #[trigger] final(rooms)@[i],
            ),
        final(rooms)@[old(rooms)@.len() as int].x1 == x + 1,
        final(rooms)@[old(rooms)@.len() as int].y1 == y + 1,
        forall|i: int|
            old(rooms)@.len() <= i < final(rooms)@.len() ==> reach(
                *final(map),
                room_center(final(rooms)@[old(rooms)@.len() as int]),
                room_center(#[trigger] final(rooms)@[i]),
            ),
        forall|i: int, j: int|
            in_grid(i, j) ==> final(map)@[i]@[j] == old(map)@[i]@[j] || open_cell(
                *final(map),
                i,
                j,
            ),
        forall|i: int|
            old(rooms)@.len() <= i < final(rooms)@.len() ==> room_in_node(
                #[trigger] final(rooms)@[i],
                x as int,
                y as int,
                w as int,
                h as int,
            ),
        forall|i: int, j: int|
            old(rooms)@.len() <= i < j < final(rooms)@.len() ==> rooms_separated(
                #[trigger] final(rooms)@[i],
                #[trigger] final(rooms)@[j],
            ),
    decreases depth,
{
    let can_x = w >= 2 * ROOM_MIN_X;
    let can_y = h >= 2 * ROOM_MIN_Y;
    if depth == 0 || (!can_x && !can_y) {
        let minx = x + 1;
        let miny = y + 1;
        let mut maxx = x + w - 1;
        let mut maxy = y + h - 1;
        if maxx == FLOOR_WIDTH - 1 {
            maxx -= 1;
        }
        if maxy == FLOOR_HEIGHT - 1 {
            maxy -= 1;
        }
        create_room(minx, miny, maxx + 1, maxy + 1, floor_class, map);
        let room = Rect { x1: minx, y1: miny, x2: maxx + 1, y2: maxy + 1 };
        rooms.push(room);
        proof {
            assert(rooms@.take(old(rooms)@.len() as int) =~= old(rooms)@);
            assert(room_wf(room));
            assert(room_open(*map, room));
            lemma_center_inside(room);
            assert(open_cell(*map, room_center(room).0, room_center(room).1));
            lemma_reach_self(*map, room_center(room));
        }
    } else {
        let vertical = if can_x && can_y {
            rand_range_i32(0, 2) == 0
        } else {
            can_x
        };
        let split_a: (i32, i32, i32, i32);
        let split_b: (i32, i32, i32, i32);
        if vertical {
            let ws = rand_range_i32(ROOM_MIN_X, w - ROOM_MIN_X + 1);
            split_a = (x, y, ws, h);
            split_b = (x + ws, y, w - ws, h);
        } else {
            let hs = rand_range_i32(ROOM_MIN_Y, h - ROOM_MIN_Y + 1);
            split_a = (x, y, w, hs);
            split_b = (x, y + hs, w, h - hs);
        }
        let n0 = rooms.len();
        carve_partition(
            split_a.0,
            split_a.1,
            split_a.2,
            split_a.3,
            depth - 1,
            floor_class,
            rooms,
            map,
        );
        let ghost r1 = rooms@;
        let ghost m1 = *map;
        let n1 = rooms.len();
        carve_partition(
            split_b.0,
            split_b.1,
            split_b.2,
            split_b.3,
            depth - 1,
            floor_class,
            rooms,
            map,
        );
        let ghost r2 = rooms@;
        let ghost m2 = *map;
        proof {
            assert(r2[n0 as int] == r1[n0 as int]);
            assert(room_wf(r2[n0 as int]));
            assert(room_wf(r2[n1 as int]));
            lemma_center_inside(r2[n0 as int]);
            lemma_center_inside(r2[n1 as int]);
        }
        let ca = rooms[n0].center();
        let cb = rooms[n1].center();
        connect(ca.0, ca.1, cb.0, cb.1, floor_class, map);
        proof {
            let mf = *map;
            let n0i = n0 as int;
            let n1i = n1 as int;
            let anchor = room_center(r2[n0i]);
            let mid = room_center(r2[n1i]);
            assert((ca.0 as int, ca.1 as int) == anchor);
            assert((cb.0 as int, cb.1 as int) == mid);
            // the rooms list is untouched by the corridor
            assert(rooms@ == r2);
            assert(rooms@.take(old(rooms)@.len() as int) =~= old(rooms)@);
            // openness of earlier cells survives both later carvings
            assert forall|i: int, j: int| open_cell(*old(map), i, j) implies open_cell(
                mf,
                i,
                j,
            ) by {
                assert(open_cell(m1, i, j));
                assert(open_cell(m2, i, j));
            }
            assert forall|i: int, j: int|
                in_grid(i, j) && !inner_cell(i, j) implies mf@[i]@[j] == old(map)@[i]@[j] by {
                assert(m1@[i]@[j] == old(map)@[i]@[j]);
                assert(m2@[i]@[j] == m1@[i]@[j]);
            }
            // every new room is still fully open in the final map
            assert forall|i: int| old(rooms)@.len() <= i < r2.len() implies room_open(
                mf,
                #[trigger] r2[i],
            ) by {
                if i < n1i {
                    assert(room_open(m1, r1[i]));
                    assert(r2[i] == r1[i]);
                    assert forall|cx: int, cy: int|
                        r2[i].x1 <= cx < r2[i].x2 && r2[i].y1 <= cy < r2[i].y2 implies open_cell(
                        mf,
                        cx,
                        cy,
                    ) by {
                        assert(open_cell(m1, cx, cy));
                        assert(open_cell(m2, cx, cy));
                    }
                } else {
                    assert(room_open(m2, r2[i]));
                    assert forall|cx: int, cy: int|
                        r2[i].x1 <= cx < r2[i].x2 && r2[i].y1 <= cy < r2[i].y2 implies open_cell(
                        mf,
                        cx,
                        cy,
                    ) by {
                        assert(open_cell(m2, cx, cy));
                    }
                }
            }
            // room_wf carries over from the two halves
            assert forall|i: int| old(rooms)@.len() <= i < r2.len() implies room_wf(
                #[trigger] r2[i],
            ) by {
                if i < n1i {
                    assert(r2[i] == r1[i]);
                }
            }
            // the corridor joins the two anchors; chain everything else
            assert forall|i: int| old(rooms)@.len() <= i < r2.len() implies reach(
                mf,
                anchor,
                room_center(#[trigger] r2[i]),
            ) by {
                if i < n1i {
                    assert(r2[i] == r1[i]);
                    assert(reach(m1, anchor, room_center(r1[i])));
                    lemma_reach_mono(m1, m2, anchor, room_center(r1[i]));
                    lemma_reach_mono(m2, mf, anchor, room_center(r1[i]));
                } else {
                    assert(reach(m2, mid, room_center(r2[i])));
                    lemma_reach_mono(m2, mf, mid, room_center(r2[i]));
                    lemma_reach_trans(mf, anchor, mid, room_center(r2[i]));
                }
            }
            assert(r2[old(rooms)@.len() as int].x1 == x + 1);
            assert(r2[old(rooms)@.len() as int].y1 == y + 1);
            // cells are untouched or carved open, through all three stages
            assert forall|i: int, j: int| in_grid(i, j) implies mf@[i]@[j]
                == old(map)@[i]@[j] || open_cell(mf, i, j) by {
                if mf@[i]@[j] != old(map)@[i]@[j] {
                    if m2@[i]@[j] != old(map)@[i]@[j] {
                        if m1@[i]@[j] != old(map)@[i]@[j] {
                            assert(open_cell(m1, i, j));
                            assert(open_cell(m2, i, j));
                        } else {
                            assert(open_cell(m2, i, j));
                        }
                    }
                }
            }
            // every new room stays inside this partition
            assert forall|i: int| old(rooms)@.len() <= i < r2.len() implies room_in_node(
                #[trigger] r2[i],
                x as int,
                y as int,
                w as int,
                h as int,
            ) by {
                if i < n1i {
                    assert(r2[i] == r1[i]);
                    assert(room_in_node(
                        r1[i],
                        split_a.0 as int,
                        split_a.1 as int,
                        split_a.2 as int,
                        split_a.3 as int,
                    ));
                } else {
                    assert(room_in_node(
                        r2[i],
                        split_b.0 as int,
                        split_b.1 as int,
                        split_b.2 as int,
                        split_b.3 as int,
                    ));
                }
            }
            // rooms of the two halves are kept apart by the split line
            assert forall|i: int, j: int|
                old(rooms)@.len() <= i < j < r2.len() implies rooms_separated(
                #[trigger] r2[i],
                #[trigger] r2[j],
            ) by {
                if j < n1i {
                    assert(r2[i] == r1[i] && r2[j] == r1[j]);
                } else if i >= n1i {
                } else {
                    assert(r2[i] == r1[i]);
                    assert(room_in_node(
                        r1[i],
                        split_a.0 as int,
                        split_a.1 as int,
                        split_a.2 as int,
                        split_a.3 as int,
                    ));
                    assert(room_in_node(
                        r2[j],
                        split_b.0 as int,
                        split_b.1 as int,
                        split_b.2 as int,
                        split_b.3 as int,
                    ));
                }
            }
        }
    }
}

/// From `from`, every cell of room `r` can be reached over open cells.
pub open spec fn room_reaches(map: FloorMap, from: (int, int), r: Rect) -> bool {
    forall|cx: int, cy: int|
        r.x1 <= cx < r.x2 && r.y1 <= cy < r.y2 ==> #[trigger] reach(map, from, (cx, cy))
}

/// The tile holds exactly one object: a wall instance of `wc` standing
/// at `(x, y)`, and nothing has been seen or placed there.
pub open spec fn wall_tile_at(t: Tile, wc: ObjectClass, x: int, y: int) -> bool {
    &&& t.items@.len() == 1
    &&& t.explored == false
    &&& instantiates(Object { x: 0i32, y: 0i32, ..t.items@[0] }, wc)
    &&& t.items@[0].x == x
    &&& t.items@[0].y == y
}

/// Generates one floor: a grid of wall fixtures over the given floor
/// surface, carved by the space partition into rooms and corridors.
/// Every carved room keeps one cell of wall to the floor's border
/// (`room_wf`), and every cell of every room is reachable from the
/// first room - the entry room at the grid's origin corner - over
/// carved cells alone.
pub fn make_floor(floor_class: &ObjectClass, wall_class: &ObjectClass) -> (f: Floor)
    ensures
        map_wf(f.map),
        f.rooms@.len() >= 1,
        f.rooms@[0].x1 == 1 && f.rooms@[0].y1 == 1,
        forall|i: int| 0 <= i < f.rooms@.len() ==> room_wf(#[trigger] f.rooms@[i]),
        forall|i: int| 0 <= i < f.rooms@.len() ==> room_open(f.map, #[trigger] f.rooms@[i]),
        forall|i: int|
            0 <= i < f.rooms@.len() ==> room_reaches(
                f.map,
                room_center(f.rooms@[0]),
                #[trigger] f.rooms@[i],
            ),
        forall|x: int, y: int|
            in_grid(x, y) && !inner_cell(x, y) ==> wall_tile_at(
                f.map@[x]@[y],
                *wall_class,
                x,
                y,
            ),
        forall|x: int, y: int|
            in_grid(x, y) ==> open_cell(f.map, x, y) || wall_tile_at(
                f.map@[x]@[y],
                *wall_class,
                x,
                y,
            ),
        forall|i: int, j: int|
            0 <= i < j < f.rooms@.len() ==> rooms_separated(
                #[trigger] f.rooms@[i],
                #[trigger] f.rooms@[j],
            ),
{
    let mut grid: FloorMap = Vec::new();
    let mut gx: i32 = 0;
    while gx < FLOOR_WIDTH
        invariant
            0 <= gx <= FLOOR_WIDTH as int,
            grid@.len() == gx as int,
            forall|x: int| 0 <= x < gx as int ==> (#[trigger] grid@[x])@.len() == FLOOR_HEIGHT as int,
            forall|x: int, y: int|
                0 <= x < gx as int && 0 <= y < FLOOR_HEIGHT as int ==> wall_tile_at(
                    grid@[x]@[y],
                    *wall_class,
                    x,
                    y,
                ),
        decreases FLOOR_WIDTH as int - gx,
    {
        let mut row: Vec<Tile> = Vec::new();
        let mut gy: i32 = 0;
        while gy < FLOOR_HEIGHT
            invariant
                0 <= gy <= FLOOR_HEIGHT as int,
                row@.len() == gy as int,
                0 <= gx < FLOOR_WIDTH as int,
                forall|y: int|
                    0 <= y < gy as int ==> wall_tile_at(row@[y], *wall_class, gx as int, y),
            decreases FLOOR_HEIGHT as int - gy,
        {
            let mut wall_tile = Tile::new(floor_class);
            let mut wall = wall_class.create_object();
            wall.set_pos(gx, gy);
            wall_tile.items.push(wall);
            row.push(wall_tile);
            gy += 1;
        }
        grid.push(row);
        gx += 1;
    }
    let mut rooms: Vec<Rect> = Vec::new();
    let ghost walls = grid;
    carve_partition(0, 0, FLOOR_WIDTH, FLOOR_HEIGHT, 3, floor_class, &mut rooms, &mut grid);
    proof {
        assert forall|x: int, y: int| in_grid(x, y) implies open_cell(grid, x, y)
            || wall_tile_at(grid@[x]@[y], *wall_class, x, y) by {
            if grid@[x]@[y] == walls@[x]@[y] {
                assert(wall_tile_at(walls@[x]@[y], *wall_class, x, y));
            }
        }
        let anchor = room_center(rooms@[0]);
        assert forall|i: int| 0 <= i < rooms@.len() implies room_reaches(
            grid,
            anchor,
            #[trigger] rooms@[i],
        ) by {
            lemma_center_inside(rooms@[i]);
            let ci = room_center(rooms@[i]);
            assert forall|cx: int, cy: int|
                rooms@[i].x1 <= cx < rooms@[i].x2 && rooms@[i].y1 <= cy
                    < rooms@[i].y2 implies #[trigger] reach(grid, anchor, (cx, cy)) by {
                lemma_reach_rect(
                    grid,
                    rooms@[i].x1 as int,
                    rooms@[i].y1 as int,
                    rooms@[i].x2 as int,
                    rooms@[i].y2 as int,
                    ci,
                    (cx, cy),
                );
                lemma_reach_trans(grid, anchor, ci, (cx, cy));
            }
        }
    }
    Floor { map: grid, rooms: rooms }
}

/// `o` stands at `(x, y)` as a fresh instance of template `c`.
pub open spec fn placed_instance(o: Object, c: ObjectClass, x: int, y: int) -> bool {
    &&& o.x == x
    &&& o.y == y
    &&& instantiates(Object { x: 0i32, y: 0i32, ..o }, c)
}

/// The cell of a room where its stairs fixture stands: near the middle.
pub open spec fn room_anchor(r: Rect) -> (int, int) {
    (r.x1 + (r.x2 - r.x1) / 2, r.y1 + (r.y2 - r.y1) / 2)
}

/// Replaces the fixture at the bottom of the tile stack at `(x, y)` by
/// a door drawn from the given sampler.
fn make_door(x: i32, y: i32, door_randomizer: &crate::load::ObjectRandomizer, map: &mut FloorMap)
    requires
        map_wf(*old(map)),
        in_grid(x as int, y as int),
        old(map)@[x as int]@[y as int].items@.len() >= 1,
        door_randomizer.wf(),
    ensures
        map_wf(*final(map)),
        forall|i: int, j: int|
            in_grid(i, j) && !(i == x as int && j == y as int) ==> final(map)@[i]@[j]
                == old(map)@[i]@[j],
        final(map)@[x as int]@[y as int].explored == old(map)@[x as int]@[y as int].explored,
        final(map)@[x as int]@[y as int].floor == old(map)@[x as int]@[y as int].floor,
        final(map)@[x as int]@[y as int].items@.len() == old(map)@[x as int]@[y as int].items@.len(),
        forall|k: int|
            1 <= k < old(map)@[x as int]@[y as int].items@.len()
                ==> final(map)@[x as int]@[y as int].items@[k]
                == old(map)@[x as int]@[y as int].items@[k],
        exists|i: int|
            0 <= i < door_randomizer.classes().len() && door_randomizer.classes()[i].chance > 0
                && #[trigger] placed_instance(
                final(map)@[x as int]@[y as int].items@[0],
                door_randomizer.classes()[i],
                x as int,
                y as int,
            ),
{
    let door_class = door_randomizer.get_class();
    let mut door = door_class.create_object();
    door.set_pos(x, y);
    let mut row = map.remove(x as usize);
    let mut tile = row.remove(y as usize);
    tile.items.set(0, door);
    row.insert(y as usize, tile);
    map.insert(x as usize, row);
    proof {
        assert(map@ =~= old(map)@.update(x as int, map@[x as int]));
        assert(map@[x as int]@ =~= old(map)@[x as int]@.update(
            y as int,
            map@[x as int]@[y as int],
        ));
        let ci = choose|i: int|
            0 <= i < door_randomizer.classes().len() && crate::object::class_eq(
                door_class,
                #[trigger] door_randomizer.classes()[i],
            ) && door_randomizer.classes()[i].chance > 0;
        crate::object::lemma_instantiates_class_eq(
            Object { x: 0i32, y: 0i32, ..map@[x as int]@[y as int].items@[0] },
            door_class,
            door_randomizer.classes()[ci],
        );
        assert(placed_instance(
            map@[x as int]@[y as int].items@[0],
            door_randomizer.classes()[ci],
            x as int,
            y as int,
        ));
    }
}

/// `i` names an entry room: one anchored at the grid's origin corner.
pub open spec fn is_entry_room(rooms: Seq<Rect>, i: int) -> bool {
    0 <= i < rooms.len() && rooms[i].x1 == 1 && rooms[i].y1 == 1
}

/// The name of the stairs fixture a level gets: the second level of a
/// building carries the stairs leading back up.
pub open spec fn stairs_key_spec(floor: int) -> Seq<char> {
    if floor == 1 {
        "stairs up"@
    } else {
        "stairs"@
    }
}

/// There is a stairs fixture standing at `(x, y)` on the grid: some
/// object of that tile's stack is an instance of the catalog's stairs
/// template for this level.
pub open spec fn stairs_placed(
    map: FloorMap,
    catalog: Seq<ObjectClass>,
    floor: int,
    x: int,
    y: int,
) -> bool {
    exists|k: int, ci: int|
        {
            &&& first_class_at(catalog, stairs_key_spec(floor), ci)
            &&& 0 <= k < map@[x]@[y].items@.len()
            &&& #[trigger] placed_instance(map@[x]@[y].items@[k], catalog[ci], x, y)
        }
}

/// A room that touches the floor's far edges, where the stairs prefer
/// to stand.
pub open spec fn far_edge_room(r: Rect) -> bool {
    r.x2 == FLOOR_WIDTH as int - 1 || r.y2 == FLOOR_HEIGHT as int - 1
}

/// Some room touches the far edges and is not the entry room: a
/// candidate for the stairs.
pub open spec fn has_far_candidate(rooms: Seq<Rect>) -> bool {
    exists|k: int|
        0 <= k < rooms.len() && far_edge_room(#[trigger] rooms[k]) && !is_entry_room(rooms, k)
}

/// The fixture at the bottom of the tile stack at `(x, y)` is a door:
/// an instance of some positive-weight template of the catalog's door
/// category.
pub open spec fn door_placed(map: FloorMap, catalog: Seq<ObjectClass>, x: int, y: int) -> bool {
    map@[x]@[y].items@.len() >= 1 && exists|ci: int|
        {
            &&& 0 <= ci < of_type(catalog, "door"@).len()
            &&& of_type(catalog, "door"@)[ci].chance > 0
            &&& #[trigger] placed_instance(
                map@[x]@[y].items@[0],
                of_type(catalog, "door"@)[ci],
                x,
                y,
            )
        }
}

/// Some entry room has its outer doorway cell `(0, y2/2)` fitted with a
/// door.
pub open spec fn entry_door_placed(map: FloorMap, catalog: Seq<ObjectClass>, rooms: Seq<Rect>) -> bool {
    exists|i: int|
        #[trigger] is_entry_room(rooms, i) && door_placed(map, catalog, 0, rooms[i].y2 as int / 2)
}

/// Some room holds a loose weapon at the fixed offset from its corner:
/// an instance of a positive-weight template of the weapon category.
pub open spec fn weapon_placed(map: FloorMap, catalog: Seq<ObjectClass>, rooms: Seq<Rect>) -> bool {
    exists|ri: int, k: int, ci: int|
        {
            &&& 0 <= ri < rooms.len()
            &&& 0 <= k < map@[rooms[ri].x1 + 1]@[rooms[ri].y1 + 2].items@.len()
            &&& 0 <= ci < of_type(catalog, "environmental weapon"@).len()
            &&& of_type(catalog, "environmental weapon"@)[ci].chance > 0
            &&& #[trigger] placed_instance(
                map@[rooms[ri].x1 + 1]@[rooms[ri].y1 + 2].items@[k],
                of_type(catalog, "environmental weapon"@)[ci],
                rooms[ri].x1 + 1,
                rooms[ri].y1 + 2,
            )
        }
}

/// Appending to one tile's stack disturbs no placed-stairs claim.
proof fn lemma_push_keeps_stairs(
    m0: FloorMap,
    m1: FloorMap,
    catalog: Seq<ObjectClass>,
    floor: int,
    sx: int,
    sy: int,
    px: int,
    py: int,
    it: Object,
)
    requires
        stairs_placed(m0, catalog, floor, sx, sy),
        in_grid(sx, sy),
        in_grid(px, py),
        forall|i: int, j: int|
            in_grid(i, j) && !(i == px && j == py) ==> m1@[i]@[j] == m0@[i]@[j],
        m1@[px]@[py].items@ == m0@[px]@[py].items@.push(it),
    ensures
        stairs_placed(m1, catalog, floor, sx, sy),
{
    let (k, ci) = choose|k: int, ci: int|
        {
            &&& first_class_at(catalog, stairs_key_spec(floor), ci)
            &&& 0 <= k < m0@[sx]@[sy].items@.len()
            &&& #[trigger] placed_instance(m0@[sx]@[sy].items@[k], catalog[ci], sx, sy)
        };
    assert(placed_instance(m1@[sx]@[sy].items@[k], catalog[ci], sx, sy));
}

/// Appending to one tile's stack disturbs no entry-door claim: the door
/// sits at index zero, which a push never moves.
proof fn lemma_push_keeps_door(
    m0: FloorMap,
    m1: FloorMap,
    catalog: Seq<ObjectClass>,
    rooms: Seq<Rect>,
    px: int,
    py: int,
    it: Object,
)
    requires
        entry_door_placed(m0, catalog, rooms),
        forall|i: int| 0 <= i < rooms.len() ==> room_wf(#[trigger] rooms[i]),
        in_grid(px, py),
        forall|i: int, j: int|
            in_grid(i, j) && !(i == px && j == py) ==> m1@[i]@[j] == m0@[i]@[j],
        m1@[px]@[py].items@ == m0@[px]@[py].items@.push(it),
    ensures
        entry_door_placed(m1, catalog, rooms),
{
    let i = choose|i: int|
        #[trigger] is_entry_room(rooms, i) && door_placed(m0, catalog, 0, rooms[i].y2 as int / 2);
    let dy = rooms[i].y2 as int / 2;
    let ci = choose|ci: int|
        {
            &&& 0 <= ci < of_type(catalog, "door"@).len()
            &&& of_type(catalog, "door"@)[ci].chance > 0
            &&& #[trigger] placed_instance(
                m0@[0]@[dy].items@[0],
                of_type(catalog, "door"@)[ci],
                0,
                dy,
            )
        };
    assert(in_grid(0, dy));
    if px == 0 && py == dy {
        assert(m1@[0]@[dy].items@[0] == m0@[0]@[dy].items@[0]);
    } else {
        assert(m1@[0]@[dy] == m0@[0]@[dy]);
    }
    assert(placed_instance(m1@[0]@[dy].items@[0], of_type(catalog, "door"@)[ci], 0, dy));
    assert(door_placed(m1, catalog, 0, dy));
}

/// Appending to one tile's stack disturbs no placed-weapon claim.
proof fn lemma_push_keeps_weapon(
    m0: FloorMap,
    m1: FloorMap,
    catalog: Seq<ObjectClass>,
    rooms: Seq<Rect>,
    px: int,
    py: int,
    it: Object,
)
    requires
        weapon_placed(m0, catalog, rooms),
        forall|i: int| 0 <= i < rooms.len() ==> room_wf(#[trigger] rooms[i]),
        in_grid(px, py),
        forall|i: int, j: int|
            in_grid(i, j) && !(i == px && j == py) ==> m1@[i]@[j] == m0@[i]@[j],
        m1@[px]@[py].items@ == m0@[px]@[py].items@.push(it),
    ensures
        weapon_placed(m1, catalog, rooms),
{
    let (ri, k, ci) = choose|ri: int, k: int, ci: int|
        {
            &&& 0 <= ri < rooms.len()
            &&& 0 <= k < m0@[rooms[ri].x1 + 1]@[rooms[ri].y1 + 2].items@.len()
            &&& 0 <= ci < of_type(catalog, "environmental weapon"@).len()
            &&& of_type(catalog, "environmental weapon"@)[ci].chance > 0
            &&& #[trigger] placed_instance(
                m0@[rooms[ri].x1 + 1]@[rooms[ri].y1 + 2].items@[k],
                of_type(catalog, "environmental weapon"@)[ci],
                rooms[ri].x1 + 1,
                rooms[ri].y1 + 2,
            )
        };
    assert(in_grid(rooms[ri].x1 + 1, rooms[ri].y1 + 2));
    assert(placed_instance(
        m1@[rooms[ri].x1 + 1]@[rooms[ri].y1 + 2].items@[k],
        of_type(catalog, "environmental weapon"@)[ci],
        rooms[ri].x1 + 1,
        rooms[ri].y1 + 2,
    ));
}

/// Populates one generated floor: a door into the building on the entry
/// room's outer wall, a stairs fixture in a room at the floor's far
/// edge (or wherever the caller fixed it), and one or two incidental
/// loose weapons in random rooms. Returns where the stairs stand.
#[verifier::rlimit(60)]
pub fn place_objects(
    floor: usize,
    rooms: &Vec<Rect>,
    map: &mut FloorMap,
    items: &ObjectTypes,
    stairs: (i32, i32),
) -> (loc: (i32, i32))
    requires
        map_wf(*old(map)),
        rooms@.len() >= 1,
        forall|i: int| 0 <= i < rooms@.len() ==> room_wf(#[trigger] rooms@[i]),
        stairs == (0i32, 0i32) || in_grid(stairs.0 as int, stairs.1 as int),
        has_class(items.classes(), "stairs"@),
        has_class(items.classes(), "stairs up"@),
        0 < total_weight(of_type(items.classes(), "door"@)) <= u64::MAX,
        total_weight(of_type(items.classes(), "environmental weapon"@)) <= u64::MAX,
        forall|x: int, y: int|
            in_grid(x, y) && !inner_cell(x, y) ==> old(map)@[x]@[y].items@.len() >= 1,
    ensures
        map_wf(*final(map)),
        forall|x: int, y: int|
            in_grid(x, y) ==> final(map)@[x]@[y].explored == old(map)@[x]@[y].explored
                && final(map)@[x]@[y].floor == old(map)@[x]@[y].floor,
        in_grid(loc.0 as int, loc.1 as int),
        stairs == (0i32, 0i32) ==> exists|ri: int|
            {
                &&& 0 <= ri < rooms@.len()
                &&& (loc.0 as int, loc.1 as int) == room_anchor(#[trigger] rooms@[ri])
                &&& (has_far_candidate(rooms@) ==> far_edge_room(rooms@[ri]))
            },
        stairs != (0i32, 0i32) ==> loc == stairs,
        stairs_placed(*final(map), items.classes(), floor as int, loc.0 as int, loc.1 as int),
        (exists|i: int| is_entry_room(rooms@, i)) ==> entry_door_placed(
            *final(map),
            items.classes(),
            rooms@,
        ),
        total_weight(of_type(items.classes(), "environmental weapon"@)) > 0 ==> weapon_placed(
            *final(map),
            items.classes(),
            rooms@,
        ),
{
    let ghost m0 = *map;
    let mut stairs_rooms: Vec<usize> = Vec::new();
    let mut i: usize = 0;
    while i < rooms.len()
        invariant
            0 <= i <= rooms@.len(),
            rooms@.len() >= 1,
            forall|k: int| 0 <= k < rooms@.len() ==> room_wf(#[trigger] rooms@[k]),
            0 < total_weight(of_type(items.classes(), "door"@)) <= u64::MAX,
            map_wf(*map),
            map_wf(m0),
            forall|x: int, y: int|
                in_grid(x, y) ==> map@[x]@[y].explored == m0@[x]@[y].explored && map@[x]@[y].floor
                    == m0@[x]@[y].floor,
            forall|x: int, y: int|
                in_grid(x, y) ==> map@[x]@[y].items@.len() >= m0@[x]@[y].items@.len(),
            forall|x: int, y: int|
                in_grid(x, y) && !inner_cell(x, y) ==> m0@[x]@[y].items@.len() >= 1,
            forall|k: int|
                0 <= k < stairs_rooms@.len() ==> (((#[trigger] stairs_rooms@[k]) as int)
                    < rooms@.len() && far_edge_room(rooms@[stairs_rooms@[k] as int])),
            stairs == (0i32, 0i32) ==> forall|k: int|
                0 <= k < i as int && far_edge_room(#[trigger] rooms@[k]) && !is_entry_room(
                    rooms@,
                    k,
                ) ==> exists|j: int|
                    0 <= j < stairs_rooms@.len() && (#[trigger] stairs_rooms@[j]) as int == k,
            (exists|r: int| is_entry_room(rooms@.take(i as int), r)) ==> entry_door_placed(
                *map,
                items.classes(),
                rooms@,
            ),
        decreases rooms@.len() - i,
    {
        let room = rooms[i];
        if room.x1 == 1 && room.y1 == 1 {
            let dr = items.create_randomizer("door");
            match dr {
                Option::Some(d) => {
                    let ghost mp = *map;
                    proof {
                        assert(room_wf(rooms@[i as int]));
                        assert(in_grid(0, room.y2 as int / 2));
                        assert(!inner_cell(0, room.y2 as int / 2));
                        assert(m0@[0]@[room.y2 as int / 2].items@.len() >= 1);
                        assert(map@[0]@[room.y2 as int / 2].items@.len() >= 1);
                    }
                    make_door(0, room.y2 / 2, &d, map);
                    proof {
                        assert forall|x: int, y: int| in_grid(x, y) implies map@[x]@[y].explored
                            == m0@[x]@[y].explored && map@[x]@[y].floor == m0@[x]@[y].floor
                            && map@[x]@[y].items@.len() >= m0@[x]@[y].items@.len() by {
                            if !(x == 0 && y == room.y2 as int / 2) {
                                assert(map@[x]@[y] == mp@[x]@[y]);
                            }
                        }
                        let dy = room.y2 as int / 2;
                        let di = choose|ix: int|
                            0 <= ix < d.classes().len() && d.classes()[ix].chance > 0
                                && #[trigger] placed_instance(
                                map@[0]@[dy].items@[0],
                                d.classes()[ix],
                                0,
                                dy,
                            );
                        crate::object::lemma_instantiates_class_eq(
                            Object { x: 0i32, y: 0i32, ..map@[0]@[dy].items@[0] },
                            d.classes()[di],
                            of_type(items.classes(), "door"@)[di],
                        );
                        assert(placed_instance(
                            map@[0]@[dy].items@[0],
                            of_type(items.classes(), "door"@)[di],
                            0,
                            dy,
                        ));
                        assert(door_placed(*map, items.classes(), 0, dy));
                        assert(is_entry_room(rooms@, i as int));
                        assert(is_entry_room(rooms@.take(i + 1), i as int));
                        assert(entry_door_placed(*map, items.classes(), rooms@));
                    }
                },
                Option::None => {
                    proof {
                        assert(false);
                    }
                },
            }
        } else {
            if stairs.0 == 0 && stairs.1 == 0 && (room.y2 == FLOOR_HEIGHT - 1 || room.x2
                == FLOOR_WIDTH - 1) {
                let ghost sr_pre = stairs_rooms@;
                stairs_rooms.push(i);
                proof {
                    assert forall|k: int|
                        0 <= k < i as int + 1 && far_edge_room(#[trigger] rooms@[k])
                            && !is_entry_room(rooms@, k) && stairs == (0i32, 0i32)
                            implies exists|j: int|
                            0 <= j < stairs_rooms@.len() && (#[trigger] stairs_rooms@[j]) as int
                                == k by {
                        if k == i as int {
                            assert(stairs_rooms@[stairs_rooms@.len() - 1] as int == k);
                        } else {
                            let j = choose|j: int|
                                0 <= j < sr_pre.len() && (#[trigger] sr_pre[j]) as int == k;
                            assert(stairs_rooms@[j] as int == k);
                        }
                    }
                }
            }
            proof {
                if exists|r: int| #[trigger] is_entry_room(rooms@.take(i + 1), r) {
                    let r = choose|r: int| #[trigger] is_entry_room(rooms@.take(i + 1), r);
                    assert(r != i as int);
                    assert(is_entry_room(rooms@.take(i as int), r));
                }
            }
        }
        proof {
            if exists|r: int| #[trigger] is_entry_room(rooms@.take(i as int), r) {
                let r = choose|r: int| #[trigger] is_entry_room(rooms@.take(i as int), r);
                assert(is_entry_room(rooms@.take(i + 1), r));
            }
        }
        i += 1;
    }
    proof {
        assert(rooms@.take(rooms@.len() as int) =~= rooms@);
    }
    let mut loc = stairs;
    if stairs.0 == 0 && stairs.1 == 0 {
        let ri: usize = if stairs_rooms.len() > 0 {
            stairs_rooms[rand_index(stairs_rooms.len())]
        } else {
            proof {
                if has_far_candidate(rooms@) {
                    let k = choose|k: int|
                        0 <= k < rooms@.len() && far_edge_room(#[trigger] rooms@[k])
                            && !is_entry_room(rooms@, k);
                    assert(false);
                }
            }
            rand_index(rooms.len())
        };
        let room = rooms[ri];
        loc = (room.x1 + (room.x2 - room.x1) / 2, room.y1 + (room.y2 - room.y1) / 2);
        proof {
            assert((loc.0 as int, loc.1 as int) == room_anchor(rooms@[ri as int]));
        }
    }
    let stairs_key: &str = if floor == 1 {
        "stairs up"
    } else {
        "stairs"
    };
    let stairs_class = items.get_class(stairs_key);
    let mut stairs_obj = stairs_class.create_object();
    stairs_obj.set_pos(loc.0, loc.1);
    let ghost m_before_stairs = *map;
    let ghost stairs_ghost = stairs_obj;
    tile_push_item(map, loc.0 as usize, loc.1 as usize, stairs_obj);
    proof {
        let lx = loc.0 as int;
        let ly = loc.1 as int;
        let ci = choose|ci: int|
            #[trigger] first_class_at(items.classes(), stairs_key@, ci) && crate::object::class_eq(
                stairs_class,
                items.classes()[ci],
            );
        assert(stairs_key@ == stairs_key_spec(floor as int));
        let k = map@[lx]@[ly].items@.len() - 1;
        crate::object::lemma_instantiates_class_eq(
            Object { x: 0i32, y: 0i32, ..map@[lx]@[ly].items@[k] },
            stairs_class,
            items.classes()[ci],
        );
        assert(placed_instance(map@[lx]@[ly].items@[k], items.classes()[ci], lx, ly));
        assert(stairs_placed(*map, items.classes(), floor as int, lx, ly));
        assert forall|x: int, y: int| in_grid(x, y) implies map@[x]@[y].explored
            == m0@[x]@[y].explored && map@[x]@[y].floor == m0@[x]@[y].floor by {
            if !(x == lx && y == ly) {
                assert(map@[x]@[y] == m_before_stairs@[x]@[y]);
            }
        }
        if exists|r: int| is_entry_room(rooms@, r) {
            lemma_push_keeps_door(
                m_before_stairs,
                *map,
                items.classes(),
                rooms@,
                lx,
                ly,
                stairs_ghost,
            );
        }
    }
    let brick_count = rand_range_i32(1, 3);
    let mut b: i32 = 0;
    while b < brick_count
        invariant
            rooms@.len() >= 1,
            forall|k: int| 0 <= k < rooms@.len() ==> room_wf(#[trigger] rooms@[k]),
            total_weight(of_type(items.classes(), "environmental weapon"@)) <= u64::MAX,
            0 <= b,
            1 <= brick_count <= 2,
            map_wf(*map),
            map_wf(m0),
            in_grid(loc.0 as int, loc.1 as int),
            forall|x: int, y: int|
                in_grid(x, y) ==> map@[x]@[y].explored == m0@[x]@[y].explored && map@[x]@[y].floor
                    == m0@[x]@[y].floor,
            stairs_placed(*map, items.classes(), floor as int, loc.0 as int, loc.1 as int),
            (exists|r: int| is_entry_room(rooms@, r)) ==> entry_door_placed(
                *map,
                items.classes(),
                rooms@,
            ),
            (b > 0 && total_weight(of_type(items.classes(), "environmental weapon"@)) > 0)
                ==> weapon_placed(*map, items.classes(), rooms@),
        decreases brick_count - b,
    {
        let room_ix = rand_index(rooms.len());
        let room = rooms[room_ix];
        let bx = room.x1 + 1;
        let by = room.y1 + 2;
        match items.create_randomizer("environmental weapon") {
            Option::Some(rz) => {
                let brick_class = rz.get_class();
                let mut brick = brick_class.create_object();
                brick.set_pos(bx, by);
                let ghost mp = *map;
                let ghost brick_ghost = brick;
                tile_push_item(map, bx as usize, by as usize, brick);
                proof {
                    let lx = loc.0 as int;
                    let ly = loc.1 as int;
                    lemma_push_keeps_stairs(
                        mp,
                        *map,
                        items.classes(),
                        floor as int,
                        lx,
                        ly,
                        bx as int,
                        by as int,
                        brick_ghost,
                    );
                    if exists|r: int| is_entry_room(rooms@, r) {
                        lemma_push_keeps_door(
                            mp,
                            *map,
                            items.classes(),
                            rooms@,
                            bx as int,
                            by as int,
                            brick_ghost,
                        );
                    }
                    if b > 0 && total_weight(of_type(items.classes(), "environmental weapon"@))
                        > 0 {
                        lemma_push_keeps_weapon(
                            mp,
                            *map,
                            items.classes(),
                            rooms@,
                            bx as int,
                            by as int,
                            brick_ghost,
                        );
                    }
                    // the fresh weapon itself establishes the claim
                    let bi = choose|ix: int|
                        0 <= ix < rz.classes().len() && crate::object::class_eq(
                            brick_class,
                            #[trigger] rz.classes()[ix],
                        ) && rz.classes()[ix].chance > 0;
                    let wk = map@[bx as int]@[by as int].items@.len() - 1;
                    crate::object::lemma_class_eq_trans(
                        brick_class,
                        rz.classes()[bi],
                        of_type(items.classes(), "environmental weapon"@)[bi],
                    );
                    crate::object::lemma_instantiates_class_eq(
                        Object { x: 0i32, y: 0i32, ..map@[bx as int]@[by as int].items@[wk] },
                        brick_class,
                        of_type(items.classes(), "environmental weapon"@)[bi],
                    );
                    assert(placed_instance(
                        map@[bx as int]@[by as int].items@[wk],
                        of_type(items.classes(), "environmental weapon"@)[bi],
                        bx as int,
                        by as int,
                    ));
                    assert(weapon_placed(*map, items.classes(), rooms@));
                    assert forall|x: int, y: int| in_grid(x, y) implies map@[x]@[y].explored
                        == m0@[x]@[y].explored && map@[x]@[y].floor == m0@[x]@[y].floor by {
                        if !(x == bx as int && y == by as int) {
                            assert(map@[x]@[y] == mp@[x]@[y]);
                        }
                    }
                }
            },
            Option::None => {},
        }
        b += 1;
    }
    loc
}

/// Puts the player on the entry room's inner doorway cell. Monsters are
/// not spawned automatically on a new floor; the catalog parameter
/// stands ready for callers that populate by hand.
pub fn place_actors(
    floor: usize,
    rooms: &Vec<Rect>,
    actor_types: &ObjectTypes,
    actors: &mut Vec<Object>,
)
    requires
        old(actors)@.len() >= 1,
        forall|i: int| 0 <= i < rooms@.len() ==> room_wf(#[trigger] rooms@[i]),
    ensures
        final(actors)@.len() == old(actors)@.len(),
        forall|k: int|
            0 < k < old(actors)@.len() ==> final(actors)@[k] == old(actors)@[k],
        (exists|i: int| is_entry_room(rooms@, i)) ==> exists|i: int|
            #[trigger] is_entry_room(rooms@, i) && final(actors)@[0] == (Object {
                x: 1i32,
                y: (rooms@[i].y2 as int / 2) as i32,
                ..old(actors)@[0]
            }),
        !(exists|i: int| is_entry_room(rooms@, i)) ==> final(actors)@ == old(actors)@,
{
    let mut i: usize = 0;
    while i < rooms.len()
        invariant
            0 <= i <= rooms@.len(),
            old(actors)@.len() >= 1,
            actors@.len() == old(actors)@.len(),
            forall|k: int| 0 < k < old(actors)@.len() ==> actors@[k] == old(actors)@[k],
            forall|r: int| 0 <= r < rooms@.len() ==> room_wf(#[trigger] rooms@[r]),
            (exists|r: int| is_entry_room(rooms@.take(i as int), r)) ==> exists|r: int|
                #[trigger] is_entry_room(rooms@, r) && actors@[0] == (Object {
                    x: 1i32,
                    y: (rooms@[r].y2 as int / 2) as i32,
                    ..old(actors)@[0]
                }),
            !(exists|r: int| is_entry_room(rooms@.take(i as int), r)) ==> actors@ == old(actors)@,
        decreases rooms@.len() - i,
    {
        let room = rooms[i];
        let ghost pre = actors@;
        if room.x1 == 1 && room.y1 == 1 {
            let mut player = actors.remove(0);
            player.set_pos(1, room.y2 / 2);
            actors.insert(0, player);
            proof {
                assert(actors@ =~= pre.update(
                    0,
                    Object { x: 1i32, y: (rooms@[i as int].y2 as int / 2) as i32, ..pre[0] },
                ));
                assert(actors@[0] == (Object {
                    x: 1i32,
                    y: (rooms@[i as int].y2 as int / 2) as i32,
                    ..old(actors)@[0]
                }));
                assert(is_entry_room(rooms@, i as int));
                assert(is_entry_room(rooms@.take(i + 1), i as int));
            }
        } else {
            proof {
                if exists|r: int| #[trigger] is_entry_room(rooms@.take(i + 1), r) {
                    let r = choose|r: int| #[trigger] is_entry_room(rooms@.take(i + 1), r);
                    assert(r != i as int);
                    assert(is_entry_room(rooms@.take(i as int), r));
                }
            }
        }
        proof {
            if exists|r: int| #[trigger] is_entry_room(rooms@.take(i as int), r) {
                let r = choose|r: int| #[trigger] is_entry_room(rooms@.take(i as int), r);
                assert(is_entry_room(rooms@.take(i + 1), r));
            }
        }
        i += 1;
    }
    proof {
        assert(rooms@.take(rooms@.len() as int) =~= rooms@);
    }
}

/// A populated level as the generator leaves it: a well-formed grid, a
/// nonempty list of well-formed rooms anchored by the entry room at the
/// origin corner, a stairs fixture somewhere on the grid, a door on the
/// entry room's outer wall, and - whenever the catalog has weapons to
/// draw - a loose weapon in some room.
pub open spec fn generated_level(
    map: FloorMap,
    rooms: Seq<Rect>,
    catalog: Seq<ObjectClass>,
    level: int,
) -> bool {
    &&& map_wf(map)
    &&& rooms.len() >= 1
    &&& rooms[0].x1 == 1 && rooms[0].y1 == 1
    &&& forall|i: int| 0 <= i < rooms.len() ==> room_wf(#[trigger] rooms[i])
    &&& exists|lx: int, ly: int|
        in_grid(lx, ly) && #[trigger] stairs_placed(map, catalog, level, lx, ly)
    &&& entry_door_placed(map, catalog, rooms)
    &&& total_weight(of_type(catalog, "environmental weapon"@)) > 0 ==> weapon_placed(
        map,
        catalog,
        rooms,
    )
}

/// The player stands on the entry room's inner doorway cell.
pub open spec fn player_at_doorway(p: Object, rooms: Seq<Rect>) -> bool {
    exists|i: int|
        #[trigger] is_entry_room(rooms, i) && p.x == 1 && p.y as int == rooms[i].y2 as int / 2
}

/// Generates a whole small building: one or two floors, each carved by
/// the space partition and populated, with the player preserved as the
/// one actor carried over and placed in the first floor's entry room.
/// Everything of the player but the position survives regeneration.
pub fn make_suburban_home(
    item_types: &ObjectTypes,
    actor_types: &ObjectTypes,
    actors: &mut Vec<Object>,
) -> (plan: BuildingPlan)
    requires
        old(actors)@.len() >= 1,
        has_class(item_types.classes(), "drywall"@),
        has_class(item_types.classes(), "carpet"@),
        has_class(item_types.classes(), "stairs"@),
        has_class(item_types.classes(), "stairs up"@),
        0 < total_weight(of_type(item_types.classes(), "door"@)) <= u64::MAX,
        total_weight(of_type(item_types.classes(), "environmental weapon"@)) <= u64::MAX,
    ensures
        plan@.len() >= 1,
        forall|f: int|
            0 <= f < plan@.len() ==> generated_level(
                (#[trigger] plan@[f]).map,
                plan@[f].rooms@,
                item_types.classes(),
                f,
            ),
        final(actors)@.len() == 1,
        final(actors)@[0] == (Object {
            x: final(actors)@[0].x,
            y: final(actors)@[0].y,
            ..old(actors)@[0]
        }),
        player_at_doorway(final(actors)@[0], plan@[0].rooms@),
{
    let wall_class = item_types.get_class("drywall");
    let carpet = item_types.get_class("carpet");
    actors.truncate(1);
    proof {
        assert(actors@ =~= old(actors)@.take(1));
    }
    let mut plan: Vec<Floor> = Vec::new();
    let levels = rand_range_i32(1, 3);
    let mut level: i32 = 0;
    while level < levels
        invariant
            0 <= level <= levels,
            1 <= levels <= 2,
            plan@.len() == level as int,
            old(actors)@.len() >= 1,
            forall|f: int|
                0 <= f < plan@.len() ==> generated_level(
                    (#[trigger] plan@[f]).map,
                    plan@[f].rooms@,
                    item_types.classes(),
                    f,
                ),
            level > 0 ==> player_at_doorway(actors@[0], plan@[0].rooms@),
            actors@.len() == 1,
            actors@[0] == (Object { x: actors@[0].x, y: actors@[0].y, ..old(actors)@[0] }),
            has_class(item_types.classes(), "stairs"@),
            has_class(item_types.classes(), "stairs up"@),
            0 < total_weight(of_type(item_types.classes(), "door"@)) <= u64::MAX,
            total_weight(of_type(item_types.classes(), "environmental weapon"@)) <= u64::MAX,
        decreases levels - level,
    {
        let mut floor = make_floor(&carpet, &wall_class);
        let stairs_loc = place_objects(
            level as usize,
            &floor.rooms,
            &mut floor.map,
            item_types,
            (0, 0),
        );
        if level == 0 {
            proof {
                assert(is_entry_room(floor.rooms@, 0));
            }
            place_actors(0, &floor.rooms, actor_types, actors);
        }
        let ghost placed = floor;
        let ghost plan_pre = plan@;
        plan.push(floor);
        proof {
            assert(stairs_placed(
                placed.map,
                item_types.classes(),
                level as int,
                stairs_loc.0 as int,
                stairs_loc.1 as int,
            ));
            assert(is_entry_room(placed.rooms@, 0));
            assert(generated_level(placed.map, placed.rooms@, item_types.classes(), level as int));
            assert forall|f: int| 0 <= f < plan@.len() implies generated_level(
                (#[trigger] plan@[f]).map,
                plan@[f].rooms@,
                item_types.classes(),
                f,
            ) by {
                if f == level as int {
                    assert(plan@[f] == placed);
                } else {
                    assert(plan@[f] == plan_pre[f]);
                }
            }
            if level == 0 {
                assert(player_at_doorway(actors@[0], placed.rooms@));
                assert(plan@[0] == placed);
            } else {
                assert(plan@[0] == plan_pre[0]);
            }
        }
        level += 1;
    }
    plan
}

/// Regenerates the building for the given actor list: everything but
/// the player is discarded, the floors are carved and populated anew,
/// and the player keeps every attribute but the position.
pub fn make_map(
    actors: &mut Vec<Object>,
    item_types: &ObjectTypes,
    actor_types: &ObjectTypes,
) -> (plan: BuildingPlan)
    requires
        old(actors)@.len() >= 1,
        has_class(item_types.classes(), "drywall"@),
        has_class(item_types.classes(), "carpet"@),
        has_class(item_types.classes(), "stairs"@),
        has_class(item_types.classes(), "stairs up"@),
        0 < total_weight(of_type(item_types.classes(), "door"@)) <= u64::MAX,
        total_weight(of_type(item_types.classes(), "environmental weapon"@)) <= u64::MAX,
    ensures
        plan@.len() >= 1,
        forall|f: int|
            0 <= f < plan@.len() ==> generated_level(
                (#[trigger] plan@[f]).map,
                plan@[f].rooms@,
                item_types.classes(),
                f,
            ),
        final(actors)@.len() == 1,
        final(actors)@[0] == (Object {
            x: final(actors)@[0].x,
            y: final(actors)@[0].y,
            ..old(actors)@[0]
        }),
        player_at_doorway(final(actors)@[0], plan@[0].rooms@),
{
    make_suburban_home(item_types, actor_types, actors)
}

} // verus!