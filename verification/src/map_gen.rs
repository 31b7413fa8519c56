//! The dungeon generator: randomized room placement, L-shaped tunnels,
//! depth-scaled population, and the stairs marker.

use vstd::prelude::*;

use crate::color::ColorTag;
use crate::game::{is_blocked, spec_is_blocked, DUNGEON_LEVEL_MAX, PLAYER};
use crate::item::Item;
use crate::item::spec_item_object;
use crate::monster::{spec_orc, spec_troll, Monster};
use crate::name::{Name, NameKind};
use crate::object::Object;
use crate::rng::{rand_flip, rand_range, sample_weighted};
use crate::tile::{DungeonMap, Tile, MAP_HEIGHT, MAP_WIDTH};

verus! {

/// Largest room side length, walls included.
pub const ROOM_MAX_SIZE: i32 = 10;
/// Smallest room side length, walls included.
pub const ROOM_MIN_SIZE: i32 = 6;
/// How many room placements each level attempts.
pub const MAX_ROOMS: i32 = 30;

/// A room's bounding box: corners (x1, y1) and (x2, y2), both inclusive in
/// the overlap test, with the walkable interior strictly inside.
#[derive(Clone, Copy, PartialEq, Eq, Structural, Debug)]
pub struct RoomRect {
    pub x1: i32,
    pub y1: i32,
    pub x2: i32,
    pub y2: i32,
}

/// Whether two bounding boxes overlap, edges included: rooms that merely
/// touch count as overlapping, so accepted rooms never share even a border
/// tile.
pub open spec fn spec_intersects(a: RoomRect, b: RoomRect) -> bool {
    a.x1 <= b.x2 && a.x2 >= b.x1 && a.y1 <= b.y2 && a.y2 >= b.y1
}

/// Every pair of rooms in the list is non-overlapping under the
/// inclusive-boundary rule.
pub open spec fn rooms_disjoint(rooms: Seq<RoomRect>) -> bool {
    forall|i: int, j: int|
        0 <= i < j < rooms.len() ==> !spec_intersects(#[trigger] rooms[i], #[trigger] rooms[j])
}

/// The grid point at a room's center; always strictly inside the room.
pub open spec fn spec_center(r: RoomRect) -> (int, int) {
    ((r.x1 + r.x2) / 2, (r.y1 + r.y2) / 2)
}

impl RoomRect {
    /// A placed room sits fully on the grid and is at least two tiles wide in
    /// each direction, so its center lies strictly inside it.
    pub open spec fn wf(self) -> bool {
        &&& 0 <= self.x1
        &&& self.x1 + 2 <= self.x2 < MAP_WIDTH
        &&& 0 <= self.y1
        &&& self.y1 + 2 <= self.y2 < MAP_HEIGHT
    }

    /// A bounding box with top-left corner (x, y), width w and height h.
    pub fn new(x: i32, y: i32, w: i32, h: i32) -> (r: RoomRect)
        requires
            0 <= x,
            0 <= y,
            2 <= w,
            2 <= h,
            x + w < MAP_WIDTH,
            y + h < MAP_HEIGHT,
        ensures
            r == (RoomRect { x1: x, y1: y, x2: (x + w) as i32, y2: (y + h) as i32 }),
            r.wf(),
    {
        RoomRect { x1: x, y1: y, x2: x + w, y2: y + h }
    }

    /// The room's center tile.
    pub fn center(&self) -> (c: (i32, i32))
        requires
            self.wf(),
        ensures
            (c.0 as int, c.1 as int) == spec_center(*self),
            self.x1 < c.0 < self.x2,
            self.y1 < c.1 < self.y2,
    {
        ((self.x1 + self.x2) / 2, (self.y1 + self.y2) / 2)
    }

    /// The inclusive-boundary overlap test.
    pub fn intersects(&self, other: &RoomRect) -> (r: bool)
        ensures
            r == spec_intersects(*self, *other),
    {
        self.x1 <= other.x2 && self.x2 >= other.x1 && self.y1 <= other.y2 && self.y2 >= other.y1
    }
}

/// Whether the candidate overlaps any already-accepted room.
fn intersects_any(candidate: &RoomRect, rooms: &Vec<RoomRect>) -> (r: bool)
    ensures
        r == exists|i: int|
            0 <= i < rooms@.len() && spec_intersects(*candidate, #[trigger] rooms@[i]),
{
    let n = rooms.len();
    let mut i: usize = 0;
    while i < n
        invariant
            n == rooms@.len(),
            i <= n,
            forall|j: int| 0 <= j < i ==> !spec_intersects(*candidate, #[trigger] rooms@[j]),
        decreases n - i,
    {
        if candidate.intersects(&rooms[i]) {
            return true;
        }
        i = i + 1;
    }
    false
}

/// Carve the interior of a room to empty tiles; the border and everything
/// outside the room are kept.
pub fn carve_room(room: &RoomRect, map: &mut DungeonMap)
    requires
        old(map).wf(),
        room.wf(),
    ensures
        final(map).wf(),
        forall|i: int, j: int|
            0 <= i < MAP_WIDTH && 0 <= j < MAP_HEIGHT ==> #[trigger] final(map).spec_tile(i, j)
                == (if room.x1 < i < room.x2 && room.y1 < j < room.y2 {
                    Tile { blocked: false, explored: false, block_sight: false }
                } else {
                    old(map).spec_tile(i, j)
                }),
{
    let mut i = room.x1 + 1;
    while i < room.x2
        invariant
            map.wf(),
            room.wf(),
            room.x1 + 1 <= i <= room.x2,
            forall|a: int, b: int|
                0 <= a < MAP_WIDTH && 0 <= b < MAP_HEIGHT ==> #[trigger] map.spec_tile(a, b) == (
                if room.x1 < a < i && room.y1 < b < room.y2 {
                    Tile { blocked: false, explored: false, block_sight: false }
                } else {
                    old(map).spec_tile(a, b)
                }),
        decreases room.x2 - i,
    {
        let mut j = room.y1 + 1;
        while j < room.y2
            invariant
                map.wf(),
                room.wf(),
                room.x1 < i < room.x2,
                room.y1 + 1 <= j <= room.y2,
                forall|a: int, b: int|
                    0 <= a < MAP_WIDTH && 0 <= b < MAP_HEIGHT ==> #[trigger] map.spec_tile(a, b)
                        == (if (room.x1 < a < i && room.y1 < b < room.y2) || (a == i && room.y1 < b
                        < j) {
                        Tile { blocked: false, explored: false, block_sight: false }
                    } else {
                        old(map).spec_tile(a, b)
                    }),
            decreases room.y2 - j,
        {
            map.set_tile(i, j, Tile::empty());
            j = j + 1;
        }
        i = i + 1;
    }
}

/// Carve a horizontal tunnel along row y, from the smaller of x1, x2 to the
/// larger, both included.
pub fn carve_h_tunnel(x1: i32, x2: i32, y: i32, map: &mut DungeonMap)
    requires
        old(map).wf(),
        0 <= x1 < MAP_WIDTH,
        0 <= x2 < MAP_WIDTH,
        0 <= y < MAP_HEIGHT,
    ensures
        final(map).wf(),
        forall|i: int, j: int|
            0 <= i < MAP_WIDTH && 0 <= j < MAP_HEIGHT ==> #[trigger] final(map).spec_tile(i, j)
                == (if j == y && (if x1 <= x2 {
                    x1 <= i <= x2
                } else {
                    x2 <= i <= x1
                }) {
                    Tile { blocked: false, explored: false, block_sight: false }
                } else {
                    old(map).spec_tile(i, j)
                }),
{
    let from = if x1 <= x2 {
        x1
    } else {
        x2
    };
    let to = if x1 <= x2 {
        x2
    } else {
        x1
    };
    let mut i = from;
    while i <= to
        invariant
            map.wf(),
            from <= i <= to + 1,
            0 <= from,
            to < MAP_WIDTH,
            0 <= y < MAP_HEIGHT,
            forall|a: int, b: int|
                0 <= a < MAP_WIDTH && 0 <= b < MAP_HEIGHT ==> #[trigger] map.spec_tile(a, b) == (
                if b == y && from <= a < i {
                    Tile { blocked: false, explored: false, block_sight: false }
                } else {
                    old(map).spec_tile(a, b)
                }),
        decreases to + 1 - i,
    {
        map.set_tile(i, y, Tile::empty());
        i = i + 1;
    }
}

/// Carve a vertical tunnel along column x, from the smaller of y1, y2 to the
/// larger, both included.
pub fn carve_v_tunnel(y1: i32, y2: i32, x: i32, map: &mut DungeonMap)
    requires
        old(map).wf(),
        0 <= y1 < MAP_HEIGHT,
        0 <= y2 < MAP_HEIGHT,
        0 <= x < MAP_WIDTH,
    ensures
        final(map).wf(),
        forall|i: int, j: int|
            0 <= i < MAP_WIDTH && 0 <= j < MAP_HEIGHT ==> #[trigger] final(map).spec_tile(i, j)
                == (if i == x && (if y1 <= y2 {
                    y1 <= j <= y2
                } else {
                    y2 <= j <= y1
                }) {
                    Tile { blocked: false, explored: false, block_sight: false }
                } else {
                    old(map).spec_tile(i, j)
                }),
{
    let from = if y1 <= y2 {
        y1
    } else {
        y2
    };
    let to = if y1 <= y2 {
        y2
    } else {
        y1
    };
    let mut j = from;
    while j <= to
        invariant
            map.wf(),
            from <= j <= to + 1,
            0 <= from,
            to < MAP_HEIGHT,
            0 <= x < MAP_WIDTH,
            forall|a: int, b: int|
                0 <= a < MAP_WIDTH && 0 <= b < MAP_HEIGHT ==> #[trigger] map.spec_tile(a, b) == (
                if a == x && from <= b < j {
                    Tile { blocked: false, explored: false, block_sight: false }
                } else {
                    old(map).spec_tile(a, b)
                }),
        decreases to + 1 - j,
    {
        map.set_tile(x, j, Tile::empty());
        j = j + 1;
    }
}

/// Law (room placement): the accepted rooms of a level are pairwise
/// non-overlapping under the inclusive-boundary rule, at least one room is
/// always accepted, and every room sits fully on the grid. Tunnels between
/// consecutive accepted rooms' centers are carved as a side effect.
pub fn plan_rooms(map: &mut DungeonMap) -> (rooms: Vec<RoomRect>)
    requires
        old(map).wf(),
        fresh_tiles(*old(map)),
    ensures
        final(map).wf(),
        fresh_tiles(*final(map)),
        rooms@.len() >= 1,
        forall|i: int| 0 <= i < rooms@.len() ==> (#[trigger] rooms@[i]).wf(),
        rooms_disjoint(rooms@),
        tunnels_carved(*final(map), rooms@),
{
    let mut rooms: Vec<RoomRect> = Vec::new();
    let mut attempt: i32 = 0;
    while attempt < MAX_ROOMS
        invariant
            map.wf(),
            fresh_tiles(*map),
            0 <= attempt <= MAX_ROOMS,
            attempt >= 1 ==> rooms@.len() >= 1,
            forall|i: int| 0 <= i < rooms@.len() ==> (#[trigger] rooms@[i]).wf(),
            rooms_disjoint(rooms@),
            tunnels_carved(*map, rooms@),
        decreases MAX_ROOMS - attempt,
    {
        let w = rand_range(ROOM_MIN_SIZE, ROOM_MAX_SIZE + 1);
        let h = rand_range(ROOM_MIN_SIZE, ROOM_MAX_SIZE + 1);
        let x = rand_range(0, MAP_WIDTH - w);
        let y = rand_range(0, MAP_HEIGHT - h);

        let new_room = RoomRect::new(x, y, w, h);
        let failed = intersects_any(&new_room, &rooms);

        if !failed {
            if rooms.len() > 0 {
                let ghost map0 = *map;
                let prev = rooms[rooms.len() - 1];
                let (prev_x, prev_y) = prev.center();
                let (new_x, new_y) = new_room.center();
                if rand_flip() {
                    carve_h_tunnel(prev_x, new_x, prev_y, map);
                    let ghost map_h = *map;
                    carve_v_tunnel(prev_y, new_y, new_x, map);
                    proof {
                        assert(only_carves(map0, map_h));
                        assert(only_carves(map_h, *map));
                        assert(only_carves(map0, *map));
                        lemma_carving_keeps_tunnels(map0, *map, rooms@);
                        assert(h_seg_carved(*map, prev_x as int, new_x as int, prev_y as int));
                        assert(v_seg_carved(*map, prev_y as int, new_y as int, new_x as int));
                    }
                } else {
                    carve_v_tunnel(prev_y, new_y, prev_x, map);
                    let ghost map_v = *map;
                    carve_h_tunnel(prev_x, new_x, new_y, map);
                    proof {
                        assert(only_carves(map0, map_v));
                        assert(only_carves(map_v, *map));
                        assert(only_carves(map0, *map));
                        lemma_carving_keeps_tunnels(map0, *map, rooms@);
                        assert(v_seg_carved(*map, prev_y as int, new_y as int, prev_x as int));
                        assert(h_seg_carved(*map, prev_x as int, new_x as int, new_y as int));
                    }
                }
                proof {
                    assert(l_tunnel_carved(
                        *map,
                        spec_center(prev).0,
                        spec_center(prev).1,
                        spec_center(new_room).0,
                        spec_center(new_room).1,
                    ));
                }
            }
            let ghost before = rooms@;
            rooms.push(new_room);
            proof {
                assert forall|i: int, j: int| 0 <= i < j < rooms@.len()
                    implies !spec_intersects(#[trigger] rooms@[i], #[trigger] rooms@[j]) by {
                    if j == rooms@.len() - 1 {
                        assert(!spec_intersects(new_room, before[i]));
                    }
                }
                assert forall|i: int| 1 <= i < rooms@.len() implies l_tunnel_carved(
                    *map,
                    spec_center(rooms@[i - 1]).0,
                    spec_center(rooms@[i - 1]).1,
                    spec_center(#[trigger] rooms@[i]).0,
                    spec_center(rooms@[i]).1,
                ) by {
                    if i < rooms@.len() - 1 {
                        assert(rooms@[i - 1] == before[i - 1]);
                        assert(rooms@[i] == before[i]);
                    } else {
                        assert(rooms@[i - 1] == before.last());
                        assert(rooms@[i] == new_room);
                    }
                }
            }
        }
        attempt = attempt + 1;
    }
    rooms
}


/// One step of a depth-scaled table: the value of the deepest threshold the
/// level has reached.
#[derive(Clone, Copy, PartialEq, Eq, Structural, Debug)]
pub struct Transition {
    pub level: u32,
    pub value: u32,
}

/// The value of the last table entry whose threshold the level has reached,
/// or 0 when none is reached.
pub open spec fn spec_from_dungeon_level(table: Seq<Transition>, level: u32) -> u32
    decreases table.len(),
{
    if table.len() == 0 {
        0u32
    } else if level >= table.last().level {
        table.last().value
    } else {
        spec_from_dungeon_level(table.drop_last(), level)
    }
}

/// Look up a depth-scaled parameter: scan the table from its deepest entry
/// down and return the first value whose threshold the level has reached.
pub fn from_dungeon_level(table: &Vec<Transition>, level: u32) -> (r: u32)
    ensures
        r == spec_from_dungeon_level(table@, level),
{
    proof {
        assert(table@.take(table@.len() as int) =~= table@);
    }
    let mut i = table.len();
    while i > 0
        invariant
            i <= table@.len(),
            spec_from_dungeon_level(table@, level) == spec_from_dungeon_level(
                table@.take(i as int),
                level,
            ),
        decreases i,
    {
        i = i - 1;
        proof {
            assert(table@.take(i + 1int).drop_last() =~= table@.take(i as int));
            assert(table@.take(i + 1int).last() == table@[i as int]);
        }
        if level >= table[i].level {
            return table[i].value;
        }
    }
    0
}

/// A table's lookup never exceeds the largest value in it.
pub proof fn lemma_from_dungeon_level_bounded(table: Seq<Transition>, level: u32, bound: u32)
    requires
        forall|i: int| 0 <= i < table.len() ==> (#[trigger] table[i]).value <= bound,
    ensures
        spec_from_dungeon_level(table, level) <= bound,
    decreases table.len(),
{
    if table.len() > 0 {
        lemma_from_dungeon_level_bounded(table.drop_last(), level, bound);
    }
}

/// The tile value every fresh wall holds.
pub open spec fn wall_tile() -> Tile {
    Tile { blocked: true, explored: false, block_sight: true }
}

/// The tile value every carved floor holds on a fresh map.
pub open spec fn empty_tile() -> Tile {
    Tile { blocked: false, explored: false, block_sight: false }
}

/// Every tile of a freshly generated map is an unexplored wall or an
/// unexplored carved floor — in particular, nothing is explored.
pub open spec fn fresh_tiles(map: DungeonMap) -> bool {
    forall|x: int, y: int|
        0 <= x < MAP_WIDTH && 0 <= y < MAP_HEIGHT ==> #[trigger] map.spec_tile(x, y) == wall_tile()
            || map.spec_tile(x, y) == empty_tile()
}

/// A map refines another when it only carves: every tile is freshly carved
/// floor or unchanged.
pub open spec fn only_carves(map0: DungeonMap, map1: DungeonMap) -> bool {
    forall|x: int, y: int|
        0 <= x < MAP_WIDTH && 0 <= y < MAP_HEIGHT ==> #[trigger] map1.spec_tile(x, y)
            == empty_tile() || map1.spec_tile(x, y) == map0.spec_tile(x, y)
}

/// A horizontal run of carved floor along row y between two columns, both
/// included.
pub open spec fn h_seg_carved(map: DungeonMap, xa: int, xb: int, y: int) -> bool {
    forall|i: int|
        (if xa <= xb {
            xa <= i <= xb
        } else {
            xb <= i <= xa
        }) ==> #[trigger] map.spec_tile(i, y) == empty_tile()
}

/// A vertical run of carved floor along column x between two rows, both
/// included.
pub open spec fn v_seg_carved(map: DungeonMap, ya: int, yb: int, x: int) -> bool {
    forall|j: int|
        (if ya <= yb {
            ya <= j <= yb
        } else {
            yb <= j <= ya
        }) ==> #[trigger] map.spec_tile(x, j) == empty_tile()
}

/// An L-shaped tunnel between two points is fully carved, in one of its two
/// orientations: horizontal-then-vertical or vertical-then-horizontal.
pub open spec fn l_tunnel_carved(map: DungeonMap, ax: int, ay: int, bx: int, by: int) -> bool {
    (h_seg_carved(map, ax, bx, ay) && v_seg_carved(map, ay, by, bx)) || (v_seg_carved(
        map,
        ay,
        by,
        ax,
    ) && h_seg_carved(map, ax, bx, by))
}

/// Consecutive accepted rooms' centers are joined by carved L-tunnels.
pub open spec fn tunnels_carved(map: DungeonMap, rooms: Seq<RoomRect>) -> bool {
    forall|i: int|
        1 <= i < rooms.len() ==> l_tunnel_carved(
            map,
            spec_center(rooms[i - 1]).0,
            spec_center(rooms[i - 1]).1,
            spec_center(#[trigger] rooms[i]).0,
            spec_center(rooms[i]).1,
        )
}

/// Every tile strictly inside an accepted room is carved floor.
pub open spec fn rooms_carved(map: DungeonMap, rooms: Seq<RoomRect>) -> bool {
    forall|ri: int, x: int, y: int|
        0 <= ri < rooms.len() && in_room_interior(#[trigger] rooms[ri], x, y)
            ==> #[trigger] map.spec_tile(x, y) == empty_tile()
}

/// Further carving keeps carved tunnels carved.
proof fn lemma_carving_keeps_tunnels(map0: DungeonMap, map1: DungeonMap, rooms: Seq<RoomRect>)
    requires
        forall|i: int| 0 <= i < rooms.len() ==> (#[trigger] rooms[i]).wf(),
        tunnels_carved(map0, rooms),
        only_carves(map0, map1),
    ensures
        tunnels_carved(map1, rooms),
{
    assert forall|i: int| 1 <= i < rooms.len() implies l_tunnel_carved(
        map1,
        spec_center(rooms[i - 1]).0,
        spec_center(rooms[i - 1]).1,
        spec_center(#[trigger] rooms[i]).0,
        spec_center(rooms[i]).1,
    ) by {
        assert(rooms[i - 1].wf());
        assert(rooms[i].wf());
    }
}

/// Further carving keeps carved room interiors carved.
proof fn lemma_carving_keeps_rooms(map0: DungeonMap, map1: DungeonMap, rooms: Seq<RoomRect>)
    requires
        forall|i: int| 0 <= i < rooms.len() ==> (#[trigger] rooms[i]).wf(),
        rooms_carved(map0, rooms),
        only_carves(map0, map1),
    ensures
        rooms_carved(map1, rooms),
{
    assert forall|ri: int, x: int, y: int|
        0 <= ri < rooms.len() && in_room_interior(#[trigger] rooms[ri], x, y) implies #[trigger] map1.spec_tile(
        x,
        y,
    ) == empty_tile() by {
        assert(rooms[ri].wf());
        assert(map0.spec_tile(x, y) == empty_tile());
    }
}

/// Whether (x, y) lies strictly inside the room: on a carved, walkable tile.
pub open spec fn in_room_interior(room: RoomRect, x: int, y: int) -> bool {
    room.x1 < x < room.x2 && room.y1 < y < room.y2
}

/// Most monsters one room may spawn, scaled by depth.
pub open spec fn spec_max_monsters(level: u32) -> u32 {
    if level >= 6 {
        5u32
    } else if level >= 4 {
        3u32
    } else if level >= 1 {
        2u32
    } else {
        0u32
    }
}

/// Most items one room may spawn, scaled by depth.
pub open spec fn spec_max_items(level: u32) -> u32 {
    if level >= 4 {
        2u32
    } else if level >= 1 {
        1u32
    } else {
        0u32
    }
}

/// A monster exactly as this level's generator spawns it: an orc, or — at
/// depth 3 and beyond, where the troll weight first becomes positive — a
/// troll, fresh at its own position (behavior state `Basic`, full health).
pub open spec fn spec_fresh_monster(o: Object, level: u32) -> bool {
    o == spec_orc(o.x, o.y) || (level >= 3 && o == spec_troll(o.x, o.y))
}

/// An item exactly as the generator drops it: some item kind's floor entity
/// at its own position, marked permanently visible.
pub open spec fn spec_fresh_item(o: Object) -> bool {
    exists|kind: Item|
        o == (Object { always_visible: true, ..#[trigger] spec_item_object(kind, o.x, o.y) })
}

/// Populate one room: a depth-scaled random number of monsters, then a
/// depth-scaled random number of items, each on a random unblocked interior
/// tile (a blocked sample is skipped, not retried). Everything already in
/// the collection is kept in place; every appended entity is one of this
/// room's fresh spawns.
pub fn fill_with_objects(room: &RoomRect, map: &DungeonMap, objects: &mut Vec<Object>, level: u32)
    -> (mid: usize)
    requires
        map.wf(),
        room.wf(),
        forall|i: int| 0 <= i < old(objects)@.len() ==> (#[trigger] old(objects)@[i]).wf(),
    ensures
        final(objects)@.len() >= old(objects)@.len(),
        forall|i: int| 0 <= i < old(objects)@.len() ==> #[trigger] final(objects)@[i] == old(objects)@[i],
        forall|i: int| 0 <= i < final(objects)@.len() ==> (#[trigger] final(objects)@[i]).wf(),
        // the monsters come first, then the items, `mid` their boundary
        old(objects)@.len() <= mid <= final(objects)@.len(),
        mid - old(objects)@.len() <= spec_max_monsters(level),
        final(objects)@.len() - mid <= spec_max_items(level),
        forall|k: int|
            old(objects)@.len() <= k < mid ==> spec_fresh_monster(
                #[trigger] final(objects)@[k],
                level,
            ),
        forall|k: int|
            mid <= k < final(objects)@.len() ==> spec_fresh_item(#[trigger] final(objects)@[k]),
        forall|k: int|
            old(objects)@.len() <= k < final(objects)@.len() ==> in_room_interior(
                *room,
                (#[trigger] final(objects)@[k]).x as int,
                final(objects)@[k].y as int,
            ),
        // each spawn landed on a tile that was not blocked when it was placed:
        // neither a wall nor occupied by anything placed before it
        forall|k: int|
            old(objects)@.len() <= k < final(objects)@.len() ==> !spec_is_blocked(
                (#[trigger] final(objects)@[k]).x as int,
                final(objects)@[k].y as int,
                *map,
                final(objects)@.take(k),
            ),
{
    let mut monster_table: Vec<Transition> = Vec::new();
    monster_table.push(Transition { level: 1, value: 2 });
    monster_table.push(Transition { level: 4, value: 3 });
    monster_table.push(Transition { level: 6, value: 5 });
    let max_monsters = from_dungeon_level(&monster_table, level);
    proof {
        reveal_with_fuel(spec_from_dungeon_level, 5);
        assert(monster_table@.drop_last() =~= seq![
            Transition { level: 1, value: 2 },
            Transition { level: 4, value: 3 },
        ]);
        assert(monster_table@.drop_last().drop_last() =~= seq![
            Transition { level: 1, value: 2 },
        ]);
        assert(monster_table@.drop_last().drop_last().drop_last() =~= Seq::<Transition>::empty());
        assert(max_monsters == spec_max_monsters(level));
    }

    let mut troll_table: Vec<Transition> = Vec::new();
    troll_table.push(Transition { level: 3, value: 15 });
    troll_table.push(Transition { level: 5, value: 30 });
    troll_table.push(Transition { level: 7, value: 60 });
    let troll_chance = from_dungeon_level(&troll_table, level);
    proof {
        reveal_with_fuel(spec_from_dungeon_level, 5);
        lemma_from_dungeon_level_bounded(troll_table@, level, 60);
        assert(troll_table@.drop_last() =~= seq![
            Transition { level: 3, value: 15 },
            Transition { level: 5, value: 30 },
        ]);
        assert(troll_table@.drop_last().drop_last() =~= seq![
            Transition { level: 3, value: 15 },
        ]);
        assert(troll_table@.drop_last().drop_last().drop_last() =~= Seq::<Transition>::empty());
        assert(level < 3 ==> troll_chance == 0);
    }

    let mut monster_weights: Vec<u32> = Vec::new();
    monster_weights.push(80);
    monster_weights.push(troll_chance);

    let ghost base_len = objects@.len();
    let num_monsters = rand_range(0, max_monsters as i32 + 1);
    let mut placed: i32 = 0;
    while placed < num_monsters
        invariant
            map.wf(),
            room.wf(),
            monster_weights@.len() == 2,
            monster_weights@[0] == 80,
            monster_weights@[1] <= 60,
            level < 3 ==> monster_weights@[1] == 0,
            base_len == old(objects)@.len(),
            0 <= placed <= num_monsters,
            num_monsters <= spec_max_monsters(level),
            objects@.len() - base_len <= placed,
            objects@.len() >= base_len,
            forall|i: int| 0 <= i < base_len ==> #[trigger] objects@[i] == old(objects)@[i],
            forall|i: int| 0 <= i < objects@.len() ==> (#[trigger] objects@[i]).wf(),
            forall|k: int|
                base_len <= k < objects@.len() ==> spec_fresh_monster(
                    #[trigger] objects@[k],
                    level,
                ),
            forall|k: int|
                base_len <= k < objects@.len() ==> in_room_interior(
                    *room,
                    (#[trigger] objects@[k]).x as int,
                    objects@[k].y as int,
                ),
            forall|k: int|
                base_len <= k < objects@.len() ==> !spec_is_blocked(
                    (#[trigger] objects@[k]).x as int,
                    objects@[k].y as int,
                    *map,
                    objects@.take(k),
                ),
        decreases num_monsters - placed,
    {
        let x = rand_range(room.x1 + 1, room.x2);
        let y = rand_range(room.y1 + 1, room.y2);

        if !is_blocked(x, y, map, objects) {
            let idx = sample_weighted(&monster_weights);
            let kind = if idx == 0 {
                Monster::Orc
            } else {
                Monster::Troll
            };
            let monster = Monster::create(kind, x, y);
            let ghost before = objects@;
            objects.push(monster);
            proof {
                assert(objects@.take(objects@.len() - 1) =~= before);
                assert forall|k: int| base_len <= k < before.len() implies objects@.take(k)
                    == before.take(k) by {
                    assert(objects@.take(k) =~= before.take(k));
                }
            }
        }
        placed = placed + 1;
    }

    let mut item_table: Vec<Transition> = Vec::new();
    item_table.push(Transition { level: 1, value: 1 });
    item_table.push(Transition { level: 4, value: 2 });
    let max_items = from_dungeon_level(&item_table, level);
    proof {
        reveal_with_fuel(spec_from_dungeon_level, 4);
        assert(item_table@.drop_last() =~= seq![Transition { level: 1, value: 1 }]);
        assert(item_table@.drop_last().drop_last() =~= Seq::<Transition>::empty());
        assert(max_items == spec_max_items(level));
    }

    let mut sword_table: Vec<Transition> = Vec::new();
    sword_table.push(Transition { level: 4, value: 5 });
    let sword_chance = from_dungeon_level(&sword_table, level);
    proof {
        lemma_from_dungeon_level_bounded(sword_table@, level, 5);
    }
    let mut shield_table: Vec<Transition> = Vec::new();
    shield_table.push(Transition { level: 8, value: 15 });
    let shield_chance = from_dungeon_level(&shield_table, level);
    proof {
        lemma_from_dungeon_level_bounded(shield_table@, level, 15);
    }
    let mut lightning_table: Vec<Transition> = Vec::new();
    lightning_table.push(Transition { level: 4, value: 25 });
    let lightning_chance = from_dungeon_level(&lightning_table, level);
    proof {
        lemma_from_dungeon_level_bounded(lightning_table@, level, 25);
    }
    let mut fireball_table: Vec<Transition> = Vec::new();
    fireball_table.push(Transition { level: 6, value: 25 });
    let fireball_chance = from_dungeon_level(&fireball_table, level);
    proof {
        lemma_from_dungeon_level_bounded(fireball_table@, level, 25);
    }
    let mut confusion_table: Vec<Transition> = Vec::new();
    confusion_table.push(Transition { level: 2, value: 10 });
    let confusion_chance = from_dungeon_level(&confusion_table, level);
    proof {
        lemma_from_dungeon_level_bounded(confusion_table@, level, 10);
    }

    let mut item_weights: Vec<u32> = Vec::new();
    item_weights.push(35);
    item_weights.push(sword_chance);
    item_weights.push(shield_chance);
    item_weights.push(lightning_chance);
    item_weights.push(fireball_chance);
    item_weights.push(confusion_chance);

    let num_items = rand_range(0, max_items as i32 + 1);
    let mid = objects.len();
    let ghost mid_len = objects@.len();
    let mut placed_items: i32 = 0;
    while placed_items < num_items
        invariant
            map.wf(),
            room.wf(),
            item_weights@.len() == 6,
            item_weights@[0] == 35,
            forall|i: int| 0 <= i < 6 ==> item_weights@[i] <= 35,
            base_len == old(objects)@.len(),
            base_len <= mid_len,
            mid == mid_len,
            mid_len - base_len <= spec_max_monsters(level),
            0 <= placed_items <= num_items,
            num_items <= spec_max_items(level),
            objects@.len() - mid_len <= placed_items,
            objects@.len() >= mid_len,
            forall|i: int| 0 <= i < base_len ==> #[trigger] objects@[i] == old(objects)@[i],
            forall|i: int| 0 <= i < objects@.len() ==> (#[trigger] objects@[i]).wf(),
            forall|k: int|
                base_len <= k < mid_len ==> spec_fresh_monster(#[trigger] objects@[k], level),
            forall|k: int|
                mid_len <= k < objects@.len() ==> spec_fresh_item(#[trigger] objects@[k]),
            forall|k: int|
                base_len <= k < objects@.len() ==> in_room_interior(
                    *room,
                    (#[trigger] objects@[k]).x as int,
                    objects@[k].y as int,
                ),
            forall|k: int|
                base_len <= k < objects@.len() ==> !spec_is_blocked(
                    (#[trigger] objects@[k]).x as int,
                    objects@[k].y as int,
                    *map,
                    objects@.take(k),
                ),
        decreases num_items - placed_items,
    {
        let x = rand_range(room.x1 + 1, room.x2);
        let y = rand_range(room.y1 + 1, room.y2);

        if !is_blocked(x, y, map, objects) {
            let idx = sample_weighted(&item_weights);
            let kind = if idx == 0 {
                Item::Heal
            } else if idx == 1 {
                Item::Sword
            } else if idx == 2 {
                Item::Shield
            } else if idx == 3 {
                Item::Lightning
            } else if idx == 4 {
                Item::Fireball
            } else {
                Item::Confusion
            };
            let mut item = Item::create(kind, x, y);
            item.always_visible = true;
            let ghost before = objects@;
            objects.push(item);
            proof {
                assert(objects@.take(objects@.len() - 1) =~= before);
                assert forall|k: int| base_len <= k < before.len() implies objects@.take(k)
                    == before.take(k) by {
                    assert(objects@.take(k) =~= before.take(k));
                }
                assert(spec_fresh_item(objects@.last())) by {
                    assert(objects@.last() == (Object {
                        always_visible: true,
                        ..spec_item_object(kind, x, y)
                    }));
                }
            }
        }
        placed_items = placed_items + 1;
    }
    mid
}

/// A freshly generated level: a grid of unexplored walls and carved floor
/// with pairwise non-overlapping rooms whose interiors and connecting
/// L-tunnels are carved; the player stands on the first accepted room's
/// center, the stairs marker closes the collection at the last accepted
/// room's center, both on walkable floor; and every entity between them is
/// one of this generation's fresh monster or item spawns.
pub open spec fn spec_fresh_level(map: DungeonMap, objects: Seq<Object>, level: u32) -> bool {
    &&& map.wf()
    &&& fresh_tiles(map)
    &&& objects.len() >= 2
    &&& (forall|i: int| 0 <= i < objects.len() ==> (#[trigger] objects[i]).wf())
    &&& ({
        let s = objects.last();
        &&& s.name == (Name { kind: NameKind::Stairs, remains: false })
        &&& s.always_visible
        &&& !s.blocks
        &&& s.glyph == '<'
        &&& s.fighter is None
        &&& s.ai is None
        &&& s.item is None
    })
    &&& (forall|k: int|
        1 <= k < objects.len() - 1 ==> spec_fresh_monster(#[trigger] objects[k], level)
            || spec_fresh_item(objects[k]))
    &&& exists|rooms: Seq<RoomRect>|
        #![auto]
        {
            &&& rooms.len() >= 1
            &&& rooms_disjoint(rooms)
            &&& (forall|i: int| 0 <= i < rooms.len() ==> (#[trigger] rooms[i]).wf())
            &&& rooms_carved(map, rooms)
            &&& tunnels_carved(map, rooms)
            &&& (objects[PLAYER as int].x as int, objects[PLAYER as int].y as int) == spec_center(
                rooms[0],
            )
            &&& (objects.last().x as int, objects.last().y as int) == spec_center(rooms.last())
        }
    &&& map.spec_tile(objects[PLAYER as int].x as int, objects[PLAYER as int].y as int)
        == empty_tile()
    &&& map.spec_tile(objects.last().x as int, objects.last().y as int) == empty_tile()
}

/// Build one dungeon level: place non-overlapping rooms, connect consecutive
/// rooms with L-shaped tunnels, put the player at the first room's center,
/// drop every other entity of the previous level, populate each room, and
/// mark the last room's center with the stairs.
pub fn make_map(objects: &mut Vec<Object>, level: u32) -> (m: DungeonMap)
    requires
        old(objects)@.len() >= 1,
        old(objects)@[PLAYER as int].wf(),
    ensures
        spec_fresh_level(m, final(objects)@, level),
        // the player is kept, only repositioned
        ({
            let p0 = old(objects)@[PLAYER as int];
            let p1 = final(objects)@[PLAYER as int];
            p1 == (Object { x: p1.x, y: p1.y, ..p0 })
        }),
{
    let mut map = DungeonMap::all_walls();
    let rooms = plan_rooms(&mut map);
    let ghost map_after_plan = map;

    // fresh start: drop everything except the player
    objects.truncate(1);

    let room0 = rooms[0];
    let (px, py) = room0.center();
    let mut player = objects.remove(PLAYER);
    player.set_pos(px, py);
    objects.insert(PLAYER, player);
    proof {
        assert(objects@ =~= seq![
            Object { x: px, y: py, ..old(objects)@[PLAYER as int] },
        ]);
    }

    let n = rooms.len();
    let mut r: usize = 0;
    while r < n
        invariant
            map.wf(),
            fresh_tiles(map),
            n == rooms@.len(),
            n >= 1,
            r <= n,
            forall|i: int| 0 <= i < rooms@.len() ==> (#[trigger] rooms@[i]).wf(),
            rooms_disjoint(rooms@),
            tunnels_carved(map, rooms@),
            rooms_carved(map, rooms@.take(r as int)),
            objects@.len() >= 1,
            objects@[PLAYER as int] == (Object {
                x: px,
                y: py,
                ..old(objects)@[PLAYER as int]
            }),
            forall|i: int| 0 <= i < objects@.len() ==> (#[trigger] objects@[i]).wf(),
            forall|k: int|
                1 <= k < objects@.len() ==> spec_fresh_monster(#[trigger] objects@[k], level)
                    || spec_fresh_item(objects@[k]),
        decreases n - r,
    {
        let ghost map0 = map;
        let ghost carved_so_far = rooms@.take(r as int);
        carve_room(&rooms[r], &mut map);
        proof {
            assert(only_carves(map0, map));
            lemma_carving_keeps_tunnels(map0, map, rooms@);
            lemma_carving_keeps_rooms(map0, map, carved_so_far);
            assert(rooms@.take(r + 1int).drop_last() =~= carved_so_far);
            assert forall|ri: int, x: int, y: int|
                0 <= ri < r + 1 && in_room_interior(#[trigger] rooms@.take(r + 1int)[ri], x, y)
                implies #[trigger] map.spec_tile(x, y) == empty_tile() by {
                assert(rooms@[ri].wf());
                if ri < r {
                    assert(rooms@.take(r + 1int)[ri] == carved_so_far[ri]);
                }
            }
        }
        let _ = fill_with_objects(&rooms[r], &map, objects, level);
        r = r + 1;
    }
    proof {
        assert(rooms@.take(n as int) =~= rooms@);
    }

    let room_last = rooms[n - 1];
    let (sx, sy) = room_last.center();
    let mut stairs = Object::new(
        sx,
        sy,
        '<',
        ColorTag::White,
        Name::fresh(NameKind::Stairs),
        false,
    );
    stairs.always_visible = true;
    objects.push(stairs);

    proof {
        assert(final(objects)@.last() == stairs);
        assert(rooms@[0] == room0);
        assert(rooms@.last() == room_last);
        // the player's and the stairs' tiles are room centers, strictly
        // inside their rooms, hence carved
        assert(in_room_interior(room0, px as int, py as int));
        assert(in_room_interior(room_last, sx as int, sy as int));
        assert(map.spec_tile(px as int, py as int) == empty_tile());
        assert(map.spec_tile(sx as int, sy as int) == empty_tile());
    }

    map
}

} // verus!
