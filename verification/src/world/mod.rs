//! Dungeon floors: room templates, floor layout and the tiles and walls that build them.

pub mod floor;
pub mod room;
pub mod tilemap;
pub mod wall_cells;

use vstd::prelude::*;

use floor::{Corridor, FloorMap, PlacedRoom};
use room::RoomTemplate;
use tilemap::in_world;

verus! {

/// A point on the ground plane, in world units (one tile is two units wide).
#[derive(Clone, Copy, Debug, PartialEq, Eq, Structural)]
pub struct GroundPoint {
    pub x: i64,
    pub z: i64,
}

impl GroundPoint {
    pub open spec fn plus(self, other: GroundPoint) -> GroundPoint {
        GroundPoint { x: (self.x + other.x) as i64, z: (self.z + other.z) as i64 }
    }
}

/// An axis-aligned rectangle on the ground plane, by its extreme coordinates.
#[derive(Clone, Copy, Debug, PartialEq, Eq, Structural)]
pub struct GroundBox {
    pub min_x: i64,
    pub max_x: i64,
    pub min_z: i64,
    pub max_z: i64,
}

/// The rectangle a room covers: its center plus and minus its half extents.
pub open spec fn room_box(room: PlacedRoom, templates: Seq<RoomTemplate>) -> GroundBox {
    let t = templates[room.template_index as int];
    GroundBox {
        min_x: (room.world_center.x - t.spec_half_extent_x()) as i64,
        max_x: (room.world_center.x + t.spec_half_extent_x()) as i64,
        min_z: (room.world_center.z - t.spec_half_extent_z()) as i64,
        max_z: (room.world_center.z + t.spec_half_extent_z()) as i64,
    }
}

/// The square a corridor end covers: the endpoint plus and minus half the corridor's
/// width (its width in tiles is its half width in world units).
pub open spec fn corridor_end_box(p: GroundPoint, width: i32) -> GroundBox {
    GroundBox {
        min_x: (p.x - width) as i64,
        max_x: (p.x + width) as i64,
        min_z: (p.z - width) as i64,
        max_z: (p.z + width) as i64,
    }
}

/// The rectangles the floor is made of: every room, then both ends of every corridor.
pub open spec fn floor_boxes(
    rooms: Seq<PlacedRoom>,
    templates: Seq<RoomTemplate>,
    corridors: Seq<Corridor>,
) -> Seq<GroundBox> {
    Seq::new(rooms.len(), |k: int| room_box(rooms[k], templates)) + Seq::new(
        2 * corridors.len(),
        |m: int|
            if m % 2 == 0 {
                corridor_end_box(corridors[m / 2].start, corridors[m / 2].width)
            } else {
                corridor_end_box(corridors[m / 2].end, corridors[m / 2].width)
            },
    )
}

/// Whether `e` is the smallest rectangle holding all of `boxes`.
pub open spec fn bounds_all(e: GroundBox, boxes: Seq<GroundBox>) -> bool {
    &&& forall|b: int|
        0 <= b < boxes.len() ==> e.min_x <= (#[trigger] boxes[b]).min_x && boxes[b].max_x <= e.max_x
            && e.min_z <= boxes[b].min_z && boxes[b].max_z <= e.max_z
    &&& exists|b: int| 0 <= b < boxes.len() && e.min_x == (#[trigger] boxes[b]).min_x
    &&& exists|b: int| 0 <= b < boxes.len() && e.max_x == (#[trigger] boxes[b]).max_x
    &&& exists|b: int| 0 <= b < boxes.len() && e.min_z == (#[trigger] boxes[b]).min_z
    &&& exists|b: int| 0 <= b < boxes.len() && e.max_z == (#[trigger] boxes[b]).max_z
}

/// Grows `acc` (the bounds of `boxes`, or `None` when it is empty) to hold `b` as well.
fn include_box(acc: Option<GroundBox>, b: GroundBox, Ghost(boxes): Ghost<Seq<GroundBox>>) -> (grown: Option<GroundBox>)
    requires
        match acc {
            Some(e) => bounds_all(e, boxes),
            None => boxes.len() == 0,
        },
    ensures
        grown matches Some(e) && bounds_all(e, boxes.push(b)),
{
    let e = match acc {
        None => b,
        Some(e) => GroundBox {
            min_x: if b.min_x < e.min_x { b.min_x } else { e.min_x },
            max_x: if b.max_x > e.max_x { b.max_x } else { e.max_x },
            min_z: if b.min_z < e.min_z { b.min_z } else { e.min_z },
            max_z: if b.max_z > e.max_z { b.max_z } else { e.max_z },
        },
    };
    proof {
        let all = boxes.push(b);
        let last = boxes.len() as int;
        assert(all[last] == b);
        assert forall|k: int| 0 <= k < boxes.len() implies all[k] == boxes[k] by {}
        match acc {
            None => {},
            Some(old_e) => {
                if e.min_x != b.min_x {
                    let w = choose|w: int| 0 <= w < boxes.len() && old_e.min_x == (#[trigger] boxes[w]).min_x;
                    assert(all[w] == boxes[w]);
                }
                if e.max_x != b.max_x {
                    let w = choose|w: int| 0 <= w < boxes.len() && old_e.max_x == (#[trigger] boxes[w]).max_x;
                    assert(all[w] == boxes[w]);
                }
                if e.min_z != b.min_z {
                    let w = choose|w: int| 0 <= w < boxes.len() && old_e.min_z == (#[trigger] boxes[w]).min_z;
                    assert(all[w] == boxes[w]);
                }
                if e.max_z != b.max_z {
                    let w = choose|w: int| 0 <= w < boxes.len() && old_e.max_z == (#[trigger] boxes[w]).max_z;
                    assert(all[w] == boxes[w]);
                }
                assert forall|k: int| 0 <= k < all.len() implies e.min_x <= (#[trigger] all[k]).min_x
                    && all[k].max_x <= e.max_x && e.min_z <= all[k].min_z && all[k].max_z <= e.max_z by {
                    if k < last {
                        assert(all[k] == boxes[k]);
                    }
                }
            },
        }
    }
    Some(e)
}

/// The extent of a whole floor, rooms and corridors, as the smallest rectangle that holds
/// every room and both ends of every corridor; `None` for a floor with neither.
pub fn floor_extents(map: &FloorMap) -> (extents: Option<GroundBox>)
    requires
        forall|k: int|
            0 <= k < map.rooms@.len() ==> (#[trigger] map.rooms@[k]).template_index < map.templates@.len()
                && in_world(map.rooms@[k].world_center),
        forall|c: int|
            0 <= c < map.corridors@.len() ==> in_world((#[trigger] map.corridors@[c]).start) && in_world(
                map.corridors@[c].end,
            ),
    ensures
        match extents {
            Some(e) => bounds_all(e, floor_boxes(map.rooms@, map.templates@, map.corridors@)),
            None => map.rooms@.len() == 0 && map.corridors@.len() == 0,
        },
{
    let ghost boxes = floor_boxes(map.rooms@, map.templates@, map.corridors@);
    let ghost n = map.rooms@.len() as int;
    let mut acc: Option<GroundBox> = None;
    let mut k: usize = 0;
    while k < map.rooms.len()
        invariant
            forall|j: int|
                0 <= j < map.rooms@.len() ==> (#[trigger] map.rooms@[j]).template_index
                    < map.templates@.len() && in_world(map.rooms@[j].world_center),
            boxes == floor_boxes(map.rooms@, map.templates@, map.corridors@),
            n == map.rooms@.len(),
            k <= n,
            match acc {
                Some(e) => bounds_all(e, boxes.take(k as int)),
                None => k == 0,
            },
        decreases n - k,
    {
        let room = &map.rooms[k];
        let template = &map.templates[room.template_index];
        let hx = template.half_extent_x();
        let hz = template.half_extent_z();
        let b = GroundBox {
            min_x: room.world_center.x - hx,
            max_x: room.world_center.x + hx,
            min_z: room.world_center.z - hz,
            max_z: room.world_center.z + hz,
        };
        assert(boxes[k as int] == b);
        assert(boxes.take(k as int).push(b) =~= boxes.take(k + 1));
        acc = include_box(acc, b, Ghost(boxes.take(k as int)));
        k += 1;
    }
    let mut c: usize = 0;
    while c < map.corridors.len()
        invariant
            forall|j: int|
                0 <= j < map.corridors@.len() ==> in_world((#[trigger] map.corridors@[j]).start)
                    && in_world(map.corridors@[j].end),
            boxes == floor_boxes(map.rooms@, map.templates@, map.corridors@),
            n == map.rooms@.len(),
            c <= map.corridors@.len(),
            match acc {
                Some(e) => bounds_all(e, boxes.take(n + 2 * c)),
                None => n == 0 && c == 0,
            },
        decreases map.corridors@.len() - c,
    {
        let corridor = map.corridors[c];
        let half_w = corridor.width as i64;
        let b1 = GroundBox {
            min_x: corridor.start.x - half_w,
            max_x: corridor.start.x + half_w,
            min_z: corridor.start.z - half_w,
            max_z: corridor.start.z + half_w,
        };
        let b2 = GroundBox {
            min_x: corridor.end.x - half_w,
            max_x: corridor.end.x + half_w,
            min_z: corridor.end.z - half_w,
            max_z: corridor.end.z + half_w,
        };
        assert(boxes[n + 2 * c] == b1);
        assert(boxes[n + 2 * c + 1] == b2);
        assert(boxes.take(n + 2 * c).push(b1) =~= boxes.take(n + 2 * c + 1));
        assert(boxes.take(n + 2 * c + 1).push(b2) =~= boxes.take(n + 2 * c + 2));
        acc = include_box(acc, b1, Ghost(boxes.take(n + 2 * c)));
        acc = include_box(acc, b2, Ghost(boxes.take(n + 2 * c + 1)));
        c += 1;
    }
    assert(boxes.take(n + 2 * map.corridors@.len()) =~= boxes);
    acc
}

} // verus!
