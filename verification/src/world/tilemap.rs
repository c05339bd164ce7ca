//! The tile and wall layout of rooms and corridors, in whole world units.

use vstd::prelude::*;

use super::room::{spec_tile_size, DoorSide, DoorSlot, RoomTemplate};
use super::GroundPoint;

verus! {

/// Coordinates at most this far from the origin can be added and scaled without overflow.
pub open spec fn in_world(p: GroundPoint) -> bool {
    -0x100_0000_0000 <= p.x <= 0x100_0000_0000 && -0x100_0000_0000 <= p.z <= 0x100_0000_0000
}

/// Convert a grid-local coordinate to world space given a room center.
pub open spec fn world_of(room_center: GroundPoint, template: RoomTemplate, gx: int, gz: int) -> GroundPoint {
    room_center.plus(template.local_of(gx, gz))
}

/// Convert a grid-local coordinate to world space given a room center.
pub fn grid_to_world(room_center: GroundPoint, template: &RoomTemplate, grid_x: i32, grid_z: i32) -> (point: GroundPoint)
    requires
        in_world(room_center),
    ensures
        point == world_of(room_center, *template, grid_x as int, grid_z as int),
{
    let local = template.grid_to_local(grid_x, grid_z);
    GroundPoint { x: room_center.x + local.x, z: room_center.z + local.z }
}

/// Whether the border tile `(gx, gz)` of a room of `template` lies in the opening of `door`.
pub open spec fn in_door_gap(template: RoomTemplate, door: DoorSlot, gx: int, gz: int) -> bool {
    let along = match door.side {
        DoorSide::North | DoorSide::South => gx,
        DoorSide::East | DoorSide::West => gz,
    };
    &&& match door.side {
        DoorSide::North => gz == template.height - 1,
        DoorSide::South => gz == 0,
        DoorSide::East => gx == template.width - 1,
        DoorSide::West => gx == 0,
    }
    &&& door.span_start() <= along < door.span_end()
}

/// Whether the tile `(gx, gz)` lies in the opening of a door on one of `connected_sides`.
pub open spec fn connected_gap(
    template: RoomTemplate,
    gx: int,
    gz: int,
    connected_sides: Seq<DoorSide>,
) -> bool {
    exists|k: int|
        0 <= k < template.doors@.len() && connected_sides.contains((#[trigger] template.doors@[k]).side)
            && in_door_gap(template, template.doors@[k], gx, gz)
}

/// Whether `side` is one of `sides`.
fn side_listed(sides: &Vec<DoorSide>, side: DoorSide) -> (found: bool)
    ensures
        found == sides@.contains(side),
{
    let mut k: usize = 0;
    while k < sides.len()
        invariant
            k <= sides@.len(),
            forall|j: int| 0 <= j < k ==> sides@[j] != side,
        decreases sides@.len() - k,
    {
        if sides[k] == side {
            assert(sides@[k as int] == side);
            return true;
        }
        k += 1;
    }
    false
}

/// Returns whether a border tile belongs to a connected door opening.
pub fn is_connected_door_gap(
    template: &RoomTemplate,
    gx: i32,
    gz: i32,
    connected_sides: &Vec<DoorSide>,
) -> (gap: bool)
    ensures
        gap == connected_gap(*template, gx as int, gz as int, connected_sides@),
{
    let w = template.width as i64;
    let h = template.height as i64;
    let x = gx as i64;
    let z = gz as i64;
    let mut k: usize = 0;
    while k < template.doors.len()
        invariant
            k <= template.doors@.len(),
            w == template.width,
            h == template.height,
            x == gx,
            z == gz,
            forall|j: int|
                0 <= j < k ==> !(connected_sides@.contains((#[trigger] template.doors@[j]).side)
                    && in_door_gap(*template, template.doors@[j], gx as int, gz as int)),
        decreases template.doors@.len() - k,
    {
        let door = template.doors[k];
        if side_listed(connected_sides, door.side) {
            let start = door.position as i64 - (door.width / 2) as i64;
            let end = start + if door.width > 0 { door.width as i64 } else { 0 };
            let on_edge_and_in_span = match door.side {
                DoorSide::North => z == h - 1 && start <= x && x < end,
                DoorSide::South => z == 0 && start <= x && x < end,
                DoorSide::East => x == w - 1 && start <= z && z < end,
                DoorSide::West => x == 0 && start <= z && z < end,
            };
            if on_edge_and_in_span {
                assert(connected_sides@.contains(template.doors@[k as int].side)
                    && in_door_gap(*template, template.doors@[k as int], gx as int, gz as int));
                return true;
            }
        }
        k += 1;
    }
    false
}

/// How a floor tile is shaded: the room border, or the two colours of its checkerboard.
#[derive(Debug, Clone, Copy, PartialEq, Eq, Structural)]
pub enum TileShade {
    Border,
    Dark,
    Light,
}

/// A floor tile to lay, at its world position.
#[derive(Debug, Clone, Copy, PartialEq, Eq, Structural)]
pub struct FloorTilePlacement {
    pub position: GroundPoint,
    pub shade: TileShade,
}

/// The shade of tile `(gx, gz)` of a room of `template`.
pub open spec fn shade_of(template: RoomTemplate, gx: int, gz: int) -> TileShade {
    if gx == 0 || gz == 0 || gx == template.width - 1 || gz == template.height - 1 {
        TileShade::Border
    } else if (gx + gz) % 2 == 0 {
        TileShade::Dark
    } else {
        TileShade::Light
    }
}

/// A room's floor has a border ring and a checkered inside: a tile on any of the four edge
/// rows and columns is a border tile; a tile strictly inside is dark where `gx + gz` is even
/// and light where it is odd, so neighbouring inside tiles differ. The ring looks the same
/// after a half turn of the room.
pub proof fn floor_has_a_border_ring(template: RoomTemplate, gx: int, gz: int)
    requires
        0 <= gx < template.width,
        0 <= gz < template.height,
    ensures
        (gx == 0 || gz == 0 || gx == template.width - 1 || gz == template.height - 1) ==> shade_of(
            template,
            gx,
            gz,
        ) == TileShade::Border,
        (0 < gx < template.width - 1 && 0 < gz < template.height - 1) ==> shade_of(template, gx, gz)
            == if (gx + gz) % 2 == 0 { TileShade::Dark } else { TileShade::Light },
        (shade_of(template, gx, gz) == TileShade::Border) == (shade_of(
            template,
            template.width - 1 - gx,
            template.height - 1 - gz,
        ) == TileShade::Border),
        0 < gx < template.width - 2 && 0 < gz < template.height - 1 ==> shade_of(template, gx, gz)
            != shade_of(template, gx + 1, gz),
{
}

/// The floor tile at `(gx, gz)` of a room of `template` centered on `center`.
pub open spec fn floor_tile_at(center: GroundPoint, template: RoomTemplate, gx: int, gz: int) -> FloorTilePlacement {
    FloorTilePlacement { position: world_of(center, template, gx, gz), shade: shade_of(template, gx, gz) }
}

/// The number of tiles along a side of `n` tiles (none for a non-positive count).
pub open spec fn tile_count(n: int) -> int {
    if n > 0 { n } else { 0 }
}

/// The floor tiles of a room, column by column (all `gz` of `gx = 0`, then of `gx = 1`, ...):
/// border tiles around the edge and a checkerboard inside.
pub fn room_floor_tiles(template: &RoomTemplate, center: GroundPoint) -> (tiles: Vec<FloorTilePlacement>)
    requires
        in_world(center),
    ensures
        tiles@.len() == tile_count(template.width as int) * tile_count(template.height as int),
        forall|gx: int, gz: int|
            0 <= gx < template.width && 0 <= gz < template.height ==> tiles@[gx * template.height + gz]
                == floor_tile_at(center, *template, gx, gz),
        forall|gx: int, gz: int|
            0 <= gx < template.width && 0 <= gz < template.height ==> ((#[trigger] tiles@[gx
                * template.height + gz]).shade == TileShade::Border) == (gx == 0 || gz == 0 || gx
                == template.width - 1 || gz == template.height - 1),
{
    let w = template.width;
    let h = template.height;
    let mut tiles: Vec<FloorTilePlacement> = Vec::new();
    let mut gx: i32 = 0;
    while gx < w
        invariant
            w == template.width,
            h == template.height,
            in_world(center),
            0 <= gx,
            w > 0 ==> gx <= w,
            w <= 0 ==> gx == 0,
            tiles@.len() == gx * tile_count(h as int),
            forall|a: int, b: int|
                0 <= a < gx && 0 <= b < h ==> #[trigger] tiles@[a * h + b] == floor_tile_at(
                    center,
                    *template,
                    a,
                    b,
                ),
        decreases w - gx,
    {
        let mut gz: i32 = 0;
        while gz < h
            invariant
                w == template.width,
                h == template.height,
                in_world(center),
                0 <= gx < w,
                0 <= gz,
                h > 0 ==> gz <= h,
                h <= 0 ==> gz == 0,
                tiles@.len() == gx * tile_count(h as int) + gz,
                forall|a: int, b: int|
                    0 <= a < gx && 0 <= b < h ==> #[trigger] tiles@[a * h + b] == floor_tile_at(
                        center,
                        *template,
                        a,
                        b,
                    ),
                forall|b: int|
                    0 <= b < gz ==> #[trigger] tiles@[gx * h + b] == floor_tile_at(
                        center,
                        *template,
                        gx as int,
                        b,
                    ),
            decreases h - gz,
        {
            let is_border = gx == 0 || gz == 0 || gx as i64 == w as i64 - 1 || gz as i64 == h as i64 - 1;
            let shade = if is_border {
                TileShade::Border
            } else if (gx as i64 + gz as i64) % 2 == 0 {
                TileShade::Dark
            } else {
                TileShade::Light
            };
            let position = grid_to_world(center, template, gx, gz);
            let ghost before = tiles@;
            tiles.push(FloorTilePlacement { position, shade });
            proof {
                assert(tile_count(h as int) == h);
                assert(gx * h + gz == before.len()) by (nonlinear_arith)
                    requires
                        before.len() == gx * tile_count(h as int) + gz,
                        tile_count(h as int) == h,
                ;
                assert forall|a: int, b: int|
                    0 <= a < gx && 0 <= b < h implies #[trigger] tiles@[a * h + b] == floor_tile_at(
                        center,
                        *template,
                        a,
                        b,
                    ) by {
                    assert(a * h + b < gx * h) by (nonlinear_arith)
                        requires
                            0 <= a < gx,
                            0 <= b < h,
                    ;
                    assert(tiles@[a * h + b] == before[a * h + b]);
                }
                assert forall|b: int| 0 <= b < gz + 1 implies #[trigger] tiles@[gx * h + b]
                    == floor_tile_at(center, *template, gx as int, b) by {
                    if b < gz {
                        assert(tiles@[gx * h + b] == before[gx * h + b]);
                    }
                }
            }
            gz += 1;
        }
        proof {
            assert(gz == tile_count(h as int));
            assert((gx + 1) * tile_count(h as int) == gx * tile_count(h as int) + tile_count(h as int))
                by (nonlinear_arith);
            assert forall|a: int, b: int|
                0 <= a < gx + 1 && 0 <= b < h implies #[trigger] tiles@[a * h + b] == floor_tile_at(
                    center,
                    *template,
                    a,
                    b,
                ) by {
                if a == gx {
                    assert(tiles@[gx * h + b] == floor_tile_at(center, *template, gx as int, b));
                }
            }
        }
        gx += 1;
    }
    proof {
        if w <= 0 {
            assert(gx == 0);
        }
        assert(tiles@.len() == tile_count(w as int) * tile_count(h as int)) by (nonlinear_arith)
            requires
                tiles@.len() == gx * tile_count(h as int),
                w > 0 ==> gx == w,
                w <= 0 ==> gx == 0,
                tile_count(w as int) == if w > 0 { w as int } else { 0 },
        ;
    }
    tiles
}

/// The corner positions of a room's obelisks: two tiles in from each corner, or none
/// for a template without obelisks.
pub open spec fn obelisk_spots(template: RoomTemplate, center: GroundPoint) -> Seq<GroundPoint> {
    let inset = 2int;
    let w = template.width as int;
    let h = template.height as int;
    if template.obelisks {
        seq![
            world_of(center, template, inset, inset),
            world_of(center, template, inset, h - 1 - inset),
            world_of(center, template, w - 1 - inset, inset),
            world_of(center, template, w - 1 - inset, h - 1 - inset),
        ]
    } else {
        Seq::empty()
    }
}

/// The world position of grid tile `(gx, gz)`, for grid coordinates past the `i32` range.
fn world_at(center: GroundPoint, template: &RoomTemplate, gx: i64, gz: i64) -> (point: GroundPoint)
    requires
        in_world(center),
        -0x4_0000_0000 <= gx <= 0x4_0000_0000,
        -0x4_0000_0000 <= gz <= 0x4_0000_0000,
    ensures
        point == world_of(center, *template, gx as int, gz as int),
{
    let local_x = gx * RoomTemplate::tile_size() - template.half_extent_x();
    let local_z = gz * RoomTemplate::tile_size() - template.half_extent_z();
    GroundPoint { x: center.x + local_x, z: center.z + local_z }
}

/// Where a room's corner obelisks stand, if its template has them.
pub fn obelisk_positions(template: &RoomTemplate, center: GroundPoint) -> (spots: Vec<GroundPoint>)
    requires
        in_world(center),
    ensures
        spots@ == obelisk_spots(*template, center),
{
    let mut spots: Vec<GroundPoint> = Vec::new();
    if !template.obelisks {
        assert(spots@ =~= obelisk_spots(*template, center));
        return spots;
    }
    let inset: i64 = 2;
    let w = template.width as i64;
    let h = template.height as i64;
    spots.push(world_at(center, template, inset, inset));
    spots.push(world_at(center, template, inset, h - 1 - inset));
    spots.push(world_at(center, template, w - 1 - inset, inset));
    spots.push(world_at(center, template, w - 1 - inset, h - 1 - inset));
    assert(spots@ =~= obelisk_spots(*template, center));
    spots
}

/// A wall segment to raise: its center, and whether it runs along X (else along Z).
#[derive(Debug, Clone, Copy, PartialEq, Eq, Structural)]
pub struct WallPlacement {
    pub center: GroundPoint,
    pub along_x: bool,
}

/// `wall` as a list of zero or one walls, depending on `present`.
pub open spec fn wall_if(present: bool, wall: WallPlacement) -> Seq<WallPlacement> {
    if present { seq![wall] } else { Seq::empty() }
}

/// The point one unit (half a tile) from `p` in the X and Z directions given.
pub open spec fn nudged(p: GroundPoint, dx: int, dz: int) -> GroundPoint {
    GroundPoint { x: (p.x + dx) as i64, z: (p.z + dz) as i64 }
}

/// The North and South walls of columns `0..n` of a room, North before South in each column.
pub open spec fn north_south_walls(
    template: RoomTemplate,
    center: GroundPoint,
    connected_sides: Seq<DoorSide>,
    n: int,
) -> Seq<WallPlacement>
    decreases n,
{
    if n <= 0 {
        Seq::empty()
    } else {
        let gx = n - 1;
        let h = template.height as int;
        north_south_walls(template, center, connected_sides, n - 1) + wall_if(
            !connected_gap(template, gx, h - 1, connected_sides),
            WallPlacement { center: nudged(world_of(center, template, gx, h - 1), 0, 1), along_x: true },
        ) + wall_if(
            !connected_gap(template, gx, 0, connected_sides),
            WallPlacement { center: nudged(world_of(center, template, gx, 0), 0, -1), along_x: true },
        )
    }
}

/// The East and West walls of rows `0..n` of a room, East before West in each row.
pub open spec fn east_west_walls(
    template: RoomTemplate,
    center: GroundPoint,
    connected_sides: Seq<DoorSide>,
    n: int,
) -> Seq<WallPlacement>
    decreases n,
{
    if n <= 0 {
        Seq::empty()
    } else {
        let gz = n - 1;
        let w = template.width as int;
        east_west_walls(template, center, connected_sides, n - 1) + wall_if(
            !connected_gap(template, w - 1, gz, connected_sides),
            WallPlacement { center: nudged(world_of(center, template, w - 1, gz), 1, 0), along_x: false },
        ) + wall_if(
            !connected_gap(template, 0, gz, connected_sides),
            WallPlacement { center: nudged(world_of(center, template, 0, gz), -1, 0), along_x: false },
        )
    }
}

/// At most two wall pieces per column: `n` columns give at most `2n`.
proof fn lemma_north_south_count(
    template: RoomTemplate,
    center: GroundPoint,
    connected_sides: Seq<DoorSide>,
    n: int,
)
    ensures
        north_south_walls(template, center, connected_sides, n).len() <= 2 * if n < 0 { 0 } else { n },
    decreases n,
{
    if n > 0 {
        lemma_north_south_count(template, center, connected_sides, n - 1);
    }
}

/// Without connected sides each of `n` columns gets both its wall pieces.
proof fn lemma_north_south_closed(template: RoomTemplate, center: GroundPoint, connected_sides: Seq<DoorSide>, n: int)
    requires
        connected_sides.len() == 0,
    ensures
        north_south_walls(template, center, connected_sides, n).len() == 2 * if n < 0 { 0 } else { n },
    decreases n,
{
    if n > 0 {
        lemma_north_south_closed(template, center, connected_sides, n - 1);
        assert(!connected_gap(template, n - 1, template.height - 1, connected_sides));
        assert(!connected_gap(template, n - 1, 0, connected_sides));
    }
}

/// At most two wall pieces per row: `n` rows give at most `2n`.
proof fn lemma_east_west_count(
    template: RoomTemplate,
    center: GroundPoint,
    connected_sides: Seq<DoorSide>,
    n: int,
)
    ensures
        east_west_walls(template, center, connected_sides, n).len() <= 2 * if n < 0 { 0 } else { n },
    decreases n,
{
    if n > 0 {
        lemma_east_west_count(template, center, connected_sides, n - 1);
    }
}

/// Without connected sides each of `n` rows gets both its wall pieces.
proof fn lemma_east_west_closed(template: RoomTemplate, center: GroundPoint, connected_sides: Seq<DoorSide>, n: int)
    requires
        connected_sides.len() == 0,
    ensures
        east_west_walls(template, center, connected_sides, n).len() == 2 * if n < 0 { 0 } else { n },
    decreases n,
{
    if n > 0 {
        lemma_east_west_closed(template, center, connected_sides, n - 1);
        assert(!connected_gap(template, template.width - 1, n - 1, connected_sides));
        assert(!connected_gap(template, 0, n - 1, connected_sides));
    }
}

/// A room of `w` by `h` tiles gets at most `2(w + h)` wall pieces, one beside each edge
/// tile of its perimeter, and exactly `2(w + h)` when no side is connected: only doors on
/// connected sides open gaps.
pub proof fn wall_count_of_room(template: RoomTemplate, center: GroundPoint, connected_sides: Seq<DoorSide>)
    requires
        template.width >= 0,
        template.height >= 0,
    ensures
        north_south_walls(template, center, connected_sides, template.width as int).len()
            + east_west_walls(template, center, connected_sides, template.height as int).len()
            <= 2 * (template.width + template.height),
        connected_sides.len() == 0 ==> north_south_walls(
            template,
            center,
            connected_sides,
            template.width as int,
        ).len() + east_west_walls(template, center, connected_sides, template.height as int).len() == 2 * (
        template.width + template.height),
{
    lemma_north_south_count(template, center, connected_sides, template.width as int);
    lemma_east_west_count(template, center, connected_sides, template.height as int);
    if connected_sides.len() == 0 {
        lemma_north_south_closed(template, center, connected_sides, template.width as int);
        lemma_east_west_closed(template, center, connected_sides, template.height as int);
    }
}

/// The number of tiles along an edge on `side` of a room of `template`.
pub open spec fn edge_length(template: RoomTemplate, side: DoorSide) -> int {
    match side {
        DoorSide::North | DoorSide::South => template.width as int,
        DoorSide::East | DoorSide::West => template.height as int,
    }
}

/// Whether the doors of `template` lie inside their edges, clear of the corner tiles, with
/// at most one door on each side.
pub open spec fn doors_inside_edges(template: RoomTemplate) -> bool {
    &&& forall|k: int|
        0 <= k < template.doors@.len() ==> 1 <= (#[trigger] template.doors@[k]).span_start()
            && template.doors@[k].span_end() <= edge_length(template, template.doors@[k].side) - 1
    &&& forall|j: int, k: int|
        0 <= j < k < template.doors@.len() ==> (#[trigger] template.doors@[j]).side
            != (#[trigger] template.doors@[k]).side
}

/// Whether `template` has a door on `side`.
pub open spec fn has_side_door(template: RoomTemplate, side: DoorSide) -> bool {
    exists|k: int| 0 <= k < template.doors@.len() && (#[trigger] template.doors@[k]).side == side
}

/// The door of `template` on `side`, where it has one.
pub open spec fn side_door(template: RoomTemplate, side: DoorSide) -> DoorSlot {
    template.doors@[choose|k: int| 0 <= k < template.doors@.len() && (#[trigger] template.doors@[k]).side == side]
}

/// Whether the tile at `along` on the edge on `side` lies in the opening of the door there,
/// that side being connected.
pub open spec fn open_at(template: RoomTemplate, connected_sides: Seq<DoorSide>, side: DoorSide, along: int) -> bool {
    &&& has_side_door(template, side)
    &&& connected_sides.contains(side)
    &&& side_door(template, side).span_start() <= along < side_door(template, side).span_end()
}

/// The number of the first `n` tiles of the edge on `side` that lie in its open door.
pub open spec fn open_tiles(template: RoomTemplate, connected_sides: Seq<DoorSide>, side: DoorSide, n: int) -> int
    decreases n,
{
    if n <= 0 {
        0
    } else {
        open_tiles(template, connected_sides, side, n - 1) + if open_at(template, connected_sides, side, n - 1) {
            1int
        } else {
            0int
        }
    }
}

/// The width of the opening on `side`: the width of the door there when the side is
/// connected, else nothing.
pub open spec fn open_width(template: RoomTemplate, connected_sides: Seq<DoorSide>, side: DoorSide) -> int {
    if has_side_door(template, side) && connected_sides.contains(side) {
        side_door(template, side).span_end() - side_door(template, side).span_start()
    } else {
        0
    }
}

/// Counted over a whole edge, the open tiles are the width of the opening.
proof fn lemma_open_tiles(template: RoomTemplate, connected_sides: Seq<DoorSide>, side: DoorSide, n: int)
    requires
        doors_inside_edges(template),
        0 <= n,
    ensures
        open_tiles(template, connected_sides, side, n) == if has_side_door(template, side)
            && connected_sides.contains(side) {
            let d = side_door(template, side);
            if n <= d.span_start() {
                0
            } else if n <= d.span_end() {
                n - d.span_start()
            } else {
                d.span_end() - d.span_start()
            }
        } else {
            0
        },
    decreases n,
{
    if n > 0 {
        lemma_open_tiles(template, connected_sides, side, n - 1);
    }
    if has_side_door(template, side) {
        let k = choose|k: int| 0 <= k < template.doors@.len() && (#[trigger] template.doors@[k]).side == side;
        assert(1 <= template.doors@[k].span_start());
    }
}

/// A tile of the North or South row, other than a corner, is in a connected gap exactly when
/// it is in the open door of that side; likewise for the East and West columns.
proof fn lemma_gap_on_edge(template: RoomTemplate, connected_sides: Seq<DoorSide>, gx: int, gz: int, side: DoorSide)
    requires
        doors_inside_edges(template),
        template.width >= 2,
        template.height >= 2,
        0 <= gx < template.width,
        0 <= gz < template.height,
        match side {
            DoorSide::North => gz == template.height - 1,
            DoorSide::South => gz == 0,
            DoorSide::East => gx == template.width - 1,
            DoorSide::West => gx == 0,
        },
    ensures
        connected_gap(template, gx, gz, connected_sides) == open_at(
            template,
            connected_sides,
            side,
            match side {
                DoorSide::North | DoorSide::South => gx,
                DoorSide::East | DoorSide::West => gz,
            },
        ),
{
    let along = match side {
        DoorSide::North | DoorSide::South => gx,
        DoorSide::East | DoorSide::West => gz,
    };
    if connected_gap(template, gx, gz, connected_sides) {
        let k = choose|k: int|
            0 <= k < template.doors@.len() && connected_sides.contains((#[trigger] template.doors@[k]).side)
                && in_door_gap(template, template.doors@[k], gx, gz);
        let d = template.doors@[k];
        assert(1 <= d.span_start() && d.span_end() <= edge_length(template, d.side) - 1);
        assert(d.side == side);
        let c = choose|c: int| 0 <= c < template.doors@.len() && (#[trigger] template.doors@[c]).side == side;
        if c != k {
            if c < k {
                assert(template.doors@[c].side != template.doors@[k].side);
            } else {
                assert(template.doors@[k].side != template.doors@[c].side);
            }
        }
        assert(open_at(template, connected_sides, side, along));
    }
    if open_at(template, connected_sides, side, along) {
        let c = choose|c: int| 0 <= c < template.doors@.len() && (#[trigger] template.doors@[c]).side == side;
        assert(in_door_gap(template, template.doors@[c], gx, gz));
    }
}

/// Each of the first `n` columns gets its two wall pieces but where its North or South
/// tile lies in the open door of that side.
proof fn lemma_north_south_exact(template: RoomTemplate, center: GroundPoint, connected_sides: Seq<DoorSide>, n: int)
    requires
        doors_inside_edges(template),
        template.width >= 2,
        template.height >= 2,
        0 <= n <= template.width,
    ensures
        north_south_walls(template, center, connected_sides, n).len() == 2 * n - open_tiles(
            template,
            connected_sides,
            DoorSide::North,
            n,
        ) - open_tiles(template, connected_sides, DoorSide::South, n),
    decreases n,
{
    if n > 0 {
        lemma_north_south_exact(template, center, connected_sides, n - 1);
        lemma_gap_on_edge(template, connected_sides, n - 1, template.height - 1, DoorSide::North);
        lemma_gap_on_edge(template, connected_sides, n - 1, 0, DoorSide::South);
    }
}

/// Each of the first `n` rows gets its two wall pieces but where its East or West tile lies
/// in the open door of that side.
proof fn lemma_east_west_exact(template: RoomTemplate, center: GroundPoint, connected_sides: Seq<DoorSide>, n: int)
    requires
        doors_inside_edges(template),
        template.width >= 2,
        template.height >= 2,
        0 <= n <= template.height,
    ensures
        east_west_walls(template, center, connected_sides, n).len() == 2 * n - open_tiles(
            template,
            connected_sides,
            DoorSide::East,
            n,
        ) - open_tiles(template, connected_sides, DoorSide::West, n),
    decreases n,
{
    if n > 0 {
        lemma_east_west_exact(template, center, connected_sides, n - 1);
        lemma_gap_on_edge(template, connected_sides, template.width - 1, n - 1, DoorSide::East);
        lemma_gap_on_edge(template, connected_sides, 0, n - 1, DoorSide::West);
    }
}

/// Where the doors lie inside their edges, clear of the corners and one to a side, a room
/// of `w` by `h` tiles gets `2(w + h)` wall pieces less the widths of the openings of its
/// connected sides.
pub proof fn wall_count_with_openings(template: RoomTemplate, center: GroundPoint, connected_sides: Seq<DoorSide>)
    requires
        doors_inside_edges(template),
        template.width >= 2,
        template.height >= 2,
    ensures
        north_south_walls(template, center, connected_sides, template.width as int).len()
            + east_west_walls(template, center, connected_sides, template.height as int).len() == 2 * (
        template.width + template.height) - open_width(template, connected_sides, DoorSide::North)
            - open_width(template, connected_sides, DoorSide::South) - open_width(
            template,
            connected_sides,
            DoorSide::East,
        ) - open_width(template, connected_sides, DoorSide::West),
{
    lemma_north_south_exact(template, center, connected_sides, template.width as int);
    lemma_east_west_exact(template, center, connected_sides, template.height as int);
    lemma_open_tiles(template, connected_sides, DoorSide::North, template.width as int);
    lemma_open_tiles(template, connected_sides, DoorSide::South, template.width as int);
    lemma_open_tiles(template, connected_sides, DoorSide::East, template.height as int);
    lemma_open_tiles(template, connected_sides, DoorSide::West, template.height as int);
    assert forall|side: DoorSide| has_side_door(template, side) implies 1 <= #[trigger] side_door(template, side).span_start()
        && side_door(template, side).span_end() <= edge_length(template, side) - 1 by {
        let c = choose|c: int| 0 <= c < template.doors@.len() && (#[trigger] template.doors@[c]).side == side;
        assert(1 <= template.doors@[c].span_start());
    }
}

/// A wall piece beside grid tile `(gx, gz)`, pushed out by `(dx, dz)`, unless the tile is
/// in a connected door gap.
fn push_wall_unless_gap(
    walls: &mut Vec<WallPlacement>,
    template: &RoomTemplate,
    center: GroundPoint,
    connected_sides: &Vec<DoorSide>,
    gx: i32,
    gz: i32,
    dx: i64,
    dz: i64,
    along_x: bool,
)
    requires
        in_world(center),
        -1 <= dx <= 1,
        -1 <= dz <= 1,
    ensures
        final(walls)@ == old(walls)@ + wall_if(
            !connected_gap(*template, gx as int, gz as int, connected_sides@),
            WallPlacement {
                center: nudged(world_of(center, *template, gx as int, gz as int), dx as int, dz as int),
                along_x,
            },
        ),
{
    let gap = is_connected_door_gap(template, gx, gz, connected_sides);
    let ghost piece = WallPlacement {
        center: nudged(world_of(center, *template, gx as int, gz as int), dx as int, dz as int),
        along_x,
    };
    if !gap {
        let pos = grid_to_world(center, template, gx, gz);
        walls.push(WallPlacement { center: GroundPoint { x: pos.x + dx, z: pos.z + dz }, along_x });
        assert(wall_if(true, piece) =~= seq![piece]);
    } else {
        assert(wall_if(false, piece) =~= Seq::<WallPlacement>::empty());
    }
    assert(final(walls)@ =~= old(walls)@ + wall_if(!gap, piece));
}

/// The walls around the perimeter of a room, with gaps only at doors on the
/// `connected_sides` (those with a corridor attached): first the North and South
/// walls column by column, then the East and West walls row by row.
pub fn room_wall_segments(
    template: &RoomTemplate,
    center: GroundPoint,
    connected_sides: &Vec<DoorSide>,
) -> (walls: Vec<WallPlacement>)
    requires
        in_world(center),
        template.width > 0 ==> template.height > i32::MIN,
        template.height > 0 ==> template.width > i32::MIN,
    ensures
        walls@ == north_south_walls(*template, center, connected_sides@, template.width as int)
            + east_west_walls(*template, center, connected_sides@, template.height as int),
{
    let w = template.width;
    let h = template.height;
    let mut walls: Vec<WallPlacement> = Vec::new();

    // North and South walls (run along X)
    let mut gx: i32 = 0;
    while gx < w
        invariant
            w == template.width,
            h == template.height,
            w > 0 ==> h > i32::MIN,
            in_world(center),
            0 <= gx,
            w > 0 ==> gx <= w,
            w <= 0 ==> gx == 0,
            walls@ == north_south_walls(*template, center, connected_sides@, gx as int),
        decreases w - gx,
    {
        // North wall (gz = h-1), then South wall (gz = 0)
        push_wall_unless_gap(&mut walls, template, center, connected_sides, gx, h - 1, 0, 1, true);
        push_wall_unless_gap(&mut walls, template, center, connected_sides, gx, 0, 0, -1, true);
        gx += 1;
    }
    let ghost north_south = walls@;
    assert(walls@ == north_south_walls(*template, center, connected_sides@, w as int)) by {
        if w <= 0 {
            assert(north_south_walls(*template, center, connected_sides@, w as int) == Seq::<
                WallPlacement,
            >::empty());
        }
    }

    // East and West walls (run along Z)
    let mut gz: i32 = 0;
    while gz < h
        invariant
            w == template.width,
            h == template.height,
            h > 0 ==> w > i32::MIN,
            in_world(center),
            0 <= gz,
            h > 0 ==> gz <= h,
            h <= 0 ==> gz == 0,
            north_south == north_south_walls(*template, center, connected_sides@, w as int),
            walls@ == north_south + east_west_walls(*template, center, connected_sides@, gz as int),
        decreases h - gz,
    {
        // East wall (gx = w-1), then West wall (gx = 0)
        let ghost before = walls@;
        push_wall_unless_gap(&mut walls, template, center, connected_sides, w - 1, gz, 1, 0, false);
        push_wall_unless_gap(&mut walls, template, center, connected_sides, 0, gz, -1, 0, false);
        assert(walls@ =~= north_south + east_west_walls(
            *template,
            center,
            connected_sides@,
            gz + 1,
        ));
        gz += 1;
    }
    assert(walls@ =~= north_south + east_west_walls(*template, center, connected_sides@, h as int)) by {
        if h <= 0 {
            assert(east_west_walls(*template, center, connected_sides@, h as int) == Seq::<
                WallPlacement,
            >::empty());
            assert(east_west_walls(*template, center, connected_sides@, 0) == Seq::<
                WallPlacement,
            >::empty());
        }
    }
    walls
}

/// The floor tiles and side walls of a corridor.
#[derive(Debug)]
pub struct CorridorLayout {
    pub tiles: Vec<GroundPoint>,
    pub walls: Vec<WallPlacement>,
}

/// Whether a corridor from `start` to `end` runs along X (else along Z).
pub open spec fn runs_along_x(start: GroundPoint, end: GroundPoint) -> bool {
    abs_int(end.x - start.x) > abs_int(end.z - start.z)
}

pub open spec fn abs_int(v: int) -> int {
    if v < 0 { -v } else { v }
}

/// The distance the corridor covers along its main axis.
pub open spec fn main_axis_span(start: GroundPoint, end: GroundPoint) -> int {
    if runs_along_x(start, end) { abs_int(end.x - start.x) } else { abs_int(end.z - start.z) }
}

/// The number of tile steps along the corridor: its span in tiles, rounded up.
pub open spec fn corridor_steps(start: GroundPoint, end: GroundPoint) -> int {
    (main_axis_span(start, end) + 1) / 2
}

/// A corridor's strip of tiles covers the whole distance between its ends along its main
/// axis: its last row lies on the far end, or half a tile (one unit) past it when the
/// distance is odd.
pub proof fn corridor_strip_reaches_far_end(start: GroundPoint, end: GroundPoint)
    ensures
        main_axis_span(start, end) <= corridor_steps(start, end) * spec_tile_size() <= main_axis_span(
            start,
            end,
        ) + 1,
{
}

/// The direction along the main axis: +1, or -1 when the end lies on the negative side.
pub open spec fn corridor_sign(start: GroundPoint, end: GroundPoint) -> int {
    let d = if runs_along_x(start, end) { end.x - start.x } else { end.z - start.z };
    if d >= 0 { 1 } else { -1 }
}

/// The number of tiles across the corridor for a width of `width_tiles` tiles.
pub open spec fn across_count(width_tiles: int) -> int {
    let half = crate::world::room::half_toward_zero(width_tiles);
    if half >= 0 { 2 * half + 1 } else { 0 }
}

/// The offset along the corridor's main axis of its tile step `i`.
pub open spec fn along_at(start: GroundPoint, end: GroundPoint, i: int) -> int {
    i * spec_tile_size() * corridor_sign(start, end)
}

proof fn lemma_along_at(start: GroundPoint, end: GroundPoint, i: int)
    ensures
        along_at(start, end, i) == if corridor_sign(start, end) == 1 { 2 * i } else { -2 * i },
{
    assert(corridor_sign(start, end) == 1 || corridor_sign(start, end) == -1);
    assert(i * 2 * 1 == 2 * i && i * 2 * (-1) == -2 * i) by (nonlinear_arith);
}

/// The tile `i` steps along the corridor and `w` tiles across it.
pub open spec fn corridor_tile(start: GroundPoint, end: GroundPoint, i: int, w: int) -> GroundPoint {
    let along = along_at(start, end, i);
    let across = w * spec_tile_size();
    if runs_along_x(start, end) {
        GroundPoint { x: (start.x + along) as i64, z: (start.z + across) as i64 }
    } else {
        GroundPoint { x: (start.x + across) as i64, z: (start.z + along) as i64 }
    }
}

/// A corridor's tiles step from its start towards its end: along the main axis (the one on
/// which the ends lie farther apart, Z on a tie) tile row `i` lies `2i` units from the start
/// in the direction of the end, never before the start nor more than one unit past the end,
/// and the last row reaches the end to within one unit; across the axis, tile `w` lies `2w`
/// units from the start.
pub proof fn corridor_tiles_step_towards_the_end(start: GroundPoint, end: GroundPoint, i: int, w: int)
    requires
        in_world(start),
        in_world(end),
        0 <= i <= corridor_steps(start, end),
        -0x1000 <= w <= 0x1000,
    ensures
        ({
            let dx = end.x - start.x;
            let dz = end.z - start.z;
            let along_x = (if dx < 0 { -dx } else { dx }) > (if dz < 0 { -dz } else { dz });
            let tile = corridor_tile(start, end, i, w);
            let (s0, e0, t0, s1, t1) = if along_x {
                (start.x as int, end.x as int, tile.x as int, start.z as int, tile.z as int)
            } else {
                (start.z as int, end.z as int, tile.z as int, start.x as int, tile.x as int)
            };
            &&& t0 == if e0 >= s0 { s0 + 2 * i } else { s0 - 2 * i }
            &&& e0 >= s0 ==> s0 <= t0 <= e0 + 1
            &&& e0 < s0 ==> e0 - 1 <= t0 <= s0
            &&& i == corridor_steps(start, end) ==> e0 - 1 <= t0 <= e0 + 1
            &&& t1 == s1 + 2 * w
        }),
{
    lemma_along_at(start, end, i);
    corridor_strip_reaches_far_end(start, end);
}

/// The side wall `i` steps along the corridor, on its positive or negative side.
pub open spec fn corridor_wall(
    start: GroundPoint,
    end: GroundPoint,
    width_tiles: int,
    i: int,
    positive: bool,
) -> WallPlacement {
    let half = crate::world::room::half_toward_zero(width_tiles);
    let along = along_at(start, end, i);
    let offset = if positive { 2 * half + 1 } else { -(2 * half + 1) };
    if runs_along_x(start, end) {
        WallPlacement {
            center: GroundPoint { x: (start.x + along) as i64, z: (start.z + offset) as i64 },
            along_x: true,
        }
    } else {
        WallPlacement {
            center: GroundPoint { x: (start.x + offset) as i64, z: (start.z + along) as i64 },
            along_x: false,
        }
    }
}

/// Whether `walls` holds, for every step of the corridor but the first and last, its
/// negative-side wall followed by its positive-side wall.
pub open spec fn side_walls_match(walls: Seq<WallPlacement>, start: GroundPoint, end: GroundPoint, width_tiles: int) -> bool {
    forall|s: int|
        1 <= s < corridor_steps(start, end) ==> #[trigger] walls[2 * (s - 1)] == corridor_wall(
            start,
            end,
            width_tiles,
            s,
            false,
        ) && walls[2 * (s - 1) + 1] == corridor_wall(start, end, width_tiles, s, true)
}

/// Lay a corridor floor between two world-space endpoints: rows of `width_tiles / 2`
/// tiles either side of the centerline at every tile step from `start` toward `end`
/// (counting both ends), and side walls at every step but the first and last, so they
/// do not poke into the rooms.
#[verifier::spinoff_prover]
pub fn corridor_layout(start: GroundPoint, end: GroundPoint, width_tiles: i32) -> (layout: CorridorLayout)
    requires
        in_world(start),
        in_world(end),
    ensures
        layout.tiles@.len() == (corridor_steps(start, end) + 1) * across_count(width_tiles as int),
        forall|i: int, w: int|
            0 <= i <= corridor_steps(start, end) && 0 <= w < across_count(width_tiles as int)
                ==> #[trigger] layout.tiles@[i * across_count(width_tiles as int) + w] == corridor_tile(
                start,
                end,
                i,
                w - crate::world::room::half_toward_zero(width_tiles as int),
            ),
        layout.walls@.len() == if corridor_steps(start, end) >= 1 {
            2 * (corridor_steps(start, end) - 1)
        } else {
            0
        },
        side_walls_match(layout.walls@, start, end, width_tiles as int),
{
    let dx = end.x - start.x;
    let dz = end.z - start.z;
    let abs_dx = if dx < 0 { -dx } else { dx };
    let abs_dz = if dz < 0 { -dz } else { dz };
    let primarily_x = abs_dx > abs_dz;
    let (span, sign) = if primarily_x {
        (abs_dx, if dx >= 0 { 1i64 } else { -1i64 })
    } else {
        (abs_dz, if dz >= 0 { 1i64 } else { -1i64 })
    };
    let step = RoomTemplate::tile_size() * sign;
    let count = (span + 1) / 2;
    let half_w = (width_tiles / 2) as i64;
    let across: i64 = if half_w >= 0 { 2 * half_w + 1 } else { 0 };
    let ghost hw = crate::world::room::half_toward_zero(width_tiles as int);
    assert(half_w == hw);
    assert(across == across_count(width_tiles as int));
    assert(count == corridor_steps(start, end));
    assert(sign == corridor_sign(start, end));

    let mut tiles: Vec<GroundPoint> = Vec::new();
    let mut walls: Vec<WallPlacement> = Vec::new();
    let mut i: i64 = 0;
    while i <= count
        invariant
            in_world(start),
            in_world(end),
            0 <= count <= 0x100_0000_0001,
            count == corridor_steps(start, end),
            sign == corridor_sign(start, end),
            step == 2 * sign,
            primarily_x == runs_along_x(start, end),
            half_w == hw,
            hw == crate::world::room::half_toward_zero(width_tiles as int),
            -0x4000_0000 <= half_w <= 0x4000_0000,
            across == across_count(width_tiles as int),
            0 <= i <= count + 1,
            tiles@.len() == i * across,
            forall|a: int, b: int|
                0 <= a < i && 0 <= b < across ==> #[trigger] tiles@[a * across + b] == corridor_tile(
                    start,
                    end,
                    a,
                    b - hw,
                ),
            walls@.len() == if i >= 2 { 2 * (i - 2) + if i - 1 < count { 2int } else { 0int } } else { 0 },
            forall|a: int|
                1 <= a < i && a < count ==> #[trigger] walls@[2 * (a - 1)] == corridor_wall(
                    start,
                    end,
                    width_tiles as int,
                    a,
                    false,
                ) && walls@[2 * (a - 1) + 1] == corridor_wall(start, end, width_tiles as int, a, true),
        decreases count + 1 - i,
    {
        let along = if sign > 0 { i * 2 } else { -(i * 2) };
        proof {
            lemma_along_at(start, end, i as int);
        }
        let mut w: i64 = -half_w;
        while w <= half_w
            invariant
                in_world(start),
                in_world(end),
                0 <= i <= count,
                count <= 0x100_0000_0001,
                along == along_at(start, end, i as int),
                -0x200_0000_0004 <= along <= 0x200_0000_0004,
                step == 2 * sign,
                sign == corridor_sign(start, end),
                primarily_x == runs_along_x(start, end),
                half_w == hw,
                -0x4000_0000 <= half_w <= 0x4000_0000,
                across == across_count(width_tiles as int),
                half_w >= 0 ==> -half_w <= w <= half_w + 1,
                half_w < 0 ==> w == -half_w,
                tiles@.len() == i * across + (w + half_w),
                forall|a: int, b: int|
                    0 <= a < i && 0 <= b < across ==> #[trigger] tiles@[a * across + b] == corridor_tile(
                        start,
                        end,
                        a,
                        b - hw,
                    ),
                forall|b: int|
                    0 <= b < w + half_w ==> #[trigger] tiles@[i * across + b] == corridor_tile(
                        start,
                        end,
                        i as int,
                        b - hw,
                    ),
            decreases half_w + 1 - w,
        {
            let across_offset = w * RoomTemplate::tile_size();
            let tile = if primarily_x {
                GroundPoint { x: start.x + along, z: start.z + across_offset }
            } else {
                GroundPoint { x: start.x + across_offset, z: start.z + along }
            };
            let ghost before = tiles@;
            tiles.push(tile);
            proof {
                assert(tiles@[i * across + (w + half_w)] == corridor_tile(start, end, i as int, w as int));
                assert forall|a: int, b: int|
                    0 <= a < i && 0 <= b < across implies #[trigger] tiles@[a * across + b]
                        == corridor_tile(start, end, a, b - hw) by {
                    assert(a * across + b < i * across) by (nonlinear_arith)
                        requires
                            0 <= a < i,
                            0 <= b < across,
                    ;
                    assert(tiles@[a * across + b] == before[a * across + b]);
                }
                assert forall|b: int| 0 <= b < w + 1 + half_w implies #[trigger] tiles@[i * across + b]
                    == corridor_tile(start, end, i as int, b - hw) by {
                    if b < w + half_w {
                        assert(tiles@[i * across + b] == before[i * across + b]);
                    }
                }
            }
            w += 1;
        }
        proof {
            assert(w + half_w == across);
            assert((i + 1) * across == i * across + across) by (nonlinear_arith);
            assert forall|a: int, b: int|
                0 <= a < i + 1 && 0 <= b < across implies #[trigger] tiles@[a * across + b]
                    == corridor_tile(start, end, a, b - hw) by {
                if a == i {
                    assert(tiles@[i * across + b] == corridor_tile(start, end, i as int, b - hw));
                }
            }
        }
        // Corridor walls on the sides — skip the tile right at each room
        // edge (i=0 / i=count) so it doesn't poke into the room; the next
        // tile lines up flush with the room's wall line.
        let ghost walls_before = walls@;
        if i >= 1 && i < count {
            let offset = 2 * half_w + 1;
            if primarily_x {
                walls.push(WallPlacement {
                    center: GroundPoint { x: start.x + along, z: start.z - offset },
                    along_x: true,
                });
                walls.push(WallPlacement {
                    center: GroundPoint { x: start.x + along, z: start.z + offset },
                    along_x: true,
                });
            } else {
                walls.push(WallPlacement {
                    center: GroundPoint { x: start.x - offset, z: start.z + along },
                    along_x: false,
                });
                walls.push(WallPlacement {
                    center: GroundPoint { x: start.x + offset, z: start.z + along },
                    along_x: false,
                });
            }
            assert(walls_before.len() == 2 * (i - 1));
            assert(walls@[2 * (i - 1)] == corridor_wall(start, end, width_tiles as int, i as int, false));
            assert(walls@[2 * (i - 1) + 1] == corridor_wall(start, end, width_tiles as int, i as int, true));
        } else {
            assert(walls@ == walls_before);
        }
        proof {
            assert forall|a: int|
                1 <= a < i + 1 && a < count implies #[trigger] walls@[2 * (a - 1)] == corridor_wall(
                    start,
                    end,
                    width_tiles as int,
                    a,
                    false,
                ) && walls@[2 * (a - 1) + 1] == corridor_wall(start, end, width_tiles as int, a, true) by {
                if a < i {
                    assert(walls_before[2 * (a - 1)] == corridor_wall(start, end, width_tiles as int, a, false));
                    assert(walls@[2 * (a - 1)] == walls_before[2 * (a - 1)]);
                    assert(walls@[2 * (a - 1) + 1] == walls_before[2 * (a - 1) + 1]);
                }
            }
        }
        i += 1;
    }
    proof {
        lemma_side_walls_complete(walls@, start, end, width_tiles as int, i as int);
    }
    CorridorLayout { tiles, walls }
}

proof fn lemma_side_walls_complete(
    walls: Seq<WallPlacement>,
    start: GroundPoint,
    end: GroundPoint,
    width_tiles: int,
    reached: int,
)
    requires
        reached >= corridor_steps(start, end),
        forall|a: int|
            1 <= a < reached && a < corridor_steps(start, end) ==> #[trigger] walls[2 * (a - 1)]
                == corridor_wall(start, end, width_tiles, a, false) && walls[2 * (a - 1) + 1]
                == corridor_wall(start, end, width_tiles, a, true),
    ensures
        side_walls_match(walls, start, end, width_tiles),
{
    assert forall|s: int| 1 <= s < corridor_steps(start, end) implies #[trigger] walls[2 * (s - 1)]
        == corridor_wall(start, end, width_tiles, s, false) && walls[2 * (s - 1) + 1]
        == corridor_wall(start, end, width_tiles, s, true) by {
        assert(s < reached);
    }
}

} // verus!
