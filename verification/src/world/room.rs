//! Room templates: the tile dimensions, doors and enemy spawns of each kind of room.

use vstd::prelude::*;

use super::GroundPoint;

verus! {

/// Cardinal direction for a door on a room edge.
#[derive(Debug, Clone, Copy, PartialEq, Eq, Hash, Structural)]
pub enum DoorSide {
    North,
    South,
    East,
    West,
}

/// The side facing `side`.
pub open spec fn opposite_side(side: DoorSide) -> DoorSide {
    match side {
        DoorSide::North => DoorSide::South,
        DoorSide::South => DoorSide::North,
        DoorSide::East => DoorSide::West,
        DoorSide::West => DoorSide::East,
    }
}

impl DoorSide {
    pub fn opposite(self) -> (side: Self)
        ensures
            side == opposite_side(self),
    {
        match self {
            Self::North => Self::South,
            Self::South => Self::North,
            Self::East => Self::West,
            Self::West => Self::East,
        }
    }
}

/// Facing the opposite side twice faces the side one started from, and no side faces itself.
pub proof fn opposite_is_an_involution(side: DoorSide)
    ensures
        opposite_side(opposite_side(side)) == side,
        opposite_side(side) != side,
{
}

/// Half of `w`, rounded toward zero as integer division does.
pub open spec fn half_toward_zero(w: int) -> int {
    if w >= 0 { w / 2 } else { -((-w) / 2) }
}

/// A door opening on the edge of a room template.
#[derive(Debug, Clone, Copy, PartialEq, Eq, Structural)]
pub struct DoorSlot {
    /// Which edge the door is on.
    pub side: DoorSide,
    /// Position along that edge in grid coords (centered on the room).
    /// For North/South doors this is the X grid position.
    /// For East/West doors this is the Z grid position.
    /// Even widths use this as the positive-side center tile, so the true
    /// opening center sits half a tile toward negative X/Z.
    pub position: i32,
    /// Width of the opening in tiles.
    pub width: i32,
}

impl DoorSlot {
    /// First tile of the opening along its edge.
    pub open spec fn span_start(self) -> int {
        self.position - half_toward_zero(self.width as int)
    }

    /// One past the last tile of the opening along its edge.
    pub open spec fn span_end(self) -> int {
        self.span_start() + if self.width > 0 { self.width as int } else { 0 }
    }

    /// Whether the span of tiles can be written with `i32` bounds.
    pub open spec fn span_fits(self) -> bool {
        i32::MIN <= self.span_start() && self.span_end() <= i32::MAX
    }

    /// The tiles along the door's edge that the opening covers.
    pub fn axis_range(&self) -> (range: std::ops::Range<i32>)
        requires
            self.span_fits(),
        ensures
            range.start == self.span_start(),
            range.end == self.span_end(),
    {
        let start = self.position - self.width / 2;
        let width = if self.width > 0 { self.width } else { 0 };
        start..start + width
    }

    /// Twice the centre of the opening along its edge, in tiles: an odd-width door is
    /// centred on its tile, an even-width one half a tile toward negative X/Z.
    pub open spec fn doubled_center(self) -> int {
        2 * self.position - if self.width % 2 == 0 { 1int } else { 0int }
    }

    pub fn axis_center_doubled(&self) -> (center: i64)
        ensures
            center == self.doubled_center(),
    {
        let even_width_offset: i64 = if self.width % 2 == 0 { 1 } else { 0 };
        2 * (self.position as i64) - even_width_offset
    }
}

/// A door's opening covers exactly as many tiles as its width, and its centre (halfway
/// between its first and last tiles) is the door's centre: its position for an odd
/// width, half a tile toward negative X/Z of it for an even one.
pub proof fn door_gap_matches_width_and_center(door: DoorSlot)
    requires
        door.width > 0,
    ensures
        door.span_end() - door.span_start() == door.width,
        door.span_start() + (door.span_end() - 1) == door.doubled_center(),
{
}

/// What kind of enemy can spawn in this room.
#[derive(Debug, Clone, Copy, PartialEq, Eq, Structural)]
pub enum EnemySlot {
    Rat,
    Goblin,
}

/// A spawn point for an enemy within a room template.
#[derive(Debug, Clone, Copy, PartialEq, Eq, Structural)]
pub struct EnemySpawn {
    pub kind: EnemySlot,
    /// Grid-local position within the room.
    pub grid_x: i32,
    pub grid_z: i32,
}

/// Tag describing room purpose in the floor graph.
#[derive(Debug, Clone, Copy, PartialEq, Eq, Structural)]
pub enum RoomTag {
    Start,
    Combat,
    Elite,
    Boss,
}

/// A room template: tile dimensions, doors, enemy spawns.
#[derive(Debug, Clone)]
pub struct RoomTemplate {
    pub width: i32,
    pub height: i32,
    pub doors: Vec<DoorSlot>,
    pub enemies: Vec<EnemySpawn>,
    pub tag: RoomTag,
    /// Whether to spawn corner obelisks.
    pub obelisks: bool,
}

/// World units per tile.
pub open spec fn spec_tile_size() -> int {
    2
}

/// Whether `template` has a door on `side`.
pub open spec fn has_door_on(template: RoomTemplate, side: DoorSide) -> bool {
    exists|k: int| 0 <= k < template.doors@.len() && (#[trigger] template.doors@[k]).side == side
}

/// Whether `k` indexes the first door in `doors` that is on `side`.
pub open spec fn is_first_door_on(doors: Seq<DoorSlot>, side: DoorSide, k: int) -> bool {
    &&& 0 <= k < doors.len()
    &&& doors[k].side == side
    &&& forall|j: int| 0 <= j < k ==> (#[trigger] doors[j]).side != side
}

/// The door of `template` that a connection through `side` uses: the first door on that
/// side, or else the first door of all, or `None` for a template without doors.
pub open spec fn door_toward_side(template: RoomTemplate, side: DoorSide) -> Option<DoorSlot> {
    if has_door_on(template, side) {
        let k = choose|k: int| is_first_door_on(template.doors@, side, k);
        Some(template.doors@[k])
    } else if template.doors@.len() > 0 {
        Some(template.doors@[0])
    } else {
        None
    }
}

/// Among doors with one on `side` at index `k` or before, one is the first on that side.
proof fn lemma_first_door_on_exists(doors: Seq<DoorSlot>, side: DoorSide, k: int)
    requires
        0 <= k < doors.len(),
        doors[k].side == side,
    ensures
        exists|f: int| is_first_door_on(doors, side, f),
    decreases k,
{
    if exists|j: int| 0 <= j < k && (#[trigger] doors[j]).side == side {
        let j = choose|j: int| 0 <= j < k && (#[trigger] doors[j]).side == side;
        lemma_first_door_on_exists(doors, side, j);
    } else {
        assert(is_first_door_on(doors, side, k));
    }
}

/// A connection through a side where the template has a door leaves through a door on
/// that side.
pub proof fn door_toward_side_with_door(template: RoomTemplate, side: DoorSide)
    requires
        has_door_on(template, side),
    ensures
        door_toward_side(template, side) matches Some(door) && door.side == side,
{
    let k = choose|k: int| 0 <= k < template.doors@.len() && (#[trigger] template.doors@[k]).side == side;
    lemma_first_door_on_exists(template.doors@, side, k);
}

/// A door's point lies on the edge of the room on the door's own side, at the door's
/// centre along that edge: `height - 1` world units north of the room centre for a North
/// door, as far south for a South door, `width - 1` east for an East door and as far west
/// for a West door; along the edge, at twice its position, less half a tile for an even
/// width, measured from the room's corner.
pub proof fn door_point_lies_on_its_edge(template: RoomTemplate, door: DoorSlot)
    ensures
        ({
            let offset = template.door_offset(door);
            let along = 2 * door.position - (if door.width % 2 == 0 { 1int } else { 0int });
            match door.side {
                DoorSide::North => offset.z == template.height - 1 && offset.x == along - (template.width - 1),
                DoorSide::South => offset.z == -(template.height - 1) && offset.x == along - (template.width - 1),
                DoorSide::East => offset.x == template.width - 1 && offset.z == along - (template.height - 1),
                DoorSide::West => offset.x == -(template.width - 1) && offset.z == along - (template.height - 1),
            }
        }),
{
}

/// The points of doors on opposite sides lie on opposite edges, mirrored through the room
/// centre.
pub proof fn opposite_doors_lie_on_opposite_edges(template: RoomTemplate, door: DoorSlot, other: DoorSlot)
    requires
        other.side == opposite_side(door.side),
    ensures
        match door.side {
            DoorSide::North | DoorSide::South => template.door_offset(door).z == -template.door_offset(other).z
                && (template.height != 1 ==> template.door_offset(door).z != 0),
            DoorSide::East | DoorSide::West => template.door_offset(door).x == -template.door_offset(other).x
                && (template.width != 1 ==> template.door_offset(door).x != 0),
        },
{
}

impl RoomTemplate {
    /// Half-extent in X of this room in world units, measured from center.
    pub open spec fn spec_half_extent_x(self) -> int {
        (self.width - 1) * spec_tile_size() / 2
    }

    /// Half-extent in Z of this room in world units, measured from center.
    pub open spec fn spec_half_extent_z(self) -> int {
        (self.height - 1) * spec_tile_size() / 2
    }

    /// World-space offset from the room center of the tile at grid coordinates `(gx, gz)`.
    pub open spec fn local_of(self, gx: int, gz: int) -> GroundPoint {
        GroundPoint {
            x: (gx * spec_tile_size() - self.spec_half_extent_x()) as i64,
            z: (gz * spec_tile_size() - self.spec_half_extent_z()) as i64,
        }
    }

    /// World-space offset of a door from the room center, at the room edge.
    pub open spec fn door_offset(self, door: DoorSlot) -> GroundPoint {
        let axis = door.doubled_center();
        let hx = self.spec_half_extent_x();
        let hz = self.spec_half_extent_z();
        match door.side {
            DoorSide::North => GroundPoint { x: (axis - hx) as i64, z: hz as i64 },
            DoorSide::South => GroundPoint { x: (axis - hx) as i64, z: (-hz) as i64 },
            DoorSide::East => GroundPoint { x: hx as i64, z: (axis - hz) as i64 },
            DoorSide::West => GroundPoint { x: (-hx) as i64, z: (axis - hz) as i64 },
        }
    }

    /// World units per tile.
    pub fn tile_size() -> (size: i64)
        ensures
            size == spec_tile_size(),
    {
        2
    }

    /// Half-extent of this room in world units, measured from center.
    pub fn half_extent_x(&self) -> (half: i64)
        ensures
            half == self.spec_half_extent_x(),
    {
        (self.width as i64 - 1) * Self::tile_size() / 2
    }

    pub fn half_extent_z(&self) -> (half: i64)
        ensures
            half == self.spec_half_extent_z(),
    {
        (self.height as i64 - 1) * Self::tile_size() / 2
    }

    /// Convert a grid-local coordinate to a world-space offset from the room center.
    pub fn grid_to_local(&self, grid_x: i32, grid_z: i32) -> (offset: GroundPoint)
        ensures
            offset == self.local_of(grid_x as int, grid_z as int),
    {
        GroundPoint {
            x: grid_x as i64 * Self::tile_size() - self.half_extent_x(),
            z: grid_z as i64 * Self::tile_size() - self.half_extent_z(),
        }
    }

    /// World-space position of a door slot, relative to room center.
    /// Returns the position at the room edge (not beyond it).
    pub fn door_world_offset(&self, door: &DoorSlot) -> (offset: GroundPoint)
        ensures
            offset == self.door_offset(*door),
            door.side == DoorSide::North ==> offset.z == self.height - 1,
            door.side == DoorSide::South ==> offset.z == -(self.height - 1),
            door.side == DoorSide::East ==> offset.x == self.width - 1,
            door.side == DoorSide::West ==> offset.x == -(self.width - 1),
    {
        let axis = door.axis_center_doubled();
        let hx = self.half_extent_x();
        let hz = self.half_extent_z();
        match door.side {
            DoorSide::North => GroundPoint { x: axis - hx, z: hz },
            DoorSide::South => GroundPoint { x: axis - hx, z: -hz },
            DoorSide::East => GroundPoint { x: hx, z: axis - hz },
            DoorSide::West => GroundPoint { x: -hx, z: axis - hz },
        }
    }

    /// Whether this template has a door on `side`.
    pub fn has_door(&self, side: DoorSide) -> (found: bool)
        ensures
            found == has_door_on(*self, side),
    {
        let mut k: usize = 0;
        while k < self.doors.len()
            invariant
                k <= self.doors@.len(),
                forall|j: int| 0 <= j < k ==> (#[trigger] self.doors@[j]).side != side,
            decreases self.doors@.len() - k,
        {
            if self.doors[k].side == side {
                return true;
            }
            k += 1;
        }
        false
    }

    /// The first door on `side`, or else the first door of all, or `None` for a
    /// template without doors.
    pub fn door_toward(&self, side: DoorSide) -> (door: Option<DoorSlot>)
        ensures
            door == door_toward_side(*self, side),
    {
        let mut k: usize = 0;
        while k < self.doors.len()
            invariant
                k <= self.doors@.len(),
                forall|j: int| 0 <= j < k ==> (#[trigger] self.doors@[j]).side != side,
            decreases self.doors@.len() - k,
        {
            if self.doors[k].side == side {
                proof {
                    assert(is_first_door_on(self.doors@, side, k as int));
                    let c = choose|c: int| is_first_door_on(self.doors@, side, c);
                    if c < k {
                        assert(self.doors@[c].side != side);
                    }
                    if c > k {
                        assert(self.doors@[k as int].side != side);
                    }
                }
                return Some(self.doors[k]);
            }
            k += 1;
        }
        if self.doors.len() > 0 {
            Some(self.doors[0])
        } else {
            None
        }
    }
}

/// The built-in template library, template by template.
pub open spec fn is_built_in_library(ts: Seq<RoomTemplate>) -> bool {
    &&& ts.len() == 6
    &&& ts[0].width == 12 && ts[0].height == 12
    &&& ts[0].doors@ == seq![DoorSlot { side: DoorSide::North, position: 6, width: 3 }, DoorSlot { side: DoorSide::East, position: 6, width: 3 }]
    &&& ts[0].enemies@ == Seq::<EnemySpawn>::empty()
    &&& ts[0].tag == RoomTag::Start && ts[0].obelisks == false
    &&& ts[1].width == 14 && ts[1].height == 14
    &&& ts[1].doors@ == seq![DoorSlot { side: DoorSide::South, position: 7, width: 3 }, DoorSlot { side: DoorSide::North, position: 7, width: 3 }]
    &&& ts[1].enemies@ == seq![
        EnemySpawn { kind: EnemySlot::Rat, grid_x: 4, grid_z: 5 },
        EnemySpawn { kind: EnemySlot::Rat, grid_x: 9, grid_z: 8 },
        EnemySpawn { kind: EnemySlot::Rat, grid_x: 7, grid_z: 11 },
    ]
    &&& ts[1].tag == RoomTag::Combat && ts[1].obelisks == false
    &&& ts[2].width == 18 && ts[2].height == 14
    &&& ts[2].doors@ == seq![DoorSlot { side: DoorSide::West, position: 7, width: 3 }, DoorSlot { side: DoorSide::East, position: 7, width: 3 }, DoorSlot { side: DoorSide::North, position: 9, width: 3 }]
    &&& ts[2].enemies@ == seq![
        EnemySpawn { kind: EnemySlot::Goblin, grid_x: 3, grid_z: 4 },
        EnemySpawn { kind: EnemySlot::Goblin, grid_x: 14, grid_z: 10 },
        EnemySpawn { kind: EnemySlot::Rat, grid_x: 8, grid_z: 7 },
        EnemySpawn { kind: EnemySlot::Rat, grid_x: 11, grid_z: 5 },
    ]
    &&& ts[2].tag == RoomTag::Combat && ts[2].obelisks == false
    &&& ts[3].width == 20 && ts[3].height == 20
    &&& ts[3].doors@ == seq![DoorSlot { side: DoorSide::South, position: 10, width: 3 }, DoorSlot { side: DoorSide::North, position: 10, width: 3 }, DoorSlot { side: DoorSide::East, position: 10, width: 3 }, DoorSlot { side: DoorSide::West, position: 10, width: 3 }]
    &&& ts[3].enemies@ == seq![
        EnemySpawn { kind: EnemySlot::Rat, grid_x: 6, grid_z: 8 },
        EnemySpawn { kind: EnemySlot::Rat, grid_x: 8, grid_z: 14 },
        EnemySpawn { kind: EnemySlot::Rat, grid_x: 13, grid_z: 6 },
        EnemySpawn { kind: EnemySlot::Rat, grid_x: 15, grid_z: 11 },
        EnemySpawn { kind: EnemySlot::Goblin, grid_x: 4, grid_z: 5 },
        EnemySpawn { kind: EnemySlot::Goblin, grid_x: 16, grid_z: 15 },
    ]
    &&& ts[3].tag == RoomTag::Combat && ts[3].obelisks == true
    &&& ts[4].width == 16 && ts[4].height == 20
    &&& ts[4].doors@ == seq![DoorSlot { side: DoorSide::South, position: 8, width: 3 }, DoorSlot { side: DoorSide::North, position: 8, width: 3 }]
    &&& ts[4].enemies@ == seq![
        EnemySpawn { kind: EnemySlot::Rat, grid_x: 4, grid_z: 5 },
        EnemySpawn { kind: EnemySlot::Rat, grid_x: 11, grid_z: 5 },
        EnemySpawn { kind: EnemySlot::Rat, grid_x: 8, grid_z: 10 },
        EnemySpawn { kind: EnemySlot::Rat, grid_x: 4, grid_z: 14 },
        EnemySpawn { kind: EnemySlot::Rat, grid_x: 11, grid_z: 14 },
        EnemySpawn { kind: EnemySlot::Goblin, grid_x: 3, grid_z: 10 },
        EnemySpawn { kind: EnemySlot::Goblin, grid_x: 12, grid_z: 10 },
        EnemySpawn { kind: EnemySlot::Goblin, grid_x: 8, grid_z: 17 },
    ]
    &&& ts[4].tag == RoomTag::Elite && ts[4].obelisks == true
    &&& ts[5].width == 22 && ts[5].height == 22
    &&& ts[5].doors@ == seq![DoorSlot { side: DoorSide::South, position: 11, width: 4 }]
    &&& ts[5].enemies@ == seq![
        EnemySpawn { kind: EnemySlot::Rat, grid_x: 5, grid_z: 6 },
        EnemySpawn { kind: EnemySlot::Rat, grid_x: 16, grid_z: 6 },
        EnemySpawn { kind: EnemySlot::Rat, grid_x: 5, grid_z: 16 },
        EnemySpawn { kind: EnemySlot::Rat, grid_x: 16, grid_z: 16 },
        EnemySpawn { kind: EnemySlot::Goblin, grid_x: 7, grid_z: 11 },
        EnemySpawn { kind: EnemySlot::Goblin, grid_x: 14, grid_z: 11 },
        EnemySpawn { kind: EnemySlot::Goblin, grid_x: 11, grid_z: 7 },
        EnemySpawn { kind: EnemySlot::Goblin, grid_x: 11, grid_z: 15 },
    ]
    &&& ts[5].tag == RoomTag::Boss && ts[5].obelisks == true
}

/// Build the built-in template library.
pub fn built_in_templates() -> (templates: Vec<RoomTemplate>)
    ensures
        is_built_in_library(templates@),
{
    let templates = vec![
        // ---- Start room: small, safe ----
        RoomTemplate {
            width: 12,
            height: 12,
            doors: vec![
                DoorSlot { side: DoorSide::North, position: 6, width: 3 },
                DoorSlot { side: DoorSide::East, position: 6, width: 3 },
            ],
            enemies: vec![],
            tag: RoomTag::Start,
            obelisks: false,
        },
        // ---- Small combat room ----
        RoomTemplate {
            width: 14,
            height: 14,
            doors: vec![
                DoorSlot { side: DoorSide::South, position: 7, width: 3 },
                DoorSlot { side: DoorSide::North, position: 7, width: 3 },
            ],
            enemies: vec![
                EnemySpawn { kind: EnemySlot::Rat, grid_x: 4, grid_z: 5 },
                EnemySpawn { kind: EnemySlot::Rat, grid_x: 9, grid_z: 8 },
                EnemySpawn { kind: EnemySlot::Rat, grid_x: 7, grid_z: 11 },
            ],
            tag: RoomTag::Combat,
            obelisks: false,
        },
        // ---- Medium combat room ----
        RoomTemplate {
            width: 18,
            height: 14,
            doors: vec![
                DoorSlot { side: DoorSide::West, position: 7, width: 3 },
                DoorSlot { side: DoorSide::East, position: 7, width: 3 },
                DoorSlot { side: DoorSide::North, position: 9, width: 3 },
            ],
            enemies: vec![
                EnemySpawn { kind: EnemySlot::Goblin, grid_x: 3, grid_z: 4 },
                EnemySpawn { kind: EnemySlot::Goblin, grid_x: 14, grid_z: 10 },
                EnemySpawn { kind: EnemySlot::Rat, grid_x: 8, grid_z: 7 },
                EnemySpawn { kind: EnemySlot::Rat, grid_x: 11, grid_z: 5 },
            ],
            tag: RoomTag::Combat,
            obelisks: false,
        },
        // ---- Large arena ----
        RoomTemplate {
            width: 20,
            height: 20,
            doors: vec![
                DoorSlot { side: DoorSide::South, position: 10, width: 3 },
                DoorSlot { side: DoorSide::North, position: 10, width: 3 },
                DoorSlot { side: DoorSide::East, position: 10, width: 3 },
                DoorSlot { side: DoorSide::West, position: 10, width: 3 },
            ],
            enemies: vec![
                EnemySpawn { kind: EnemySlot::Rat, grid_x: 6, grid_z: 8 },
                EnemySpawn { kind: EnemySlot::Rat, grid_x: 8, grid_z: 14 },
                EnemySpawn { kind: EnemySlot::Rat, grid_x: 13, grid_z: 6 },
                EnemySpawn { kind: EnemySlot::Rat, grid_x: 15, grid_z: 11 },
                EnemySpawn { kind: EnemySlot::Goblin, grid_x: 4, grid_z: 5 },
                EnemySpawn { kind: EnemySlot::Goblin, grid_x: 16, grid_z: 15 },
            ],
            tag: RoomTag::Combat,
            obelisks: true,
        },
        // ---- Elite room: tough enemies ----
        RoomTemplate {
            width: 16,
            height: 20,
            doors: vec![
                DoorSlot { side: DoorSide::South, position: 8, width: 3 },
                DoorSlot { side: DoorSide::North, position: 8, width: 3 },
            ],
            enemies: vec![
                EnemySpawn { kind: EnemySlot::Rat, grid_x: 4, grid_z: 5 },
                EnemySpawn { kind: EnemySlot::Rat, grid_x: 11, grid_z: 5 },
                EnemySpawn { kind: EnemySlot::Rat, grid_x: 8, grid_z: 10 },
                EnemySpawn { kind: EnemySlot::Rat, grid_x: 4, grid_z: 14 },
                EnemySpawn { kind: EnemySlot::Rat, grid_x: 11, grid_z: 14 },
                EnemySpawn { kind: EnemySlot::Goblin, grid_x: 3, grid_z: 10 },
                EnemySpawn { kind: EnemySlot::Goblin, grid_x: 12, grid_z: 10 },
                EnemySpawn { kind: EnemySlot::Goblin, grid_x: 8, grid_z: 17 },
            ],
            tag: RoomTag::Elite,
            obelisks: true,
        },
        // ---- Boss room ----
        RoomTemplate {
            width: 22,
            height: 22,
            doors: vec![
                DoorSlot { side: DoorSide::South, position: 11, width: 4 },
            ],
            enemies: vec![
                EnemySpawn { kind: EnemySlot::Rat, grid_x: 5, grid_z: 6 },
                EnemySpawn { kind: EnemySlot::Rat, grid_x: 16, grid_z: 6 },
                EnemySpawn { kind: EnemySlot::Rat, grid_x: 5, grid_z: 16 },
                EnemySpawn { kind: EnemySlot::Rat, grid_x: 16, grid_z: 16 },
                EnemySpawn { kind: EnemySlot::Goblin, grid_x: 7, grid_z: 11 },
                EnemySpawn { kind: EnemySlot::Goblin, grid_x: 14, grid_z: 11 },
                EnemySpawn { kind: EnemySlot::Goblin, grid_x: 11, grid_z: 7 },
                EnemySpawn { kind: EnemySlot::Goblin, grid_x: 11, grid_z: 15 },
            ],
            tag: RoomTag::Boss,
            obelisks: true,
        },
    ];
    proof {
        assert(templates@[0].doors@ =~= seq![DoorSlot { side: DoorSide::North, position: 6, width: 3 }, DoorSlot { side: DoorSide::East, position: 6, width: 3 }]);
        assert(templates@[0].enemies@ =~= Seq::<EnemySpawn>::empty());
        assert(templates@[1].doors@ =~= seq![DoorSlot { side: DoorSide::South, position: 7, width: 3 }, DoorSlot { side: DoorSide::North, position: 7, width: 3 }]);
        assert(templates@[1].enemies@ =~= seq![
            EnemySpawn { kind: EnemySlot::Rat, grid_x: 4, grid_z: 5 },
            EnemySpawn { kind: EnemySlot::Rat, grid_x: 9, grid_z: 8 },
            EnemySpawn { kind: EnemySlot::Rat, grid_x: 7, grid_z: 11 },
        ]);
        assert(templates@[2].doors@ =~= seq![DoorSlot { side: DoorSide::West, position: 7, width: 3 }, DoorSlot { side: DoorSide::East, position: 7, width: 3 }, DoorSlot { side: DoorSide::North, position: 9, width: 3 }]);
        assert(templates@[2].enemies@ =~= seq![
            EnemySpawn { kind: EnemySlot::Goblin, grid_x: 3, grid_z: 4 },
            EnemySpawn { kind: EnemySlot::Goblin, grid_x: 14, grid_z: 10 },
            EnemySpawn { kind: EnemySlot::Rat, grid_x: 8, grid_z: 7 },
            EnemySpawn { kind: EnemySlot::Rat, grid_x: 11, grid_z: 5 },
        ]);
        assert(templates@[3].doors@ =~= seq![DoorSlot { side: DoorSide::South, position: 10, width: 3 }, DoorSlot { side: DoorSide::North, position: 10, width: 3 }, DoorSlot { side: DoorSide::East, position: 10, width: 3 }, DoorSlot { side: DoorSide::West, position: 10, width: 3 }]);
        assert(templates@[3].enemies@ =~= seq![
            EnemySpawn { kind: EnemySlot::Rat, grid_x: 6, grid_z: 8 },
            EnemySpawn { kind: EnemySlot::Rat, grid_x: 8, grid_z: 14 },
            EnemySpawn { kind: EnemySlot::Rat, grid_x: 13, grid_z: 6 },
            EnemySpawn { kind: EnemySlot::Rat, grid_x: 15, grid_z: 11 },
            EnemySpawn { kind: EnemySlot::Goblin, grid_x: 4, grid_z: 5 },
            EnemySpawn { kind: EnemySlot::Goblin, grid_x: 16, grid_z: 15 },
        ]);
        assert(templates@[4].doors@ =~= seq![DoorSlot { side: DoorSide::South, position: 8, width: 3 }, DoorSlot { side: DoorSide::North, position: 8, width: 3 }]);
        assert(templates@[4].enemies@ =~= seq![
            EnemySpawn { kind: EnemySlot::Rat, grid_x: 4, grid_z: 5 },
            EnemySpawn { kind: EnemySlot::Rat, grid_x: 11, grid_z: 5 },
            EnemySpawn { kind: EnemySlot::Rat, grid_x: 8, grid_z: 10 },
            EnemySpawn { kind: EnemySlot::Rat, grid_x: 4, grid_z: 14 },
            EnemySpawn { kind: EnemySlot::Rat, grid_x: 11, grid_z: 14 },
            EnemySpawn { kind: EnemySlot::Goblin, grid_x: 3, grid_z: 10 },
            EnemySpawn { kind: EnemySlot::Goblin, grid_x: 12, grid_z: 10 },
            EnemySpawn { kind: EnemySlot::Goblin, grid_x: 8, grid_z: 17 },
        ]);
        assert(templates@[5].doors@ =~= seq![DoorSlot { side: DoorSide::South, position: 11, width: 4 }]);
        assert(templates@[5].enemies@ =~= seq![
            EnemySpawn { kind: EnemySlot::Rat, grid_x: 5, grid_z: 6 },
            EnemySpawn { kind: EnemySlot::Rat, grid_x: 16, grid_z: 6 },
            EnemySpawn { kind: EnemySlot::Rat, grid_x: 5, grid_z: 16 },
            EnemySpawn { kind: EnemySlot::Rat, grid_x: 16, grid_z: 16 },
            EnemySpawn { kind: EnemySlot::Goblin, grid_x: 7, grid_z: 11 },
            EnemySpawn { kind: EnemySlot::Goblin, grid_x: 14, grid_z: 11 },
            EnemySpawn { kind: EnemySlot::Goblin, grid_x: 11, grid_z: 7 },
            EnemySpawn { kind: EnemySlot::Goblin, grid_x: 11, grid_z: 15 },
        ]);
    }
    templates
}

} // verus!
