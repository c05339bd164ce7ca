//! Floor layout: a random walk of rooms on a coarse grid, side branches and the
//! corridors that join neighbouring rooms.

use vstd::prelude::*;

use super::room::{
    built_in_templates, door_toward_side, door_toward_side_with_door, has_door_on,
    is_built_in_library, opposite_side, DoorSide, RoomTag, RoomTemplate,
};
use super::GroundPoint;
use crate::rng::{draw_below, seeded_state, state_after_draw_below, SplitMix64};

verus! {

/// Spacing between room centers on the coarse grid (world units).
pub const COARSE_CELL_SIZE: i64 = 56;

/// A placed room in the floor layout.
#[derive(Debug)]
pub struct PlacedRoom {
    /// Index into the template library.
    pub template_index: usize,
    /// Center of this room in world space.
    pub world_center: GroundPoint,
    /// Which coarse-grid cell this room occupies.
    pub grid_cell: (i32, i32),
    /// Connections to other rooms: (neighbor PlacedRoom index, our door side).
    pub connections: Vec<(usize, DoorSide)>,
}

impl PlacedRoom {
    /// The sides of this room that its connections leave through, in order: where its
    /// walls get a door gap.
    pub fn connected_sides(&self) -> (sides: Vec<DoorSide>)
        ensures
            sides@.len() == self.connections@.len(),
            forall|k: int| 0 <= k < sides@.len() ==> #[trigger] sides@[k] == self.connections@[k].1,
    {
        let mut sides: Vec<DoorSide> = Vec::new();
        let mut k: usize = 0;
        while k < self.connections.len()
            invariant
                k <= self.connections@.len(),
                sides@.len() == k,
                forall|j: int| 0 <= j < k ==> #[trigger] sides@[j] == self.connections@[j].1,
            decreases self.connections@.len() - k,
        {
            sides.push(self.connections[k].1);
            k += 1;
        }
        sides
    }
}

/// A corridor segment connecting two rooms.
#[derive(Debug, Clone, Copy, PartialEq, Eq, Structural)]
pub struct Corridor {
    /// World-space start/end of the corridor centerline.
    pub start: GroundPoint,
    pub end: GroundPoint,
    /// Corridor width in tiles.
    pub width: i32,
}

/// The complete layout for one dungeon floor.
#[derive(Debug)]
pub struct FloorMap {
    pub rooms: Vec<PlacedRoom>,
    pub corridors: Vec<Corridor>,
    pub templates: Vec<RoomTemplate>,
    pub start_room: usize,
}

/// The coarse-grid step taken through a door on `side`.
pub open spec fn side_delta(side: DoorSide) -> (int, int) {
    match side {
        DoorSide::North => (0, 1),
        DoorSide::South => (0, -1),
        DoorSide::East => (1, 0),
        DoorSide::West => (-1, 0),
    }
}

/// The world-space center of a room on coarse-grid cell `cell`.
pub open spec fn cell_center(cell: (i32, i32)) -> GroundPoint {
    GroundPoint {
        x: (cell.0 * COARSE_CELL_SIZE) as i64,
        z: (cell.1 * COARSE_CELL_SIZE) as i64,
    }
}

/// Whether the walk may leave a room of `template` on `cell` through `side`: the room has a
/// door there, the cell beyond is free, and the step does not reverse `last_direction`.
pub open spec fn exit_allowed(
    template: RoomTemplate,
    cell: (i32, i32),
    occupied: Seq<(i32, i32)>,
    last_direction: Option<DoorSide>,
    side: DoorSide,
) -> bool {
    &&& has_door_on(template, side)
    &&& !occupied.contains(
        ((cell.0 + side_delta(side).0) as i32, (cell.1 + side_delta(side).1) as i32),
    )
    &&& match last_direction {
        Some(last) => side != opposite_side(last),
        None => true,
    }
}

/// The exits allowed through `side`, as a candidate list of zero or one entries.
pub open spec fn exit_if_allowed(
    template: RoomTemplate,
    cell: (i32, i32),
    occupied: Seq<(i32, i32)>,
    last_direction: Option<DoorSide>,
    side: DoorSide,
) -> Seq<(DoorSide, (i32, i32))> {
    if exit_allowed(template, cell, occupied, last_direction, side) {
        seq![(side, (side_delta(side).0 as i32, side_delta(side).1 as i32))]
    } else {
        Seq::empty()
    }
}

/// All allowed exits, in the order North, South, East, West.
pub open spec fn allowed_exits(
    template: RoomTemplate,
    cell: (i32, i32),
    occupied: Seq<(i32, i32)>,
    last_direction: Option<DoorSide>,
) -> Seq<(DoorSide, (i32, i32))> {
    exit_if_allowed(template, cell, occupied, last_direction, DoorSide::North)
        + exit_if_allowed(template, cell, occupied, last_direction, DoorSide::South)
        + exit_if_allowed(template, cell, occupied, last_direction, DoorSide::East)
        + exit_if_allowed(template, cell, occupied, last_direction, DoorSide::West)
}

/// The coarse-grid step through a door on `side`.
fn side_step(side: DoorSide) -> (step: (i32, i32))
    ensures
        step.0 == side_delta(side).0,
        step.1 == side_delta(side).1,
{
    match side {
        DoorSide::North => (0, 1),
        DoorSide::South => (0, -1),
        DoorSide::East => (1, 0),
        DoorSide::West => (-1, 0),
    }
}

/// Whether `cell` is one of `occupied`.
fn cell_occupied(occupied: &Vec<(i32, i32)>, cell: (i32, i32)) -> (found: bool)
    ensures
        found == occupied@.contains(cell),
{
    let mut k: usize = 0;
    while k < occupied.len()
        invariant
            k <= occupied@.len(),
            forall|j: int| 0 <= j < k ==> occupied@[j] != cell,
        decreases occupied@.len() - k,
    {
        let other = occupied[k];
        if other.0 == cell.0 && other.1 == cell.1 {
            assert(occupied@[k as int] == cell);
            return true;
        }
        k += 1;
    }
    false
}

/// Whether the walk may leave a room of `template` on `cell` through `side`.
fn exit_is_allowed(
    template: &RoomTemplate,
    cell: (i32, i32),
    occupied: &Vec<(i32, i32)>,
    last_direction: Option<DoorSide>,
    side: DoorSide,
) -> (allowed: bool)
    requires
        -1000 <= cell.0 <= 1000,
        -1000 <= cell.1 <= 1000,
    ensures
        allowed == exit_allowed(*template, cell, occupied@, last_direction, side),
{
    let (dx, dz) = side_step(side);
    let new_cell = (cell.0 + dx, cell.1 + dz);
    let not_reversing = match last_direction {
        Some(last) => side != last.opposite(),
        None => true,
    };
    template.has_door(side) && !cell_occupied(occupied, new_cell) && not_reversing
}

/// The exit through `side` if it is allowed, appended to `exits`.
fn push_exit_if_allowed(
    exits: &mut Vec<(DoorSide, (i32, i32))>,
    template: &RoomTemplate,
    cell: (i32, i32),
    occupied: &Vec<(i32, i32)>,
    last_direction: Option<DoorSide>,
    side: DoorSide,
)
    requires
        -1000 <= cell.0 <= 1000,
        -1000 <= cell.1 <= 1000,
    ensures
        final(exits)@ == old(exits)@ + exit_if_allowed(
            *template,
            cell,
            occupied@,
            last_direction,
            side,
        ),
{
    if exit_is_allowed(template, cell, occupied, last_direction, side) {
        let (dx, dz) = side_step(side);
        exits.push((side, (dx, dz)));
        assert(exit_if_allowed(*template, cell, occupied@, last_direction, side) =~= seq![
            (side, (dx, dz)),
        ]);
    } else {
        assert(exit_if_allowed(*template, cell, occupied@, last_direction, side) =~= Seq::<
            (DoorSide, (i32, i32)),
        >::empty());
    }
}

/// The directions in which the walk may leave a room of `template` on `cell`, with the
/// coarse-grid step each takes, in the order North, South, East, West.
fn exit_candidates(
    template: &RoomTemplate,
    cell: (i32, i32),
    occupied: &Vec<(i32, i32)>,
    last_direction: Option<DoorSide>,
) -> (exits: Vec<(DoorSide, (i32, i32))>)
    requires
        -1000 <= cell.0 <= 1000,
        -1000 <= cell.1 <= 1000,
    ensures
        exits@ == allowed_exits(*template, cell, occupied@, last_direction),
{
    let mut exits: Vec<(DoorSide, (i32, i32))> = Vec::new();
    push_exit_if_allowed(&mut exits, template, cell, occupied, last_direction, DoorSide::North);
    push_exit_if_allowed(&mut exits, template, cell, occupied, last_direction, DoorSide::South);
    push_exit_if_allowed(&mut exits, template, cell, occupied, last_direction, DoorSide::East);
    push_exit_if_allowed(&mut exits, template, cell, occupied, last_direction, DoorSide::West);
    assert(exits@ =~= allowed_exits(*template, cell, occupied@, last_direction));
    exits
}

/// The indices of the templates tagged `tag`, in increasing order.
pub open spec fn tag_indices_spec(templates: Seq<RoomTemplate>, tag: RoomTag, indices: Seq<usize>) -> bool {
    &&& forall|k: int|
        0 <= k < indices.len() ==> indices[k] < templates.len() && templates[indices[k] as int].tag
            == tag
    &&& forall|i: int| 0 <= i < templates.len() && templates[i].tag == tag ==> indices.contains(i as usize)
    &&& forall|a: int, b: int| 0 <= a < b < indices.len() ==> indices[a] < indices[b]
}

/// The indices, in increasing order, of the templates tagged `tag` among the first `n`.
pub open spec fn tag_indices_below(templates: Seq<RoomTemplate>, tag: RoomTag, n: int) -> Seq<usize>
    decreases n,
{
    if n <= 0 {
        Seq::empty()
    } else {
        let prev = tag_indices_below(templates, tag, n - 1);
        if templates[n - 1].tag == tag {
            prev.push((n - 1) as usize)
        } else {
            prev
        }
    }
}

/// The indices of the templates tagged `tag`, in increasing order.
pub open spec fn tag_indices(templates: Seq<RoomTemplate>, tag: RoomTag) -> Seq<usize> {
    tag_indices_below(templates, tag, templates.len() as int)
}

/// The indices of the templates tagged `tag`, in increasing order.
fn template_indices_with_tag(templates: &Vec<RoomTemplate>, tag: RoomTag) -> (indices: Vec<usize>)
    ensures
        tag_indices_spec(templates@, tag, indices@),
        indices@ == tag_indices(templates@, tag),
{
    let mut indices: Vec<usize> = Vec::new();
    let mut i: usize = 0;
    while i < templates.len()
        invariant
            i <= templates@.len(),
            forall|k: int|
                0 <= k < indices@.len() ==> indices@[k] < i && templates@[indices@[k] as int].tag
                    == tag,
            forall|j: int| 0 <= j < i && templates@[j].tag == tag ==> indices@.contains(j as usize),
            forall|a: int, b: int| 0 <= a < b < indices@.len() ==> indices@[a] < indices@[b],
            indices@ == tag_indices_below(templates@, tag, i as int),
        decreases templates@.len() - i,
    {
        let ghost before = indices@;
        if templates[i].tag == tag {
            indices.push(i);
            assert(indices@[indices@.len() - 1] == i);
        }
        proof {
            assert forall|j: int| 0 <= j < i + 1 && templates@[j].tag == tag implies indices@.contains(
                j as usize,
            ) by {
                if j == i {
                    assert(indices@[indices@.len() - 1] == i);
                } else {
                    assert(before.contains(j as usize));
                    let w = choose|w: int| 0 <= w < before.len() && before[w] == j as usize;
                    assert(indices@[w] == before[w]);
                }
            }
        }
        i += 1;
    }
    indices
}

/// The templates among `candidates` that have a door on `entry_side`, in order.
pub open spec fn with_door(
    templates: Seq<RoomTemplate>,
    candidates: Seq<usize>,
    entry_side: DoorSide,
) -> Seq<usize> {
    candidates.filter(|ti: usize| has_door_on(templates[ti as int], entry_side))
}

/// The bound below which `pick_template_with_door` draws.
pub open spec fn pick_bound(templates: Seq<RoomTemplate>, candidates: Seq<usize>, entry_side: DoorSide) -> usize {
    if candidates.len() == 0 {
        templates.len() as usize
    } else if with_door(templates, candidates, entry_side).len() == 0 {
        candidates.len() as usize
    } else {
        with_door(templates, candidates, entry_side).len() as usize
    }
}

/// The template `pick_template_with_door` picks when its generator is in `state`.
pub open spec fn picked_template(
    templates: Seq<RoomTemplate>,
    candidates: Seq<usize>,
    entry_side: DoorSide,
    state: u64,
) -> usize {
    let draw = draw_below(state, pick_bound(templates, candidates, entry_side)) as int;
    if candidates.len() == 0 {
        draw as usize
    } else if with_door(templates, candidates, entry_side).len() == 0 {
        candidates[draw]
    } else {
        with_door(templates, candidates, entry_side)[draw]
    }
}

/// The templates among `candidates` that have a door on `entry_side`, in order.
fn templates_with_door(
    templates: &Vec<RoomTemplate>,
    candidates: &Vec<usize>,
    entry_side: DoorSide,
) -> (valid: Vec<usize>)
    requires
        forall|k: int| 0 <= k < candidates@.len() ==> candidates@[k] < templates@.len(),
    ensures
        valid@ == with_door(templates@, candidates@, entry_side),
{
    let ghost pred = |ti: usize| has_door_on(templates@[ti as int], entry_side);
    let mut valid: Vec<usize> = Vec::new();
    let mut k: usize = 0;
    while k < candidates.len()
        invariant
            k <= candidates@.len(),
            forall|j: int| 0 <= j < candidates@.len() ==> candidates@[j] < templates@.len(),
            pred == (|ti: usize| has_door_on(templates@[ti as int], entry_side)),
            valid@ == candidates@.take(k as int).filter(pred),
        decreases candidates@.len() - k,
    {
        let ti = candidates[k];
        proof {
            reveal(Seq::filter);
            assert(candidates@.take(k + 1).drop_last() =~= candidates@.take(k as int));
            assert(candidates@.take(k + 1).last() == ti);
            assert(candidates@.take(k + 1).filter(pred) == (if pred(ti) {
                candidates@.take(k as int).filter(pred).push(ti)
            } else {
                candidates@.take(k as int).filter(pred)
            }));
        }
        let has = templates[ti].has_door(entry_side);
        if has {
            valid.push(ti);
        }
        k += 1;
    }
    assert(candidates@.take(candidates@.len() as int) =~= candidates@);
    valid
}

/// Pick a template that has a door on `entry_side`. Falls back to any candidate if none
/// has one, and to any template of the library when there are no candidates; the floor
/// generator only hands in candidates of which one at least has the door.
pub fn pick_template_with_door(
    templates: &Vec<RoomTemplate>,
    candidates: &Vec<usize>,
    entry_side: DoorSide,
    rng: &mut SplitMix64,
) -> (index: usize)
    requires
        forall|k: int| 0 <= k < candidates@.len() ==> candidates@[k] < templates@.len(),
    ensures
        index == picked_template(templates@, candidates@, entry_side, old(rng)@),
        final(rng)@ == state_after_draw_below(
            old(rng)@,
            pick_bound(templates@, candidates@, entry_side),
        ),
        candidates@.len() > 0 ==> candidates@.contains(index),
        candidates@.len() == 0 && templates@.len() > 0 ==> index < templates@.len(),
        with_door(templates@, candidates@, entry_side).len() > 0 ==> has_door_on(
            templates@[index as int],
            entry_side,
        ),
{
    if candidates.len() == 0 {
        return rng.next_usize(templates.len());
    }
    let ghost pred = |ti: usize| has_door_on(templates@[ti as int], entry_side);
    let valid = templates_with_door(templates, candidates, entry_side);
    proof {
        broadcast use vstd::seq_lib::group_filter_ensures;
    }
    if valid.len() == 0 {
        let choice = rng.next_usize(candidates.len());
        assert(candidates@.contains(candidates@[choice as int]));
        candidates[choice]
    } else {
        let choice = rng.next_usize(valid.len());
        assert(valid@.contains(valid@[choice as int]));
        proof {
            candidates@.lemma_filter_contains_rev(pred, valid@[choice as int]);
            candidates@.lemma_filter_pred(pred, choice as int);
        }
        valid[choice]
    }
}

/// The room index `pick_branch_source_index` returns when its generator is in `state`.
pub open spec fn branch_source(state: u64, critical_path_room_count: usize) -> Option<usize> {
    if critical_path_room_count < 3 {
        None
    } else {
        Some((1 + draw_below(state, (critical_path_room_count - 2) as usize)) as usize)
    }
}

/// A random room of the critical path other than its first and last, or `None` for a path
/// of fewer than three rooms.
pub fn pick_branch_source_index(rng: &mut SplitMix64, critical_path_room_count: usize) -> (source: Option<usize>)
    ensures
        source == branch_source(old(rng)@, critical_path_room_count),
        final(rng)@ == if critical_path_room_count < 3 {
            old(rng)@
        } else {
            state_after_draw_below(old(rng)@, (critical_path_room_count - 2) as usize)
        },
        source matches Some(k) ==> 1 <= k < critical_path_room_count - 1,
        critical_path_room_count < 3 <==> source is None,
{
    if critical_path_room_count < 3 {
        return None;
    }
    Some(1 + rng.next_usize(critical_path_room_count - 2))
}

/// Whether coarse-grid cell `b` lies next to `a` through a door of `a` on `side`.
pub open spec fn adjacent_through(a: (i32, i32), b: (i32, i32), side: DoorSide) -> bool {
    b.0 == a.0 + side_delta(side).0 && b.1 == a.1 + side_delta(side).1
}

/// Two cells are adjacent through at most one side, and seen from the other cell through
/// the opposite side.
proof fn lemma_adjacency_determines_side(a: (i32, i32), b: (i32, i32), s: DoorSide, t: DoorSide)
    ensures
        adjacent_through(a, b, s) && adjacent_through(a, b, t) ==> s == t,
        adjacent_through(a, b, s) && adjacent_through(b, a, t) ==> t == opposite_side(s),
        !adjacent_through(a, a, s),
{
}

/// Whether room `i` lists a connection to room `j` through its side `side`.
pub open spec fn is_connection(rooms: Seq<PlacedRoom>, i: int, j: int, side: DoorSide) -> bool {
    exists|k: int|
        0 <= k < rooms[i].connections@.len() && (#[trigger] rooms[i].connections@[k]).0 == j
            && rooms[i].connections@[k].1 == side
}

/// Whether room `r` is connected to a room placed before it.
pub open spec fn connects_to_earlier_room(rooms: Seq<PlacedRoom>, r: int) -> bool {
    exists|p: int, side: DoorSide| 0 <= p < r && #[trigger] is_connection(rooms, r, p, side)
}

/// The point where a corridor through `side` meets room `i`: the world position of the door
/// the connection uses, or the room center for a template without doors.
pub open spec fn door_point(
    rooms: Seq<PlacedRoom>,
    templates: Seq<RoomTemplate>,
    i: int,
    side: DoorSide,
) -> GroundPoint {
    let template = templates[rooms[i].template_index as int];
    match door_toward_side(template, side) {
        Some(door) => rooms[i].world_center.plus(template.door_offset(door)),
        None => rooms[i].world_center,
    }
}

/// Whether `corridor` runs from the door of room `i` on `side` to the matching door of room `j`.
pub open spec fn corridor_joins(
    corridor: Corridor,
    rooms: Seq<PlacedRoom>,
    templates: Seq<RoomTemplate>,
    i: int,
    j: int,
    side: DoorSide,
) -> bool {
    &&& corridor.width == 3
    &&& corridor.start == door_point(rooms, templates, i, side)
    &&& corridor.end == door_point(rooms, templates, j, opposite_side(side))
}

/// The unordered pair of rooms `i` and `j`, smaller index first.
pub open spec fn ordered_pair(i: int, j: int) -> (usize, usize) {
    if i < j { (i as usize, j as usize) } else { (j as usize, i as usize) }
}

/// What `build_corridors` needs of the rooms: valid template and room indices, centers and
/// door offsets small enough to add, and every connection leading to the neighbouring cell.
pub open spec fn corridor_ready(rooms: Seq<PlacedRoom>, templates: Seq<RoomTemplate>) -> bool {
    &&& rooms.len() <= usize::MAX
    &&& forall|i: int| 0 <= i < rooms.len() ==> (#[trigger] rooms[i]).template_index < templates.len()
    &&& forall|i: int|
        0 <= i < rooms.len() ==> -0x1000_0000_0000 <= (#[trigger] rooms[i]).world_center.x
            <= 0x1000_0000_0000 && -0x1000_0000_0000 <= rooms[i].world_center.z
            <= 0x1000_0000_0000
    &&& forall|i: int, k: int|
        0 <= i < rooms.len() && 0 <= k < rooms[i].connections@.len() ==> {
            let (j, side) = #[trigger] rooms[i].connections@[k];
            &&& j < rooms.len()
            &&& adjacent_through(rooms[i].grid_cell, rooms[j as int].grid_cell, side)
        }
}

/// Whether a pair is listed in `seen`.
fn pair_seen(seen: &Vec<(usize, usize)>, pair: (usize, usize)) -> (found: bool)
    ensures
        found == seen@.contains(pair),
{
    let mut k: usize = 0;
    while k < seen.len()
        invariant
            k <= seen@.len(),
            forall|j: int| 0 <= j < k ==> seen@[j] != pair,
        decreases seen@.len() - k,
    {
        let other = seen[k];
        if other.0 == pair.0 && other.1 == pair.1 {
            assert(seen@[k as int] == pair);
            return true;
        }
        k += 1;
    }
    false
}

/// Where a corridor through `side` meets room `i`.
fn room_door_point(
    rooms: &Vec<PlacedRoom>,
    templates: &Vec<RoomTemplate>,
    i: usize,
    side: DoorSide,
) -> (point: GroundPoint)
    requires
        corridor_ready(rooms@, templates@),
        i < rooms@.len(),
    ensures
        point == door_point(rooms@, templates@, i as int, side),
{
    let room = &rooms[i];
    assert(rooms@[i as int].template_index < templates@.len());
    let template = &templates[room.template_index];
    match template.door_toward(side) {
        Some(door) => {
            let offset = template.door_world_offset(&door);
            GroundPoint { x: room.world_center.x + offset.x, z: room.world_center.z + offset.z }
        },
        None => room.world_center,
    }
}

/// Every corridor runs between the doors of a pair of connected rooms.
#[verifier::opaque]
pub open spec fn corridors_sound(
    corridors: Seq<Corridor>,
    rooms: Seq<PlacedRoom>,
    templates: Seq<RoomTemplate>,
) -> bool {
    forall|c: int|
        0 <= c < corridors.len() ==> exists|i: int, j: int, side: DoorSide|
            0 <= i < rooms.len() && is_connection(rooms, i, j, side) && corridor_joins(
                #[trigger] corridors[c],
                rooms,
                templates,
                i,
                j,
                side,
            )
}

/// Every pair of rooms in `seen` has a corridor joining them.
#[verifier::opaque]
spec fn pairs_covered(
    seen: Seq<(usize, usize)>,
    corridors: Seq<Corridor>,
    rooms: Seq<PlacedRoom>,
    templates: Seq<RoomTemplate>,
) -> bool {
    forall|q: int|
        0 <= q < seen.len() ==> exists|c: int, i: int, j: int, side: DoorSide|
            0 <= c < corridors.len() && 0 <= i < rooms.len() && is_connection(rooms, i, j, side)
                && corridor_joins(corridors[c], rooms, templates, i, j, side) && ordered_pair(i, j)
                == #[trigger] seen[q]
}

/// The connections listed before connection `k` of room `room_idx` all have their pair in `seen`.
#[verifier::opaque]
spec fn processed_until(seen: Seq<(usize, usize)>, rooms: Seq<PlacedRoom>, room_idx: int, k: int) -> bool {
    forall|i: int, kk: int|
        0 <= i < rooms.len() && 0 <= kk < rooms[i].connections@.len() && (i < room_idx || (i
            == room_idx && kk < k)) ==> seen.contains(
            ordered_pair(i, (#[trigger] rooms[i].connections@[kk]).0 as int),
        )
}

/// The corridor from room `i`'s door on `side` to room `j`'s door on the opposite side.
pub open spec fn corridor_between(
    rooms: Seq<PlacedRoom>,
    templates: Seq<RoomTemplate>,
    i: int,
    j: int,
    side: DoorSide,
) -> Corridor {
    Corridor {
        start: door_point(rooms, templates, i, side),
        end: door_point(rooms, templates, j, opposite_side(side)),
        width: 3,
    }
}

/// The pairs seen and corridors laid after considering connection `k` of room `i`, from
/// `acc`: a pair of rooms not seen yet is recorded and gets a corridor from room `i`'s side.
pub open spec fn corridor_step(
    rooms: Seq<PlacedRoom>,
    templates: Seq<RoomTemplate>,
    i: int,
    k: int,
    acc: (Seq<(usize, usize)>, Seq<Corridor>),
) -> (Seq<(usize, usize)>, Seq<Corridor>) {
    let (j, side) = rooms[i].connections@[k];
    let pair = ordered_pair(i, j as int);
    if acc.0.contains(pair) {
        acc
    } else {
        (acc.0.push(pair), acc.1.push(corridor_between(rooms, templates, i, j as int, side)))
    }
}

/// `acc` after considering the connections of room `i` from the `k`-th on, in order.
pub open spec fn room_corridors(
    rooms: Seq<PlacedRoom>,
    templates: Seq<RoomTemplate>,
    i: int,
    k: int,
    acc: (Seq<(usize, usize)>, Seq<Corridor>),
) -> (Seq<(usize, usize)>, Seq<Corridor>)
    decreases rooms[i].connections@.len() - k,
{
    if k < 0 || k >= rooms[i].connections@.len() {
        acc
    } else {
        room_corridors(rooms, templates, i, k + 1, corridor_step(rooms, templates, i, k, acc))
    }
}

/// `acc` after considering the connections of the rooms from the `i`-th on, in order.
pub open spec fn floor_corridors_from(
    rooms: Seq<PlacedRoom>,
    templates: Seq<RoomTemplate>,
    i: int,
    acc: (Seq<(usize, usize)>, Seq<Corridor>),
) -> (Seq<(usize, usize)>, Seq<Corridor>)
    decreases rooms.len() - i,
{
    if i < 0 || i >= rooms.len() {
        acc
    } else {
        floor_corridors_from(rooms, templates, i + 1, room_corridors(rooms, templates, i, 0, acc))
    }
}

/// The corridors of a floor with `rooms`: one per connected pair of rooms, in the order
/// their first connection comes, room by room.
pub open spec fn floor_corridors(rooms: Seq<PlacedRoom>, templates: Seq<RoomTemplate>) -> Seq<Corridor> {
    floor_corridors_from(rooms, templates, 0, (Seq::empty(), Seq::empty())).1
}

/// The unordered pairs of connected rooms, smaller index first.
pub open spec fn connected_pairs(rooms: Seq<PlacedRoom>) -> Set<(usize, usize)> {
    Set::new(
        |p: (usize, usize)|
            exists|a: int, k: int|
                0 <= a < rooms.len() && 0 <= k < rooms[a].connections@.len()
                    && #[trigger] ordered_pair(a, rooms[a].connections@[k].0 as int) == p,
    )
}

/// The pairs of the connections of room `i` from the `k`-th on.
spec fn room_pairs_from(rooms: Seq<PlacedRoom>, i: int, k: int) -> Set<(usize, usize)> {
    Set::new(
        |p: (usize, usize)|
            exists|kk: int|
                k <= kk < rooms[i].connections@.len() && #[trigger] ordered_pair(
                    i,
                    rooms[i].connections@[kk].0 as int,
                ) == p,
    )
}

/// The pairs of the connections of the rooms from the `i`-th on.
spec fn pairs_from(rooms: Seq<PlacedRoom>, i: int) -> Set<(usize, usize)> {
    Set::new(
        |p: (usize, usize)|
            exists|a: int, k: int|
                i <= a < rooms.len() && 0 <= k < rooms[a].connections@.len()
                    && #[trigger] ordered_pair(a, rooms[a].connections@[k].0 as int) == p,
    )
}

/// What the corridor pass keeps: no pair seen twice, one corridor per pair seen.
spec fn pass_ok(acc: (Seq<(usize, usize)>, Seq<Corridor>)) -> bool {
    acc.0.no_duplicates() && acc.1.len() == acc.0.len()
}

proof fn lemma_room_corridors_pairs(
    rooms: Seq<PlacedRoom>,
    templates: Seq<RoomTemplate>,
    i: int,
    k: int,
    acc: (Seq<(usize, usize)>, Seq<Corridor>),
)
    requires
        0 <= i < rooms.len(),
        0 <= k,
        pass_ok(acc),
    ensures
        pass_ok(room_corridors(rooms, templates, i, k, acc)),
        room_corridors(rooms, templates, i, k, acc).0.to_set() == acc.0.to_set().union(
            room_pairs_from(rooms, i, k),
        ),
    decreases rooms[i].connections@.len() - k,
{
    if k >= rooms[i].connections@.len() {
        assert(room_pairs_from(rooms, i, k) =~= Set::empty());
        assert(acc.0.to_set().union(room_pairs_from(rooms, i, k)) =~= acc.0.to_set());
    } else {
        let (j, side) = rooms[i].connections@[k];
        let pair = ordered_pair(i, j as int);
        let next = corridor_step(rooms, templates, i, k, acc);
        if acc.0.contains(pair) {
            assert(next == acc);
        } else {
            assert(next.0 == acc.0.push(pair));
            assert(next.0.no_duplicates()) by {
                assert forall|a: int, b: int| 0 <= a < b < next.0.len() implies next.0[a] != next.0[b] by {
                    if b == acc.0.len() {
                        assert(next.0[a] == acc.0[a]);
                    } else {
                        assert(next.0[a] == acc.0[a] && next.0[b] == acc.0[b]);
                    }
                }
            }
        }
        assert(next.0.to_set() == acc.0.to_set().insert(pair)) by {
            if acc.0.contains(pair) {
                assert(acc.0.to_set().insert(pair) =~= acc.0.to_set());
            } else {
                acc.0.lemma_push_to_set_commute(pair);
            }
        }
        lemma_room_corridors_pairs(rooms, templates, i, k + 1, next);
        assert(acc.0.to_set().insert(pair).union(room_pairs_from(rooms, i, k + 1)) =~= acc.0.to_set().union(
            room_pairs_from(rooms, i, k),
        )) by {
            assert(room_pairs_from(rooms, i, k).contains(pair));
            assert forall|p: (usize, usize)| #[trigger] room_pairs_from(rooms, i, k).contains(p) implies p
                == pair || room_pairs_from(rooms, i, k + 1).contains(p) by {
                let kk = choose|kk: int|
                    k <= kk < rooms[i].connections@.len() && #[trigger] ordered_pair(
                        i,
                        rooms[i].connections@[kk].0 as int,
                    ) == p;
                if kk > k {
                    assert(room_pairs_from(rooms, i, k + 1).contains(p));
                }
            }
            assert forall|p: (usize, usize)| #[trigger] room_pairs_from(rooms, i, k + 1).contains(p) implies room_pairs_from(
                rooms,
                i,
                k,
            ).contains(p) by {
                let kk = choose|kk: int|
                    k + 1 <= kk < rooms[i].connections@.len() && #[trigger] ordered_pair(
                        i,
                        rooms[i].connections@[kk].0 as int,
                    ) == p;
                assert(k <= kk);
            }
        }
    }
}

proof fn lemma_floor_corridors_pairs(
    rooms: Seq<PlacedRoom>,
    templates: Seq<RoomTemplate>,
    i: int,
    acc: (Seq<(usize, usize)>, Seq<Corridor>),
)
    requires
        0 <= i,
        pass_ok(acc),
    ensures
        pass_ok(floor_corridors_from(rooms, templates, i, acc)),
        floor_corridors_from(rooms, templates, i, acc).0.to_set() == acc.0.to_set().union(
            pairs_from(rooms, i),
        ),
    decreases rooms.len() - i,
{
    if i >= rooms.len() {
        assert(pairs_from(rooms, i) =~= Set::empty());
        assert(acc.0.to_set().union(pairs_from(rooms, i)) =~= acc.0.to_set());
    } else {
        let mid = room_corridors(rooms, templates, i, 0, acc);
        lemma_room_corridors_pairs(rooms, templates, i, 0, acc);
        lemma_floor_corridors_pairs(rooms, templates, i + 1, mid);
        assert(acc.0.to_set().union(room_pairs_from(rooms, i, 0)).union(pairs_from(rooms, i + 1))
            =~= acc.0.to_set().union(pairs_from(rooms, i))) by {
            assert forall|p: (usize, usize)| #[trigger] pairs_from(rooms, i).contains(p) implies room_pairs_from(
                rooms,
                i,
                0,
            ).contains(p) || pairs_from(rooms, i + 1).contains(p) by {
                let (a, k) = choose|a: int, k: int|
                    i <= a < rooms.len() && 0 <= k < rooms[a].connections@.len()
                        && #[trigger] ordered_pair(a, rooms[a].connections@[k].0 as int) == p;
                if a == i {
                    assert(room_pairs_from(rooms, i, 0).contains(p));
                } else {
                    assert(pairs_from(rooms, i + 1).contains(p));
                }
            }
            assert forall|p: (usize, usize)| #[trigger] room_pairs_from(rooms, i, 0).contains(p) implies pairs_from(
                rooms,
                i,
            ).contains(p) by {
                let kk = choose|kk: int|
                    0 <= kk < rooms[i].connections@.len() && #[trigger] ordered_pair(
                        i,
                        rooms[i].connections@[kk].0 as int,
                    ) == p;
                assert(pairs_from(rooms, i).contains(p));
            }
            assert forall|p: (usize, usize)| #[trigger] pairs_from(rooms, i + 1).contains(p) implies pairs_from(
                rooms,
                i,
            ).contains(p) by {
                let (a, k) = choose|a: int, k: int|
                    i + 1 <= a < rooms.len() && 0 <= k < rooms[a].connections@.len()
                        && #[trigger] ordered_pair(a, rooms[a].connections@[k].0 as int) == p;
                assert(pairs_from(rooms, i).contains(p));
            }
        }
    }
}

/// The corridor pass lays exactly one corridor per pair of connected rooms.
proof fn lemma_one_corridor_per_pair(rooms: Seq<PlacedRoom>, templates: Seq<RoomTemplate>)
    ensures
        floor_corridors(rooms, templates).len() == connected_pairs(rooms).len(),
        connected_pairs(rooms).finite(),
{
    let empty: (Seq<(usize, usize)>, Seq<Corridor>) = (Seq::empty(), Seq::empty());
    assert(pass_ok(empty));
    lemma_floor_corridors_pairs(rooms, templates, 0, empty);
    let res = floor_corridors_from(rooms, templates, 0, empty);
    assert(empty.0.to_set() =~= Set::<(usize, usize)>::empty());
    assert(pairs_from(rooms, 0) =~= connected_pairs(rooms));
    assert(res.0.to_set() =~= connected_pairs(rooms));
    res.0.unique_seq_to_set();
}

/// Lays the corridor for connection `k` of room `room_idx` unless its pair of rooms already has one.
fn add_connection_corridor(
    rooms: &Vec<PlacedRoom>,
    templates: &Vec<RoomTemplate>,
    room_idx: usize,
    k: usize,
    corridors: &mut Vec<Corridor>,
    seen_pairs: &mut Vec<(usize, usize)>,
)
    requires
        corridor_ready(rooms@, templates@),
        room_idx < rooms@.len(),
        k < rooms@[room_idx as int].connections@.len(),
        corridors_sound(old(corridors)@, rooms@, templates@),
        pairs_covered(old(seen_pairs)@, old(corridors)@, rooms@, templates@),
    ensures
        corridors_sound(final(corridors)@, rooms@, templates@),
        pairs_covered(final(seen_pairs)@, final(corridors)@, rooms@, templates@),
        final(seen_pairs)@.contains(
            ordered_pair(room_idx as int, rooms@[room_idx as int].connections@[k as int].0 as int),
        ),
        forall|x: (usize, usize)| old(seen_pairs)@.contains(x) ==> final(seen_pairs)@.contains(x),
        (final(seen_pairs)@, final(corridors)@) == corridor_step(
            rooms@,
            templates@,
            room_idx as int,
            k as int,
            (old(seen_pairs)@, old(corridors)@),
        ),
{
    let (neighbor_idx, side) = rooms[room_idx].connections[k];
    proof {
        assert(rooms@[room_idx as int].connections@[k as int] == (neighbor_idx, side));
        assert(is_connection(rooms@, room_idx as int, neighbor_idx as int, side));
    }
    let pair = if room_idx < neighbor_idx {
        (room_idx, neighbor_idx)
    } else {
        (neighbor_idx, room_idx)
    };
    assert(pair == ordered_pair(room_idx as int, neighbor_idx as int));
    let ghost seen_before = seen_pairs@;
    let ghost corridors_before = corridors@;
    if !pair_seen(seen_pairs, pair) {
        seen_pairs.push(pair);
        let start = room_door_point(rooms, templates, room_idx, side);
        let end = room_door_point(rooms, templates, neighbor_idx, side.opposite());
        corridors.push(Corridor { start, end, width: 3 });
        proof {
            reveal(corridors_sound);
            reveal(pairs_covered);
            let c_new = corridors@.len() - 1;
            assert(corridor_joins(
                corridors@[c_new],
                rooms@,
                templates@,
                room_idx as int,
                neighbor_idx as int,
                side,
            ));
            assert forall|c: int| 0 <= c < corridors@.len() implies exists|
                i: int,
                j: int,
                sd: DoorSide,
            |
                0 <= i < rooms@.len() && is_connection(rooms@, i, j, sd) && corridor_joins(
                    #[trigger] corridors@[c],
                    rooms@,
                    templates@,
                    i,
                    j,
                    sd,
                ) by {
                if c < c_new {
                    assert(corridors@[c] == corridors_before[c]);
                }
            }
            assert forall|q: int| 0 <= q < seen_pairs@.len() implies exists|
                c: int,
                i: int,
                j: int,
                sd: DoorSide,
            |
                0 <= c < corridors@.len() && 0 <= i < rooms@.len() && is_connection(rooms@, i, j, sd)
                    && corridor_joins(corridors@[c], rooms@, templates@, i, j, sd) && ordered_pair(i, j)
                    == #[trigger] seen_pairs@[q] by {
                if q < seen_before.len() {
                    assert(seen_pairs@[q] == seen_before[q]);
                    let (c, i, j, sd) = choose|c: int, i: int, j: int, sd: DoorSide|
                        0 <= c < corridors_before.len() && 0 <= i < rooms@.len() && is_connection(
                            rooms@,
                            i,
                            j,
                            sd,
                        ) && corridor_joins(corridors_before[c], rooms@, templates@, i, j, sd)
                            && ordered_pair(i, j) == seen_before[q];
                    assert(corridors@[c] == corridors_before[c]);
                } else {
                    assert(seen_pairs@[q] == pair);
                    assert(corridors@[c_new] == corridors@[c_new]);
                }
            }
        }
    }
    proof {
        assert(seen_pairs@.contains(pair)) by {
            if seen_before.contains(pair) {
                let w = choose|w: int| 0 <= w < seen_before.len() && seen_before[w] == pair;
                assert(seen_pairs@[w] == pair);
            } else {
                assert(seen_pairs@[seen_pairs@.len() - 1] == pair);
            }
        }
        assert forall|x: (usize, usize)| seen_before.contains(x) implies seen_pairs@.contains(x) by {
            let w = choose|w: int| 0 <= w < seen_before.len() && seen_before[w] == x;
            assert(seen_pairs@[w] == x);
        }
    }
}

/// A connection whose pair of rooms has a corridor has a corridor that runs through the
/// connection's own door, in one direction or the other.
proof fn lemma_covered_connection_has_corridor(
    seen: Seq<(usize, usize)>,
    corridors: Seq<Corridor>,
    rooms: Seq<PlacedRoom>,
    templates: Seq<RoomTemplate>,
    i: int,
    j: int,
    side: DoorSide,
)
    requires
        corridor_ready(rooms, templates),
        pairs_covered(seen, corridors, rooms, templates),
        0 <= i < rooms.len(),
        is_connection(rooms, i, j, side),
        seen.contains(ordered_pair(i, j)),
    ensures
        exists|c: int|
            0 <= c < corridors.len() && (corridor_joins(
                #[trigger] corridors[c],
                rooms,
                templates,
                i,
                j,
                side,
            ) || corridor_joins(corridors[c], rooms, templates, j, i, opposite_side(side))),
{
    reveal(pairs_covered);
    let kc = choose|kc: int|
        0 <= kc < rooms[i].connections@.len() && (#[trigger] rooms[i].connections@[kc]).0 == j
            && rooms[i].connections@[kc].1 == side;
    assert(rooms[i].connections@[kc].0 == j);
    let q = choose|q: int| 0 <= q < seen.len() && seen[q] == ordered_pair(i, j);
    let (c, x, y, sd) = choose|c: int, x: int, y: int, sd: DoorSide|
        0 <= c < corridors.len() && 0 <= x < rooms.len() && is_connection(rooms, x, y, sd)
            && corridor_joins(corridors[c], rooms, templates, x, y, sd) && ordered_pair(x, y)
            == seen[q];
    let kx = choose|kx: int|
        0 <= kx < rooms[x].connections@.len() && (#[trigger] rooms[x].connections@[kx]).0 == y
            && rooms[x].connections@[kx].1 == sd;
    assert(rooms[x].connections@[kx].0 == y);
    assert(j < rooms.len());
    lemma_adjacency_determines_side(rooms[i].grid_cell, rooms[j].grid_cell, side, sd);
    lemma_adjacency_determines_side(rooms[x].grid_cell, rooms[y].grid_cell, sd, side);
    lemma_adjacency_determines_side(rooms[i].grid_cell, rooms[i].grid_cell, side, sd);
    assert(0 <= y && 0 <= j);
    assert(ordered_pair(x, y) == ordered_pair(i, j));
    if x == i {
        assert(y == j);
        assert(corridor_joins(corridors[c], rooms, templates, i, j, side));
    } else {
        if i < j {
            assert(ordered_pair(i, j) == (i as usize, j as usize));
        } else {
            assert(ordered_pair(i, j) == (j as usize, i as usize));
        }
        if x < y {
            assert(ordered_pair(x, y) == (x as usize, y as usize));
        } else {
            assert(ordered_pair(x, y) == (y as usize, x as usize));
        }
        assert(x == j && y == i);
        assert(sd == opposite_side(side));
        assert(corridor_joins(corridors[c], rooms, templates, j, i, opposite_side(side)));
    }
}

/// Once every connection has been processed, every connection has its corridor.
proof fn lemma_processed_connection_has_corridor(
    seen: Seq<(usize, usize)>,
    corridors: Seq<Corridor>,
    rooms: Seq<PlacedRoom>,
    templates: Seq<RoomTemplate>,
    i: int,
    j: int,
    side: DoorSide,
)
    requires
        corridor_ready(rooms, templates),
        pairs_covered(seen, corridors, rooms, templates),
        processed_until(seen, rooms, rooms.len() as int, 0),
        0 <= i < rooms.len(),
        is_connection(rooms, i, j, side),
    ensures
        exists|c: int|
            0 <= c < corridors.len() && (corridor_joins(
                #[trigger] corridors[c],
                rooms,
                templates,
                i,
                j,
                side,
            ) || corridor_joins(corridors[c], rooms, templates, j, i, opposite_side(side))),
{
    reveal(processed_until);
    let kc = choose|kc: int|
        0 <= kc < rooms[i].connections@.len() && (#[trigger] rooms[i].connections@[kc]).0 == j
            && rooms[i].connections@[kc].1 == side;
    assert(rooms[i].connections@[kc].0 == j);
    assert(seen.contains(ordered_pair(i, rooms[i].connections@[kc].0 as int)));
    lemma_covered_connection_has_corridor(seen, corridors, rooms, templates, i, j, side);
}

/// Whether every connection of every room has a corridor laid along it, in one direction
/// or the other.
pub open spec fn connections_have_corridors(
    corridors: Seq<Corridor>,
    rooms: Seq<PlacedRoom>,
    templates: Seq<RoomTemplate>,
) -> bool {
    forall|i: int, j: int, side: DoorSide|
        0 <= i < rooms.len() && #[trigger] is_connection(rooms, i, j, side) ==> exists|c: int|
            0 <= c < corridors.len() && (corridor_joins(
                #[trigger] corridors[c],
                rooms,
                templates,
                i,
                j,
                side,
            ) || corridor_joins(corridors[c], rooms, templates, j, i, opposite_side(side)))
}

/// One corridor for each pair of connected rooms, from the door of the room met first
/// to the facing door of the other, in the order in which the rooms list their connections.
fn build_corridors(rooms: &Vec<PlacedRoom>, templates: &Vec<RoomTemplate>) -> (corridors: Vec<Corridor>)
    requires
        corridor_ready(rooms@, templates@),
    ensures
        corridors_sound(corridors@, rooms@, templates@),
        connections_have_corridors(corridors@, rooms@, templates@),
        corridors@ == floor_corridors(rooms@, templates@),
{
    let mut corridors: Vec<Corridor> = Vec::new();
    let mut seen_pairs: Vec<(usize, usize)> = Vec::new();
    let ghost target = floor_corridors_from(rooms@, templates@, 0, (seen_pairs@, corridors@));
    proof {
        reveal(corridors_sound);
        reveal(pairs_covered);
        reveal(processed_until);
    }
    let mut room_idx: usize = 0;
    while room_idx < rooms.len()
        invariant
            corridor_ready(rooms@, templates@),
            room_idx <= rooms@.len(),
            corridors_sound(corridors@, rooms@, templates@),
            pairs_covered(seen_pairs@, corridors@, rooms@, templates@),
            processed_until(seen_pairs@, rooms@, room_idx as int, 0),
            target == floor_corridors_from(rooms@, templates@, room_idx as int, (seen_pairs@, corridors@)),
        decreases rooms@.len() - room_idx,
    {
        let mut k: usize = 0;
        while k < rooms[room_idx].connections.len()
            invariant
                corridor_ready(rooms@, templates@),
                room_idx < rooms@.len(),
                k <= rooms@[room_idx as int].connections@.len(),
                corridors_sound(corridors@, rooms@, templates@),
                pairs_covered(seen_pairs@, corridors@, rooms@, templates@),
                processed_until(seen_pairs@, rooms@, room_idx as int, k as int),
                target == floor_corridors_from(
                    rooms@,
                    templates@,
                    room_idx + 1,
                    room_corridors(rooms@, templates@, room_idx as int, k as int, (seen_pairs@, corridors@)),
                ),
            decreases rooms@[room_idx as int].connections@.len() - k,
        {
            let ghost seen_before = seen_pairs@;
            let ghost corridors_before = corridors@;
            add_connection_corridor(rooms, templates, room_idx, k, &mut corridors, &mut seen_pairs);
            proof {
                assert(room_corridors(rooms@, templates@, room_idx as int, k as int, (seen_before, corridors_before))
                    == room_corridors(rooms@, templates@, room_idx as int, k + 1, (seen_pairs@, corridors@)));
                reveal(processed_until);
                assert forall|i: int, kk: int|
                    0 <= i < rooms@.len() && 0 <= kk < rooms@[i].connections@.len() && (i
                        < room_idx || (i == room_idx && kk < k + 1)) implies seen_pairs@.contains(
                    ordered_pair(i, (#[trigger] rooms@[i].connections@[kk]).0 as int),
                ) by {
                    if i < room_idx || kk < k {
                        assert(seen_before.contains(
                            ordered_pair(i, rooms@[i].connections@[kk].0 as int),
                        ));
                    }
                }
            }
            k += 1;
        }
        proof {
            reveal(processed_until);
        }
        room_idx += 1;
    }
    proof {
        assert forall|i: int, j: int, side: DoorSide|
            0 <= i < rooms@.len() && #[trigger] is_connection(rooms@, i, j, side) implies exists|c: int|
                0 <= c < corridors@.len() && (corridor_joins(
                    #[trigger] corridors@[c],
                    rooms@,
                    templates@,
                    i,
                    j,
                    side,
                ) || corridor_joins(corridors@[c], rooms@, templates@, j, i, opposite_side(side))) by {
            lemma_processed_connection_has_corridor(seen_pairs@, corridors@, rooms@, templates@, i, j, side);
        }
    }
    corridors
}

/// A link `(from, to, side)` records that room `from` lists `(to, side)` among its connections.
type Link = (usize, usize, DoorSide);

/// The connections of room `i` that `links` records, in the order they were made.
spec fn conns_from(links: Seq<Link>, i: int) -> Seq<(usize, DoorSide)>
    decreases links.len(),
{
    if links.len() == 0 {
        Seq::empty()
    } else {
        let prev = conns_from(links.drop_last(), i);
        let l = links.last();
        if l.0 == i {
            prev.push((l.1, l.2))
        } else {
            prev
        }
    }
}

proof fn lemma_conns_from_push(links: Seq<Link>, l: Link, i: int)
    ensures
        conns_from(links.push(l), i) == if l.0 == i {
            conns_from(links, i).push((l.1, l.2))
        } else {
            conns_from(links, i)
        },
{
    assert(links.push(l).drop_last() =~= links);
}

proof fn lemma_conns_from_none(links: Seq<Link>, i: int)
    requires
        forall|m: int| 0 <= m < links.len() ==> links[m].0 != i,
    ensures
        conns_from(links, i) == Seq::<(usize, DoorSide)>::empty(),
    decreases links.len(),
{
    if links.len() > 0 {
        lemma_conns_from_none(links.drop_last(), i);
    }
}

/// Every connection in `conns_from(links, i)` comes from a link out of room `i`.
proof fn lemma_conns_from_source(links: Seq<Link>, i: int, k: int)
    requires
        0 <= k < conns_from(links, i).len(),
    ensures
        exists|m: int|
            0 <= m < links.len() && links[m].0 == i && (#[trigger] links[m]).1 == conns_from(links, i)[k].0
                && links[m].2 == conns_from(links, i)[k].1,
    decreases links.len(),
{
    let prev = conns_from(links.drop_last(), i);
    if k < prev.len() {
        lemma_conns_from_source(links.drop_last(), i, k);
        let m = choose|m: int|
            0 <= m < links.drop_last().len() && links.drop_last()[m].0 == i
                && (#[trigger] links.drop_last()[m]).1 == prev[k].0 && links.drop_last()[m].2 == prev[k].1;
        assert(links[m] == links.drop_last()[m]);
    } else {
        assert(links[links.len() - 1] == links.last());
    }
}

/// Every link out of room `i` appears among `conns_from(links, i)`.
proof fn lemma_conns_from_target(links: Seq<Link>, i: int, m: int)
    requires
        0 <= m < links.len(),
        links[m].0 == i,
    ensures
        exists|k: int|
            0 <= k < conns_from(links, i).len() && (#[trigger] conns_from(links, i)[k]).0 == links[m].1
                && conns_from(links, i)[k].1 == links[m].2,
    decreases links.len(),
{
    let prev = conns_from(links.drop_last(), i);
    if m < links.len() - 1 {
        assert(links.drop_last()[m] == links[m]);
        lemma_conns_from_target(links.drop_last(), i, m);
        let k = choose|k: int|
            0 <= k < prev.len() && (#[trigger] prev[k]).0 == links[m].1 && prev[k].1 == links[m].2;
        assert(conns_from(links, i)[k] == prev[k]);
    } else {
        assert(conns_from(links, i)[prev.len() as int] == (links[m].1, links[m].2));
    }
}

/// The link pair recorded when room `r` was attached: its first link leads from an earlier
/// room through one of that room's doors to `r`, the second leads back the opposite way,
/// through a door of `r`.
spec fn attached_by(links: Seq<Link>, rooms: Seq<PlacedRoom>, templates: Seq<RoomTemplate>, r: int) -> bool {
    let l = links[2 * (r - 1)];
    &&& l.1 == r
    &&& l.0 < r
    &&& links[2 * (r - 1) + 1] == (r as usize, l.0, opposite_side(l.2))
    &&& adjacent_through(rooms[l.0 as int].grid_cell, rooms[r].grid_cell, l.2)
    &&& has_door_on(templates[rooms[l.0 as int].template_index as int], l.2)
    &&& has_door_on(templates[rooms[r].template_index as int], opposite_side(l.2))
}

/// What the layout keeps true while rooms are being added.
#[verifier::opaque]
spec fn walk_inv(
    rooms: Seq<PlacedRoom>,
    occupied: Seq<(i32, i32)>,
    links: Seq<Link>,
    templates: Seq<RoomTemplate>,
) -> bool {
    &&& 1 <= rooms.len() <= 8
    &&& occupied.len() == rooms.len()
    &&& forall|k: int| 0 <= k < rooms.len() ==> occupied[k] == (#[trigger] rooms[k]).grid_cell
    &&& forall|k: int| 0 <= k < rooms.len() ==> (#[trigger] rooms[k]).template_index < templates.len()
    &&& forall|k: int|
        0 <= k < rooms.len() ==> -k <= (#[trigger] rooms[k]).grid_cell.0 <= k && -k
            <= rooms[k].grid_cell.1 <= k
    &&& forall|k: int|
        0 <= k < rooms.len() ==> (#[trigger] rooms[k]).world_center == cell_center(rooms[k].grid_cell)
    &&& forall|a: int, b: int|
        0 <= a < b < rooms.len() ==> (#[trigger] rooms[a]).grid_cell != (#[trigger] rooms[b]).grid_cell
    &&& forall|k: int| 0 <= k < rooms.len() ==> (#[trigger] rooms[k]).connections@ == conns_from(links, k)
    &&& links.len() == 2 * (rooms.len() - 1)
    &&& forall|r: int| 1 <= r < rooms.len() ==> #[trigger] attached_by(links, rooms, templates, r)
}

/// The bounds the layout keeps while rooms are being added.
proof fn lemma_walk_bounds(
    rooms: Seq<PlacedRoom>,
    occupied: Seq<(i32, i32)>,
    links: Seq<Link>,
    templates: Seq<RoomTemplate>,
    k: int,
)
    requires
        walk_inv(rooms, occupied, links, templates),
        0 <= k < rooms.len(),
    ensures
        1 <= rooms.len() <= 8,
        rooms[k].template_index < templates.len(),
        -8 <= rooms[k].grid_cell.0 <= 8,
        -8 <= rooms[k].grid_cell.1 <= 8,
{
    reveal(walk_inv);
}

/// What the layout decides of a room: its template, its coarse-grid cell and its
/// connections, in the order they were made.
pub type RoomPlan = (usize, (i32, i32), Seq<(usize, DoorSide)>);

/// The plan of a placed room.
pub open spec fn plan_of(room: PlacedRoom) -> RoomPlan {
    (room.template_index, room.grid_cell, room.connections@)
}

/// The plans of placed rooms, in order.
pub open spec fn plans_of(rooms: Seq<PlacedRoom>) -> Seq<RoomPlan> {
    rooms.map_values(|room: PlacedRoom| plan_of(room))
}

/// The cells that planned rooms occupy, in order.
pub open spec fn cells_of(plans: Seq<RoomPlan>) -> Seq<(i32, i32)> {
    plans.map_values(|plan: RoomPlan| plan.1)
}

/// `plans` with a room of template `ti` attached to room `from` through its side `side`:
/// the new room takes the cell beyond that side, and the two rooms are connected both
/// ways.
pub open spec fn attach_plan(plans: Seq<RoomPlan>, from: int, side: DoorSide, ti: usize) -> Seq<RoomPlan> {
    let f = plans[from];
    let cell = ((f.1.0 + side_delta(side).0) as i32, (f.1.1 + side_delta(side).1) as i32);
    plans.update(from, (f.0, f.1, f.2.push((plans.len() as usize, side)))).push(
        (ti, cell, seq![(from as usize, opposite_side(side))]),
    )
}

/// Attaches a new room of template `template_index` to room `from` through its door on
/// `side`, on the free cell beyond, and connects the two rooms both ways.
fn attach_room(
    rooms: &mut Vec<PlacedRoom>,
    occupied: &mut Vec<(i32, i32)>,
    Ghost(links): Ghost<Seq<Link>>,
    Ghost(templates): Ghost<Seq<RoomTemplate>>,
    from: usize,
    side: DoorSide,
    template_index: usize,
) -> (new_room_idx: usize)
    requires
        walk_inv(old(rooms)@, old(occupied)@, links, templates),
        old(rooms)@.len() < 8,
        from < old(rooms)@.len(),
        has_door_on(templates[old(rooms)@[from as int].template_index as int], side),
        !old(occupied)@.contains(
            (
                (old(rooms)@[from as int].grid_cell.0 + side_delta(side).0) as i32,
                (old(rooms)@[from as int].grid_cell.1 + side_delta(side).1) as i32,
            ),
        ),
        template_index < templates.len(),
        has_door_on(templates[template_index as int], opposite_side(side)),
    ensures
        new_room_idx == old(rooms)@.len(),
        walk_inv(
            final(rooms)@,
            final(occupied)@,
            links.push((from, new_room_idx, side)).push((new_room_idx, from, opposite_side(side))),
            templates,
        ),
        final(rooms)@.len() == old(rooms)@.len() + 1,
        final(rooms)@[new_room_idx as int].template_index == template_index,
        adjacent_through(
            old(rooms)@[from as int].grid_cell,
            final(rooms)@[new_room_idx as int].grid_cell,
            side,
        ),
        forall|k: int|
            0 <= k < old(rooms)@.len() ==> (#[trigger] final(rooms)@[k]).grid_cell == old(rooms)@[k].grid_cell
                && final(rooms)@[k].template_index == old(rooms)@[k].template_index,
        forall|k: int|
            0 <= k < old(rooms)@.len() && k != from ==> (#[trigger] final(rooms)@[k]).connections@
                == old(rooms)@[k].connections@,
        final(rooms)@[new_room_idx as int].connections@ == seq![(from, opposite_side(side))],
        final(rooms)@[from as int].connections@ == old(rooms)@[from as int].connections@.push(
            (new_room_idx, side),
        ),
        plans_of(final(rooms)@) == attach_plan(plans_of(old(rooms)@), from as int, side, template_index),
{
    proof {
        reveal(walk_inv);
    }
    let ghost old_rooms = rooms@;
    let from_cell = rooms[from].grid_cell;
    let (dx, dz) = side_step(side);
    let new_cell = (from_cell.0 + dx, from_cell.1 + dz);
    let world_center = GroundPoint {
        x: new_cell.0 as i64 * COARSE_CELL_SIZE,
        z: new_cell.1 as i64 * COARSE_CELL_SIZE,
    };
    let new_room_idx = rooms.len();
    rooms.push(
        PlacedRoom { template_index, world_center, grid_cell: new_cell, connections: Vec::new() },
    );
    occupied.push(new_cell);
    rooms[from].connections.push((new_room_idx, side));
    rooms[new_room_idx].connections.push((from, side.opposite()));
    proof {
        let l1: Link = (from, new_room_idx, side);
        let l2: Link = (new_room_idx, from, opposite_side(side));
        let links2 = links.push(l1).push(l2);
        let n = old_rooms.len();
        assert forall|k: int| 0 <= k < rooms@.len() implies (#[trigger] rooms@[k]).connections@
            == conns_from(links2, k) by {
            lemma_conns_from_push(links.push(l1), l2, k);
            lemma_conns_from_push(links, l1, k);
            if k == n {
                assert forall|m: int| 0 <= m < links.len() implies links[m].0 != k by {
                    if m % 2 == 0 {
                        assert(attached_by(links, old_rooms, templates, m / 2 + 1));
                    } else {
                        assert(attached_by(links, old_rooms, templates, (m - 1) / 2 + 1));
                    }
                }
                lemma_conns_from_none(links, k);
                assert(rooms@[k].connections@ =~= conns_from(links2, k));
            } else {
                assert(old_rooms[k].connections@ == conns_from(links, k));
            }
        }
        assert forall|r: int| 1 <= r < rooms@.len() implies #[trigger] attached_by(
            links2,
            rooms@,
            templates,
            r,
        ) by {
            if r < n {
                assert(attached_by(links, old_rooms, templates, r));
                assert(links2[2 * (r - 1)] == links[2 * (r - 1)]);
                assert(links2[2 * (r - 1) + 1] == links[2 * (r - 1) + 1]);
            } else {
                assert(links2[2 * (r - 1)] == l1);
                assert(links2[2 * (r - 1) + 1] == l2);
            }
        }
        assert forall|a: int, b: int| 0 <= a < b < rooms@.len() implies (#[trigger] rooms@[a]).grid_cell
            != (#[trigger] rooms@[b]).grid_cell by {
            if b == n {
                assert(old(occupied)@[a] == old_rooms[a].grid_cell);
            } else {
                assert(old_rooms[a].grid_cell != old_rooms[b].grid_cell);
            }
        }
        assert forall|k: int| 0 <= k < rooms@.len() implies occupied@[k] == (#[trigger] rooms@[k]).grid_cell by {
            if k < n {
                assert(old(occupied)@[k] == old_rooms[k].grid_cell);
            }
        }
        let expected = attach_plan(plans_of(old_rooms), from as int, side, template_index);
        assert forall|k: int| 0 <= k < rooms@.len() implies #[trigger] plans_of(rooms@)[k] == expected[k] by {
            if k < n && k != from {
                assert(plans_of(old_rooms)[k] == plan_of(old_rooms[k]));
            }
            if k == from {
                assert(plans_of(old_rooms)[k] == plan_of(old_rooms[k]));
            }
        }
        assert(plans_of(rooms@) =~= expected);
    }
    new_room_idx
}

/// Each allowed exit leads through a door of the room to a free cell, by the step of its side.
proof fn lemma_allowed_exit(
    template: RoomTemplate,
    cell: (i32, i32),
    occupied: Seq<(i32, i32)>,
    last_direction: Option<DoorSide>,
    k: int,
)
    requires
        0 <= k < allowed_exits(template, cell, occupied, last_direction).len(),
    ensures
        ({
            let (side, step) = allowed_exits(template, cell, occupied, last_direction)[k];
            &&& exit_allowed(template, cell, occupied, last_direction, side)
            &&& step.0 == side_delta(side).0
            &&& step.1 == side_delta(side).1
        }),
{
    let a = exit_if_allowed(template, cell, occupied, last_direction, DoorSide::North);
    let b = exit_if_allowed(template, cell, occupied, last_direction, DoorSide::South);
    let c = exit_if_allowed(template, cell, occupied, last_direction, DoorSide::East);
    let d = exit_if_allowed(template, cell, occupied, last_direction, DoorSide::West);
    let all = allowed_exits(template, cell, occupied, last_direction);
    assert(all == a + b + c + d);
    if k < a.len() {
        assert(all[k] == a[k]);
    } else if k < a.len() + b.len() {
        assert(all[k] == b[k - a.len()]);
    } else if k < a.len() + b.len() + c.len() {
        assert(all[k] == c[k - a.len() - b.len()]);
    } else {
        assert(all[k] == d[k - a.len() - b.len() - c.len()]);
    }
}

/// The layout laws that follow from the way rooms are attached.
proof fn lemma_walk_laws(
    rooms: Seq<PlacedRoom>,
    occupied: Seq<(i32, i32)>,
    links: Seq<Link>,
    templates: Seq<RoomTemplate>,
)
    requires
        walk_inv(rooms, occupied, links, templates),
    ensures
        corridor_ready(rooms, templates),
        forall|i: int, j: int, side: DoorSide|
            0 <= i < rooms.len() && #[trigger] is_connection(rooms, i, j, side) ==> {
                &&& 0 <= j < rooms.len()
                &&& adjacent_through(rooms[i].grid_cell, rooms[j].grid_cell, side)
                &&& is_connection(rooms, j, i, opposite_side(side))
                &&& has_door_on(templates[rooms[i].template_index as int], side)
            },
        forall|r: int| 1 <= r < rooms.len() ==> #[trigger] connects_to_earlier_room(rooms, r),
{
    reveal(walk_inv);
    assert forall|i: int, j: int, side: DoorSide|
        0 <= i < rooms.len() && #[trigger] is_connection(rooms, i, j, side) implies {
            &&& 0 <= j < rooms.len()
            &&& adjacent_through(rooms[i].grid_cell, rooms[j].grid_cell, side)
            &&& is_connection(rooms, j, i, opposite_side(side))
            &&& has_door_on(templates[rooms[i].template_index as int], side)
        } by {
        let k = choose|k: int|
            0 <= k < rooms[i].connections@.len() && (#[trigger] rooms[i].connections@[k]).0 == j
                && rooms[i].connections@[k].1 == side;
        assert(rooms[i].connections@ == conns_from(links, i));
        lemma_conns_from_source(links, i, k);
        let m = choose|m: int|
            0 <= m < links.len() && links[m].0 == i && (#[trigger] links[m]).1 == conns_from(links, i)[k].0
                && links[m].2 == conns_from(links, i)[k].1;
        if m % 2 == 0 {
            let r = m / 2 + 1;
            assert(attached_by(links, rooms, templates, r));
            lemma_conns_from_target(links, j, m + 1);
            let k2 = choose|k2: int|
                0 <= k2 < conns_from(links, j).len() && (#[trigger] conns_from(links, j)[k2]).0
                    == links[m + 1].1 && conns_from(links, j)[k2].1 == links[m + 1].2;
            assert(rooms[j].connections@ == conns_from(links, j));
            assert(rooms[j].connections@[k2].0 == i);
        } else {
            let r = (m - 1) / 2 + 1;
            assert(attached_by(links, rooms, templates, r));
            lemma_conns_from_target(links, j, m - 1);
            let k2 = choose|k2: int|
                0 <= k2 < conns_from(links, j).len() && (#[trigger] conns_from(links, j)[k2]).0
                    == links[m - 1].1 && conns_from(links, j)[k2].1 == links[m - 1].2;
            assert(rooms[j].connections@ == conns_from(links, j));
            assert(rooms[j].connections@[k2].0 == i);
        }
    }
    assert forall|r: int| 1 <= r < rooms.len() implies #[trigger] connects_to_earlier_room(rooms, r) by {
        assert(attached_by(links, rooms, templates, r));
        let m = 2 * (r - 1) + 1;
        lemma_conns_from_target(links, r, m);
        let k2 = choose|k2: int|
            0 <= k2 < conns_from(links, r).len() && (#[trigger] conns_from(links, r)[k2]).0
                == links[m].1 && conns_from(links, r)[k2].1 == links[m].2;
        assert(rooms[r].connections@ == conns_from(links, r));
        assert(rooms[r].connections@[k2].0 == links[m].1);
        assert(is_connection(rooms, r, links[m].1 as int, links[m].2));
    }
    assert forall|i: int, k: int|
        0 <= i < rooms.len() && 0 <= k < rooms[i].connections@.len() implies {
            let (j, side) = #[trigger] rooms[i].connections@[k];
            &&& j < rooms.len()
            &&& adjacent_through(rooms[i].grid_cell, rooms[j as int].grid_cell, side)
        } by {
        let (j, side) = rooms[i].connections@[k];
        assert(is_connection(rooms, i, j as int, side));
    }
}

/// The tag of the template that room `k` is built from.
pub open spec fn room_tag(rooms: Seq<PlacedRoom>, templates: Seq<RoomTemplate>, k: int) -> RoomTag {
    templates[rooms[k].template_index as int].tag
}

/// The roles the walk gives its rooms: only the first room is a start room, it is linked
/// to the second room alone, and a boss room is the last room placed, a dead end.
#[verifier::opaque]
spec fn walk_roles(rooms: Seq<PlacedRoom>, templates: Seq<RoomTemplate>, finished: bool) -> bool {
    &&& forall|r: int| 1 <= r < rooms.len() ==> #[trigger] room_tag(rooms, templates, r) != RoomTag::Start
    &&& rooms[0].connections@.len() == if rooms.len() > 1 { 1int } else { 0int }
    &&& forall|r: int|
        0 <= r < rooms.len() && #[trigger] room_tag(rooms, templates, r) == RoomTag::Boss ==> {
            &&& r == rooms.len() - 1
            &&& finished
            &&& rooms[r].connections@.len() == 1
        }
}

/// Attaching a room of template `ti` to the last room of the walk keeps the walk's roles,
/// provided the new room is no start room, and a boss room only as the walk's last step.
proof fn lemma_roles_after_walk_step(
    before: Seq<PlacedRoom>,
    after: Seq<PlacedRoom>,
    templates: Seq<RoomTemplate>,
    ti: usize,
    finished: bool,
)
    requires
        before.len() >= 1,
        walk_roles(before, templates, false),
        after.len() == before.len() + 1,
        forall|k: int|
            0 <= k < before.len() ==> (#[trigger] after[k]).template_index == before[k].template_index,
        forall|k: int|
            0 <= k < before.len() - 1 ==> (#[trigger] after[k]).connections@ == before[k].connections@,
        after[before.len() - 1].connections@.len() == before[before.len() - 1].connections@.len() + 1,
        after[before.len() as int].connections@.len() == 1,
        after[before.len() as int].template_index == ti,
        templates[ti as int].tag != RoomTag::Start,
        templates[ti as int].tag == RoomTag::Boss ==> finished,
    ensures
        walk_roles(after, templates, finished),
{
    reveal(walk_roles);
    assert forall|r: int| 0 <= r < before.len() implies #[trigger] room_tag(after, templates, r)
        == room_tag(before, templates, r) by {
        assert(after[r].template_index == before[r].template_index);
    }
    assert(room_tag(after, templates, before.len() as int) == templates[ti as int].tag);
    if before.len() > 1 {
        assert(after[0].connections@ == before[0].connections@);
    }
    assert forall|r: int|
        0 <= r < after.len() && #[trigger] room_tag(after, templates, r) == RoomTag::Boss implies {
            &&& r == after.len() - 1
            &&& finished
            &&& after[r].connections@.len() == 1
        } by {
        if r < before.len() {
            assert(room_tag(before, templates, r) == RoomTag::Boss);
        }
    }
}

/// The roles of the rooms once the branches are added to a critical path of `c` rooms:
/// besides the walk's roles, a boss room stays the last room of the critical path, and
/// branches hang only off paths of three rooms or more.
#[verifier::opaque]
spec fn branch_roles(rooms: Seq<PlacedRoom>, templates: Seq<RoomTemplate>, c: int) -> bool {
    &&& 1 <= c <= rooms.len()
    &&& forall|r: int| 1 <= r < rooms.len() ==> #[trigger] room_tag(rooms, templates, r) != RoomTag::Start
    &&& rooms[0].connections@.len() == if c > 1 { 1int } else { 0int }
    &&& rooms.len() > c ==> c >= 3
    &&& forall|r: int|
        0 <= r < rooms.len() && #[trigger] room_tag(rooms, templates, r) == RoomTag::Boss ==> {
            &&& r == c - 1
            &&& rooms[r].connections@.len() == 1
        }
}

/// The roles of the rooms of a finished floor: the first room is the only start room and
/// leads to one other room (when there is one), and there is at most one boss room, a dead
/// end.
pub open spec fn floor_roles(rooms: Seq<PlacedRoom>, templates: Seq<RoomTemplate>) -> bool {
    &&& forall|r: int| 1 <= r < rooms.len() ==> #[trigger] room_tag(rooms, templates, r) != RoomTag::Start
    &&& rooms.len() >= 1 ==> rooms[0].connections@.len() == if rooms.len() > 1 { 1int } else { 0int }
    &&& forall|r: int|
        0 <= r < rooms.len() && #[trigger] room_tag(rooms, templates, r) == RoomTag::Boss
            ==> rooms[r].connections@.len() == 1
    &&& forall|a: int, b: int|
        0 <= a < b < rooms.len() && #[trigger] room_tag(rooms, templates, a) == RoomTag::Boss
            ==> #[trigger] room_tag(rooms, templates, b) != RoomTag::Boss
}

/// Attaching a combat room to room `from` of the critical path, neither its first nor its
/// last room, keeps the branch roles.
proof fn lemma_roles_after_branch(
    before: Seq<PlacedRoom>,
    after: Seq<PlacedRoom>,
    templates: Seq<RoomTemplate>,
    c: int,
    from: int,
    ti: usize,
)
    requires
        branch_roles(before, templates, c),
        1 <= from < c - 1,
        after.len() == before.len() + 1,
        forall|k: int|
            0 <= k < before.len() ==> (#[trigger] after[k]).template_index == before[k].template_index,
        forall|k: int|
            0 <= k < before.len() && k != from ==> (#[trigger] after[k]).connections@
                == before[k].connections@,
        after[before.len() as int].template_index == ti,
        ti < templates.len(),
        templates[ti as int].tag == RoomTag::Combat,
    ensures
        branch_roles(after, templates, c),
{
    reveal(branch_roles);
    assert forall|r: int| 0 <= r < before.len() implies #[trigger] room_tag(after, templates, r)
        == room_tag(before, templates, r) by {
        assert(after[r].template_index == before[r].template_index);
    }
    assert(room_tag(after, templates, before.len() as int) == RoomTag::Combat);
    assert(after[0].connections@ == before[0].connections@);
    assert forall|r: int|
        0 <= r < after.len() && #[trigger] room_tag(after, templates, r) == RoomTag::Boss implies {
            &&& r == c - 1
            &&& after[r].connections@.len() == 1
        } by {
        if r < before.len() {
            assert(room_tag(before, templates, r) == RoomTag::Boss);
            assert(after[r].connections@ == before[r].connections@);
        }
    }
}

/// The branch roles of a finished floor give its roles.
proof fn lemma_floor_roles(rooms: Seq<PlacedRoom>, templates: Seq<RoomTemplate>, c: int)
    requires
        branch_roles(rooms, templates, c),
    ensures
        floor_roles(rooms, templates),
{
    reveal(branch_roles);
    assert forall|a: int, b: int|
        0 <= a < b < rooms.len() && #[trigger] room_tag(rooms, templates, a) == RoomTag::Boss
            implies #[trigger] room_tag(rooms, templates, b) != RoomTag::Boss by {}
}

/// A laid-out floor is a tree: every room but the first joins exactly one earlier room,
/// so its rooms form one connected pair fewer than there are rooms.
proof fn lemma_connected_pairs_count(
    rooms: Seq<PlacedRoom>,
    occupied: Seq<(i32, i32)>,
    links: Seq<Link>,
    templates: Seq<RoomTemplate>,
)
    requires
        walk_inv(rooms, occupied, links, templates),
    ensures
        connected_pairs(rooms).finite(),
        connected_pairs(rooms).len() == rooms.len() - 1,
{
    reveal(walk_inv);
    let n = rooms.len() as int;
    let f = |r: int| (links[2 * (r - 1)].0, r as usize);
    let x = vstd::set_lib::set_int_range(1, n);
    vstd::set_lib::lemma_int_range(1, n);
    assert forall|p: (usize, usize)| connected_pairs(rooms).contains(p) implies #[trigger] x.map(f).contains(
        p,
    ) by {
        let (a, k) = choose|a: int, k: int|
            0 <= a < rooms.len() && 0 <= k < rooms[a].connections@.len()
                && #[trigger] ordered_pair(a, rooms[a].connections@[k].0 as int) == p;
        assert(rooms[a].connections@ == conns_from(links, a));
        lemma_conns_from_source(links, a, k);
        let m = choose|m: int|
            0 <= m < links.len() && links[m].0 == a && (#[trigger] links[m]).1 == conns_from(links, a)[k].0
                && links[m].2 == conns_from(links, a)[k].1;
        if m % 2 == 0 {
            let r = m / 2 + 1;
            assert(attached_by(links, rooms, templates, r));
            assert(f(r) == p);
            assert(x.contains(r));
        } else {
            let r = (m - 1) / 2 + 1;
            assert(attached_by(links, rooms, templates, r));
            assert(f(r) == p);
            assert(x.contains(r));
        }
    }
    assert forall|p: (usize, usize)| #[trigger] x.map(f).contains(p) implies connected_pairs(rooms).contains(
        p,
    ) by {
        let r = choose|r: int| x.contains(r) && f(r) == p;
        assert(attached_by(links, rooms, templates, r));
        let m = 2 * (r - 1);
        let parent = links[m].0 as int;
        lemma_conns_from_target(links, parent, m);
        let k = choose|k: int|
            0 <= k < conns_from(links, parent).len() && (#[trigger] conns_from(links, parent)[k]).0
                == links[m].1 && conns_from(links, parent)[k].1 == links[m].2;
        assert(rooms[parent].connections@ == conns_from(links, parent));
        assert(ordered_pair(parent, rooms[parent].connections@[k].0 as int) == p);
    }
    assert(x.map(f) =~= connected_pairs(rooms));
    assert(vstd::relations::injective_on(f, x));
    vstd::set_lib::lemma_map_size(x, connected_pairs(rooms), f);
}

/// What the walk keeps of the start room while later rooms are added.
spec fn start_room_kept(rooms: Seq<PlacedRoom>, templates: Seq<RoomTemplate>) -> bool {
    &&& rooms.len() >= 1
    &&& rooms[0].grid_cell == (0i32, 0i32)
    &&& rooms[0].template_index < templates.len()
    &&& templates[rooms[0].template_index as int].tag == RoomTag::Start
}

/// The templates the walk may pick for its step `step` of `path_length`: a boss room
/// last, an elite room (if there are any) one step before, combat rooms otherwise.
pub open spec fn walk_candidates(
    combat: Seq<usize>,
    elite: Seq<usize>,
    boss: Seq<usize>,
    step: int,
    path_length: int,
) -> Seq<usize> {
    if step == path_length - 1 {
        boss
    } else if step == path_length - 2 && elite.len() > 0 {
        elite
    } else {
        combat
    }
}

/// Whether every index of `indices` names a template of a library of `n` templates.
pub open spec fn indices_below(indices: Seq<usize>, n: int) -> bool {
    forall|k: int| 0 <= k < indices.len() ==> indices[k] < n
}

/// Whether every cell of `cells` lies within `bound` of the start cell on both axes.
pub open spec fn cells_within(cells: Seq<(i32, i32)>, bound: int) -> bool {
    forall|k: int|
        0 <= k < cells.len() ==> -bound <= (#[trigger] cells[k]).0 <= bound && -bound <= cells[k].1
            <= bound
}

/// The templates the walk may build at step `step` of `path_length` when it enters the
/// new room through `side` of the current one: those of the step's role (see
/// `walk_candidates`) with a door facing back.
pub open spec fn fitting_templates(
    templates: Seq<RoomTemplate>,
    combat: Seq<usize>,
    elite: Seq<usize>,
    boss: Seq<usize>,
    side: DoorSide,
    step: int,
    path_length: int,
) -> Seq<usize> {
    with_door(templates, walk_candidates(combat, elite, boss, step, path_length), opposite_side(side))
}

/// The coarse-grid cell beyond `side` of `cell`.
pub open spec fn cell_beyond(cell: (i32, i32), side: DoorSide) -> (i32, i32) {
    ((cell.0 + side_delta(side).0) as i32, (cell.1 + side_delta(side).1) as i32)
}

/// The templates the rooms of `plans` are built from, in order.
pub open spec fn tis_of(plans: Seq<RoomPlan>) -> Seq<usize> {
    plans.map_values(|plan: RoomPlan| plan.0)
}

/// Whether a combat room can be attached to room `k` of a layout with rooms of templates
/// `tis` on `cells`, through `side`: the room has a door there onto a free cell, and a
/// combat template has a door facing back.
pub open spec fn side_exit_fits(
    templates: Seq<RoomTemplate>,
    combat: Seq<usize>,
    tis: Seq<usize>,
    cells: Seq<(i32, i32)>,
    k: int,
    side: DoorSide,
) -> bool {
    &&& exit_allowed(templates[tis[k] as int], cells[k], cells, None, side)
    &&& with_door(templates, combat, opposite_side(side)).len() > 0
}

/// Whether a side room can be attached to a room of the path on `cells` other than its
/// first and its last (see `side_exit_fits`).
pub open spec fn side_room_fits(
    templates: Seq<RoomTemplate>,
    combat: Seq<usize>,
    tis: Seq<usize>,
    cells: Seq<(i32, i32)>,
) -> bool {
    exists|k: int, side: DoorSide|
        1 <= k < cells.len() - 1 && #[trigger] side_exit_fits(templates, combat, tis, cells, k, side)
}

/// Whether the walk, with rooms of templates `tis` on `cells` (the last one being the current
/// room), having last stepped towards `last_direction`, can still take its steps `step` to
/// `path_length`, each through an allowed exit (see `exit_allowed`) into a room of a template
/// that fits it (see `fitting_templates`), and end on a path off which a side room fits (see
/// `side_room_fits`).
pub open spec fn walk_can_finish(
    templates: Seq<RoomTemplate>,
    combat: Seq<usize>,
    elite: Seq<usize>,
    boss: Seq<usize>,
    cells: Seq<(i32, i32)>,
    tis: Seq<usize>,
    last_direction: Option<DoorSide>,
    step: int,
    path_length: int,
) -> bool
    decreases path_length - step, 2int, 0int,
{
    ||| step >= path_length && side_room_fits(templates, combat, tis, cells)
    ||| walk_can_go(templates, combat, elite, boss, cells, tis, last_direction, step, path_length, DoorSide::North)
    ||| walk_can_go(templates, combat, elite, boss, cells, tis, last_direction, step, path_length, DoorSide::South)
    ||| walk_can_go(templates, combat, elite, boss, cells, tis, last_direction, step, path_length, DoorSide::East)
    ||| walk_can_go(templates, combat, elite, boss, cells, tis, last_direction, step, path_length, DoorSide::West)
}

/// Whether the walk can take its step `step` through `side` of the current room and then
/// finish (see `walk_can_finish`): the exit is allowed, and the walk can finish from a room
/// of one of the fitting templates beyond it.
pub open spec fn walk_can_go(
    templates: Seq<RoomTemplate>,
    combat: Seq<usize>,
    elite: Seq<usize>,
    boss: Seq<usize>,
    cells: Seq<(i32, i32)>,
    tis: Seq<usize>,
    last_direction: Option<DoorSide>,
    step: int,
    path_length: int,
    side: DoorSide,
) -> bool
    decreases path_length - step, 1int, 0int,
{
    &&& step < path_length
    &&& exit_allowed(templates[tis.last() as int], cells.last(), cells, last_direction, side)
    &&& some_template_finishes(
        templates,
        combat,
        elite,
        boss,
        cells.push(cell_beyond(cells.last(), side)),
        tis,
        side,
        fitting_templates(templates, combat, elite, boss, side, step, path_length),
        0,
        step,
        path_length,
    )
}

/// Whether, after step `step` went through `side` onto the last of `cells`, the walk can
/// finish from a room of one of the templates `fits[k..]` there.
pub open spec fn some_template_finishes(
    templates: Seq<RoomTemplate>,
    combat: Seq<usize>,
    elite: Seq<usize>,
    boss: Seq<usize>,
    cells: Seq<(i32, i32)>,
    tis: Seq<usize>,
    side: DoorSide,
    fits: Seq<usize>,
    k: int,
    step: int,
    path_length: int,
) -> bool
    decreases path_length - step, 0int, fits.len() - k,
{
    if step < path_length && 0 <= k < fits.len() {
        ||| walk_can_finish(templates, combat, elite, boss, cells, tis.push(fits[k]), Some(side), step + 1, path_length)
        ||| some_template_finishes(templates, combat, elite, boss, cells, tis, side, fits, k + 1, step, path_length)
    } else {
        false
    }
}

/// The walk can finish from a room of one of `fits[k..]` exactly when one of them lets it.
proof fn lemma_some_template_finishes(
    templates: Seq<RoomTemplate>,
    combat: Seq<usize>,
    elite: Seq<usize>,
    boss: Seq<usize>,
    cells: Seq<(i32, i32)>,
    tis: Seq<usize>,
    side: DoorSide,
    fits: Seq<usize>,
    k: int,
    step: int,
    path_length: int,
)
    requires
        step < path_length,
        0 <= k,
    ensures
        some_template_finishes(templates, combat, elite, boss, cells, tis, side, fits, k, step, path_length)
            <==> exists|j: int|
            k <= j < fits.len() && #[trigger] walk_can_finish(
                templates,
                combat,
                elite,
                boss,
                cells,
                tis.push(fits[j]),
                Some(side),
                step + 1,
                path_length,
            ),
    decreases fits.len() - k,
{
    if k < fits.len() {
        lemma_some_template_finishes(templates, combat, elite, boss, cells, tis, side, fits, k + 1, step, path_length);
        if walk_can_finish(templates, combat, elite, boss, cells, tis.push(fits[k]), Some(side), step + 1, path_length) {
            assert(some_template_finishes(templates, combat, elite, boss, cells, tis, side, fits, k, step, path_length));
        } else {
            assert forall|j: int|
                k <= j < fits.len() && #[trigger] walk_can_finish(
                    templates,
                    combat,
                    elite,
                    boss,
                    cells,
                    tis.push(fits[j]),
                    Some(side),
                    step + 1,
                    path_length,
                ) implies k + 1 <= j by {}
        }
    }
}

/// Whether a side room fits off the path on `cells` (see `side_room_fits`).
fn side_room_possible(
    templates: &Vec<RoomTemplate>,
    combat: &Vec<usize>,
    tis: &Vec<usize>,
    cells: &Vec<(i32, i32)>,
) -> (possible: bool)
    requires
        indices_below(combat@, templates@.len() as int),
        indices_below(tis@, templates@.len() as int),
        tis@.len() == cells@.len(),
        cells@.len() >= 1,
        cells_within(cells@, 1000),
    ensures
        possible == side_room_fits(templates@, combat@, tis@, cells@),
{
    let ghost fit_pred = |exit: (DoorSide, (i32, i32))|
        with_door(templates@, combat@, opposite_side(exit.0)).len() > 0;
    let mut k: usize = 1;
    while k < cells.len() - 1
        invariant
            indices_below(combat@, templates@.len() as int),
            indices_below(tis@, templates@.len() as int),
            tis@.len() == cells@.len(),
            cells@.len() >= 1,
            cells_within(cells@, 1000),
            1 <= k,
            fit_pred == (|exit: (DoorSide, (i32, i32))|
                with_door(templates@, combat@, opposite_side(exit.0)).len() > 0),
            forall|j: int, side: DoorSide|
                1 <= j < k && j < cells@.len() - 1 ==> !#[trigger] side_exit_fits(
                    templates@,
                    combat@,
                    tis@,
                    cells@,
                    j,
                    side,
                ),
        decreases cells@.len() - k,
    {
        let cell = cells[k];
        assert(-1000 <= cells@[k as int].0 <= 1000 && -1000 <= cells@[k as int].1 <= 1000);
        let exits = exit_candidates(&templates[tis[k]], cell, cells, None);
        let fitting = exits_with_fitting_template(templates, combat, &exits);
        proof {
            broadcast use vstd::seq_lib::group_filter_ensures;
        }
        if fitting.len() > 0 {
            proof {
                assert(fitting@.contains(fitting@[0]));
                exits@.lemma_filter_contains_rev(fit_pred, fitting@[0]);
                let e = choose|e: int| 0 <= e < exits@.len() && exits@[e] == fitting@[0];
                lemma_allowed_exit(templates@[tis@[k as int] as int], cell, cells@, None, e);
                exits@.lemma_filter_pred(fit_pred, 0);
                assert(side_exit_fits(templates@, combat@, tis@, cells@, k as int, fitting@[0].0));
            }
            return true;
        }
        proof {
            assert forall|side: DoorSide| !#[trigger] side_exit_fits(
                templates@,
                combat@,
                tis@,
                cells@,
                k as int,
                side,
            ) by {
                if side_exit_fits(templates@, combat@, tis@, cells@, k as int, side) {
                    lemma_allowed_exit_listed(templates@[tis@[k as int] as int], cell, cells@, None, side);
                    let e = choose|e: int|
                        0 <= e < exits@.len() && (#[trigger] exits@[e]).0 == side;
                    exits@.lemma_filter_contains(fit_pred, e);
                }
            }
        }
        k += 1;
    }
    false
}

/// Whether the walk can finish from the given position (see `walk_can_finish`); `cells` and
/// `tis` come back as they were handed in.
fn walk_finishes(
    templates: &Vec<RoomTemplate>,
    combat: &Vec<usize>,
    elite: &Vec<usize>,
    boss: &Vec<usize>,
    cells: &mut Vec<(i32, i32)>,
    tis: &mut Vec<usize>,
    last_direction: Option<DoorSide>,
    step: usize,
    path_length: usize,
) -> (finishes: bool)
    requires
        indices_below(combat@, templates@.len() as int),
        indices_below(elite@, templates@.len() as int),
        indices_below(boss@, templates@.len() as int),
        indices_below(old(tis)@, templates@.len() as int),
        old(tis)@.len() == old(cells)@.len(),
        old(cells)@.len() >= 1,
        step <= path_length <= 8,
        cells_within(old(cells)@, 1000 - (path_length - step)),
    ensures
        finishes == walk_can_finish(
            templates@,
            combat@,
            elite@,
            boss@,
            old(cells)@,
            old(tis)@,
            last_direction,
            step as int,
            path_length as int,
        ),
        final(cells)@ == old(cells)@,
        final(tis)@ == old(tis)@,
    decreases path_length - step, 2int, 0int,
{
    if step >= path_length {
        return side_room_possible(templates, combat, tis, cells);
    }
    walk_goes(templates, combat, elite, boss, cells, tis, last_direction, step, path_length, DoorSide::North)
        || walk_goes(templates, combat, elite, boss, cells, tis, last_direction, step, path_length, DoorSide::South)
        || walk_goes(templates, combat, elite, boss, cells, tis, last_direction, step, path_length, DoorSide::East)
        || walk_goes(templates, combat, elite, boss, cells, tis, last_direction, step, path_length, DoorSide::West)
}

/// Whether the walk can take its step `step` through `side` and then finish (see
/// `walk_can_go`); `cells` and `tis` come back as they were handed in.
fn walk_goes(
    templates: &Vec<RoomTemplate>,
    combat: &Vec<usize>,
    elite: &Vec<usize>,
    boss: &Vec<usize>,
    cells: &mut Vec<(i32, i32)>,
    tis: &mut Vec<usize>,
    last_direction: Option<DoorSide>,
    step: usize,
    path_length: usize,
    side: DoorSide,
) -> (goes: bool)
    requires
        indices_below(combat@, templates@.len() as int),
        indices_below(elite@, templates@.len() as int),
        indices_below(boss@, templates@.len() as int),
        indices_below(old(tis)@, templates@.len() as int),
        old(tis)@.len() == old(cells)@.len(),
        old(cells)@.len() >= 1,
        step < path_length <= 8,
        cells_within(old(cells)@, 1000 - (path_length - step)),
    ensures
        goes == walk_can_go(
            templates@,
            combat@,
            elite@,
            boss@,
            old(cells)@,
            old(tis)@,
            last_direction,
            step as int,
            path_length as int,
            side,
        ),
        final(cells)@ == old(cells)@,
        final(tis)@ == old(tis)@,
    decreases path_length - step, 1int, 0int,
{
    let ghost start = cells@;
    let ghost start_tis = tis@;
    let here = cells[cells.len() - 1];
    let current = tis[tis.len() - 1];
    assert(cells@[cells@.len() - 1] == here);
    assert(tis@[tis@.len() - 1] == current);
    if !exit_is_allowed(&templates[current], here, cells, last_direction, side) {
        return false;
    }
    let entry_side = side.opposite();
    let fits = if step == path_length - 1 {
        templates_with_door(templates, boss, entry_side)
    } else if step == path_length - 2 && elite.len() > 0 {
        templates_with_door(templates, elite, entry_side)
    } else {
        templates_with_door(templates, combat, entry_side)
    };
    let ghost fitting = fitting_templates(
        templates@,
        combat@,
        elite@,
        boss@,
        side,
        step as int,
        path_length as int,
    );
    assert(fits@ == fitting);
    proof {
        broadcast use vstd::seq_lib::group_filter_ensures;
        let cands = walk_candidates(combat@, elite@, boss@, step as int, path_length as int);
        let pred = |ti: usize| has_door_on(templates@[ti as int], entry_side);
        assert forall|j: int| 0 <= j < fits@.len() implies fits@[j] < templates@.len() by {
            assert(fits@.contains(fits@[j]));
            cands.lemma_filter_contains_rev(pred, fits@[j]);
        }
    }
    let (dx, dz) = side_step(side);
    cells.push((here.0 + dx, here.1 + dz));
    let ghost next = start.push(cell_beyond(start.last(), side));
    assert(cells@ =~= next);
    let mut k: usize = 0;
    let mut found = false;
    while k < fits.len() && !found
        invariant
            indices_below(combat@, templates@.len() as int),
            indices_below(elite@, templates@.len() as int),
            indices_below(boss@, templates@.len() as int),
            indices_below(start_tis, templates@.len() as int),
            start_tis.len() == start.len(),
            step < path_length <= 8,
            cells_within(start, 1000 - (path_length - step)),
            start.len() >= 1,
            cells@ == next,
            tis@ == start_tis,
            next == start.push(cell_beyond(start.last(), side)),
            k <= fits@.len(),
            forall|j: int| 0 <= j < fits@.len() ==> fits@[j] < templates@.len(),
            fits@ == fitting,
            found ==> some_template_finishes(
                templates@,
                combat@,
                elite@,
                boss@,
                next,
                start_tis,
                side,
                fitting,
                0,
                step as int,
                path_length as int,
            ),
            !found ==> some_template_finishes(
                templates@,
                combat@,
                elite@,
                boss@,
                next,
                start_tis,
                side,
                fitting,
                0,
                step as int,
                path_length as int,
            ) == some_template_finishes(
                templates@,
                combat@,
                elite@,
                boss@,
                next,
                start_tis,
                side,
                fitting,
                k as int,
                step as int,
                path_length as int,
            ),
        decreases fits@.len() - k,
    {
        proof {
            assert forall|j: int| 0 <= j < next.len() implies -(1000 - (path_length - step - 1)) <= (
            #[trigger] next[j]).0 <= 1000 - (path_length - step - 1) && -(1000 - (path_length - step
                - 1)) <= next[j].1 <= 1000 - (path_length - step - 1) by {
                if j < start.len() {
                    assert(next[j] == start[j]);
                } else {
                    assert(start.last() == start[start.len() - 1]);
                }
            }
        }
        tis.push(fits[k]);
        found = walk_finishes(
            templates,
            combat,
            elite,
            boss,
            cells,
            tis,
            Some(side),
            step + 1,
            path_length,
        );
        tis.pop();
        assert(tis@ =~= start_tis);
        assert(some_template_finishes(
            templates@,
            combat@,
            elite@,
            boss@,
            next,
            start_tis,
            side,
            fitting,
            k as int,
            step as int,
            path_length as int,
        ) == (found || some_template_finishes(
            templates@,
            combat@,
            elite@,
            boss@,
            next,
            start_tis,
            side,
            fitting,
            k + 1,
            step as int,
            path_length as int,
        )));
        k += 1;
    }
    assert(!found ==> !some_template_finishes(
        templates@,
        combat@,
        elite@,
        boss@,
        next,
        start_tis,
        side,
        fitting,
        k as int,
        step as int,
        path_length as int,
    ));
    cells.pop();
    assert(cells@ =~= start);
    assert(start.last() == here);
    assert(start_tis.last() == current);
    found
}

/// The exits among `exits` through which the walk can take step `step` and still finish
/// (see `walk_can_go`), in order; `cells` and `tis` come back as they were handed in.
fn exits_to_finish(
    templates: &Vec<RoomTemplate>,
    combat: &Vec<usize>,
    elite: &Vec<usize>,
    boss: &Vec<usize>,
    exits: &Vec<(DoorSide, (i32, i32))>,
    cells: &mut Vec<(i32, i32)>,
    tis: &mut Vec<usize>,
    last_direction: Option<DoorSide>,
    step: usize,
    path_length: usize,
) -> (viable: Vec<(DoorSide, (i32, i32))>)
    requires
        indices_below(combat@, templates@.len() as int),
        indices_below(elite@, templates@.len() as int),
        indices_below(boss@, templates@.len() as int),
        indices_below(old(tis)@, templates@.len() as int),
        old(tis)@.len() == old(cells)@.len(),
        old(cells)@.len() >= 1,
        step < path_length <= 8,
        cells_within(old(cells)@, 1000 - (path_length - step)),
    ensures
        viable@ == exits@.filter(
            |exit: (DoorSide, (i32, i32))|
                walk_can_go(
                    templates@,
                    combat@,
                    elite@,
                    boss@,
                    old(cells)@,
                    old(tis)@,
                    last_direction,
                    step as int,
                    path_length as int,
                    exit.0,
                ),
        ),
        final(cells)@ == old(cells)@,
        final(tis)@ == old(tis)@,
{
    let ghost start = cells@;
    let ghost start_tis = tis@;
    let ghost pred = |exit: (DoorSide, (i32, i32))|
        walk_can_go(
            templates@,
            combat@,
            elite@,
            boss@,
            start,
            start_tis,
            last_direction,
            step as int,
            path_length as int,
            exit.0,
        );
    let mut viable: Vec<(DoorSide, (i32, i32))> = Vec::new();
    let mut k: usize = 0;
    while k < exits.len()
        invariant
            indices_below(combat@, templates@.len() as int),
            indices_below(elite@, templates@.len() as int),
            indices_below(boss@, templates@.len() as int),
            indices_below(start_tis, templates@.len() as int),
            start_tis.len() == start.len(),
            start.len() >= 1,
            step < path_length <= 8,
            cells_within(start, 1000 - (path_length - step)),
            cells@ == start,
            tis@ == start_tis,
            k <= exits@.len(),
            pred == (|exit: (DoorSide, (i32, i32))|
                walk_can_go(
                    templates@,
                    combat@,
                    elite@,
                    boss@,
                    start,
                    start_tis,
                    last_direction,
                    step as int,
                    path_length as int,
                    exit.0,
                )),
            viable@ == exits@.take(k as int).filter(pred),
        decreases exits@.len() - k,
    {
        let exit = exits[k];
        proof {
            reveal(Seq::filter);
            assert(exits@.take(k + 1).drop_last() =~= exits@.take(k as int));
            assert(exits@.take(k + 1).last() == exit);
            assert(exits@.take(k + 1).filter(pred) == (if pred(exit) {
                exits@.take(k as int).filter(pred).push(exit)
            } else {
                exits@.take(k as int).filter(pred)
            }));
        }
        let goes = walk_goes(
            templates,
            combat,
            elite,
            boss,
            cells,
            tis,
            last_direction,
            step,
            path_length,
            exit.0,
        );
        if goes {
            viable.push(exit);
        }
        k += 1;
    }
    assert(exits@.take(exits@.len() as int) =~= exits@);
    viable
}

/// The templates among `fits` from a room of which, on the last of `cells`, the walk can
/// finish after its step `step` went through `side` (see `walk_can_finish`), in order;
/// `cells` and `tis` come back as they were handed in.
fn templates_to_finish(
    templates: &Vec<RoomTemplate>,
    combat: &Vec<usize>,
    elite: &Vec<usize>,
    boss: &Vec<usize>,
    fits: &Vec<usize>,
    cells: &mut Vec<(i32, i32)>,
    tis: &mut Vec<usize>,
    side: DoorSide,
    step: usize,
    path_length: usize,
) -> (finishing: Vec<usize>)
    requires
        indices_below(combat@, templates@.len() as int),
        indices_below(elite@, templates@.len() as int),
        indices_below(boss@, templates@.len() as int),
        indices_below(fits@, templates@.len() as int),
        indices_below(old(tis)@, templates@.len() as int),
        old(tis)@.len() + 1 == old(cells)@.len(),
        step < path_length <= 8,
        cells_within(old(cells)@, 1000 - (path_length - step - 1)),
    ensures
        finishing@ == fits@.filter(
            |ti: usize|
                walk_can_finish(
                    templates@,
                    combat@,
                    elite@,
                    boss@,
                    old(cells)@,
                    old(tis)@.push(ti),
                    Some(side),
                    step + 1,
                    path_length as int,
                ),
        ),
        final(cells)@ == old(cells)@,
        final(tis)@ == old(tis)@,
{
    let ghost start = cells@;
    let ghost start_tis = tis@;
    let ghost pred = |ti: usize|
        walk_can_finish(
            templates@,
            combat@,
            elite@,
            boss@,
            start,
            start_tis.push(ti),
            Some(side),
            step + 1,
            path_length as int,
        );
    let mut finishing: Vec<usize> = Vec::new();
    let mut k: usize = 0;
    while k < fits.len()
        invariant
            indices_below(combat@, templates@.len() as int),
            indices_below(elite@, templates@.len() as int),
            indices_below(boss@, templates@.len() as int),
            indices_below(fits@, templates@.len() as int),
            indices_below(start_tis, templates@.len() as int),
            start_tis.len() + 1 == start.len(),
            step < path_length <= 8,
            cells_within(start, 1000 - (path_length - step - 1)),
            cells@ == start,
            tis@ == start_tis,
            k <= fits@.len(),
            pred == (|ti: usize|
                walk_can_finish(
                    templates@,
                    combat@,
                    elite@,
                    boss@,
                    start,
                    start_tis.push(ti),
                    Some(side),
                    step + 1,
                    path_length as int,
                )),
            finishing@ == fits@.take(k as int).filter(pred),
        decreases fits@.len() - k,
    {
        let ti = fits[k];
        proof {
            reveal(Seq::filter);
            assert(fits@.take(k + 1).drop_last() =~= fits@.take(k as int));
            assert(fits@.take(k + 1).last() == ti);
            assert(fits@.take(k + 1).filter(pred) == (if pred(ti) {
                fits@.take(k as int).filter(pred).push(ti)
            } else {
                fits@.take(k as int).filter(pred)
            }));
        }
        tis.push(ti);
        let finishes = walk_finishes(
            templates,
            combat,
            elite,
            boss,
            cells,
            tis,
            Some(side),
            step + 1,
            path_length,
        );
        tis.pop();
        assert(tis@ =~= start_tis);
        if finishes {
            finishing.push(ti);
        }
        k += 1;
    }
    assert(fits@.take(fits@.len() as int) =~= fits@);
    finishing
}

/// The exits of the current (last) room of `plans` through which the walk can take its
/// step `step` and still finish (see `walk_can_go`), in the order North, South, East, West.
pub open spec fn walk_exits(
    templates: Seq<RoomTemplate>,
    combat: Seq<usize>,
    elite: Seq<usize>,
    boss: Seq<usize>,
    plans: Seq<RoomPlan>,
    last_direction: Option<DoorSide>,
    step: int,
    path_length: int,
) -> Seq<(DoorSide, (i32, i32))> {
    let current = plans.len() - 1;
    allowed_exits(
        templates[plans[current].0 as int],
        plans[current].1,
        cells_of(plans),
        last_direction,
    ).filter(
        |exit: (DoorSide, (i32, i32))|
            walk_can_go(
                templates,
                combat,
                elite,
                boss,
                cells_of(plans),
                tis_of(plans),
                last_direction,
                step,
                path_length,
                exit.0,
            ),
    )
}

/// The templates the walk may build at its step `step` through `side` of the current room
/// of `plans`: those that fit the step (see `fitting_templates`) and from which it can
/// still finish (see `walk_can_finish`).
pub open spec fn walk_templates(
    templates: Seq<RoomTemplate>,
    combat: Seq<usize>,
    elite: Seq<usize>,
    boss: Seq<usize>,
    plans: Seq<RoomPlan>,
    side: DoorSide,
    step: int,
    path_length: int,
) -> Seq<usize> {
    let current = plans.len() - 1;
    fitting_templates(templates, combat, elite, boss, side, step, path_length).filter(
        |ti: usize|
            walk_can_finish(
                templates,
                combat,
                elite,
                boss,
                cells_of(plans).push(cell_beyond(plans[current].1, side)),
                tis_of(plans).push(ti),
                Some(side),
                step + 1,
                path_length,
            ),
    )
}

/// The side the walk takes at step `step` when it drew the allowed exit through `drawn`: that
/// side when the walk can still finish through it, else the first exit through which it can
/// (see `walk_exits`); `None` when there is none.
#[verifier::opaque]
pub open spec fn walk_side(
    templates: Seq<RoomTemplate>,
    combat: Seq<usize>,
    elite: Seq<usize>,
    boss: Seq<usize>,
    plans: Seq<RoomPlan>,
    last_direction: Option<DoorSide>,
    step: int,
    path_length: int,
    drawn: DoorSide,
) -> Option<DoorSide> {
    let viable = walk_exits(templates, combat, elite, boss, plans, last_direction, step, path_length);
    if walk_can_go(
        templates,
        combat,
        elite,
        boss,
        cells_of(plans),
        tis_of(plans),
        last_direction,
        step,
        path_length,
        drawn,
    ) {
        Some(drawn)
    } else if viable.len() > 0 {
        Some(viable[0].0)
    } else {
        None
    }
}

/// The template the walk builds at step `step` through `side` when it drew `drawn`: that
/// template when it has a door facing back and the walk can still finish from it, else the
/// first template that fits and lets the walk finish (see `walk_templates`).
#[verifier::opaque]
pub open spec fn walk_template(
    templates: Seq<RoomTemplate>,
    combat: Seq<usize>,
    elite: Seq<usize>,
    boss: Seq<usize>,
    plans: Seq<RoomPlan>,
    side: DoorSide,
    step: int,
    path_length: int,
    drawn: usize,
) -> usize {
    let current = plans.len() - 1;
    if has_door_on(templates[drawn as int], opposite_side(side)) && walk_can_finish(
        templates,
        combat,
        elite,
        boss,
        cells_of(plans).push(cell_beyond(plans[current].1, side)),
        tis_of(plans).push(drawn),
        Some(side),
        step + 1,
        path_length,
    ) {
        drawn
    } else {
        walk_templates(templates, combat, elite, boss, plans, side, step, path_length)[0]
    }
}

/// The rooms and generator state the critical path ends with, from step `step` of
/// `path_length` on: at each step the walk draws one of the allowed exits of the last room
/// (see `allowed_exits`) and the template of the new room among those of the step's role
/// (see `picked_template`), and attaches it beyond that exit. Where the walk could not be
/// finished through the drawn exit or from the drawn template, it takes the first exit or
/// template from which it can (see `walk_side` and `walk_template`); it stops when there is
/// no exit, or none through which it can finish.
pub open spec fn walk_plan(
    templates: Seq<RoomTemplate>,
    combat: Seq<usize>,
    elite: Seq<usize>,
    boss: Seq<usize>,
    plans: Seq<RoomPlan>,
    last_direction: Option<DoorSide>,
    state: u64,
    step: int,
    path_length: int,
) -> (Seq<RoomPlan>, u64)
    decreases path_length - step,
{
    if step >= path_length || plans.len() == 0 {
        (plans, state)
    } else {
        let current = plans.len() - 1;
        let exits = allowed_exits(
            templates[plans[current].0 as int],
            plans[current].1,
            cells_of(plans),
            last_direction,
        );
        if exits.len() == 0 {
            (plans, state)
        } else {
            let choice = draw_below(state, exits.len() as usize);
            let after_choice = state_after_draw_below(state, exits.len() as usize);
            match walk_side(
                templates,
                combat,
                elite,
                boss,
                plans,
                last_direction,
                step,
                path_length,
                exits[choice as int].0,
            ) {
                None => (plans, after_choice),
                Some(side) => {
                    let role = walk_candidates(combat, elite, boss, step, path_length);
                    let entry_side = opposite_side(side);
                    let drawn = picked_template(templates, role, entry_side, after_choice);
                    let after_pick = state_after_draw_below(
                        after_choice,
                        pick_bound(templates, role, entry_side),
                    );
                    let ti = walk_template(templates, combat, elite, boss, plans, side, step, path_length, drawn);
                    walk_plan(
                        templates,
                        combat,
                        elite,
                        boss,
                        attach_plan(plans, current, side, ti),
                        Some(side),
                        after_pick,
                        step + 1,
                        path_length,
                    )
                },
            }
        }
    }
}

/// Where the walk can go on through `side`, some template fits the step and lets it finish,
/// and every template that fits and lets it finish is of the step's role, with a door
/// facing back.
proof fn lemma_go_has_templates(
    templates: Seq<RoomTemplate>,
    combat: Seq<usize>,
    elite: Seq<usize>,
    boss: Seq<usize>,
    plans: Seq<RoomPlan>,
    last_direction: Option<DoorSide>,
    step: int,
    path_length: int,
    side: DoorSide,
)
    requires
        plans.len() >= 1,
        walk_can_go(
            templates,
            combat,
            elite,
            boss,
            cells_of(plans),
            tis_of(plans),
            last_direction,
            step,
            path_length,
            side,
        ),
    ensures
        walk_templates(templates, combat, elite, boss, plans, side, step, path_length).len() > 0,
        forall|j: int|
            0 <= j < walk_templates(templates, combat, elite, boss, plans, side, step, path_length).len()
                ==> {
                let ti = #[trigger] walk_templates(templates, combat, elite, boss, plans, side, step, path_length)[j];
                &&& has_door_on(templates[ti as int], opposite_side(side))
                &&& walk_candidates(combat, elite, boss, step, path_length).contains(ti)
                &&& walk_can_finish(
                    templates,
                    combat,
                    elite,
                    boss,
                    cells_of(plans).push(cell_beyond(plans[plans.len() - 1].1, side)),
                    tis_of(plans).push(ti),
                    Some(side),
                    step + 1,
                    path_length,
                )
            },
{
    broadcast use vstd::seq_lib::group_filter_ensures;
    let current = plans.len() - 1;
    let cells = cells_of(plans);
    let tis = tis_of(plans);
    assert(cells.last() == plans[current].1);
    let next = cells.push(cell_beyond(plans[current].1, side));
    let role = walk_candidates(combat, elite, boss, step, path_length);
    let door_pred = |ti: usize| has_door_on(templates[ti as int], opposite_side(side));
    let fits = fitting_templates(templates, combat, elite, boss, side, step, path_length);
    let fin_pred = |ti: usize| walk_can_finish(templates, combat, elite, boss, next, tis.push(ti), Some(side), step + 1, path_length);
    let finishing = walk_templates(templates, combat, elite, boss, plans, side, step, path_length);
    assert(finishing == fits.filter(fin_pred));
    lemma_some_template_finishes(templates, combat, elite, boss, next, tis, side, fits, 0, step, path_length);
    let j = choose|j: int|
        0 <= j < fits.len() && #[trigger] walk_can_finish(
            templates,
            combat,
            elite,
            boss,
            next,
            tis.push(fits[j]),
            Some(side),
            step + 1,
            path_length,
        );
    fits.lemma_filter_contains(fin_pred, j);
    assert forall|i: int| 0 <= i < finishing.len() implies {
        let ti = #[trigger] finishing[i];
        &&& has_door_on(templates[ti as int], opposite_side(side))
        &&& role.contains(ti)
        &&& walk_can_finish(templates, combat, elite, boss, next, tis.push(ti), Some(side), step + 1, path_length)
    } by {
        fits.lemma_filter_pred(fin_pred, i);
        assert(finishing.contains(finishing[i]));
        fits.lemma_filter_contains_rev(fin_pred, finishing[i]);
        let f = choose|f: int| 0 <= f < fits.len() && fits[f] == finishing[i];
        role.lemma_filter_pred(door_pred, f);
        assert(fits.contains(fits[f]));
        role.lemma_filter_contains_rev(door_pred, fits[f]);
    }
}

/// An exit that is allowed is listed among the allowed exits.
proof fn lemma_allowed_exit_listed(
    template: RoomTemplate,
    cell: (i32, i32),
    occupied: Seq<(i32, i32)>,
    last_direction: Option<DoorSide>,
    side: DoorSide,
)
    requires
        exit_allowed(template, cell, occupied, last_direction, side),
    ensures
        exists|k: int|
            0 <= k < allowed_exits(template, cell, occupied, last_direction).len() && (
            #[trigger] allowed_exits(template, cell, occupied, last_direction)[k]).0 == side,
{
    let a = exit_if_allowed(template, cell, occupied, last_direction, DoorSide::North);
    let b = exit_if_allowed(template, cell, occupied, last_direction, DoorSide::South);
    let c = exit_if_allowed(template, cell, occupied, last_direction, DoorSide::East);
    let d = exit_if_allowed(template, cell, occupied, last_direction, DoorSide::West);
    let all = allowed_exits(template, cell, occupied, last_direction);
    assert(all == a + b + c + d);
    match side {
        DoorSide::North => {
            assert(all[0] == a[0]);
        },
        DoorSide::South => {
            assert(all[a.len() as int] == b[0]);
        },
        DoorSide::East => {
            assert(all[(a.len() + b.len()) as int] == c[0]);
        },
        DoorSide::West => {
            assert(all[(a.len() + b.len() + c.len()) as int] == d[0]);
        },
    }
}

/// While the walk can finish, it has an exit to take.
proof fn lemma_walk_has_exit(
    templates: Seq<RoomTemplate>,
    combat: Seq<usize>,
    elite: Seq<usize>,
    boss: Seq<usize>,
    plans: Seq<RoomPlan>,
    last_direction: Option<DoorSide>,
    step: int,
    path_length: int,
)
    requires
        plans.len() >= 1,
        step < path_length,
        walk_can_finish(
            templates,
            combat,
            elite,
            boss,
            cells_of(plans),
            tis_of(plans),
            last_direction,
            step,
            path_length,
        ),
    ensures
        walk_exits(templates, combat, elite, boss, plans, last_direction, step, path_length).len() > 0,
{
    let current = plans.len() - 1;
    let cells = cells_of(plans);
    let pred = |exit: (DoorSide, (i32, i32))|
        walk_can_go(
            templates,
            combat,
            elite,
            boss,
            cells,
            tis_of(plans),
            last_direction,
            step,
            path_length,
            exit.0,
        );
    let all = allowed_exits(templates[plans[current].0 as int], plans[current].1, cells, last_direction);
    assert(cells.last() == plans[current].1);
    assert(tis_of(plans).last() == plans[current].0);
    assert(step >= path_length || pred((DoorSide::North, (0i32, 0i32))) || pred((DoorSide::South, (0i32, 0i32)))
        || pred((DoorSide::East, (0i32, 0i32))) || pred((DoorSide::West, (0i32, 0i32))));
    let side = if pred((DoorSide::North, (0i32, 0i32))) {
        DoorSide::North
    } else if pred((DoorSide::South, (0i32, 0i32))) {
        DoorSide::South
    } else if pred((DoorSide::East, (0i32, 0i32))) {
        DoorSide::East
    } else {
        DoorSide::West
    };
    assert(pred((side, (0i32, 0i32))));
    lemma_allowed_exit_listed(templates[plans[current].0 as int], plans[current].1, cells, last_direction, side);
    let k = choose|k: int| 0 <= k < all.len() && (#[trigger] all[k]).0 == side;
    all.lemma_filter_contains(pred, k);
}

/// The cells that the rooms occupy are those of their plans.
proof fn lemma_occupied_cells(
    rooms: Seq<PlacedRoom>,
    occupied: Seq<(i32, i32)>,
    links: Seq<Link>,
    templates: Seq<RoomTemplate>,
)
    requires
        walk_inv(rooms, occupied, links, templates),
    ensures
        occupied == cells_of(plans_of(rooms)),
{
    reveal(walk_inv);
    assert forall|k: int| 0 <= k < occupied.len() implies occupied[k] == #[trigger] cells_of(
        plans_of(rooms),
    )[k] by {
        assert(occupied[k] == rooms[k].grid_cell);
    }
    assert(occupied =~= cells_of(plans_of(rooms)));
}

/// The occupied cells lie within the rooms' count of the start cell.
proof fn lemma_cells_near_start(
    rooms: Seq<PlacedRoom>,
    occupied: Seq<(i32, i32)>,
    links: Seq<Link>,
    templates: Seq<RoomTemplate>,
)
    requires
        walk_inv(rooms, occupied, links, templates),
    ensures
        cells_within(occupied, 8),
{
    reveal(walk_inv);
    assert forall|k: int| 0 <= k < occupied.len() implies -8 <= (#[trigger] occupied[k]).0 <= 8 && -8
        <= occupied[k].1 <= 8 by {
        assert(occupied[k] == rooms[k].grid_cell);
    }
}

/// Whether each of the rooms `1..n` lists the room before it first among its connections.
pub open spec fn chained_to_previous(rooms: Seq<PlacedRoom>, n: int) -> bool {
    forall|k: int|
        1 <= k < n ==> (#[trigger] rooms[k]).connections@.len() >= 1 && rooms[k].connections@[0].0 == k
            - 1
}

/// One step of the walk, unfolded: the exit drawn among the allowed ones, the side taken for
/// it, the template drawn for the step's role and the one built.
proof fn lemma_walk_plan_step(
    templates: Seq<RoomTemplate>,
    combat: Seq<usize>,
    elite: Seq<usize>,
    boss: Seq<usize>,
    plans: Seq<RoomPlan>,
    last_direction: Option<DoorSide>,
    state: u64,
    step: int,
    path_length: int,
    side: Option<DoorSide>,
    ti: usize,
)
    requires
        step < path_length,
        plans.len() >= 1,
        ({
            let exits = allowed_exits(
                templates[plans[plans.len() - 1].0 as int],
                plans[plans.len() - 1].1,
                cells_of(plans),
                last_direction,
            );
            &&& exits.len() > 0
            &&& side == walk_side(
                templates,
                combat,
                elite,
                boss,
                plans,
                last_direction,
                step,
                path_length,
                exits[draw_below(state, exits.len() as usize) as int].0,
            )
            &&& side matches Some(s) ==> ti == walk_template(
                templates,
                combat,
                elite,
                boss,
                plans,
                s,
                step,
                path_length,
                picked_template(
                    templates,
                    walk_candidates(combat, elite, boss, step, path_length),
                    opposite_side(s),
                    state_after_draw_below(state, exits.len() as usize),
                ),
            )
        }),
    ensures
        ({
            let exits = allowed_exits(
                templates[plans[plans.len() - 1].0 as int],
                plans[plans.len() - 1].1,
                cells_of(plans),
                last_direction,
            );
            let after_choice = state_after_draw_below(state, exits.len() as usize);
            match side {
                None => walk_plan(templates, combat, elite, boss, plans, last_direction, state, step, path_length)
                    == (plans, after_choice),
                Some(s) => walk_plan(templates, combat, elite, boss, plans, last_direction, state, step, path_length)
                    == walk_plan(
                    templates,
                    combat,
                    elite,
                    boss,
                    attach_plan(plans, plans.len() - 1, s, ti),
                    Some(s),
                    state_after_draw_below(
                        after_choice,
                        pick_bound(templates, walk_candidates(combat, elite, boss, step, path_length), opposite_side(s)),
                    ),
                    step + 1,
                    path_length,
                ),
            }
        }),
{
}

/// The side the walk takes at its step `step` after drawing the exit through `drawn_side`
/// among `candidates`, the allowed exits of its current room (see `walk_side`); `cells` and
/// `tis` come back as they were handed in.
fn choose_walk_side(
    templates: &Vec<RoomTemplate>,
    combat: &Vec<usize>,
    elite: &Vec<usize>,
    boss: &Vec<usize>,
    candidates: &Vec<(DoorSide, (i32, i32))>,
    cells: &mut Vec<(i32, i32)>,
    tis: &mut Vec<usize>,
    last_direction: Option<DoorSide>,
    step: usize,
    path_length: usize,
    drawn_side: DoorSide,
    Ghost(plans): Ghost<Seq<RoomPlan>>,
) -> (side: Option<DoorSide>)
    requires
        indices_below(combat@, templates@.len() as int),
        indices_below(elite@, templates@.len() as int),
        indices_below(boss@, templates@.len() as int),
        indices_below(old(tis)@, templates@.len() as int),
        plans.len() >= 1,
        old(cells)@ == cells_of(plans),
        old(tis)@ == tis_of(plans),
        step < path_length <= 8,
        cells_within(old(cells)@, 1000 - (path_length - step)),
        candidates@ == allowed_exits(
            templates@[plans[plans.len() - 1].0 as int],
            plans[plans.len() - 1].1,
            cells_of(plans),
            last_direction,
        ),
        exit_allowed(
            templates@[plans[plans.len() - 1].0 as int],
            plans[plans.len() - 1].1,
            cells_of(plans),
            last_direction,
            drawn_side,
        ),
    ensures
        side == walk_side(
            templates@,
            combat@,
            elite@,
            boss@,
            plans,
            last_direction,
            step as int,
            path_length as int,
            drawn_side,
        ),
        side matches Some(s) ==> {
            &&& exit_allowed(
                templates@[plans[plans.len() - 1].0 as int],
                plans[plans.len() - 1].1,
                cells_of(plans),
                last_direction,
                s,
            )
            &&& walk_can_go(
                templates@,
                combat@,
                elite@,
                boss@,
                cells_of(plans),
                tis_of(plans),
                last_direction,
                step as int,
                path_length as int,
                s,
            )
        },
        final(cells)@ == old(cells)@,
        final(tis)@ == old(tis)@,
{
    proof {
        reveal(walk_side);
    }
    let drawn_goes = walk_goes(templates, combat, elite, boss, cells, tis, last_direction, step, path_length, drawn_side);
    if drawn_goes {
        return Some(drawn_side);
    }
    let viable = exits_to_finish(
        templates,
        combat,
        elite,
        boss,
        candidates,
        cells,
        tis,
        last_direction,
        step,
        path_length,
    );
    if viable.len() == 0 {
        return None;
    }
    let ghost go_pred = |exit: (DoorSide, (i32, i32))|
        walk_can_go(
            templates@,
            combat@,
            elite@,
            boss@,
            cells_of(plans),
            tis_of(plans),
            last_direction,
            step as int,
            path_length as int,
            exit.0,
        );
    proof {
        broadcast use vstd::seq_lib::group_filter_ensures;
        assert(viable@ == candidates@.filter(go_pred));
        assert(viable@.contains(viable@[0]));
        candidates@.lemma_filter_contains_rev(go_pred, viable@[0]);
        let k = choose|k: int| 0 <= k < candidates@.len() && candidates@[k] == viable@[0];
        lemma_allowed_exit(
            templates@[plans[plans.len() - 1].0 as int],
            plans[plans.len() - 1].1,
            cells_of(plans),
            last_direction,
            k,
        );
        candidates@.lemma_filter_pred(go_pred, 0);
    }
    Some(viable[0].0)
}

/// The template the walk builds at its step `step` through `side` after drawing
/// `drawn_ti` among `role_templates`, the templates of the step's role (see
/// `walk_template`); `cells` and `tis` come back as they were handed in.
fn choose_walk_template(
    templates: &Vec<RoomTemplate>,
    combat: &Vec<usize>,
    elite: &Vec<usize>,
    boss: &Vec<usize>,
    role_templates: &Vec<usize>,
    cells: &mut Vec<(i32, i32)>,
    tis: &mut Vec<usize>,
    side: DoorSide,
    step: usize,
    path_length: usize,
    drawn_ti: usize,
    Ghost(plans): Ghost<Seq<RoomPlan>>,
    Ghost(last_direction): Ghost<Option<DoorSide>>,
) -> (ti: usize)
    requires
        indices_below(combat@, templates@.len() as int),
        indices_below(elite@, templates@.len() as int),
        indices_below(boss@, templates@.len() as int),
        indices_below(old(tis)@, templates@.len() as int),
        role_templates@ == walk_candidates(combat@, elite@, boss@, step as int, path_length as int),
        walk_candidates(combat@, elite@, boss@, step as int, path_length as int).contains(drawn_ti),
        drawn_ti < templates@.len(),
        plans.len() >= 1,
        old(cells)@ == cells_of(plans).push(cell_beyond(plans[plans.len() - 1].1, side)),
        old(tis)@ == tis_of(plans),
        step < path_length <= 8,
        cells_within(old(cells)@, 1000 - (path_length - step - 1)),
        walk_can_go(
            templates@,
            combat@,
            elite@,
            boss@,
            cells_of(plans),
            tis_of(plans),
            last_direction,
            step as int,
            path_length as int,
            side,
        ),
    ensures
        ti == walk_template(templates@, combat@, elite@, boss@, plans, side, step as int, path_length as int, drawn_ti),
        has_door_on(templates@[ti as int], opposite_side(side)),
        walk_candidates(combat@, elite@, boss@, step as int, path_length as int).contains(ti),
        walk_can_finish(
            templates@,
            combat@,
            elite@,
            boss@,
            old(cells)@,
            tis_of(plans).push(ti),
            Some(side),
            step + 1,
            path_length as int,
        ),
        final(cells)@ == old(cells)@,
        final(tis)@ == old(tis)@,
{
    proof {
        reveal(walk_template);
        lemma_go_has_templates(
            templates@,
            combat@,
            elite@,
            boss@,
            plans,
            last_direction,
            step as int,
            path_length as int,
            side,
        );
    }
    let ghost role = walk_candidates(combat@, elite@, boss@, step as int, path_length as int);
    let entry_side = side.opposite();
    let ghost tis0 = tis@;
    tis.push(drawn_ti);
    let drawn_finishes = walk_finishes(templates, combat, elite, boss, cells, tis, Some(side), step + 1, path_length);
    tis.pop();
    assert(tis@ =~= tis0);
    let drawn_has_door = templates[drawn_ti].has_door(entry_side);
    if drawn_has_door && drawn_finishes {
        return drawn_ti;
    }
    let fits = templates_with_door(templates, role_templates, entry_side);
    let ghost door_pred = |ti: usize| has_door_on(templates@[ti as int], entry_side);
    proof {
        broadcast use vstd::seq_lib::group_filter_ensures;
        assert forall|j: int| 0 <= j < fits@.len() implies fits@[j] < templates@.len() by {
            assert(fits@.contains(fits@[j]));
            role.lemma_filter_contains_rev(door_pred, fits@[j]);
        }
    }
    let finishing = templates_to_finish(
        templates,
        combat,
        elite,
        boss,
        &fits,
        cells,
        tis,
        side,
        step,
        path_length,
    );
    assert(finishing@ == walk_templates(
        templates@,
        combat@,
        elite@,
        boss@,
        plans,
        side,
        step as int,
        path_length as int,
    ));
    finishing[0]
}

/// Step 2 of the layout: walks 4 or 5 steps from the start room, each into a free cell
/// through a door of the current room without turning straight back, placing a combat
/// room at each step, an elite room one step before the end and a boss room at the end,
/// each with a door facing back. It draws the exit among the allowed ones and the template
/// among those of the step's role; where the whole walk could not be finished through the
/// drawn exit or from the drawn template, it takes the first one from which it can. It stops
/// early when there is none, which it never does where the walk can be finished from the
/// start room.
#[verifier::rlimit(100)]
#[verifier::spinoff_prover]
fn walk_critical_path(
    templates: &Vec<RoomTemplate>,
    combat_templates: &Vec<usize>,
    elite_templates: &Vec<usize>,
    boss_templates: &Vec<usize>,
    rng: &mut SplitMix64,
    rooms: &mut Vec<PlacedRoom>,
    occupied: &mut Vec<(i32, i32)>,
    Ghost(links_in): Ghost<Seq<Link>>,
) -> (links: Ghost<Seq<Link>>)
    requires
        tag_indices_spec(templates@, RoomTag::Combat, combat_templates@),
        tag_indices_spec(templates@, RoomTag::Elite, elite_templates@),
        tag_indices_spec(templates@, RoomTag::Boss, boss_templates@),
        combat_templates@.len() > 0,
        boss_templates@.len() > 0,
        walk_inv(old(rooms)@, old(occupied)@, links_in, templates@),
        old(rooms)@.len() == 1,
        old(rooms)@[0].connections@.len() == 0,
        start_room_kept(old(rooms)@, templates@),
    ensures
        walk_inv(final(rooms)@, final(occupied)@, links@, templates@),
        1 <= final(rooms)@.len() <= 6,
        start_room_kept(final(rooms)@, templates@),
        walk_roles(final(rooms)@, templates@, true),
        chained_to_previous(final(rooms)@, final(rooms)@.len() as int),
        walk_can_finish(
            templates@,
            combat_templates@,
            elite_templates@,
            boss_templates@,
            cells_of(plans_of(old(rooms)@)),
            tis_of(plans_of(old(rooms)@)),
            None,
            0,
            4 + draw_below(old(rng)@, 2),
        ) ==> final(rooms)@.len() == 5 + draw_below(old(rng)@, 2) && room_tag(
            final(rooms)@,
            templates@,
            final(rooms)@.len() - 1,
        ) == RoomTag::Boss && side_room_fits(
            templates@,
            combat_templates@,
            tis_of(plans_of(final(rooms)@)),
            cells_of(plans_of(final(rooms)@)),
        ),
        (plans_of(final(rooms)@), final(rng)@) == walk_plan(
            templates@,
            combat_templates@,
            elite_templates@,
            boss_templates@,
            plans_of(old(rooms)@),
            None,
            state_after_draw_below(old(rng)@, 2),
            0,
            4 + draw_below(old(rng)@, 2),
        ),
{
    let ghost mut links = links_in;
    let path_length = 4 + rng.next_usize(2);  // 4 or 5
    let ghost target = walk_plan(
        templates@,
        combat_templates@,
        elite_templates@,
        boss_templates@,
        plans_of(rooms@),
        None,
        rng@,
        0,
        path_length as int,
    );
    proof {
        lemma_occupied_cells(rooms@, occupied@, links, templates@);
    }
    let mut room_templates: Vec<usize> = Vec::new();
    room_templates.push(rooms[0].template_index);
    assert(room_templates@ =~= tis_of(plans_of(rooms@)));
    let ghost walk_ok = walk_can_finish(
        templates@,
        combat_templates@,
        elite_templates@,
        boss_templates@,
        occupied@,
        room_templates@,
        None,
        0,
        path_length as int,
    );

    let mut current_cell: (i32, i32) = (0, 0);
    let mut current_room_idx: usize = 0;
    let mut last_direction: Option<DoorSide> = None;

    let mut step: usize = 0;
    proof {
        reveal(walk_roles);
    }
    while step < path_length
        invariant_except_break
            target == walk_plan(
                templates@,
                combat_templates@,
                elite_templates@,
                boss_templates@,
                plans_of(rooms@),
                last_direction,
                rng@,
                step as int,
                path_length as int,
            ),
        invariant
            tag_indices_spec(templates@, RoomTag::Combat, combat_templates@),
            tag_indices_spec(templates@, RoomTag::Elite, elite_templates@),
            tag_indices_spec(templates@, RoomTag::Boss, boss_templates@),
            4 <= path_length <= 5,
            step <= path_length,
            rooms@.len() <= 1 + step,
            walk_inv(rooms@, occupied@, links, templates@),
            start_room_kept(rooms@, templates@),
            current_room_idx < rooms@.len(),
            current_room_idx == rooms@.len() - 1,
            current_cell == rooms@[current_room_idx as int].grid_cell,
            combat_templates@.len() > 0,
            boss_templates@.len() > 0,
            walk_roles(rooms@, templates@, step == path_length),
            chained_to_previous(rooms@, rooms@.len() as int),
            walk_ok ==> rooms@.len() == 1 + step,
            room_templates@ == tis_of(plans_of(rooms@)),
            walk_ok ==> walk_can_finish(
                templates@,
                combat_templates@,
                elite_templates@,
                boss_templates@,
                occupied@,
                room_templates@,
                last_direction,
                step as int,
                path_length as int,
            ),
            step == path_length && rooms@.len() == 1 + step ==> room_tag(rooms@, templates@, step as int)
                == RoomTag::Boss,
        ensures
            target == (plans_of(rooms@), rng@),
            walk_ok ==> step == path_length,
            walk_ok ==> side_room_fits(templates@, combat_templates@, room_templates@, occupied@),
        decreases path_length - step,
    {
        // Pick a direction where the current room has a door on that side,
        // doesn't go to an occupied cell, and doesn't immediately reverse
        let ghost plans0 = plans_of(rooms@);
        let ghost state0 = rng@;
        let ghost last0 = last_direction;
        proof {
            lemma_walk_bounds(rooms@, occupied@, links, templates@, current_room_idx as int);
            lemma_occupied_cells(rooms@, occupied@, links, templates@);
            lemma_cells_near_start(rooms@, occupied@, links, templates@);
            assert(plans0[current_room_idx as int] == plan_of(rooms@[current_room_idx as int]));
            assert(occupied@.last() == current_cell);
            assert forall|k: int| 0 <= k < room_templates@.len() implies room_templates@[k]
                < templates@.len() by {
                lemma_walk_bounds(rooms@, occupied@, links, templates@, k);
                assert(plans0[k] == plan_of(rooms@[k]));
            }
        }
        let current_ti = rooms[current_room_idx].template_index;
        let current_template = &templates[current_ti];
        let candidates = exit_candidates(current_template, current_cell, occupied, last_direction);
        let ghost viable_spec = walk_exits(
            templates@,
            combat_templates@,
            elite_templates@,
            boss_templates@,
            plans0,
            last0,
            step as int,
            path_length as int,
        );
        let ghost go_pred = |exit: (DoorSide, (i32, i32))|
            walk_can_go(
                templates@,
                combat_templates@,
                elite_templates@,
                boss_templates@,
                occupied@,
                room_templates@,
                last_direction,
                step as int,
                path_length as int,
                exit.0,
            );
        proof {
            assert(viable_spec == candidates@.filter(go_pred));
            if walk_ok {
                lemma_walk_has_exit(
                    templates@,
                    combat_templates@,
                    elite_templates@,
                    boss_templates@,
                    plans0,
                    last0,
                    step as int,
                    path_length as int,
                );
                candidates@.lemma_filter_len(go_pred);
            }
        }

        if candidates.len() == 0 {
            proof {
                assert(walk_plan(
                    templates@,
                    combat_templates@,
                    elite_templates@,
                    boss_templates@,
                    plans0,
                    last0,
                    state0,
                    step as int,
                    path_length as int,
                ) == (plans0, state0));
            }
            break;
        }

        let choice = rng.next_usize(candidates.len());
        let (drawn_side, _) = candidates[choice];
        proof {
            lemma_allowed_exit(*current_template, current_cell, occupied@, last_direction, choice as int);
            assert(occupied@.last() == plans0[current_room_idx as int].1);
        }
        // Keep the drawn exit when the walk can still be finished through it, else take the
        // first exit through which it can.
        let chosen = choose_walk_side(
            templates,
            combat_templates,
            elite_templates,
            boss_templates,
            &candidates,
            occupied,
            &mut room_templates,
            last_direction,
            step,
            path_length,
            drawn_side,
            Ghost(plans0),
        );
        let side = match chosen {
            Some(side) => side,
            None => {
                proof {
                    reveal(walk_side);
                    lemma_walk_plan_step(
                        templates@,
                        combat_templates@,
                        elite_templates@,
                        boss_templates@,
                        plans0,
                        last0,
                        state0,
                        step as int,
                        path_length as int,
                        None,
                        0,
                    );
                }
                break;
            },
        };

        // Pick template: last step = boss, second to last = elite, rest = combat.
        // The new room must have a door on the entry side, and the walk must be able to
        // go on from it.
        let entry_side = side.opposite();
        let role_templates = if step == path_length - 1 {
            boss_templates
        } else if step == path_length - 2 && elite_templates.len() > 0 {
            elite_templates
        } else {
            combat_templates
        };
        let ghost role = walk_candidates(
            combat_templates@,
            elite_templates@,
            boss_templates@,
            step as int,
            path_length as int,
        );
        assert(role_templates@ == role);
        let drawn_ti = pick_template_with_door(templates, role_templates, entry_side, rng);
        assert(role.contains(drawn_ti));
        let (dx, dz) = side_step(side);
        let ghost cells0 = occupied@;
        occupied.push((current_cell.0 + dx, current_cell.1 + dz));
        let ghost next_cells = occupied@;
        proof {
            assert forall|j: int| 0 <= j < next_cells.len() implies -9 <= (#[trigger] next_cells[j]).0 <= 9
                && -9 <= next_cells[j].1 <= 9 by {
                if j < next_cells.len() - 1 {
                    assert(next_cells[j] == cells0[j]);
                }
            }
            assert(next_cells =~= cells_of(plans0).push(cell_beyond(plans0[current_room_idx as int].1, side)));
        }
        let ti = choose_walk_template(
            templates,
            combat_templates,
            elite_templates,
            boss_templates,
            role_templates,
            occupied,
            &mut room_templates,
            side,
            step,
            path_length,
            drawn_ti,
            Ghost(plans0),
            Ghost(last0),
        );
        occupied.pop();
        proof {
            assert(occupied@ =~= cells0);
            if step == path_length - 1 {
                assert(boss_templates@.contains(ti));
            } else if step == path_length - 2 && elite_templates@.len() > 0 {
                assert(elite_templates@.contains(ti));
            } else {
                assert(combat_templates@.contains(ti));
            }
            assert(templates@[ti as int].tag != RoomTag::Start);
            assert(templates@[ti as int].tag == RoomTag::Boss ==> step == path_length - 1);
        }
        let ghost before = rooms@;
        let new_room_idx = attach_room(
            rooms,
            occupied,
            Ghost(links),
            Ghost(templates@),
            current_room_idx,
            side,
            ti,
        );
        proof {
            links = links.push((current_room_idx, new_room_idx, side)).push(
                (new_room_idx, current_room_idx, opposite_side(side)),
            );
            lemma_roles_after_walk_step(before, rooms@, templates@, ti, step + 1 == path_length);
            assert forall|k: int| 1 <= k < rooms@.len() implies (#[trigger] rooms@[k]).connections@.len()
                >= 1 && rooms@[k].connections@[0].0 == k - 1 by {
                if k < before.len() {
                    assert(before[k].connections@.len() >= 1);
                }
            }
            lemma_occupied_cells(rooms@, occupied@, links, templates@);
            assert(occupied@ =~= next_cells);
            lemma_walk_plan_step(
                templates@,
                combat_templates@,
                elite_templates@,
                boss_templates@,
                plans0,
                last0,
                state0,
                step as int,
                path_length as int,
                Some(side),
                ti,
            );
        }

        room_templates.push(ti);
        proof {
            assert(room_templates@ =~= tis_of(plans_of(rooms@)));
        }
        current_cell = rooms[new_room_idx].grid_cell;
        current_room_idx = new_room_idx;
        last_direction = Some(side);
        step += 1;
    }
    proof {
        reveal(walk_roles);
        lemma_occupied_cells(rooms@, occupied@, links, templates@);
    }
    Ghost(links)
}

/// The exits of room `from` of `plans` that lead to a free cell and that a combat room can
/// be entered through (it has a door facing back), in the order North, South, East, West.
pub open spec fn branch_exits(
    templates: Seq<RoomTemplate>,
    combat: Seq<usize>,
    plans: Seq<RoomPlan>,
    from: int,
) -> Seq<(DoorSide, (i32, i32))> {
    allowed_exits(templates[plans[from].0 as int], plans[from].1, cells_of(plans), None).filter(
        |exit: (DoorSide, (i32, i32))| with_door(templates, combat, opposite_side(exit.0)).len() > 0,
    )
}

/// The exits among `exits` that a room of one of `candidates` can be entered through.
fn exits_with_fitting_template(
    templates: &Vec<RoomTemplate>,
    candidates: &Vec<usize>,
    exits: &Vec<(DoorSide, (i32, i32))>,
) -> (fitting: Vec<(DoorSide, (i32, i32))>)
    requires
        indices_below(candidates@, templates@.len() as int),
    ensures
        fitting@ == exits@.filter(
            |exit: (DoorSide, (i32, i32))|
                with_door(templates@, candidates@, opposite_side(exit.0)).len() > 0,
        ),
{
    let ghost pred = |exit: (DoorSide, (i32, i32))|
        with_door(templates@, candidates@, opposite_side(exit.0)).len() > 0;
    let mut fitting: Vec<(DoorSide, (i32, i32))> = Vec::new();
    let mut k: usize = 0;
    while k < exits.len()
        invariant
            indices_below(candidates@, templates@.len() as int),
            k <= exits@.len(),
            pred == (|exit: (DoorSide, (i32, i32))|
                with_door(templates@, candidates@, opposite_side(exit.0)).len() > 0),
            fitting@ == exits@.take(k as int).filter(pred),
        decreases exits@.len() - k,
    {
        let exit = exits[k];
        proof {
            reveal(Seq::filter);
            assert(exits@.take(k + 1).drop_last() =~= exits@.take(k as int));
            assert(exits@.take(k + 1).last() == exit);
            assert(exits@.take(k + 1).filter(pred) == (if pred(exit) {
                exits@.take(k as int).filter(pred).push(exit)
            } else {
                exits@.take(k as int).filter(pred)
            }));
        }
        let with = templates_with_door(templates, candidates, exit.0.opposite());
        if with.len() > 0 {
            fitting.push(exit);
        }
        k += 1;
    }
    assert(exits@.take(exits@.len() as int) =~= exits@);
    fitting
}

/// The first room of the critical path of `critical` rooms from room `k` on, before its
/// last room, off which a side room fits (see `branch_exits`), or `critical` if none.
pub open spec fn first_branch_room(
    templates: Seq<RoomTemplate>,
    combat: Seq<usize>,
    plans: Seq<RoomPlan>,
    k: int,
    critical: int,
) -> int
    decreases critical - k,
{
    if k >= critical - 1 {
        critical
    } else if branch_exits(templates, combat, plans, k).len() > 0 {
        k
    } else {
        first_branch_room(templates, combat, plans, k + 1, critical)
    }
}

/// The room a branch attempt attaches its side room to: the drawn room when a side room fits
/// off it; else, on a last attempt with no side room yet (`redirect`), the first room of the
/// path, other than its first and last, off which one fits; else none (`critical`).
pub open spec fn branch_room(
    templates: Seq<RoomTemplate>,
    combat: Seq<usize>,
    plans: Seq<RoomPlan>,
    drawn: int,
    critical: int,
    redirect: bool,
) -> int {
    if branch_exits(templates, combat, plans, drawn).len() > 0 {
        drawn
    } else if redirect {
        first_branch_room(templates, combat, plans, 1, critical)
    } else {
        critical
    }
}

/// The first room from `k` on off which a side room fits lies before the path's last room
/// and has such an exit, when any room from `k` on before the last has one.
proof fn lemma_first_branch_room(
    templates: Seq<RoomTemplate>,
    combat: Seq<usize>,
    plans: Seq<RoomPlan>,
    k: int,
    critical: int,
)
    ensures
        ({
            let f = first_branch_room(templates, combat, plans, k, critical);
            &&& f == critical || (k <= f < critical - 1 && branch_exits(templates, combat, plans, f).len() > 0)
            &&& (exists|j: int| k <= j < critical - 1 && #[trigger] branch_exits(templates, combat, plans, j).len() > 0)
                ==> f < critical
        }),
    decreases critical - k,
{
    if k < critical - 1 && branch_exits(templates, combat, plans, k).len() == 0 {
        lemma_first_branch_room(templates, combat, plans, k + 1, critical);
        if exists|j: int| k <= j < critical - 1 && #[trigger] branch_exits(templates, combat, plans, j).len() > 0 {
            let j = choose|j: int| k <= j < critical - 1 && #[trigger] branch_exits(templates, combat, plans, j).len() > 0;
            assert(j != k);
        }
    }
}

/// Where a side room fits off a room of the path, that room has a branch exit.
proof fn lemma_side_room_has_branch(templates: Seq<RoomTemplate>, combat: Seq<usize>, plans: Seq<RoomPlan>)
    requires
        side_room_fits(templates, combat, tis_of(plans), cells_of(plans)),
    ensures
        exists|j: int| 1 <= j < plans.len() - 1 && #[trigger] branch_exits(templates, combat, plans, j).len() > 0,
{
    let (k, side) = choose|k: int, side: DoorSide|
        1 <= k < cells_of(plans).len() - 1 && #[trigger] side_exit_fits(
            templates,
            combat,
            tis_of(plans),
            cells_of(plans),
            k,
            side,
        );
    assert(tis_of(plans)[k] == plans[k].0);
    assert(cells_of(plans)[k] == plans[k].1);
    let all = allowed_exits(templates[plans[k].0 as int], plans[k].1, cells_of(plans), None);
    lemma_allowed_exit_listed(templates[plans[k].0 as int], plans[k].1, cells_of(plans), None, side);
    let e = choose|e: int| 0 <= e < all.len() && (#[trigger] all[e]).0 == side;
    let pred = |exit: (DoorSide, (i32, i32))| with_door(templates, combat, opposite_side(exit.0)).len() > 0;
    all.lemma_filter_contains(pred, e);
    assert(branch_exits(templates, combat, plans, k).len() > 0);
}

/// The exits of room `from` of the layout that lead to a free cell and that a combat room
/// can be entered through (see `branch_exits`).
fn branch_candidates(
    templates: &Vec<RoomTemplate>,
    combat_templates: &Vec<usize>,
    rooms: &Vec<PlacedRoom>,
    occupied: &Vec<(i32, i32)>,
    from: usize,
) -> (candidates: Vec<(DoorSide, (i32, i32))>)
    requires
        from < rooms@.len(),
        rooms@[from as int].template_index < templates@.len(),
        -1000 <= rooms@[from as int].grid_cell.0 <= 1000,
        -1000 <= rooms@[from as int].grid_cell.1 <= 1000,
        occupied@ == cells_of(plans_of(rooms@)),
        indices_below(combat_templates@, templates@.len() as int),
    ensures
        candidates@ == branch_exits(templates@, combat_templates@, plans_of(rooms@), from as int),
{
    assert(plans_of(rooms@)[from as int] == plan_of(rooms@[from as int]));
    let exits = exit_candidates(&templates[rooms[from].template_index], rooms[from].grid_cell, occupied, None);
    // Keep the exits that a combat room can be entered through.
    exits_with_fitting_template(templates, combat_templates, &exits)
}

/// The rooms and generator state the branches end with, from attempt `branch` of `count`
/// on, for a critical path of `critical` rooms: each attempt draws a room of the path other
/// than its first and last (see `branch_source`); when no side room fits off it, the attempt
/// is skipped, except for the last attempt with no side room yet, which moves on to the first
/// such room off which one fits (see `branch_room`). It then draws one of that room's exits
/// (see `branch_exits`), draws a combat template for the new room and attaches it there.
/// Paths of fewer than three rooms get no branches.
pub open spec fn branch_plan(
    templates: Seq<RoomTemplate>,
    combat: Seq<usize>,
    plans: Seq<RoomPlan>,
    critical: int,
    state: u64,
    branch: int,
    count: int,
) -> (Seq<RoomPlan>, u64)
    decreases count - branch,
{
    if branch >= count || critical < 3 {
        (plans, state)
    } else {
        let drawn = 1 + draw_below(state, (critical - 2) as usize);
        let after_source = state_after_draw_below(state, (critical - 2) as usize);
        let from = branch_room(templates, combat, plans, drawn, critical, branch == count - 1 && plans.len() == critical);
        let exits = branch_exits(templates, combat, plans, from);
        if from >= critical - 1 || exits.len() == 0 {
            branch_plan(templates, combat, plans, critical, after_source, branch + 1, count)
        } else {
            let choice = draw_below(after_source, exits.len() as usize);
            let after_choice = state_after_draw_below(after_source, exits.len() as usize);
            let side = exits[choice as int].0;
            let entry_side = opposite_side(side);
            let ti = picked_template(templates, combat, entry_side, after_choice);
            let after_pick = state_after_draw_below(after_choice, pick_bound(templates, combat, entry_side));
            branch_plan(
                templates,
                combat,
                attach_plan(plans, from, side, ti),
                critical,
                after_pick,
                branch + 1,
                count,
            )
        }
    }
}

/// Whether each room of `rooms` from `c` on is a combat room that hangs off one room of the
/// critical path `0..c` other than its first and its last, and off nothing else.
pub open spec fn side_rooms_hang_off(rooms: Seq<PlacedRoom>, templates: Seq<RoomTemplate>, c: int) -> bool {
    forall|r: int|
        c <= r < rooms.len() ==> {
            &&& (#[trigger] rooms[r]).connections@.len() == 1
            &&& 1 <= rooms[r].connections@[0].0 < c - 1
            &&& room_tag(rooms, templates, r) == RoomTag::Combat
        }
}

/// Step 3 of the layout: makes 1 or 2 attempts to attach a combat room to a room of the
/// critical path other than its first and last, through a door of that room onto a free
/// cell, with a door of the new room facing back. When no side room fits off the drawn room
/// the attempt is skipped, but the last attempt, with no side room yet, takes the first room
/// of the path that has room for one, which the walk makes sure there is.
#[verifier::rlimit(60)]
#[verifier::spinoff_prover]
fn add_branch_rooms(
    templates: &Vec<RoomTemplate>,
    combat_templates: &Vec<usize>,
    rng: &mut SplitMix64,
    rooms: &mut Vec<PlacedRoom>,
    occupied: &mut Vec<(i32, i32)>,
    Ghost(links_in): Ghost<Seq<Link>>,
) -> (links: Ghost<Seq<Link>>)
    requires
        tag_indices_spec(templates@, RoomTag::Combat, combat_templates@),
        combat_templates@.len() > 0,
        walk_inv(old(rooms)@, old(occupied)@, links_in, templates@),
        old(rooms)@.len() <= 6,
        start_room_kept(old(rooms)@, templates@),
        walk_roles(old(rooms)@, templates@, true),
        chained_to_previous(old(rooms)@, old(rooms)@.len() as int),
    ensures
        walk_inv(final(rooms)@, final(occupied)@, links@, templates@),
        start_room_kept(final(rooms)@, templates@),
        floor_roles(final(rooms)@, templates@),
        old(rooms)@.len() <= final(rooms)@.len() <= old(rooms)@.len() + 2,
        forall|k: int|
            0 <= k < old(rooms)@.len() ==> (#[trigger] final(rooms)@[k]).template_index
                == old(rooms)@[k].template_index,
        chained_to_previous(final(rooms)@, old(rooms)@.len() as int),
        side_rooms_hang_off(final(rooms)@, templates@, old(rooms)@.len() as int),
        side_room_fits(
            templates@,
            combat_templates@,
            tis_of(plans_of(old(rooms)@)),
            cells_of(plans_of(old(rooms)@)),
        ) ==> final(rooms)@.len() >= old(rooms)@.len() + 1,
        (plans_of(final(rooms)@), final(rng)@) == branch_plan(
            templates@,
            combat_templates@,
            plans_of(old(rooms)@),
            old(rooms)@.len() as int,
            state_after_draw_below(old(rng)@, 2),
            0,
            1 + draw_below(old(rng)@, 2),
        ),
{
    let ghost mut links = links_in;
    let critical_path_room_count = rooms.len();
    proof {
        reveal(walk_roles);
        reveal(branch_roles);
        lemma_walk_bounds(rooms@, occupied@, links, templates@, 0);
    }
    let branch_count = 1 + rng.next_usize(2);
    let ghost target = branch_plan(
        templates@,
        combat_templates@,
        plans_of(rooms@),
        critical_path_room_count as int,
        rng@,
        0,
        branch_count as int,
    );
    let ghost fits0 = side_room_fits(
        templates@,
        combat_templates@,
        tis_of(plans_of(rooms@)),
        cells_of(plans_of(rooms@)),
    );
    let mut branch: usize = 0;
    while branch < branch_count
        invariant
            tag_indices_spec(templates@, RoomTag::Combat, combat_templates@),
            1 <= branch_count <= 2,
            branch <= branch_count,
            critical_path_room_count <= 6,
            critical_path_room_count <= rooms@.len() <= critical_path_room_count + branch,
            walk_inv(rooms@, occupied@, links, templates@),
            start_room_kept(rooms@, templates@),
            combat_templates@.len() > 0,
            branch_roles(rooms@, templates@, critical_path_room_count as int),
            critical_path_room_count == old(rooms)@.len(),
            forall|k: int|
                0 <= k < critical_path_room_count ==> (#[trigger] rooms@[k]).template_index
                    == old(rooms)@[k].template_index,
            chained_to_previous(rooms@, critical_path_room_count as int),
            side_rooms_hang_off(rooms@, templates@, critical_path_room_count as int),
            fits0 == side_room_fits(
                templates@,
                combat_templates@,
                tis_of(plans_of(old(rooms)@)),
                cells_of(plans_of(old(rooms)@)),
            ),
            rooms@.len() == critical_path_room_count ==> plans_of(rooms@) == plans_of(old(rooms)@),
            fits0 && rooms@.len() == critical_path_room_count ==> branch < branch_count,
            target == branch_plan(
                templates@,
                combat_templates@,
                plans_of(rooms@),
                critical_path_room_count as int,
                rng@,
                branch as int,
                branch_count as int,
            ),
        ensures
            target == (plans_of(rooms@), rng@),
            fits0 ==> rooms@.len() >= critical_path_room_count + 1,
        decreases branch_count - branch,
    {
        let ghost plans0 = plans_of(rooms@);
        let ghost state0 = rng@;
        // Pick a random room on the path (not start or boss) to branch from
        if critical_path_room_count < 3 {
            break;
        }
        let drawn = match pick_branch_source_index(rng, critical_path_room_count) {
            Some(index) => index,
            None => break,
        };
        proof {
            lemma_occupied_cells(rooms@, occupied@, links, templates@);
            lemma_walk_bounds(rooms@, occupied@, links, templates@, drawn as int);
        }
        let mut candidates = branch_candidates(templates, combat_templates, rooms, occupied, drawn);
        let mut branch_from = drawn;
        // When no side room fits off the drawn room, the attempt is skipped; but the last
        // attempt, with no side room yet, takes the first room of the path that has room
        // for one.
        let redirect = branch + 1 == branch_count && rooms.len() == critical_path_room_count;
        if candidates.len() == 0 && redirect {
            let mut k: usize = 1;
            while k < critical_path_room_count - 1 && candidates.len() == 0
                invariant
                    3 <= critical_path_room_count <= rooms@.len(),
                    1 <= k <= critical_path_room_count - 1,
                    walk_inv(rooms@, occupied@, links, templates@),
                    occupied@ == cells_of(plans_of(rooms@)),
                    plans0 == plans_of(rooms@),
                    indices_below(combat_templates@, templates@.len() as int),
                    candidates@.len() == 0 ==> first_branch_room(
                        templates@,
                        combat_templates@,
                        plans0,
                        1,
                        critical_path_room_count as int,
                    ) == first_branch_room(
                        templates@,
                        combat_templates@,
                        plans0,
                        k as int,
                        critical_path_room_count as int,
                    ),
                    candidates@.len() > 0 ==> first_branch_room(
                        templates@,
                        combat_templates@,
                        plans0,
                        1,
                        critical_path_room_count as int,
                    ) == branch_from && 1 <= branch_from < critical_path_room_count - 1,
                    candidates@ == branch_exits(templates@, combat_templates@, plans0, branch_from as int),
                decreases critical_path_room_count - k,
            {
                proof {
                    lemma_walk_bounds(rooms@, occupied@, links, templates@, k as int);
                }
                candidates = branch_candidates(templates, combat_templates, rooms, occupied, k);
                branch_from = k;
                k += 1;
            }
            proof {
                if candidates@.len() == 0 {
                    assert(first_branch_room(
                        templates@,
                        combat_templates@,
                        plans0,
                        k as int,
                        critical_path_room_count as int,
                    ) == critical_path_room_count);
                }
            }
        }
        let ghost from_spec = branch_room(
            templates@,
            combat_templates@,
            plans0,
            drawn as int,
            critical_path_room_count as int,
            redirect,
        );
        assert(candidates@.len() > 0 ==> from_spec == branch_from && branch_from < critical_path_room_count - 1
            && candidates@ == branch_exits(templates@, combat_templates@, plans0, from_spec));
        assert(candidates@.len() == 0 ==> from_spec >= critical_path_room_count - 1 || branch_exits(
            templates@,
            combat_templates@,
            plans0,
            from_spec,
        ).len() == 0);

        if candidates.len() == 0 {
            proof {
                if fits0 && rooms@.len() == critical_path_room_count && branch + 1 == branch_count {
                    lemma_side_room_has_branch(templates@, combat_templates@, plans0);
                    lemma_first_branch_room(
                        templates@,
                        combat_templates@,
                        plans0,
                        1,
                        critical_path_room_count as int,
                    );
                }
                assert(branch_plan(
                    templates@,
                    combat_templates@,
                    plans0,
                    critical_path_room_count as int,
                    state0,
                    branch as int,
                    branch_count as int,
                ) == branch_plan(
                    templates@,
                    combat_templates@,
                    plans0,
                    critical_path_room_count as int,
                    rng@,
                    branch + 1,
                    branch_count as int,
                ));
            }
            branch += 1;
            continue;
        }
        let branch_cell = rooms[branch_from].grid_cell;
        proof {
            lemma_walk_bounds(rooms@, occupied@, links, templates@, branch_from as int);
            assert(plans0[branch_from as int] == plan_of(rooms@[branch_from as int]));
        }
        let branch_template = &templates[rooms[branch_from].template_index];
        let ghost exits = allowed_exits(*branch_template, branch_cell, occupied@, None);

        let choice = rng.next_usize(candidates.len());
        let (side, _) = candidates[choice];
        let ghost fit_pred = |exit: (DoorSide, (i32, i32))|
            with_door(templates@, combat_templates@, opposite_side(exit.0)).len() > 0;
        proof {
            broadcast use vstd::seq_lib::group_filter_ensures;
            assert(candidates@.contains(candidates@[choice as int]));
            exits.lemma_filter_contains_rev(fit_pred, candidates@[choice as int]);
            let k = choose|k: int| 0 <= k < exits.len() && exits[k] == candidates@[choice as int];
            lemma_allowed_exit(*branch_template, branch_cell, occupied@, None, k);
            exits.lemma_filter_pred(fit_pred, choice as int);
        }

        let entry_side = side.opposite();
        let ti = pick_template_with_door(templates, combat_templates, entry_side, rng);
        assert(combat_templates@.contains(ti));
        let ghost before = rooms@;
        let new_room_idx = attach_room(
            rooms,
            occupied,
            Ghost(links),
            Ghost(templates@),
            branch_from,
            side,
            ti,
        );
        proof {
            links = links.push((branch_from, new_room_idx, side)).push(
                (new_room_idx, branch_from, opposite_side(side)),
            );
            lemma_roles_after_branch(
                before,
                rooms@,
                templates@,
                critical_path_room_count as int,
                branch_from as int,
                ti,
            );
            assert forall|k: int| 1 <= k < critical_path_room_count implies (
            #[trigger] rooms@[k]).connections@.len() >= 1 && rooms@[k].connections@[0].0 == k - 1 by {
                assert(before[k].connections@.len() >= 1);
            }
            assert forall|r: int| critical_path_room_count <= r < rooms@.len() implies {
                &&& (#[trigger] rooms@[r]).connections@.len() == 1
                &&& 1 <= rooms@[r].connections@[0].0 < critical_path_room_count - 1
                &&& room_tag(rooms@, templates@, r) == RoomTag::Combat
            } by {
                if r < before.len() {
                    assert(before[r].connections@.len() == 1);
                    assert(room_tag(before, templates@, r) == RoomTag::Combat);
                    assert(rooms@[r].template_index == before[r].template_index);
                }
            }
            assert(branch_plan(
                templates@,
                combat_templates@,
                plans0,
                critical_path_room_count as int,
                state0,
                branch as int,
                branch_count as int,
            ) == branch_plan(
                templates@,
                combat_templates@,
                plans_of(rooms@),
                critical_path_room_count as int,
                rng@,
                branch + 1,
                branch_count as int,
            ));
        }
        branch += 1;
    }
    proof {
        lemma_floor_roles(rooms@, templates@, critical_path_room_count as int);
    }
    Ghost(links)
}

/// Going through `side` at step `step` into a room of template `ti` of the step's role with
/// a door facing back, from which the walk can finish, lets the walk finish from before.
proof fn lemma_can_go_through(
    templates: Seq<RoomTemplate>,
    combat: Seq<usize>,
    elite: Seq<usize>,
    boss: Seq<usize>,
    cells: Seq<(i32, i32)>,
    tis: Seq<usize>,
    last_direction: Option<DoorSide>,
    step: int,
    path_length: int,
    side: DoorSide,
    ti: usize,
)
    requires
        step < path_length,
        exit_allowed(templates[tis.last() as int], cells.last(), cells, last_direction, side),
        walk_candidates(combat, elite, boss, step, path_length).contains(ti),
        has_door_on(templates[ti as int], opposite_side(side)),
        walk_can_finish(
            templates,
            combat,
            elite,
            boss,
            cells.push(cell_beyond(cells.last(), side)),
            tis.push(ti),
            Some(side),
            step + 1,
            path_length,
        ),
    ensures
        walk_can_finish(templates, combat, elite, boss, cells, tis, last_direction, step, path_length),
{
    let role = walk_candidates(combat, elite, boss, step, path_length);
    let pred = |t: usize| has_door_on(templates[t as int], opposite_side(side));
    let fits = fitting_templates(templates, combat, elite, boss, side, step, path_length);
    let i = choose|i: int| 0 <= i < role.len() && role[i] == ti;
    role.lemma_filter_contains(pred, i);
    let j = choose|j: int| 0 <= j < fits.len() && fits[j] == ti;
    let next = cells.push(cell_beyond(cells.last(), side));
    lemma_some_template_finishes(templates, combat, elite, boss, next, tis, side, fits, 0, step, path_length);
    assert(walk_can_finish(templates, combat, elite, boss, next, tis.push(fits[j]), Some(side), step + 1, path_length));
    assert(walk_can_go(templates, combat, elite, boss, cells, tis, last_direction, step, path_length, side));
}

/// The cells `(0, 0)` to `(0, n)` of a straight walk north from the start cell.
spec fn north_column(n: int) -> Seq<(i32, i32)> {
    Seq::new((n + 1) as nat, |i: int| (0i32, i as i32))
}

/// The template of room `k` of a straight walk north of `path_length` steps through the
/// built-in library: the start room, a combat room with doors on all four sides, combat
/// rooms with doors south and north, the elite room and the boss room.
spec fn north_room(k: int, path_length: int) -> usize {
    if k == 0 {
        0
    } else if k == path_length {
        5
    } else if k == path_length - 1 {
        4
    } else if k == 1 {
        3
    } else {
        1
    }
}

/// The templates of rooms `0` to `n` of a straight walk north of `path_length` steps.
spec fn north_rooms(n: int, path_length: int) -> Seq<usize> {
    Seq::new((n + 1) as nat, |i: int| north_room(i, path_length))
}

/// With the built-in library, the walk can finish from room `k` of a straight walk north:
/// every room on it has doors south and north, the cells ahead are free, and a side room
/// fits east of the first combat room.
proof fn lemma_north_walk_finishes(
    templates: Seq<RoomTemplate>,
    combat: Seq<usize>,
    elite: Seq<usize>,
    boss: Seq<usize>,
    path_length: int,
    k: int,
)
    requires
        is_built_in_library(templates),
        combat == seq![1usize, 2, 3],
        elite == seq![4usize],
        boss == seq![5usize],
        4 <= path_length <= 5,
        0 <= k <= path_length,
    ensures
        walk_can_finish(
            templates,
            combat,
            elite,
            boss,
            north_column(k),
            north_rooms(k, path_length),
            if k == 0 { None } else { Some(DoorSide::North) },
            k,
            path_length,
        ),
    decreases path_length - k,
{
    let cells = north_column(k);
    let tis = north_rooms(k, path_length);
    if k < path_length {
        lemma_north_walk_finishes(templates, combat, elite, boss, path_length, k + 1);
        let current = north_room(k, path_length);
        let ti = north_room(k + 1, path_length);
        assert(cells.last() == (0i32, k as i32));
        assert(tis.last() == current);
        assert(cell_beyond(cells.last(), DoorSide::North) == (0i32, (k + 1) as i32));
        assert(cells.push(cell_beyond(cells.last(), DoorSide::North)) =~= north_column(k + 1));
        assert(tis.push(ti) =~= north_rooms(k + 1, path_length));
        assert(!cells.contains((0i32, (k + 1) as i32))) by {
            if cells.contains((0i32, (k + 1) as i32)) {
                let i = choose|i: int| 0 <= i < cells.len() && cells[i] == (0i32, (k + 1) as i32);
                assert(cells[i] == (0i32, i as i32));
            }
        }
        if current == 0 {
            assert(templates[0].doors@[0].side == DoorSide::North);
        } else if current == 4 {
            assert(templates[4].doors@[1].side == DoorSide::North);
        } else if current == 3 {
            assert(templates[3].doors@[1].side == DoorSide::North);
        } else {
            assert(templates[1].doors@[1].side == DoorSide::North);
        }
        if ti == 5 {
            assert(templates[5].doors@[0].side == DoorSide::South);
            assert(boss[0] == ti);
        } else if ti == 4 {
            assert(templates[4].doors@[0].side == DoorSide::South);
            assert(elite[0] == ti);
        } else if ti == 3 {
            assert(templates[3].doors@[0].side == DoorSide::South);
            assert(combat[2] == ti);
        } else {
            assert(templates[1].doors@[0].side == DoorSide::South);
            assert(combat[0] == ti);
        }
        lemma_can_go_through(
            templates,
            combat,
            elite,
            boss,
            cells,
            tis,
            if k == 0 { None } else { Some(DoorSide::North) },
            k,
            path_length,
            DoorSide::North,
            ti,
        );
    } else {
        // A side room fits east of the first combat room, which has doors on all sides.
        assert(tis[1] == 3);
        assert(cells[1] == (0i32, 1i32));
        assert(templates[3].doors@[2].side == DoorSide::East);
        assert(!cells.contains((1i32, 1i32))) by {
            if cells.contains((1i32, 1i32)) {
                let i = choose|i: int| 0 <= i < cells.len() && cells[i] == (1i32, 1i32);
                assert(cells[i] == (0i32, i as i32));
            }
        }
        let pred = |t: usize| has_door_on(templates[t as int], DoorSide::West);
        assert(templates[2].doors@[0].side == DoorSide::West);
        assert(pred(combat[1]));
        combat.lemma_filter_contains(pred, 1);
        assert(side_exit_fits(templates, combat, tis, cells, 1, DoorSide::East));
    }
}

/// The template indices of the built-in library by tag.
proof fn lemma_built_in_tags(templates: Seq<RoomTemplate>)
    requires
        is_built_in_library(templates),
    ensures
        tag_indices(templates, RoomTag::Start) == seq![0usize],
        tag_indices(templates, RoomTag::Combat) == seq![1usize, 2, 3],
        tag_indices(templates, RoomTag::Elite) == seq![4usize],
        tag_indices(templates, RoomTag::Boss) == seq![5usize],
{
    reveal_with_fuel(tag_indices_below, 7);
    assert(tag_indices(templates, RoomTag::Start) =~= seq![0usize]);
    assert(tag_indices(templates, RoomTag::Combat) =~= seq![1usize, 2, 3]);
    assert(tag_indices(templates, RoomTag::Elite) =~= seq![4usize]);
    assert(tag_indices(templates, RoomTag::Boss) =~= seq![5usize]);
}

/// Whether the first `c` rooms form the critical path and the rest hang off it: each room
/// of the path after the first is entered from the one before it, the last room of the path
/// is the floor's only boss room and a dead end, and every room after the path is a combat
/// room that hangs off one room of the path other than its first and its last, at most two
/// of them and one at least.
pub open spec fn critical_path_layout(rooms: Seq<PlacedRoom>, templates: Seq<RoomTemplate>, c: int) -> bool {
    &&& 1 <= c < rooms.len() <= c + 2
    &&& chained_to_previous(rooms, c)
    &&& room_tag(rooms, templates, c - 1) == RoomTag::Boss
    &&& rooms[c - 1].connections@.len() == 1
    &&& forall|r: int|
        0 <= r < rooms.len() && r != c - 1 ==> #[trigger] room_tag(rooms, templates, r) != RoomTag::Boss
    &&& side_rooms_hang_off(rooms, templates, c)
}

/// The rooms of the floor that `generate_floor(seed)` lays out from `templates`: the
/// generator seeded with `seed` draws the start room's template among the start templates,
/// then the length of the critical path (4 or 5 steps), which `walk_plan` walks; then the
/// number of branch attempts (1 or 2), which `branch_plan` makes.
pub open spec fn floor_plan(templates: Seq<RoomTemplate>, seed: u64) -> Seq<RoomPlan> {
    let s0 = seeded_state(seed);
    let start = tag_indices(templates, RoomTag::Start);
    let start_ti: usize = if start.len() == 0 {
        0
    } else {
        start[draw_below(s0, start.len() as usize) as int]
    };
    let s1 = if start.len() == 0 { s0 } else { state_after_draw_below(s0, start.len() as usize) };
    let first: Seq<RoomPlan> = seq![(start_ti, (0i32, 0i32), Seq::empty())];
    let combat = tag_indices(templates, RoomTag::Combat);
    let walked = walk_plan(
        templates,
        combat,
        tag_indices(templates, RoomTag::Elite),
        tag_indices(templates, RoomTag::Boss),
        first,
        None,
        state_after_draw_below(s1, 2),
        0,
        4 + draw_below(s1, 2),
    );
    branch_plan(
        templates,
        combat,
        walked.0,
        walked.0.len() as int,
        state_after_draw_below(walked.1, 2),
        0,
        1 + draw_below(walked.1, 2),
    ).0
}

/// Whether two template libraries agree on what the layout reads of them: their length,
/// and the doors and tag of each template.
pub open spec fn same_doors_and_tags(a: Seq<RoomTemplate>, b: Seq<RoomTemplate>) -> bool {
    &&& a.len() == b.len()
    &&& forall|i: int| 0 <= i < a.len() ==> (#[trigger] a[i]).doors@ == b[i].doors@ && a[i].tag == b[i].tag
}

/// Whether every room of `plans` is built from one of `n` templates.
pub open spec fn plans_below(plans: Seq<RoomPlan>, n: int) -> bool {
    forall|k: int| 0 <= k < plans.len() ==> (#[trigger] plans[k]).0 < n
}

/// Filtering by two predicates that agree on the elements gives the same sequence.
proof fn lemma_filter_agree<A>(s: Seq<A>, p: spec_fn(A) -> bool, q: spec_fn(A) -> bool)
    requires
        forall|i: int| 0 <= i < s.len() ==> p(#[trigger] s[i]) == q(s[i]),
    ensures
        s.filter(p) == s.filter(q),
    decreases s.len(),
{
    reveal(Seq::filter);
    if s.len() > 0 {
        let t = s.drop_last();
        assert forall|i: int| 0 <= i < t.len() implies p(#[trigger] t[i]) == q(t[i]) by {
            assert(t[i] == s[i]);
        }
        lemma_filter_agree(t, p, q);
        assert(p(s.last()) == q(s.last()));
    }
}

/// A drawn index lies below its bound.
proof fn lemma_draw_below_bound(state: u64, max: usize)
    requires
        max > 0,
    ensures
        draw_below(state, max) < max,
{
    let d = crate::rng::draw(state);
    let m = max as u64;
    assert(d % m < m) by (nonlinear_arith)
        requires
            m > 0,
    ;
}

/// Libraries that agree on doors and tags pick the same templates with a door on a side.
proof fn lemma_with_door_agree(
    a: Seq<RoomTemplate>,
    b: Seq<RoomTemplate>,
    candidates: Seq<usize>,
    side: DoorSide,
)
    requires
        same_doors_and_tags(a, b),
        indices_below(candidates, a.len() as int),
    ensures
        with_door(a, candidates, side) == with_door(b, candidates, side),
        indices_below(with_door(a, candidates, side), a.len() as int),
{
    let p = |ti: usize| has_door_on(a[ti as int], side);
    let q = |ti: usize| has_door_on(b[ti as int], side);
    assert forall|i: int| 0 <= i < candidates.len() implies p(#[trigger] candidates[i]) == q(candidates[i]) by {
        assert(a[candidates[i] as int].doors@ == b[candidates[i] as int].doors@);
    }
    lemma_filter_agree(candidates, p, q);
    assert forall|k: int| 0 <= k < with_door(a, candidates, side).len() implies with_door(
        a,
        candidates,
        side,
    )[k] < a.len() by {
        broadcast use vstd::seq_lib::group_filter_ensures;
        assert(with_door(a, candidates, side).contains(with_door(a, candidates, side)[k]));
        candidates.lemma_filter_contains_rev(p, with_door(a, candidates, side)[k]);
    }
}

/// Libraries that agree on doors and tags pick the same template, and it is one of theirs.
proof fn lemma_picked_agree(
    a: Seq<RoomTemplate>,
    b: Seq<RoomTemplate>,
    candidates: Seq<usize>,
    side: DoorSide,
    state: u64,
)
    requires
        same_doors_and_tags(a, b),
        a.len() > 0,
        a.len() <= usize::MAX,
        indices_below(candidates, a.len() as int),
        candidates.len() <= usize::MAX,
    ensures
        picked_template(a, candidates, side, state) == picked_template(b, candidates, side, state),
        pick_bound(a, candidates, side) == pick_bound(b, candidates, side),
        picked_template(a, candidates, side, state) < a.len(),
{
    lemma_with_door_agree(a, b, candidates, side);
    let w = with_door(a, candidates, side);
    broadcast use vstd::seq_lib::group_filter_ensures;
    let bound = pick_bound(a, candidates, side);
    assert(bound > 0) by {
        if candidates.len() > 0 && w.len() > 0 {
            assert(w.len() <= candidates.len());
        }
    }
    lemma_draw_below_bound(state, bound);
}

/// Libraries that agree on doors and tags list the same templates of a tag.
proof fn lemma_tag_indices_agree(a: Seq<RoomTemplate>, b: Seq<RoomTemplate>, tag: RoomTag, n: int)
    requires
        same_doors_and_tags(a, b),
        n <= a.len(),
    ensures
        tag_indices_below(a, tag, n) == tag_indices_below(b, tag, n),
        indices_below(tag_indices_below(a, tag, n), a.len() as int),
        tag_indices_below(a, tag, n).len() <= if n < 0 { 0 } else { n },
    decreases n,
{
    if n > 0 {
        lemma_tag_indices_agree(a, b, tag, n - 1);
        assert(a[n - 1].tag == b[n - 1].tag);
    }
}

/// Libraries that agree on doors and tags allow the same exits.
proof fn lemma_exits_agree(
    a: Seq<RoomTemplate>,
    b: Seq<RoomTemplate>,
    ti: usize,
    cell: (i32, i32),
    occupied: Seq<(i32, i32)>,
    last_direction: Option<DoorSide>,
)
    requires
        same_doors_and_tags(a, b),
        ti < a.len(),
    ensures
        allowed_exits(a[ti as int], cell, occupied, last_direction) == allowed_exits(
            b[ti as int],
            cell,
            occupied,
            last_direction,
        ),
        forall|side: DoorSide|
            #[trigger] exit_allowed(a[ti as int], cell, occupied, last_direction, side) == exit_allowed(
                b[ti as int],
                cell,
                occupied,
                last_direction,
                side,
            ),
{
    assert(a[ti as int].doors@ == b[ti as int].doors@);
}

/// Libraries that agree on doors and tags let the walk finish from the same positions.
proof fn lemma_walk_can_finish_agree(
    a: Seq<RoomTemplate>,
    b: Seq<RoomTemplate>,
    combat: Seq<usize>,
    elite: Seq<usize>,
    boss: Seq<usize>,
    cells: Seq<(i32, i32)>,
    tis: Seq<usize>,
    last_direction: Option<DoorSide>,
    step: int,
    path_length: int,
)
    requires
        same_doors_and_tags(a, b),
        indices_below(combat, a.len() as int),
        indices_below(elite, a.len() as int),
        indices_below(boss, a.len() as int),
        indices_below(tis, a.len() as int),
        tis.len() >= 1,
        tis.len() == cells.len(),
    ensures
        walk_can_finish(a, combat, elite, boss, cells, tis, last_direction, step, path_length)
            == walk_can_finish(b, combat, elite, boss, cells, tis, last_direction, step, path_length),
    decreases path_length - step, 2int, 0int,
{
    lemma_with_door_agree(a, b, combat, DoorSide::North);
    lemma_with_door_agree(a, b, combat, DoorSide::South);
    lemma_with_door_agree(a, b, combat, DoorSide::East);
    lemma_with_door_agree(a, b, combat, DoorSide::West);
    assert forall|k: int, side: DoorSide| 1 <= k < cells.len() - 1 implies #[trigger] side_exit_fits(
        a,
        combat,
        tis,
        cells,
        k,
        side,
    ) == side_exit_fits(b, combat, tis, cells, k, side) by {
        lemma_exits_agree(a, b, tis[k], cells[k], cells, None);
        assert(exit_allowed(a[tis[k] as int], cells[k], cells, None, side) == exit_allowed(
            b[tis[k] as int],
            cells[k],
            cells,
            None,
            side,
        ));
    }
    if side_room_fits(a, combat, tis, cells) {
        let (k, side) = choose|k: int, side: DoorSide|
            1 <= k < cells.len() - 1 && #[trigger] side_exit_fits(a, combat, tis, cells, k, side);
        assert(side_exit_fits(b, combat, tis, cells, k, side));
    }
    if side_room_fits(b, combat, tis, cells) {
        let (k, side) = choose|k: int, side: DoorSide|
            1 <= k < cells.len() - 1 && #[trigger] side_exit_fits(b, combat, tis, cells, k, side);
        assert(side_exit_fits(a, combat, tis, cells, k, side));
    }
    if step < path_length {
        lemma_exits_agree(a, b, tis.last(), cells.last(), cells, last_direction);
        lemma_walk_can_go_agree(a, b, combat, elite, boss, cells, tis, last_direction, step, path_length, DoorSide::North);
        lemma_walk_can_go_agree(a, b, combat, elite, boss, cells, tis, last_direction, step, path_length, DoorSide::South);
        lemma_walk_can_go_agree(a, b, combat, elite, boss, cells, tis, last_direction, step, path_length, DoorSide::East);
        lemma_walk_can_go_agree(a, b, combat, elite, boss, cells, tis, last_direction, step, path_length, DoorSide::West);
    }
}

/// Libraries that agree on doors and tags let the walk go on through the same exits.
proof fn lemma_walk_can_go_agree(
    a: Seq<RoomTemplate>,
    b: Seq<RoomTemplate>,
    combat: Seq<usize>,
    elite: Seq<usize>,
    boss: Seq<usize>,
    cells: Seq<(i32, i32)>,
    tis: Seq<usize>,
    last_direction: Option<DoorSide>,
    step: int,
    path_length: int,
    side: DoorSide,
)
    requires
        same_doors_and_tags(a, b),
        indices_below(combat, a.len() as int),
        indices_below(elite, a.len() as int),
        indices_below(boss, a.len() as int),
        indices_below(tis, a.len() as int),
        tis.len() >= 1,
        tis.len() == cells.len(),
        step < path_length,
    ensures
        walk_can_go(a, combat, elite, boss, cells, tis, last_direction, step, path_length, side)
            == walk_can_go(b, combat, elite, boss, cells, tis, last_direction, step, path_length, side),
    decreases path_length - step, 1int, 0int,
{
    lemma_exits_agree(a, b, tis.last(), cells.last(), cells, last_direction);
    let role = walk_candidates(combat, elite, boss, step, path_length);
    lemma_with_door_agree(a, b, role, opposite_side(side));
    let fits = fitting_templates(a, combat, elite, boss, side, step, path_length);
    assert(fits == fitting_templates(b, combat, elite, boss, side, step, path_length));
    lemma_some_template_finishes_agree(
        a,
        b,
        combat,
        elite,
        boss,
        cells.push(cell_beyond(cells.last(), side)),
        tis,
        side,
        fits,
        0,
        step,
        path_length,
    );
}

/// Libraries that agree on doors and tags let the walk finish from the same templates.
proof fn lemma_some_template_finishes_agree(
    a: Seq<RoomTemplate>,
    b: Seq<RoomTemplate>,
    combat: Seq<usize>,
    elite: Seq<usize>,
    boss: Seq<usize>,
    cells: Seq<(i32, i32)>,
    tis: Seq<usize>,
    side: DoorSide,
    fits: Seq<usize>,
    k: int,
    step: int,
    path_length: int,
)
    requires
        same_doors_and_tags(a, b),
        indices_below(combat, a.len() as int),
        indices_below(elite, a.len() as int),
        indices_below(boss, a.len() as int),
        indices_below(tis, a.len() as int),
        indices_below(fits, a.len() as int),
        cells.len() == tis.len() + 1,
        step < path_length,
        0 <= k,
    ensures
        some_template_finishes(a, combat, elite, boss, cells, tis, side, fits, k, step, path_length)
            == some_template_finishes(b, combat, elite, boss, cells, tis, side, fits, k, step, path_length),
    decreases path_length - step, 0int, fits.len() - k,
{
    if k < fits.len() {
        assert(indices_below(tis.push(fits[k]), a.len() as int)) by {
            assert forall|j: int| 0 <= j < tis.push(fits[k]).len() implies tis.push(fits[k])[j] < a.len() by {
                if j < tis.len() {
                    assert(tis.push(fits[k])[j] == tis[j]);
                }
            }
        }
        lemma_walk_can_finish_agree(a, b, combat, elite, boss, cells, tis.push(fits[k]), Some(side), step + 1, path_length);
        lemma_some_template_finishes_agree(a, b, combat, elite, boss, cells, tis, side, fits, k + 1, step, path_length);
    }
}

/// Libraries that agree on doors and tags give the walk the same exits and templates.
proof fn lemma_walk_choices_agree(
    a: Seq<RoomTemplate>,
    b: Seq<RoomTemplate>,
    combat: Seq<usize>,
    elite: Seq<usize>,
    boss: Seq<usize>,
    plans: Seq<RoomPlan>,
    last_direction: Option<DoorSide>,
    step: int,
    path_length: int,
    side: DoorSide,
)
    requires
        same_doors_and_tags(a, b),
        indices_below(combat, a.len() as int),
        indices_below(elite, a.len() as int),
        indices_below(boss, a.len() as int),
        plans_below(plans, a.len() as int),
        plans.len() >= 1,
        step < path_length,
    ensures
        walk_exits(a, combat, elite, boss, plans, last_direction, step, path_length) == walk_exits(
            b,
            combat,
            elite,
            boss,
            plans,
            last_direction,
            step,
            path_length,
        ),
        walk_templates(a, combat, elite, boss, plans, side, step, path_length) == walk_templates(
            b,
            combat,
            elite,
            boss,
            plans,
            side,
            step,
            path_length,
        ),
        indices_below(walk_templates(a, combat, elite, boss, plans, side, step, path_length), a.len() as int),
{
    let current = plans.len() - 1;
    let cells = cells_of(plans);
    let tis = tis_of(plans);
    assert(indices_below(tis, a.len() as int)) by {
        assert forall|k: int| 0 <= k < tis.len() implies tis[k] < a.len() by {
            assert(plans[k].0 < a.len());
        }
    }
    lemma_exits_agree(a, b, plans[current].0, plans[current].1, cells, last_direction);
    let all = allowed_exits(a[plans[current].0 as int], plans[current].1, cells, last_direction);
    let p = |exit: (DoorSide, (i32, i32))|
        walk_can_go(a, combat, elite, boss, cells, tis, last_direction, step, path_length, exit.0);
    let q = |exit: (DoorSide, (i32, i32))|
        walk_can_go(b, combat, elite, boss, cells, tis, last_direction, step, path_length, exit.0);
    assert forall|i: int| 0 <= i < all.len() implies p(#[trigger] all[i]) == q(all[i]) by {
        lemma_walk_can_go_agree(a, b, combat, elite, boss, cells, tis, last_direction, step, path_length, all[i].0);
    }
    lemma_filter_agree(all, p, q);
    let role = walk_candidates(combat, elite, boss, step, path_length);
    lemma_with_door_agree(a, b, role, opposite_side(side));
    let fits = fitting_templates(a, combat, elite, boss, side, step, path_length);
    let next = cells.push(cell_beyond(plans[current].1, side));
    let pt = |ti: usize| walk_can_finish(a, combat, elite, boss, next, tis.push(ti), Some(side), step + 1, path_length);
    let qt = |ti: usize| walk_can_finish(b, combat, elite, boss, next, tis.push(ti), Some(side), step + 1, path_length);
    assert forall|i: int| 0 <= i < fits.len() implies pt(#[trigger] fits[i]) == qt(fits[i]) by {
        assert(indices_below(tis.push(fits[i]), a.len() as int)) by {
            assert forall|j: int| 0 <= j < tis.push(fits[i]).len() implies tis.push(fits[i])[j] < a.len() by {
                if j < tis.len() {
                    assert(tis.push(fits[i])[j] == tis[j]);
                }
            }
        }
        lemma_walk_can_finish_agree(a, b, combat, elite, boss, next, tis.push(fits[i]), Some(side), step + 1, path_length);
    }
    lemma_filter_agree(fits, pt, qt);
    assert forall|k: int| 0 <= k < fits.filter(pt).len() implies fits.filter(pt)[k] < a.len() by {
        broadcast use vstd::seq_lib::group_filter_ensures;
        assert(fits.filter(pt).contains(fits.filter(pt)[k]));
        fits.lemma_filter_contains_rev(pt, fits.filter(pt)[k]);
    }
}

/// Attaching a room of one of `n` templates keeps every room built from one of them.
proof fn lemma_attach_below(plans: Seq<RoomPlan>, from: int, side: DoorSide, ti: usize, n: int)
    requires
        plans_below(plans, n),
        0 <= from < plans.len(),
        ti < n,
    ensures
        plans_below(attach_plan(plans, from, side, ti), n),
{
    let after = attach_plan(plans, from, side, ti);
    assert forall|k: int| 0 <= k < after.len() implies (#[trigger] after[k]).0 < n by {
        if k < plans.len() {
            assert(after[k].0 == plans[k].0);
        }
    }
}

/// Libraries that agree on doors and tags walk the same critical path.
proof fn lemma_walk_plan_agree(
    a: Seq<RoomTemplate>,
    b: Seq<RoomTemplate>,
    combat: Seq<usize>,
    elite: Seq<usize>,
    boss: Seq<usize>,
    plans: Seq<RoomPlan>,
    last_direction: Option<DoorSide>,
    state: u64,
    step: int,
    path_length: int,
)
    requires
        same_doors_and_tags(a, b),
        0 < a.len() <= usize::MAX,
        indices_below(combat, a.len() as int),
        indices_below(elite, a.len() as int),
        indices_below(boss, a.len() as int),
        combat.len() <= usize::MAX,
        elite.len() <= usize::MAX,
        boss.len() <= usize::MAX,
        plans_below(plans, a.len() as int),
    ensures
        walk_plan(a, combat, elite, boss, plans, last_direction, state, step, path_length) == walk_plan(
            b,
            combat,
            elite,
            boss,
            plans,
            last_direction,
            state,
            step,
            path_length,
        ),
        plans_below(walk_plan(a, combat, elite, boss, plans, last_direction, state, step, path_length).0, a.len() as int),
        walk_plan(a, combat, elite, boss, plans, last_direction, state, step, path_length).0.len() <= plans.len()
            + if path_length > step { path_length - step } else { 0 },
    decreases path_length - step,
{
    if step < path_length && plans.len() > 0 {
        let current = plans.len() - 1;
        let cells = cells_of(plans);
        let tis = tis_of(plans);
        assert(indices_below(tis, a.len() as int)) by {
            assert forall|k: int| 0 <= k < tis.len() implies tis[k] < a.len() by {
                assert(plans[k].0 < a.len());
            }
        }
        assert(cells.last() == plans[current].1);
        assert(tis.last() == plans[current].0);
        lemma_exits_agree(a, b, plans[current].0, plans[current].1, cells, last_direction);
        let exits = allowed_exits(a[plans[current].0 as int], plans[current].1, cells, last_direction);
        if exits.len() > 0 {
            let choice = draw_below(state, exits.len() as usize);
            let after_choice = state_after_draw_below(state, exits.len() as usize);
            let drawn = exits[choice as int].0;
            lemma_walk_choices_agree(a, b, combat, elite, boss, plans, last_direction, step, path_length, drawn);
            lemma_walk_can_go_agree(a, b, combat, elite, boss, cells, tis, last_direction, step, path_length, drawn);
            reveal(walk_side);
            let side_opt = walk_side(a, combat, elite, boss, plans, last_direction, step, path_length, drawn);
            assert(side_opt == walk_side(b, combat, elite, boss, plans, last_direction, step, path_length, drawn));
            match side_opt {
                None => {
                    lemma_walk_plan_step(a, combat, elite, boss, plans, last_direction, state, step, path_length, None, 0);
                    lemma_walk_plan_step(b, combat, elite, boss, plans, last_direction, state, step, path_length, None, 0);
                },
                Some(side) => {
                    let viable = walk_exits(a, combat, elite, boss, plans, last_direction, step, path_length);
                    if side != drawn {
                        broadcast use vstd::seq_lib::group_filter_ensures;
                        let pred = |exit: (DoorSide, (i32, i32))|
                            walk_can_go(a, combat, elite, boss, cells, tis, last_direction, step, path_length, exit.0);
                        exits.lemma_filter_pred(pred, 0);
                    }
                    lemma_go_has_templates(a, combat, elite, boss, plans, last_direction, step, path_length, side);
                    lemma_walk_choices_agree(a, b, combat, elite, boss, plans, last_direction, step, path_length, side);
                    let role = walk_candidates(combat, elite, boss, step, path_length);
                    let entry_side = opposite_side(side);
                    lemma_picked_agree(a, b, role, entry_side, after_choice);
                    let drawn_ti = picked_template(a, role, entry_side, after_choice);
                    let next = cells.push(cell_beyond(plans[current].1, side));
                    assert(indices_below(tis.push(drawn_ti), a.len() as int)) by {
                        assert forall|j: int| 0 <= j < tis.push(drawn_ti).len() implies tis.push(drawn_ti)[j] < a.len() by {
                            if j < tis.len() {
                                assert(tis.push(drawn_ti)[j] == tis[j]);
                            }
                        }
                    }
                    lemma_walk_can_finish_agree(a, b, combat, elite, boss, next, tis.push(drawn_ti), Some(side), step + 1, path_length);
                    assert(a[drawn_ti as int].doors@ == b[drawn_ti as int].doors@);
                    reveal(walk_template);
                    let ti = walk_template(a, combat, elite, boss, plans, side, step, path_length, drawn_ti);
                    assert(ti == walk_template(b, combat, elite, boss, plans, side, step, path_length, drawn_ti));
                    let finishing = walk_templates(a, combat, elite, boss, plans, side, step, path_length);
                    if ti != drawn_ti {
                        assert(ti == finishing[0]);
                        assert(role.contains(finishing[0]));
                    }
                    assert(ti < a.len());
                    lemma_walk_plan_step(a, combat, elite, boss, plans, last_direction, state, step, path_length, Some(side), ti);
                    lemma_walk_plan_step(b, combat, elite, boss, plans, last_direction, state, step, path_length, Some(side), ti);
                    let after_pick = state_after_draw_below(after_choice, pick_bound(a, role, entry_side));
                    lemma_attach_below(plans, current, side, ti, a.len() as int);
                    lemma_walk_plan_agree(
                        a,
                        b,
                        combat,
                        elite,
                        boss,
                        attach_plan(plans, current, side, ti),
                        Some(side),
                        after_pick,
                        step + 1,
                        path_length,
                    );
                },
            }
        }
    }
}

/// Libraries that agree on doors and tags offer the same side-room exits and rooms.
proof fn lemma_branch_choices_agree(
    a: Seq<RoomTemplate>,
    b: Seq<RoomTemplate>,
    combat: Seq<usize>,
    plans: Seq<RoomPlan>,
    k: int,
    critical: int,
)
    requires
        same_doors_and_tags(a, b),
        indices_below(combat, a.len() as int),
        plans_below(plans, a.len() as int),
        critical <= plans.len(),
        0 <= k,
    ensures
        k < plans.len() ==> branch_exits(a, combat, plans, k) == branch_exits(b, combat, plans, k),
        first_branch_room(a, combat, plans, k, critical) == first_branch_room(b, combat, plans, k, critical),
    decreases critical - k,
{
    if 0 <= k < plans.len() {
        lemma_exits_agree(a, b, plans[k].0, plans[k].1, cells_of(plans), None);
        let all = allowed_exits(a[plans[k].0 as int], plans[k].1, cells_of(plans), None);
        let p = |exit: (DoorSide, (i32, i32))| with_door(a, combat, opposite_side(exit.0)).len() > 0;
        let q = |exit: (DoorSide, (i32, i32))| with_door(b, combat, opposite_side(exit.0)).len() > 0;
        assert forall|i: int| 0 <= i < all.len() implies p(#[trigger] all[i]) == q(all[i]) by {
            lemma_with_door_agree(a, b, combat, opposite_side(all[i].0));
        }
        lemma_filter_agree(all, p, q);
    }
    if k < critical - 1 {
        lemma_branch_choices_agree(a, b, combat, plans, k + 1, critical);
    }
}

/// Libraries that agree on doors and tags branch the same side rooms.
#[verifier::rlimit(50)]
#[verifier::spinoff_prover]
proof fn lemma_branch_plan_agree(
    a: Seq<RoomTemplate>,
    b: Seq<RoomTemplate>,
    combat: Seq<usize>,
    plans: Seq<RoomPlan>,
    critical: int,
    state: u64,
    branch: int,
    count: int,
)
    requires
        same_doors_and_tags(a, b),
        0 < a.len() <= usize::MAX,
        indices_below(combat, a.len() as int),
        combat.len() <= usize::MAX,
        plans_below(plans, a.len() as int),
        critical <= plans.len(),
        critical <= usize::MAX,
    ensures
        branch_plan(a, combat, plans, critical, state, branch, count) == branch_plan(
            b,
            combat,
            plans,
            critical,
            state,
            branch,
            count,
        ),
    decreases count - branch,
{
    if branch < count && critical >= 3 {
        let m = (critical - 2) as usize;
        let drawn = 1 + draw_below(state, m);
        let after_source = state_after_draw_below(state, m);
        lemma_draw_below_bound(state, m);
        lemma_first_branch_room(a, combat, plans, 1, critical);
        lemma_branch_choices_agree(a, b, combat, plans, drawn, critical);
        lemma_branch_choices_agree(a, b, combat, plans, 1, critical);
        let redirect = branch == count - 1 && plans.len() == critical;
        let from = branch_room(a, combat, plans, drawn, critical, redirect);
        assert(from == branch_room(b, combat, plans, drawn, critical, redirect));
        assert(1 <= from);
        lemma_branch_choices_agree(a, b, combat, plans, from, critical);
        let exits = branch_exits(a, combat, plans, from);
        if from >= critical - 1 || exits.len() == 0 {
            lemma_branch_plan_agree(a, b, combat, plans, critical, after_source, branch + 1, count);
            assert(branch_plan(a, combat, plans, critical, state, branch, count) == branch_plan(
                a,
                combat,
                plans,
                critical,
                after_source,
                branch + 1,
                count,
            ));
            assert(branch_plan(b, combat, plans, critical, state, branch, count) == branch_plan(
                b,
                combat,
                plans,
                critical,
                after_source,
                branch + 1,
                count,
            ));
        } else {
            let choice = draw_below(after_source, exits.len() as usize);
            let after_choice = state_after_draw_below(after_source, exits.len() as usize);
            let side = exits[choice as int].0;
            let entry_side = opposite_side(side);
            lemma_picked_agree(a, b, combat, entry_side, after_choice);
            let ti = picked_template(a, combat, entry_side, after_choice);
            let after_pick = state_after_draw_below(after_choice, pick_bound(a, combat, entry_side));
            lemma_attach_below(plans, from, side, ti, a.len() as int);
            let next = attach_plan(plans, from, side, ti);
            lemma_branch_plan_agree(a, b, combat, next, critical, after_pick, branch + 1, count);
            assert(branch_plan(a, combat, plans, critical, state, branch, count) == branch_plan(
                a,
                combat,
                next,
                critical,
                after_pick,
                branch + 1,
                count,
            ));
            assert(branch_plan(b, combat, plans, critical, state, branch, count) == branch_plan(
                b,
                combat,
                next,
                critical,
                after_pick,
                branch + 1,
                count,
            ));
        }
    }
}

/// The floor a seed yields depends on the template library only through the doors and tag
/// of each template: libraries that agree on them (as every copy of the built-in library
/// does) give the same rooms, cells and connections for the same seed. So two calls of
/// `generate_floor` with one seed lay out the same rooms.
pub proof fn same_seed_same_floor(a: Seq<RoomTemplate>, b: Seq<RoomTemplate>, seed: u64)
    requires
        same_doors_and_tags(a, b),
        0 < a.len() <= usize::MAX,
    ensures
        floor_plan(a, seed) == floor_plan(b, seed),
{
    let n = a.len() as int;
    lemma_tag_indices_agree(a, b, RoomTag::Start, n);
    lemma_tag_indices_agree(a, b, RoomTag::Combat, n);
    lemma_tag_indices_agree(a, b, RoomTag::Elite, n);
    lemma_tag_indices_agree(a, b, RoomTag::Boss, n);
    let s0 = seeded_state(seed);
    let start = tag_indices(a, RoomTag::Start);
    let start_ti: usize = if start.len() == 0 {
        0
    } else {
        start[draw_below(s0, start.len() as usize) as int]
    };
    if start.len() > 0 {
        lemma_draw_below_bound(s0, start.len() as usize);
    }
    let s1 = if start.len() == 0 { s0 } else { state_after_draw_below(s0, start.len() as usize) };
    let first: Seq<RoomPlan> = seq![(start_ti, (0i32, 0i32), Seq::empty())];
    assert(plans_below(first, n));
    let combat = tag_indices(a, RoomTag::Combat);
    let elite = tag_indices(a, RoomTag::Elite);
    let boss = tag_indices(a, RoomTag::Boss);
    lemma_walk_plan_agree(a, b, combat, elite, boss, first, None, state_after_draw_below(s1, 2), 0, 4 + draw_below(s1, 2));
    let walked = walk_plan(a, combat, elite, boss, first, None, state_after_draw_below(s1, 2), 0, 4 + draw_below(s1, 2));
    lemma_branch_plan_agree(
        a,
        b,
        combat,
        walked.0,
        walked.0.len() as int,
        state_after_draw_below(walked.1, 2),
        0,
        1 + draw_below(walked.1, 2),
    );
}

/// Two copies of the built-in library agree on the doors and tag of each template.
pub proof fn built_in_libraries_agree(a: Seq<RoomTemplate>, b: Seq<RoomTemplate>)
    requires
        is_built_in_library(a),
        is_built_in_library(b),
    ensures
        same_doors_and_tags(a, b),
{
}

/// Generate a floor layout.
///
/// The algorithm:
/// 1. Place a start room at (0,0) on a coarse grid.
/// 2. Random-walk outward 4 or 5 steps, placing combat rooms at each step, an elite room
///    one step before the end; every new room has a door on its entry side, and where a
///    drawn step could not be completed the walk takes the first one that can.
/// 3. The farthest room from start, where the walk ends, becomes the boss room.
/// 4. Branch 1-2 side rooms off the critical path.
/// 5. Lay one corridor per connected pair of rooms, from door to door.
#[verifier::rlimit(60)]
#[verifier::spinoff_prover]
pub fn generate_floor(seed: u64) -> (map: FloorMap)
    ensures
        is_built_in_library(map.templates@),
        map.start_room == 0,
        6 <= map.rooms@.len() <= 8,
        map.rooms@[0].grid_cell == (0i32, 0i32),
        map.templates@[map.rooms@[0].template_index as int].tag == RoomTag::Start,
        forall|i: int|
            0 <= i < map.rooms@.len() ==> (#[trigger] map.rooms@[i]).template_index
                < map.templates@.len() && map.rooms@[i].world_center == cell_center(
                map.rooms@[i].grid_cell,
            ),
        forall|a: int, b: int|
            0 <= a < b < map.rooms@.len() ==> (#[trigger] map.rooms@[a]).grid_cell
                != (#[trigger] map.rooms@[b]).grid_cell,
        forall|i: int, j: int, side: DoorSide|
            0 <= i < map.rooms@.len() && #[trigger] is_connection(map.rooms@, i, j, side) ==> {
                &&& 0 <= j < map.rooms@.len()
                &&& adjacent_through(map.rooms@[i].grid_cell, map.rooms@[j].grid_cell, side)
                &&& is_connection(map.rooms@, j, i, opposite_side(side))
                &&& has_door_on(map.templates@[map.rooms@[i].template_index as int], side)
                &&& door_toward_side(map.templates@[map.rooms@[i].template_index as int], side) matches Some(
                    door,
                ) && door.side == side
            },
        exists|c: int| 5 <= c <= 6 && #[trigger] critical_path_layout(map.rooms@, map.templates@, c),
        forall|r: int|
            1 <= r < map.rooms@.len() ==> #[trigger] connects_to_earlier_room(map.rooms@, r),
        corridors_sound(map.corridors@, map.rooms@, map.templates@),
        connections_have_corridors(map.corridors@, map.rooms@, map.templates@),
        floor_roles(map.rooms@, map.templates@),
        plans_of(map.rooms@) == floor_plan(map.templates@, seed),
        map.corridors@ == floor_corridors(map.rooms@, map.templates@),
        map.corridors@.len() == connected_pairs(map.rooms@).len(),
        map.corridors@.len() == map.rooms@.len() - 1,
{
    let templates = built_in_templates();
    let mut rng = SplitMix64::new(seed);

    // Find template indices by tag
    let start_templates = template_indices_with_tag(&templates, RoomTag::Start);
    let combat_templates = template_indices_with_tag(&templates, RoomTag::Combat);
    let elite_templates = template_indices_with_tag(&templates, RoomTag::Elite);
    let boss_templates = template_indices_with_tag(&templates, RoomTag::Boss);

    let mut rooms: Vec<PlacedRoom> = Vec::new();
    let mut occupied: Vec<(i32, i32)> = Vec::new();

    // 1. Place start room at (0, 0)
    assert(templates@[0].tag == RoomTag::Start);
    assert(start_templates@.contains(0usize));
    let start_ti = if start_templates.len() == 0 {
        0
    } else {
        start_templates[rng.next_usize(start_templates.len())]
    };
    rooms.push(
        PlacedRoom {
            template_index: start_ti,
            world_center: GroundPoint { x: 0, z: 0 },
            grid_cell: (0, 0),
            connections: Vec::new(),
        },
    );
    occupied.push((0, 0));
    let ghost links: Seq<Link> = Seq::empty();
    proof {
        let first: Seq<RoomPlan> = seq![(start_ti, (0i32, 0i32), Seq::empty())];
        assert(plans_of(rooms@) =~= first);
        assert(rooms@[0].connections@ =~= conns_from(links, 0));
        assert(cell_center((0i32, 0i32)) == GroundPoint { x: 0, z: 0 });
        reveal(walk_inv);
    }

    // 2. Critical path: walk 4-5 rooms in random directions
    proof {
        lemma_built_in_tags(templates@);
        assert(start_ti == 0);
        assert(cells_of(plans_of(rooms@)) =~= north_column(0));
        assert(tis_of(plans_of(rooms@)) =~= north_rooms(0, 4 + draw_below(rng@, 2)));
        lemma_north_walk_finishes(
            templates@,
            combat_templates@,
            elite_templates@,
            boss_templates@,
            4 + draw_below(rng@, 2),
            0,
        );
    }
    let Ghost(links) = walk_critical_path(
        &templates,
        &combat_templates,
        &elite_templates,
        &boss_templates,
        &mut rng,
        &mut rooms,
        &mut occupied,
        Ghost(links),
    );

    // 3. Branch 1-2 side rooms off the critical path
    let ghost critical = rooms@.len() as int;
    let ghost walked = rooms@;
    let Ghost(links) = add_branch_rooms(
        &templates,
        &combat_templates,
        &mut rng,
        &mut rooms,
        &mut occupied,
        Ghost(links),
    );

    // 4. Build corridors
    proof {
        lemma_walk_laws(rooms@, occupied@, links, templates@);
        lemma_walk_bounds(rooms@, occupied@, links, templates@, 0);
        reveal(walk_inv);
    }
    let corridors = build_corridors(&rooms, &templates);
    proof {
        lemma_one_corridor_per_pair(rooms@, templates@);
        lemma_connected_pairs_count(rooms@, occupied@, links, templates@);
        assert(room_tag(rooms@, templates@, critical - 1) == room_tag(walked, templates@, critical - 1));
        assert forall|r: int|
            0 <= r < rooms@.len() && r != critical - 1 implies #[trigger] room_tag(rooms@, templates@, r)
            != RoomTag::Boss by {
            if room_tag(rooms@, templates@, r) == RoomTag::Boss {
                if r < critical - 1 {
                    assert(room_tag(rooms@, templates@, critical - 1) == RoomTag::Boss);
                } else {
                    assert(room_tag(rooms@, templates@, critical - 1) == RoomTag::Boss);
                }
            }
        }
        assert(critical_path_layout(rooms@, templates@, critical));
        assert forall|i: int, j: int, side: DoorSide|
            0 <= i < rooms@.len() && #[trigger] is_connection(rooms@, i, j, side) implies door_toward_side(
            templates@[rooms@[i].template_index as int],
            side,
        ) matches Some(door) && door.side == side by {
            door_toward_side_with_door(templates@[rooms@[i].template_index as int], side);
        }
    }

    FloorMap { rooms, corridors, templates, start_room: 0 }
}

} // verus!
