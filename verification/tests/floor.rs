use rust_arpg::rng::SplitMix64;
use rust_arpg::world::floor::{
    generate_floor, pick_branch_source_index, pick_template_with_door, FloorMap,
    COARSE_CELL_SIZE,
};
use rust_arpg::world::room::{built_in_templates, DoorSide, RoomTag};
use rust_arpg::world::{floor_extents, GroundPoint};

#[test]
fn branch_sources_stay_on_critical_path_interior() {
    let mut rng = SplitMix64::new(123);

    for _ in 0..128 {
        let source = pick_branch_source_index(&mut rng, 6).unwrap();
        assert!((1..5).contains(&source));
    }
}

#[test]
fn short_critical_paths_have_no_branch_source() {
    let mut rng = SplitMix64::new(123);

    assert_eq!(pick_branch_source_index(&mut rng, 0), None);
    assert_eq!(pick_branch_source_index(&mut rng, 1), None);
    assert_eq!(pick_branch_source_index(&mut rng, 2), None);
}

fn step(side: DoorSide) -> (i32, i32) {
    match side {
        DoorSide::North => (0, 1),
        DoorSide::South => (0, -1),
        DoorSide::East => (1, 0),
        DoorSide::West => (-1, 0),
    }
}

fn check_layout(map: &FloorMap) {
    assert_eq!(map.start_room, 0);
    assert!(!map.rooms.is_empty() && map.rooms.len() <= 8);
    assert_eq!(map.rooms[0].grid_cell, (0, 0));
    assert_eq!(map.templates[map.rooms[0].template_index].tag, RoomTag::Start);
    for (i, room) in map.rooms.iter().enumerate() {
        assert_eq!(room.world_center.x, room.grid_cell.0 as i64 * COARSE_CELL_SIZE);
        assert_eq!(room.world_center.z, room.grid_cell.1 as i64 * COARSE_CELL_SIZE);
        for other in &map.rooms[i + 1..] {
            assert_ne!(room.grid_cell, other.grid_cell);
        }
        if i > 0 {
            assert!(room.connections.iter().any(|&(j, _)| j < i));
        }
        for &(j, side) in &room.connections {
            let (dx, dz) = step(side);
            assert_eq!(map.rooms[j].grid_cell, (room.grid_cell.0 + dx, room.grid_cell.1 + dz));
            assert!(map.rooms[j].connections.contains(&(i, side.opposite())));
            assert!(map.templates[room.template_index].has_door(side));
            assert_eq!(map.templates[room.template_index].door_toward(side).unwrap().side, side);
        }
    }
    let links: usize = map.rooms.iter().map(|r| r.connections.len()).sum();
    assert_eq!(links, 2 * (map.rooms.len() - 1));
    assert_eq!(map.corridors.len(), map.rooms.len() - 1);
    for corridor in &map.corridors {
        assert_eq!(corridor.width, 3);
    }
    let tag = |r: usize| map.templates[map.rooms[r].template_index].tag;
    assert!((1..map.rooms.len()).all(|r| tag(r) != RoomTag::Start));
    assert_eq!(map.rooms[0].connections.len(), if map.rooms.len() > 1 { 1 } else { 0 });
    let bosses: Vec<usize> = (0..map.rooms.len()).filter(|&r| tag(r) == RoomTag::Boss).collect();
    assert!(bosses.len() <= 1);
    for &b in &bosses {
        assert_eq!(map.rooms[b].connections.len(), 1);
    }
}

/// The number of rooms on the critical path: the boss room is its last.
fn critical_rooms(map: &FloorMap) -> usize {
    let tag = |r: usize| map.templates[map.rooms[r].template_index].tag;
    let bosses: Vec<usize> = (0..map.rooms.len()).filter(|&r| tag(r) == RoomTag::Boss).collect();
    assert_eq!(bosses.len(), 1);
    bosses[0] + 1
}

#[test]
fn every_floor_ends_its_critical_path_in_the_boss_room() {
    for seed in 0..300u64 {
        let map = generate_floor(seed);
        let c = critical_rooms(&map);
        assert!(c == 5 || c == 6, "seed {seed}: {c} critical rooms");
        for k in 1..c {
            assert_eq!(map.rooms[k].connections[0].0, k - 1);
        }
        assert_eq!(map.rooms[c - 1].connections.len(), 1);
    }
}

#[test]
fn every_floor_branches_one_or_two_side_rooms() {
    for seed in 0..300u64 {
        let map = generate_floor(seed);
        let c = critical_rooms(&map);
        let side_rooms = map.rooms.len() - c;
        assert!((1..=2).contains(&side_rooms), "seed {seed}: {side_rooms} side rooms");
        for r in c..map.rooms.len() {
            let room = &map.rooms[r];
            assert_eq!(map.templates[room.template_index].tag, RoomTag::Combat);
            assert_eq!(room.connections.len(), 1);
            assert!(room.connections[0].0 >= 1 && room.connections[0].0 < c - 1);
        }
    }
}

#[test]
fn seed_zero_enters_the_boss_room_through_its_door() {
    let map = generate_floor(0);
    let c = critical_rooms(&map);
    let boss = &map.rooms[c - 1];
    let (previous, side) = boss.connections[0];
    assert_eq!(previous, c - 2);
    assert_eq!(side, DoorSide::South);
    assert!(map.templates[boss.template_index].has_door(side));
}

#[test]
fn seed_three_has_a_side_room() {
    let map = generate_floor(3);
    let c = critical_rooms(&map);
    assert!(map.rooms.len() > c);
}

#[test]
fn generated_floors_keep_their_layout_laws() {
    for seed in 0..200u64 {
        check_layout(&generate_floor(seed));
    }
}

#[test]
fn same_seed_produces_same_floor() {
    let a = generate_floor(123);
    let b = generate_floor(123);
    assert_eq!(a.rooms.len(), b.rooms.len());
    for (ra, rb) in a.rooms.iter().zip(b.rooms.iter()) {
        assert_eq!(ra.template_index, rb.template_index);
        assert_eq!(ra.grid_cell, rb.grid_cell);
        assert_eq!(ra.connections, rb.connections);
    }
    assert_eq!(a.corridors, b.corridors);
}

#[test]
fn corridors_run_from_door_to_door() {
    let map = generate_floor(7);
    let first = map.corridors[0];
    let room = &map.rooms[0];
    let (neighbor, side) = room.connections[0];
    let template = &map.templates[room.template_index];
    let door = template.door_toward(side).unwrap();
    let offset = template.door_world_offset(&door);
    assert_eq!(
        first.start,
        GroundPoint { x: room.world_center.x + offset.x, z: room.world_center.z + offset.z }
    );
    let other = &map.rooms[neighbor];
    let other_template = &map.templates[other.template_index];
    let other_door = other_template.door_toward(side.opposite()).unwrap();
    let other_offset = other_template.door_world_offset(&other_door);
    assert_eq!(
        first.end,
        GroundPoint { x: other.world_center.x + other_offset.x, z: other.world_center.z + other_offset.z }
    );
}

#[test]
fn picked_templates_prefer_an_entry_door() {
    let templates = built_in_templates();
    let mut rng = SplitMix64::new(5);
    // The narrow combat room has no West door; the other two combat rooms have one.
    for _ in 0..16 {
        let picked = pick_template_with_door(&templates, &vec![1, 2, 3], DoorSide::West, &mut rng);
        assert!(picked == 2 || picked == 3);
        assert_eq!(pick_template_with_door(&templates, &vec![1, 2], DoorSide::West, &mut rng), 2);
    }
    // No boss room has a North door: falls back to the boss room anyway.
    assert_eq!(pick_template_with_door(&templates, &vec![5], DoorSide::North, &mut rng), 5);
    // Without candidates any template may come.
    assert!(pick_template_with_door(&templates, &vec![], DoorSide::North, &mut rng) < 6);
}

#[test]
fn floor_extents_hold_every_room() {
    let map = generate_floor(99);
    let extents = floor_extents(&map).unwrap();
    for room in &map.rooms {
        let template = &map.templates[room.template_index];
        assert!(extents.min_x <= room.world_center.x - template.half_extent_x());
        assert!(extents.max_x >= room.world_center.x + template.half_extent_x());
        assert!(extents.min_z <= room.world_center.z - template.half_extent_z());
        assert!(extents.max_z >= room.world_center.z + template.half_extent_z());
    }
    // The start room alone: 12x12 tiles around the origin.
    let single = FloorMap {
        rooms: vec![rust_arpg::world::floor::PlacedRoom {
            template_index: 0,
            world_center: GroundPoint { x: 0, z: 0 },
            grid_cell: (0, 0),
            connections: vec![],
        }],
        corridors: vec![],
        templates: built_in_templates(),
        start_room: 0,
    };
    let e = floor_extents(&single).unwrap();
    assert_eq!((e.min_x, e.max_x, e.min_z, e.max_z), (-11, 11, -11, 11));
    let empty = FloorMap { rooms: vec![], corridors: vec![], templates: vec![], start_room: 0 };
    assert!(floor_extents(&empty).is_none());
}

#[test]
fn connected_sides_list_each_connection_side() {
    let map = generate_floor(11);
    for room in &map.rooms {
        let sides = room.connected_sides();
        let expected: Vec<DoorSide> = room.connections.iter().map(|&(_, side)| side).collect();
        assert_eq!(sides, expected);
    }
    let room = rust_arpg::world::floor::PlacedRoom {
        template_index: 0,
        world_center: GroundPoint { x: 0, z: 0 },
        grid_cell: (0, 0),
        connections: vec![(1, DoorSide::North), (2, DoorSide::West)],
    };
    assert_eq!(room.connected_sides(), vec![DoorSide::North, DoorSide::West]);
}
