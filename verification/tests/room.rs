use rust_arpg::world::room::{
    built_in_templates, DoorSide, DoorSlot, EnemySlot, RoomTag, RoomTemplate,
};
use rust_arpg::world::GroundPoint;

#[test]
fn odd_width_door_gaps_match_requested_width() {
    let door = DoorSlot { side: DoorSide::North, position: 6, width: 3 };

    let gap_tiles: Vec<_> = (0..14).filter(|&tile| door.axis_range().contains(&tile)).collect();
    assert_eq!(gap_tiles, vec![5, 6, 7]);
}

#[test]
fn even_width_door_gaps_match_requested_width() {
    let door = DoorSlot { side: DoorSide::South, position: 11, width: 4 };

    let gap_tiles: Vec<_> = (0..22).filter(|&tile| door.axis_range().contains(&tile)).collect();
    assert_eq!(gap_tiles, vec![9, 10, 11, 12]);
}

#[test]
fn even_width_doors_center_on_half_tiles() {
    let template = RoomTemplate {
        width: 22,
        height: 22,
        doors: vec![],
        enemies: vec![],
        tag: RoomTag::Boss,
        obelisks: false,
    };
    let door = DoorSlot { side: DoorSide::South, position: 11, width: 4 };

    assert_eq!(template.door_world_offset(&door).x, 0);
}

#[test]
fn opposite_sides_pair_up() {
    assert_eq!(DoorSide::North.opposite(), DoorSide::South);
    assert_eq!(DoorSide::South.opposite(), DoorSide::North);
    assert_eq!(DoorSide::East.opposite(), DoorSide::West);
    assert_eq!(DoorSide::West.opposite(), DoorSide::East);
}

#[test]
fn room_geometry_in_world_units() {
    let templates = built_in_templates();
    let start = &templates[0];
    assert_eq!(RoomTemplate::tile_size(), 2);
    assert_eq!(start.half_extent_x(), 11);
    assert_eq!(start.half_extent_z(), 11);
    assert_eq!(start.grid_to_local(0, 0), GroundPoint { x: -11, z: -11 });
    assert_eq!(start.grid_to_local(11, 11), GroundPoint { x: 11, z: 11 });
    // North door at position 6, width 3: centred on tile 6.
    assert_eq!(start.door_world_offset(&start.doors[0]), GroundPoint { x: 1, z: 11 });
    // East door at position 6, width 3.
    assert_eq!(start.door_world_offset(&start.doors[1]), GroundPoint { x: 11, z: 1 });
    let west = DoorSlot { side: DoorSide::West, position: 3, width: 2 };
    assert_eq!(west.axis_center_doubled(), 5);
    assert_eq!(start.door_world_offset(&west), GroundPoint { x: -11, z: -6 });
}

#[test]
fn built_in_library_has_one_start_and_one_boss_room() {
    let templates = built_in_templates();
    assert_eq!(templates.len(), 6);
    let tags: Vec<RoomTag> = templates.iter().map(|t| t.tag).collect();
    assert_eq!(
        tags,
        vec![
            RoomTag::Start,
            RoomTag::Combat,
            RoomTag::Combat,
            RoomTag::Combat,
            RoomTag::Elite,
            RoomTag::Boss,
        ]
    );
    assert!(templates[0].enemies.is_empty());
    assert_eq!(templates[5].doors.len(), 1);
    assert_eq!(templates[5].doors[0].width, 4);
    assert_eq!(templates[4].enemies.iter().filter(|e| e.kind == EnemySlot::Goblin).count(), 3);
    assert!(templates[3].obelisks && !templates[2].obelisks);
}

#[test]
fn door_lookup_prefers_the_requested_side() {
    let templates = built_in_templates();
    let medium = &templates[2];
    assert!(medium.has_door(DoorSide::North));
    assert!(!medium.has_door(DoorSide::South));
    assert_eq!(medium.door_toward(DoorSide::East).map(|d| d.side), Some(DoorSide::East));
    // No South door: falls back to the first door.
    assert_eq!(medium.door_toward(DoorSide::South).map(|d| d.side), Some(DoorSide::West));
    let bare = RoomTemplate {
        width: 4,
        height: 4,
        doors: vec![],
        enemies: vec![],
        tag: RoomTag::Combat,
        obelisks: false,
    };
    assert!(bare.door_toward(DoorSide::North).is_none());
}
