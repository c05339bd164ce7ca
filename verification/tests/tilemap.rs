use rust_arpg::world::room::{built_in_templates, DoorSide, DoorSlot, RoomTag, RoomTemplate};
use rust_arpg::world::tilemap::{
    corridor_layout, grid_to_world, is_connected_door_gap, obelisk_positions, room_floor_tiles,
    room_wall_segments, FloorTilePlacement, TileShade, WallPlacement,
};
use rust_arpg::world::GroundPoint;

fn p(x: i64, z: i64) -> GroundPoint {
    GroundPoint { x, z }
}

fn wall(x: i64, z: i64, along_x: bool) -> WallPlacement {
    WallPlacement { center: p(x, z), along_x }
}

fn small_room(obelisks: bool) -> RoomTemplate {
    RoomTemplate {
        width: 3,
        height: 2,
        doors: vec![DoorSlot { side: DoorSide::North, position: 1, width: 1 }],
        enemies: vec![],
        tag: RoomTag::Combat,
        obelisks,
    }
}

#[test]
fn grid_coordinates_map_around_the_room_center() {
    let templates = built_in_templates();
    // The start room is 12 tiles wide: its first tile sits 11 units from the center.
    assert_eq!(grid_to_world(p(0, 0), &templates[0], 0, 0), p(-11, -11));
    assert_eq!(grid_to_world(p(100, 50), &templates[0], 11, 0), p(111, 39));
    assert_eq!(grid_to_world(p(0, 0), &templates[0], 6, 6), p(1, 1));
}

#[test]
fn door_gaps_open_only_on_connected_sides() {
    let room = small_room(false);
    assert!(is_connected_door_gap(&room, 1, 1, &vec![DoorSide::North]));
    assert!(!is_connected_door_gap(&room, 1, 1, &vec![DoorSide::South, DoorSide::East]));
    assert!(!is_connected_door_gap(&room, 0, 1, &vec![DoorSide::North]));
    assert!(!is_connected_door_gap(&room, 1, 0, &vec![DoorSide::North]));
    // The start room's East door spans rows 5..8 of its last column.
    let start = &built_in_templates()[0];
    let sides = vec![DoorSide::East];
    let east_gap: Vec<i32> = (0..12).filter(|&gz| is_connected_door_gap(start, 11, gz, &sides)).collect();
    assert!(!east_gap.is_empty());
    assert!(east_gap.iter().all(|&gz| !is_connected_door_gap(start, 10, gz, &sides)));
}

#[test]
fn room_floors_checker_their_interior() {
    let templates = built_in_templates();
    let tiles = room_floor_tiles(&templates[0], p(0, 0));
    assert_eq!(tiles.len(), 144);
    assert_eq!(tiles[0], FloorTilePlacement { position: p(-11, -11), shade: TileShade::Border });
    assert_eq!(tiles[12 + 1], FloorTilePlacement { position: p(-9, -9), shade: TileShade::Dark });
    assert_eq!(tiles[12 + 2], FloorTilePlacement { position: p(-9, -7), shade: TileShade::Light });
    assert_eq!(tiles[143], FloorTilePlacement { position: p(11, 11), shade: TileShade::Border });
}

#[test]
fn obelisks_stand_two_tiles_in_from_each_corner() {
    let mut room = small_room(true);
    room.width = 10;
    room.height = 8;
    assert_eq!(
        obelisk_positions(&room, p(100, 50)),
        vec![p(95, 47), p(95, 53), p(105, 47), p(105, 53)]
    );
    room.obelisks = false;
    assert!(obelisk_positions(&room, p(100, 50)).is_empty());
}

#[test]
fn room_walls_leave_gaps_only_at_connected_doors() {
    let room = small_room(false);
    let connected = room_wall_segments(&room, p(0, 0), &vec![DoorSide::North]);
    assert_eq!(
        connected,
        vec![
            wall(-2, 2, true),
            wall(-2, -2, true),
            wall(0, -2, true),
            wall(2, 2, true),
            wall(2, -2, true),
            wall(3, -1, false),
            wall(-3, -1, false),
            wall(3, 1, false),
            wall(-3, 1, false),
        ]
    );
    let sealed = room_wall_segments(&room, p(0, 0), &vec![]);
    assert_eq!(sealed.len(), 10);
    assert_eq!(sealed[2], wall(0, 2, true));
}

#[test]
fn corridors_lay_rows_of_tiles_and_skip_walls_at_the_ends() {
    let layout = corridor_layout(p(0, 0), p(6, 1), 3);
    assert_eq!(
        layout.tiles,
        vec![
            p(0, -2), p(0, 0), p(0, 2),
            p(2, -2), p(2, 0), p(2, 2),
            p(4, -2), p(4, 0), p(4, 2),
            p(6, -2), p(6, 0), p(6, 2),
        ]
    );
    assert_eq!(
        layout.walls,
        vec![wall(2, -3, true), wall(2, 3, true), wall(4, -3, true), wall(4, 3, true)]
    );
}

#[test]
fn corridors_step_toward_negative_ends() {
    let layout = corridor_layout(p(0, 0), p(1, -4), 1);
    assert_eq!(layout.tiles, vec![p(0, 0), p(0, -2), p(0, -4)]);
    assert_eq!(layout.walls, vec![wall(-1, -2, false), wall(1, -2, false)]);
    // An odd span rounds up to a whole tile step.
    let odd = corridor_layout(p(10, 0), p(3, 0), 1);
    assert_eq!(odd.tiles, vec![p(10, 0), p(8, 0), p(6, 0), p(4, 0), p(2, 0)]);
}

#[test]
fn zero_length_corridors_are_one_row_without_walls() {
    let layout = corridor_layout(p(5, 5), p(5, 5), 3);
    assert_eq!(layout.tiles, vec![p(3, 5), p(5, 5), p(7, 5)]);
    assert!(layout.walls.is_empty());
}

#[test]
fn rooms_without_connections_are_fully_walled() {
    for template in &built_in_templates() {
        let sealed = room_wall_segments(template, p(0, 0), &vec![]);
        assert_eq!(sealed.len() as i32, 2 * (template.width + template.height));
        let all_sides = vec![DoorSide::North, DoorSide::South, DoorSide::East, DoorSide::West];
        let open = room_wall_segments(template, p(0, 0), &all_sides);
        assert!(open.len() < sealed.len());
    }
}

#[test]
fn connected_doors_open_their_width_in_the_walls() {
    let templates = built_in_templates();
    let start = &templates[0];
    assert_eq!(room_wall_segments(start, p(0, 0), &vec![DoorSide::North]).len(), 45);
    assert_eq!(room_wall_segments(start, p(0, 0), &vec![DoorSide::North, DoorSide::East]).len(), 42);
    let medium = &templates[2];
    let all = vec![DoorSide::West, DoorSide::East, DoorSide::North];
    assert_eq!(room_wall_segments(medium, p(0, 0), &all).len(), 2 * (18 + 14) - 9);
    let boss = &templates[5];
    assert_eq!(room_wall_segments(boss, p(0, 0), &vec![DoorSide::South]).len(), 2 * (22 + 22) - 4);
}
