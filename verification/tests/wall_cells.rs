use rust_arpg::world::wall_cells::WallCells;

#[test]
fn walls_are_listed_in_every_cell_they_cover() {
    let mut cells = WallCells::new();
    assert!(cells.walls_in((0, 0)).is_none());
    cells.rebuild(&vec![((0, 0), (1, 0)), ((1, -1), (1, 1)), ((5, 5), (4, 4)), ((-2, 3), (-2, 3))]);
    assert_eq!(cells.walls_in((0, 0)), Some(&vec![0]));
    assert_eq!(cells.walls_in((1, 0)), Some(&vec![0, 1]));
    assert_eq!(cells.walls_in((1, -1)), Some(&vec![1]));
    assert_eq!(cells.walls_in((1, 1)), Some(&vec![1]));
    assert_eq!(cells.walls_in((-2, 3)), Some(&vec![3]));
    // An empty range lists its wall nowhere.
    assert!(cells.walls_in((5, 5)).is_none());
    assert!(cells.walls_in((4, 4)).is_none());
    assert!(cells.walls_in((2, 0)).is_none());
}

#[test]
fn rebuilding_forgets_the_old_walls() {
    let mut cells = WallCells::new();
    cells.rebuild(&vec![((0, 0), (0, 0))]);
    cells.rebuild(&vec![((3, 3), (3, 3))]);
    assert!(cells.walls_in((0, 0)).is_none());
    assert_eq!(cells.walls_in((3, 3)), Some(&vec![0]));
}

#[test]
fn extreme_cells_keep_apart() {
    let mut cells = WallCells::new();
    cells.rebuild(&vec![
        ((i32::MIN, i32::MAX), (i32::MIN, i32::MAX)),
        ((i32::MAX, i32::MIN), (i32::MAX, i32::MIN)),
        ((-1, -1), (0, 0)),
    ]);
    assert_eq!(cells.walls_in((i32::MIN, i32::MAX)), Some(&vec![0]));
    assert_eq!(cells.walls_in((i32::MAX, i32::MIN)), Some(&vec![1]));
    assert_eq!(cells.walls_in((-1, 0)), Some(&vec![2]));
    assert_eq!(cells.walls_in((0, -1)), Some(&vec![2]));
}
