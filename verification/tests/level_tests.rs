use grid_engine::level::Level;

#[test]
fn debug_level_is_24_by_24() {
    let level = Level::debug_1().unwrap();
    assert_eq!(level.size, (24, 24));
    assert_eq!(level.layout.len(), 24);
    for row in &level.layout {
        assert_eq!(row.len(), 24);
    }
}

#[test]
fn debug_level_has_an_outer_wall() {
    let level = Level::debug_1().unwrap();
    for i in 0..24 {
        assert_eq!(level.layout[0][i], 1);
        assert_eq!(level.layout[23][i], 1);
        assert_eq!(level.layout[i][0], 1);
        assert_eq!(level.layout[i][23], 1);
    }
}

#[test]
fn debug_level_has_its_rooms() {
    let level = Level::debug_1().unwrap();
    assert_eq!(level.layout[4][6], 2);
    assert_eq!(level.layout[4][10], 2);
    assert_eq!(level.layout[8][7], 2);
    assert_eq!(level.layout[8][8], 0);
    assert_eq!(level.layout[5][7], 0);
    assert_eq!(level.layout[4][15], 3);
    assert_eq!(level.layout[6][17], 0);
    assert_eq!(level.layout[6][19], 3);
    assert_eq!(level.layout[16][1], 4);
    assert_eq!(level.layout[16][8], 4);
    assert_eq!(level.layout[18][6], 5);
    assert_eq!(level.layout[18][3], 0);
    assert_eq!(level.layout[17][3], 4);
    assert_eq!(level.layout[20][5], 4);
    assert_eq!(level.layout[21][8], 0);
    assert_eq!(level.layout[22][8], 4);
    assert_eq!(level.layout[22][9], 0);
    assert_eq!(level.layout[15][1], 0);
    assert_eq!(level.layout[3][3], 0);
    let walls: usize = level.layout.iter().map(|row| row.iter().filter(|&&c| c != 0).count()).sum();
    assert_eq!(walls, 92 + 15 + 8 + 32 + 1);
}

#[test]
fn open_cells_are_passable_and_walls_are_not() {
    let level = Level::debug_1().unwrap();
    assert!(level.is_passable(3, 3));
    assert!(level.is_passable(8, 8));
    assert!(!level.is_passable(0, 0));
    assert!(!level.is_passable(6, 4));
    assert!(!level.is_passable(6, 18));
}

#[test]
fn cells_off_the_grid_are_solid() {
    let level = Level::debug_1().unwrap();
    assert!(!level.is_passable(-1, 3));
    assert!(!level.is_passable(3, -1));
    assert!(!level.is_passable(24, 3));
    assert!(!level.is_passable(3, 24));
    assert!(!level.is_passable(i64::MAX, i64::MAX));
    assert!(!level.is_passable(i64::MIN, 0));
}

#[test]
fn walls_have_their_material_and_the_edge_has_material_one() {
    let level = Level::debug_1().unwrap();
    assert_eq!(level.wall_at(3, 3), 0);
    assert_eq!(level.wall_at(6, 4), 2);
    assert_eq!(level.wall_at(15, 4), 3);
    assert_eq!(level.wall_at(1, 16), 4);
    assert_eq!(level.wall_at(6, 18), 5);
    assert_eq!(level.wall_at(-1, 3), 1);
    assert_eq!(level.wall_at(3, 24), 1);
}

#[test]
fn a_level_of_one_open_cell() {
    let level = Level { layout: vec![vec![0]], size: (1, 1) };
    assert!(level.is_passable(0, 0));
    assert!(!level.is_passable(1, 0));
    assert!(!level.is_passable(0, 1));
}

#[test]
fn a_level_is_made_only_from_a_rectangle() {
    let level = Level::from_layout(vec![vec![1, 0, 1], vec![0, 0, 2]]).unwrap();
    assert_eq!(level.size, (3, 2));
    assert_eq!(level.layout, vec![vec![1, 0, 1], vec![0, 0, 2]]);
    assert!(level.is_passable(1, 0));
    assert!(!level.is_passable(2, 1));
    assert!(Level::from_layout(vec![]).is_none());
    assert!(Level::from_layout(vec![vec![]]).is_none());
    assert!(Level::from_layout(vec![vec![0, 0], vec![0]]).is_none());
    assert!(Level::from_layout(vec![vec![0], vec![0, 0]]).is_none());
    let debug = Level::debug_1().unwrap();
    let again = Level::from_layout(debug.layout.clone()).unwrap();
    assert_eq!(again.size, debug.size);
}
