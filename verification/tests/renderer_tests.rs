use grid_engine::entity::{Entity, SpriteType};
use grid_engine::graphics::{Color, RenderBuffer};
use grid_engine::level::Level;
use grid_engine::renderer::{
    column_angle, draw, draw_columns, draw_scene, draw_sprite, draw_weapon_sprite, find_sighting, insert_sprite,
    project_sprite_to_screen, sort_far_first, wall_column, wall_columns, Sighting, SpriteProjection, WallColumn, FOV,
};
use grid_engine::trig::TrigTable;
use grid_engine::weapon::WeaponSprite;
use grid_engine::world::World;

fn table() -> TrigTable {
    let samples = 3600;
    let sines: Vec<i64> = (0..samples)
        .map(|i| (((i as f64) * 360.0 / (samples as f64)).to_radians().sin() * 1_000_000.0).round() as i64)
        .collect();
    TrigTable::new(sines).unwrap()
}

fn rgb(r: u8, g: u8, b: u8) -> Color {
    Color::Rgb { r, g, b }
}

fn no_weapon() -> WeaponSprite {
    WeaponSprite::new(vec![], vec![])
}

fn sprite(distance: i64, left: u16, right: u16, top: u16, bottom: u16, kind: SpriteType) -> SpriteProjection {
    SpriteProjection {
        distance,
        screen_x: 0,
        screen_y: 0,
        screen_width: 0,
        screen_height: 0,
        left_column: left,
        right_column: right,
        top_row: top,
        bottom_row: bottom,
        sprite_type: kind,
    }
}

const SKY: Color = Color::Rgb { r: 30, g: 50, b: 100 };

#[test]
fn the_columns_share_the_field_of_view() {
    assert_eq!(FOV, 60_000_000);
    assert_eq!(column_angle(0, 80), -30_000_000);
    assert_eq!(column_angle(40, 80), 0);
    assert_eq!(column_angle(79, 80), 29_250_000);
    assert_eq!(column_angle(20, 80), -15_000_000);
    assert_eq!(column_angle(0, 1), -30_000_000);
    assert_eq!(column_angle(1, 3), -10_000_000);
    assert_eq!(column_angle(0, 7), -30_000_000);
    assert_eq!(column_angle(1, 7), -21_428_571);
    assert_eq!(column_angle(6, 7), 21_428_571);
}

#[test]
fn a_far_wall_fills_a_band_in_the_middle() {
    let level = Level::debug_1().unwrap();
    let trig = table();
    let c = wall_column(3_500_000, 3_500_000, 0, 40, 80, 24, &level, &trig);
    assert_eq!(c, WallColumn { distance: 19_500_000, wall_type: 1, wall_start: 8, wall_end: 15 });
    let c = wall_column(7_500_000, 6_500_000, 0, 40, 80, 24, &level, &trig);
    assert_eq!(c, WallColumn { distance: 2_500_000, wall_type: 2, wall_start: 0, wall_end: 24 });
    let c = wall_column(7_500_000, 6_500_000, 0, 40, 80, 100, &level, &trig);
    assert_eq!(c, WallColumn { distance: 2_500_000, wall_type: 2, wall_start: 0, wall_end: 100 });
    let c = wall_column(3_500_000, 3_500_000, 0, 1, 2, 100, &level, &trig);
    assert_eq!(c, WallColumn { distance: 19_500_000, wall_type: 1, wall_start: 34, wall_end: 65 });
}

#[test]
fn a_wall_at_hand_fills_the_column() {
    let level = Level::debug_1().unwrap();
    let trig = table();
    let c = wall_column(22_950_000, 3_500_000, 0, 40, 80, 24, &level, &trig);
    assert_eq!(c, WallColumn { distance: 50_000, wall_type: 1, wall_start: 0, wall_end: 24 });
    let c = wall_column(22_900_000, 3_500_000, 0, 40, 80, 24, &level, &trig);
    assert_eq!(c, WallColumn { distance: 100_000, wall_type: 1, wall_start: 0, wall_end: 24 });
    let c = wall_column(3_500_000, 3_500_000, 0, 0, 1, 0, &level, &trig);
    assert_eq!((c.wall_start, c.wall_end), (0, 0));
}

#[test]
fn a_sprite_straight_ahead_is_centred() {
    let player = Entity::new_player(1, 3_500_000, 3_500_000);
    let imp = Entity::new_enemy(2, 5_500_000, 3_500_000, SpriteType::EnemyImp);
    let seen = Sighting { id: 2, bearing: 0 };
    let p = project_sprite_to_screen(&player, &imp, 80, 24, FOV, &seen).unwrap();
    assert_eq!(
        p,
        SpriteProjection {
            distance: 2_000_000,
            screen_x: 40_000_000,
            screen_y: 12_000_000,
            screen_width: 9_600_000,
            screen_height: 12_000_000,
            left_column: 35,
            right_column: 44,
            top_row: 6,
            bottom_row: 18,
            sprite_type: SpriteType::EnemyImp,
        }
    );
}

#[test]
fn a_sprite_shrinks_with_distance() {
    let player = Entity::new_player(1, 0, 0);
    let ahead = Sighting { id: 2, bearing: 0 };
    let imp = Entity::new_enemy(2, 4_000_000, 0, SpriteType::EnemyImp);
    let near = project_sprite_to_screen(&player, &imp, 80, 24, FOV, &ahead).unwrap();
    assert_eq!(near.distance, 4_000_000);
    assert_eq!((near.screen_height, near.screen_width), (6_000_000, 4_800_000));
    assert_eq!((near.left_column, near.right_column, near.top_row, near.bottom_row), (37, 42, 9, 15));
    let imp = Entity::new_enemy(2, 0, -12_000_000, SpriteType::EnemyImp);
    let far = project_sprite_to_screen(&player, &imp, 80, 24, FOV, &ahead).unwrap();
    assert_eq!(far.distance, 12_000_000);
    assert_eq!((far.screen_height, far.screen_width), (2_000_000, 1_600_000));
    assert_eq!((far.left_column, far.right_column, far.top_row, far.bottom_row), (39, 40, 11, 13));
}

#[test]
fn the_distance_of_a_sprite_is_that_of_its_entity() {
    let player = Entity::new_player(1, 3_500_000, 3_500_000);
    let ahead = Sighting { id: 2, bearing: 0 };
    let imp = Entity::new_enemy(2, 6_500_000, 7_500_000, SpriteType::EnemyImp);
    assert_eq!(project_sprite_to_screen(&player, &imp, 80, 24, FOV, &ahead).unwrap().distance, 5_000_000);
    let imp = Entity::new_enemy(2, 4_500_000, 4_500_000, SpriteType::EnemyImp);
    assert_eq!(project_sprite_to_screen(&player, &imp, 80, 24, FOV, &ahead).unwrap().distance, 1_414_213);
}

#[test]
fn a_sprite_outside_the_field_of_view_is_not_projected() {
    let mut player = Entity::new_player(1, 0, 0);
    let imp = Entity::new_enemy(2, 2_000_000, 0, SpriteType::EnemyImp);
    let at = |bearing: i64| Sighting { id: 2, bearing };
    assert!(project_sprite_to_screen(&player, &imp, 80, 24, FOV, &at(30_000_001)).is_none());
    assert!(project_sprite_to_screen(&player, &imp, 80, 24, FOV, &at(-30_000_001)).is_none());
    assert!(project_sprite_to_screen(&player, &imp, 80, 24, FOV, &at(180_000_000)).is_none());
    assert!(project_sprite_to_screen(&player, &imp, 80, 24, FOV, &at(29_999_999)).is_some());
    let left = project_sprite_to_screen(&player, &imp, 80, 24, FOV, &at(-30_000_000)).unwrap();
    assert_eq!((left.screen_x, left.left_column, left.right_column), (0, 0, 4));
    let right = project_sprite_to_screen(&player, &imp, 80, 24, FOV, &at(30_000_000)).unwrap();
    assert_eq!((right.screen_x, right.left_column, right.right_column), (80_000_000, 75, 80));
    player.transform.angle = 350_000_000;
    let wrapped = project_sprite_to_screen(&player, &imp, 80, 24, FOV, &at(10_000_000)).unwrap();
    assert_eq!(wrapped.screen_x, 66_666_666);
    assert!(project_sprite_to_screen(&player, &imp, 80, 24, FOV, &at(21_000_000)).is_none());
}

#[test]
fn a_sprite_too_near_is_not_projected() {
    let player = Entity::new_player(1, 0, 0);
    let ahead = Sighting { id: 2, bearing: 0 };
    let at = |x: i64| Entity::new_enemy(2, x, 0, SpriteType::EnemyImp);
    assert!(project_sprite_to_screen(&player, &at(99_999), 80, 24, FOV, &ahead).is_none());
    assert!(project_sprite_to_screen(&player, &at(0), 80, 24, FOV, &ahead).is_none());
    assert!(project_sprite_to_screen(&player, &at(-99_999), 80, 24, FOV, &ahead).is_none());
    let p = project_sprite_to_screen(&player, &at(100_000), 80, 24, FOV, &ahead).unwrap();
    assert_eq!((p.left_column, p.right_column, p.top_row, p.bottom_row), (0, 80, 0, 24));
    assert_eq!((p.screen_height, p.screen_width), (240_000_000, 192_000_000));
}

#[test]
fn a_sprite_that_covers_no_cell_is_not_projected() {
    let player = Entity::new_player(1, 0, 0);
    let imp = Entity::new_enemy(2, 2_000_000, 0, SpriteType::EnemyImp);
    let seen = Sighting { id: 2, bearing: 0 };
    assert!(project_sprite_to_screen(&player, &imp, 0, 24, FOV, &seen).is_none());
    assert!(project_sprite_to_screen(&player, &imp, 80, 0, FOV, &seen).is_none());
    let far = Entity::new_enemy(2, i64::MAX, i64::MIN, SpriteType::EnemyImp);
    assert!(project_sprite_to_screen(&player, &far, 80, 24, FOV, &seen).is_none());
}

#[test]
fn sprites_are_sorted_farthest_first_and_ties_keep_their_order() {
    let a = sprite(1_000_000, 0, 0, 0, 0, SpriteType::EnemyImp);
    let b = sprite(3_000_000, 1, 1, 0, 0, SpriteType::EnemyImp);
    let c = sprite(2_000_000, 2, 2, 0, 0, SpriteType::EnemyImp);
    let d = sprite(3_000_000, 3, 3, 0, 0, SpriteType::EnemyDemon);
    let e = sprite(1_000_000, 4, 4, 0, 0, SpriteType::EnemyDemon);
    let sorted = sort_far_first(&vec![a, b, c, d, e]);
    assert_eq!(sorted, vec![b, d, c, a, e]);
    assert!(sort_far_first(&vec![]).is_empty());
    let mut v = vec![b, c];
    insert_sprite(&mut v, d);
    assert_eq!(v, vec![b, d, c]);
    insert_sprite(&mut v, sprite(9_000_000, 0, 0, 0, 0, SpriteType::EnemyImp));
    assert_eq!(v[0].distance, 9_000_000);
}

#[test]
fn the_first_sighting_of_an_entity_counts() {
    let s = vec![
        Sighting { id: 3, bearing: 1 },
        Sighting { id: 5, bearing: 2 },
        Sighting { id: 3, bearing: 3 },
    ];
    assert_eq!(find_sighting(&s, 3), 0);
    assert_eq!(find_sighting(&s, 5), 1);
    assert_eq!(find_sighting(&s, 4), 3);
    assert_eq!(find_sighting(&vec![], 4), 0);
}

#[test]
fn columns_are_drawn_as_sky_wall_and_floor() {
    let mut b = RenderBuffer::new(2, 6);
    let columns = vec![
        WallColumn { distance: 500_000, wall_type: 2, wall_start: 0, wall_end: 6 },
        WallColumn { distance: 5_000_000, wall_type: 1, wall_start: 2, wall_end: 4 },
    ];
    draw_columns(&mut b, &columns);
    for y in 0..6 {
        assert_eq!(b.buffer[y][0], (rgb(180, 60, 60), ' '));
    }
    let wall = rgb(152, 152, 152);
    let floor = rgb(16, 32, 16);
    let column: Vec<Color> = (0..6).map(|y| b.buffer[y][1].0).collect();
    assert_eq!(column, vec![SKY, SKY, wall, wall, floor, floor]);
    assert_eq!(b.depth_buffer, vec![500_000, 5_000_000]);
}

#[test]
fn a_sprite_is_drawn_where_it_is_nearer_than_the_wall() {
    let mut b = RenderBuffer::new(4, 3);
    b.clear();
    b.depth_buffer = vec![1_000_000, 3_000_000, 2_000_000, 5_000_000];
    let s = sprite(2_000_000, 1, 9, 1, 7, SpriteType::EnemyImp);
    draw_sprite(&mut b, &s);
    let imp = (rgb(150, 75, 37), ' ');
    let blank = (Color::Reset, ' ');
    assert_eq!(b.buffer[0], vec![blank, blank, blank, blank]);
    assert_eq!(b.buffer[1], vec![blank, imp, blank, imp]);
    assert_eq!(b.buffer[2], vec![blank, imp, blank, imp]);
    assert_eq!(b.depth_buffer, vec![1_000_000, 3_000_000, 2_000_000, 5_000_000]);
}

#[test]
fn a_sprite_behind_the_walls_leaves_no_pixel() {
    let columns: Vec<WallColumn> =
        (0..6).map(|x| WallColumn { distance: 2_000_000 + x, wall_type: 1, wall_start: 1, wall_end: 3 }).collect();
    let visible = sprite(1_000_000, 0, 1, 0, 1, SpriteType::EnemyDemon);
    let hidden = sprite(2_000_005, 0, 5, 0, 3, SpriteType::EnemyImp);
    let mut without = RenderBuffer::new(6, 4);
    draw_scene(&columns, &vec![visible], &mut without);
    for at in 0..2 {
        let mut sprites = vec![visible];
        sprites.insert(at, hidden);
        let mut with = RenderBuffer::new(6, 4);
        draw_scene(&columns, &sprites, &mut with);
        assert_eq!(with.buffer, without.buffer);
        assert_eq!(with.depth_buffer, without.depth_buffer);
    }
    let mut alone = RenderBuffer::new(6, 4);
    draw_scene(&columns, &vec![hidden], &mut alone);
    let mut walls = RenderBuffer::new(6, 4);
    draw_scene(&columns, &vec![], &mut walls);
    assert_eq!(alone.buffer, walls.buffer);
    let nearer = sprite(2_000_004, 0, 5, 0, 3, SpriteType::EnemyImp);
    let mut shown = RenderBuffer::new(6, 4);
    draw_scene(&columns, &vec![nearer], &mut shown);
    let differing: Vec<usize> = (0..6).filter(|&x| shown.buffer[0][x] != walls.buffer[0][x]).collect();
    assert_eq!(differing, vec![5]);
}

#[test]
fn nearer_sprites_are_drawn_over_farther_ones() {
    let columns: Vec<WallColumn> =
        (0..3).map(|_| WallColumn { distance: 9_000_000, wall_type: 1, wall_start: 0, wall_end: 1 }).collect();
    let far = sprite(4_000_000, 0, 1, 0, 0, SpriteType::EnemyImp);
    let near = sprite(1_000_000, 1, 2, 0, 0, SpriteType::EnemyDemon);
    let mut b = RenderBuffer::new(3, 1);
    draw_scene(&columns, &sort_far_first(&vec![near, far]), &mut b);
    assert_eq!(b.buffer[0], vec![(rgb(120, 60, 30), ' '), (rgb(135, 45, 45), ' '), (rgb(135, 45, 45), ' ')]);
}

#[test]
fn the_weapon_stands_at_the_bottom_in_the_middle() {
    let red = rgb(255, 0, 0);
    let green = rgb(0, 255, 0);
    let w = WeaponSprite::new(vec![vec!['#', ' ', '#'], vec!['#']], vec![vec![red, green]]);
    assert_eq!((w.width, w.height), (3, 2));
    let mut b = RenderBuffer::new(10, 5);
    draw_weapon_sprite(&w, (10, 5), &mut b);
    let grey = (rgb(100, 100, 100), ' ');
    let blank = (Color::Reset, ' ');
    let mut expected = vec![vec![blank; 10]; 5];
    expected[3][4] = (red, ' ');
    expected[3][6] = grey;
    expected[4][4] = grey;
    assert_eq!(b.buffer, expected);
    let mut small = RenderBuffer::new(2, 1);
    draw_weapon_sprite(&w, (2, 1), &mut small);
    assert_eq!(small.buffer, vec![vec![(red, ' '), blank]]);
}

#[test]
fn a_world_without_an_active_player_gives_a_blank_frame() {
    let level = Level::debug_1().unwrap();
    let trig = table();
    let mut w = World::new();
    w.spawn_enemy(4_500_000, 3_500_000, SpriteType::EnemyImp);
    let gone = w.spawn_entity(Entity::new_player(0, 3_500_000, 3_500_000));
    w.get_entity_mut(gone).unwrap().active = false;
    let mut b = RenderBuffer::new(1, 1);
    b.set(0, 0, SKY, 'x');
    draw(&w, &level, (4, 3), &trig, &vec![], &no_weapon(), &mut b);
    assert_eq!((b.width, b.height), (4, 3));
    assert_eq!(b.buffer, vec![vec![(Color::Reset, ' '); 4]; 3]);
    assert_eq!(b.depth_buffer, vec![i64::MAX; 4]);
}

#[test]
fn the_frame_is_drawn_through_the_first_active_player() {
    let level = Level::debug_1().unwrap();
    let trig = table();
    let mut w = World::new();
    let gone = w.spawn_entity(Entity::new_player(0, 3_500_000, 3_500_000));
    w.spawn_entity(Entity::new_player(0, 7_500_000, 6_500_000));
    w.get_entity_mut(gone).unwrap().active = false;
    let mut b = RenderBuffer::new(0, 0);
    draw(&w, &level, (80, 24), &trig, &vec![], &no_weapon(), &mut b);
    assert_eq!(b.depth_buffer[40], 2_500_000);
}

#[test]
fn the_frame_shows_walls_then_sprites_then_the_weapon() {
    let level = Level::debug_1().unwrap();
    let trig = table();
    let mut w = World::new();
    let player = w.spawn_entity(Entity::new_player(0, 3_500_000, 3_500_000));
    let imp = w.spawn_enemy(5_500_000, 3_500_000, SpriteType::EnemyImp);
    let hidden = w.spawn_enemy(23_500_000, 3_500_000, SpriteType::EnemyDemon);
    let unsighted = w.spawn_enemy(6_500_000, 3_500_000, SpriteType::EnemyDemon);
    let sightings = vec![
        Sighting { id: imp, bearing: 0 },
        Sighting { id: hidden, bearing: 0 },
        Sighting { id: player, bearing: 0 },
    ];
    let mut b = RenderBuffer::new(0, 0);
    draw(&w, &level, (80, 24), &trig, &sightings, &no_weapon(), &mut b);
    assert_eq!((b.width, b.height), (80, 24));
    assert_eq!(b.depth_buffer[40], 19_500_000);
    let columns = wall_columns(w.get_player().unwrap(), 80, 24, &level, &trig);
    assert_eq!(columns.len(), 80);
    for x in 0..80 {
        assert_eq!(b.depth_buffer[x], columns[x].distance);
    }
    let behind = project_sprite_to_screen(
        w.get_player().unwrap(),
        w.get_entity(hidden).unwrap(),
        80,
        24,
        FOV,
        &sightings[1],
    )
    .unwrap();
    assert_eq!(behind.distance, 20_000_000);
    assert_eq!((behind.left_column, behind.right_column), (39, 40));
    for x in 39..=40 {
        assert!(columns[x].distance <= behind.distance);
    }
    let imp_colour = (rgb(150, 75, 37), ' ');
    for y in 0..24usize {
        for x in 0..80usize {
            let c = columns[x];
            let under = if (y as u16) < c.wall_start {
                SKY
            } else if (y as u16) < c.wall_end {
                grid_engine::shading::get_wall_color(c.distance, c.wall_type)
            } else {
                grid_engine::shading::get_floor_color(c.distance)
            };
            let covered = (35..=44).contains(&x) && (6..=18).contains(&y);
            let expected = if covered { imp_colour } else { (under, ' ') };
            assert_eq!(b.buffer[y][x], expected);
        }
    }
    assert_eq!(b.buffer[0][40], (SKY, ' '));
    assert_eq!(b.buffer[20][40], (rgb(2, 4, 2), ' '));
    assert_eq!(b.buffer[19][40], (rgb(2, 4, 2), ' '));
    assert!(w.get_entity(unsighted).is_some());
    let gun = WeaponSprite::new(vec![vec!['#'; 4]], vec![vec![rgb(9, 9, 9); 4]]);
    draw(&w, &level, (80, 24), &trig, &sightings, &gun, &mut b);
    let bottom: Vec<usize> = (0..80).filter(|&x| b.buffer[23][x] == (rgb(9, 9, 9), ' ')).collect();
    assert_eq!(bottom, vec![38, 39, 40, 41]);
    assert_eq!(b.buffer[12][40], imp_colour);
}
