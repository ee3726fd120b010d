use grid_engine::level::Level;
use grid_engine::raycast::{cast_ray, cast_wall_ray, crossing, spacing, MAX_RAY_STEPS};
use grid_engine::trig::TrigTable;

fn table() -> TrigTable {
    let samples = 3600;
    let sines: Vec<i64> = (0..samples)
        .map(|i| (((i as f64) * 360.0 / (samples as f64)).to_radians().sin() * 1_000_000.0).round() as i64)
        .collect();
    TrigTable::new(sines).unwrap()
}

#[test]
fn a_ray_straight_down_a_corridor_returns_its_length() {
    let level = Level::debug_1().unwrap();
    assert_eq!(cast_ray(3_500_000, 3_500_000, 1_000_000, 0, &level), (19_500_000, 1));
    assert_eq!(cast_ray(7_500_000, 6_500_000, 1_000_000, 0, &level), (2_500_000, 2));
    assert_eq!(cast_ray(7_250_000, 6_999_999, 1_000_000, 0, &level), (2_750_000, 2));
    assert_eq!(cast_ray(9_999_999, 6_500_000, 1_000_000, 0, &level), (1, 2));
}

#[test]
fn rays_along_the_other_axes() {
    let level = Level::debug_1().unwrap();
    assert_eq!(cast_ray(7_500_000, 6_500_000, -1_000_000, 0, &level), (500_000, 2));
    assert_eq!(cast_ray(7_500_000, 6_500_000, 0, -1_000_000, &level), (1_500_000, 2));
    assert_eq!(cast_ray(7_500_000, 6_500_000, 0, 1_000_000, &level), (1_500_000, 2));
    assert_eq!(cast_ray(8_500_000, 6_500_000, 0, 1_000_000, &level), (9_500_000, 4));
    assert_eq!(cast_ray(16_500_000, 5_500_000, 0, -1_000_000, &level), (4_500_000, 1));
    assert_eq!(cast_ray(17_500_000, 6_500_000, 0, 1_000_000, &level), (1_500_000, 3));
}

#[test]
fn a_diagonal_ray_returns_the_length_along_the_ray() {
    let level = Level::debug_1().unwrap();
    assert_eq!(cast_ray(1_500_000, 1_500_000, 707_107, 707_107, &level), (6_363_958, 2));
}

#[test]
fn the_edge_of_the_map_is_a_wall_of_material_one() {
    let level = Level { layout: vec![vec![0]], size: (1, 1) };
    assert_eq!(cast_ray(500_000, 500_000, 1_000_000, 0, &level), (500_000, 1));
    assert_eq!(cast_ray(250_000, 500_000, -1_000_000, 0, &level), (250_000, 1));
    assert_eq!(cast_ray(500_000, 750_000, 0, 1_000_000, &level), (250_000, 1));
    assert_eq!(cast_ray(500_000, 750_000, 0, -1_000_000, &level), (750_000, 1));
}

#[test]
fn a_ray_gives_up_after_fifty_cells() {
    assert_eq!(MAX_RAY_STEPS, 50);
    let level = Level { layout: vec![vec![0; 60]], size: (60, 1) };
    assert_eq!(cast_ray(500_000, 500_000, 1_000_000, 0, &level), (49_500_000, 0));
    let level = Level { layout: vec![vec![0; 51]], size: (51, 1) };
    assert_eq!(cast_ray(500_000, 500_000, 1_000_000, 0, &level), (49_500_000, 0));
    let level = Level { layout: vec![vec![0; 50]], size: (50, 1) };
    assert_eq!(cast_ray(500_000, 500_000, 1_000_000, 0, &level), (49_500_000, 1));
}

#[test]
fn a_ray_from_a_grid_line() {
    let level = Level::debug_1().unwrap();
    assert_eq!(cast_ray(7_000_000, 6_500_000, -1_000_000, 0, &level), (0, 2));
    assert_eq!(cast_ray(7_000_000, 6_500_000, 1_000_000, 0, &level), (3_000_000, 2));
}

#[test]
fn grid_spacing_is_the_reciprocal_of_the_direction() {
    assert_eq!(spacing(1_000_000), 1_000_000);
    assert_eq!(spacing(-1_000_000), 1_000_000);
    assert_eq!(spacing(500_000), 2_000_000);
    assert_eq!(spacing(866_025), 1_154_701);
    assert_eq!(spacing(1), 1_000_000_000_000);
    assert_eq!(spacing(0), i64::MAX);
    assert_eq!(spacing(i64::MIN), 0);
    assert_eq!(crossing(3_500_000, 1_000_000), 500_000);
    assert_eq!(crossing(3_250_000, -1_000_000), 250_000);
    assert_eq!(crossing(3_250_000, 500_000), 1_500_000);
    assert_eq!(crossing(-250_000, 1_000_000), 250_000);
    assert_eq!(crossing(-250_000, -1_000_000), 750_000);
    assert_eq!(crossing(3_250_000, 0), i64::MAX);
}

#[test]
fn straight_ahead_the_view_distance_is_the_ray_length() {
    let level = Level::debug_1().unwrap();
    let trig = table();
    assert_eq!(cast_wall_ray(3_500_000, 3_500_000, 0, 0, &level, &trig), (19_500_000, 1));
    assert_eq!(cast_wall_ray(7_500_000, 6_500_000, 90_000_000, 0, &level, &trig), (1_500_000, 2));
    assert_eq!(cast_wall_ray(7_500_000, 6_500_000, 360_000_000 + 180_000_000, 0, &level, &trig), (500_000, 2));
}

#[test]
fn an_angled_ray_returns_the_perpendicular_distance_not_the_ray_length() {
    let level = Level::debug_1().unwrap();
    let trig = table();
    assert_eq!(cast_ray(3_500_000, 3_500_000, 866_025, 500_000, &level), (2_886_752, 2));
    let (seen, material) = cast_wall_ray(3_500_000, 3_500_000, 0, 30_000_000, &level, &trig);
    assert_eq!(material, 2);
    assert_eq!(seen, 2_499_999);
    assert!((2_500_000 - seen).abs() <= 10);
    let (seen, material) = cast_wall_ray(3_500_000, 3_500_000, 30_000_000, -30_000_000, &level, &trig);
    assert_eq!((seen, material), (16_887_487, 1));
}
