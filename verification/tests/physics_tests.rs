use grid_engine::entity::{Entity, EntityState, EntityType, SpriteType};
use grid_engine::level::Level;
use grid_engine::physics::{Physics, DEATH_DURATION, HIT_FLASH_DURATION, HIT_RADIUS_SQUARED};
use grid_engine::trig::TrigTable;
use grid_engine::world::World;

fn table() -> TrigTable {
    let samples = 3600;
    let sines: Vec<i64> = (0..samples)
        .map(|i| (((i as f64) * 360.0 / (samples as f64)).to_radians().sin() * 1_000_000.0).round() as i64)
        .collect();
    TrigTable::new(sines).unwrap()
}

fn open_level(width: usize, height: usize) -> Level {
    Level { layout: vec![vec![0; width]; height], size: (width as u32, height as u32) }
}

const FRAME: u64 = 16_000;

#[test]
fn constants_are_the_documented_ones() {
    assert_eq!(HIT_FLASH_DURATION, 200_000);
    assert_eq!(DEATH_DURATION, 500_000);
    assert_eq!(HIT_RADIUS_SQUARED, 100_000);
}

#[test]
fn moving_forward_into_open_floor_commits() {
    let level = Level::debug_1().unwrap();
    let trig = table();
    let mut w = World::new();
    let id = w.spawn_entity(Entity::new_player(0, 3_500_000, 3_500_000));
    assert!(Physics::move_entity_forward(&mut w, id, 1_000_000, &level, &trig));
    let t = w.get_entity(id).unwrap().transform;
    assert_eq!((t.x, t.y, t.angle), (4_500_000, 3_500_000, 0));
    assert!(Physics::move_entity_forward(&mut w, id, -2_000_000, &level, &trig));
    let t = w.get_entity(id).unwrap().transform;
    assert_eq!((t.x, t.y), (2_500_000, 3_500_000));
}

#[test]
fn moving_into_a_wall_is_refused_and_changes_nothing() {
    let level = Level::debug_1().unwrap();
    let trig = table();
    let mut w = World::new();
    let id = w.spawn_entity(Entity::new_player(0, 1_500_000, 1_500_000));
    Physics::rotate_entity(&mut w, id, 180_000_000);
    let before = *w.get_entity(id).unwrap();
    assert!(!Physics::move_entity_forward(&mut w, id, 1_000_000, &level, &trig));
    assert_eq!(*w.get_entity(id).unwrap(), before);
    assert!(!Physics::strafe_entity(&mut w, id, 1_000_000, &level, &trig));
    assert_eq!(*w.get_entity(id).unwrap(), before);
}

#[test]
fn moving_off_the_map_is_refused() {
    let level = open_level(2, 2);
    let trig = table();
    let mut w = World::new();
    let id = w.spawn_entity(Entity::new_player(0, 500_000, 500_000));
    assert!(!Physics::move_entity_forward(&mut w, id, -1_000_000, &level, &trig));
    assert!(!Physics::move_entity_forward(&mut w, id, 2_000_000, &level, &trig));
    assert!(Physics::move_entity_forward(&mut w, id, 1_000_000, &level, &trig));
    assert!(!Physics::strafe_entity(&mut w, id, -1_000_000, &level, &trig));
    assert!(Physics::strafe_entity(&mut w, id, 1_000_000, &level, &trig));
    let t = w.get_entity(id).unwrap().transform;
    assert_eq!((t.x, t.y), (1_500_000, 1_500_000));
}

#[test]
fn every_committed_position_is_on_an_open_cell() {
    let level = Level::debug_1().unwrap();
    let trig = table();
    let mut w = World::new();
    let id = w.spawn_entity(Entity::new_player(0, 3_500_000, 3_500_000));
    let mut moved = 0;
    for i in 0..400i64 {
        Physics::rotate_entity(&mut w, id, 37_000_000);
        let a = Physics::move_entity_forward(&mut w, id, 700_000 + (i % 7) * 100_000, &level, &trig);
        let b = Physics::strafe_entity(&mut w, id, 450_000 - (i % 5) * 200_000, &level, &trig);
        if a || b {
            moved += 1;
        }
        let t = w.get_entity(id).unwrap().transform;
        let (cx, cy) = (t.x.div_euclid(1_000_000), t.y.div_euclid(1_000_000));
        assert!(level.is_passable(cx, cy));
        assert_eq!(level.layout[cy as usize][cx as usize], 0);
    }
    assert!(moved > 0);
}

#[test]
fn strafing_goes_a_quarter_turn_on_from_the_facing() {
    let level = Level::debug_1().unwrap();
    let trig = table();
    let mut w = World::new();
    let id = w.spawn_entity(Entity::new_player(0, 3_500_000, 3_500_000));
    assert!(Physics::strafe_entity(&mut w, id, 1_000_000, &level, &trig));
    let t = w.get_entity(id).unwrap().transform;
    assert_eq!((t.x, t.y), (3_500_000, 4_500_000));
    assert!(Physics::strafe_entity(&mut w, id, -2_000_000, &level, &trig));
    let t = w.get_entity(id).unwrap().transform;
    assert_eq!((t.x, t.y), (3_500_000, 2_500_000));
}

#[test]
fn movement_of_a_missing_entity_is_a_no_op() {
    let level = Level::debug_1().unwrap();
    let trig = table();
    let mut w = World::new();
    w.spawn_entity(Entity::new_player(0, 3_500_000, 3_500_000));
    let before = w.entities.clone();
    assert!(!Physics::move_entity_forward(&mut w, 9, 1_000_000, &level, &trig));
    assert!(!Physics::strafe_entity(&mut w, 9, 1_000_000, &level, &trig));
    assert!(!Physics::try_move_entity(&mut w, 9, 3_500_000, 3_500_000, &level));
    Physics::rotate_entity(&mut w, 9, 10_000_000);
    assert_eq!(w.entities, before);
}

#[test]
fn rotation_wraps_into_one_turn() {
    let mut w = World::new();
    let id = w.spawn_entity(Entity::new_player(0, 3_500_000, 3_500_000));
    Physics::rotate_entity(&mut w, id, 350_000_000);
    assert_eq!(w.get_entity(id).unwrap().transform.angle, 350_000_000);
    Physics::rotate_entity(&mut w, id, 20_000_000);
    assert_eq!(w.get_entity(id).unwrap().transform.angle, 10_000_000);
    Physics::rotate_entity(&mut w, id, -20_000_000);
    assert_eq!(w.get_entity(id).unwrap().transform.angle, 350_000_000);
    Physics::rotate_entity(&mut w, id, 730_000_000);
    assert_eq!(w.get_entity(id).unwrap().transform.angle, 0);
    Physics::rotate_entity(&mut w, id, i64::MIN);
    let a = w.get_entity(id).unwrap().transform.angle;
    assert!((0..360_000_000).contains(&a));
    assert_eq!(a, i64::MIN.rem_euclid(360_000_000));
}

#[test]
fn can_move_to_floors_the_coordinates() {
    let level = Level::debug_1().unwrap();
    assert!(Physics::can_move_to(1_000_000, 1_000_000, &level));
    assert!(!Physics::can_move_to(999_999, 1_000_000, &level));
    assert!(!Physics::can_move_to(-1, 1_500_000, &level));
    assert!(!Physics::can_move_to(-500_000, -500_000, &level));
    assert!(Physics::can_move_to(22_999_999, 22_999_999, &level));
    assert!(!Physics::can_move_to(23_000_000, 22_000_000, &level));
    assert!(!Physics::can_move_to(24_000_000, 3_000_000, &level));
}

#[test]
fn a_projectile_accounts_for_the_way_it_made() {
    let level = Level::debug_1().unwrap();
    let trig = table();
    let mut w = World::new();
    let id = w.spawn_projectile(2_500_000, 12_500_000, 0, 20, 100_000_000, SpriteType::ProjectilePistol);
    for n in 1..=10i64 {
        let kills = Physics::update(&mut w, FRAME, &level, &trig);
        assert_eq!(kills, 0);
        let p = w.get_entity(id).unwrap();
        assert_eq!(p.distance_traveled, n * 160_000);
        assert_eq!(p.transform.x, 2_500_000 + n * 160_000);
        assert_eq!(p.transform.y, 12_500_000);
    }
}

#[test]
fn a_projectile_is_removed_exactly_when_it_has_flown_its_range() {
    let level = Level::debug_1().unwrap();
    let trig = table();
    let mut w = World::new();
    let id = w.spawn_projectile(2_500_000, 12_500_000, 0, 20, 1_000_000, SpriteType::ProjectilePistol);
    for n in 1..=6i64 {
        Physics::update(&mut w, FRAME, &level, &trig);
        assert_eq!(w.get_entity(id).unwrap().distance_traveled, n * 160_000);
    }
    Physics::update(&mut w, FRAME, &level, &trig);
    assert!(w.get_entity(id).is_none());
    assert!(w.entities.is_empty());
}

#[test]
fn a_projectile_whose_range_is_met_exactly_is_removed() {
    let level = Level::debug_1().unwrap();
    let trig = table();
    let mut w = World::new();
    let id = w.spawn_projectile(2_500_000, 12_500_000, 0, 20, 320_000, SpriteType::ProjectilePistol);
    Physics::update(&mut w, FRAME, &level, &trig);
    assert!(w.get_entity(id).is_some());
    Physics::update(&mut w, FRAME, &level, &trig);
    assert!(w.get_entity(id).is_none());
}

#[test]
fn a_projectile_ends_at_a_wall() {
    let level = Level::debug_1().unwrap();
    let trig = table();
    let mut w = World::new();
    let id = w.spawn_projectile(22_500_000, 12_500_000, 0, 20, 100_000_000, SpriteType::ProjectilePistol);
    for _ in 0..3 {
        Physics::update(&mut w, FRAME, &level, &trig);
        assert!(w.get_entity(id).is_some());
    }
    assert_eq!(w.get_entity(id).unwrap().transform.x, 22_980_000);
    Physics::update(&mut w, FRAME, &level, &trig);
    assert!(w.get_entity(id).is_none());
}

#[test]
fn a_projectile_that_leaves_the_map_is_removed() {
    let level = open_level(2, 2);
    let trig = table();
    let mut w = World::new();
    let west = w.spawn_projectile(100_000, 500_000, 180_000_000, 20, 100_000_000, SpriteType::ProjectilePistol);
    let east = w.spawn_projectile(1_900_000, 500_000, 0, 20, 100_000_000, SpriteType::ProjectilePistol);
    let stays = w.spawn_projectile(500_000, 500_000, 90_000_000, 20, 100_000_000, SpriteType::ProjectilePistol);
    Physics::update(&mut w, FRAME, &level, &trig);
    assert!(w.get_entity(west).is_none());
    assert!(w.get_entity(east).is_none());
    let p = w.get_entity(stays).unwrap();
    assert_eq!((p.transform.x, p.transform.y), (500_000, 660_000));
}

#[test]
fn a_projectile_hits_an_enemy_within_the_radius() {
    let level = Level::debug_1().unwrap();
    let trig = table();
    let mut w = World::new();
    let _player = w.spawn_entity(Entity::new_player(0, 3_500_000, 3_500_000));
    let enemy = w.spawn_enemy(4_500_000, 3_500_000, SpriteType::EnemyImp);
    let shot = w.spawn_projectile(3_500_000, 3_500_000, 0, 20, 5_000_000, SpriteType::ProjectilePistol);
    for _ in 0..4 {
        assert_eq!(Physics::update(&mut w, FRAME, &level, &trig), 0);
        assert_eq!(w.get_entity(enemy).unwrap().health, 50);
        assert_eq!(w.get_entity(enemy).unwrap().state, EntityState::Idle);
        assert!(w.get_entity(shot).is_some());
    }
    assert_eq!(w.get_entity(shot).unwrap().transform.x, 4_140_000);
    assert_eq!(Physics::update(&mut w, FRAME, &level, &trig), 0);
    assert!(w.get_entity(shot).is_none());
    let e = w.get_entity(enemy).unwrap();
    assert_eq!(e.health, 30);
    assert_eq!(e.state, EntityState::Hit);
    assert_eq!(e.animation_timer, 0);
    assert_eq!(e.current_frame, 0);
    for _ in 0..2 {
        Physics::update(&mut w, FRAME, &level, &trig);
    }
    let e = w.get_entity(enemy).unwrap();
    assert_eq!(e.health, 30);
    assert_eq!(e.state, EntityState::Hit);
    assert_eq!(w.get_player().unwrap().health, 100);
}

#[test]
fn a_hit_enemy_is_idle_again_after_the_flash() {
    let level = Level::debug_1().unwrap();
    let trig = table();
    let mut w = World::new();
    let enemy = w.spawn_enemy(4_500_000, 3_500_000, SpriteType::EnemyImp);
    w.get_entity_mut(enemy).unwrap().take_damage(20);
    for _ in 0..12 {
        Physics::update(&mut w, FRAME, &level, &trig);
        assert_eq!(w.get_entity(enemy).unwrap().state, EntityState::Hit);
    }
    assert_eq!(w.get_entity(enemy).unwrap().animation_timer, 192_000);
    Physics::update(&mut w, FRAME, &level, &trig);
    let e = w.get_entity(enemy).unwrap();
    assert_eq!(e.state, EntityState::Idle);
    assert_eq!(e.animation_timer, 0);
    assert_eq!(e.health, 30);
}

#[test]
fn three_hits_kill_and_the_fourth_changes_nothing() {
    let level = Level::debug_1().unwrap();
    let trig = table();
    let mut w = World::new();
    let enemy = w.spawn_enemy(4_500_000, 3_500_000, SpriteType::EnemyImp);
    let expected = [(30, EntityState::Hit), (10, EntityState::Hit), (-10, EntityState::Dying)];
    for (health, state) in expected {
        let shot = w.spawn_projectile(4_400_000, 3_500_000, 0, 20, 5_000_000, SpriteType::ProjectilePistol);
        assert_eq!(Physics::update(&mut w, FRAME, &level, &trig), 0);
        assert!(w.get_entity(shot).is_none());
        let e = w.get_entity(enemy).unwrap();
        assert_eq!((e.health, e.state), (health, state));
    }
    let fourth = w.spawn_projectile(4_400_000, 3_500_000, 0, 20, 5_000_000, SpriteType::ProjectilePistol);
    assert_eq!(Physics::update(&mut w, FRAME, &level, &trig), 0);
    assert!(w.get_entity(fourth).is_some());
    let e = w.get_entity(enemy).unwrap();
    assert_eq!((e.health, e.state, e.active), (-10, EntityState::Dying, true));
    assert_eq!(e.animation_timer, 16_000);
    let mut kills = Vec::new();
    for _ in 0..5 {
        kills.push(Physics::update(&mut w, 100_000, &level, &trig));
    }
    assert_eq!(kills, vec![0, 0, 0, 0, 1]);
    assert!(w.get_entity(enemy).is_none());
    assert!(w.get_enemies().is_empty());
    assert_eq!(Physics::update(&mut w, 100_000, &level, &trig), 0);
}

#[test]
fn nothing_inactive_or_dead_is_left_after_a_step() {
    let level = Level::debug_1().unwrap();
    let trig = table();
    let mut w = World::new();
    w.spawn_entity(Entity::new_player(0, 3_500_000, 3_500_000));
    let a = w.spawn_enemy(4_500_000, 3_500_000, SpriteType::EnemyImp);
    let b = w.spawn_enemy(8_500_000, 12_500_000, SpriteType::EnemyDemon);
    w.get_entity_mut(a).unwrap().active = false;
    w.get_entity_mut(b).unwrap().take_damage(50);
    for _ in 0..40 {
        Physics::update(&mut w, FRAME, &level, &trig);
        for e in &w.entities {
            assert!(e.active);
            assert!(e.state != EntityState::Dead);
        }
    }
    let ids: Vec<u32> = w.entities.iter().map(|e| e.id).collect();
    assert_eq!(ids, vec![1]);
}

#[test]
fn a_dying_player_is_no_kill() {
    let level = Level::debug_1().unwrap();
    let trig = table();
    let mut w = World::new();
    let p = w.spawn_entity(Entity::new_player(0, 3_500_000, 3_500_000));
    w.get_entity_mut(p).unwrap().take_damage(100);
    assert_eq!(Physics::update(&mut w, 500_000, &level, &trig), 0);
    assert!(w.get_entity(p).is_none());
}

#[test]
fn two_enemies_dying_together_count_twice() {
    let level = Level::debug_1().unwrap();
    let trig = table();
    let mut w = World::new();
    let a = w.spawn_enemy(4_500_000, 3_500_000, SpriteType::EnemyImp);
    let b = w.spawn_enemy(8_500_000, 12_500_000, SpriteType::EnemyDemon);
    w.get_entity_mut(a).unwrap().take_damage(50);
    w.get_entity_mut(b).unwrap().take_damage(70);
    assert_eq!(Physics::update(&mut w, 499_999, &level, &trig), 0);
    assert_eq!(Physics::update(&mut w, 1, &level, &trig), 2);
    assert!(w.entities.is_empty());
}

#[test]
fn the_first_enemy_in_reach_is_the_one_that_is_hit() {
    let level = Level::debug_1().unwrap();
    let trig = table();
    let mut w = World::new();
    let far = w.spawn_enemy(9_000_000, 12_500_000, SpriteType::EnemyImp);
    let first = w.spawn_enemy(4_600_000, 12_500_000, SpriteType::EnemyImp);
    let second = w.spawn_enemy(4_500_000, 12_500_000, SpriteType::EnemyImp);
    let shot = w.spawn_projectile(4_300_000, 12_500_000, 0, 20, 5_000_000, SpriteType::ProjectilePistol);
    Physics::update(&mut w, FRAME, &level, &trig);
    assert!(w.get_entity(shot).is_none());
    assert_eq!(w.get_entity(far).unwrap().health, 50);
    assert_eq!(w.get_entity(first).unwrap().health, 30);
    assert_eq!(w.get_entity(second).unwrap().health, 50);
}

#[test]
fn two_projectiles_can_hit_one_enemy_in_one_step() {
    let level = Level::debug_1().unwrap();
    let trig = table();
    let mut w = World::new();
    let enemy = w.spawn_enemy(4_500_000, 12_500_000, SpriteType::EnemyImp);
    let a = w.spawn_projectile(4_300_000, 12_500_000, 0, 20, 5_000_000, SpriteType::ProjectilePistol);
    let b = w.spawn_projectile(4_300_000, 12_500_000, 0, 15, 5_000_000, SpriteType::ProjectilePistol);
    Physics::update(&mut w, FRAME, &level, &trig);
    assert!(w.get_entity(a).is_none());
    assert!(w.get_entity(b).is_none());
    assert_eq!(w.get_entity(enemy).unwrap().health, 15);
}

#[test]
fn a_second_hit_in_the_step_of_a_lethal_one_is_lost() {
    let level = Level::debug_1().unwrap();
    let trig = table();
    let mut w = World::new();
    let enemy = w.spawn_enemy(4_500_000, 12_500_000, SpriteType::EnemyImp);
    let a = w.spawn_projectile(4_300_000, 12_500_000, 0, 60, 5_000_000, SpriteType::ProjectilePistol);
    let b = w.spawn_projectile(4_300_000, 12_500_000, 0, 20, 5_000_000, SpriteType::ProjectilePistol);
    Physics::update(&mut w, FRAME, &level, &trig);
    assert!(w.get_entity(a).is_none());
    assert!(w.get_entity(b).is_none());
    let e = w.get_entity(enemy).unwrap();
    assert_eq!((e.health, e.state), (-10, EntityState::Dying));
}

#[test]
fn the_hit_radius_is_strict() {
    let mut p = Entity::new_projectile(1, 0, 0, 0, 20, 5_000_000, SpriteType::ProjectilePistol);
    let e = Entity::new_enemy(2, 300_000, 100_000, SpriteType::EnemyImp);
    assert!(!Physics::is_in_reach(&p, &e));
    p.transform.x = 1;
    assert!(Physics::is_in_reach(&p, &e));
    p.transform.x = i64::MIN;
    assert!(!Physics::is_in_reach(&p, &e));
    let far = Entity::new_enemy(2, i64::MAX, i64::MAX, SpriteType::EnemyImp);
    assert!(!Physics::is_in_reach(&p, &far));
}

#[test]
fn find_target_skips_what_cannot_be_hit() {
    let shot = Entity::new_projectile(9, 0, 0, 0, 20, 5_000_000, SpriteType::ProjectilePistol);
    let mut dying = Entity::new_enemy(1, 0, 0, SpriteType::EnemyImp);
    dying.take_damage(50);
    let mut inactive = Entity::new_enemy(2, 0, 0, SpriteType::EnemyImp);
    inactive.active = false;
    let player = Entity::new_player(3, 0, 0);
    let away = Entity::new_enemy(4, 2_000_000, 0, SpriteType::EnemyImp);
    let near = Entity::new_enemy(5, 100_000, 0, SpriteType::EnemyImp);
    let all = vec![dying, inactive, player, away, near];
    assert_eq!(Physics::find_target(&all, &shot), 4);
    assert_eq!(Physics::find_target(&all[..4].to_vec(), &shot), 4);
    assert_eq!(Physics::find_target(&Vec::new(), &shot), 0);
}

#[test]
fn an_animation_frame_carries_its_overshoot() {
    let mut imp = Entity::new_enemy(1, 0, 0, SpriteType::EnemyImp);
    imp = Physics::tick_entity(imp, 300_000);
    assert_eq!((imp.animation_timer, imp.current_frame), (300_000, 0));
    imp = Physics::tick_entity(imp, 300_000);
    assert_eq!((imp.animation_timer, imp.current_frame), (100_000, 1));
    let mut demon = Entity::new_enemy(1, 0, 0, SpriteType::EnemyDemon);
    demon = Physics::tick_entity(demon, 400_000);
    assert_eq!((demon.animation_timer, demon.current_frame), (0, 1));
    let mut player = Entity::new_player(1, 0, 0);
    player = Physics::tick_entity(player, 2_500_000);
    assert_eq!((player.animation_timer, player.current_frame), (1_500_000, 1));
    player.current_frame = usize::MAX;
    player = Physics::tick_entity(player, 0);
    assert_eq!((player.animation_timer, player.current_frame), (500_000, 0));
}

#[test]
fn time_does_not_pass_for_the_inactive() {
    let mut e = Entity::new_enemy(1, 0, 0, SpriteType::EnemyImp);
    e.active = false;
    e.state = EntityState::Dying;
    e.health = 0;
    assert_eq!(Physics::tick_entity(e, 1_000_000), e);
}

#[test]
fn dying_ends_in_death_after_half_a_second() {
    let mut e = Entity::new_enemy(1, 0, 0, SpriteType::EnemyImp);
    e.take_damage(50);
    let t = Physics::tick_entity(e, 499_999);
    assert_eq!((t.state, t.active, t.animation_timer), (EntityState::Dying, true, 499_999));
    let t = Physics::tick_entity(t, 1);
    assert_eq!((t.state, t.active, t.animation_timer), (EntityState::Dead, false, 500_000));
    let t = Physics::tick_entity(e, u64::MAX);
    assert_eq!((t.state, t.active, t.animation_timer), (EntityState::Dead, false, u64::MAX));
}

#[test]
fn timers_saturate() {
    assert_eq!(Physics::add_time(u64::MAX - 1, 5), u64::MAX);
    assert_eq!(Physics::add_time(3, 4), 7);
    assert_eq!(Physics::step_of(10_000_000, 16_000), 160_000);
    assert_eq!(Physics::step_of(10_000_000, u64::MAX), i64::MAX);
    assert_eq!(Physics::step_of(-10_000_000, u64::MAX), i64::MIN);
    assert_eq!(Physics::step_of(200_000, 1), 0);
}

#[test]
fn advance_projectile_tells_flying_from_ended() {
    let level = Level::debug_1().unwrap();
    let trig = table();
    let p = Entity::new_projectile(1, 2_500_000, 12_500_000, 90_000_000, 20, 1_000_000, SpriteType::ProjectilePistol);
    let f = Physics::advance_projectile(p, FRAME, &level, &trig).unwrap();
    assert_eq!((f.transform.x, f.transform.y, f.distance_traveled), (2_500_000, 12_660_000, 160_000));
    assert_eq!(f.entity_type, EntityType::Projectile);
    assert!(Physics::advance_projectile(p, 100_000, &level, &trig).is_none());
    let mut spent = p;
    spent.max_distance = 0;
    assert!(Physics::advance_projectile(spent, 0, &level, &trig).is_none());
}

#[test]
fn displacement_follows_the_heading() {
    let trig = table();
    assert_eq!(Physics::displace(0, 0, 0, 2_000_000, &trig), (2_000_000, 0));
    assert_eq!(Physics::displace(0, 0, 90_000_000, 2_000_000, &trig), (0, 2_000_000));
    assert_eq!(Physics::displace(0, 0, 180_000_000, 2_000_000, &trig), (-2_000_000, 0));
    assert_eq!(Physics::displace(0, 0, 30_000_000, 2_000_000, &trig), (1_732_050, 1_000_000));
    assert_eq!(Physics::displace(i64::MAX, 0, 0, 2_000_000, &trig), (i64::MAX, 0));
}
