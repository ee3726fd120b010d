use grid_engine::entity::{
    Entity, EntityState, EntityType, SpriteType, Transform, ENEMY_HEALTH, ENEMY_SPEED, PLAYER_HEALTH,
    PLAYER_SPEED, PROJECTILE_HEALTH, PROJECTILE_SPEED,
};

#[test]
fn transform_normalizes_its_angle() {
    let t = Transform::new(1, 2, 370_000_000);
    assert_eq!(t, Transform { x: 1, y: 2, angle: 10_000_000 });
    let t = Transform::new(1, 2, -90_000_000);
    assert_eq!(t.angle, 270_000_000);
}

#[test]
fn new_player_has_the_player_defaults() {
    let e = Entity::new_player(7, 3_500_000, 4_500_000);
    assert_eq!(e.id, 7);
    assert_eq!(e.entity_type, EntityType::Player);
    assert_eq!(e.transform, Transform { x: 3_500_000, y: 4_500_000, angle: 0 });
    assert_eq!(e.speed, PLAYER_SPEED);
    assert_eq!(e.speed, 200_000);
    assert_eq!(e.health, PLAYER_HEALTH);
    assert_eq!(e.health, 100);
    assert!(e.active);
    assert_eq!(e.sprite_type, SpriteType::NoSprite);
    assert_eq!(e.state, EntityState::Idle);
    assert_eq!(e.animation_timer, 0);
    assert_eq!(e.current_frame, 0);
    assert_eq!(e.damage, 0);
}

#[test]
fn new_enemy_has_the_enemy_defaults() {
    let e = Entity::new_enemy(2, 1_000_000, 2_000_000, SpriteType::EnemyDemon);
    assert_eq!(e.entity_type, EntityType::Enemy);
    assert_eq!(e.speed, ENEMY_SPEED);
    assert_eq!(e.speed, 100_000);
    assert_eq!(e.health, ENEMY_HEALTH);
    assert_eq!(e.health, 50);
    assert_eq!(e.sprite_type, SpriteType::EnemyDemon);
    assert_eq!(e.state, EntityState::Idle);
    assert!(e.active);
}

#[test]
fn new_projectile_carries_damage_and_range() {
    let e = Entity::new_projectile(0, 1, 2, 365_000_000, 20, 5_000_000, SpriteType::ProjectilePistol);
    assert_eq!(e.entity_type, EntityType::Projectile);
    assert_eq!(e.transform.angle, 5_000_000);
    assert_eq!(e.speed, PROJECTILE_SPEED);
    assert_eq!(e.speed, 10_000_000);
    assert_eq!(e.health, PROJECTILE_HEALTH);
    assert_eq!(e.health, 1);
    assert_eq!(e.damage, 20);
    assert_eq!(e.max_distance, 5_000_000);
    assert_eq!(e.distance_traveled, 0);
}

#[test]
fn damage_that_leaves_health_makes_hit() {
    let mut e = Entity::new_enemy(1, 0, 0, SpriteType::EnemyImp);
    e.current_frame = 3;
    e.animation_timer = 123;
    e.take_damage(20);
    assert_eq!(e.health, 30);
    assert_eq!(e.state, EntityState::Hit);
    assert_eq!(e.current_frame, 0);
    assert_eq!(e.animation_timer, 0);
    assert!(e.active);
}

#[test]
fn damage_to_exactly_zero_is_lethal() {
    let mut e = Entity::new_enemy(1, 0, 0, SpriteType::EnemyImp);
    e.take_damage(50);
    assert_eq!(e.health, 0);
    assert_eq!(e.state, EntityState::Dying);
}

#[test]
fn third_hit_of_twenty_kills_and_fourth_changes_nothing() {
    let mut e = Entity::new_enemy(1, 0, 0, SpriteType::EnemyImp);
    e.take_damage(20);
    assert_eq!((e.health, e.state), (30, EntityState::Hit));
    e.take_damage(20);
    assert_eq!((e.health, e.state), (10, EntityState::Hit));
    e.take_damage(20);
    assert_eq!((e.health, e.state), (-10, EntityState::Dying));
    e.animation_timer = 77;
    e.current_frame = 2;
    let before = e;
    e.take_damage(20);
    assert_eq!(e, before);
}

#[test]
fn damage_after_death_changes_nothing() {
    let mut e = Entity::new_enemy(1, 0, 0, SpriteType::EnemyImp);
    e.state = EntityState::Dead;
    e.active = false;
    e.health = -3;
    let before = e;
    for amount in [1, 100, -5, i32::MAX, i32::MIN] {
        e.take_damage(amount);
        assert_eq!(e, before);
    }
}

#[test]
fn damage_saturates() {
    let mut e = Entity::new_enemy(1, 0, 0, SpriteType::EnemyImp);
    e.take_damage(i32::MIN);
    assert_eq!(e.health, i32::MAX);
    assert_eq!(e.state, EntityState::Hit);
    let mut e = Entity::new_enemy(1, 0, 0, SpriteType::EnemyImp);
    e.health = 1;
    e.take_damage(i32::MAX);
    assert_eq!(e.health, 1 - i32::MAX);
    assert_eq!(e.state, EntityState::Dying);
}
