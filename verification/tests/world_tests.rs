use grid_engine::entity::{Entity, EntityState, EntityType, SpriteType};
use grid_engine::world::World;

#[test]
fn a_new_world_is_empty() {
    let w = World::new();
    assert!(w.entities.is_empty());
    assert_eq!(w.next_entity_id, 1);
    assert!(w.get_player().is_none());
    assert!(w.get_entity(1).is_none());
}

#[test]
fn spawn_assigns_the_next_id_whatever_the_caller_set() {
    let mut w = World::new();
    let a = w.spawn_entity(Entity::new_player(99, 0, 0));
    let b = w.spawn_entity(Entity::new_enemy(99, 0, 0, SpriteType::EnemyImp));
    let c = w.spawn_entity(Entity::new_enemy(1, 0, 0, SpriteType::EnemyImp));
    assert_eq!((a, b, c), (1, 2, 3));
    assert_eq!(w.get_entity(1).unwrap().id, 1);
    assert_eq!(w.get_entity(2).unwrap().id, 2);
    assert_eq!(w.get_entity(3).unwrap().id, 3);
    assert!(w.get_entity(99).is_none());
    assert_eq!(w.next_entity_id, 4);
}

#[test]
fn ids_are_not_reused_after_removal() {
    let mut w = World::new();
    let a = w.spawn_enemy(0, 0, SpriteType::EnemyImp);
    let removed = w.remove_entity(a).unwrap();
    assert_eq!(removed.id, a);
    assert!(w.get_entity(a).is_none());
    let b = w.spawn_enemy(0, 0, SpriteType::EnemyImp);
    assert_eq!(b, a + 1);
}

#[test]
fn removing_a_missing_id_does_nothing() {
    let mut w = World::new();
    w.spawn_enemy(0, 0, SpriteType::EnemyImp);
    assert!(w.remove_entity(42).is_none());
    assert_eq!(w.entities.len(), 1);
}

#[test]
fn removing_keeps_the_others_in_order() {
    let mut w = World::new();
    w.spawn_enemy(1, 0, SpriteType::EnemyImp);
    w.spawn_enemy(2, 0, SpriteType::EnemyImp);
    w.spawn_enemy(3, 0, SpriteType::EnemyImp);
    w.remove_entity(2);
    let ids: Vec<u32> = w.entities.iter().map(|e| e.id).collect();
    assert_eq!(ids, vec![1, 3]);
    assert_eq!(w.find(3), Some(1));
    assert_eq!(w.find(2), None);
}

#[test]
fn the_player_is_the_first_active_entity_of_type_player() {
    let mut w = World::new();
    w.spawn_enemy(0, 0, SpriteType::EnemyImp);
    let first = w.spawn_entity(Entity::new_player(0, 3_500_000, 3_500_000));
    let second = w.spawn_entity(Entity::new_player(0, 9_000_000, 9_000_000));
    assert_eq!(w.get_player().unwrap().id, first);
    assert_eq!(w.find_player(), Some(1));
    w.get_entity_mut(first).unwrap().active = false;
    assert_eq!(w.get_player().unwrap().id, second);
    assert!(w.get_player().unwrap().active);
    assert_eq!(w.find_player(), Some(2));
    w.get_player_mut().unwrap().health = 9;
    assert_eq!(w.get_entity(second).unwrap().health, 9);
    assert_eq!(w.get_entity(first).unwrap().health, 100);
    w.get_entity_mut(second).unwrap().active = false;
    assert!(w.get_player().is_none());
    assert!(w.get_player_mut().is_none());
    assert_eq!(w.find_player(), None);
}

#[test]
fn typed_filters_return_the_active_ones_only() {
    let mut w = World::new();
    w.spawn_entity(Entity::new_player(0, 0, 0));
    let e1 = w.spawn_enemy(1, 1, SpriteType::EnemyImp);
    let e2 = w.spawn_enemy(2, 2, SpriteType::EnemyDemon);
    let shot_a = w.spawn_projectile(3, 3, 0, 20, 5_000_000, SpriteType::ProjectilePistol);
    let shot_b = w.spawn_projectile(4, 4, 0, 20, 5_000_000, SpriteType::ProjectilePistol);
    w.get_entity_mut(e1).unwrap().active = false;
    w.get_entity_mut(shot_b).unwrap().active = false;
    let enemies: Vec<u32> = w.get_enemies().iter().map(|e| e.id).collect();
    let projectiles: Vec<u32> = w.get_projectiles().iter().map(|e| e.id).collect();
    assert_eq!(enemies, vec![e2]);
    assert_eq!(projectiles, vec![shot_a]);
    let players: Vec<u32> = w.get_active(EntityType::Player).iter().map(|e| e.id).collect();
    assert_eq!(players, vec![1]);
}

#[test]
fn get_entity_mut_changes_the_entity_in_place() {
    let mut w = World::new();
    let id = w.spawn_enemy(1, 1, SpriteType::EnemyImp);
    w.get_entity_mut(id).unwrap().health = 7;
    assert_eq!(w.get_entity(id).unwrap().health, 7);
    assert!(w.get_entity_mut(id + 1).is_none());
}

#[test]
fn get_player_mut_changes_the_player_in_place() {
    let mut w = World::new();
    assert!(w.get_player_mut().is_none());
    w.spawn_enemy(1, 1, SpriteType::EnemyImp);
    let id = w.spawn_entity(Entity::new_player(0, 0, 0));
    w.get_player_mut().unwrap().health = 55;
    assert_eq!(w.get_entity(id).unwrap().health, 55);
}

#[test]
fn spawn_projectile_builds_a_projectile() {
    let mut w = World::new();
    let id = w.spawn_projectile(3_500_000, 3_500_000, 90_000_000, 20, 5_000_000, SpriteType::ProjectileShotgun);
    let p = *w.get_entity(id).unwrap();
    let mut expected =
        Entity::new_projectile(id, 3_500_000, 3_500_000, 90_000_000, 20, 5_000_000, SpriteType::ProjectileShotgun);
    expected.id = id;
    assert_eq!(p, expected);
    assert_eq!(p.state, EntityState::Idle);
}

#[test]
fn respawn_keeps_the_player_and_spawns_the_default_roster() {
    let mut w = World::new();
    w.spawn_enemy(1, 1, SpriteType::EnemyDemon);
    let p = w.spawn_entity(Entity::new_player(0, 3_500_000, 3_500_000));
    w.spawn_projectile(3, 3, 0, 20, 5_000_000, SpriteType::ProjectilePistol);
    w.get_entity_mut(1).unwrap().active = false;
    w.respawn_enemies();
    assert_eq!(w.entities.len(), 4);
    assert_eq!(w.entities[0].id, p);
    assert_eq!(w.entities[0].entity_type, EntityType::Player);
    let roster: Vec<(u32, i64, i64, SpriteType)> =
        w.entities[1..].iter().map(|e| (e.id, e.transform.x, e.transform.y, e.sprite_type)).collect();
    assert_eq!(
        roster,
        vec![
            (4, 10_000_000, 15_000_000, SpriteType::EnemyImp),
            (5, 8_000_000, 8_000_000, SpriteType::EnemyDemon),
            (6, 18_000_000, 12_000_000, SpriteType::EnemyImp),
        ]
    );
    for e in &w.entities[1..] {
        assert_eq!(e.entity_type, EntityType::Enemy);
        assert_eq!(e.health, 50);
        assert!(e.active);
    }
    assert_eq!(w.next_entity_id, 7);
}

#[test]
fn reset_drops_everything_and_spawns_the_default_roster() {
    let mut w = World::new();
    w.spawn_entity(Entity::new_player(0, 3_500_000, 3_500_000));
    w.spawn_enemy(1, 1, SpriteType::EnemyDemon);
    w.reset();
    assert!(w.get_player().is_none());
    let ids: Vec<u32> = w.entities.iter().map(|e| e.id).collect();
    assert_eq!(ids, vec![3, 4, 5]);
    assert_eq!(w.get_enemies().len(), 3);
}

#[test]
fn a_copy_of_a_world_holds_the_same() {
    let mut w = World::new();
    w.spawn_entity(Entity::new_player(0, 3_500_000, 3_500_000));
    w.spawn_enemy(1, 1, SpriteType::EnemyDemon);
    let c = w.duplicate();
    assert_eq!(c.entities, w.entities);
    assert_eq!(c.next_entity_id, w.next_entity_id);
}

#[test]
fn a_world_is_restored_only_from_sound_parts() {
    let a = Entity::new_player(1, 0, 0);
    let b = Entity::new_enemy(3, 0, 0, SpriteType::EnemyImp);
    let w = World::restore(vec![a, b], 4).unwrap();
    assert_eq!(w.entities, vec![a, b]);
    assert_eq!(w.next_entity_id, 4);
    assert!(World::restore(vec![], 1).is_some());
    assert!(World::restore(vec![], 0).is_none());
    assert!(World::restore(vec![a, b], 3).is_none());
    assert!(World::restore(vec![b, a], 4).is_none());
    assert!(World::restore(vec![a, a], 4).is_none());
    assert!(World::restore(vec![Entity::new_player(0, 0, 0)], 4).is_none());
    let mut dead_but_active = b;
    dead_but_active.state = EntityState::Dead;
    assert!(World::restore(vec![a, dead_but_active], 4).is_none());
    dead_but_active.active = false;
    assert!(World::restore(vec![a, dead_but_active], 4).is_some());
    let mut idle_without_health = b;
    idle_without_health.health = 0;
    assert!(World::restore(vec![idle_without_health], 4).is_none());
    idle_without_health.state = EntityState::Dying;
    assert!(World::restore(vec![idle_without_health], 4).is_some());
    let mut askew = b;
    askew.transform.angle = 360_000_000;
    assert!(World::restore(vec![askew], 4).is_none());
    askew.transform.angle = -1;
    assert!(World::restore(vec![askew], 4).is_none());
}
