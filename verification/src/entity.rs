//! Entities: the player, the enemies and the projectiles, and the life cycle
//! that damage drives them through.

use vstd::prelude::*;
use crate::fixed::{normal_angle, normalize_angle, FULL_TURN};

verus! {

/// A position on the map and a facing, the angle in `[0, FULL_TURN)`.
#[derive(Debug, Clone, Copy, PartialEq, Eq, Structural)]
pub struct Transform {
    pub x: i64,
    pub y: i64,
    pub angle: i64,
}

impl Transform {
    /// A transform at `(x, y)` that faces the way `angle` does.
    pub fn new(x: i64, y: i64, angle: i64) -> (t: Self)
        ensures
            t == (Transform { x, y, angle: normal_angle(angle as int) as i64 }),
            0 <= t.angle < FULL_TURN,
    {
        Transform { x, y, angle: normalize_angle(angle) }
    }
}

#[derive(Debug, Clone, Copy, PartialEq, Eq, Structural)]
pub enum EntityType {
    Player,
    Enemy,
    Projectile,
}

/// Map units per second.
pub const PLAYER_SPEED: i64 = 200_000;

/// Degrees per second.
pub const PLAYER_ROTATION_SPEED: i64 = 50_000_000;

pub const ENEMY_SPEED: i64 = 100_000;

pub const PROJECTILE_SPEED: i64 = 10_000_000;

pub const PLAYER_HEALTH: i32 = 100;

pub const ENEMY_HEALTH: i32 = 50;

pub const PROJECTILE_HEALTH: i32 = 1;

/// Where an entity stands in its life cycle: `Idle` and `Hit` lead into each
/// other, a lethal hit leads to `Dying`, and `Dying` ends in `Dead`.
#[derive(Debug, Clone, Copy, PartialEq, Eq, Structural)]
pub enum EntityState {
    Idle,
    Hit,
    Dying,
    Dead,
}

#[derive(Debug, Clone, Copy, PartialEq, Eq, Structural)]
pub enum SpriteType {
    NoSprite,
    EnemyImp,
    EnemyDemon,
    ProjectilePistol,
    ProjectileShotgun,
    ProjectileGatling,
}

/// One simulated object. `animation_timer` counts microseconds;
/// `max_distance`, `distance_traveled` and `damage` matter for projectiles only.
#[derive(Debug, Clone, Copy, PartialEq, Eq, Structural)]
pub struct Entity {
    pub id: u32,
    pub entity_type: EntityType,
    pub transform: Transform,
    pub speed: i64,
    pub health: i32,
    pub active: bool,
    pub sprite_type: SpriteType,
    pub animation_timer: u64,
    pub current_frame: usize,
    pub state: EntityState,
    pub max_distance: i64,
    pub distance_traveled: i64,
    pub damage: i32,
}

/// The nearest `i32` to `v`.
pub open spec fn clamp_health(v: int) -> i32 {
    if v < i32::MIN {
        i32::MIN
    } else if v > i32::MAX {
        i32::MAX
    } else {
        v as i32
    }
}

impl Entity {
    /// What every entity in a world satisfies: a dead entity is inactive, an
    /// entity that is neither dying nor dead has health left, and the facing is
    /// normalized.
    pub open spec fn wf(self) -> bool {
        &&& self.state == EntityState::Dead ==> !self.active
        &&& (self.state == EntityState::Idle || self.state == EntityState::Hit) ==> self.health > 0
        &&& 0 <= self.transform.angle < FULL_TURN
    }

    /// Whether damage no longer reaches the entity.
    pub open spec fn is_terminal(self) -> bool {
        self.state == EntityState::Dying || self.state == EntityState::Dead
    }

    /// The entity after `amount` damage: unchanged once dying or dead; otherwise
    /// the health drops by `amount` (saturating), the state becomes `Dying` if no
    /// health is left and `Hit` if some is, and the animation starts anew.
    pub open spec fn damaged(self, amount: i32) -> Entity {
        if self.is_terminal() {
            self
        } else {
            let health = clamp_health(self.health - amount);
            Entity {
                health,
                state: if health <= 0 {
                    EntityState::Dying
                } else {
                    EntityState::Hit
                },
                current_frame: 0,
                animation_timer: 0,
                ..self
            }
        }
    }

    /// The player that stands at `(x, y)` under the id `id`, as it is at first.
    pub open spec fn player_at(id: u32, x: i64, y: i64) -> Entity {
        Entity {
            id,
            entity_type: EntityType::Player,
            transform: Transform { x, y, angle: 0 },
            speed: PLAYER_SPEED,
            health: PLAYER_HEALTH,
            active: true,
            sprite_type: SpriteType::NoSprite,
            animation_timer: 0,
            current_frame: 0,
            state: EntityState::Idle,
            max_distance: 0,
            distance_traveled: 0,
            damage: 0,
        }
    }

    /// The enemy that stands at `(x, y)` under the id `id` and looks like
    /// `sprite_type`, as it is at first.
    pub open spec fn enemy_at(id: u32, x: i64, y: i64, sprite_type: SpriteType) -> Entity {
        Entity {
            id,
            entity_type: EntityType::Enemy,
            transform: Transform { x, y, angle: 0 },
            speed: ENEMY_SPEED,
            health: ENEMY_HEALTH,
            active: true,
            sprite_type,
            animation_timer: 0,
            current_frame: 0,
            state: EntityState::Idle,
            max_distance: 0,
            distance_traveled: 0,
            damage: 0,
        }
    }

    /// The projectile that leaves `(x, y)` the way `angle` points under the id
    /// `id`, as it is at first: it does `damage` on a hit and is spent after
    /// `max_distance`.
    pub open spec fn projectile_at(
        id: u32,
        x: i64,
        y: i64,
        angle: i64,
        damage: i32,
        max_distance: i64,
        sprite_type: SpriteType,
    ) -> Entity {
        Entity {
            id,
            entity_type: EntityType::Projectile,
            transform: Transform { x, y, angle: normal_angle(angle as int) as i64 },
            speed: PROJECTILE_SPEED,
            health: PROJECTILE_HEALTH,
            active: true,
            sprite_type,
            animation_timer: 0,
            current_frame: 0,
            state: EntityState::Idle,
            max_distance,
            distance_traveled: 0,
            damage,
        }
    }

    /// `self` under the id `id`.
    pub open spec fn with_id(self, id: u32) -> Entity {
        Entity { id, ..self }
    }

    /// A player at `(x, y)`.
    pub fn new_player(id: u32, x: i64, y: i64) -> (e: Self)
        ensures
            e == Entity::player_at(id, x, y),
            e.wf(),
    {
        Entity {
            id,
            entity_type: EntityType::Player,
            transform: Transform::new(x, y, 0),
            speed: PLAYER_SPEED,
            health: PLAYER_HEALTH,
            active: true,
            sprite_type: SpriteType::NoSprite,
            animation_timer: 0,
            current_frame: 0,
            state: EntityState::Idle,
            max_distance: 0,
            distance_traveled: 0,
            damage: 0,
        }
    }

    /// An enemy at `(x, y)` that looks like `sprite_type`.
    pub fn new_enemy(id: u32, x: i64, y: i64, sprite_type: SpriteType) -> (e: Self)
        ensures
            e == Entity::enemy_at(id, x, y, sprite_type),
            e.wf(),
    {
        Entity {
            id,
            entity_type: EntityType::Enemy,
            transform: Transform::new(x, y, 0),
            speed: ENEMY_SPEED,
            health: ENEMY_HEALTH,
            active: true,
            sprite_type,
            animation_timer: 0,
            current_frame: 0,
            state: EntityState::Idle,
            max_distance: 0,
            distance_traveled: 0,
            damage: 0,
        }
    }

    /// A projectile at `(x, y)` that flies the way `angle` points, does `damage`
    /// on a hit and is spent after `max_distance`.
    pub fn new_projectile(
        id: u32,
        x: i64,
        y: i64,
        angle: i64,
        damage: i32,
        max_distance: i64,
        sprite_type: SpriteType,
    ) -> (e: Self)
        ensures
            e == Entity::projectile_at(id, x, y, angle, damage, max_distance, sprite_type),
            e.wf(),
    {
        Entity {
            id,
            entity_type: EntityType::Projectile,
            transform: Transform::new(x, y, angle),
            speed: PROJECTILE_SPEED,
            health: PROJECTILE_HEALTH,
            active: true,
            sprite_type,
            animation_timer: 0,
            current_frame: 0,
            state: EntityState::Idle,
            max_distance,
            distance_traveled: 0,
            damage,
        }
    }

    /// Takes `amount` from the health and moves the life cycle on; does nothing
    /// to an entity that is dying or dead.
    pub fn take_damage(&mut self, amount: i32)
        ensures
            *final(self) == old(self).damaged(amount),
    {
        if self.state == EntityState::Dying || self.state == EntityState::Dead {
            return ;
        }
        let wide: i64 = (self.health as i64) - (amount as i64);
        let health: i32 = if wide < -2_147_483_648 {
            i32::MIN
        } else if wide > 2_147_483_647 {
            i32::MAX
        } else {
            wide as i32
        };
        self.health = health;
        if health <= 0 {
            self.state = EntityState::Dying;
        } else {
            self.state = EntityState::Hit;
        }
        self.current_frame = 0;
        self.animation_timer = 0;
    }
}

/// Damage keeps an entity well-formed.
pub proof fn lemma_damaged_wf(e: Entity, amount: i32)
    requires
        e.wf(),
    ensures
        e.damaged(amount).wf(),
{
}

/// `e` after the damages `amounts`, dealt one after the other.
pub open spec fn damaged_by_all(e: Entity, amounts: Seq<i32>) -> Entity
    decreases amounts.len(),
{
    if amounts.len() == 0 {
        e
    } else {
        damaged_by_all(e, amounts.drop_last()).damaged(amounts.last())
    }
}

/// Once an entity is dying or dead, damage changes nothing, however often it
/// is dealt.
pub proof fn lemma_damage_after_terminal(e: Entity, amounts: Seq<i32>)
    requires
        e.is_terminal(),
    ensures
        damaged_by_all(e, amounts) == e,
    decreases amounts.len(),
{
    if amounts.len() > 0 {
        lemma_damage_after_terminal(e, amounts.drop_last());
    }
}

/// A lethal hit is final: whatever damage follows, health and state stay as the
/// lethal hit left them.
pub proof fn lemma_lethal_hit_is_final(e: Entity, lethal: i32, later: Seq<i32>)
    requires
        !e.is_terminal(),
        e.health - lethal <= 0,
    ensures
        e.damaged(lethal).state == EntityState::Dying,
        damaged_by_all(e.damaged(lethal), later) == e.damaged(lethal),
{
    lemma_damage_after_terminal(e.damaged(lethal), later);
}

} // verus!
