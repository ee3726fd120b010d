//! One frame of the game: what the player's input does to the world, and the
//! step of the simulation that follows it.

use vstd::prelude::*;
use crate::entity::{Entity, SpriteType, Transform, PLAYER_ROTATION_SPEED, PLAYER_SPEED};
use crate::fixed::{cell, clamp, minus, plus, product, times, trunc_div, QUARTER_TURN, UNIT};
use crate::input::{Action, InputManager};
use crate::level::Level;
use crate::physics::{advanced, displaced, kills_in, placed, step_length, stepped, turned, Physics};
use crate::player::{pause_end, Player};
use crate::trig::TrigTable;
use crate::weapon::{gatling, pistol, projectile_sprite, projectile_sprite_of, shotgun, Weapon, WeaponState};
use crate::world::{has_id, index_of, lemma_index_of, players_of, restocked, world_wf, World};

verus! {

/// How far before the player a projectile leaves the barrel.
pub const GUN_OFFSET: i64 = 500_000;

/// A game: the player with the entity that stands for it in the world, the
/// world, the level, the size of the screen, and the frame rate with the time
/// from which it can be changed again.
pub struct Game {
    pub player: Player,
    pub player_entity_id: u32,
    pub world: World,
    pub level: Level,
    pub term_size: (u16, u16),
    pub target_fps: u32,
    pub fps_toggle_cooldown: u64,
}

/// What a frame changes of a game, as plain values: the entities and the next
/// id of its world, the player's weapons, health and score, the frame rate,
/// the size of the screen, and where the player was last seen to stand.
pub struct GameView {
    pub entities: Seq<Entity>,
    pub next_entity_id: u32,
    pub weapons: Seq<Weapon>,
    pub current_weapon: usize,
    pub switch_cooldown_expiry: u64,
    pub health: u32,
    pub kills: u32,
    pub target_fps: u32,
    pub fps_toggle_cooldown: u64,
    pub term_size: (u16, u16),
    pub transform: Transform,
}

/// What the player's input asks for in one frame.
pub struct Orders {
    pub forward: bool,
    pub backward: bool,
    pub strafe_left: bool,
    pub strafe_right: bool,
    pub rotate_left: bool,
    pub rotate_right: bool,
}

/// The speed at which the player moves and the speed at which it turns: its
/// own, less the weapon's share while the weapon in hand is firing.
pub open spec fn speeds(weapon: Weapon, max_speed: i64, max_rotation_speed: i64) -> (i64, i64) {
    if weapon.state == WeaponState::Firing {
        let left = clamp(UNIT - weapon.movement_penalty);
        (clamp(product(max_speed as int, left as int)), clamp(product(max_rotation_speed as int, left as int)))
    } else {
        (max_speed, max_rotation_speed)
    }
}

/// `es` after the entity `id` has tried to go `distance` the way that lies
/// `offset` on from its facing: it stands at the new place if that is open,
/// and nothing has changed if not, or if there is no such entity.
pub open spec fn walked(
    es: Seq<Entity>,
    id: u32,
    offset: int,
    distance: i64,
    level: &Level,
    trig: &TrigTable,
) -> Seq<Entity> {
    let at = index_of(es, id);
    let to = displaced(es[at].transform.x, es[at].transform.y, es[at].transform.angle + offset, distance, trig);
    if has_id(es, id) && level.passable(cell(to.0 as int), cell(to.1 as int)) {
        es.update(at, placed(es[at], to.0, to.1))
    } else {
        es
    }
}

/// `es` after the entity `id` has turned by `delta`.
pub open spec fn spun(es: Seq<Entity>, id: u32, delta: i64) -> Seq<Entity> {
    if has_id(es, id) {
        es.update(index_of(es, id), turned(es[index_of(es, id)], delta))
    } else {
        es
    }
}

/// `es` after the entity `id` has done what `orders` asks for, each move by
/// `step` and each turn by `turn`: forward, backward, to the right, to the
/// left, a turn to the left and a turn to the right, in this order.
pub open spec fn steered(
    es: Seq<Entity>,
    id: u32,
    orders: Orders,
    step: i64,
    turn: i64,
    level: &Level,
    trig: &TrigTable,
) -> Seq<Entity> {
    let back = clamp(-step);
    let e1 = if orders.forward {
        walked(es, id, 0, step, level, trig)
    } else {
        es
    };
    let e2 = if orders.backward {
        walked(e1, id, 0, back, level, trig)
    } else {
        e1
    };
    let e3 = if orders.strafe_right {
        walked(e2, id, QUARTER_TURN as int, step, level, trig)
    } else {
        e2
    };
    let e4 = if orders.strafe_left {
        walked(e3, id, QUARTER_TURN as int, back, level, trig)
    } else {
        e3
    };
    let e5 = if orders.rotate_left {
        spun(e4, id, turn)
    } else {
        e4
    };
    if orders.rotate_right {
        spun(e5, id, clamp(-turn))
    } else {
        e5
    }
}

/// The way the `i`-th of `count` projectiles of one shot flies, for a weapon
/// that spreads its projectiles `spread` apart round the way `angle`.
pub open spec fn shot_angle(angle: i64, i: int, count: int, spread: i64) -> i64 {
    if count > 1 {
        clamp(angle + clamp(trunc_div((2 * i - (count - 1)) * spread, 2)))
    } else {
        angle
    }
}

/// The `i`-th projectile of one shot of the weapon `weapon`, fired from
/// `(x, y)` the way `angle` points, under the id `id`.
pub open spec fn bullet(id: u32, x: i64, y: i64, angle: i64, i: int, weapon: Weapon) -> Entity {
    Entity::projectile_at(
        id,
        x,
        y,
        shot_angle(angle, i, weapon.projectile_count as int, weapon.spread),
        weapon.damage,
        weapon.range,
        projectile_sprite_of(weapon.weapon_type),
    )
}

/// `es` with the first `n` projectiles of one shot behind it, under the ids
/// from `next` on.
pub open spec fn volley(es: Seq<Entity>, next: u32, x: i64, y: i64, angle: i64, n: int, weapon: Weapon) -> Seq<
    Entity,
>
    decreases n,
{
    if n <= 0 {
        es
    } else {
        volley(es, next, x, y, angle, n - 1, weapon).push(
            bullet((next + n - 1) as u32, x, y, angle, n - 1, weapon),
        )
    }
}

/// How many of the `count` projectiles of a shot get an id, where the next id
/// is `next`.
pub open spec fn volley_size(count: u32, next: u32) -> int {
    if count <= u32::MAX - next {
        count as int
    } else {
        u32::MAX - next
    }
}

/// The length of a host's frame, in microseconds.
pub const HOST_FRAME: u64 = 16_000;

/// The speed at which a player who plays alone or hosts moves and the speed
/// at which it turns: twice the walking speed while sprinting, each less the
/// share that the weapon in hand takes, of which turning bears half.
pub open spec fn solo_speeds(sprint: bool, weapon: Weapon) -> (i64, i64) {
    let base = if sprint {
        2 * PLAYER_SPEED
    } else {
        PLAYER_SPEED as int
    };
    let half = clamp(product(weapon.movement_penalty as int, UNIT / 2));
    (
        clamp(product(base, clamp(UNIT - weapon.movement_penalty) as int)),
        clamp(product(PLAYER_ROTATION_SPEED as int, clamp(UNIT - half) as int)),
    )
}

/// `es` after the entity `id` has done what `orders` asks for, as one who
/// plays alone or hosts does it: forward, backward, a turn to the left, a turn
/// to the right, a move to the left and a move to the right, in this order,
/// each move by `step` and each turn by `turn`. A turn to the left lowers the
/// angle.
pub open spec fn solo_steered(
    es: Seq<Entity>,
    id: u32,
    orders: Orders,
    step: i64,
    turn: i64,
    level: &Level,
    trig: &TrigTable,
) -> Seq<Entity> {
    let back = clamp(-step);
    let e1 = if orders.forward {
        walked(es, id, 0, step, level, trig)
    } else {
        es
    };
    let e2 = if orders.backward {
        walked(e1, id, 0, back, level, trig)
    } else {
        e1
    };
    let e3 = if orders.rotate_left {
        spun(e2, id, clamp(-turn))
    } else {
        e2
    };
    let e4 = if orders.rotate_right {
        spun(e3, id, turn)
    } else {
        e3
    };
    let e5 = if orders.strafe_left {
        walked(e4, id, QUARTER_TURN as int, back, level, trig)
    } else {
        e4
    };
    if orders.strafe_right {
        walked(e5, id, QUARTER_TURN as int, step, level, trig)
    } else {
        e5
    }
}

impl View for Game {
    type V = GameView;

    /// What a frame changes of the game.
    open spec fn view(&self) -> GameView {
        GameView {
            entities: self.world.entities@,
            next_entity_id: self.world.next_entity_id,
            weapons: self.player.weapons@,
            current_weapon: self.player.current_weapon,
            switch_cooldown_expiry: self.player.switch_cooldown_expiry,
            health: self.player.health,
            kills: self.player.kills,
            target_fps: self.target_fps,
            fps_toggle_cooldown: self.fps_toggle_cooldown,
            term_size: self.term_size,
            transform: self.player.transform,
        }
    }
}

impl GameView {
    /// The weapon in hand.
    pub open spec fn weapon(self) -> Weapon {
        self.weapons[self.current_weapon as int]
    }

    /// After a call to change the frame rate at the time `now`: it goes from
    /// 60 to 30 and from anything else to 60, unless it was changed less than
    /// half a second ago.
    pub open spec fn fps_toggled(self, now: u64) -> GameView {
        if now >= self.fps_toggle_cooldown {
            GameView {
                target_fps: if self.target_fps == 60 {
                    30
                } else {
                    60
                },
                fps_toggle_cooldown: pause_end(now),
                ..self
            }
        } else {
            self
        }
    }

    /// After the trigger is pulled at the time `now`: nothing where the pause
    /// after a change of weapon is on; else the weapon fires if it can, and a
    /// shot puts its projectiles into the world, `GUN_OFFSET` before the
    /// entity `id`, as far as there are ids for them.
    pub open spec fn shot(self, id: u32, now: u64, trig: &TrigTable) -> GameView {
        if now < self.switch_cooldown_expiry {
            self
        } else {
            let weapons = self.weapons.update(self.current_weapon as int, self.weapon().fired(now));
            if self.weapon().can_fire() && has_id(self.entities, id) {
                let e = self.entities[index_of(self.entities, id)];
                let at = displaced(e.transform.x, e.transform.y, e.transform.angle as int, GUN_OFFSET, trig);
                let n = volley_size(self.weapon().projectile_count, self.next_entity_id);
                GameView {
                    weapons,
                    entities: volley(
                        self.entities,
                        self.next_entity_id,
                        at.0,
                        at.1,
                        e.transform.angle,
                        n,
                        self.weapon().fired(now),
                    ),
                    next_entity_id: (self.next_entity_id + n) as u32,
                    ..self
                }
            } else {
                GameView { weapons, ..self }
            }
        }
    }

    /// After a call for reloading at the time `now`.
    pub open spec fn reloaded(self, now: u64) -> GameView {
        if now < self.switch_cooldown_expiry {
            self
        } else {
            GameView {
                weapons: self.weapons.update(self.current_weapon as int, self.weapon().reloading(now)),
                ..self
            }
        }
    }

    /// After a call for fresh enemies: the world is restocked if it has three
    /// ids left.
    pub open spec fn restocked(self) -> GameView {
        if self.next_entity_id + 3 <= u32::MAX {
            GameView {
                entities: restocked(players_of(self.entities), self.next_entity_id),
                next_entity_id: (self.next_entity_id + 3) as u32,
                ..self
            }
        } else {
            self
        }
    }

    /// After a call for the weapon `index` at the time `now`.
    pub open spec fn switched(self, index: usize, now: u64) -> GameView {
        if index < self.weapons.len() && index != self.current_weapon {
            GameView { current_weapon: index, switch_cooldown_expiry: pause_end(now), ..self }
        } else {
            self
        }
    }

    /// After the player's health is set to that of the entity `id`, to zero
    /// where that is negative.
    pub open spec fn synced(self, id: u32) -> GameView {
        if has_id(self.entities, id) {
            let health = self.entities[index_of(self.entities, id)].health;
            GameView {
                health: if health < 0 {
                    0
                } else {
                    health as u32
                },
                ..self
            }
        } else {
            self
        }
    }

    /// After the simulation has advanced the world by the time `dt` and the
    /// enemies that died in it are added to the score, which saturates.
    pub open spec fn simulated(self, dt: u64, level: &Level, trig: &TrigTable) -> GameView {
        let kills = kills_in(advanced(self.entities, dt, level, trig), dt);
        GameView {
            entities: stepped(self.entities, dt, level, trig),
            kills: if self.kills + kills > u32::MAX {
                u32::MAX
            } else {
                (self.kills + kills) as u32
            },
            ..self
        }
    }

    /// After what `input` says of the frame rate is done.
    pub open spec fn fps_commanded(self, input: &InputManager, now: u64) -> GameView {
        if input.is_on(Action::ToggleFPS) {
            self.fps_toggled(now)
        } else {
            self
        }
    }

    /// After what `input` says of firing and then of reloading is done.
    pub open spec fn fire_commanded(self, input: &InputManager, id: u32, now: u64, trig: &TrigTable) -> GameView {
        let fired = if input.is_on(Action::Shoot) {
            self.shot(id, now, trig)
        } else {
            self
        };
        if input.is_on(Action::Reload) {
            fired.reloaded(now)
        } else {
            fired
        }
    }

    /// After what `input` says of fresh enemies is done.
    pub open spec fn restock_commanded(self, input: &InputManager) -> GameView {
        if input.is_on(Action::RespawnEnemies) {
            self.restocked()
        } else {
            self
        }
    }

    /// After what `input` says of the weapon in hand is done: the calls for
    /// the first, the second and the third weapon, in this order.
    pub open spec fn weapon_commanded(self, input: &InputManager, now: u64) -> GameView {
        let g1 = if input.is_on(Action::SwitchWeapon1) {
            self.switched(0, now)
        } else {
            self
        };
        let g2 = if input.is_on(Action::SwitchWeapon2) {
            g1.switched(1, now)
        } else {
            g1
        };
        if input.is_on(Action::SwitchWeapon3) {
            g2.switched(2, now)
        } else {
            g2
        }
    }

    /// After the player is set to where its entity `id` stands and to that
    /// entity's health, to zero where that is negative.
    pub open spec fn seen_again(self, id: u32) -> GameView {
        if has_id(self.entities, id) {
            GameView { transform: self.entities[index_of(self.entities, id)].transform, ..self.synced(id) }
        } else {
            self
        }
    }

    /// After the trigger is pulled at the time `now` by one who plays alone:
    /// nothing where the pause after a change of weapon is on; else the weapon
    /// fires if it can, and a shot puts its projectiles into the world,
    /// `GUN_OFFSET` before where the player was last seen, as far as there are
    /// ids for them.
    pub open spec fn solo_shot(self, now: u64, trig: &TrigTable) -> GameView {
        if now < self.switch_cooldown_expiry {
            self
        } else {
            let weapons = self.weapons.update(self.current_weapon as int, self.weapon().fired(now));
            if self.weapon().can_fire() {
                let t = self.transform;
                let at = displaced(t.x, t.y, t.angle as int, GUN_OFFSET, trig);
                let n = volley_size(self.weapon().projectile_count, self.next_entity_id);
                GameView {
                    weapons,
                    entities: volley(
                        self.entities,
                        self.next_entity_id,
                        at.0,
                        at.1,
                        t.angle,
                        n,
                        self.weapon().fired(now),
                    ),
                    next_entity_id: (self.next_entity_id + n) as u32,
                    ..self
                }
            } else {
                GameView { weapons, ..self }
            }
        }
    }

    /// After what `input` says of firing and then of reloading is done by one
    /// who plays alone.
    pub open spec fn solo_fire_commanded(self, input: &InputManager, now: u64, trig: &TrigTable) -> GameView {
        let fired = if input.is_on(Action::Shoot) {
            self.solo_shot(now, trig)
        } else {
            self
        };
        if input.is_on(Action::Reload) {
            fired.reloaded(now)
        } else {
            fired
        }
    }

    /// After the simulation has advanced the world by the time `dt`, the
    /// score left as it is.
    pub open spec fn advanced_by(self, dt: u64, level: &Level, trig: &TrigTable) -> GameView {
        GameView { entities: stepped(self.entities, dt, level, trig), ..self }
    }

    /// After the animation of the weapon in hand has moved on to `now`.
    pub open spec fn animated(self, now: u64) -> GameView {
        GameView {
            weapons: self.weapons.update(self.current_weapon as int, self.weapon().updated(now)),
            ..self
        }
    }
}

/// The orders that `input` holds.
pub open spec fn orders_of(input: &InputManager) -> Orders {
    Orders {
        forward: input.is_on(Action::MoveForward),
        backward: input.is_on(Action::MoveBackward),
        strafe_left: input.is_on(Action::StrafeLeft),
        strafe_right: input.is_on(Action::StrafeRight),
        rotate_left: input.is_on(Action::RotateLeft),
        rotate_right: input.is_on(Action::RotateRight),
    }
}

/// The game after the input of one frame is dealt with, before the simulation
/// advances: the frame rate, the moves and turns, the shot, reloading, fresh
/// enemies, and the change of weapon, in this order.
pub open spec fn commanded(
    g: GameView,
    id: u32,
    max_speed: i64,
    max_rotation_speed: i64,
    input: &InputManager,
    term_size: (u16, u16),
    now: u64,
    dt: u64,
    level: &Level,
    trig: &TrigTable,
) -> GameView {
    let pace = speeds(g.weapon(), max_speed, max_rotation_speed);
    let g1 = (GameView { term_size, ..g }).fps_commanded(input, now);
    let g2 = GameView {
        entities: steered(
            g1.entities,
            id,
            orders_of(input),
            step_length(pace.0, dt),
            step_length(pace.1, dt),
            level,
            trig,
        ),
        ..g1
    };
    g2.fire_commanded(input, id, now, trig).restock_commanded(input).weapon_commanded(input, now)
}

/// The game after one frame: the input is dealt with, and unless it asks to
/// quit, the player's health follows its entity, the simulation advances, and
/// the weapon's animation moves on.
pub open spec fn framed(
    g: GameView,
    id: u32,
    max_speed: i64,
    max_rotation_speed: i64,
    input: &InputManager,
    term_size: (u16, u16),
    now: u64,
    dt: u64,
    level: &Level,
    trig: &TrigTable,
) -> GameView {
    let c = commanded(g, id, max_speed, max_rotation_speed, input, term_size, now, dt, level, trig);
    if input.is_on(Action::Quit) {
        c
    } else {
        c.synced(id).simulated(dt, level, trig).animated(now)
    }
}

/// The game after the moves and turns of one frame of the time `dt`, as one
/// who plays alone or hosts makes them, and with the player set to where its
/// entity then stands.
pub open spec fn solo_moved(
    g: GameView,
    id: u32,
    input: &InputManager,
    dt: u64,
    level: &Level,
    trig: &TrigTable,
) -> GameView {
    let pace = solo_speeds(input.is_on(Action::Sprint), g.weapon());
    (GameView {
        entities: solo_steered(
            g.entities,
            id,
            orders_of(input),
            step_length(pace.0, dt),
            step_length(pace.1, dt),
            level,
            trig,
        ),
        ..g
    }).seen_again(id)
}

/// The game after one frame of one who plays alone and does not quit: the
/// moves and turns, the shot, reloading, the change of weapon, one step of
/// the simulation with its kills added to the score, and the weapon's
/// animation, in this order.
pub open spec fn solo_framed(
    g: GameView,
    id: u32,
    input: &InputManager,
    term_size: (u16, u16),
    now: u64,
    dt: u64,
    level: &Level,
    trig: &TrigTable,
) -> GameView {
    solo_moved(GameView { term_size, ..g }, id, input, dt, level, trig).solo_fire_commanded(
        input,
        now,
        trig,
    ).weapon_commanded(input, now).simulated(dt, level, trig).animated(now)
}

/// The game after one frame of a host: the moves and turns over a frame of
/// `HOST_FRAME`, and one step of the simulation of that length. A host
/// neither fires nor keeps a score.
pub open spec fn host_framed(
    g: GameView,
    id: u32,
    input: &InputManager,
    term_size: (u16, u16),
    level: &Level,
    trig: &TrigTable,
) -> GameView {
    GameView {
        term_size,
        ..solo_moved(g, id, input, HOST_FRAME, level, trig).advanced_by(HOST_FRAME, level, trig)
    }
}

impl Game {
    /// The world, the level and the player are well-formed.
    pub open spec fn wf(&self) -> bool {
        &&& self.world.wf()
        &&& self.level.wf()
        &&& self.player.wf()
    }

    /// Whether `self` has the setting of `other`: the level, the player's
    /// entity and the speeds that the player has at best.
    pub open spec fn same_setting(&self, other: &Game) -> bool {
        &&& self.level == other.level
        &&& self.player_entity_id == other.player_entity_id
        &&& self.player.entity_id == other.player.entity_id
        &&& self.player.max_speed == other.player.max_speed
        &&& self.player.max_rotation_speed == other.player.max_rotation_speed
    }

    /// A new game on `level` at the time `now`: the player at `(3.5, 3.5)`, an
    /// imp at `(10.5, 10.5)` and a demon at `(7.5, 7.5)`, at 30 frames a second.
    pub fn new(level: Level, term_size: (u16, u16), now: u64) -> (g: Self)
        requires
            level.wf(),
        ensures
            g.wf(),
            g.level == level,
            g.player_entity_id == 1,
            g.term_size == term_size,
            g.target_fps == 30,
            g.fps_toggle_cooldown == now,
            g.world.next_entity_id == 4,
            g.world.entities@ == seq![
                Entity::player_at(1, 3_500_000, 3_500_000),
                Entity::enemy_at(2, 10_500_000, 10_500_000, SpriteType::EnemyImp),
                Entity::enemy_at(3, 7_500_000, 7_500_000, SpriteType::EnemyDemon),
            ],
            g.player.weapons@ == seq![pistol(now), shotgun(now), gatling(now), shotgun(now)],
            g.player.current_weapon == 0,
            g.player.health == 100,
            g.player.kills == 0,
            g.player.entity_id == 0,
            g.player.max_speed == 4_000_000,
            g.player.max_rotation_speed == 50_000_000,
            g.player.switch_cooldown_expiry == now,
            g.player.transform == (crate::entity::Transform { x: 3_500_000, y: 3_500_000, angle: 0 }),
    {
        let mut world = World::new();
        let player_entity = Entity::new_player(0, 3_500_000, 3_500_000);
        let player_entity_id: u32 = world.spawn_entity(player_entity);
        let player = Player::new(now);
        let imp = Entity::new_enemy(0, 10_500_000, 10_500_000, SpriteType::EnemyImp);
        world.spawn_entity(imp);
        let demon = Entity::new_enemy(0, 7_500_000, 7_500_000, SpriteType::EnemyDemon);
        world.spawn_entity(demon);
        proof {
            assert(world.entities@ =~= seq![
                Entity::player_at(1, 3_500_000, 3_500_000),
                Entity::enemy_at(2, 10_500_000, 10_500_000, SpriteType::EnemyImp),
                Entity::enemy_at(3, 7_500_000, 7_500_000, SpriteType::EnemyDemon),
            ]);
        }
        Game {
            player,
            player_entity_id,
            world,
            level,
            term_size,
            target_fps: 30,
            fps_toggle_cooldown: now,
        }
    }

    /// The speed at which the player moves and the speed at which it turns.
    pub fn pace(&self) -> (r: (i64, i64))
        requires
            self.wf(),
        ensures
            r == speeds(self@.weapon(), self.player.max_speed, self.player.max_rotation_speed),
    {
        if self.player.is_firing() {
            let left: i64 = minus(1_000_000, self.player.get_current_weapon().movement_penalty);
            (times(self.player.max_speed, left), times(self.player.max_rotation_speed, left))
        } else {
            (self.player.max_speed, self.player.max_rotation_speed)
        }
    }

    /// Does what `input` says of the frame rate at the time `now`: a call to
    /// change it does so, unless it was changed less than half a second ago.
    pub fn command_fps(&mut self, input: &InputManager, now: u64)
        requires
            old(self).wf(),
        ensures
            final(self)@ == old(self)@.fps_commanded(input, now),
            final(self).same_setting(old(self)),
            final(self).wf(),
    {
        if input.is_active(Action::ToggleFPS) && now >= self.fps_toggle_cooldown {
            if self.target_fps == 60 {
                self.target_fps = 30;
            } else {
                self.target_fps = 60;
            }
            self.fps_toggle_cooldown = if now > u64::MAX - 500_000 {
                u64::MAX
            } else {
                now + 500_000
            };
        }
    }

    /// Where `on` holds, lets the player's entity try to go `distance` the way
    /// it faces, or a quarter turn on from that where `sideways` holds.
    fn walk(&mut self, on: bool, sideways: bool, distance: i64, trig: &TrigTable)
        requires
            old(self).wf(),
            trig.wf(),
        ensures
            final(self)@ == (GameView {
                entities: if on {
                    walked(
                        old(self)@.entities,
                        old(self).player_entity_id,
                        if sideways {
                            QUARTER_TURN as int
                        } else {
                            0
                        },
                        distance,
                        &old(self).level,
                        trig,
                    )
                } else {
                    old(self)@.entities
                },
                ..old(self)@
            }),
            final(self).same_setting(old(self)),
            final(self).wf(),
    {
        if on {
            if sideways {
                Physics::strafe_entity(&mut self.world, self.player_entity_id, distance, &self.level, trig);
            } else {
                Physics::move_entity_forward(&mut self.world, self.player_entity_id, distance, &self.level, trig);
            }
        }
    }

    /// Where `on` holds, turns the player's entity by `delta`.
    fn spin(&mut self, on: bool, delta: i64)
        requires
            old(self).wf(),
        ensures
            final(self)@ == (GameView {
                entities: if on {
                    spun(old(self)@.entities, old(self).player_entity_id, delta)
                } else {
                    old(self)@.entities
                },
                ..old(self)@
            }),
            final(self).same_setting(old(self)),
            final(self).wf(),
    {
        if on {
            Physics::rotate_entity(&mut self.world, self.player_entity_id, delta);
        }
    }

    /// Moves and turns the player's entity as `input` asks, each move by `step`
    /// and each turn by `turn`.
    pub fn steer(&mut self, input: &InputManager, step: i64, turn: i64, trig: &TrigTable)
        requires
            old(self).wf(),
            trig.wf(),
        ensures
            final(self)@ == (GameView {
                entities: steered(
                    old(self)@.entities,
                    old(self).player_entity_id,
                    orders_of(input),
                    step,
                    turn,
                    &old(self).level,
                    trig,
                ),
                ..old(self)@
            }),
            final(self).same_setting(old(self)),
            final(self).wf(),
    {
        let back: i64 = minus(0, step);
        self.walk(input.is_active(Action::MoveForward), false, step, trig);
        self.walk(input.is_active(Action::MoveBackward), false, back, trig);
        self.walk(input.is_active(Action::StrafeRight), true, step, trig);
        self.walk(input.is_active(Action::StrafeLeft), true, back, trig);
        self.spin(input.is_active(Action::RotateLeft), turn);
        self.spin(input.is_active(Action::RotateRight), minus(0, turn));
    }

    /// Puts the projectiles of one shot of `weapon` into the world, fired from
    /// `(x, y)` round the way `angle` points, as far as there are ids for them.
    fn fire_volley(&mut self, x: i64, y: i64, angle: i64, weapon: Weapon)
        requires
            old(self).wf(),
        ensures
            final(self)@ == (GameView {
                entities: volley(
                    old(self)@.entities,
                    old(self)@.next_entity_id,
                    x,
                    y,
                    angle,
                    volley_size(weapon.projectile_count, old(self)@.next_entity_id),
                    weapon,
                ),
                next_entity_id: (old(self)@.next_entity_id + volley_size(
                    weapon.projectile_count,
                    old(self)@.next_entity_id,
                )) as u32,
                ..old(self)@
            }),
            final(self).same_setting(old(self)),
            final(self).wf(),
    {
        let sprite: SpriteType = projectile_sprite(weapon.weapon_type);
        let count: u32 = weapon.projectile_count;
        let ghost es = self.world.entities@;
        let ghost next = self.world.next_entity_id;
        let ghost before = *self;
        let mut i: u32 = 0;
        while i < count && self.world.next_entity_id < u32::MAX
            invariant
                i <= count,
                self.world.wf(),
                self.world.next_entity_id == next + i,
                count == weapon.projectile_count,
                sprite == projectile_sprite_of(weapon.weapon_type),
                self.world.entities@ == volley(es, next, x, y, angle, i as int, weapon),
                self.level == before.level,
                self.player == before.player,
                self.player_entity_id == before.player_entity_id,
                self.term_size == before.term_size,
                self.target_fps == before.target_fps,
                self.fps_toggle_cooldown == before.fps_toggle_cooldown,
            decreases count - i,
        {
            let aimed: i64 = Self::aim(angle, i, count, weapon.spread);
            self.world.spawn_projectile(x, y, aimed, weapon.damage, weapon.range, sprite);
            i += 1;
        }
        proof {
            assert(i == volley_size(count, next));
        }
    }

    /// Pulls the trigger at the time `now`: where the weapon in hand fires, its
    /// projectiles leave from before the player's entity, spread round the way
    /// it faces.
    pub fn shoot(&mut self, now: u64, trig: &TrigTable)
        requires
            old(self).wf(),
            trig.wf(),
        ensures
            final(self)@ == old(self)@.shot(old(self).player_entity_id, now, trig),
            final(self).same_setting(old(self)),
            final(self).wf(),
    {
        if self.player.fire(now) {
            match self.world.find(self.player_entity_id) {
                Some(at) => {
                    let e: Entity = self.world.entities[at];
                    let weapon: Weapon = *self.player.get_current_weapon();
                    let from = Physics::displace(e.transform.x, e.transform.y, e.transform.angle, GUN_OFFSET, trig);
                    self.fire_volley(from.0, from.1, e.transform.angle, weapon);
                },
                None => {},
            }
        }
    }

    /// Pulls the trigger at the time `now` as one who plays alone does: where
    /// the weapon in hand fires, its projectiles leave from before where the
    /// player was last seen, spread round the way it faced.
    pub fn shoot_solo(&mut self, now: u64, trig: &TrigTable)
        requires
            old(self).wf(),
            trig.wf(),
        ensures
            final(self)@ == old(self)@.solo_shot(now, trig),
            final(self).same_setting(old(self)),
            final(self).wf(),
    {
        if self.player.fire(now) {
            let t: Transform = self.player.transform;
            let weapon: Weapon = *self.player.get_current_weapon();
            let from = Physics::displace(t.x, t.y, t.angle, GUN_OFFSET, trig);
            self.fire_volley(from.0, from.1, t.angle, weapon);
        }
    }

    /// The speed at which one who plays alone or hosts moves and the speed at
    /// which it turns.
    pub fn pace_solo(&self, sprint: bool) -> (r: (i64, i64))
        requires
            self.wf(),
        ensures
            r == solo_speeds(sprint, self@.weapon()),
    {
        let base: i64 = if sprint {
            2 * PLAYER_SPEED
        } else {
            PLAYER_SPEED
        };
        let penalty: i64 = self.player.get_current_weapon().movement_penalty;
        let half: i64 = times(penalty, 500_000);
        (times(base, minus(1_000_000, penalty)), times(PLAYER_ROTATION_SPEED, minus(1_000_000, half)))
    }

    /// Moves and turns the player's entity as `input` asks of one who plays
    /// alone or hosts, over a frame of the time `delta_time`, and sets the
    /// player to where its entity then stands.
    pub fn move_solo(&mut self, input: &InputManager, delta_time: u64, trig: &TrigTable)
        requires
            old(self).wf(),
            trig.wf(),
        ensures
            final(self)@ == solo_moved(
                old(self)@,
                old(self).player_entity_id,
                input,
                delta_time,
                &old(self).level,
                trig,
            ),
            final(self).same_setting(old(self)),
            final(self).wf(),
    {
        let pace = self.pace_solo(input.is_active(Action::Sprint));
        let step: i64 = Physics::step_of(pace.0, delta_time);
        let turn: i64 = Physics::step_of(pace.1, delta_time);
        let back: i64 = minus(0, step);
        self.walk(input.is_active(Action::MoveForward), false, step, trig);
        self.walk(input.is_active(Action::MoveBackward), false, back, trig);
        self.spin(input.is_active(Action::RotateLeft), minus(0, turn));
        self.spin(input.is_active(Action::RotateRight), turn);
        self.walk(input.is_active(Action::StrafeLeft), true, back, trig);
        self.walk(input.is_active(Action::StrafeRight), true, step, trig);
        self.see_again();
    }

    /// Sets the player to where its entity stands and to that entity's health.
    pub fn see_again(&mut self)
        requires
            old(self).wf(),
        ensures
            final(self)@ == old(self)@.seen_again(old(self).player_entity_id),
            final(self).same_setting(old(self)),
            final(self).wf(),
    {
        match self.world.find(self.player_entity_id) {
            Some(at) => {
                let e: Entity = self.world.entities[at];
                self.player.transform = e.transform;
                self.player.health = if e.health < 0 {
                    0
                } else {
                    e.health as u32
                };
            },
            None => {},
        }
    }

    /// Does what `input` says of firing and then of reloading to one who plays
    /// alone, at the time `now`.
    pub fn command_fire_solo(&mut self, input: &InputManager, now: u64, trig: &TrigTable)
        requires
            old(self).wf(),
            trig.wf(),
        ensures
            final(self)@ == old(self)@.solo_fire_commanded(input, now, trig),
            final(self).same_setting(old(self)),
            final(self).wf(),
    {
        if input.is_active(Action::Shoot) {
            self.shoot_solo(now, trig);
        }
        if input.is_active(Action::Reload) {
            self.player.reload(now);
        }
    }

    /// Advances the world by the time `delta_time` and leaves the score as it
    /// is.
    pub fn advance(&mut self, delta_time: u64, trig: &TrigTable)
        requires
            old(self).wf(),
            trig.wf(),
        ensures
            final(self)@ == old(self)@.advanced_by(delta_time, &old(self).level, trig),
            final(self).same_setting(old(self)),
            final(self).wf(),
    {
        Physics::update(&mut self.world, delta_time, &self.level, trig);
    }

    /// Runs one frame of one who plays alone, at the time `now` and
    /// `delta_time` after the last one. Where the input asks to quit, nothing
    /// happens but that; else the player moves and turns, fires, reloads and
    /// changes the weapon as the input asks, the simulation advances by one
    /// step, and the enemies that died in it are added to the score. Returns
    /// whether the input asks to quit.
    pub fn update_solo(
        &mut self,
        input: &InputManager,
        term_size: (u16, u16),
        now: u64,
        delta_time: u64,
        trig: &TrigTable,
    ) -> (quit: bool)
        requires
            old(self).wf(),
            trig.wf(),
        ensures
            quit == input.is_on(Action::Quit),
            quit ==> final(self)@ == old(self)@,
            !quit ==> final(self)@ == solo_framed(
                old(self)@,
                old(self).player_entity_id,
                input,
                term_size,
                now,
                delta_time,
                &old(self).level,
                trig,
            ),
            final(self).same_setting(old(self)),
            final(self).wf(),
    {
        if input.is_active(Action::Quit) {
            return true;
        }
        self.term_size = term_size;
        self.move_solo(input, delta_time, trig);
        self.command_fire_solo(input, now, trig);
        self.command_weapon(input, now);
        self.simulate(delta_time, trig);
        self.animate(now);
        false
    }

    /// Runs one frame of a host: the local player moves and turns as the
    /// input asks, over a frame of `HOST_FRAME`, and the simulation advances
    /// by one step of that length.
    pub fn update_host(&mut self, input: &InputManager, term_size: (u16, u16), trig: &TrigTable)
        requires
            old(self).wf(),
            trig.wf(),
        ensures
            final(self)@ == host_framed(
                old(self)@,
                old(self).player_entity_id,
                input,
                term_size,
                &old(self).level,
                trig,
            ),
            final(self).same_setting(old(self)),
            final(self).wf(),
    {
        self.move_solo(input, HOST_FRAME, trig);
        self.advance(HOST_FRAME, trig);
        self.term_size = term_size;
    }

    /// The way the `i`-th of `count` projectiles of one shot flies.
    pub fn aim(angle: i64, i: u32, count: u32, spread: i64) -> (r: i64)
        ensures
            r == shot_angle(angle, i as int, count as int, spread),
    {
        if count > 1 {
            let twice: i128 = 2 * (i as i128) - ((count as i128) - 1);
            assert(-0x2_0000_0000 * 0x8000_0000_0000_0000 <= twice * spread <= 0x2_0000_0000
                * 0x8000_0000_0000_0000) by (nonlinear_arith)
                requires
                    -0x2_0000_0000 <= twice <= 0x2_0000_0000,
                    -0x8000_0000_0000_0000 <= spread <= 0x8000_0000_0000_0000,
            ;
            let whole: i128 = twice * (spread as i128);
            let half: i128 = if whole >= 0 {
                whole / 2
            } else {
                -((-whole) / 2)
            };
            let offset: i64 = if half > 0x7fff_ffff_ffff_ffff {
                i64::MAX
            } else if half < -0x8000_0000_0000_0000 {
                i64::MIN
            } else {
                half as i64
            };
            plus(angle, offset)
        } else {
            angle
        }
    }

    /// Does what `input` says of firing and then of reloading, at the time
    /// `now`.
    pub fn command_fire(&mut self, input: &InputManager, now: u64, trig: &TrigTable)
        requires
            old(self).wf(),
            trig.wf(),
        ensures
            final(self)@ == old(self)@.fire_commanded(input, old(self).player_entity_id, now, trig),
            final(self).same_setting(old(self)),
            final(self).wf(),
    {
        if input.is_active(Action::Shoot) {
            self.shoot(now, trig);
        }
        if input.is_active(Action::Reload) {
            self.player.reload(now);
        }
    }

    /// Does what `input` says of fresh enemies: a call for them restocks the
    /// world if it has three ids left.
    pub fn command_restock(&mut self, input: &InputManager)
        requires
            old(self).wf(),
        ensures
            final(self)@ == old(self)@.restock_commanded(input),
            final(self).same_setting(old(self)),
            final(self).wf(),
    {
        if input.is_active(Action::RespawnEnemies) && self.world.next_entity_id <= u32::MAX - 3 {
            self.world.respawn_enemies();
        }
    }

    /// Does what `input` says of the weapon in hand, at the time `now`.
    pub fn command_weapon(&mut self, input: &InputManager, now: u64)
        requires
            old(self).wf(),
        ensures
            final(self)@ == old(self)@.weapon_commanded(input, now),
            final(self).same_setting(old(self)),
            final(self).wf(),
    {
        if input.is_active(Action::SwitchWeapon1) {
            self.player.switch_weapon(0, now);
        }
        if input.is_active(Action::SwitchWeapon2) {
            self.player.switch_weapon(1, now);
        }
        if input.is_active(Action::SwitchWeapon3) {
            self.player.switch_weapon(2, now);
        }
    }

    /// Sets the player's health to that of its entity.
    pub fn sync_health(&mut self)
        requires
            old(self).wf(),
        ensures
            final(self)@ == old(self)@.synced(old(self).player_entity_id),
            final(self).same_setting(old(self)),
            final(self).wf(),
    {
        match self.world.find(self.player_entity_id) {
            Some(at) => {
                let health: i32 = self.world.entities[at].health;
                self.player.health = if health < 0 {
                    0
                } else {
                    health as u32
                };
            },
            None => {},
        }
    }

    /// Advances the world by the time `delta_time` and adds the enemies that
    /// died in it to the player's score.
    pub fn simulate(&mut self, delta_time: u64, trig: &TrigTable)
        requires
            old(self).wf(),
            trig.wf(),
        ensures
            final(self)@ == old(self)@.simulated(delta_time, &old(self).level, trig),
            final(self).same_setting(old(self)),
            final(self).wf(),
    {
        let kills: u32 = Physics::update(&mut self.world, delta_time, &self.level, trig);
        self.player.kills = if self.player.kills > u32::MAX - kills {
            u32::MAX
        } else {
            self.player.kills + kills
        };
    }

    /// Moves the animation of the weapon in hand on to the time `now`.
    pub fn animate(&mut self, now: u64)
        requires
            old(self).wf(),
        ensures
            final(self)@ == old(self)@.animated(now),
            final(self).same_setting(old(self)),
            final(self).wf(),
    {
        self.player.animation_update(now);
    }

    /// Deals with the input of one frame at the time `now`, `delta_time` after
    /// the last one, before the simulation advances.
    pub fn command(
        &mut self,
        input: &InputManager,
        term_size: (u16, u16),
        now: u64,
        delta_time: u64,
        trig: &TrigTable,
    )
        requires
            old(self).wf(),
            trig.wf(),
        ensures
            final(self)@ == commanded(
                old(self)@,
                old(self).player_entity_id,
                old(self).player.max_speed,
                old(self).player.max_rotation_speed,
                input,
                term_size,
                now,
                delta_time,
                &old(self).level,
                trig,
            ),
            final(self).same_setting(old(self)),
            final(self).wf(),
    {
        let pace = self.pace();
        self.term_size = term_size;
        self.command_fps(input, now);
        let step: i64 = Physics::step_of(pace.0, delta_time);
        let turn: i64 = Physics::step_of(pace.1, delta_time);
        self.steer(input, step, turn, trig);
        self.command_fire(input, now, trig);
        self.command_restock(input);
        self.command_weapon(input, now);
    }

    /// Runs one frame at the time `now`, `delta_time` after the last one: deals
    /// with the input, and unless it asks to quit, lets the simulation advance.
    /// Returns whether the input asks to quit.
    pub fn update(
        &mut self,
        input: &InputManager,
        term_size: (u16, u16),
        now: u64,
        delta_time: u64,
        trig: &TrigTable,
    ) -> (quit: bool)
        requires
            old(self).wf(),
            trig.wf(),
        ensures
            quit == input.is_on(Action::Quit),
            final(self)@ == framed(
                old(self)@,
                old(self).player_entity_id,
                old(self).player.max_speed,
                old(self).player.max_rotation_speed,
                input,
                term_size,
                now,
                delta_time,
                &old(self).level,
                trig,
            ),
            final(self).same_setting(old(self)),
            final(self).wf(),
    {
        self.command(input, term_size, now, delta_time, trig);
        if input.is_active(Action::Quit) {
            return true;
        }
        self.sync_health();
        self.simulate(delta_time, trig);
        self.animate(now);
        false
    }
}

/// Whether the entity `id` of `es`, if there is one, stands on an open cell of
/// `level`.
pub open spec fn stands_open(es: Seq<Entity>, id: u32, level: &Level) -> bool {
    has_id(es, id) ==> level.passable(
        cell(es[index_of(es, id)].transform.x as int),
        cell(es[index_of(es, id)].transform.y as int),
    )
}

/// A move leaves an entity that stood on an open cell on an open cell.
pub proof fn lemma_walked_keeps_footing(
    es: Seq<Entity>,
    next: u32,
    id: u32,
    offset: int,
    distance: i64,
    level: &Level,
    trig: &TrigTable,
)
    requires
        world_wf(es, next),
        stands_open(es, id, level),
    ensures
        world_wf(walked(es, id, offset, distance, level, trig), next),
        stands_open(walked(es, id, offset, distance, level, trig), id, level),
{
    let after = walked(es, id, offset, distance, level, trig);
    if after != es {
        let at = index_of(es, id);
        assert(es[at].wf());
        assert forall|i: int, j: int| 0 <= i < j < after.len() implies after[i].id < after[j].id by {
            assert(es[i].id < es[j].id);
        }
        assert forall|i: int| 0 <= i < after.len() implies 1 <= (#[trigger] after[i]).id < next && after[i].wf() by {
            assert(es[i].wf());
        }
        lemma_index_of(after, next, at);
    }
}

/// A turn leaves an entity where it stood.
pub proof fn lemma_spun_keeps_footing(es: Seq<Entity>, next: u32, id: u32, delta: i64, level: &Level)
    requires
        world_wf(es, next),
        stands_open(es, id, level),
    ensures
        world_wf(spun(es, id, delta), next),
        stands_open(spun(es, id, delta), id, level),
{
    let after = spun(es, id, delta);
    if has_id(es, id) {
        let at = index_of(es, id);
        assert(es[at].wf());
        assert forall|i: int, j: int| 0 <= i < j < after.len() implies after[i].id < after[j].id by {
            assert(es[i].id < es[j].id);
        }
        assert forall|i: int| 0 <= i < after.len() implies 1 <= (#[trigger] after[i]).id < next && after[i].wf() by {
            assert(es[i].wf());
        }
        lemma_index_of(after, next, at);
    }
}

/// Collision containment over a frame: whatever the input asks for, a player
/// that stood on an open cell stands on an open cell after the moves and
/// turns of the frame, in either order of them.
pub proof fn lemma_steering_keeps_footing(
    es: Seq<Entity>,
    next: u32,
    id: u32,
    orders: Orders,
    step: i64,
    turn: i64,
    level: &Level,
    trig: &TrigTable,
)
    requires
        world_wf(es, next),
        stands_open(es, id, level),
    ensures
        stands_open(steered(es, id, orders, step, turn, level, trig), id, level),
        stands_open(solo_steered(es, id, orders, step, turn, level, trig), id, level),
        world_wf(steered(es, id, orders, step, turn, level, trig), next),
        world_wf(solo_steered(es, id, orders, step, turn, level, trig), next),
{
    let back = clamp(-step);
    let quarter = QUARTER_TURN as int;
    let e1 = if orders.forward {
        walked(es, id, 0, step, level, trig)
    } else {
        es
    };
    lemma_walked_keeps_footing(es, next, id, 0, step, level, trig);
    let e2 = if orders.backward {
        walked(e1, id, 0, back, level, trig)
    } else {
        e1
    };
    lemma_walked_keeps_footing(e1, next, id, 0, back, level, trig);
    {
        let e3 = if orders.strafe_right {
            walked(e2, id, quarter, step, level, trig)
        } else {
            e2
        };
        lemma_walked_keeps_footing(e2, next, id, quarter, step, level, trig);
        let e4 = if orders.strafe_left {
            walked(e3, id, quarter, back, level, trig)
        } else {
            e3
        };
        lemma_walked_keeps_footing(e3, next, id, quarter, back, level, trig);
        let e5 = if orders.rotate_left {
            spun(e4, id, turn)
        } else {
            e4
        };
        lemma_spun_keeps_footing(e4, next, id, turn, level);
        lemma_spun_keeps_footing(e5, next, id, clamp(-turn), level);
    }
    {
        let e3 = if orders.rotate_left {
            spun(e2, id, clamp(-turn))
        } else {
            e2
        };
        lemma_spun_keeps_footing(e2, next, id, clamp(-turn), level);
        let e4 = if orders.rotate_right {
            spun(e3, id, turn)
        } else {
            e3
        };
        lemma_spun_keeps_footing(e3, next, id, turn, level);
        let e5 = if orders.strafe_left {
            walked(e4, id, quarter, back, level, trig)
        } else {
            e4
        };
        lemma_walked_keeps_footing(e4, next, id, quarter, back, level, trig);
        lemma_walked_keeps_footing(e5, next, id, quarter, step, level, trig);
    }
}

} // verus!
