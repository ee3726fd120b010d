//! The simulation: how entities move against the walls, and what one step of
//! time does to a world.

use vstd::prelude::*;
use crate::entity::{Entity, EntityState, EntityType, Transform};
use crate::fixed::{cell, cell_of, clamp, normal_angle, normalize_angle, plus, product, times, QUARTER_TURN, UNIT};
use crate::level::Level;
use crate::sprites::{animation_duration, get_animation_duration};
use crate::trig::TrigTable;
use crate::world::{has_id, index_of, world_wf, World};

verus! {

/// How long an entity shows that it was hit, in microseconds.
pub const HIT_FLASH_DURATION: u64 = 200_000;

/// How long an entity takes to die, in microseconds.
pub const DEATH_DURATION: u64 = 500_000;

/// A projectile hits an enemy whose squared distance from it is below this,
/// in millionths of a square map unit.
pub const HIT_RADIUS_SQUARED: i64 = 100_000;

/// Where a point at `(x, y)` comes to when it goes `distance` the way
/// `heading` points.
pub open spec fn displaced(x: i64, y: i64, heading: int, distance: i64, trig: &TrigTable) -> (i64, i64) {
    (
        clamp(x + clamp(product(trig.cos_of(heading) as int, distance as int))),
        clamp(y + clamp(product(trig.sin_of(heading) as int, distance as int))),
    )
}

/// `e` at the position `(x, y)`.
pub open spec fn placed(e: Entity, x: i64, y: i64) -> Entity {
    Entity { transform: Transform { x, y, angle: e.transform.angle }, ..e }
}

/// `e` turned by `angle_delta`.
pub open spec fn turned(e: Entity, angle_delta: i64) -> Entity {
    Entity {
        transform: Transform {
            x: e.transform.x,
            y: e.transform.y,
            angle: normal_angle(e.transform.angle + angle_delta) as i64,
        },
        ..e
    }
}

/// `t + dt`, saturating.
pub open spec fn later(t: u64, dt: u64) -> u64 {
    if t + dt > u64::MAX {
        u64::MAX
    } else {
        (t + dt) as u64
    }
}

/// How far an entity of speed `speed` gets in the time `dt`.
pub open spec fn step_length(speed: i64, dt: u64) -> i64 {
    clamp(product(speed as int, clamp(dt as int) as int))
}

/// Whether `e` is a projectile in flight.
pub open spec fn is_flying(e: Entity) -> bool {
    e.active && e.entity_type == EntityType::Projectile
}

/// The projectile `e` after the time `dt` of free flight: moved the way it
/// faces, with the way it made added to its account.
pub open spec fn flown(e: Entity, dt: u64, trig: &TrigTable) -> Entity {
    let d = step_length(e.speed, dt);
    let to = displaced(e.transform.x, e.transform.y, e.transform.angle as int, d, trig);
    Entity {
        transform: Transform { x: to.0, y: to.1, angle: e.transform.angle },
        distance_traveled: clamp(e.distance_traveled + d),
        ..e
    }
}

/// Whether `(x, y)` lies outside the rectangle that the level covers.
pub open spec fn outside(x: i64, y: i64, level: &Level) -> bool {
    x < 0 || y < 0 || x > level.width() * UNIT || y > level.height() * UNIT
}

/// Whether the projectile `e` ends with this step: where it would come to is
/// solid, or it has flown as far as it may, or it would leave the level.
pub open spec fn expires(e: Entity, dt: u64, level: &Level, trig: &TrigTable) -> bool {
    let f = flown(e, dt, trig);
    ||| !level.passable(cell(f.transform.x as int), cell(f.transform.y as int))
    ||| f.distance_traveled >= e.max_distance
    ||| outside(f.transform.x, f.transform.y, level)
}

/// `es` after the projectiles have advanced: each projectile in flight has
/// either flown on or is gone; every other entity is as it was.
pub open spec fn advanced(es: Seq<Entity>, dt: u64, level: &Level, trig: &TrigTable) -> Seq<Entity>
    decreases es.len(),
{
    if es.len() == 0 {
        Seq::empty()
    } else {
        let rest = advanced(es.drop_last(), dt, level, trig);
        let e = es.last();
        if !is_flying(e) {
            rest.push(e)
        } else if expires(e, dt, level, trig) {
            rest
        } else {
            rest.push(flown(e, dt, trig))
        }
    }
}

/// The animation frame after `frame`.
pub open spec fn next_frame(frame: usize) -> usize {
    if frame == usize::MAX {
        0
    } else {
        (frame + 1) as usize
    }
}

/// `e` after the time `dt` has passed for its animation and its life cycle.
/// An inactive entity stays as it is. A hit entity is idle again once the
/// flash is over. A dying entity is dead and inactive once its death is over.
/// Any other entity shows its next frame once the current one has lasted its
/// time, and what it lasted longer counts toward the next.
pub open spec fn ticked(e: Entity, dt: u64) -> Entity {
    let t = later(e.animation_timer, dt);
    if !e.active {
        e
    } else if e.state == EntityState::Hit {
        if t >= HIT_FLASH_DURATION {
            Entity { state: EntityState::Idle, animation_timer: 0, ..e }
        } else {
            Entity { animation_timer: t, ..e }
        }
    } else if e.state == EntityState::Dying {
        if t >= DEATH_DURATION {
            Entity { state: EntityState::Dead, active: false, animation_timer: t, ..e }
        } else {
            Entity { animation_timer: t, ..e }
        }
    } else {
        let d = animation_duration(e.sprite_type);
        if t >= d {
            Entity { animation_timer: (t - d) as u64, current_frame: next_frame(e.current_frame), ..e }
        } else {
            Entity { animation_timer: t, ..e }
        }
    }
}

/// Every entity of `es` after the time `dt`.
pub open spec fn ticked_all(es: Seq<Entity>, dt: u64) -> Seq<Entity> {
    Seq::new(es.len(), |i: int| ticked(es[i], dt))
}

/// Whether `e` is an enemy whose death is over after the time `dt`.
pub open spec fn is_kill(e: Entity, dt: u64) -> bool {
    &&& e.active
    &&& e.state == EntityState::Dying
    &&& e.entity_type == EntityType::Enemy
    &&& later(e.animation_timer, dt) >= DEATH_DURATION
}

/// How many enemies of `es` are dead after the time `dt`.
pub open spec fn kills_in(es: Seq<Entity>, dt: u64) -> nat
    decreases es.len(),
{
    if es.len() == 0 {
        0
    } else {
        kills_in(es.drop_last(), dt) + if is_kill(es.last(), dt) {
            1nat
        } else {
            0nat
        }
    }
}

/// Whether a projectile can hit `e`: an active enemy that is neither dying
/// nor dead.
pub open spec fn is_target(e: Entity) -> bool {
    &&& e.entity_type == EntityType::Enemy
    &&& e.active
    &&& e.state != EntityState::Dying
    &&& e.state != EntityState::Dead
}

/// Whether `p` is close enough to `e` to hit it.
pub open spec fn in_reach(p: Entity, e: Entity) -> bool {
    let dx = p.transform.x - e.transform.x;
    let dy = p.transform.y - e.transform.y;
    dx * dx + dy * dy < HIT_RADIUS_SQUARED * UNIT
}

/// The first entity of `s` from `from` on that `p` hits, or `s.len()` where
/// there is none.
pub open spec fn first_target(s: Seq<Entity>, p: Entity, from: int) -> int
    decreases s.len() - from,
{
    if from < 0 || from >= s.len() {
        s.len() as int
    } else if is_target(s[from]) && in_reach(p, s[from]) {
        from
    } else {
        first_target(s, p, from + 1)
    }
}

/// `s` after the hits of its first `upto` entities have landed. Who is hit is
/// decided on `s` as it stands before any hit: each projectile in flight hits
/// the first enemy in its reach, is spent by that, and does its damage.
pub open spec fn struck(s: Seq<Entity>, upto: int) -> Seq<Entity>
    decreases upto,
{
    if upto <= 0 {
        s
    } else {
        let before = struck(s, upto - 1);
        let p = s[upto - 1];
        let t = first_target(s, p, 0);
        if is_flying(p) && t < s.len() {
            before.update(upto - 1, Entity { active: false, ..before[upto - 1] }).update(
                t,
                before[t].damaged(p.damage),
            )
        } else {
            before
        }
    }
}

/// The active entities of `es`, in their order.
pub open spec fn survivors(es: Seq<Entity>) -> Seq<Entity>
    decreases es.len(),
{
    if es.len() == 0 {
        Seq::empty()
    } else {
        let rest = survivors(es.drop_last());
        if es.last().active {
            rest.push(es.last())
        } else {
            rest
        }
    }
}

/// `es` after the projectiles have advanced and time has passed for every
/// entity, before any hit lands.
pub open spec fn before_hits(es: Seq<Entity>, dt: u64, level: &Level, trig: &TrigTable) -> Seq<Entity> {
    ticked_all(advanced(es, dt, level, trig), dt)
}

/// `es` after one step of the time `dt`: the projectiles advance, time passes
/// for every entity, the hits land, and what is no longer active is gone.
pub open spec fn stepped(es: Seq<Entity>, dt: u64, level: &Level, trig: &TrigTable) -> Seq<Entity> {
    let s = before_hits(es, dt, level, trig);
    survivors(struck(s, s.len() as int))
}

/// Whether `a` and `b` hold the same ids in the same order.
pub open spec fn same_ids(a: Seq<Entity>, b: Seq<Entity>) -> bool {
    &&& a.len() == b.len()
    &&& forall|i: int| 0 <= i < a.len() ==> a[i].id == b[i].id
}

/// The simulation's operations on a world.
pub struct Physics;

impl Physics {
    /// Where a point at `(x, y)` comes to when it goes `distance` the way
    /// `heading` points.
    pub fn displace(x: i64, y: i64, heading: i64, distance: i64, trig: &TrigTable) -> (r: (i64, i64))
        requires
            trig.wf(),
        ensures
            r == displaced(x, y, heading as int, distance, trig),
    {
        let dx: i64 = times(trig.cos(heading), distance);
        let dy: i64 = times(trig.sin(heading), distance);
        (plus(x, dx), plus(y, dy))
    }

    /// Whether an entity may stand at `(x, y)`: the cell that holds the point
    /// lies on the grid and is open.
    pub fn can_move_to(x: i64, y: i64, level: &Level) -> (r: bool)
        requires
            level.wf(),
        ensures
            r == level.passable(cell(x as int), cell(y as int)),
    {
        level.is_passable(cell_of(x), cell_of(y))
    }

    /// Puts the entity `entity_id` at `(new_x, new_y)` if it exists and may
    /// stand there, and says whether it did.
    pub fn try_move_entity(world: &mut World, entity_id: u32, new_x: i64, new_y: i64, level: &Level) -> (r: bool)
        requires
            old(world).wf(),
            level.wf(),
        ensures
            r == (old(world).contains(entity_id) && level.passable(
                cell(new_x as int),
                cell(new_y as int),
            )),
            r ==> final(world).entities@ == old(world).entities@.update(
                index_of(old(world).entities@, entity_id),
                placed(old(world).entity(entity_id), new_x, new_y),
            ),
            r ==> final(world)@ == old(world)@.insert(
                entity_id,
                placed(old(world)@[entity_id], new_x, new_y),
            ),
            r ==> final(world).contains(entity_id) && level.passable(
                cell(final(world).entity(entity_id).transform.x as int),
                cell(final(world).entity(entity_id).transform.y as int),
            ),
            !r ==> final(world).entities@ == old(world).entities@,
            final(world).next_entity_id == old(world).next_entity_id,
            final(world).wf(),
    {
        if Self::can_move_to(new_x, new_y, level) {
            match world.find(entity_id) {
                Some(i) => {
                    let mut e: Entity = world.entities[i];
                    e.transform.x = new_x;
                    e.transform.y = new_y;
                    proof {
                        crate::world::lemma_map_update(world.entities@, world.next_entity_id, i as int, e);
                    }
                    world.entities.set(i, e);
                    proof {
                        crate::world::lemma_index_of(world.entities@, world.next_entity_id, i as int);
                    }
                    return true;
                },
                None => {},
            }
        }
        false
    }

    /// Moves the entity `entity_id` by `distance` the way it faces, backwards
    /// where `distance` is negative, unless a wall or the map's edge is in the
    /// way, and says whether it moved.
    pub fn move_entity_forward(
        world: &mut World,
        entity_id: u32,
        distance: i64,
        level: &Level,
        trig: &TrigTable,
    ) -> (r: bool)
        requires
            old(world).wf(),
            level.wf(),
            trig.wf(),
        ensures
            ({
                let e = old(world).entity(entity_id);
                let to = displaced(e.transform.x, e.transform.y, e.transform.angle as int, distance, trig);
                &&& r == (old(world).contains(entity_id) && level.passable(
                    cell(to.0 as int),
                    cell(to.1 as int),
                ))
                &&& r ==> final(world).entities@ == old(world).entities@.update(
                    index_of(old(world).entities@, entity_id),
                    placed(e, to.0, to.1),
                )
            }),
            r ==> final(world).contains(entity_id) && level.passable(
                cell(final(world).entity(entity_id).transform.x as int),
                cell(final(world).entity(entity_id).transform.y as int),
            ),
            !r ==> final(world).entities@ == old(world).entities@,
            final(world).next_entity_id == old(world).next_entity_id,
            final(world).wf(),
    {
        match world.find(entity_id) {
            Some(i) => {
                let t: Transform = world.entities[i].transform;
                let to = Self::displace(t.x, t.y, t.angle, distance, trig);
                Self::try_move_entity(world, entity_id, to.0, to.1, level)
            },
            None => false,
        }
    }

    /// Moves the entity `entity_id` by `distance` sideways, a quarter turn on
    /// from the way it faces, unless a wall or the map's edge is in the way,
    /// and says whether it moved.
    pub fn strafe_entity(
        world: &mut World,
        entity_id: u32,
        distance: i64,
        level: &Level,
        trig: &TrigTable,
    ) -> (r: bool)
        requires
            old(world).wf(),
            level.wf(),
            trig.wf(),
        ensures
            ({
                let e = old(world).entity(entity_id);
                let to = displaced(
                    e.transform.x,
                    e.transform.y,
                    e.transform.angle + QUARTER_TURN,
                    distance,
                    trig,
                );
                &&& r == (old(world).contains(entity_id) && level.passable(
                    cell(to.0 as int),
                    cell(to.1 as int),
                ))
                &&& r ==> final(world).entities@ == old(world).entities@.update(
                    index_of(old(world).entities@, entity_id),
                    placed(e, to.0, to.1),
                )
            }),
            r ==> final(world).contains(entity_id) && level.passable(
                cell(final(world).entity(entity_id).transform.x as int),
                cell(final(world).entity(entity_id).transform.y as int),
            ),
            !r ==> final(world).entities@ == old(world).entities@,
            final(world).next_entity_id == old(world).next_entity_id,
            final(world).wf(),
    {
        match world.find(entity_id) {
            Some(i) => {
                let t: Transform = world.entities[i].transform;
                let to = Self::displace(t.x, t.y, t.angle + 90_000_000, distance, trig);
                Self::try_move_entity(world, entity_id, to.0, to.1, level)
            },
            None => false,
        }
    }

    /// Turns the entity `entity_id` by `angle_delta` and brings its facing back
    /// into `[0, FULL_TURN)`; does nothing where the world holds no such entity.
    pub fn rotate_entity(world: &mut World, entity_id: u32, angle_delta: i64)
        requires
            old(world).wf(),
        ensures
            old(world).contains(entity_id) ==> final(world).entities@ == old(world).entities@.update(
                index_of(old(world).entities@, entity_id),
                turned(old(world).entity(entity_id), angle_delta),
            ),
            old(world).contains(entity_id) ==> final(world)@ == old(world)@.insert(
                entity_id,
                turned(old(world)@[entity_id], angle_delta),
            ),
            !old(world).contains(entity_id) ==> final(world).entities@ == old(world).entities@,
            final(world).next_entity_id == old(world).next_entity_id,
            final(world).wf(),
    {
        match world.find(entity_id) {
            Some(i) => {
                let mut e: Entity = world.entities[i];
                let delta: i64 = normalize_angle(angle_delta);
                assert(normal_angle(e.transform.angle + delta) == normal_angle(
                    e.transform.angle + angle_delta,
                )) by (nonlinear_arith)
                    requires
                        delta == normal_angle(angle_delta as int),
                ;
                e.transform.angle = normalize_angle(e.transform.angle + delta);
                proof {
                    crate::world::lemma_map_update(world.entities@, world.next_entity_id, i as int, e);
                }
                world.entities.set(i, e);
            },
            None => {},
        }
    }

    /// `t + dt`, saturating.
    pub fn add_time(t: u64, dt: u64) -> (r: u64)
        ensures
            r == later(t, dt),
    {
        if t > u64::MAX - dt {
            u64::MAX
        } else {
            t + dt
        }
    }

    /// How far an entity of speed `speed` gets in the time `delta_time`.
    pub fn step_of(speed: i64, delta_time: u64) -> (d: i64)
        ensures
            d == step_length(speed, delta_time),
    {
        let dt: i64 = if delta_time > 0x7fff_ffff_ffff_ffffu64 {
            i64::MAX
        } else {
            delta_time as i64
        };
        times(speed, dt)
    }

    /// Advances the projectile `e` by the time `dt`: the projectile as it flies
    /// on, or nothing where it ends with this step.
    pub fn advance_projectile(e: Entity, delta_time: u64, level: &Level, trig: &TrigTable) -> (r: Option<
        Entity,
    >)
        requires
            level.wf(),
            trig.wf(),
        ensures
            r == (if expires(e, delta_time, level, trig) {
                None
            } else {
                Some(flown(e, delta_time, trig))
            }),
    {
        let d: i64 = Self::step_of(e.speed, delta_time);
        let to = Self::displace(e.transform.x, e.transform.y, e.transform.angle, d, trig);
        let traveled: i64 = plus(e.distance_traveled, d);
        if !Self::can_move_to(to.0, to.1, level) || traveled >= e.max_distance {
            None
        } else {
            let mut f: Entity = e;
            f.transform.x = to.0;
            f.transform.y = to.1;
            f.distance_traveled = traveled;
            Some(f)
        }
    }

    /// Lets the time `dt` pass for the animation and the life cycle of `e`.
    pub fn tick_entity(e: Entity, delta_time: u64) -> (r: Entity)
        ensures
            r == ticked(e, delta_time),
    {
        let mut r: Entity = e;
        if !e.active {
            return r;
        }
        let t: u64 = Self::add_time(e.animation_timer, delta_time);
        if e.state == EntityState::Hit {
            if t >= HIT_FLASH_DURATION {
                r.state = EntityState::Idle;
                r.animation_timer = 0;
            } else {
                r.animation_timer = t;
            }
        } else if e.state == EntityState::Dying {
            r.animation_timer = t;
            if t >= DEATH_DURATION {
                r.state = EntityState::Dead;
                r.active = false;
            }
        } else {
            let d: u64 = get_animation_duration(e.sprite_type);
            if t >= d {
                r.animation_timer = t - d;
                r.current_frame = if e.current_frame == usize::MAX {
                    0
                } else {
                    e.current_frame + 1
                };
            } else {
                r.animation_timer = t;
            }
        }
        r
    }

    /// Whether the projectile `p` is close enough to `e` to hit it.
    pub fn is_in_reach(p: &Entity, e: &Entity) -> (r: bool)
        ensures
            r == in_reach(*p, *e),
    {
        let dx: i128 = (p.transform.x as i128) - (e.transform.x as i128);
        let dy: i128 = (p.transform.y as i128) - (e.transform.y as i128);
        if dx <= -1_000_000 || dx >= 1_000_000 || dy <= -1_000_000 || dy >= 1_000_000 {
            assert(dx * dx + dy * dy >= 100_000 * 1_000_000) by (nonlinear_arith)
                requires
                    dx <= -1_000_000 || dx >= 1_000_000 || dy <= -1_000_000 || dy >= 1_000_000,
            ;
            return false;
        }
        assert(dx * dx <= 1_000_000 * 1_000_000 && dy * dy <= 1_000_000 * 1_000_000 && dx * dx >= 0 && dy
            * dy >= 0) by (nonlinear_arith)
            requires
                -1_000_000 < dx < 1_000_000,
                -1_000_000 < dy < 1_000_000,
        ;
        dx * dx + dy * dy < 100_000_000_000
    }

    /// The first entity of `s` that the projectile `p` hits, or `s.len()` where
    /// it hits none.
    pub fn find_target(s: &Vec<Entity>, p: &Entity) -> (r: usize)
        ensures
            r == first_target(s@, *p, 0),
            r <= s@.len(),
            r < s@.len() ==> is_target(s@[r as int]) && in_reach(*p, s@[r as int]),
    {
        let mut j: usize = 0;
        while j < s.len()
            invariant
                j <= s@.len(),
                first_target(s@, *p, 0) == first_target(s@, *p, j as int),
            decreases s@.len() - j,
        {
            let e: &Entity = &s[j];
            if e.entity_type == EntityType::Enemy && e.active && e.state != EntityState::Dying && e.state
                != EntityState::Dead && Self::is_in_reach(p, e) {
                return j;
            }
            j += 1;
        }
        j
    }

    /// Advances the world by the time `delta_time`, in microseconds, and
    /// returns how many enemies died in it. Projectiles in flight move on or
    /// end; time passes for every entity's animation and life cycle; each
    /// projectile hits the first enemy in its reach; and what is no longer
    /// active leaves the world.
    pub fn update(world: &mut World, delta_time: u64, level: &Level, trig: &TrigTable) -> (kills: u32)
        requires
            old(world).wf(),
            level.wf(),
            trig.wf(),
        ensures
            final(world).entities@ == stepped(old(world).entities@, delta_time, level, trig),
            kills == kills_in(advanced(old(world).entities@, delta_time, level, trig), delta_time),
            final(world).next_entity_id == old(world).next_entity_id,
            final(world).wf(),
            forall|i: int|
                0 <= i < final(world).entities@.len() ==> (#[trigger] final(world).entities@[i]).active
                    && final(world).entities@[i].state != EntityState::Dead,
    {
        let ghost es = world.entities@;
        let ghost next = world.next_entity_id;
        let mut moved: Vec<Entity> = Vec::new();
        let mut i: usize = 0;
        while i < world.entities.len()
            invariant
                i <= es.len(),
                world.entities@ == es,
                world.next_entity_id == next,
                world_wf(es, next),
                level.wf(),
                trig.wf(),
                moved@ == advanced(es.take(i as int), delta_time, level, trig),
                world_wf(moved@, crate::world::frontier(es, i as int, next)),
            decreases es.len() - i,
        {
            proof {
                assert(es.take(i as int + 1).drop_last() == es.take(i as int));
            }
            let e: Entity = world.entities[i];
            if e.active && e.entity_type == EntityType::Projectile {
                match Self::advance_projectile(e, delta_time, level, trig) {
                    Some(f) => {
                        moved.push(f);
                    },
                    None => {},
                }
            } else {
                moved.push(e);
            }
            i += 1;
        }
        proof {
            assert(es.take(i as int) == es);
            lemma_count_below_next(moved@, next);
        }
        let mut kills: u32 = 0;
        let mut snapshot: Vec<Entity> = Vec::new();
        let mut current: Vec<Entity> = Vec::new();
        let mut j: usize = 0;
        while j < moved.len()
            invariant
                j <= moved@.len(),
                moved@.len() < u32::MAX,
                world_wf(moved@, next),
                snapshot@ == ticked_all(moved@.take(j as int), delta_time),
                current@ == snapshot@,
                kills == kills_in(moved@.take(j as int), delta_time),
                kills <= j,
            decreases moved@.len() - j,
        {
            proof {
                assert(moved@.take(j as int + 1).drop_last() == moved@.take(j as int));
            }
            let e: Entity = moved[j];
            let t: Entity = Self::tick_entity(e, delta_time);
            if e.active && e.state == EntityState::Dying && e.entity_type == EntityType::Enemy && !t.active {
                kills += 1;
            }
            snapshot.push(t);
            current.push(t);
            proof {
                assert(snapshot@ =~= ticked_all(moved@.take(j as int + 1), delta_time));
            }
            j += 1;
        }
        proof {
            assert(moved@.take(j as int) == moved@);
            assert(world_wf(snapshot@, next));
        }
        let mut p: usize = 0;
        while p < snapshot.len()
            invariant
                p <= snapshot@.len(),
                world_wf(snapshot@, next),
                world_wf(current@, next),
                same_ids(current@, snapshot@),
                current@ == struck(snapshot@, p as int),
            decreases snapshot@.len() - p,
        {
            let shot: Entity = snapshot[p];
            if shot.active && shot.entity_type == EntityType::Projectile {
                let t: usize = Self::find_target(&snapshot, &shot);
                if t < snapshot.len() {
                    let mut spent: Entity = current[p];
                    spent.active = false;
                    current.set(p, spent);
                    let mut victim: Entity = current[t];
                    victim.take_damage(shot.damage);
                    current.set(t, victim);
                }
            }
            p += 1;
        }
        let mut alive: Vec<Entity> = Vec::new();
        let mut k: usize = 0;
        while k < current.len()
            invariant
                k <= current@.len(),
                world_wf(current@, next),
                alive@ == survivors(current@.take(k as int)),
                world_wf(alive@, crate::world::frontier(current@, k as int, next)),
                forall|i: int| 0 <= i < alive@.len() ==> (#[trigger] alive@[i]).active,
            decreases current@.len() - k,
        {
            proof {
                assert(current@.take(k as int + 1).drop_last() == current@.take(k as int));
            }
            let e: Entity = current[k];
            if e.active {
                alive.push(e);
            }
            k += 1;
        }
        proof {
            assert(current@.take(k as int) == current@);
        }
        world.entities = alive;
        kills
    }
}

/// A well-formed world holds fewer entities than its next id says.
pub proof fn lemma_count_below_next(es: Seq<Entity>, next: u32)
    requires
        world_wf(es, next),
    ensures
        es.len() < next,
{
    if es.len() > 0 {
        lemma_id_above_index(es, next, es.len() - 1);
    }
}

/// In a well-formed world the id of the `i`-th entity exceeds `i`.
pub proof fn lemma_id_above_index(es: Seq<Entity>, next: u32, i: int)
    requires
        world_wf(es, next),
        0 <= i < es.len(),
    ensures
        es[i].id > i,
    decreases i,
{
    if i > 0 {
        lemma_id_above_index(es, next, i - 1);
    }
}

/// Whether `a` is `b` but for what time and hits change: the id, the type,
/// the place and the account of the way made are the same.
pub open spec fn same_flight(a: Entity, b: Entity) -> bool {
    &&& a.id == b.id
    &&& a.entity_type == b.entity_type
    &&& a.transform == b.transform
    &&& a.speed == b.speed
    &&& a.max_distance == b.max_distance
    &&& a.distance_traveled == b.distance_traveled
    &&& a.damage == b.damage
}

/// The projectile `e` after `n` steps of free flight of the time `dt` each.
pub open spec fn flight(e: Entity, dt: u64, trig: &TrigTable, n: nat) -> Entity
    decreases n,
{
    if n == 0 {
        e
    } else {
        flown(flight(e, dt, trig, (n - 1) as nat), dt, trig)
    }
}

/// Adding to a saturated sum what goes the same way as what was added before
/// gives the saturated whole.
pub proof fn lemma_clamp_adds_on(base: i64, so_far: int, more: i64)
    requires
        (so_far >= 0 && more >= 0) || (so_far <= 0 && more <= 0),
    ensures
        clamp(clamp(base + so_far) + more) == clamp(base + so_far + more),
{
}

/// After `n` steps of free flight a projectile has made `n` times the way of
/// one step, on top of what it had made before.
pub proof fn lemma_flight_distance(e: Entity, dt: u64, trig: &TrigTable, n: nat)
    ensures
        flight(e, dt, trig, n).speed == e.speed,
        flight(e, dt, trig, n).distance_traveled == clamp(
            e.distance_traveled + n * step_length(e.speed, dt),
        ),
    decreases n,
{
    if n > 0 {
        let before = flight(e, dt, trig, (n - 1) as nat);
        lemma_flight_distance(e, dt, trig, (n - 1) as nat);
        let d: i64 = step_length(e.speed, dt);
        let so_far: int = (n - 1) * d;
        assert(n * d == so_far + d) by (nonlinear_arith)
            requires
                so_far == (n - 1) * d,
        ;
        assert((so_far >= 0 && d >= 0) || (so_far <= 0 && d <= 0)) by (nonlinear_arith)
            requires
                so_far == (n - 1) * d,
                n >= 1,
        ;
        assert(before.speed == e.speed);
        assert(before.distance_traveled == clamp(e.distance_traveled + so_far));
        assert(flight(e, dt, trig, n).distance_traveled == clamp(before.distance_traveled + d));
        lemma_clamp_adds_on(e.distance_traveled, so_far, d);
    }
}

/// Each entity of `advanced(es, ..)` stems from one of `es`, and the ids still
/// rise and stay below `next`.
pub proof fn lemma_advanced_wf(es: Seq<Entity>, next: u32, dt: u64, level: &Level, trig: &TrigTable)
    requires
        world_wf(es, next),
    ensures
        world_wf(advanced(es, dt, level, trig), next),
        forall|k: int|
            0 <= k < advanced(es, dt, level, trig).len() ==> exists|j: int|
                0 <= j < es.len() && stems_from(
                    #[trigger] advanced(es, dt, level, trig)[k],
                    es[j],
                    dt,
                    level,
                    trig,
                ),
    decreases es.len(),
{
    if es.len() > 0 {
        let front = es.drop_last();
        lemma_advanced_wf(front, next, dt, level, trig);
        let a = advanced(es, dt, level, trig);
        let rest = advanced(front, dt, level, trig);
        assert forall|k: int| 0 <= k < a.len() implies exists|j: int|
            0 <= j < es.len() && stems_from(#[trigger] a[k], es[j], dt, level, trig) by {
            if k < rest.len() {
                let j = choose|j: int| 0 <= j < front.len() && stems_from(rest[k], front[j], dt, level, trig);
                assert(stems_from(a[k], es[j], dt, level, trig));
            } else {
                assert(stems_from(a[k], es[es.len() - 1], dt, level, trig));
            }
        }
        assert forall|k: int| 0 <= k < rest.len() implies (#[trigger] rest[k]).id < es.last().id by {
            let j = choose|j: int| 0 <= j < front.len() && stems_from(rest[k], front[j], dt, level, trig);
            assert(front[j].id == es[j].id);
        }
    }
}

/// Whether `a` is what the advance of the projectiles makes of `e`: `e` itself
/// where `e` is no projectile in flight, and else `e` flown on, which did not
/// end with this step.
pub open spec fn stems_from(a: Entity, e: Entity, dt: u64, level: &Level, trig: &TrigTable) -> bool {
    &&& a.id == e.id
    &&& if is_flying(e) {
        !expires(e, dt, level, trig) && a == flown(e, dt, trig)
    } else {
        a == e
    }
}

/// Hits change neither how many entities there are nor what they are, where
/// they are or how far they have flown.
pub proof fn lemma_struck_keeps(s: Seq<Entity>, upto: int)
    requires
        0 <= upto <= s.len(),
    ensures
        struck(s, upto).len() == s.len(),
        forall|i: int| 0 <= i < s.len() ==> same_flight(#[trigger] struck(s, upto)[i], s[i]),
    decreases upto,
{
    if upto > 0 {
        lemma_struck_keeps(s, upto - 1);
        lemma_first_target_bound(s, s[upto - 1], 0);
    }
}

/// The first target is an index into `s`, or `s.len()`.
pub proof fn lemma_first_target_bound(s: Seq<Entity>, p: Entity, from: int)
    requires
        0 <= from,
    ensures
        from <= first_target(s, p, from) <= s.len() || (from > s.len() && first_target(s, p, from)
            == s.len()),
    decreases s.len() - from,
{
    if from < s.len() {
        lemma_first_target_bound(s, p, from + 1);
    }
}

/// Each survivor is one of the entities.
pub proof fn lemma_survivor_is_member(es: Seq<Entity>, k: int)
    requires
        0 <= k < survivors(es).len(),
    ensures
        exists|m: int| 0 <= m < es.len() && es[m] == survivors(es)[k] && es[m].active,
    decreases es.len(),
{
    if es.len() > 0 {
        let rest = survivors(es.drop_last());
        if k < rest.len() {
            lemma_survivor_is_member(es.drop_last(), k);
            let m = choose|m: int| 0 <= m < es.drop_last().len() && es.drop_last()[m] == rest[k] && es.drop_last()[m].active;
            assert(es[m] == survivors(es)[k]);
        } else {
            assert(es[es.len() - 1] == survivors(es)[k]);
        }
    }
}

/// The account of a projectile over one step. A projectile in flight that is
/// still in the world after the step has not ended with it: it stands where
/// free flight took it, the way of this step is added to what it had made,
/// and that is less than it may make.
pub proof fn lemma_step_accounts_distance(
    es: Seq<Entity>,
    next: u32,
    dt: u64,
    level: &Level,
    trig: &TrigTable,
    i: int,
    k: int,
)
    requires
        world_wf(es, next),
        0 <= i < es.len(),
        is_flying(es[i]),
        0 <= k < stepped(es, dt, level, trig).len(),
        stepped(es, dt, level, trig)[k].id == es[i].id,
    ensures
        !expires(es[i], dt, level, trig),
        stepped(es, dt, level, trig)[k].transform == flown(es[i], dt, trig).transform,
        stepped(es, dt, level, trig)[k].distance_traveled == clamp(
            es[i].distance_traveled + step_length(es[i].speed, dt),
        ),
        stepped(es, dt, level, trig)[k].distance_traveled < es[i].max_distance,
{
    let a = advanced(es, dt, level, trig);
    let s = before_hits(es, dt, level, trig);
    let h = struck(s, s.len() as int);
    lemma_advanced_wf(es, next, dt, level, trig);
    lemma_struck_keeps(s, s.len() as int);
    lemma_survivor_is_member(h, k);
    let m = choose|m: int| 0 <= m < h.len() && h[m] == survivors(h)[k] && h[m].active;
    assert(same_flight(h[m], s[m]));
    assert(s[m] == ticked(a[m], dt));
    let j = choose|j: int| 0 <= j < es.len() && stems_from(a[m], es[j], dt, level, trig);
    assert(es[j].id == es[i].id);
    assert(j == i) by {
        if j < i {
            assert(es[j].id < es[i].id);
        }
        if i < j {
            assert(es[i].id < es[j].id);
        }
    }
}

/// A projectile that has flown as far as it may is gone after the step.
pub proof fn lemma_spent_projectile_is_removed(
    es: Seq<Entity>,
    next: u32,
    dt: u64,
    level: &Level,
    trig: &TrigTable,
    i: int,
)
    requires
        world_wf(es, next),
        0 <= i < es.len(),
        is_flying(es[i]),
        clamp(es[i].distance_traveled + step_length(es[i].speed, dt)) >= es[i].max_distance,
    ensures
        !has_id(stepped(es, dt, level, trig), es[i].id),
{
    let st = stepped(es, dt, level, trig);
    if has_id(st, es[i].id) {
        let k = index_of(st, es[i].id);
        lemma_step_accounts_distance(es, next, dt, level, trig, i, k);
    }
}

/// What the advance of the projectiles makes of an entity that does not end
/// with the step is among what it makes of all.
pub proof fn lemma_advanced_keeps(es: Seq<Entity>, dt: u64, level: &Level, trig: &TrigTable, i: int)
    requires
        0 <= i < es.len(),
        !(is_flying(es[i]) && expires(es[i], dt, level, trig)),
    ensures
        exists|m: int|
            0 <= m < advanced(es, dt, level, trig).len() && #[trigger] advanced(es, dt, level, trig)[m] == (
            if is_flying(es[i]) {
                flown(es[i], dt, trig)
            } else {
                es[i]
            }),
    decreases es.len(),
{
    let a = advanced(es, dt, level, trig);
    let rest = advanced(es.drop_last(), dt, level, trig);
    let image = if is_flying(es[i]) {
        flown(es[i], dt, trig)
    } else {
        es[i]
    };
    if i == es.len() - 1 {
        assert(a[a.len() - 1] == image);
    } else {
        lemma_advanced_keeps(es.drop_last(), dt, level, trig, i);
        let m = choose|m: int| 0 <= m < rest.len() && #[trigger] rest[m] == image;
        assert(a[m] == image);
    }
}

/// A hit takes an entity out of play only if the entity is a projectile that
/// hits something.
pub proof fn lemma_struck_keeps_active(s: Seq<Entity>, upto: int, m: int)
    requires
        0 <= upto <= s.len(),
        0 <= m < s.len(),
        !(is_flying(s[m]) && first_target(s, s[m], 0) < s.len()),
    ensures
        struck(s, upto)[m].active == s[m].active,
    decreases upto,
{
    if upto > 0 {
        lemma_struck_keeps_active(s, upto - 1, m);
        lemma_struck_keeps(s, upto - 1);
        lemma_first_target_bound(s, s[upto - 1], 0);
    }
}

/// Each active entity is among the survivors.
pub proof fn lemma_active_survives(es: Seq<Entity>, m: int)
    requires
        0 <= m < es.len(),
        es[m].active,
    ensures
        exists|k: int| 0 <= k < survivors(es).len() && #[trigger] survivors(es)[k] == es[m],
    decreases es.len(),
{
    let rest = survivors(es.drop_last());
    if m == es.len() - 1 {
        assert(survivors(es)[survivors(es).len() - 1] == es[m]);
    } else {
        lemma_active_survives(es.drop_last(), m);
        let k = choose|k: int| 0 <= k < rest.len() && #[trigger] rest[k] == es.drop_last()[m];
        assert(survivors(es)[k] == es[m]);
    }
}

/// A projectile in flight that neither ends with the step nor hits an enemy
/// is still in the world after it.
pub proof fn lemma_free_projectile_stays(
    es: Seq<Entity>,
    next: u32,
    dt: u64,
    level: &Level,
    trig: &TrigTable,
    i: int,
)
    requires
        world_wf(es, next),
        0 <= i < es.len(),
        is_flying(es[i]),
        !expires(es[i], dt, level, trig),
        ticked(flown(es[i], dt, trig), dt).active,
        first_target(before_hits(es, dt, level, trig), ticked(flown(es[i], dt, trig), dt), 0)
            == before_hits(es, dt, level, trig).len(),
    ensures
        has_id(stepped(es, dt, level, trig), es[i].id),
{
    let a = advanced(es, dt, level, trig);
    let s = before_hits(es, dt, level, trig);
    let h = struck(s, s.len() as int);
    lemma_advanced_keeps(es, dt, level, trig, i);
    let m = choose|m: int| 0 <= m < a.len() && #[trigger] a[m] == flown(es[i], dt, trig);
    assert(s[m] == ticked(a[m], dt));
    lemma_struck_keeps_active(s, s.len() as int, m);
    lemma_struck_keeps(s, s.len() as int);
    lemma_active_survives(h, m);
    let k = choose|k: int| 0 <= k < survivors(h).len() && #[trigger] survivors(h)[k] == h[m];
    assert(same_flight(h[m], s[m]));
    assert(survivors(h)[k].id == es[i].id);
}

/// Time leaves the ids as they are and every entity well-formed.
pub proof fn lemma_ticked_wf(es: Seq<Entity>, next: u32, dt: u64)
    requires
        world_wf(es, next),
    ensures
        world_wf(ticked_all(es, dt), next),
        same_ids(ticked_all(es, dt), es),
{
    let t = ticked_all(es, dt);
    assert forall|i: int, j: int| 0 <= i < j < t.len() implies t[i].id < t[j].id by {
        assert(es[i].id < es[j].id);
    }
    assert forall|i: int| 0 <= i < t.len() implies 1 <= (#[trigger] t[i]).id < next && t[i].wf() by {
        assert(es[i].wf());
    }
}

/// Hits leave the ids as they are and every entity well-formed.
pub proof fn lemma_struck_wf(s: Seq<Entity>, next: u32, upto: int)
    requires
        world_wf(s, next),
        0 <= upto <= s.len(),
    ensures
        world_wf(struck(s, upto), next),
    decreases upto,
{
    lemma_struck_keeps(s, upto);
    let h = struck(s, upto);
    assert forall|i: int, j: int| 0 <= i < j < h.len() implies h[i].id < h[j].id by {
        assert(same_flight(h[i], s[i]));
        assert(same_flight(h[j], s[j]));
        assert(s[i].id < s[j].id);
    }
    if upto > 0 {
        lemma_struck_wf(s, next, upto - 1);
        lemma_struck_keeps(s, upto - 1);
        lemma_first_target_bound(s, s[upto - 1], 0);
        let before = struck(s, upto - 1);
        assert forall|i: int| 0 <= i < h.len() implies 1 <= (#[trigger] h[i]).id < next && h[i].wf() by {
            assert(same_flight(h[i], s[i]));
            assert(s[i].wf());
            assert(before[i].wf());
        }
    } else {
        assert forall|i: int| 0 <= i < h.len() implies 1 <= (#[trigger] h[i]).id < next && h[i].wf() by {
            assert(s[i].wf());
        }
    }
}

/// The survivors of a well-formed world make a well-formed world, and each
/// of them is active.
pub proof fn lemma_survivors_wf(es: Seq<Entity>, next: u32)
    requires
        world_wf(es, next),
    ensures
        world_wf(survivors(es), next),
        forall|k: int| 0 <= k < survivors(es).len() ==> (#[trigger] survivors(es)[k]).active,
        forall|k: int|
            0 <= k < survivors(es).len() && es.len() > 0 ==> (#[trigger] survivors(es)[k]).id <= es.last().id,
    decreases es.len(),
{
    if es.len() > 0 {
        let front = es.drop_last();
        lemma_survivors_wf(front, next);
        let rest = survivors(front);
        let all = survivors(es);
        assert forall|k: int| 0 <= k < rest.len() implies (#[trigger] rest[k]).id < es.last().id by {
            assert(front.len() > 0);
            assert(front.last().id == es[es.len() - 2].id);
        }
        assert forall|i: int, j: int| 0 <= i < j < all.len() implies all[i].id < all[j].id by {
            if j < rest.len() {
                assert(rest[i].id < rest[j].id);
            } else {
                assert(rest[i].id < es.last().id);
            }
        }
        assert forall|k: int| 0 <= k < all.len() implies 1 <= (#[trigger] all[k]).id < next && all[k].wf() by {
            if k < rest.len() {
                assert(rest[k].wf());
            } else {
                assert(es[es.len() - 1].wf());
            }
        }
    }
}

/// A step keeps the world well-formed and leaves nothing in it that is
/// inactive or dead.
pub proof fn lemma_step_keeps_world(es: Seq<Entity>, next: u32, dt: u64, level: &Level, trig: &TrigTable)
    requires
        world_wf(es, next),
    ensures
        world_wf(stepped(es, dt, level, trig), next),
        forall|k: int|
            0 <= k < stepped(es, dt, level, trig).len() ==> (#[trigger] stepped(es, dt, level, trig)[k]).active
                && stepped(es, dt, level, trig)[k].state != EntityState::Dead,
{
    let a = advanced(es, dt, level, trig);
    let s = before_hits(es, dt, level, trig);
    let h = struck(s, s.len() as int);
    lemma_advanced_wf(es, next, dt, level, trig);
    lemma_ticked_wf(a, next, dt);
    lemma_struck_wf(s, next, s.len() as int);
    lemma_survivors_wf(h, next);
    assert forall|k: int| 0 <= k < survivors(h).len() implies (#[trigger] survivors(h)[k]).state
        != EntityState::Dead by {
        assert(survivors(h)[k].wf());
    }
}

} // verus!
