//! The world: the one owner of every entity, each under an id of its own.

use vstd::prelude::*;
use crate::entity::{Entity, EntityType, SpriteType};

verus! {

/// The entities in the order of their ids, which is the order in which they
/// were spawned, and the id that the next one gets.
pub struct World {
    pub entities: Vec<Entity>,
    pub next_entity_id: u32,
}

/// Whether the ids of `es` rise strictly from each entity to the next.
pub open spec fn ids_ascending(es: Seq<Entity>) -> bool {
    forall|i: int, j: int| 0 <= i < j < es.len() ==> es[i].id < es[j].id
}

/// Whether some entity of `es` has the id `id`.
pub open spec fn has_id(es: Seq<Entity>, id: u32) -> bool {
    exists|i: int| 0 <= i < es.len() && es[i].id == id
}

/// Where in `es` the entity with the id `id` stands.
pub open spec fn index_of(es: Seq<Entity>, id: u32) -> int {
    choose|i: int| 0 <= i < es.len() && es[i].id == id
}

/// The entities of `es` that are of type `kind` and active, in their order.
pub open spec fn active_of(es: Seq<Entity>, kind: EntityType) -> Seq<Entity>
    decreases es.len(),
{
    if es.len() == 0 {
        Seq::empty()
    } else {
        let rest = active_of(es.drop_last(), kind);
        if es.last().entity_type == kind && es.last().active {
            rest.push(es.last())
        } else {
            rest
        }
    }
}

/// The entities of `es` that are players, in their order.
pub open spec fn players_of(es: Seq<Entity>) -> Seq<Entity>
    decreases es.len(),
{
    if es.len() == 0 {
        Seq::empty()
    } else {
        let rest = players_of(es.drop_last());
        if es.last().entity_type == EntityType::Player {
            rest.push(es.last())
        } else {
            rest
        }
    }
}

/// Where the first active entity of type `kind` stands in `es` from `from`
/// on, or `es.len()` where there is none.
pub open spec fn first_active(es: Seq<Entity>, kind: EntityType, from: int) -> int
    decreases es.len() - from,
{
    if from < 0 || from >= es.len() {
        es.len() as int
    } else if es[from].entity_type == kind && es[from].active {
        from
    } else {
        first_active(es, kind, from + 1)
    }
}

/// The entities of `es`, each under its id.
pub open spec fn as_map(es: Seq<Entity>) -> Map<u32, Entity> {
    Map::new(|id: u32| has_id(es, id), |id: u32| es[index_of(es, id)])
}

/// The world's well-formedness as a predicate on its two parts.
pub open spec fn world_wf(es: Seq<Entity>, next: u32) -> bool {
    &&& ids_ascending(es)
    &&& next >= 1
    &&& forall|i: int| 0 <= i < es.len() ==> 1 <= (#[trigger] es[i]).id < next && es[i].wf()
}

/// The enemies that a world is restocked with: where each stands and what it
/// looks like.
pub open spec fn default_roster() -> Seq<(i64, i64, SpriteType)> {
    seq![
        (10_000_000i64, 15_000_000i64, SpriteType::EnemyImp),
        (8_000_000i64, 8_000_000i64, SpriteType::EnemyDemon),
        (18_000_000i64, 12_000_000i64, SpriteType::EnemyImp),
    ]
}

impl View for World {
    type V = Map<u32, Entity>;

    /// The world as a map from each id to its entity.
    open spec fn view(&self) -> Map<u32, Entity> {
        as_map(self.entities@)
    }
}

impl World {
    /// Ids are unique and rise in the order of the entities, each lies below the
    /// next id to give out, and each entity is well-formed.
    pub open spec fn wf(&self) -> bool {
        world_wf(self.entities@, self.next_entity_id)
    }

    /// Whether the world holds an entity with the id `id`.
    pub open spec fn contains(&self, id: u32) -> bool {
        has_id(self.entities@, id)
    }

    /// The entity with the id `id`.
    pub open spec fn entity(&self, id: u32) -> Entity
        recommends
            self.contains(id),
    {
        self.entities@[index_of(self.entities@, id)]
    }

    /// Whether `count` more entities can get an id.
    pub open spec fn has_room(&self, count: int) -> bool {
        self.next_entity_id + count <= u32::MAX
    }

    /// An empty world, whose first entity will get the id 1.
    pub fn new() -> (w: Self)
        ensures
            w.entities@ == Seq::<Entity>::empty(),
            w.next_entity_id == 1,
            w.wf(),
    {
        World { entities: Vec::new(), next_entity_id: 1 }
    }

    /// The world that holds `entities` and gives out `next_entity_id` next, or
    /// nothing where these do not make a well-formed world.
    pub fn restore(entities: Vec<Entity>, next_entity_id: u32) -> (r: Option<Self>)
        ensures
            r is Some <==> world_wf(entities@, next_entity_id),
            r is Some ==> r->Some_0.entities@ == entities@ && r->Some_0.next_entity_id == next_entity_id,
    {
        if next_entity_id < 1 {
            return None;
        }
        let mut i: usize = 0;
        while i < entities.len()
            invariant
                i <= entities@.len(),
                next_entity_id >= 1,
                world_wf(entities@.take(i as int), next_entity_id),
            decreases entities@.len() - i,
        {
            let e: &Entity = &entities[i];
            let sound: bool = (e.state != crate::entity::EntityState::Dead || !e.active) && ((e.state
                != crate::entity::EntityState::Idle && e.state != crate::entity::EntityState::Hit) || e.health
                > 0) && 0 <= e.transform.angle && e.transform.angle < 360_000_000;
            let above: bool = if i == 0 {
                true
            } else {
                entities[i - 1].id < e.id
            };
            if !sound || !above || e.id < 1 || e.id >= next_entity_id {
                proof {
                    if world_wf(entities@, next_entity_id) {
                        assert(entities@[i as int].wf());
                        if i > 0 {
                            assert(entities@[i as int - 1].id < entities@[i as int].id);
                        }
                    }
                }
                return None;
            }
            proof {
                let before = entities@.take(i as int);
                let now = entities@.take(i as int + 1);
                assert forall|a: int, b: int| 0 <= a < b < now.len() implies now[a].id < now[b].id by {
                    if b < i {
                        assert(before[a].id < before[b].id);
                    } else if a < i - 1 {
                        assert(before[a].id < before[i as int - 1].id);
                    }
                }
                assert forall|k: int| 0 <= k < now.len() implies 1 <= (#[trigger] now[k]).id < next_entity_id
                    && now[k].wf() by {
                    if k < i {
                        assert(before[k].wf());
                    }
                }
            }
            i += 1;
        }
        proof {
            assert(entities@.take(i as int) == entities@);
        }
        Some(World { entities, next_entity_id })
    }

    /// Takes `entity` into the world under the next id, whatever id it came
    /// with, and returns that id.
    pub fn spawn_entity(&mut self, entity: Entity) -> (id: u32)
        requires
            old(self).wf(),
            old(self).has_room(1),
            entity.wf(),
        ensures
            id == old(self).next_entity_id,
            !old(self).contains(id),
            final(self).entities@ == old(self).entities@.push(entity.with_id(id)),
            final(self)@ == old(self)@.insert(id, entity.with_id(id)),
            final(self).next_entity_id == id + 1,
            final(self).wf(),
    {
        let id: u32 = self.next_entity_id;
        let mut entity = entity;
        entity.id = id;
        proof {
            lemma_map_push(self.entities@, self.next_entity_id, entity);
        }
        self.entities.push(entity);
        self.next_entity_id = id + 1;
        id
    }

    /// Where the entity with the id `id` stands among the entities.
    pub fn find(&self, id: u32) -> (r: Option<usize>)
        requires
            self.wf(),
        ensures
            r is Some <==> self.contains(id),
            r is Some ==> r->Some_0 == index_of(self.entities@, id) && r->Some_0 < self.entities@.len()
                && self.entities@[r->Some_0 as int].id == id,
    {
        let mut i: usize = 0;
        while i < self.entities.len()
            invariant
                i <= self.entities@.len(),
                self.wf(),
                forall|k: int| 0 <= k < i ==> self.entities@[k].id != id,
            decreases self.entities@.len() - i,
        {
            if self.entities[i].id == id {
                return Some(i);
            }
            i += 1;
        }
        None
    }

    /// The entity with the id `id`, or nothing where the world holds none.
    pub fn get_entity(&self, id: u32) -> (r: Option<&Entity>)
        requires
            self.wf(),
        ensures
            r is Some <==> self.contains(id),
            r is Some <==> self@.contains_key(id),
            r is Some ==> *r->Some_0 == self.entity(id) && *r->Some_0 == self@[id] && r->Some_0.id == id,
    {
        match self.find(id) {
            Some(i) => Some(&self.entities[i]),
            None => None,
        }
    }

    /// The entity with the id `id`, to be changed in place, or nothing where
    /// the world holds none. The world is what it was but for what the caller
    /// makes of that entity.
    pub fn get_entity_mut(&mut self, id: u32) -> (r: Option<&mut Entity>)
        requires
            old(self).wf(),
        ensures
            r is Some <==> old(self).contains(id),
            r is Some ==> *r->Some_0 == old(self).entity(id) && final(self).entities@
                == old(self).entities@.update(index_of(old(self).entities@, id), *final(r->Some_0)),
            r is None ==> final(self).entities@ == old(self).entities@,
            final(self).next_entity_id == old(self).next_entity_id,
    {
        match self.find(id) {
            Some(i) => Some(&mut self.entities[i]),
            None => None,
        }
    }

    /// Where the player stands among the entities: the first active entity of
    /// type `Player`.
    pub fn find_player(&self) -> (r: Option<usize>)
        ensures
            r is Some <==> active_of(self.entities@, EntityType::Player).len() > 0,
            r is Some ==> r->Some_0 == first_active(self.entities@, EntityType::Player, 0) && r->Some_0
                < self.entities@.len() && self.entities@[r->Some_0 as int] == active_of(
                self.entities@,
                EntityType::Player,
            ).first(),
    {
        let mut i: usize = 0;
        while i < self.entities.len()
            invariant
                i <= self.entities@.len(),
                active_of(self.entities@.take(i as int), EntityType::Player).len() == 0,
                first_active(self.entities@, EntityType::Player, 0) == first_active(
                    self.entities@,
                    EntityType::Player,
                    i as int,
                ),
            decreases self.entities@.len() - i,
        {
            proof {
                lemma_active_step(self.entities@, EntityType::Player, i as int);
            }
            if self.entities[i].entity_type == EntityType::Player && self.entities[i].active {
                proof {
                    lemma_active_prefix(self.entities@, EntityType::Player, i as int + 1);
                }
                return Some(i);
            }
            i += 1;
        }
        assert(self.entities@.take(i as int) == self.entities@);
        None
    }

    /// The player: the first active entity of type `Player`, or nothing where
    /// there is none.
    pub fn get_player(&self) -> (r: Option<&Entity>)
        ensures
            r is Some <==> active_of(self.entities@, EntityType::Player).len() > 0,
            r is Some ==> *r->Some_0 == active_of(self.entities@, EntityType::Player).first(),
            r is Some ==> r->Some_0.active && r->Some_0.entity_type == EntityType::Player,
    {
        match self.find_player() {
            Some(i) => {
                proof {
                    lemma_first_active(self.entities@, EntityType::Player, 0);
                }
                Some(&self.entities[i])
            },
            None => None,
        }
    }

    /// The player, to be changed in place, or nothing where there is none. The
    /// world is what it was but for what the caller makes of the player.
    pub fn get_player_mut(&mut self) -> (r: Option<&mut Entity>)
        ensures
            r is Some <==> active_of(old(self).entities@, EntityType::Player).len() > 0,
            r is Some ==> *r->Some_0 == active_of(old(self).entities@, EntityType::Player).first(),
            r is Some ==> final(self).entities@ == old(self).entities@.update(
                first_active(old(self).entities@, EntityType::Player, 0),
                *final(r->Some_0),
            ),
            r is None ==> final(self).entities@ == old(self).entities@,
            final(self).next_entity_id == old(self).next_entity_id,
    {
        match self.find_player() {
            Some(i) => Some(&mut self.entities[i]),
            None => None,
        }
    }

    /// The active entities of type `kind`, in the order of their ids.
    pub fn get_active(&self, kind: EntityType) -> (r: Vec<&Entity>)
        ensures
            r@.len() == active_of(self.entities@, kind).len(),
            forall|k: int| 0 <= k < r@.len() ==> *(#[trigger] r@[k]) == active_of(self.entities@, kind)[k],
    {
        let mut out: Vec<&Entity> = Vec::new();
        let mut i: usize = 0;
        while i < self.entities.len()
            invariant
                i <= self.entities@.len(),
                out@.len() == active_of(self.entities@.take(i as int), kind).len(),
                forall|k: int|
                    0 <= k < out@.len() ==> *(#[trigger] out@[k]) == active_of(
                        self.entities@.take(i as int),
                        kind,
                    )[k],
            decreases self.entities@.len() - i,
        {
            proof {
                assert(self.entities@.take(i as int + 1).drop_last() == self.entities@.take(i as int));
            }
            let e: &Entity = &self.entities[i];
            if e.entity_type == kind && e.active {
                out.push(e);
            }
            i += 1;
        }
        assert(self.entities@.take(i as int) == self.entities@);
        out
    }

    /// The active projectiles, in the order of their ids.
    pub fn get_projectiles(&self) -> (r: Vec<&Entity>)
        ensures
            r@.len() == active_of(self.entities@, EntityType::Projectile).len(),
            forall|k: int|
                0 <= k < r@.len() ==> *(#[trigger] r@[k]) == active_of(
                    self.entities@,
                    EntityType::Projectile,
                )[k],
    {
        self.get_active(EntityType::Projectile)
    }

    /// The active enemies, in the order of their ids.
    pub fn get_enemies(&self) -> (r: Vec<&Entity>)
        ensures
            r@.len() == active_of(self.entities@, EntityType::Enemy).len(),
            forall|k: int|
                0 <= k < r@.len() ==> *(#[trigger] r@[k]) == active_of(
                    self.entities@,
                    EntityType::Enemy,
                )[k],
    {
        self.get_active(EntityType::Enemy)
    }

    /// Spawns an enemy at `(x, y)` and returns its id.
    pub fn spawn_enemy(&mut self, x: i64, y: i64, sprite_type: SpriteType) -> (id: u32)
        requires
            old(self).wf(),
            old(self).has_room(1),
        ensures
            id == old(self).next_entity_id,
            !old(self).contains(id),
            final(self).entities@ == old(self).entities@.push(Entity::enemy_at(id, x, y, sprite_type)),
            final(self)@ == old(self)@.insert(id, Entity::enemy_at(id, x, y, sprite_type)),
            final(self).next_entity_id == id + 1,
            final(self).wf(),
    {
        let enemy = Entity::new_enemy(0, x, y, sprite_type);
        self.spawn_entity(enemy)
    }

    /// Spawns a projectile at `(x, y)` that flies the way `angle` points, and
    /// returns its id.
    pub fn spawn_projectile(
        &mut self,
        x: i64,
        y: i64,
        angle: i64,
        damage: i32,
        max_distance: i64,
        sprite_type: SpriteType,
    ) -> (id: u32)
        requires
            old(self).wf(),
            old(self).has_room(1),
        ensures
            id == old(self).next_entity_id,
            !old(self).contains(id),
            final(self).entities@ == old(self).entities@.push(
                Entity::projectile_at(id, x, y, angle, damage, max_distance, sprite_type),
            ),
            final(self)@ == old(self)@.insert(
                id,
                Entity::projectile_at(id, x, y, angle, damage, max_distance, sprite_type),
            ),
            final(self).next_entity_id == id + 1,
            final(self).wf(),
    {
        let projectile = Entity::new_projectile(0, x, y, angle, damage, max_distance, sprite_type);
        self.spawn_entity(projectile)
    }

    /// Takes the entity with the id `id` out of the world and returns it, or
    /// does nothing where the world holds none.
    pub fn remove_entity(&mut self, id: u32) -> (r: Option<Entity>)
        requires
            old(self).wf(),
        ensures
            r is Some <==> old(self).contains(id),
            r is Some ==> r->Some_0 == old(self).entity(id) && final(self).entities@ == old(
                self,
            ).entities@.remove(index_of(old(self).entities@, id)),
            r is None ==> final(self).entities@ == old(self).entities@,
            final(self)@ == old(self)@.remove(id),
            final(self).next_entity_id == old(self).next_entity_id,
            final(self).wf(),
            !final(self).contains(id),
    {
        match self.find(id) {
            Some(i) => {
                proof {
                    lemma_map_remove(self.entities@, self.next_entity_id, i as int);
                }
                let e = self.entities.remove(i);
                assert(!has_id(self.entities@, id)) by {
                    if has_id(self.entities@, id) {
                        let k = index_of(self.entities@, id);
                        if k < i {
                            assert(old(self).entities@[k].id == id);
                        } else {
                            assert(old(self).entities@[k + 1].id == id);
                        }
                    }
                }
                Some(e)
            },
            None => {
                assert(self@ =~= self@.remove(id));
                None
            },
        }
    }

    /// Removes every enemy and every projectile, keeps the players, and spawns
    /// the default roster of enemies under the next three ids.
    pub fn respawn_enemies(&mut self)
        requires
            old(self).wf(),
            old(self).has_room(3),
        ensures
            final(self).entities@ == restocked(
                players_of(old(self).entities@),
                old(self).next_entity_id,
            ),
            final(self).next_entity_id == old(self).next_entity_id + 3,
            final(self).wf(),
    {
        let mut kept: Vec<Entity> = Vec::new();
        let mut i: usize = 0;
        while i < self.entities.len()
            invariant
                i <= self.entities@.len(),
                self.wf(),
                kept@ == players_of(self.entities@.take(i as int)),
                world_wf(kept@, frontier(self.entities@, i as int, self.next_entity_id)),
            decreases self.entities@.len() - i,
        {
            proof {
                lemma_players_step(self.entities@, i as int);
            }
            let e: Entity = self.entities[i];
            if e.entity_type == EntityType::Player {
                kept.push(e);
            }
            i += 1;
        }
        assert(self.entities@.take(i as int) == self.entities@);
        self.entities = kept;
        self.spawn_enemy(10_000_000, 15_000_000, SpriteType::EnemyImp);
        self.spawn_enemy(8_000_000, 8_000_000, SpriteType::EnemyDemon);
        self.spawn_enemy(18_000_000, 12_000_000, SpriteType::EnemyImp);
    }

    /// Empties the world, players included, and spawns the default roster of
    /// enemies. Ids go on from where they were.
    pub fn reset(&mut self)
        requires
            old(self).wf(),
            old(self).has_room(3),
        ensures
            final(self).entities@ == restocked(Seq::empty(), old(self).next_entity_id),
            final(self).next_entity_id == old(self).next_entity_id + 3,
            final(self).wf(),
    {
        self.entities.clear();
        assert(players_of(self.entities@) == Seq::<Entity>::empty());
        self.respawn_enemies();
    }
}

/// The id that bounds the first `i` entities of `es` from above: that of the
/// entity that follows them, or `next` where none does.
pub open spec fn frontier(es: Seq<Entity>, i: int, next: u32) -> u32 {
    if 0 <= i < es.len() {
        es[i].id
    } else {
        next
    }
}

/// The `i`-th enemy of the default roster, under the id `id`.
pub open spec fn recruit(id: u32, i: int) -> Entity {
    Entity::enemy_at(id, default_roster()[i].0, default_roster()[i].1, default_roster()[i].2)
}

/// `kept` with the default roster behind it, under the ids from `next` on.
pub open spec fn restocked(kept: Seq<Entity>, next: u32) -> Seq<Entity> {
    kept.push(recruit(next, 0)).push(recruit((next + 1) as u32, 1)).push(recruit((next + 2) as u32, 2))
}

/// A new entity under a fresh id is one more entry of the map.
pub proof fn lemma_map_push(es: Seq<Entity>, next: u32, e: Entity)
    requires
        world_wf(es, next),
        e.id == next,
    ensures
        !has_id(es, e.id),
        as_map(es.push(e)) == as_map(es).insert(e.id, e),
{
    let grown = es.push(e);
    if has_id(es, e.id) {
        assert(es[index_of(es, e.id)].id < next);
    }
    assert forall|id: u32| has_id(grown, id) == (has_id(es, id) || id == e.id) by {
        if has_id(grown, id) {
            let k = index_of(grown, id);
            if k < es.len() {
                assert(es[k].id == id);
            }
        }
        if has_id(es, id) {
            assert(grown[index_of(es, id)].id == id);
        }
        if id == e.id {
            assert(grown[es.len() as int].id == id);
        }
    }
    assert forall|id: u32| has_id(grown, id) implies grown[index_of(grown, id)] == (if id == e.id {
        e
    } else {
        es[index_of(es, id)]
    }) by {
        let k = index_of(grown, id);
        if id == e.id {
            if k < es.len() {
                assert(es[k].id < next);
            }
        } else {
            let j = index_of(es, id);
            assert(es[k].id == id);
            if k < j {
                assert(es[k].id < es[j].id);
            }
            if j < k {
                assert(es[j].id < es[k].id);
            }
        }
    }
    assert(as_map(grown) =~= as_map(es).insert(e.id, e));
}

/// Taking an entity out takes its entry out of the map.
pub proof fn lemma_map_remove(es: Seq<Entity>, next: u32, i: int)
    requires
        world_wf(es, next),
        0 <= i < es.len(),
    ensures
        as_map(es.remove(i)) == as_map(es).remove(es[i].id),
{
    let less = es.remove(i);
    assert forall|id: u32| has_id(less, id) == (has_id(es, id) && id != es[i].id) by {
        if has_id(less, id) {
            let k = index_of(less, id);
            if k < i {
                assert(es[k].id == id);
                assert(es[k].id < es[i].id);
            } else {
                assert(es[k + 1].id == id);
                assert(es[i].id < es[k + 1].id);
            }
        }
        if has_id(es, id) && id != es[i].id {
            let j = index_of(es, id);
            if j < i {
                assert(less[j].id == id);
            } else {
                assert(less[j - 1].id == id);
            }
        }
    }
    assert forall|id: u32| has_id(less, id) implies less[index_of(less, id)] == es[index_of(es, id)] by {
        let k = index_of(less, id);
        let j = index_of(es, id);
        let at = if k < i {
            k
        } else {
            k + 1
        };
        assert(es[at].id == id);
        if at < j {
            assert(es[at].id < es[j].id);
        }
        if j < at {
            assert(es[j].id < es[at].id);
        }
    }
    assert(as_map(less) =~= as_map(es).remove(es[i].id));
}

/// Changing an entity but for its id changes its entry of the map.
pub proof fn lemma_map_update(es: Seq<Entity>, next: u32, i: int, e: Entity)
    requires
        world_wf(es, next),
        0 <= i < es.len(),
        e.id == es[i].id,
    ensures
        as_map(es.update(i, e)) == as_map(es).insert(e.id, e),
{
    let changed = es.update(i, e);
    assert forall|id: u32| has_id(changed, id) == has_id(es, id) by {
        if has_id(changed, id) {
            assert(es[index_of(changed, id)].id == id);
        }
        if has_id(es, id) {
            assert(changed[index_of(es, id)].id == id);
        }
    }
    assert(has_id(es, e.id));
    assert forall|id: u32| has_id(changed, id) implies changed[index_of(changed, id)] == (if id == e.id {
        e
    } else {
        es[index_of(es, id)]
    }) by {
        let k = index_of(changed, id);
        let j = index_of(es, id);
        assert(es[k].id == id);
        if k < j {
            assert(es[k].id < es[j].id);
        }
        if j < k {
            assert(es[j].id < es[k].id);
        }
        if id == e.id {
            if k < i {
                assert(es[k].id < es[i].id);
            }
            if i < k {
                assert(es[i].id < es[k].id);
            }
        }
    }
    assert(as_map(changed) =~= as_map(es).insert(e.id, e));
}

/// In a well-formed world an id leads to one entity only.
pub proof fn lemma_index_of(es: Seq<Entity>, next: u32, i: int)
    requires
        world_wf(es, next),
        0 <= i < es.len(),
    ensures
        has_id(es, es[i].id),
        index_of(es, es[i].id) == i,
{
    let k = index_of(es, es[i].id);
    if k < i {
        assert(es[k].id < es[i].id);
    }
    if i < k {
        assert(es[i].id < es[k].id);
    }
}

/// Taking one more entity into view adds it to the active ones of its type.
pub proof fn lemma_active_step(es: Seq<Entity>, kind: EntityType, i: int)
    requires
        0 <= i < es.len(),
    ensures
        active_of(es.take(i + 1), kind) == if es[i].entity_type == kind && es[i].active {
            active_of(es.take(i), kind).push(es[i])
        } else {
            active_of(es.take(i), kind)
        },
{
    assert(es.take(i + 1).drop_last() == es.take(i));
}

/// The active entities of a prefix open those of the whole.
pub proof fn lemma_active_prefix(es: Seq<Entity>, kind: EntityType, n: int)
    requires
        0 <= n <= es.len(),
    ensures
        active_of(es.take(n), kind).len() <= active_of(es, kind).len(),
        forall|k: int|
            0 <= k < active_of(es.take(n), kind).len() ==> active_of(es.take(n), kind)[k] == active_of(
                es,
                kind,
            )[k],
    decreases es.len() - n,
{
    if n == es.len() {
        assert(es.take(n) == es);
    } else {
        lemma_active_step(es, kind, n);
        lemma_active_prefix(es, kind, n + 1);
    }
}

/// The first active entity of a type is active and of that type.
pub proof fn lemma_first_active(es: Seq<Entity>, kind: EntityType, from: int)
    requires
        0 <= from,
    ensures
        first_active(es, kind, from) < es.len() ==> from <= first_active(es, kind, from) && es[first_active(
            es,
            kind,
            from,
        )].active && es[first_active(es, kind, from)].entity_type == kind,
    decreases es.len() - from,
{
    if from < es.len() && !(es[from].entity_type == kind && es[from].active) {
        lemma_first_active(es, kind, from + 1);
    }
}

/// Taking one more entity into view adds it to the players if it is one.
pub proof fn lemma_players_step(es: Seq<Entity>, i: int)
    requires
        0 <= i < es.len(),
    ensures
        players_of(es.take(i + 1)) == if es[i].entity_type == EntityType::Player {
            players_of(es.take(i)).push(es[i])
        } else {
            players_of(es.take(i))
        },
{
    assert(es.take(i + 1).drop_last() == es.take(i));
}

} // verus!
