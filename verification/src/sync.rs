//! Snapshots of the world, as a host sends them and a client shows them.

use vstd::prelude::*;
use crate::entity::Entity;
use crate::world::World;

verus! {

/// How many snapshots are kept.
pub const SNAPSHOT_LIMIT: usize = 10;

/// The latest snapshots, each with the time it was taken at, in microseconds,
/// the oldest first.
pub struct SnapshotInterpolator {
    pub snapshots: Vec<(u64, World)>,
}

/// `before` with `added` behind it, without its oldest entry where that makes
/// more than `SNAPSHOT_LIMIT`.
pub open spec fn recorded(before: Seq<(u64, World)>, added: (u64, World)) -> Seq<(u64, World)> {
    if before.len() + 1 > SNAPSHOT_LIMIT {
        before.push(added).remove(0)
    } else {
        before.push(added)
    }
}

impl SnapshotInterpolator {
    /// An interpolator without a snapshot.
    pub fn new() -> (s: Self)
        ensures
            s.snapshots@.len() == 0,
    {
        SnapshotInterpolator { snapshots: Vec::new() }
    }

    /// Keeps `world` as the snapshot of the time `timestamp`, and drops the
    /// oldest snapshot where there are more than `SNAPSHOT_LIMIT`.
    pub fn add_snapshot(&mut self, timestamp: u64, world: World)
        ensures
            final(self).snapshots@ == recorded(old(self).snapshots@, (timestamp, world)),
    {
        self.snapshots.push((timestamp, world));
        if self.snapshots.len() > SNAPSHOT_LIMIT {
            self.snapshots.remove(0);
        }
    }

    /// The world to show at the time `render_time`: a copy of the latest
    /// snapshot, or nothing where there is none.
    pub fn interpolate(&self, render_time: u64) -> (r: Option<World>)
        ensures
            r is Some <==> self.snapshots@.len() > 0,
            r is Some ==> r->Some_0.entities@ == self.snapshots@.last().1.entities@
                && r->Some_0.next_entity_id == self.snapshots@.last().1.next_entity_id,
    {
        if self.snapshots.len() == 0 {
            None
        } else {
            let latest: &World = &self.snapshots[self.snapshots.len() - 1].1;
            Some(latest.duplicate())
        }
    }
}

impl World {
    /// A copy of the world.
    pub fn duplicate(&self) -> (w: World)
        ensures
            w.entities@ == self.entities@,
            w.next_entity_id == self.next_entity_id,
    {
        let mut entities: Vec<Entity> = Vec::new();
        let mut i: usize = 0;
        while i < self.entities.len()
            invariant
                i <= self.entities@.len(),
                entities@ == self.entities@.take(i as int),
            decreases self.entities@.len() - i,
        {
            entities.push(self.entities[i]);
            proof {
                assert(entities@ =~= self.entities@.take(i as int + 1));
            }
            i += 1;
        }
        proof {
            assert(self.entities@.take(i as int) =~= self.entities@);
        }
        World { entities, next_entity_id: self.next_entity_id }
    }
}

} // verus!
