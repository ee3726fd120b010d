//! The player's side of the game: the weapons carried, the one in hand, and
//! the pause after changing it. Times are points on the caller's clock, in
//! microseconds.

use vstd::prelude::*;
use crate::entity::Transform;
use crate::weapon::{gatling, pistol, shotgun, Weapon, WeaponState};

verus! {

/// How long after a change of weapon the player can neither fire nor reload,
/// in microseconds.
pub const SWITCH_COOLDOWN: u64 = 500_000;

/// When the pause ends that a change of weapon at the time `now` starts.
pub open spec fn pause_end(now: u64) -> u64 {
    if now + SWITCH_COOLDOWN > u64::MAX {
        u64::MAX
    } else {
        (now + SWITCH_COOLDOWN) as u64
    }
}

pub struct Player {
    pub entity_id: u32,
    pub max_speed: i64,
    pub max_rotation_speed: i64,
    pub health: u32,
    pub weapons: Vec<Weapon>,
    pub current_weapon: usize,
    pub switch_cooldown_expiry: u64,
    pub kills: u32,
    pub transform: Transform,
}

impl Player {
    /// The weapon in hand is one of the weapons carried.
    pub open spec fn wf(&self) -> bool {
        self.current_weapon < self.weapons@.len()
    }

    /// The weapon in hand.
    pub open spec fn weapon(&self) -> Weapon
        recommends
            self.wf(),
    {
        self.weapons@[self.current_weapon as int]
    }

    /// Whether a call for the weapon `index` changes the weapon in hand: the
    /// player carries such a weapon and has another in hand.
    pub open spec fn takes(&self, index: usize) -> bool {
        index < self.weapons@.len() && index != self.current_weapon
    }

    /// Whether the pause after a change of weapon is still on at `now`.
    pub open spec fn is_cooling(&self, now: u64) -> bool {
        now < self.switch_cooldown_expiry
    }

    /// A player at full health who carries a pistol, a shotgun, a gatling and a
    /// second shotgun, the pistol in hand.
    pub fn new(now: u64) -> (p: Self)
        ensures
            p.wf(),
            p.entity_id == 0,
            p.max_speed == 4_000_000,
            p.max_rotation_speed == 50_000_000,
            p.health == 100,
            p.weapons@ == seq![pistol(now), shotgun(now), gatling(now), shotgun(now)],
            p.current_weapon == 0,
            p.switch_cooldown_expiry == now,
            p.kills == 0,
            p.transform == (Transform { x: 3_500_000, y: 3_500_000, angle: 0 }),
    {
        let mut weapons: Vec<Weapon> = Vec::new();
        weapons.push(Weapon::new_pistol(now));
        weapons.push(Weapon::new_shotgun(now));
        weapons.push(Weapon::new_gatling(now));
        weapons.push(Weapon::new_shotgun(now));
        proof {
            assert(weapons@ =~= seq![pistol(now), shotgun(now), gatling(now), shotgun(now)]);
        }
        Player {
            entity_id: 0,
            max_speed: 4_000_000,
            max_rotation_speed: 50_000_000,
            health: 100,
            weapons,
            current_weapon: 0,
            switch_cooldown_expiry: now,
            kills: 0,
            transform: Transform::new(3_500_000, 3_500_000, 0),
        }
    }

    /// The weapon in hand.
    pub fn get_current_weapon(&self) -> (w: &Weapon)
        requires
            self.wf(),
        ensures
            *w == self.weapon(),
    {
        &self.weapons[self.current_weapon]
    }

    /// Fires the weapon in hand at the time `now`, unless the pause after a
    /// change of weapon is still on, and says whether a shot went off.
    pub fn fire(&mut self, now: u64) -> (shot: bool)
        requires
            old(self).wf(),
        ensures
            shot == (!old(self).is_cooling(now) && old(self).weapon().can_fire()),
            final(self).weapons@ == (if old(self).is_cooling(now) {
                old(self).weapons@
            } else {
                old(self).weapons@.update(old(self).current_weapon as int, old(self).weapon().fired(now))
            }),
            final(self).same_but_weapons(old(self)),
    {
        if now < self.switch_cooldown_expiry {
            return false;
        }
        let mut w: Weapon = self.weapons[self.current_weapon];
        let shot: bool = w.fire(now);
        self.weapons.set(self.current_weapon, w);
        shot
    }

    /// Starts to reload the weapon in hand at the time `now`, unless the pause
    /// after a change of weapon is still on.
    pub fn reload(&mut self, now: u64)
        requires
            old(self).wf(),
        ensures
            final(self).weapons@ == (if old(self).is_cooling(now) {
                old(self).weapons@
            } else {
                old(self).weapons@.update(
                    old(self).current_weapon as int,
                    old(self).weapon().reloading(now),
                )
            }),
            final(self).same_but_weapons(old(self)),
    {
        if now < self.switch_cooldown_expiry {
            return ;
        }
        let mut w: Weapon = self.weapons[self.current_weapon];
        w.reload(now);
        self.weapons.set(self.current_weapon, w);
    }

    /// Moves the animation of the weapon in hand on to the time `now`.
    pub fn animation_update(&mut self, now: u64)
        requires
            old(self).wf(),
        ensures
            final(self).weapons@ == old(self).weapons@.update(
                old(self).current_weapon as int,
                old(self).weapon().updated(now),
            ),
            final(self).same_but_weapons(old(self)),
    {
        let mut w: Weapon = self.weapons[self.current_weapon];
        w.update(now);
        self.weapons.set(self.current_weapon, w);
    }

    /// Takes the weapon `index` in hand at the time `now` and starts the pause;
    /// does nothing where the player carries no such weapon or has it in hand.
    pub fn switch_weapon(&mut self, index: usize, now: u64)
        requires
            old(self).wf(),
        ensures
            final(self).wf(),
            final(self).weapons@ == old(self).weapons@,
            final(self).entity_id == old(self).entity_id,
            final(self).max_speed == old(self).max_speed,
            final(self).max_rotation_speed == old(self).max_rotation_speed,
            final(self).health == old(self).health,
            final(self).kills == old(self).kills,
            final(self).transform == old(self).transform,
            final(self).current_weapon == (if old(self).takes(index) {
                index
            } else {
                old(self).current_weapon
            }),
            final(self).switch_cooldown_expiry == (if old(self).takes(index) {
                pause_end(now)
            } else {
                old(self).switch_cooldown_expiry
            }),
    {
        if index < self.weapons.len() && index != self.current_weapon {
            self.current_weapon = index;
            self.switch_cooldown_expiry = if now > u64::MAX - SWITCH_COOLDOWN {
                u64::MAX
            } else {
                now + SWITCH_COOLDOWN
            };
        }
    }

    /// Takes `amount` from the health, which does not drop below zero.
    pub fn take_damage(&mut self, amount: u32)
        ensures
            final(self).health == (if old(self).health >= amount {
                (old(self).health - amount) as u32
            } else {
                0u32
            }),
            final(self).weapons@ == old(self).weapons@,
            final(self).current_weapon == old(self).current_weapon,
            final(self).switch_cooldown_expiry == old(self).switch_cooldown_expiry,
            final(self).max_speed == old(self).max_speed,
            final(self).max_rotation_speed == old(self).max_rotation_speed,
            final(self).kills == old(self).kills,
            final(self).transform == old(self).transform,
            final(self).entity_id == old(self).entity_id,
    {
        self.health = if self.health >= amount {
            self.health - amount
        } else {
            0
        };
    }

    /// Whether the weapon in hand is firing.
    pub fn is_firing(&self) -> (r: bool)
        requires
            self.wf(),
        ensures
            r == (self.weapon().state == WeaponState::Firing),
    {
        self.weapons[self.current_weapon].state == WeaponState::Firing
    }

    /// Whether `self` is `other` but for the states of the weapons.
    pub open spec fn same_but_weapons(&self, other: &Player) -> bool {
        &&& self.entity_id == other.entity_id
        &&& self.max_speed == other.max_speed
        &&& self.max_rotation_speed == other.max_rotation_speed
        &&& self.health == other.health
        &&& self.weapons@.len() == other.weapons@.len()
        &&& self.current_weapon == other.current_weapon
        &&& self.switch_cooldown_expiry == other.switch_cooldown_expiry
        &&& self.kills == other.kills
        &&& self.transform == other.transform
    }
}

} // verus!
