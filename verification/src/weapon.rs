//! Weapons: their figures and the cycle of firing, recoil and reloading.
//! Times are points on the caller's clock, in microseconds.

use vstd::prelude::*;
use crate::entity::SpriteType;
use crate::graphics::Color;

verus! {

#[derive(Debug, Clone, Copy, PartialEq, Eq, Structural)]
pub enum WeaponType {
    Pistol,
    Shotgun,
    Gatling,
}

#[derive(Debug, Clone, Copy, PartialEq, Eq, Structural)]
pub enum WeaponState {
    Idle,
    Firing,
    Recoil,
    Reloading,
}

/// A weapon. `animation_timer` is when its animation last moved on and
/// `frame_duration` how long a frame of it lasts; `range` is in map units,
/// `spread` in degrees and `movement_penalty` a share of the speed, all in
/// millionths.
#[derive(Debug, Clone, Copy, PartialEq, Eq, Structural)]
pub struct Weapon {
    pub weapon_type: WeaponType,
    pub state: WeaponState,
    pub animation_frame: usize,
    pub animation_timer: u64,
    pub frame_duration: u64,
    pub ammo: u32,
    pub max_ammo: u32,
    pub damage: i32,
    pub range: i64,
    pub spread: i64,
    pub projectile_count: u32,
    pub reload_frames: usize,
    pub movement_penalty: i64,
}

/// The sprite that the projectiles of a weapon of the type `weapon_type` show.
pub open spec fn projectile_sprite_of(weapon_type: WeaponType) -> SpriteType {
    match weapon_type {
        WeaponType::Pistol => SpriteType::ProjectilePistol,
        WeaponType::Shotgun => SpriteType::ProjectileShotgun,
        WeaponType::Gatling => SpriteType::ProjectileGatling,
    }
}

/// The sprite that the projectiles of a weapon of the type `weapon_type` show.
pub fn projectile_sprite(weapon_type: WeaponType) -> (s: SpriteType)
    ensures
        s == projectile_sprite_of(weapon_type),
{
    match weapon_type {
        WeaponType::Pistol => SpriteType::ProjectilePistol,
        WeaponType::Shotgun => SpriteType::ProjectileShotgun,
        WeaponType::Gatling => SpriteType::ProjectileGatling,
    }
}

/// A pistol, idle and full, as it is taken up at the time `now`.
pub open spec fn pistol(now: u64) -> Weapon {
    Weapon {
        weapon_type: WeaponType::Pistol,
        state: WeaponState::Idle,
        animation_frame: 0,
        animation_timer: now,
        frame_duration: 100_000,
        ammo: 8,
        max_ammo: 8,
        damage: 20,
        range: 15_000_000,
        spread: 0,
        projectile_count: 1,
        reload_frames: 3,
        movement_penalty: 200_000,
    }
}

/// A shotgun, idle and full, as it is taken up at the time `now`.
pub open spec fn shotgun(now: u64) -> Weapon {
    Weapon {
        weapon_type: WeaponType::Shotgun,
        state: WeaponState::Idle,
        animation_frame: 0,
        animation_timer: now,
        frame_duration: 250_000,
        ammo: 6,
        max_ammo: 6,
        damage: 10,
        range: 8_000_000,
        spread: 5_000_000,
        projectile_count: 5,
        reload_frames: 4,
        movement_penalty: 500_000,
    }
}

/// A gatling, idle and full, as it is taken up at the time `now`.
pub open spec fn gatling(now: u64) -> Weapon {
    Weapon {
        weapon_type: WeaponType::Gatling,
        state: WeaponState::Idle,
        animation_frame: 0,
        animation_timer: now,
        frame_duration: 50_000,
        ammo: 100,
        max_ammo: 100,
        damage: 15,
        range: 12_000_000,
        spread: 2_000_000,
        projectile_count: 1,
        reload_frames: 5,
        movement_penalty: 600_000,
    }
}

impl Weapon {
    /// Whether the weapon can fire: it is idle and has ammunition.
    pub open spec fn can_fire(self) -> bool {
        self.ammo > 0 && self.state == WeaponState::Idle
    }

    /// The weapon after a shot at the time `now`.
    pub open spec fn fired(self, now: u64) -> Weapon {
        if self.can_fire() {
            Weapon {
                ammo: (self.ammo - 1) as u32,
                state: WeaponState::Firing,
                animation_frame: 0,
                animation_timer: now,
                ..self
            }
        } else {
            self
        }
    }

    /// The weapon after a call for reloading at the time `now`: it starts to
    /// reload if it is idle and not full.
    pub open spec fn reloading(self, now: u64) -> Weapon {
        if self.ammo < self.max_ammo && self.state == WeaponState::Idle {
            Weapon { state: WeaponState::Reloading, animation_frame: 0, animation_timer: now, ..self }
        } else {
            self
        }
    }

    /// Whether a frame of the animation has lasted its time at the time `now`.
    pub open spec fn frame_is_over(self, now: u64) -> bool {
        now >= self.animation_timer && now - self.animation_timer >= self.frame_duration
    }

    /// The weapon at the time `now`. Once a frame has lasted its time, firing
    /// gives way to recoil, recoil to idling, and reloading goes one frame on
    /// and ends after `reload_frames` frames with the weapon full and idle.
    pub open spec fn updated(self, now: u64) -> Weapon {
        if !self.frame_is_over(now) {
            self
        } else {
            match self.state {
                WeaponState::Firing => Weapon {
                    state: WeaponState::Recoil,
                    animation_frame: 0,
                    animation_timer: now,
                    ..self
                },
                WeaponState::Recoil => Weapon {
                    state: WeaponState::Idle,
                    animation_frame: 0,
                    animation_timer: now,
                    ..self
                },
                WeaponState::Reloading => if self.animation_frame + 1 >= self.reload_frames {
                    Weapon {
                        ammo: self.max_ammo,
                        state: WeaponState::Idle,
                        animation_frame: 0,
                        animation_timer: now,
                        ..self
                    }
                } else {
                    Weapon {
                        animation_frame: (self.animation_frame + 1) as usize,
                        animation_timer: now,
                        ..self
                    }
                },
                WeaponState::Idle => Weapon { animation_timer: now, ..self },
            }
        }
    }

    /// A pistol, idle and full, taken up at the time `now`.
    pub fn new_pistol(now: u64) -> (w: Self)
        ensures
            w == pistol(now),
    {
        Weapon {
            weapon_type: WeaponType::Pistol,
            state: WeaponState::Idle,
            animation_frame: 0,
            animation_timer: now,
            frame_duration: 100_000,
            ammo: 8,
            max_ammo: 8,
            damage: 20,
            range: 15_000_000,
            spread: 0,
            projectile_count: 1,
            reload_frames: 3,
            movement_penalty: 200_000,
        }
    }

    /// A shotgun, idle and full, taken up at the time `now`.
    pub fn new_shotgun(now: u64) -> (w: Self)
        ensures
            w == shotgun(now),
    {
        Weapon {
            weapon_type: WeaponType::Shotgun,
            state: WeaponState::Idle,
            animation_frame: 0,
            animation_timer: now,
            frame_duration: 250_000,
            ammo: 6,
            max_ammo: 6,
            damage: 10,
            range: 8_000_000,
            spread: 5_000_000,
            projectile_count: 5,
            reload_frames: 4,
            movement_penalty: 500_000,
        }
    }

    /// A gatling, idle and full, taken up at the time `now`.
    pub fn new_gatling(now: u64) -> (w: Self)
        ensures
            w == gatling(now),
    {
        Weapon {
            weapon_type: WeaponType::Gatling,
            state: WeaponState::Idle,
            animation_frame: 0,
            animation_timer: now,
            frame_duration: 50_000,
            ammo: 100,
            max_ammo: 100,
            damage: 15,
            range: 12_000_000,
            spread: 2_000_000,
            projectile_count: 1,
            reload_frames: 5,
            movement_penalty: 600_000,
        }
    }

    /// Fires at the time `now` if the weapon is idle and has ammunition, and
    /// says whether it did.
    pub fn fire(&mut self, now: u64) -> (shot: bool)
        ensures
            shot == old(self).can_fire(),
            *final(self) == old(self).fired(now),
    {
        if self.ammo > 0 && self.state == WeaponState::Idle {
            self.ammo -= 1;
            self.state = WeaponState::Firing;
            self.animation_frame = 0;
            self.animation_timer = now;
            true
        } else {
            false
        }
    }

    /// Starts to reload at the time `now` if the weapon is idle and not full.
    pub fn reload(&mut self, now: u64)
        ensures
            *final(self) == old(self).reloading(now),
    {
        if self.ammo < self.max_ammo && self.state == WeaponState::Idle {
            self.state = WeaponState::Reloading;
            self.animation_frame = 0;
            self.animation_timer = now;
        }
    }

    /// Moves the animation on to the time `now`.
    pub fn update(&mut self, now: u64)
        ensures
            *final(self) == old(self).updated(now),
    {
        if now >= self.animation_timer && now - self.animation_timer >= self.frame_duration {
            match self.state {
                WeaponState::Firing => {
                    self.state = WeaponState::Recoil;
                    self.animation_frame = 0;
                },
                WeaponState::Recoil => {
                    self.state = WeaponState::Idle;
                    self.animation_frame = 0;
                },
                WeaponState::Reloading => {
                    if self.animation_frame == usize::MAX || self.animation_frame + 1 >= self.reload_frames {
                        self.ammo = self.max_ammo;
                        self.state = WeaponState::Idle;
                        self.animation_frame = 0;
                    } else {
                        self.animation_frame += 1;
                    }
                },
                WeaponState::Idle => {},
            }
            self.animation_timer = now;
        }
    }
}

/// The picture of a weapon: rows of characters, of which a space is see-through,
/// with a colour for each character; `width` is the length of the longest
/// row and `height` the number of rows.
pub struct WeaponSprite {
    pub lines: Vec<Vec<char>>,
    pub colors: Vec<Vec<Color>>,
    pub width: usize,
    pub height: usize,
}

/// The length of the longest of `lines`.
pub open spec fn longest(lines: Seq<Vec<char>>) -> nat
    decreases lines.len(),
{
    if lines.len() == 0 {
        0
    } else {
        let rest = longest(lines.drop_last());
        if lines.last()@.len() > rest {
            lines.last()@.len()
        } else {
            rest
        }
    }
}

impl WeaponSprite {
    /// The picture with the rows `lines` and their colours `colors`.
    pub fn new(lines: Vec<Vec<char>>, colors: Vec<Vec<Color>>) -> (s: Self)
        ensures
            s.lines@ == lines@,
            s.colors@ == colors@,
            s.height == lines@.len(),
            s.width == longest(lines@),
    {
        let mut width: usize = 0;
        let mut i: usize = 0;
        while i < lines.len()
            invariant
                i <= lines@.len(),
                width == longest(lines@.take(i as int)),
            decreases lines@.len() - i,
        {
            proof {
                assert(lines@.take(i as int + 1).drop_last() == lines@.take(i as int));
            }
            if lines[i].len() > width {
                width = lines[i].len();
            }
            i += 1;
        }
        proof {
            assert(lines@.take(i as int) == lines@);
        }
        let height: usize = lines.len();
        WeaponSprite { lines, colors, width, height }
    }

    /// The colour that the picture shows at the row `row` and the column
    /// `col`, or nothing where it is see-through there. A character without a
    /// colour of its own is grey.
    pub open spec fn pixel(&self, row: int, col: int) -> Option<Color> {
        if 0 <= row < self.lines@.len() && 0 <= col < self.lines@[row]@.len() && self.lines@[row]@[col]
            != ' ' {
            Some(
                if row < self.colors@.len() && col < self.colors@[row]@.len() {
                    self.colors@[row]@[col]
                } else {
                    Color::Rgb { r: 100, g: 100, b: 100 }
                },
            )
        } else {
            None
        }
    }

    /// The colour that the picture shows at the row `row` and the column `col`.
    pub fn pixel_at(&self, row: usize, col: usize) -> (r: Option<Color>)
        ensures
            r == self.pixel(row as int, col as int),
    {
        if row < self.lines.len() && col < self.lines[row].len() && self.lines[row][col] != ' ' {
            if row < self.colors.len() && col < self.colors[row].len() {
                Some(self.colors[row][col])
            } else {
                Some(Color::Rgb { r: 100, g: 100, b: 100 })
            }
        } else {
            None
        }
    }
}

} // verus!
