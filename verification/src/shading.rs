//! Colours: what each material and each sprite looks like, and how distance
//! darkens them.

use vstd::prelude::*;
use crate::entity::SpriteType;
use crate::fixed::{trunc_div, UNIT};
use crate::graphics::Color;

verus! {

/// The colour of the sky.
pub open spec fn sky() -> Color {
    Color::Rgb { r: 30, g: 50, b: 100 }
}

/// One part of a colour, `channel`, at the brightness `factor`: their product,
/// rounded toward zero and kept within `0..=255`.
pub open spec fn darkened(channel: u8, factor: i64) -> u8 {
    let v = trunc_div(channel * factor, UNIT as int);
    if v < 0 {
        0
    } else if v > 255 {
        255
    } else {
        v as u8
    }
}

/// The colour `(r, g, b)` at the brightness `factor`.
pub open spec fn shade(base: (u8, u8, u8), factor: i64) -> Color {
    Color::Rgb { r: darkened(base.0, factor), g: darkened(base.1, factor), b: darkened(base.2, factor) }
}

/// The colour of each wall material at full brightness.
pub open spec fn wall_base(wall_type: u8) -> (u8, u8, u8) {
    if wall_type == 1 {
        (200, 200, 200)
    } else if wall_type == 2 {
        (180, 60, 60)
    } else if wall_type == 3 {
        (200, 180, 60)
    } else if wall_type == 4 {
        (60, 100, 180)
    } else if wall_type == 5 {
        (160, 60, 160)
    } else {
        (120, 120, 120)
    }
}

/// How bright a wall is at the distance `distance`: fully up to one map unit,
/// then falling by 0.06 per map unit from 1.06, and from 1.1 beyond fifteen.
pub open spec fn wall_brightness(distance: i64) -> i64 {
    if distance < UNIT {
        UNIT
    } else if distance < 15 * UNIT {
        (1_060_000 - (distance * 6) / 100) as i64
    } else {
        (1_100_000 - (distance * 6) / 100) as i64
    }
}

/// How bright the floor is below a wall at the distance `distance`.
pub open spec fn floor_brightness(distance: i64) -> i64 {
    if distance < 2 * UNIT {
        800_000
    } else if distance < 4 * UNIT {
        600_000
    } else if distance < 8 * UNIT {
        400_000
    } else if distance < 12 * UNIT {
        200_000
    } else {
        50_000
    }
}

/// How bright a sprite is at the distance `distance`.
pub open spec fn distance_brightness(distance: i64) -> i64 {
    if distance < UNIT {
        UNIT
    } else if distance < 2 * UNIT {
        900_000
    } else if distance < 4 * UNIT {
        750_000
    } else if distance < 8 * UNIT {
        600_000
    } else if distance < 12 * UNIT {
        400_000
    } else if distance < 16 * UNIT {
        250_000
    } else {
        100_000
    }
}

/// The colour of each kind of sprite at full brightness.
pub open spec fn sprite_base(sprite_type: SpriteType) -> (u8, u8, u8) {
    match sprite_type {
        SpriteType::EnemyImp => (200, 100, 50),
        SpriteType::EnemyDemon => (150, 50, 50),
        _ => (255, 200, 0),
    }
}

/// One part of a colour at the brightness `factor`.
pub fn darken_channel(channel: u8, factor: i64) -> (c: u8)
    ensures
        c == darkened(channel, factor),
{
    if factor <= 0 {
        assert(channel * factor <= 0) by (nonlinear_arith)
            requires
                factor <= 0,
                channel >= 0,
        ;
        0
    } else {
        assert(0 <= channel * factor <= 255 * 0x7fff_ffff_ffff_ffff) by (nonlinear_arith)
            requires
                0 < factor <= 0x7fff_ffff_ffff_ffff,
                0 <= channel <= 255,
        ;
        let whole: u128 = (channel as u128) * (factor as u128);
        let v: u128 = whole / 1_000_000u128;
        if v > 255 {
            255
        } else {
            v as u8
        }
    }
}

/// The colour `(r, g, b)` at the brightness `factor`.
pub fn darken_color(r: u8, g: u8, b: u8, factor: i64) -> (c: Color)
    ensures
        c == shade((r, g, b), factor),
{
    Color::Rgb { r: darken_channel(r, factor), g: darken_channel(g, factor), b: darken_channel(b, factor) }
}

/// The colour of a wall of the material `wall_type` at the distance `distance`.
pub fn get_wall_color(distance: i64, wall_type: u8) -> (c: Color)
    ensures
        c == shade(wall_base(wall_type), wall_brightness(distance)),
{
    let (r, g, b): (u8, u8, u8) = if wall_type == 1 {
        (200, 200, 200)
    } else if wall_type == 2 {
        (180, 60, 60)
    } else if wall_type == 3 {
        (200, 180, 60)
    } else if wall_type == 4 {
        (60, 100, 180)
    } else if wall_type == 5 {
        (160, 60, 160)
    } else {
        (120, 120, 120)
    };
    let brightness: i64 = if distance < 1_000_000 {
        1_000_000
    } else {
        let drop: i128 = (distance as i128) * 6 / 100;
        if distance < 15_000_000 {
            1_060_000 - (drop as i64)
        } else {
            1_100_000 - (drop as i64)
        }
    };
    darken_color(r, g, b, brightness)
}

/// The colour of the floor below a wall at the distance `distance`.
pub fn get_floor_color(distance: i64) -> (c: Color)
    ensures
        c == shade((40, 80, 40), floor_brightness(distance)),
{
    let brightness: i64 = if distance < 2_000_000 {
        800_000
    } else if distance < 4_000_000 {
        600_000
    } else if distance < 8_000_000 {
        400_000
    } else if distance < 12_000_000 {
        200_000
    } else {
        50_000
    };
    darken_color(40, 80, 40, brightness)
}

/// How bright a sprite is at the distance `distance`.
pub fn get_distance_brightness(distance: i64) -> (f: i64)
    ensures
        f == distance_brightness(distance),
{
    if distance < 1_000_000 {
        1_000_000
    } else if distance < 2_000_000 {
        900_000
    } else if distance < 4_000_000 {
        750_000
    } else if distance < 8_000_000 {
        600_000
    } else if distance < 12_000_000 {
        400_000
    } else if distance < 16_000_000 {
        250_000
    } else {
        100_000
    }
}

/// The colour of a sprite of the kind `sprite_type` at the brightness
/// `brightness`.
pub fn get_sprite_color(sprite_type: SpriteType, brightness: i64) -> (c: Color)
    ensures
        c == shade(sprite_base(sprite_type), brightness),
{
    match sprite_type {
        SpriteType::EnemyImp => darken_color(200, 100, 50, brightness),
        SpriteType::EnemyDemon => darken_color(150, 50, 50, brightness),
        _ => darken_color(255, 200, 0, brightness),
    }
}

} // verus!
