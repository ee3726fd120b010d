//! What the renderer needs to know of each kind of sprite.

use vstd::prelude::*;
use crate::entity::{EntityState, SpriteType};
use crate::fixed::UNIT;
use crate::graphics::Color;

verus! {

/// How long one frame of the animation of `sprite_type` lasts, in microseconds.
pub open spec fn animation_duration(sprite_type: SpriteType) -> u64 {
    match sprite_type {
        SpriteType::EnemyImp => 500_000,
        SpriteType::EnemyDemon => 400_000,
        _ => 1_000_000,
    }
}

/// How long one frame of the animation of `sprite_type` lasts, in microseconds.
pub fn get_animation_duration(sprite_type: SpriteType) -> (d: u64)
    ensures
        d == animation_duration(sprite_type),
{
    match sprite_type {
        SpriteType::EnemyImp => 500_000,
        SpriteType::EnemyDemon => 400_000,
        _ => 1_000_000,
    }
}

/// A picture of `width` by `height` pixels, row after row; a pixel with no
/// colour is see-through.
pub struct Sprite {
    pub width: usize,
    pub height: usize,
    pub pixels: Vec<Option<Color>>,
}

/// The pixel that holds the point `at` of a span of `count` pixels, where
/// `at` runs from 0 to `UNIT` over the span. A point before the span counts
/// as its start.
pub open spec fn pixel_index(at: i64, count: usize) -> int {
    if at < 0 {
        0
    } else {
        at * count / (UNIT as int)
    }
}

/// What the state `state` makes of the pixel `pixel`: a hit entity flashes
/// white, a dying one is half as bright, and what is see-through stays so.
pub open spec fn tinted(pixel: Option<Color>, state: EntityState) -> Option<Color> {
    match (pixel, state) {
        (Some(_), EntityState::Hit) => Some(Color::Rgb { r: 255, g: 255, b: 255 }),
        (Some(Color::Rgb { r, g, b }), EntityState::Dying) => Some(Color::Rgb { r: r / 2, g: g / 2, b: b / 2 }),
        _ => pixel,
    }
}

/// The pixel that the number `n` of a pattern stands for: the `n`-th colour of
/// `palette`, or a see-through pixel where `n` is 0 or beyond the palette.
pub open spec fn painted_pixel(n: u8, palette: Seq<Color>) -> Option<Color> {
    if 1 <= n <= palette.len() {
        Some(palette[n - 1])
    } else {
        None
    }
}

/// Which of the `count` frames of an animation the frame counter `frame` shows.
pub open spec fn frame_shown(frame: usize, count: usize) -> int
    recommends
        count > 0,
{
    frame as int % count as int
}

impl Sprite {
    /// The picture has a pixel for each place in its `width` by `height`.
    pub open spec fn wf(&self) -> bool {
        self.pixels@.len() == self.width * self.height
    }

    /// The picture that `pattern` paints with the colours of `palette`: a
    /// pixel whose number in the pattern is `n` has the `n`-th colour of the
    /// palette, and is see-through where the palette has no such colour or
    /// the number is 0.
    pub fn from_pattern(width: usize, height: usize, pattern: &Vec<u8>, palette: &Vec<Color>) -> (s: Self)
        ensures
            s.width == width,
            s.height == height,
            s.pixels@.len() == pattern@.len(),
            forall|i: int| 0 <= i < pattern@.len() ==> #[trigger] s.pixels@[i] == painted_pixel(pattern@[i], palette@),
    {
        let mut pixels: Vec<Option<Color>> = Vec::new();
        let mut i: usize = 0;
        while i < pattern.len()
            invariant
                i <= pattern@.len(),
                pixels@.len() == i,
                forall|k: int| 0 <= k < i ==> #[trigger] pixels@[k] == painted_pixel(pattern@[k], palette@),
            decreases pattern@.len() - i,
        {
            let n: usize = pattern[i] as usize;
            if n >= 1 && n <= palette.len() {
                pixels.push(Some(palette[n - 1]));
            } else {
                pixels.push(None);
            }
            i += 1;
        }
        Sprite { width, height, pixels }
    }

    /// The picture of `width` by `height` with the pixels `pixels`.
    pub fn new(width: usize, height: usize, pixels: Vec<Option<Color>>) -> (s: Self)
        ensures
            s.width == width,
            s.height == height,
            s.pixels@ == pixels@,
    {
        Sprite { width, height, pixels }
    }

    /// The pixel at the point `(u, v)` of the picture, where `u` and `v` run
    /// from 0 to `UNIT` across and down; nothing where the point lies beyond
    /// the picture.
    pub fn get_pixel(&self, u: i64, v: i64) -> (r: Option<Color>)
        requires
            self.wf(),
        ensures
            r == (if pixel_index(u, self.width) < self.width && pixel_index(v, self.height) < self.height {
                self.pixels@[pixel_index(v, self.height) * self.width + pixel_index(u, self.width)]
            } else {
                None
            }),
    {
        let x: u128 = if u < 0 {
            0
        } else {
            assert(0 <= u * self.width <= 0x7fff_ffff_ffff_ffff * 0xffff_ffff_ffff_ffff) by (nonlinear_arith)
                requires
                    0 <= u <= 0x7fff_ffff_ffff_ffff,
                    0 <= self.width <= 0xffff_ffff_ffff_ffff,
            ;
            (u as u128) * (self.width as u128) / 1_000_000u128
        };
        let y: u128 = if v < 0 {
            0
        } else {
            assert(0 <= v * self.height <= 0x7fff_ffff_ffff_ffff * 0xffff_ffff_ffff_ffff) by (nonlinear_arith)
                requires
                    0 <= v <= 0x7fff_ffff_ffff_ffff,
                    0 <= self.height <= 0xffff_ffff_ffff_ffff,
            ;
            (v as u128) * (self.height as u128) / 1_000_000u128
        };
        if x < self.width as u128 && y < self.height as u128 {
            let column: usize = x as usize;
            let row: usize = y as usize;
            let count: usize = self.pixels.len();
            assert(0 <= row * self.width && row * self.width + column < count) by (nonlinear_arith)
                requires
                    0 <= column < self.width,
                    0 <= row < self.height,
                    count == self.width * self.height,
            ;
            self.pixels[row * self.width + column]
        } else {
            None
        }
    }

    /// Shows the state `state` on the picture: every pixel is tinted.
    pub fn apply_state(&mut self, state: EntityState)
        ensures
            final(self).width == old(self).width,
            final(self).height == old(self).height,
            final(self).pixels@.len() == old(self).pixels@.len(),
            forall|i: int|
                0 <= i < old(self).pixels@.len() ==> #[trigger] final(self).pixels@[i] == tinted(
                    old(self).pixels@[i],
                    state,
                ),
    {
        let mut i: usize = 0;
        while i < self.pixels.len()
            invariant
                i <= self.pixels@.len(),
                self.width == old(self).width,
                self.height == old(self).height,
                self.pixels@.len() == old(self).pixels@.len(),
                forall|k: int| 0 <= k < i ==> #[trigger] self.pixels@[k] == tinted(old(self).pixels@[k], state),
                forall|k: int| i <= k < self.pixels@.len() ==> #[trigger] self.pixels@[k] == old(self).pixels@[k],
            decreases self.pixels@.len() - i,
        {
            let pixel: Option<Color> = self.pixels[i];
            let shown: Option<Color> = match (pixel, state) {
                (Some(_), EntityState::Hit) => Some(Color::Rgb { r: 255, g: 255, b: 255 }),
                (Some(Color::Rgb { r, g, b }), EntityState::Dying) => Some(
                    Color::Rgb { r: r / 2, g: g / 2, b: b / 2 },
                ),
                _ => pixel,
            };
            self.pixels.set(i, shown);
            i += 1;
        }
    }
}

/// The picture of the frame that the counter `frame` shows, out of `frames`,
/// as an entity in the state `state` shows it.
pub fn get_sprite_frame(frames: &Vec<Sprite>, frame: usize, state: EntityState) -> (s: Sprite)
    requires
        frames@.len() > 0,
    ensures
        s.width == frames@[frame_shown(frame, frames@.len() as usize)].width,
        s.height == frames@[frame_shown(frame, frames@.len() as usize)].height,
        s.pixels@.len() == frames@[frame_shown(frame, frames@.len() as usize)].pixels@.len(),
        forall|i: int|
            0 <= i < s.pixels@.len() ==> #[trigger] s.pixels@[i] == tinted(
                frames@[frame_shown(frame, frames@.len() as usize)].pixels@[i],
                state,
            ),
{
    let source: &Sprite = &frames[frame % frames.len()];
    let mut pixels: Vec<Option<Color>> = Vec::new();
    let mut i: usize = 0;
    while i < source.pixels.len()
        invariant
            i <= source.pixels@.len(),
            pixels@.len() == i,
            forall|k: int| 0 <= k < i ==> #[trigger] pixels@[k] == source.pixels@[k],
        decreases source.pixels@.len() - i,
    {
        pixels.push(source.pixels[i]);
        i += 1;
    }
    let mut s = Sprite { width: source.width, height: source.height, pixels };
    s.apply_state(state);
    s
}

} // verus!
