//! The renderer: one ray per screen column for the walls, one billboard per
//! visible sprite, and a depth test between the two.

use vstd::prelude::*;
use crate::entity::{Entity, EntityType, SpriteType, Transform};
use crate::fixed::{clamp, distance, span, magnitude, normal_angle, normalize_angle, over, product, quotient, times, trunc_div, FULL_TURN, UNIT};
use crate::graphics::{Color, RenderBuffer};
use crate::level::Level;
use crate::raycast::{cast_wall_ray, wall_seen};
use crate::shading::{distance_brightness, floor_brightness, get_distance_brightness, get_floor_color, get_sprite_color, get_wall_color, shade, sky, sprite_base, wall_base, wall_brightness};
use crate::trig::TrigTable;
use crate::weapon::WeaponSprite;
use crate::world::{active_of, World};

verus! {

/// The field of view, in millionths of a degree.
pub const FOV: i64 = 60_000_000;

/// A wall at the distance `d` is `WALL_SCALE / d` times as high as the screen.
pub const WALL_SCALE: i64 = 6_000_000;

/// Nearer than this a wall fills the screen, and a sprite is not drawn.
pub const NEAR: i64 = 100_000;

/// How wide a sprite is for its height.
pub const SPRITE_ASPECT: i64 = 800_000;

/// What one screen column shows of the walls: how far off the wall is, its
/// material, and the rows `wall_start..wall_end` that it fills. Above it is
/// sky, below it floor.
#[derive(Debug, Clone, Copy, PartialEq, Eq, Structural)]
pub struct WallColumn {
    pub distance: i64,
    pub wall_type: u8,
    pub wall_start: u16,
    pub wall_end: u16,
}

/// In which direction on the map the viewer sees the entity `id`, in
/// millionths of a degree. The caller measures it.
#[derive(Debug, Clone, Copy, PartialEq, Eq, Structural)]
pub struct Sighting {
    pub id: u32,
    pub bearing: i64,
}

/// How far the point `to` is from the point `from`, rounded down to the
/// millionth.
pub open spec fn distance_between(from: Transform, to: Transform) -> i64 {
    clamp(span(from.x, from.y, to.x, to.y))
}

/// A sprite on the screen: its distance, its centre and size in millionths of
/// a cell, the columns and rows that it covers, and what it shows.
#[derive(Debug, Clone, Copy, PartialEq, Eq, Structural)]
pub struct SpriteProjection {
    pub distance: i64,
    pub screen_x: i64,
    pub screen_y: i64,
    pub screen_width: i64,
    pub screen_height: i64,
    pub left_column: u16,
    pub right_column: u16,
    pub top_row: u16,
    pub bottom_row: u16,
    pub sprite_type: SpriteType,
}

/// By how much the ray of the column `x` of `width` leaves the view axis: the
/// columns share the field of view evenly, the middle one looks straight on.
pub open spec fn angle_offset(x: int, width: int) -> int
    recommends
        width > 0,
{
    trunc_div((2 * x - width) * FOV, 2 * width)
}

/// How high a wall at the distance `distance` stands on a screen of `height`
/// rows, in millionths of a row.
pub open spec fn wall_height(distance: i64, height: u16) -> i64 {
    if distance > NEAR {
        clamp(quotient(height * WALL_SCALE, distance as int))
    } else {
        (height * UNIT) as i64
    }
}

/// The rows that a wall at the distance `distance` fills, centred on the
/// screen: from the first of the pair up to the second.
pub open spec fn wall_band(distance: i64, height: u16) -> (u16, u16) {
    let full = height * UNIT;
    let high = wall_height(distance, height) as int;
    if high >= full {
        (0, height)
    } else {
        ((((full - high) / 2) / (UNIT as int)) as u16, (((full + high) / 2) / (UNIT as int)) as u16)
    }
}

/// What the column `x` of a screen of `width` by `height` cells shows to a
/// viewer at `(from_x, from_y)` who looks the way `view_angle` points.
pub open spec fn column_seen(
    from_x: i64,
    from_y: i64,
    view_angle: i64,
    x: u16,
    width: u16,
    height: u16,
    level: &Level,
    trig: &TrigTable,
) -> WallColumn {
    let seen = wall_seen(from_x, from_y, view_angle as int, angle_offset(x as int, width as int), level, trig);
    let band = wall_band(seen.0, height);
    WallColumn { distance: seen.0, wall_type: seen.1, wall_start: band.0, wall_end: band.1 }
}

/// The colour of the row `y` of a column: sky above the wall, the wall's
/// colour on it, the floor's below.
pub open spec fn column_color(column: WallColumn, y: int) -> Color {
    if y < column.wall_start {
        sky()
    } else if y < column.wall_end {
        shade(wall_base(column.wall_type), wall_brightness(column.distance))
    } else {
        shade((40, 80, 40), floor_brightness(column.distance))
    }
}

/// The direction `bearing` as the viewer sees it who looks the way
/// `view_angle` points: in `(-HALF, HALF]`, negative to one side of the view
/// axis and positive to the other.
pub open spec fn relative_bearing(bearing: int, view_angle: int) -> int {
    let r = normal_angle(bearing - view_angle);
    if r > FULL_TURN / 2 {
        r - FULL_TURN
    } else {
        r
    }
}

/// Where on a screen of `width` by `height` cells a viewer who looks the way
/// `view_angle` points, with the field of view `fov`, sees a sprite of the
/// kind `sprite_type` that is `distance` off in the direction `bearing`;
/// nothing where it is nearer than `NEAR`, outside the field of view, or
/// covers no cell.
pub open spec fn projected(
    view_angle: i64,
    sprite_type: SpriteType,
    width: u16,
    height: u16,
    fov: i64,
    distance: i64,
    bearing: i64,
) -> Option<SpriteProjection>
    recommends
        fov > 0,
{
    let rel = relative_bearing(bearing as int, view_angle as int);
    let half = fov / 2;
    if distance < NEAR || magnitude(rel) > half {
        None
    } else {
        let screen_x = trunc_div((rel + half) * width * UNIT, fov as int);
        let high = clamp(quotient(height * UNIT, distance as int)) as int;
        let wide = clamp(product(high, SPRITE_ASPECT as int)) as int;
        let screen_y = height * UNIT / 2;
        let left = if screen_x - wide / 2 < 0 {
            0
        } else {
            screen_x - wide / 2
        };
        let right = if screen_x + wide / 2 > width * UNIT {
            width * UNIT
        } else {
            screen_x + wide / 2
        };
        let top = if screen_y - high / 2 < 0 {
            0
        } else {
            screen_y - high / 2
        };
        let bottom = if screen_y + high / 2 > height * UNIT {
            height * UNIT
        } else {
            screen_y + high / 2
        };
        if left >= right || top >= bottom {
            None
        } else {
            Some(
                SpriteProjection {
                    distance: distance,
                    screen_x: screen_x as i64,
                    screen_y: screen_y as i64,
                    screen_width: wide as i64,
                    screen_height: high as i64,
                    left_column: (left / (UNIT as int)) as u16,
                    right_column: (right / (UNIT as int)) as u16,
                    top_row: (top / (UNIT as int)) as u16,
                    bottom_row: (bottom / (UNIT as int)) as u16,
                    sprite_type,
                },
            )
        }
    }
}

/// By how much the ray of the column `x` of `width` leaves the view axis.
pub fn column_angle(x: u16, width: u16) -> (r: i64)
    requires
        width > 0,
    ensures
        r == angle_offset(x as int, width as int),
{
    let twice: i64 = 2 * (x as i64) - (width as i64);
    let below: i64 = 2 * (width as i64);
    if twice >= 0 {
        (twice * 60_000_000) / below
    } else {
        -(((-twice) * 60_000_000) / below)
    }
}

/// What the column `x` of a screen of `width` by `height` cells shows to a
/// viewer at `(from_x, from_y)` who looks the way `view_angle` points.
pub fn wall_column(
    from_x: i64,
    from_y: i64,
    view_angle: i64,
    x: u16,
    width: u16,
    height: u16,
    level: &Level,
    trig: &TrigTable,
) -> (c: WallColumn)
    requires
        width > 0,
        level.wf(),
        trig.wf(),
    ensures
        c == column_seen(from_x, from_y, view_angle, x, width, height, level, trig),
        c.wall_start <= height,
        c.wall_end <= height,
{
    let seen = cast_wall_ray(from_x, from_y, view_angle, column_angle(x, width), level, trig);
    let distance: i64 = seen.0;
    let full: i64 = (height as i64) * 1_000_000;
    let high: i64 = if distance > NEAR {
        over((height as i64) * 6_000_000, distance)
    } else {
        full
    };
    if high >= full {
        WallColumn { distance, wall_type: seen.1, wall_start: 0, wall_end: height }
    } else {
        assert(distance > NEAR ==> quotient(height * WALL_SCALE, distance as int) >= 0) by (nonlinear_arith);
        let start: i64 = ((full - high) / 2) / 1_000_000;
        let end: i64 = ((full + high) / 2) / 1_000_000;
        WallColumn { distance, wall_type: seen.1, wall_start: start as u16, wall_end: end as u16 }
    }
}

/// Where on the screen the viewer `player` sees the entity `sprite_entity`,
/// which lies in the direction that `seen` says.
pub fn project_sprite_to_screen(
    player: &Entity,
    sprite_entity: &Entity,
    screen_width: u16,
    screen_height: u16,
    fov: i64,
    seen: &Sighting,
) -> (r: Option<SpriteProjection>)
    requires
        fov > 0,
    ensures
        r == projected(
            player.transform.angle,
            sprite_entity.sprite_type,
            screen_width,
            screen_height,
            fov,
            distance_between(player.transform, sprite_entity.transform),
            seen.bearing,
        ),
        r is Some ==> r->Some_0.left_column <= r->Some_0.right_column <= screen_width
            && r->Some_0.top_row <= r->Some_0.bottom_row <= screen_height,
{
    let distance: i64 = distance(
        player.transform.x,
        player.transform.y,
        sprite_entity.transform.x,
        sprite_entity.transform.y,
    );
    if distance < NEAR {
        return None;
    }
    let turned: i64 = normalize_angle(normalize_angle(seen.bearing) - normalize_angle(player.transform.angle));
    assert(turned == normal_angle(seen.bearing - player.transform.angle)) by (nonlinear_arith)
        requires
            turned == normal_angle(
                normal_angle(seen.bearing as int) - normal_angle(player.transform.angle as int),
            ),
    ;
    let rel: i64 = if turned > 180_000_000 {
        turned - 360_000_000
    } else {
        turned
    };
    let half: i64 = fov / 2;
    if rel > half || -rel > half {
        return None;
    }
    let width: i128 = screen_width as i128;
    let height: i128 = screen_height as i128;
    assert(0 <= (rel + half) * width * 1_000_000 <= fov * width * 1_000_000 && fov * width * 1_000_000
        <= 0x7fff_ffff_ffff_ffff * 65535 * 1_000_000) by (nonlinear_arith)
        requires
            0 <= rel + half <= fov <= 0x7fff_ffff_ffff_ffff,
            0 <= width <= 65535,
    ;
    let across: i128 = ((rel as i128) + (half as i128)) * width * 1_000_000;
    let screen_x: i128 = across / (fov as i128);
    assert(0 <= screen_x <= width * 1_000_000) by (nonlinear_arith)
        requires
            screen_x == (across as int) / (fov as int),
            0 <= across <= fov * width * 1_000_000,
            fov > 0,
    ;
    let high_fixed: i64 = over((screen_height as i64) * 1_000_000, distance);
    assert(quotient(screen_height * UNIT, distance as int) >= 0) by (nonlinear_arith)
        requires
            distance > 0,
    ;
    let wide_fixed: i64 = times(high_fixed, SPRITE_ASPECT);
    assert(product(high_fixed as int, SPRITE_ASPECT as int) >= 0) by (nonlinear_arith)
        requires
            high_fixed >= 0,
    ;
    let high: i128 = high_fixed as i128;
    let wide: i128 = wide_fixed as i128;
    let screen_y: i128 = height * 1_000_000 / 2;
    let left: i128 = if screen_x - wide / 2 < 0 {
        0
    } else {
        screen_x - wide / 2
    };
    let right: i128 = if screen_x + wide / 2 > width * 1_000_000 {
        width * 1_000_000
    } else {
        screen_x + wide / 2
    };
    let top: i128 = if screen_y - high / 2 < 0 {
        0
    } else {
        screen_y - high / 2
    };
    let bottom: i128 = if screen_y + high / 2 > height * 1_000_000 {
        height * 1_000_000
    } else {
        screen_y + high / 2
    };
    if left >= right || top >= bottom {
        return None;
    }
    Some(
        SpriteProjection {
            distance,
            screen_x: screen_x as i64,
            screen_y: screen_y as i64,
            screen_width: wide_fixed,
            screen_height: high_fixed,
            left_column: (left / 1_000_000) as u16,
            right_column: (right / 1_000_000) as u16,
            top_row: (top / 1_000_000) as u16,
            bottom_row: (bottom / 1_000_000) as u16,
            sprite_type: sprite_entity.sprite_type,
        },
    )
}

/// `sorted` with `s` put in behind every sprite that is at least as far off.
pub open spec fn inserted(sorted: Seq<SpriteProjection>, s: SpriteProjection) -> Seq<SpriteProjection>
    decreases sorted.len(),
{
    if sorted.len() == 0 {
        seq![s]
    } else if sorted.last().distance >= s.distance {
        sorted.push(s)
    } else {
        inserted(sorted.drop_last(), s).push(sorted.last())
    }
}

/// The sprites of `s` from the farthest to the nearest; sprites that are
/// equally far off keep their order.
pub open spec fn far_first(s: Seq<SpriteProjection>) -> Seq<SpriteProjection>
    decreases s.len(),
{
    if s.len() == 0 {
        Seq::empty()
    } else {
        inserted(far_first(s.drop_last()), s.last())
    }
}

/// Whether no sprite of `s` is farther off than one before it.
pub open spec fn is_far_first(s: Seq<SpriteProjection>) -> bool {
    forall|i: int, j: int| 0 <= i < j < s.len() ==> s[i].distance >= s[j].distance
}

/// The first sighting of `sightings` from `from` on that is of the entity
/// `id`, as an index, or `sightings.len()` where there is none.
pub open spec fn first_sighting(sightings: Seq<Sighting>, id: u32, from: int) -> int
    decreases sightings.len() - from,
{
    if from < 0 || from >= sightings.len() {
        sightings.len() as int
    } else if sightings[from].id == id {
        from
    } else {
        first_sighting(sightings, id, from + 1)
    }
}

/// Where the viewer at `viewer` sees the entity `e`, or nothing where `e` was not sighted
/// or does not show on the screen.
pub open spec fn sprite_of(
    e: Entity,
    viewer: Transform,
    width: u16,
    height: u16,
    sightings: Seq<Sighting>,
) -> Option<SpriteProjection> {
    let at = first_sighting(sightings, e.id, 0);
    if at < sightings.len() {
        projected(
            viewer.angle,
            e.sprite_type,
            width,
            height,
            FOV,
            distance_between(viewer, e.transform),
            sightings[at].bearing,
        )
    } else {
        None
    }
}

/// The sprites that the entities `es` show on the screen, in the order of
/// the entities.
pub open spec fn sprites_of(
    es: Seq<Entity>,
    viewer: Transform,
    width: u16,
    height: u16,
    sightings: Seq<Sighting>,
) -> Seq<SpriteProjection>
    decreases es.len(),
{
    if es.len() == 0 {
        Seq::empty()
    } else {
        let rest = sprites_of(es.drop_last(), viewer, width, height, sightings);
        match sprite_of(es.last(), viewer, width, height, sightings) {
            Some(s) => rest.push(s),
            None => rest,
        }
    }
}

/// The sprites of a world on the screen in the order in which they are
/// drawn: those of the active enemies and then those of the active
/// projectiles, sorted from the farthest to the nearest.
pub open spec fn sprites_drawn(
    es: Seq<Entity>,
    viewer: Transform,
    width: u16,
    height: u16,
    sightings: Seq<Sighting>,
) -> Seq<SpriteProjection> {
    far_first(
        sprites_of(
            active_of(es, EntityType::Enemy) + active_of(es, EntityType::Projectile),
            viewer,
            width,
            height,
            sightings,
        ),
    )
}

/// Whether the sprite `s` covers the cell `(x, y)`.
pub open spec fn covers(s: SpriteProjection, x: int, y: int) -> bool {
    s.left_column <= x <= s.right_column && s.top_row <= y <= s.bottom_row
}

/// The colour that the sprite `s` is drawn in.
pub open spec fn sprite_color(s: SpriteProjection) -> Color {
    shade(sprite_base(s.sprite_type), distance_brightness(s.distance))
}

/// What the cell `(x, y)` holds once the sprite `s` is drawn over `under`, in
/// a column whose wall is `depth` off: the sprite's colour where the sprite
/// covers the cell and is nearer than the wall, and else what was there.
pub open spec fn sprite_over(under: (Color, char), depth: i64, s: SpriteProjection, x: int, y: int) -> (
    Color,
    char,
) {
    if covers(s, x, y) && s.distance < depth {
        (sprite_color(s), ' ')
    } else {
        under
    }
}

/// What the cell `(x, y)` holds once the first `n` sprites of `sprites` are
/// drawn over `under`, one after the other.
pub open spec fn painted(
    under: (Color, char),
    depth: i64,
    sprites: Seq<SpriteProjection>,
    n: int,
    x: int,
    y: int,
) -> (Color, char)
    decreases n,
{
    if n <= 0 {
        under
    } else {
        sprite_over(painted(under, depth, sprites, n - 1, x, y), depth, sprites[n - 1], x, y)
    }
}

/// Puts `s` into `sorted` behind every sprite that is at least as far off.
pub fn insert_sprite(sorted: &mut Vec<SpriteProjection>, s: SpriteProjection)
    ensures
        final(sorted)@ == inserted(old(sorted)@, s),
{
    let mut at: usize = sorted.len();
    while at > 0 && sorted[at - 1].distance < s.distance
        invariant
            at <= sorted@.len(),
            sorted@ == old(sorted)@,
            forall|i: int| at <= i < sorted@.len() ==> sorted@[i].distance < s.distance,
        decreases at,
    {
        at -= 1;
    }
    proof {
        lemma_inserted_at(sorted@, s, at as int);
    }
    sorted.insert(at, s);
}

/// Where every sprite from `at` on is nearer than `s` and the one before is
/// not, `s` comes to stand at `at`.
pub proof fn lemma_inserted_at(sorted: Seq<SpriteProjection>, s: SpriteProjection, at: int)
    requires
        0 <= at <= sorted.len(),
        forall|i: int| at <= i < sorted.len() ==> sorted[i].distance < s.distance,
        at > 0 ==> sorted[at - 1].distance >= s.distance,
    ensures
        inserted(sorted, s) == sorted.insert(at, s),
    decreases sorted.len(),
{
    if sorted.len() == 0 {
        assert(seq![s] =~= sorted.insert(at, s));
    } else if at == sorted.len() {
        assert(sorted.push(s) =~= sorted.insert(at, s));
    } else {
        lemma_inserted_at(sorted.drop_last(), s, at);
        assert(sorted.drop_last().insert(at, s).push(sorted.last()) =~= sorted.insert(at, s));
    }
}

/// The sprites of `sprites` from the farthest to the nearest; sprites that
/// are equally far off keep their order.
pub fn sort_far_first(sprites: &Vec<SpriteProjection>) -> (sorted: Vec<SpriteProjection>)
    ensures
        sorted@ == far_first(sprites@),
{
    let mut sorted: Vec<SpriteProjection> = Vec::new();
    let mut i: usize = 0;
    while i < sprites.len()
        invariant
            i <= sprites@.len(),
            sorted@ == far_first(sprites@.take(i as int)),
        decreases sprites@.len() - i,
    {
        proof {
            assert(sprites@.take(i as int + 1).drop_last() == sprites@.take(i as int));
        }
        insert_sprite(&mut sorted, sprites[i]);
        i += 1;
    }
    proof {
        assert(sprites@.take(i as int) == sprites@);
    }
    sorted
}

/// Putting a sprite in keeps the order, adds one sprite and loses none.
pub proof fn lemma_inserted_is_ordered(sorted: Seq<SpriteProjection>, s: SpriteProjection)
    requires
        is_far_first(sorted),
    ensures
        is_far_first(inserted(sorted, s)),
        inserted(sorted, s).to_multiset() == sorted.to_multiset().insert(s),
        inserted(sorted, s).len() == sorted.len() + 1,
    decreases sorted.len(),
{
    if sorted.len() == 0 {
        assert(sorted =~= Seq::<SpriteProjection>::empty());
        assert(seq![s] =~= sorted.push(s));
        vstd::seq_lib::to_multiset_build(sorted, s);
    } else if sorted.last().distance >= s.distance {
        vstd::seq_lib::to_multiset_build(sorted, s);
    } else {
        let front = sorted.drop_last();
        let last = sorted.last();
        lemma_inserted_is_ordered(front, s);
        lemma_inserted_bound(front, s, last.distance);
        assert(sorted =~= front.push(last));
        vstd::seq_lib::to_multiset_build(front, last);
        vstd::seq_lib::to_multiset_build(inserted(front, s), last);
        assert(front.to_multiset().insert(s).insert(last) =~= front.to_multiset().insert(last).insert(s));
    }
}

/// Where `sorted` and `s` are at least `bound` off, so is all of
/// `inserted(sorted, s)`.
pub proof fn lemma_inserted_bound(sorted: Seq<SpriteProjection>, s: SpriteProjection, bound: i64)
    requires
        s.distance >= bound,
        forall|i: int| 0 <= i < sorted.len() ==> sorted[i].distance >= bound,
    ensures
        forall|i: int| 0 <= i < inserted(sorted, s).len() ==> inserted(sorted, s)[i].distance >= bound,
    decreases sorted.len(),
{
    if sorted.len() > 0 && sorted.last().distance < s.distance {
        lemma_inserted_bound(sorted.drop_last(), s, bound);
    }
}

/// Sorting puts the farthest sprite first, and neither adds a sprite nor
/// loses one.
pub proof fn lemma_far_first_is_ordered(s: Seq<SpriteProjection>)
    ensures
        is_far_first(far_first(s)),
        far_first(s).to_multiset() == s.to_multiset(),
        far_first(s).len() == s.len(),
    decreases s.len(),
{
    if s.len() == 0 {
        assert(s =~= Seq::<SpriteProjection>::empty());
    } else {
        lemma_far_first_is_ordered(s.drop_last());
        lemma_inserted_is_ordered(far_first(s.drop_last()), s.last());
        assert(s =~= s.drop_last().push(s.last()));
        vstd::seq_lib::to_multiset_build(s.drop_last(), s.last());
    }
}

/// What the cell `(x, y)` of a frame holds that shows the walls `columns`
/// with the sprites `sprites` drawn over them, one after the other.
pub open spec fn scene_cell(columns: Seq<WallColumn>, sprites: Seq<SpriteProjection>, x: int, y: int) -> (
    Color,
    char,
) {
    painted((column_color(columns[x], y), ' '), columns[x].distance, sprites, sprites.len() as int, x, y)
}

/// What each column of a screen of `width` by `height` cells shows to the
/// viewer `player`.
pub open spec fn columns_seen(player: Entity, width: u16, height: u16, level: &Level, trig: &TrigTable) -> Seq<
    WallColumn,
> {
    Seq::new(
        width as nat,
        |x: int|
            column_seen(
                player.transform.x,
                player.transform.y,
                player.transform.angle,
                x as u16,
                width,
                height,
                level,
                trig,
            ),
    )
}

/// Whether `buffer` shows the walls `columns` with the sprites `sprites`
/// drawn over them, and holds the walls' distances as its depths.
pub open spec fn shows(buffer: &RenderBuffer, columns: Seq<WallColumn>, sprites: Seq<SpriteProjection>) -> bool {
    &&& forall|x: int, y: int|
        0 <= x < buffer.width && 0 <= y < buffer.height ==> #[trigger] buffer.cell(x, y) == scene_cell(
            columns,
            sprites,
            x,
            y,
        )
    &&& forall|x: int| 0 <= x < buffer.width ==> #[trigger] buffer.depth(x) == columns[x].distance
}

/// Draws the walls: fills each column with sky, wall and floor as `columns`
/// says, and notes the wall's distance as the column's depth.
pub fn draw_columns(buffer: &mut RenderBuffer, columns: &Vec<WallColumn>)
    requires
        old(buffer).wf(),
        columns@.len() == old(buffer).width,
    ensures
        final(buffer).width == old(buffer).width,
        final(buffer).height == old(buffer).height,
        final(buffer).wf(),
        shows(final(buffer), columns@, Seq::empty()),
{
    let width: u16 = buffer.width;
    let height: u16 = buffer.height;
    let mut x: u16 = 0;
    while x < width
        invariant
            x <= width,
            buffer.width == width,
            buffer.height == height,
            buffer.wf(),
            columns@.len() == width,
            forall|i: int, j: int|
                0 <= i < x && 0 <= j < height ==> #[trigger] buffer.cell(i, j) == (
                    column_color(columns@[i], j),
                    ' ',
                ),
            forall|i: int| 0 <= i < x ==> #[trigger] buffer.depth_buffer@[i] == columns@[i].distance,
        decreases width - x,
    {
        let column: WallColumn = columns[x as usize];
        let ghost before = *buffer;
        buffer.depth_buffer.set(x as usize, column.distance);
        proof {
            assert forall|i: int, j: int| 0 <= i < x && 0 <= j < height implies #[trigger] buffer.cell(i, j)
                == (column_color(columns@[i], j), ' ') by {
                assert(buffer.cell(i, j) == before.cell(i, j));
            }
        }
        let wall: Color = get_wall_color(column.distance, column.wall_type);
        let floor: Color = get_floor_color(column.distance);
        let mut y: u16 = 0;
        while y < height
            invariant
                y <= height,
                x < width,
                buffer.width == width,
                buffer.height == height,
                buffer.wf(),
                columns@.len() == width,
                column == columns@[x as int],
                wall == shade(wall_base(column.wall_type), wall_brightness(column.distance)),
                floor == shade((40, 80, 40), floor_brightness(column.distance)),
                forall|i: int, j: int|
                    0 <= i < x && 0 <= j < height ==> #[trigger] buffer.cell(i, j) == (
                        column_color(columns@[i], j),
                        ' ',
                    ),
                forall|j: int| 0 <= j < y ==> #[trigger] buffer.cell(x as int, j) == (column_color(column, j), ' '),
                forall|i: int| 0 <= i <= x ==> #[trigger] buffer.depth_buffer@[i] == columns@[i].distance,
            decreases height - y,
        {
            let color: Color = if y < column.wall_start {
                Color::Rgb { r: 30, g: 50, b: 100 }
            } else if y < column.wall_end {
                wall
            } else {
                floor
            };
            buffer.set(x, y, color, ' ');
            y += 1;
        }
        x += 1;
    }
}

/// Draws the sprite `s` over what `buffer` holds: every cell that `s` covers
/// gets the sprite's colour, but for the columns whose wall is as near as the
/// sprite or nearer.
pub fn draw_sprite(buffer: &mut RenderBuffer, s: &SpriteProjection)
    requires
        old(buffer).wf(),
    ensures
        final(buffer).width == old(buffer).width,
        final(buffer).height == old(buffer).height,
        final(buffer).depth_buffer@ == old(buffer).depth_buffer@,
        final(buffer).wf(),
        forall|x: int, y: int|
            0 <= x < old(buffer).width && 0 <= y < old(buffer).height ==> #[trigger] final(buffer).cell(x, y)
                == sprite_over(old(buffer).cell(x, y), old(buffer).depth(x), *s, x, y),
{
    let width: u16 = buffer.width;
    let height: u16 = buffer.height;
    let color: Color = get_sprite_color(s.sprite_type, get_distance_brightness(s.distance));
    let mut x: u32 = s.left_column as u32;
    while x <= s.right_column as u32 && x < width as u32
        invariant
            s.left_column <= x,
            buffer.width == width,
            buffer.height == height,
            old(buffer).width == width,
            old(buffer).height == height,
            old(buffer).wf(),
            buffer.depth_buffer@ == old(buffer).depth_buffer@,
            buffer.wf(),
            color == sprite_color(*s),
            forall|i: int, j: int|
                0 <= i < width && 0 <= j < height ==> #[trigger] buffer.cell(i, j) == (if i < x {
                    sprite_over(old(buffer).cell(i, j), old(buffer).depth(i), *s, i, j)
                } else {
                    old(buffer).cell(i, j)
                }),
        decreases width - x,
    {
        if s.distance < buffer.depth_buffer[x as usize] {
            let mut y: u32 = s.top_row as u32;
            while y <= s.bottom_row as u32 && y < height as u32
                invariant
                    s.top_row <= y,
                    s.left_column <= x <= s.right_column,
                    x < width,
                    buffer.width == width,
                    buffer.height == height,
                    old(buffer).width == width,
                    old(buffer).height == height,
                    old(buffer).wf(),
                    buffer.depth_buffer@ == old(buffer).depth_buffer@,
                    buffer.wf(),
                    color == sprite_color(*s),
                    s.distance < old(buffer).depth(x as int),
                    forall|i: int, j: int|
                        0 <= i < width && 0 <= j < height ==> #[trigger] buffer.cell(i, j) == (if i < x || (i
                            == x && j < y) {
                            sprite_over(old(buffer).cell(i, j), old(buffer).depth(i), *s, i, j)
                        } else {
                            old(buffer).cell(i, j)
                        }),
                decreases height - y,
            {
                buffer.set(x as u16, y as u16, color, ' ');
                y += 1;
            }
        }
        x += 1;
    }
}

/// Where in `sightings` the first sighting of the entity `id` stands, or
/// `sightings.len()` where there is none.
pub fn find_sighting(sightings: &Vec<Sighting>, id: u32) -> (r: usize)
    ensures
        r == first_sighting(sightings@, id, 0),
        r <= sightings@.len(),
{
    let mut i: usize = 0;
    while i < sightings.len()
        invariant
            i <= sightings@.len(),
            first_sighting(sightings@, id, 0) == first_sighting(sightings@, id, i as int),
        decreases sightings@.len() - i,
    {
        if sightings[i].id == id {
            return i;
        }
        i += 1;
    }
    i
}

/// Adds to `out` the sprites that the active entities of the type `kind`
/// show to the viewer `player`.
pub fn project_kind(
    world: &World,
    kind: EntityType,
    player: &Entity,
    width: u16,
    height: u16,
    sightings: &Vec<Sighting>,
    out: &mut Vec<SpriteProjection>,
)
    ensures
        final(out)@ == old(out)@ + sprites_of(
            active_of(world.entities@, kind),
            player.transform,
            width,
            height,
            sightings@,
        ),
{
    let mut i: usize = 0;
    while i < world.entities.len()
        invariant
            i <= world.entities@.len(),
            out@ == old(out)@ + sprites_of(
                active_of(world.entities@.take(i as int), kind),
                player.transform,
                width,
                height,
                sightings@,
            ),
        decreases world.entities@.len() - i,
    {
        proof {
            assert(world.entities@.take(i as int + 1).drop_last() == world.entities@.take(i as int));
            let before = active_of(world.entities@.take(i as int), kind);
            assert(before.push(world.entities@[i as int]).drop_last() == before);
        }
        let e: &Entity = &world.entities[i];
        if e.entity_type == kind && e.active {
            let at: usize = find_sighting(sightings, e.id);
            if at < sightings.len() {
                match project_sprite_to_screen(player, e, width, height, FOV, &sightings[at]) {
                    Some(s) => {
                        out.push(s);
                    },
                    None => {},
                }
            }
        }
        proof {
            let grown = sprites_of(
                active_of(world.entities@.take(i as int + 1), kind),
                player.transform,
                width,
                height,
                sightings@,
            );
            assert(out@ =~= old(out)@ + grown);
        }
        i += 1;
    }
    proof {
        assert(world.entities@.take(i as int) == world.entities@);
    }
}

/// The sprites of `a + b` are those of `a` and then those of `b`.
pub proof fn lemma_sprites_of_concat(
    a: Seq<Entity>,
    b: Seq<Entity>,
    viewer: Transform,
    width: u16,
    height: u16,
    sightings: Seq<Sighting>,
)
    ensures
        sprites_of(a + b, viewer, width, height, sightings) == sprites_of(
            a,
            viewer,
            width,
            height,
            sightings,
        ) + sprites_of(b, viewer, width, height, sightings),
    decreases b.len(),
{
    if b.len() == 0 {
        assert(a + b =~= a);
        assert(sprites_of(a, viewer, width, height, sightings) + Seq::<SpriteProjection>::empty()
            =~= sprites_of(a, viewer, width, height, sightings));
    } else {
        lemma_sprites_of_concat(a, b.drop_last(), viewer, width, height, sightings);
        assert((a + b).drop_last() =~= a + b.drop_last());
        let front = sprites_of(a, viewer, width, height, sightings);
        let back = sprites_of(b.drop_last(), viewer, width, height, sightings);
        match sprite_of(b.last(), viewer, width, height, sightings) {
            Some(s) => {
                assert((front + back).push(s) =~= front + back.push(s));
            },
            None => {},
        }
    }
}

/// Draws the sprites `sprites` over the walls `columns` into `buffer`, the
/// first sprite first.
pub fn draw_scene(columns: &Vec<WallColumn>, sprites: &Vec<SpriteProjection>, buffer: &mut RenderBuffer)
    requires
        old(buffer).wf(),
        columns@.len() == old(buffer).width,
    ensures
        final(buffer).width == old(buffer).width,
        final(buffer).height == old(buffer).height,
        final(buffer).wf(),
        shows(final(buffer), columns@, sprites@),
{
    draw_columns(buffer, columns);
    proof {
        assert forall|x: int| 0 <= x < buffer.width implies #[trigger] buffer.depth_buffer@[x]
            == columns@[x].distance by {
            assert(buffer.depth(x) == columns@[x].distance);
        }
    }
    let mut n: usize = 0;
    while n < sprites.len()
        invariant
            n <= sprites@.len(),
            buffer.width == old(buffer).width,
            buffer.height == old(buffer).height,
            buffer.wf(),
            columns@.len() == buffer.width,
            forall|x: int, y: int|
                0 <= x < buffer.width && 0 <= y < buffer.height ==> #[trigger] buffer.cell(x, y) == painted(
                    (column_color(columns@[x], y), ' '),
                    columns@[x].distance,
                    sprites@,
                    n as int,
                    x,
                    y,
                ),
            forall|x: int| 0 <= x < buffer.width ==> #[trigger] buffer.depth_buffer@[x] == columns@[x].distance,
        decreases sprites@.len() - n,
    {
        draw_sprite(buffer, &sprites[n]);
        n += 1;
    }
}

/// The entities of `es` through whose eyes a world can be drawn: the active
/// players. The first of them is the viewer.
pub open spec fn viewers_of(es: Seq<Entity>) -> Seq<Entity> {
    active_of(es, EntityType::Player)
}

/// Whether `buffer` shows, on a screen of `term_size`, the walls `columns`
/// with the sprites `sprites` drawn over them and the picture `weapon` over
/// both, and holds the walls' distances as its depths.
pub open spec fn shows_all(
    buffer: &RenderBuffer,
    columns: Seq<WallColumn>,
    sprites: Seq<SpriteProjection>,
    weapon: &WeaponSprite,
    term_size: (u16, u16),
) -> bool {
    &&& forall|x: int, y: int|
        0 <= x < buffer.width && 0 <= y < buffer.height ==> #[trigger] buffer.cell(x, y) == overlaid(
            scene_cell(columns, sprites, x, y),
            weapon,
            term_size,
            x,
            y,
        )
    &&& forall|x: int| 0 <= x < buffer.width ==> #[trigger] buffer.depth(x) == columns[x].distance
}

/// Draws the world as its player sees it, on a screen of `term_size.0` by
/// `term_size.1` cells: the walls column by column, then the visible enemies
/// and projectiles from the farthest to the nearest, each hidden where a wall
/// is nearer, and over all the picture of the weapon in hand. A world without
/// an active player gives a blank frame.
pub fn draw(
    world: &World,
    level: &Level,
    term_size: (u16, u16),
    trig: &TrigTable,
    sightings: &Vec<Sighting>,
    weapon_sprite: &WeaponSprite,
    buffer: &mut RenderBuffer,
)
    requires
        old(buffer).wf(),
        level.wf(),
        trig.wf(),
    ensures
        final(buffer).width == term_size.0,
        final(buffer).height == term_size.1,
        final(buffer).wf(),
        viewers_of(world.entities@).len() == 0 ==> final(buffer).is_blank(i64::MAX),
        viewers_of(world.entities@).len() > 0 ==> shows_all(
            final(buffer),
            columns_seen(viewers_of(world.entities@).first(), term_size.0, term_size.1, level, trig),
            sprites_drawn(
                world.entities@,
                viewers_of(world.entities@).first().transform,
                term_size.0,
                term_size.1,
                sightings@,
            ),
            weapon_sprite,
            term_size,
        ),
        viewers_of(world.entities@).len() > 0 ==> forall|x: int, y: int|
            0 <= x < term_size.0 && 0 <= y < term_size.1 ==> #[trigger] final(buffer).cell(x, y) == frame_cell(
                world.entities@,
                level,
                term_size,
                trig,
                sightings@,
                weapon_sprite,
                x,
                y,
            ),
{
    let width: u16 = term_size.0;
    let height: u16 = term_size.1;
    buffer.resize(width, height);
    buffer.clear();
    match world.get_player() {
        Some(player) => {
            let columns = wall_columns(player, width, height, level, trig);
            let mut sprites: Vec<SpriteProjection> = Vec::new();
            project_kind(world, EntityType::Enemy, player, width, height, sightings, &mut sprites);
            project_kind(world, EntityType::Projectile, player, width, height, sightings, &mut sprites);
            proof {
                lemma_sprites_of_concat(
                    active_of(world.entities@, EntityType::Enemy),
                    active_of(world.entities@, EntityType::Projectile),
                    player.transform,
                    width,
                    height,
                    sightings@,
                );
            }
            let sorted = sort_far_first(&sprites);
            draw_scene(&columns, &sorted, buffer);
            let ghost scene = *buffer;
            draw_weapon_sprite(weapon_sprite, term_size, buffer);
            proof {
                assert forall|x: int| 0 <= x < buffer.width implies #[trigger] buffer.depth(x)
                    == columns@[x].distance by {
                    assert(scene.depth(x) == columns@[x].distance);
                }
            }
        },
        None => {},
    }
}

/// What each column of a screen of `width` by `height` cells shows to the
/// viewer `player`.
pub fn wall_columns(player: &Entity, width: u16, height: u16, level: &Level, trig: &TrigTable) -> (columns: Vec<
    WallColumn,
>)
    requires
        level.wf(),
        trig.wf(),
    ensures
        columns@ == columns_seen(*player, width, height, level, trig),
{
    let mut columns: Vec<WallColumn> = Vec::new();
    let mut x: u16 = 0;
    while x < width
        invariant
            x <= width,
            level.wf(),
            trig.wf(),
            columns@ == columns_seen(*player, width, height, level, trig).take(x as int),
        decreases width - x,
    {
        let column = wall_column(
            player.transform.x,
            player.transform.y,
            player.transform.angle,
            x,
            width,
            height,
            level,
            trig,
        );
        columns.push(column);
        proof {
            assert(columns@ =~= columns_seen(*player, width, height, level, trig).take(x as int + 1));
        }
        x += 1;
    }
    proof {
        assert(columns@ =~= columns_seen(*player, width, height, level, trig));
    }
    columns
}

/// A sprite that is not nearer than the wall in any column that it overlaps
/// leaves no pixel: each cell of the frame holds what it holds without that
/// sprite, wherever among the sprites it is drawn.
pub proof fn lemma_hidden_sprite_leaves_no_pixel(
    columns: Seq<WallColumn>,
    sprites: Seq<SpriteProjection>,
    hidden: SpriteProjection,
    at: int,
    x: int,
    y: int,
)
    requires
        0 <= at <= sprites.len(),
        0 <= x < columns.len(),
        forall|c: int|
            hidden.left_column <= c <= hidden.right_column && 0 <= c < columns.len()
                ==> hidden.distance >= (#[trigger] columns[c]).distance,
    ensures
        scene_cell(columns, sprites.insert(at, hidden), x, y) == scene_cell(columns, sprites, x, y),
{
    lemma_painted_skips_hidden(
        (column_color(columns[x], y), ' '),
        columns[x].distance,
        sprites,
        hidden,
        at,
        sprites.len() as int,
        x,
        y,
    );
}

/// Drawing the first `n + 1` sprites of a list that holds a sprite at `at`
/// which does not show in the cell `(x, y)` gives what drawing the first `n`
/// of the list without it gives.
pub proof fn lemma_painted_skips_hidden(
    under: (Color, char),
    depth: i64,
    sprites: Seq<SpriteProjection>,
    hidden: SpriteProjection,
    at: int,
    n: int,
    x: int,
    y: int,
)
    requires
        0 <= at <= n <= sprites.len(),
        !(covers(hidden, x, y) && hidden.distance < depth),
    ensures
        painted(under, depth, sprites.insert(at, hidden), n + 1, x, y) == painted(
            under,
            depth,
            sprites,
            n,
            x,
            y,
        ),
    decreases n - at,
{
    let with = sprites.insert(at, hidden);
    if n == at {
        lemma_painted_same_prefix(under, depth, with, sprites, at, x, y);
    } else {
        lemma_painted_skips_hidden(under, depth, sprites, hidden, at, n - 1, x, y);
        assert(with[n] == sprites[n - 1]);
    }
}

/// What the first `n` sprites paint depends on those `n` only.
pub proof fn lemma_painted_same_prefix(
    under: (Color, char),
    depth: i64,
    a: Seq<SpriteProjection>,
    b: Seq<SpriteProjection>,
    n: int,
    x: int,
    y: int,
)
    requires
        0 <= n <= a.len(),
        n <= b.len(),
        forall|i: int| 0 <= i < n ==> a[i] == b[i],
    ensures
        painted(under, depth, a, n, x, y) == painted(under, depth, b, n, x, y),
    decreases n,
{
    if n > 0 {
        lemma_painted_same_prefix(under, depth, a, b, n - 1, x, y);
    }
}

/// The column in which a picture `width` wide starts that stands in the middle
/// of a screen of `screen_width` columns.
pub open spec fn overlay_left(screen_width: u16, width: usize) -> int {
    let half = (width % 65536) / 2;
    if screen_width / 2 >= half {
        screen_width / 2 - half
    } else {
        0
    }
}

/// The row in which a picture `height` high starts that stands on the bottom
/// of a screen of `screen_height` rows.
pub open spec fn overlay_top(screen_height: u16, height: usize) -> int {
    let high = height % 65536;
    if screen_height >= high {
        screen_height - high
    } else {
        0
    }
}

/// What the cell `(x, y)` holds once the picture `sprite` is drawn over
/// `under` on a screen of `term_size`: the picture's colour where the picture
/// is not see-through and the row is on the screen, and else what was there.
pub open spec fn overlaid(
    under: (Color, char),
    sprite: &WeaponSprite,
    term_size: (u16, u16),
    x: int,
    y: int,
) -> (Color, char) {
    let row = y - overlay_top(term_size.1, sprite.height);
    let col = x - overlay_left(term_size.0, sprite.width);
    if y < term_size.1 && sprite.pixel(row, col) is Some {
        (sprite.pixel(row, col)->Some_0, ' ')
    } else {
        under
    }
}

/// Draws the picture of the weapon in hand over what `buffer` holds, at the
/// bottom of the screen and in its middle.
pub fn draw_weapon_sprite(weapon_sprite: &WeaponSprite, term_size: (u16, u16), buffer: &mut RenderBuffer)
    requires
        old(buffer).wf(),
    ensures
        final(buffer).width == old(buffer).width,
        final(buffer).height == old(buffer).height,
        final(buffer).depth_buffer@ == old(buffer).depth_buffer@,
        final(buffer).wf(),
        forall|x: int, y: int|
            0 <= x < old(buffer).width && 0 <= y < old(buffer).height ==> #[trigger] final(buffer).cell(x, y)
                == overlaid(old(buffer).cell(x, y), weapon_sprite, term_size, x, y),
{
    let width: u16 = buffer.width;
    let height: u16 = buffer.height;
    let half: u16 = ((weapon_sprite.width % 65536) as u16) / 2;
    let start_x: usize = if term_size.0 / 2 >= half {
        (term_size.0 / 2 - half) as usize
    } else {
        0
    };
    let high: u16 = (weapon_sprite.height % 65536) as u16;
    let start_y: usize = if term_size.1 >= high {
        (term_size.1 - high) as usize
    } else {
        0
    };
    let mut y: usize = start_y;
    while y < term_size.1 as usize && y < height as usize
        invariant
            start_y <= y,
            start_x == overlay_left(term_size.0, weapon_sprite.width),
            start_y == overlay_top(term_size.1, weapon_sprite.height),
            buffer.width == width,
            buffer.height == height,
            old(buffer).width == width,
            old(buffer).height == height,
            buffer.depth_buffer@ == old(buffer).depth_buffer@,
            buffer.wf(),
            forall|i: int, j: int|
                0 <= i < width && 0 <= j < height ==> #[trigger] buffer.cell(i, j) == (if j < y {
                    overlaid(old(buffer).cell(i, j), weapon_sprite, term_size, i, j)
                } else {
                    old(buffer).cell(i, j)
                }),
        decreases height - y,
    {
        let mut x: usize = start_x;
        while x < width as usize
            invariant
                start_y <= y < height,
                y < term_size.1,
                start_x <= x,
                start_x == overlay_left(term_size.0, weapon_sprite.width),
                start_y == overlay_top(term_size.1, weapon_sprite.height),
                buffer.width == width,
                buffer.height == height,
                old(buffer).width == width,
                old(buffer).height == height,
                buffer.depth_buffer@ == old(buffer).depth_buffer@,
                buffer.wf(),
                forall|i: int, j: int|
                    0 <= i < width && 0 <= j < height ==> #[trigger] buffer.cell(i, j) == (if j < y || (j == y
                        && i < x) {
                        overlaid(old(buffer).cell(i, j), weapon_sprite, term_size, i, j)
                    } else {
                        old(buffer).cell(i, j)
                    }),
            decreases width - x,
        {
            match weapon_sprite.pixel_at(y - start_y, x - start_x) {
                Some(color) => {
                    buffer.set(x as u16, y as u16, color, ' ');
                },
                None => {},
            }
            x += 1;
        }
        y += 1;
    }
}

/// Where `s` comes to stand in `sorted`: behind the last sprite that is at
/// least as far off.
pub open spec fn slot_of(sorted: Seq<SpriteProjection>, s: SpriteProjection) -> int
    decreases sorted.len(),
{
    if sorted.len() == 0 {
        0
    } else if sorted.last().distance >= s.distance {
        sorted.len() as int
    } else {
        slot_of(sorted.drop_last(), s)
    }
}

/// Putting a sprite in is an insertion at its slot; in a sorted list every
/// sprite before the slot is at least as far off, and every one from it on is
/// nearer.
pub proof fn lemma_slot(sorted: Seq<SpriteProjection>, s: SpriteProjection)
    ensures
        0 <= slot_of(sorted, s) <= sorted.len(),
        inserted(sorted, s) == sorted.insert(slot_of(sorted, s), s),
        is_far_first(sorted) ==> forall|i: int|
            0 <= i < sorted.len() ==> ((#[trigger] sorted[i]).distance >= s.distance <==> i < slot_of(
                sorted,
                s,
            )),
    decreases sorted.len(),
{
    if sorted.len() == 0 {
        assert(seq![s] =~= sorted.insert(0, s));
    } else if sorted.last().distance >= s.distance {
        assert(sorted.push(s) =~= sorted.insert(sorted.len() as int, s));
        if is_far_first(sorted) {
            assert forall|i: int| 0 <= i < sorted.len() implies (#[trigger] sorted[i]).distance
                >= s.distance by {
                if i < sorted.len() - 1 {
                    assert(sorted[i].distance >= sorted[sorted.len() - 1].distance);
                }
            }
        }
    } else {
        let front = sorted.drop_last();
        lemma_slot(front, s);
        assert(front.insert(slot_of(front, s), s).push(sorted.last()) =~= sorted.insert(slot_of(front, s), s));
        if is_far_first(sorted) {
            assert(is_far_first(front));
            assert forall|i: int| 0 <= i < sorted.len() implies ((#[trigger] sorted[i]).distance
                >= s.distance <==> i < slot_of(sorted, s)) by {
                if i < front.len() {
                    assert(front[i] == sorted[i]);
                }
            }
        }
    }
}

/// Taking a sprite out of a sorted list before another is put in gives what
/// taking it out afterwards gives.
pub proof fn lemma_inserted_remove(sorted: Seq<SpriteProjection>, s: SpriteProjection, q: int)
    requires
        is_far_first(sorted),
        0 <= q < sorted.len(),
    ensures
        is_far_first(sorted.remove(q)),
        ({
            let after = if q < slot_of(sorted, s) {
                q
            } else {
                q + 1
            };
            &&& inserted(sorted, s)[after] == sorted[q]
            &&& inserted(sorted, s).remove(after) == inserted(sorted.remove(q), s)
        }),
{
    lemma_slot(sorted, s);
    let slot = slot_of(sorted, s);
    let less = sorted.remove(q);
    assert forall|i: int, j: int| 0 <= i < j < less.len() implies less[i].distance >= less[j].distance by {
        let a = if i < q {
            i
        } else {
            i + 1
        };
        let b = if j < q {
            j
        } else {
            j + 1
        };
        assert(sorted[a].distance >= sorted[b].distance);
    }
    let at = if q < slot {
        slot - 1
    } else {
        slot
    };
    assert forall|i: int| at <= i < less.len() implies less[i].distance < s.distance by {
        let a = if i < q {
            i
        } else {
            i + 1
        };
        assert(sorted[a].distance < s.distance);
    }
    if at > 0 {
        let a = if at - 1 < q {
            at - 1
        } else {
            at
        };
        assert(sorted[a].distance >= s.distance);
    }
    lemma_inserted_at(less, s, at);
    let after = if q < slot {
        q
    } else {
        q + 1
    };
    assert(sorted.insert(slot, s).remove(after) =~= less.insert(at, s));
}

/// Sorting without a sprite gives what sorting with it and taking it out
/// gives.
pub proof fn lemma_far_first_remove(l: Seq<SpriteProjection>, m: int)
    requires
        0 <= m < l.len(),
    ensures
        exists|at: int|
            0 <= at < far_first(l).len() && far_first(l)[at] == l[m] && #[trigger] far_first(l).remove(at)
                == far_first(l.remove(m)),
    decreases l.len(),
{
    let front = l.drop_last();
    let sorted = far_first(front);
    lemma_far_first_is_ordered(front);
    lemma_far_first_is_ordered(l);
    if m == l.len() - 1 {
        lemma_slot(sorted, l.last());
        let at = slot_of(sorted, l.last());
        assert(l.remove(m) =~= front);
        assert(sorted.insert(at, l.last()).remove(at) =~= sorted);
        assert(far_first(l).remove(at) == far_first(l.remove(m)));
    } else {
        lemma_far_first_remove(front, m);
        let q = choose|q: int|
            0 <= q < sorted.len() && sorted[q] == front[m] && #[trigger] sorted.remove(q) == far_first(
                front.remove(m),
            );
        lemma_inserted_remove(sorted, l.last(), q);
        let at = if q < slot_of(sorted, l.last()) {
            q
        } else {
            q + 1
        };
        assert(l.remove(m).drop_last() =~= front.remove(m));
        assert(l.remove(m).last() == l.last());
        assert(far_first(l).remove(at) == far_first(l.remove(m)));
    }
}

/// Whether the sprite `s` is nearer than the wall in none of the columns of
/// `columns` that it overlaps.
pub open spec fn is_behind(s: SpriteProjection, columns: Seq<WallColumn>) -> bool {
    forall|c: int|
        s.left_column <= c <= s.right_column && 0 <= c < columns.len() ==> s.distance >= (
        #[trigger] columns[c]).distance
}

/// A list of sprites shows the same with and without a sprite that is behind
/// the walls.
pub proof fn lemma_scene_without(columns: Seq<WallColumn>, l: Seq<SpriteProjection>, m: int, x: int, y: int)
    requires
        0 <= m < l.len(),
        0 <= x < columns.len(),
        is_behind(l[m], columns),
    ensures
        scene_cell(columns, far_first(l.remove(m)), x, y) == scene_cell(columns, far_first(l), x, y),
{
    lemma_far_first_remove(l, m);
    let sorted = far_first(l);
    let at = choose|at: int|
        0 <= at < sorted.len() && sorted[at] == l[m] && #[trigger] sorted.remove(at) == far_first(l.remove(m));
    assert(sorted.remove(at).insert(at, l[m]) =~= sorted);
    lemma_hidden_sprite_leaves_no_pixel(columns, sorted.remove(at), l[m], at, x, y);
}

/// Without one of its entities a list shows the sprites of the others.
pub proof fn lemma_sprites_of_remove(
    es: Seq<Entity>,
    viewer: Transform,
    width: u16,
    height: u16,
    sightings: Seq<Sighting>,
    k: int,
)
    requires
        0 <= k < es.len(),
    ensures
        sprite_of(es[k], viewer, width, height, sightings) is None ==> sprites_of(
            es.remove(k),
            viewer,
            width,
            height,
            sightings,
        ) == sprites_of(es, viewer, width, height, sightings),
        sprite_of(es[k], viewer, width, height, sightings) is Some ==> exists|j: int|
            0 <= j < sprites_of(es, viewer, width, height, sightings).len() && sprites_of(
                es,
                viewer,
                width,
                height,
                sightings,
            )[j] == sprite_of(es[k], viewer, width, height, sightings)->Some_0 && #[trigger] sprites_of(
                es,
                viewer,
                width,
                height,
                sightings,
            ).remove(j) == sprites_of(es.remove(k), viewer, width, height, sightings),
    decreases es.len(),
{
    let all = sprites_of(es, viewer, width, height, sightings);
    let front = es.drop_last();
    let rest = sprites_of(front, viewer, width, height, sightings);
    if k == es.len() - 1 {
        assert(es.remove(k) =~= front);
        if sprite_of(es[k], viewer, width, height, sightings) is Some {
            assert(all.remove(rest.len() as int) =~= rest);
        }
    } else {
        lemma_sprites_of_remove(front, viewer, width, height, sightings, k);
        assert(es.remove(k).drop_last() =~= front.remove(k));
        assert(es.remove(k).last() == es.last());
        if sprite_of(es[k], viewer, width, height, sightings) is Some {
            let j = choose|j: int|
                0 <= j < rest.len() && rest[j] == sprite_of(es[k], viewer, width, height, sightings)->Some_0
                    && #[trigger] rest.remove(j) == sprites_of(front.remove(k), viewer, width, height, sightings);
            match sprite_of(es.last(), viewer, width, height, sightings) {
                Some(s) => {
                    assert(rest.push(s).remove(j) =~= rest.remove(j).push(s));
                },
                None => {},
            }
            assert(all.remove(j) == sprites_of(es.remove(k), viewer, width, height, sightings));
        }
    }
}

/// Without one of its entities a list holds the active ones of each type
/// among the others.
pub proof fn lemma_active_of_remove(es: Seq<Entity>, kind: EntityType, i: int)
    requires
        0 <= i < es.len(),
    ensures
        !(es[i].entity_type == kind && es[i].active) ==> active_of(es.remove(i), kind) == active_of(es, kind),
        es[i].entity_type == kind && es[i].active ==> exists|k: int|
            0 <= k < active_of(es, kind).len() && active_of(es, kind)[k] == es[i] && #[trigger] active_of(
                es,
                kind,
            ).remove(k) == active_of(es.remove(i), kind),
    decreases es.len(),
{
    let all = active_of(es, kind);
    let front = es.drop_last();
    let rest = active_of(front, kind);
    if i == es.len() - 1 {
        assert(es.remove(i) =~= front);
        if es[i].entity_type == kind && es[i].active {
            assert(all.remove(rest.len() as int) =~= rest);
        }
    } else {
        lemma_active_of_remove(front, kind, i);
        assert(es.remove(i).drop_last() =~= front.remove(i));
        assert(es.remove(i).last() == es.last());
        if es[i].entity_type == kind && es[i].active {
            let k = choose|k: int|
                0 <= k < rest.len() && rest[k] == front[i] && #[trigger] rest.remove(k) == active_of(
                    front.remove(i),
                    kind,
                );
            if es.last().entity_type == kind && es.last().active {
                assert(rest.push(es.last()).remove(k) =~= rest.remove(k).push(es.last()));
            }
            assert(all.remove(k) == active_of(es.remove(i), kind));
        }
    }
}

/// What the cell `(x, y)` of the frame holds that `draw` makes of a world
/// with the entities `es`, which holds an active player.
pub open spec fn frame_cell(
    es: Seq<Entity>,
    level: &Level,
    term_size: (u16, u16),
    trig: &TrigTable,
    sightings: Seq<Sighting>,
    weapon: &WeaponSprite,
    x: int,
    y: int,
) -> (Color, char) {
    let viewer = viewers_of(es).first();
    overlaid(
        scene_cell(
            columns_seen(viewer, term_size.0, term_size.1, level, trig),
            sprites_drawn(es, viewer.transform, term_size.0, term_size.1, sightings),
            x,
            y,
        ),
        weapon,
        term_size,
        x,
        y,
    )
}

/// Whether the entity `e` shows no sprite to the viewer `viewer`, or one that
/// is nearer than the wall in none of the screen columns that it overlaps.
pub open spec fn is_occluded(
    e: Entity,
    viewer: Entity,
    level: &Level,
    term_size: (u16, u16),
    trig: &TrigTable,
    sightings: Seq<Sighting>,
) -> bool {
    match sprite_of(e, viewer.transform, term_size.0, term_size.1, sightings) {
        Some(s) => is_behind(s, columns_seen(viewer, term_size.0, term_size.1, level, trig)),
        None => true,
    }
}

/// Without one of its entities a list shows, of the active ones of a type,
/// the sprites of the others: the same sprites where that entity showed none,
/// and else those but for its own.
pub proof fn lemma_kind_without(
    es: Seq<Entity>,
    kind: EntityType,
    i: int,
    viewer: Transform,
    width: u16,
    height: u16,
    sightings: Seq<Sighting>,
)
    requires
        0 <= i < es.len(),
    ensures
        ({
            let with = sprites_of(active_of(es, kind), viewer, width, height, sightings);
            let without = sprites_of(active_of(es.remove(i), kind), viewer, width, height, sightings);
            let own = sprite_of(es[i], viewer, width, height, sightings);
            if es[i].entity_type == kind && es[i].active && own is Some {
                exists|j: int| 0 <= j < with.len() && with[j] == own->Some_0 && #[trigger] with.remove(j) == without
            } else {
                without == with
            }
        }),
{
    lemma_active_of_remove(es, kind, i);
    if es[i].entity_type == kind && es[i].active {
        let active = active_of(es, kind);
        let k = choose|k: int|
            0 <= k < active.len() && active[k] == es[i] && #[trigger] active.remove(k) == active_of(
                es.remove(i),
                kind,
            );
        lemma_sprites_of_remove(active, viewer, width, height, sightings, k);
    }
}

/// Two lists of sprites, one behind the other, show the same with and
/// without a sprite of either that is behind the walls.
pub proof fn lemma_scene_without_either(
    columns: Seq<WallColumn>,
    first: Seq<SpriteProjection>,
    second: Seq<SpriteProjection>,
    j: int,
    in_first: bool,
    x: int,
    y: int,
)
    requires
        0 <= x < columns.len(),
        in_first ==> 0 <= j < first.len() && is_behind(first[j], columns),
        !in_first ==> 0 <= j < second.len() && is_behind(second[j], columns),
    ensures
        in_first ==> scene_cell(columns, far_first(first.remove(j) + second), x, y) == scene_cell(
            columns,
            far_first(first + second),
            x,
            y,
        ),
        !in_first ==> scene_cell(columns, far_first(first + second.remove(j)), x, y) == scene_cell(
            columns,
            far_first(first + second),
            x,
            y,
        ),
{
    let all = first + second;
    if in_first {
        assert(all.remove(j) =~= first.remove(j) + second);
        assert(all[j] == first[j]);
        lemma_scene_without(columns, all, j, x, y);
    } else {
        let at = first.len() + j;
        assert(all.remove(at) =~= first + second.remove(j));
        assert(all[at] == second[j]);
        lemma_scene_without(columns, all, at, x, y);
    }
}

/// The sprites of a world show the same with and without an entity that
/// shows no sprite, or one that is behind the walls.
pub proof fn lemma_drawn_without(
    es: Seq<Entity>,
    i: int,
    viewer: Transform,
    width: u16,
    height: u16,
    sightings: Seq<Sighting>,
    columns: Seq<WallColumn>,
    x: int,
    y: int,
)
    requires
        0 <= i < es.len(),
        0 <= x < columns.len(),
        sprite_of(es[i], viewer, width, height, sightings) is Some ==> is_behind(
            sprite_of(es[i], viewer, width, height, sightings)->Some_0,
            columns,
        ),
    ensures
        scene_cell(columns, sprites_drawn(es.remove(i), viewer, width, height, sightings), x, y) == scene_cell(
            columns,
            sprites_drawn(es, viewer, width, height, sightings),
            x,
            y,
        ),
{
    let fewer = es.remove(i);
    let enemies = sprites_of(active_of(es, EntityType::Enemy), viewer, width, height, sightings);
    let shots = sprites_of(active_of(es, EntityType::Projectile), viewer, width, height, sightings);
    let fewer_enemies = sprites_of(active_of(fewer, EntityType::Enemy), viewer, width, height, sightings);
    let fewer_shots = sprites_of(active_of(fewer, EntityType::Projectile), viewer, width, height, sightings);
    let own = sprite_of(es[i], viewer, width, height, sightings);
    lemma_kind_without(es, EntityType::Enemy, i, viewer, width, height, sightings);
    lemma_kind_without(es, EntityType::Projectile, i, viewer, width, height, sightings);
    lemma_sprites_of_concat(
        active_of(es, EntityType::Enemy),
        active_of(es, EntityType::Projectile),
        viewer,
        width,
        height,
        sightings,
    );
    lemma_sprites_of_concat(
        active_of(fewer, EntityType::Enemy),
        active_of(fewer, EntityType::Projectile),
        viewer,
        width,
        height,
        sightings,
    );
    if es[i].active && own is Some && es[i].entity_type == EntityType::Enemy {
        let j = choose|j: int|
            0 <= j < enemies.len() && enemies[j] == own->Some_0 && #[trigger] enemies.remove(j) == fewer_enemies;
        assert(fewer_shots == shots);
        lemma_scene_without_either(columns, enemies, shots, j, true, x, y);
    } else if es[i].active && own is Some && es[i].entity_type == EntityType::Projectile {
        let j = choose|j: int|
            0 <= j < shots.len() && shots[j] == own->Some_0 && #[trigger] shots.remove(j) == fewer_shots;
        assert(fewer_enemies == enemies);
        lemma_scene_without_either(columns, enemies, shots, j, false, x, y);
    } else {
        assert(fewer_enemies == enemies);
        assert(fewer_shots == shots);
    }
}

/// Depth occlusion. An enemy or a projectile that is not nearer than the
/// wall in any screen column that its sprite overlaps contributes nothing to
/// the frame: every cell holds what it holds in the frame of the world
/// without that entity, and the viewer is the same.
pub proof fn lemma_occluded_entity_leaves_no_pixel(
    es: Seq<Entity>,
    i: int,
    level: &Level,
    term_size: (u16, u16),
    trig: &TrigTable,
    sightings: Seq<Sighting>,
    weapon: &WeaponSprite,
    x: int,
    y: int,
)
    requires
        0 <= i < es.len(),
        es[i].entity_type != EntityType::Player,
        viewers_of(es).len() > 0,
        0 <= x < term_size.0,
        is_occluded(es[i], viewers_of(es).first(), level, term_size, trig, sightings),
    ensures
        viewers_of(es.remove(i)) == viewers_of(es),
        frame_cell(es.remove(i), level, term_size, trig, sightings, weapon, x, y) == frame_cell(
            es,
            level,
            term_size,
            trig,
            sightings,
            weapon,
            x,
            y,
        ),
{
    let viewer = viewers_of(es).first();
    lemma_active_of_remove(es, EntityType::Player, i);
    lemma_drawn_without(
        es,
        i,
        viewer.transform,
        term_size.0,
        term_size.1,
        sightings,
        columns_seen(viewer, term_size.0, term_size.1, level, trig),
        x,
        y,
    );
}

} // verus!
