//! Rays through the grid: from a point along a direction, cell by cell, to
//! the first wall.

use vstd::prelude::*;
use crate::fixed::{abs_of, cell, cell_of, clamp, magnitude, minus, normal_angle, over, plus, product, quotient, times, UNIT};
use crate::level::Level;
use crate::trig::TrigTable;

verus! {

/// The component of a unit direction that points west or north.
pub const WEST_OR_NORTH: i64 = -1_000_000;

/// After this many cells a ray gives up.
pub const MAX_RAY_STEPS: u32 = 50;

/// How far along the ray it is from one grid line to the next, for a ray whose
/// direction has the component `dir` across those lines. A ray that runs along
/// the lines never meets one: the distance is `i64::MAX` then.
pub open spec fn grid_spacing(dir: i64) -> i64 {
    if dir == 0 {
        i64::MAX
    } else {
        clamp(quotient(UNIT as int, magnitude(dir as int)))
    }
}

/// How far along the ray it is from `start` to the first grid line, for a ray
/// whose direction has the component `dir` across those lines.
pub open spec fn first_crossing(start: i64, dir: i64) -> i64 {
    let within = (start as int) % (UNIT as int);
    if dir == 0 {
        i64::MAX
    } else if dir < 0 {
        clamp(product(within, grid_spacing(dir) as int))
    } else {
        clamp(product(UNIT - within, grid_spacing(dir) as int))
    }
}

/// A ray on its way: the cell it has reached, how far along the ray the next
/// grid line in `x` and the next in `y` are, whether the last line it crossed
/// was one in `y` (`side` 1) or in `x` (`side` 0), and the material it has hit,
/// `0` while it has hit none.
pub struct Traversal {
    pub map_x: i64,
    pub map_y: i64,
    pub side_dist_x: i64,
    pub side_dist_y: i64,
    pub side: u8,
    pub wall: u8,
}

/// The ray before its first step.
pub open spec fn ray_start(start_x: i64, start_y: i64, dir_x: i64, dir_y: i64) -> Traversal {
    Traversal {
        map_x: cell(start_x as int) as i64,
        map_y: cell(start_y as int) as i64,
        side_dist_x: first_crossing(start_x, dir_x),
        side_dist_y: first_crossing(start_y, dir_y),
        side: 0,
        wall: 0,
    }
}

/// One cell further in the direction that `dir` has along one axis.
pub open spec fn stepped_cell(at: i64, dir: i64) -> i64 {
    if dir < 0 {
        (at - 1) as i64
    } else {
        (at + 1) as i64
    }
}

/// The ray one step on: it crosses the nearer of its two next grid lines into
/// the cell behind it, and meets what that cell holds.
pub open spec fn ray_step(t: Traversal, dir_x: i64, dir_y: i64, level: &Level) -> Traversal {
    if t.side_dist_x < t.side_dist_y {
        let map_x = stepped_cell(t.map_x, dir_x);
        Traversal {
            map_x,
            map_y: t.map_y,
            side_dist_x: clamp(t.side_dist_x + grid_spacing(dir_x)),
            side_dist_y: t.side_dist_y,
            side: 0,
            wall: level.material(map_x as int, t.map_y as int),
        }
    } else {
        let map_y = stepped_cell(t.map_y, dir_y);
        Traversal {
            map_x: t.map_x,
            map_y,
            side_dist_x: t.side_dist_x,
            side_dist_y: clamp(t.side_dist_y + grid_spacing(dir_y)),
            side: 1,
            wall: level.material(t.map_x as int, map_y as int),
        }
    }
}

/// The ray after it has gone on until it hit a wall, for `steps` steps at most.
pub open spec fn ray_run(t: Traversal, dir_x: i64, dir_y: i64, level: &Level, steps: nat) -> Traversal
    decreases steps,
{
    if steps == 0 || t.wall > 0 {
        t
    } else {
        ray_run(ray_step(t, dir_x, dir_y, level), dir_x, dir_y, level, (steps - 1) as nat)
    }
}

/// How far along the ray the grid line lies that the ray crossed last.
pub open spec fn ray_length(t: Traversal, dir_x: i64, dir_y: i64) -> i64 {
    if t.side == 0 {
        clamp(t.side_dist_x - grid_spacing(dir_x))
    } else {
        clamp(t.side_dist_y - grid_spacing(dir_y))
    }
}

/// What a ray from `(start_x, start_y)` in the direction `(dir_x, dir_y)` hits:
/// how far along the ray the wall is, and its material. The map's edge counts
/// as a wall of material 1. A ray that hits nothing within `MAX_RAY_STEPS`
/// cells has the material `0`, and its length is how far it got.
pub open spec fn ray_hit(start_x: i64, start_y: i64, dir_x: i64, dir_y: i64, level: &Level) -> (i64, u8) {
    let end = ray_run(ray_start(start_x, start_y, dir_x, dir_y), dir_x, dir_y, level, MAX_RAY_STEPS as nat);
    (ray_length(end, dir_x, dir_y), end.wall)
}

/// What a viewer at `(start_x, start_y)` who looks the way `view_angle` points
/// sees along the ray that leaves the view axis by `angle_offset`: how far off
/// the wall is, measured along the view axis, and its material.
pub open spec fn wall_seen(
    start_x: i64,
    start_y: i64,
    view_angle: int,
    angle_offset: int,
    level: &Level,
    trig: &TrigTable,
) -> (i64, u8) {
    let angle = normal_angle(view_angle) + normal_angle(angle_offset);
    let hit = ray_hit(start_x, start_y, trig.cos_of(angle), trig.sin_of(angle), level);
    (clamp(product(hit.0 as int, trig.cos_of(angle_offset) as int)), hit.1)
}

/// How far along the ray it is from one grid line to the next.
pub fn spacing(dir: i64) -> (r: i64)
    ensures
        r == grid_spacing(dir),
{
    if dir == 0 {
        i64::MAX
    } else {
        let m: u64 = abs_of(dir);
        if m > 0x7fff_ffff_ffff_ffffu64 {
            assert(quotient(UNIT as int, magnitude(dir as int)) == 0) by (nonlinear_arith)
                requires
                    magnitude(dir as int) > 1_000_000 * 1_000_000,
            ;
            0
        } else {
            over(1_000_000, m as i64)
        }
    }
}

/// How far along the ray it is from `start` to the first grid line.
pub fn crossing(start: i64, dir: i64) -> (r: i64)
    ensures
        r == first_crossing(start, dir),
{
    if dir == 0 {
        return i64::MAX;
    }
    let at: i128 = cell_of(start) as i128;
    let within: i128 = (start as i128) - at * 1_000_000;
    assert(within == (start as int) % (UNIT as int)) by (nonlinear_arith)
        requires
            at == (start as int) / (UNIT as int),
            within == start - at * 1_000_000,
    ;
    let gap: i64 = spacing(dir);
    if dir < 0 {
        times(within as i64, gap)
    } else {
        times((1_000_000 - within) as i64, gap)
    }
}

/// Casts a ray from `(start_x, start_y)` in the direction `(dir_x, dir_y)` and
/// returns how far along the ray the first wall is, and its material.
pub fn cast_ray(start_x: i64, start_y: i64, dir_x: i64, dir_y: i64, level: &Level) -> (r: (i64, u8))
    requires
        level.wf(),
    ensures
        r == ray_hit(start_x, start_y, dir_x, dir_y, level),
{
    let delta_x: i64 = spacing(dir_x);
    let delta_y: i64 = spacing(dir_y);
    let first_x: i64 = cell_of(start_x);
    let first_y: i64 = cell_of(start_y);
    let mut map_x: i64 = first_x;
    let mut map_y: i64 = first_y;
    let mut side_dist_x: i64 = crossing(start_x, dir_x);
    let mut side_dist_y: i64 = crossing(start_y, dir_y);
    let mut side: u8 = 0;
    let mut wall: u8 = 0;
    let mut steps: u32 = 0;
    let ghost begin = ray_start(start_x, start_y, dir_x, dir_y);
    while wall == 0 && steps < 50
        invariant
            level.wf(),
            steps <= MAX_RAY_STEPS,
            delta_x == grid_spacing(dir_x),
            delta_y == grid_spacing(dir_y),
            first_x - steps <= map_x <= first_x + steps,
            first_y - steps <= map_y <= first_y + steps,
            -9_223_372_036_855 <= first_x <= 9_223_372_036_855,
            -9_223_372_036_855 <= first_y <= 9_223_372_036_855,
            ray_run(
                Traversal { map_x, map_y, side_dist_x, side_dist_y, side, wall },
                dir_x,
                dir_y,
                level,
                (MAX_RAY_STEPS - steps) as nat,
            ) == ray_run(begin, dir_x, dir_y, level, MAX_RAY_STEPS as nat),
        decreases MAX_RAY_STEPS - steps,
    {
        steps += 1;
        if side_dist_x < side_dist_y {
            side_dist_x = plus(side_dist_x, delta_x);
            if dir_x < 0 {
                map_x -= 1;
            } else {
                map_x += 1;
            }
            side = 0;
        } else {
            side_dist_y = plus(side_dist_y, delta_y);
            if dir_y < 0 {
                map_y -= 1;
            } else {
                map_y += 1;
            }
            side = 1;
        }
        wall = level.wall_at(map_x, map_y);
    }
    let length: i64 = if side == 0 {
        minus(side_dist_x, delta_x)
    } else {
        minus(side_dist_y, delta_y)
    };
    (length, wall)
}

/// Casts the ray that leaves the view axis of a viewer at `(start_x, start_y)`
/// by `angle_offset`, and returns how far off the first wall is, measured
/// along the view axis, and its material.
pub fn cast_wall_ray(
    start_x: i64,
    start_y: i64,
    view_angle: i64,
    angle_offset: i64,
    level: &Level,
    trig: &TrigTable,
) -> (r: (i64, u8))
    requires
        level.wf(),
        trig.wf(),
    ensures
        r == wall_seen(start_x, start_y, view_angle as int, angle_offset as int, level, trig),
{
    let angle: i64 = crate::fixed::normalize_angle(view_angle) + crate::fixed::normalize_angle(angle_offset);
    let hit = cast_ray(start_x, start_y, trig.cos(angle), trig.sin(angle), level);
    (times(hit.0, trig.cos(angle_offset)), hit.1)
}

/// The ray that runs east from `(start_x, start_y)`, `j` cells on and with
/// nothing hit yet.
pub open spec fn east_after(start_x: i64, start_y: i64, j: int) -> Traversal {
    Traversal {
        map_x: (cell(start_x as int) + j) as i64,
        map_y: cell(start_y as int) as i64,
        side_dist_x: (UNIT - (start_x as int) % (UNIT as int) + j * UNIT) as i64,
        side_dist_y: i64::MAX,
        side: 0,
        wall: 0,
    }
}

/// Whether the cells east of the cell of `(start_x, start_y)` are open up to
/// the column `wall_x`, whose cell is not.
pub open spec fn corridor_east(start_x: i64, start_y: i64, level: &Level, wall_x: int) -> bool {
    &&& cell(start_x as int) < wall_x <= cell(start_x as int) + MAX_RAY_STEPS
    &&& forall|x: int|
        cell(start_x as int) < x < wall_x ==> #[trigger] level.material(x, cell(start_y as int)) == 0
    &&& level.material(wall_x, cell(start_y as int)) > 0
}

/// Along a corridor that runs east to a wall in the column `wall_x`, a ray
/// that has come `j` cells goes on to that wall.
proof fn lemma_east_run(start_x: i64, start_y: i64, level: &Level, wall_x: int, j: int, steps: nat)
    requires
        corridor_east(start_x, start_y, level, wall_x),
        0 <= j < wall_x - cell(start_x as int),
        steps >= wall_x - cell(start_x as int) - j,
    ensures
        ray_run(east_after(start_x, start_y, j), UNIT, 0, level, steps) == (Traversal {
            wall: level.material(wall_x, cell(start_y as int)),
            ..east_after(start_x, start_y, wall_x - cell(start_x as int))
        }),
    decreases wall_x - cell(start_x as int) - j,
{
    let here = east_after(start_x, start_y, j);
    let there = ray_step(here, UNIT, 0, level);
    assert(grid_spacing(UNIT) == UNIT) by (nonlinear_arith);
    assert(there.map_x == cell(start_x as int) + j + 1);
    assert(there.side_dist_x == here.side_dist_x + UNIT);
    if cell(start_x as int) + j + 1 < wall_x {
        assert(level.material(cell(start_x as int) + j + 1, cell(start_y as int)) == 0);
        assert(there == east_after(start_x, start_y, j + 1));
        lemma_east_run(start_x, start_y, level, wall_x, j + 1, (steps - 1) as nat);
    } else {
        assert(ray_run(there, UNIT, 0, level, (steps - 1) as nat) == there);
    }
}

/// A ray cast straight east down a corridor returns the corridor's length:
/// where the cells east of the start are open up to a wall, the ray hits that
/// wall, and its length is the distance from the start to the wall's face.
pub proof fn lemma_straight_corridor_east(start_x: i64, start_y: i64, level: &Level, wall_x: int)
    requires
        corridor_east(start_x, start_y, level, wall_x),
    ensures
        ray_hit(start_x, start_y, UNIT, 0, level) == (
            (wall_x * UNIT - start_x) as i64,
            level.material(wall_x, cell(start_y as int)),
        ),
        0 < wall_x * UNIT - start_x <= MAX_RAY_STEPS * UNIT,
{
    assert(grid_spacing(UNIT) == UNIT) by (nonlinear_arith);
    let within = (start_x as int) % (UNIT as int);
    assert(product(UNIT - within, UNIT as int) == UNIT - within) by (nonlinear_arith)
        requires
            0 <= within < UNIT,
    ;
    assert(ray_start(start_x, start_y, UNIT, 0) == east_after(start_x, start_y, 0));
    lemma_east_run(start_x, start_y, level, wall_x, 0, MAX_RAY_STEPS as nat);
    let k = wall_x - cell(start_x as int);
    assert(wall_x * UNIT - start_x == k * UNIT - within) by (nonlinear_arith)
        requires
            within == (start_x as int) % (UNIT as int),
            k == wall_x - (start_x as int) / (UNIT as int),
    ;
}

/// The unit vector along the axis that `angle` points along: east at no turn,
/// south at a quarter turn, west at a half turn, north at three quarters.
pub open spec fn axis_of(angle: int) -> (i64, i64) {
    if normal_angle(angle) == 0 {
        (UNIT, 0)
    } else if normal_angle(angle) == crate::fixed::QUARTER_TURN {
        (0, UNIT)
    } else if normal_angle(angle) == 2 * crate::fixed::QUARTER_TURN {
        (WEST_OR_NORTH, 0)
    } else {
        (0, WEST_OR_NORTH)
    }
}

/// Seen straight ahead along an axis, with a table that is exact along the
/// axes, a wall is as far off as the ray along that axis is long.
pub proof fn lemma_straight_view(start_x: i64, start_y: i64, view_angle: int, level: &Level, trig: &TrigTable)
    requires
        trig.axes_exact(),
        normal_angle(view_angle) % (crate::fixed::QUARTER_TURN as int) == 0,
    ensures
        wall_seen(start_x, start_y, view_angle, 0, level, trig) == ray_hit(
            start_x,
            start_y,
            axis_of(view_angle).0,
            axis_of(view_angle).1,
            level,
        ),
{
    let angle = normal_angle(view_angle) + normal_angle(0);
    assert(normal_angle(angle) == normal_angle(view_angle)) by (nonlinear_arith)
        requires
            angle == normal_angle(view_angle) + normal_angle(0),
    ;
    crate::trig::lemma_axes(trig, angle);
    crate::trig::lemma_axes(trig, 0);
    let hit = ray_hit(start_x, start_y, axis_of(view_angle).0, axis_of(view_angle).1, level);
    assert(product(hit.0 as int, UNIT as int) == hit.0) by (nonlinear_arith);
}

/// A viewer who looks straight down a corridor, with a table that is exact
/// along the axes, sees the wall that ends it at the corridor's length: east
/// at no turn, south at a quarter turn, west at a half turn, north at three
/// quarters.
pub proof fn lemma_corridor_seen(
    start_x: i64,
    start_y: i64,
    view_angle: int,
    level: &Level,
    trig: &TrigTable,
    wall: int,
)
    requires
        trig.axes_exact(),
        normal_angle(view_angle) % (crate::fixed::QUARTER_TURN as int) == 0,
        normal_angle(view_angle) == 0 ==> corridor_east(start_x, start_y, level, wall),
        normal_angle(view_angle) == crate::fixed::QUARTER_TURN ==> corridor_south(start_x, start_y, level, wall),
        normal_angle(view_angle) == 2 * crate::fixed::QUARTER_TURN ==> corridor_west(
            start_x,
            start_y,
            level,
            wall,
        ),
        normal_angle(view_angle) == 3 * crate::fixed::QUARTER_TURN ==> corridor_north(
            start_x,
            start_y,
            level,
            wall,
        ),
    ensures
        normal_angle(view_angle) == 0 ==> wall_seen(start_x, start_y, view_angle, 0, level, trig) == (
            (wall * UNIT - start_x) as i64,
            level.material(wall, cell(start_y as int)),
        ),
        normal_angle(view_angle) == crate::fixed::QUARTER_TURN ==> wall_seen(
            start_x,
            start_y,
            view_angle,
            0,
            level,
            trig,
        ) == ((wall * UNIT - start_y) as i64, level.material(cell(start_x as int), wall)),
        normal_angle(view_angle) == 2 * crate::fixed::QUARTER_TURN ==> wall_seen(
            start_x,
            start_y,
            view_angle,
            0,
            level,
            trig,
        ) == ((start_x - (wall + 1) * UNIT) as i64, level.material(wall, cell(start_y as int))),
        normal_angle(view_angle) == 3 * crate::fixed::QUARTER_TURN ==> wall_seen(
            start_x,
            start_y,
            view_angle,
            0,
            level,
            trig,
        ) == ((start_y - (wall + 1) * UNIT) as i64, level.material(cell(start_x as int), wall)),
{
    lemma_straight_view(start_x, start_y, view_angle, level, trig);
    let a = normal_angle(view_angle);
    assert(a == 0 || a == crate::fixed::QUARTER_TURN || a == 2 * crate::fixed::QUARTER_TURN || a == 3
        * crate::fixed::QUARTER_TURN) by (nonlinear_arith)
        requires
            0 <= a < 4 * crate::fixed::QUARTER_TURN,
            a % (crate::fixed::QUARTER_TURN as int) == 0,
    ;
    if a == 0 {
        lemma_straight_corridor_east(start_x, start_y, level, wall);
    } else if a == crate::fixed::QUARTER_TURN {
        lemma_straight_corridor_south(start_x, start_y, level, wall);
    } else if a == 2 * crate::fixed::QUARTER_TURN {
        lemma_straight_corridor_west(start_x, start_y, level, wall);
    } else {
        lemma_straight_corridor_north(start_x, start_y, level, wall);
    }
}

/// Measured along the view axis a wall is never further off than the ray to
/// it is long.
pub proof fn lemma_view_distance_within_ray(
    start_x: i64,
    start_y: i64,
    view_angle: int,
    angle_offset: int,
    level: &Level,
    trig: &TrigTable,
)
    requires
        trig.wf(),
    ensures
        ({
            let angle = normal_angle(view_angle) + normal_angle(angle_offset);
            let hit = ray_hit(start_x, start_y, trig.cos_of(angle), trig.sin_of(angle), level);
            magnitude(wall_seen(start_x, start_y, view_angle, angle_offset, level, trig).0 as int)
                <= magnitude(hit.0 as int)
        }),
{
    let angle = normal_angle(view_angle) + normal_angle(angle_offset);
    let hit = ray_hit(start_x, start_y, trig.cos_of(angle), trig.sin_of(angle), level);
    let c = trig.cos_of(angle_offset);
    lemma_sine_in_table(trig, angle_offset + crate::fixed::QUARTER_TURN);
    assert(magnitude(product(hit.0 as int, c as int)) <= magnitude(hit.0 as int)) by (nonlinear_arith)
        requires
            -UNIT <= c <= UNIT,
    ;
}

/// Every sine that a table gives lies in `[-UNIT, UNIT]`.
pub proof fn lemma_sine_in_table(trig: &TrigTable, angle: int)
    requires
        trig.wf(),
    ensures
        -UNIT <= trig.sin_of(angle) <= UNIT,
{
    let n = trig.sines@.len() as int;
    let a = normal_angle(angle);
    assert(0 <= a * n / (crate::fixed::FULL_TURN as int) < n) by (nonlinear_arith)
        requires
            0 <= a < crate::fixed::FULL_TURN,
            n > 0,
    ;
}

/// The ray that runs west from `(start_x, start_y)`, `j` cells on and with
/// nothing hit yet.
pub open spec fn west_after(start_x: i64, start_y: i64, j: int) -> Traversal {
    Traversal {
        map_x: (cell(start_x as int) - j) as i64,
        map_y: cell(start_y as int) as i64,
        side_dist_x: ((start_x as int) % (UNIT as int) + j * UNIT) as i64,
        side_dist_y: i64::MAX,
        side: 0,
        wall: 0,
    }
}

/// Whether the cells west of the cell of `(start_x, start_y)` are open down
/// to the column `wall_x`, whose cell is not.
pub open spec fn corridor_west(start_x: i64, start_y: i64, level: &Level, wall_x: int) -> bool {
    &&& cell(start_x as int) - MAX_RAY_STEPS <= wall_x < cell(start_x as int)
    &&& forall|x: int|
        wall_x < x < cell(start_x as int) ==> #[trigger] level.material(x, cell(start_y as int)) == 0
    &&& level.material(wall_x, cell(start_y as int)) > 0
}

/// Along a corridor that runs west to a wall in the column `wall_x`, a ray
/// that has come `j` cells goes on to that wall.
proof fn lemma_west_run(start_x: i64, start_y: i64, level: &Level, wall_x: int, j: int, steps: nat)
    requires
        corridor_west(start_x, start_y, level, wall_x),
        0 <= j < cell(start_x as int) - wall_x,
        steps >= cell(start_x as int) - wall_x - j,
    ensures
        ray_run(west_after(start_x, start_y, j), WEST_OR_NORTH, 0, level, steps) == (Traversal {
            wall: level.material(wall_x, cell(start_y as int)),
            ..west_after(start_x, start_y, cell(start_x as int) - wall_x)
        }),
    decreases cell(start_x as int) - wall_x - j,
{
    let here = west_after(start_x, start_y, j);
    let there = ray_step(here, WEST_OR_NORTH, 0, level);
    assert(grid_spacing(WEST_OR_NORTH) == UNIT) by (nonlinear_arith);
    assert(there.map_x == cell(start_x as int) - j - 1);
    assert(there.side_dist_x == here.side_dist_x + UNIT);
    if cell(start_x as int) - j - 1 > wall_x {
        assert(level.material(cell(start_x as int) - j - 1, cell(start_y as int)) == 0);
        assert(there == west_after(start_x, start_y, j + 1));
        lemma_west_run(start_x, start_y, level, wall_x, j + 1, (steps - 1) as nat);
    } else {
        assert(ray_run(there, WEST_OR_NORTH, 0, level, (steps - 1) as nat) == there);
    }
}

/// A ray cast straight west down a corridor returns the corridor's length:
/// the distance from the start to the face of the wall that ends it.
pub proof fn lemma_straight_corridor_west(start_x: i64, start_y: i64, level: &Level, wall_x: int)
    requires
        corridor_west(start_x, start_y, level, wall_x),
    ensures
        ray_hit(start_x, start_y, WEST_OR_NORTH, 0, level) == (
            (start_x - (wall_x + 1) * UNIT) as i64,
            level.material(wall_x, cell(start_y as int)),
        ),
        0 <= start_x - (wall_x + 1) * UNIT < MAX_RAY_STEPS * UNIT,
{
    assert(grid_spacing(WEST_OR_NORTH) == UNIT) by (nonlinear_arith);
    let within = (start_x as int) % (UNIT as int);
    assert(product(within, UNIT as int) == within) by (nonlinear_arith)
        requires
            0 <= within < UNIT,
    ;
    assert(ray_start(start_x, start_y, WEST_OR_NORTH, 0) == west_after(start_x, start_y, 0));
    lemma_west_run(start_x, start_y, level, wall_x, 0, MAX_RAY_STEPS as nat);
    let k = cell(start_x as int) - wall_x;
    assert(start_x - (wall_x + 1) * UNIT == within + k * UNIT - UNIT) by (nonlinear_arith)
        requires
            within == (start_x as int) % (UNIT as int),
            k == (start_x as int) / (UNIT as int) - wall_x,
    ;
}

/// The ray that runs south from `(start_x, start_y)`, `j` cells on and with
/// nothing hit yet.
pub open spec fn south_after(start_x: i64, start_y: i64, j: int) -> Traversal {
    Traversal {
        map_x: cell(start_x as int) as i64,
        map_y: (cell(start_y as int) + j) as i64,
        side_dist_x: i64::MAX,
        side_dist_y: (UNIT - (start_y as int) % (UNIT as int) + j * UNIT) as i64,
        side: if j == 0 {
            0
        } else {
            1
        },
        wall: 0,
    }
}

/// Whether the cells south of the cell of `(start_x, start_y)` are open up to
/// the row `wall_y`, whose cell is not.
pub open spec fn corridor_south(start_x: i64, start_y: i64, level: &Level, wall_y: int) -> bool {
    &&& cell(start_y as int) < wall_y <= cell(start_y as int) + MAX_RAY_STEPS
    &&& forall|y: int|
        cell(start_y as int) < y < wall_y ==> #[trigger] level.material(cell(start_x as int), y) == 0
    &&& level.material(cell(start_x as int), wall_y) > 0
}

/// Along a corridor that runs south to a wall in the row `wall_y`, a ray that
/// has come `j` cells goes on to that wall.
proof fn lemma_south_run(start_x: i64, start_y: i64, level: &Level, wall_y: int, j: int, steps: nat)
    requires
        corridor_south(start_x, start_y, level, wall_y),
        0 <= j < wall_y - cell(start_y as int),
        steps >= wall_y - cell(start_y as int) - j,
    ensures
        ray_run(south_after(start_x, start_y, j), 0, UNIT, level, steps) == (Traversal {
            wall: level.material(cell(start_x as int), wall_y),
            ..south_after(start_x, start_y, wall_y - cell(start_y as int))
        }),
    decreases wall_y - cell(start_y as int) - j,
{
    let here = south_after(start_x, start_y, j);
    let there = ray_step(here, 0, UNIT, level);
    assert(grid_spacing(UNIT) == UNIT) by (nonlinear_arith);
    assert(there.map_y == cell(start_y as int) + j + 1);
    assert(there.side_dist_y == here.side_dist_y + UNIT);
    if cell(start_y as int) + j + 1 < wall_y {
        assert(level.material(cell(start_x as int), cell(start_y as int) + j + 1) == 0);
        assert(there == south_after(start_x, start_y, j + 1));
        lemma_south_run(start_x, start_y, level, wall_y, j + 1, (steps - 1) as nat);
    } else {
        assert(ray_run(there, 0, UNIT, level, (steps - 1) as nat) == there);
    }
}

/// A ray cast straight south down a corridor returns the corridor's length.
pub proof fn lemma_straight_corridor_south(start_x: i64, start_y: i64, level: &Level, wall_y: int)
    requires
        corridor_south(start_x, start_y, level, wall_y),
    ensures
        ray_hit(start_x, start_y, 0, UNIT, level) == (
            (wall_y * UNIT - start_y) as i64,
            level.material(cell(start_x as int), wall_y),
        ),
        0 < wall_y * UNIT - start_y <= MAX_RAY_STEPS * UNIT,
{
    assert(grid_spacing(UNIT) == UNIT) by (nonlinear_arith);
    let within = (start_y as int) % (UNIT as int);
    assert(product(UNIT - within, UNIT as int) == UNIT - within) by (nonlinear_arith)
        requires
            0 <= within < UNIT,
    ;
    assert(ray_start(start_x, start_y, 0, UNIT) == south_after(start_x, start_y, 0));
    lemma_south_run(start_x, start_y, level, wall_y, 0, MAX_RAY_STEPS as nat);
    let k = wall_y - cell(start_y as int);
    assert(wall_y * UNIT - start_y == k * UNIT - within) by (nonlinear_arith)
        requires
            within == (start_y as int) % (UNIT as int),
            k == wall_y - (start_y as int) / (UNIT as int),
    ;
}

/// The ray that runs north from `(start_x, start_y)`, `j` cells on and with
/// nothing hit yet.
pub open spec fn north_after(start_x: i64, start_y: i64, j: int) -> Traversal {
    Traversal {
        map_x: cell(start_x as int) as i64,
        map_y: (cell(start_y as int) - j) as i64,
        side_dist_x: i64::MAX,
        side_dist_y: ((start_y as int) % (UNIT as int) + j * UNIT) as i64,
        side: if j == 0 {
            0
        } else {
            1
        },
        wall: 0,
    }
}

/// Whether the cells north of the cell of `(start_x, start_y)` are open down
/// to the row `wall_y`, whose cell is not.
pub open spec fn corridor_north(start_x: i64, start_y: i64, level: &Level, wall_y: int) -> bool {
    &&& cell(start_y as int) - MAX_RAY_STEPS <= wall_y < cell(start_y as int)
    &&& forall|y: int|
        wall_y < y < cell(start_y as int) ==> #[trigger] level.material(cell(start_x as int), y) == 0
    &&& level.material(cell(start_x as int), wall_y) > 0
}

/// Along a corridor that runs north to a wall in the row `wall_y`, a ray that
/// has come `j` cells goes on to that wall.
proof fn lemma_north_run(start_x: i64, start_y: i64, level: &Level, wall_y: int, j: int, steps: nat)
    requires
        corridor_north(start_x, start_y, level, wall_y),
        0 <= j < cell(start_y as int) - wall_y,
        steps >= cell(start_y as int) - wall_y - j,
    ensures
        ray_run(north_after(start_x, start_y, j), 0, WEST_OR_NORTH, level, steps) == (Traversal {
            wall: level.material(cell(start_x as int), wall_y),
            ..north_after(start_x, start_y, cell(start_y as int) - wall_y)
        }),
    decreases cell(start_y as int) - wall_y - j,
{
    let here = north_after(start_x, start_y, j);
    let there = ray_step(here, 0, WEST_OR_NORTH, level);
    assert(grid_spacing(WEST_OR_NORTH) == UNIT) by (nonlinear_arith);
    assert(there.map_y == cell(start_y as int) - j - 1);
    assert(there.side_dist_y == here.side_dist_y + UNIT);
    if cell(start_y as int) - j - 1 > wall_y {
        assert(level.material(cell(start_x as int), cell(start_y as int) - j - 1) == 0);
        assert(there == north_after(start_x, start_y, j + 1));
        lemma_north_run(start_x, start_y, level, wall_y, j + 1, (steps - 1) as nat);
    } else {
        assert(ray_run(there, 0, WEST_OR_NORTH, level, (steps - 1) as nat) == there);
    }
}

/// A ray cast straight north down a corridor returns the corridor's length.
pub proof fn lemma_straight_corridor_north(start_x: i64, start_y: i64, level: &Level, wall_y: int)
    requires
        corridor_north(start_x, start_y, level, wall_y),
    ensures
        ray_hit(start_x, start_y, 0, WEST_OR_NORTH, level) == (
            (start_y - (wall_y + 1) * UNIT) as i64,
            level.material(cell(start_x as int), wall_y),
        ),
        0 <= start_y - (wall_y + 1) * UNIT < MAX_RAY_STEPS * UNIT,
{
    assert(grid_spacing(WEST_OR_NORTH) == UNIT) by (nonlinear_arith);
    let within = (start_y as int) % (UNIT as int);
    assert(product(within, UNIT as int) == within) by (nonlinear_arith)
        requires
            0 <= within < UNIT,
    ;
    assert(ray_start(start_x, start_y, 0, WEST_OR_NORTH) == north_after(start_x, start_y, 0));
    lemma_north_run(start_x, start_y, level, wall_y, 0, MAX_RAY_STEPS as nat);
    let k = cell(start_y as int) - wall_y;
    assert(start_y - (wall_y + 1) * UNIT == within + k * UNIT - UNIT) by (nonlinear_arith)
        requires
            within == (start_y as int) % (UNIT as int),
            k == (start_y as int) / (UNIT as int) - wall_y,
    ;
}

/// No ray gets further than `steps` cells from where it stands, along either
/// axis.
pub proof fn lemma_ray_stays_near(t: Traversal, dir_x: i64, dir_y: i64, level: &Level, steps: nat)
    requires
        i64::MIN + steps <= t.map_x <= i64::MAX - steps,
        i64::MIN + steps <= t.map_y <= i64::MAX - steps,
    ensures
        t.map_x - steps <= ray_run(t, dir_x, dir_y, level, steps).map_x <= t.map_x + steps,
        t.map_y - steps <= ray_run(t, dir_x, dir_y, level, steps).map_y <= t.map_y + steps,
    decreases steps,
{
    if steps > 0 && t.wall == 0 {
        lemma_ray_stays_near(ray_step(t, dir_x, dir_y, level), dir_x, dir_y, level, (steps - 1) as nat);
    }
}

/// What a ray reports is what the cell holds in which it stopped: the material
/// of a wall, or `0` where it gave up over open floor.
pub proof fn lemma_ray_reports_its_cell(start_x: i64, start_y: i64, dir_x: i64, dir_y: i64, level: &Level)
    ensures
        ({
            let end = ray_run(
                ray_start(start_x, start_y, dir_x, dir_y),
                dir_x,
                dir_y,
                level,
                MAX_RAY_STEPS as nat,
            );
            &&& ray_hit(start_x, start_y, dir_x, dir_y, level).1 == level.material(
                end.map_x as int,
                end.map_y as int,
            )
            &&& cell(start_x as int) - MAX_RAY_STEPS <= end.map_x <= cell(start_x as int) + MAX_RAY_STEPS
            &&& cell(start_y as int) - MAX_RAY_STEPS <= end.map_y <= cell(start_y as int) + MAX_RAY_STEPS
        }),
{
    let begin = ray_start(start_x, start_y, dir_x, dir_y);
    let next = ray_step(begin, dir_x, dir_y, level);
    lemma_ray_stays_near(next, dir_x, dir_y, level, (MAX_RAY_STEPS - 1) as nat);
    assert(ray_run(begin, dir_x, dir_y, level, MAX_RAY_STEPS as nat) == ray_run(
        next,
        dir_x,
        dir_y,
        level,
        (MAX_RAY_STEPS - 1) as nat,
    ));
    lemma_ray_open_until_wall(next, dir_x, dir_y, level, (MAX_RAY_STEPS - 1) as nat);
}

/// A ray that reports what its cell holds goes on doing so.
pub proof fn lemma_ray_open_until_wall(t: Traversal, dir_x: i64, dir_y: i64, level: &Level, steps: nat)
    requires
        t.wall == level.material(t.map_x as int, t.map_y as int),
    ensures
        ray_run(t, dir_x, dir_y, level, steps).wall == level.material(
            ray_run(t, dir_x, dir_y, level, steps).map_x as int,
            ray_run(t, dir_x, dir_y, level, steps).map_y as int,
        ),
    decreases steps,
{
    if steps > 0 && t.wall == 0 {
        lemma_ray_open_until_wall(ray_step(t, dir_x, dir_y, level), dir_x, dir_y, level, (steps - 1) as nat);
    }
}

/// Whether neither of the two next grid lines of the ray lies behind it, and
/// the line it crossed last lies at least one spacing before the next.
pub open spec fn is_under_way(t: Traversal, dir_x: i64, dir_y: i64) -> bool {
    &&& t.side_dist_x >= 0
    &&& t.side_dist_y >= 0
    &&& t.side == 0 ==> t.side_dist_x >= grid_spacing(dir_x)
    &&& t.side != 0 ==> t.side_dist_y >= grid_spacing(dir_y)
}

/// A ray that is under way stays so.
pub proof fn lemma_ray_stays_under_way(t: Traversal, dir_x: i64, dir_y: i64, level: &Level, steps: nat)
    requires
        is_under_way(t, dir_x, dir_y),
    ensures
        is_under_way(ray_run(t, dir_x, dir_y, level, steps), dir_x, dir_y),
    decreases steps,
{
    if steps > 0 && t.wall == 0 {
        lemma_spacing_not_negative(dir_x);
        lemma_spacing_not_negative(dir_y);
        lemma_ray_stays_under_way(ray_step(t, dir_x, dir_y, level), dir_x, dir_y, level, (steps - 1) as nat);
    }
}

/// No grid line lies behind another.
pub proof fn lemma_spacing_not_negative(dir: i64)
    ensures
        grid_spacing(dir) >= 0,
{
    if dir != 0 {
        let m = magnitude(dir as int);
        assert(quotient(UNIT as int, m) >= 0) by (nonlinear_arith)
            requires
                m > 0,
        ;
    }
}

/// No ray has a negative length.
pub proof fn lemma_ray_length_not_negative(start_x: i64, start_y: i64, dir_x: i64, dir_y: i64, level: &Level)
    ensures
        ray_hit(start_x, start_y, dir_x, dir_y, level).0 >= 0,
{
    lemma_spacing_not_negative(dir_x);
    lemma_spacing_not_negative(dir_y);
    let begin = ray_start(start_x, start_y, dir_x, dir_y);
    let within_x = (start_x as int) % (UNIT as int);
    let within_y = (start_y as int) % (UNIT as int);
    let gap_x = grid_spacing(dir_x) as int;
    let gap_y = grid_spacing(dir_y) as int;
    assert(product(within_x, gap_x) >= 0 && product(UNIT - within_x, gap_x) >= 0) by (nonlinear_arith)
        requires
            0 <= within_x < UNIT,
            gap_x >= 0,
    ;
    assert(product(within_y, gap_y) >= 0 && product(UNIT - within_y, gap_y) >= 0) by (nonlinear_arith)
        requires
            0 <= within_y < UNIT,
            gap_y >= 0,
    ;
    let next = ray_step(begin, dir_x, dir_y, level);
    assert(is_under_way(next, dir_x, dir_y));
    lemma_ray_stays_under_way(next, dir_x, dir_y, level, (MAX_RAY_STEPS - 1) as nat);
    assert(ray_run(begin, dir_x, dir_y, level, MAX_RAY_STEPS as nat) == ray_run(
        next,
        dir_x,
        dir_y,
        level,
        (MAX_RAY_STEPS - 1) as nat,
    ));
}

/// Seen at an offset whose cosine is not negative, no wall is at a negative
/// distance.
pub proof fn lemma_view_distance_not_negative(
    start_x: i64,
    start_y: i64,
    view_angle: int,
    angle_offset: int,
    level: &Level,
    trig: &TrigTable,
)
    requires
        trig.cos_of(angle_offset) >= 0,
    ensures
        wall_seen(start_x, start_y, view_angle, angle_offset, level, trig).0 >= 0,
{
    let angle = normal_angle(view_angle) + normal_angle(angle_offset);
    let hit = ray_hit(start_x, start_y, trig.cos_of(angle), trig.sin_of(angle), level);
    lemma_ray_length_not_negative(start_x, start_y, trig.cos_of(angle), trig.sin_of(angle), level);
    let c = trig.cos_of(angle_offset) as int;
    assert(product(hit.0 as int, c) >= 0) by (nonlinear_arith)
        requires
            hit.0 >= 0,
            c >= 0,
    ;
}

} // verus!
