//! Fixed-point arithmetic on millionths.
//!
//! A quantity `q` is stored as the integer `q * UNIT`. Sums saturate at the
//! ends of `i64`; products and quotients round toward zero and then saturate.

use vstd::prelude::*;

verus! {

/// The integer that stands for the quantity one.
pub const UNIT: i64 = 1_000_000;

/// The nearest `i64` to `v`.
pub open spec fn clamp(v: int) -> i64 {
    if v < i64::MIN {
        i64::MIN
    } else if v > i64::MAX {
        i64::MAX
    } else {
        v as i64
    }
}

/// The absolute value of `v`.
pub open spec fn magnitude(v: int) -> int {
    if v >= 0 {
        v
    } else {
        -v
    }
}

/// `a / b` rounded toward zero, for a positive `b`.
pub open spec fn trunc_div(a: int, b: int) -> int
    recommends
        b > 0,
{
    if a >= 0 {
        a / b
    } else {
        -((-a) / b)
    }
}

/// The product of two fixed-point quantities, before saturation.
pub open spec fn product(a: int, b: int) -> int {
    trunc_div(a * b, UNIT as int)
}

/// The quotient of two fixed-point quantities, before saturation.
pub open spec fn quotient(a: int, b: int) -> int
    recommends
        b > 0,
{
    trunc_div(a * UNIT, b)
}

/// The grid cell that the coordinate `x` lies in: the floor of `x / UNIT`.
pub open spec fn cell(x: int) -> int {
    x / (UNIT as int)
}

/// The absolute value of `a` as an unsigned number.
pub fn abs_of(a: i64) -> (m: u64)
    ensures
        m == magnitude(a as int),
{
    if a >= 0 {
        a as u64
    } else {
        let below: i64 = -(a + 1);
        (below as u64) + 1
    }
}

/// Gives a magnitude its sign back and saturates.
pub fn signed(negative: bool, m: u128) -> (r: i64)
    ensures
        r == clamp(if negative { -(m as int) } else { m as int }),
{
    if negative {
        if m > 0x8000_0000_0000_0000u128 {
            i64::MIN
        } else if m == 0x8000_0000_0000_0000u128 {
            i64::MIN
        } else {
            let low: i64 = m as i64;
            -low
        }
    } else {
        if m > 0x7fff_ffff_ffff_ffffu128 {
            i64::MAX
        } else {
            m as i64
        }
    }
}

/// `a + b`, saturating.
pub fn plus(a: i64, b: i64) -> (r: i64)
    ensures
        r == clamp(a + b),
{
    if b >= 0 {
        if a > i64::MAX - b {
            i64::MAX
        } else {
            a + b
        }
    } else {
        if a < i64::MIN - b {
            i64::MIN
        } else {
            a + b
        }
    }
}

/// `a - b`, saturating.
pub fn minus(a: i64, b: i64) -> (r: i64)
    ensures
        r == clamp(a - b),
{
    if b >= 0 {
        if a < i64::MIN + b {
            i64::MIN
        } else {
            a - b
        }
    } else {
        if a > i64::MAX + b {
            i64::MAX
        } else {
            a - b
        }
    }
}

/// The product of two fixed-point quantities, rounded toward zero, saturating.
pub fn times(a: i64, b: i64) -> (r: i64)
    ensures
        r == clamp(product(a as int, b as int)),
{
    let ma: u128 = abs_of(a) as u128;
    let mb: u128 = abs_of(b) as u128;
    assert(ma * mb <= 0x8000_0000_0000_0000 * 0x8000_0000_0000_0000) by (nonlinear_arith)
        requires
            ma <= 0x8000_0000_0000_0000,
            mb <= 0x8000_0000_0000_0000,
    ;
    let whole: u128 = ma * mb;
    let m: u128 = whole / 1_000_000u128;
    let negative: bool = (a < 0) != (b < 0);
    proof {
        let p: int = (a as int) * (b as int);
        assert(magnitude(p) == ma * mb && (p < 0 ==> negative) && (negative ==> p <= 0))
            by (nonlinear_arith)
            requires
                p == (a as int) * (b as int),
                ma == magnitude(a as int),
                mb == magnitude(b as int),
                negative == ((a < 0) != (b < 0)),
        ;
    }
    signed(negative, m)
}

/// The quotient of two fixed-point quantities, rounded toward zero, saturating.
pub fn over(a: i64, b: i64) -> (r: i64)
    requires
        b > 0,
    ensures
        r == clamp(quotient(a as int, b as int)),
{
    let ma: u128 = abs_of(a) as u128;
    let whole: u128 = ma * 1_000_000u128;
    let m: u128 = whole / (b as u128);
    signed(a < 0, m)
}

/// The grid cell that the coordinate `x` lies in.
pub fn cell_of(x: i64) -> (c: i64)
    ensures
        c == cell(x as int),
{
    if x >= 0 {
        x / 1_000_000
    } else {
        let below: i64 = -(x + 1);
        let q: i64 = below / 1_000_000;
        assert(cell(x as int) == -q - 1) by (nonlinear_arith)
            requires
                x < 0,
                below == -(x + 1),
                q == below / 1_000_000,
        ;
        -q - 1
    }
}

/// A full turn, in millionths of a degree.
pub const FULL_TURN: i64 = 360_000_000;

/// A quarter turn, in millionths of a degree.
pub const QUARTER_TURN: i64 = 90_000_000;

/// The angle in `[0, FULL_TURN)` that points the way `angle` does.
pub open spec fn normal_angle(angle: int) -> int {
    angle % (FULL_TURN as int)
}

/// Brings an angle into `[0, FULL_TURN)`.
pub fn normalize_angle(angle: i64) -> (r: i64)
    ensures
        r == normal_angle(angle as int),
        0 <= r < FULL_TURN,
{
    if angle >= 0 {
        angle % 360_000_000
    } else {
        let m: u64 = abs_of(angle) % 360_000_000u64;
        assert(normal_angle(angle as int) == (if m == 0 { 0 } else { 360_000_000 - m }))
            by (nonlinear_arith)
            requires
                angle < 0,
                m == ((-angle) as int) % 360_000_000,
        ;
        if m == 0 {
            0
        } else {
            360_000_000 - (m as i64)
        }
    }
}

/// Whether `r` is the integer square root of `n`: the largest whole number
/// whose square is not above `n`.
pub open spec fn is_root(n: int, r: int) -> bool {
    0 <= r && r * r <= n < (r + 1) * (r + 1)
}

/// The integer square root of `n`.
pub open spec fn root(n: int) -> int {
    choose|r: int| is_root(n, r)
}

/// A number has one integer square root at most.
pub proof fn lemma_root_unique(n: int, a: int, b: int)
    requires
        is_root(n, a),
        is_root(n, b),
    ensures
        a == b,
{
    assert(a == b) by (nonlinear_arith)
        requires
            0 <= a,
            0 <= b,
            a * a <= n < (a + 1) * (a + 1),
            b * b <= n < (b + 1) * (b + 1),
    ;
}

/// The integer square root of `n`.
pub fn root_of(n: u128) -> (r: u64)
    ensures
        is_root(n as int, r as int),
        r == root(n as int),
{
    let mut low: u128 = 0;
    let mut high: u128 = 0x1_0000_0000_0000_0000u128;
    assert(n < high * high) by (nonlinear_arith)
        requires
            high == 0x1_0000_0000_0000_0000,
            n <= 0xffff_ffff_ffff_ffff_ffff_ffff_ffff_ffff,
    ;
    while high - low > 1
        invariant
            low < high <= 0x1_0000_0000_0000_0000,
            low * low <= n < high * high,
        decreases high - low,
    {
        let mid: u128 = low + (high - low) / 2;
        assert(mid * mid <= 0xffff_ffff_ffff_ffff * 0xffff_ffff_ffff_ffff) by (nonlinear_arith)
            requires
                0 <= mid <= 0xffff_ffff_ffff_ffff,
        ;
        if mid * mid <= n {
            low = mid;
        } else {
            high = mid;
        }
    }
    proof {
        lemma_root_unique(n as int, low as int, root(n as int));
    }
    low as u64
}

/// How far `(bx, by)` is from `(ax, ay)`, rounded down, before saturation.
pub open spec fn span(ax: i64, ay: i64, bx: i64, by: i64) -> int {
    root((bx - ax) * (bx - ax) + (by - ay) * (by - ay))
}

/// How far `(bx, by)` is from `(ax, ay)`, rounded down, saturating.
pub fn distance(ax: i64, ay: i64, bx: i64, by: i64) -> (d: i64)
    ensures
        d == clamp(span(ax, ay, bx, by)),
        d >= 0,
{
    let dx: i128 = (bx as i128) - (ax as i128);
    let dy: i128 = (by as i128) - (ay as i128);
    let wide: i128 = 0x8000_0000_0000_0000i128;
    let ghost whole: int = dx * dx + dy * dy;
    if dx >= wide || dx <= -wide || dy >= wide || dy <= -wide {
        proof {
            assert(whole >= 0x8000_0000_0000_0000 * 0x8000_0000_0000_0000) by (nonlinear_arith)
                requires
                    whole == dx * dx + dy * dy,
                    dx >= 0x8000_0000_0000_0000 || dx <= -0x8000_0000_0000_0000 || dy
                        >= 0x8000_0000_0000_0000 || dy <= -0x8000_0000_0000_0000,
            ;
            let r = root(whole);
            lemma_root_exists(whole);
            assert(r >= 0x7fff_ffff_ffff_ffff) by (nonlinear_arith)
                requires
                    0 <= r,
                    whole < (r + 1) * (r + 1),
                    whole >= 0x8000_0000_0000_0000 * 0x8000_0000_0000_0000,
            ;
        }
        return i64::MAX;
    }
    assert(0 <= dx * dx <= 0x8000_0000_0000_0000 * 0x8000_0000_0000_0000 && 0 <= dy * dy
        <= 0x8000_0000_0000_0000 * 0x8000_0000_0000_0000) by (nonlinear_arith)
        requires
            -0x8000_0000_0000_0000 < dx < 0x8000_0000_0000_0000,
            -0x8000_0000_0000_0000 < dy < 0x8000_0000_0000_0000,
    ;
    let sum: u128 = ((dx * dx) as u128) + ((dy * dy) as u128);
    let r: u64 = root_of(sum);
    if r > 0x7fff_ffff_ffff_ffffu64 {
        i64::MAX
    } else {
        r as i64
    }
}

/// Every number from 0 on has an integer square root.
pub proof fn lemma_root_exists(n: int)
    requires
        n >= 0,
    ensures
        is_root(n, root(n)),
    decreases n,
{
    if n == 0 {
        assert(is_root(0, 0));
    } else {
        lemma_root_exists(n - 1);
        let r = root(n - 1);
        if (r + 1) * (r + 1) <= n {
            assert(is_root(n, r + 1)) by (nonlinear_arith)
                requires
                    0 <= r,
                    r * r <= n - 1 < (r + 1) * (r + 1),
                    (r + 1) * (r + 1) <= n,
            ;
        } else {
            assert(is_root(n, r));
        }
    }
}

} // verus!
