//! Directions: a table of sines that the caller samples once, and that turns
//! an angle into a unit vector by lookup.

use vstd::prelude::*;
use crate::fixed::{normal_angle, normalize_angle, FULL_TURN, QUARTER_TURN, UNIT};

verus! {

/// Sines of equally spaced angles over one full turn: `sines[i]` is the sine
/// of `i * 360 / sines.len()` degrees, in millionths.
pub struct TrigTable {
    pub sines: Vec<i64>,
}

/// Whether `sines` can serve as a table: it is not empty and no entry lies
/// outside `[-UNIT, UNIT]`.
pub open spec fn valid_sines(sines: Seq<i64>) -> bool {
    &&& sines.len() > 0
    &&& forall|i: int| 0 <= i < sines.len() ==> -UNIT <= #[trigger] sines[i] <= UNIT
}

impl TrigTable {
    /// The samples are valid.
    pub open spec fn wf(&self) -> bool {
        valid_sines(self.sines@)
    }

    /// The entry that serves `angle`: the last sample at or before it.
    pub open spec fn slot(&self, angle: int) -> int {
        normal_angle(angle) * self.sines@.len() / (FULL_TURN as int)
    }

    /// The sine that the table gives for `angle`.
    pub open spec fn sin_of(&self, angle: int) -> i64 {
        self.sines@[self.slot(angle)]
    }

    /// The cosine that the table gives for `angle`: the sine a quarter turn on.
    pub open spec fn cos_of(&self, angle: int) -> i64 {
        self.sin_of(angle + QUARTER_TURN)
    }

    /// Whether the table is exact along the axes: the sine is 0 at no turn
    /// and at a half turn, `UNIT` at a quarter turn and `-UNIT` at three
    /// quarters. The cosines along the axes are then exact too.
    pub open spec fn axes_exact(&self) -> bool {
        &&& self.sin_of(0) == 0
        &&& self.sin_of(QUARTER_TURN as int) == UNIT
        &&& self.sin_of(2 * QUARTER_TURN) == 0
        &&& self.sin_of(3 * QUARTER_TURN) == -UNIT
    }

    /// Whether the table is exact along the axes.
    pub fn has_exact_axes(&self) -> (r: bool)
        requires
            self.wf(),
        ensures
            r == self.axes_exact(),
    {
        self.sin(0) == 0 && self.sin(90_000_000) == 1_000_000 && self.sin(180_000_000) == 0 && self.sin(
            270_000_000,
        ) == -1_000_000
    }

    /// A table of the samples `sines`, or nothing where they are not valid.
    pub fn new(sines: Vec<i64>) -> (r: Option<Self>)
        ensures
            r is Some <==> valid_sines(sines@),
            r is Some ==> r->Some_0.sines@ == sines@ && r->Some_0.wf(),
    {
        if sines.len() == 0 {
            return None;
        }
        let mut i: usize = 0;
        while i < sines.len()
            invariant
                i <= sines.len(),
                forall|k: int| 0 <= k < i ==> -UNIT <= #[trigger] sines@[k] <= UNIT,
            decreases sines.len() - i,
        {
            if sines[i] < -1_000_000 || sines[i] > 1_000_000 {
                return None;
            }
            i += 1;
        }
        Some(TrigTable { sines })
    }

    /// The sine of `angle`.
    pub fn sin(&self, angle: i64) -> (r: i64)
        requires
            self.wf(),
        ensures
            r == self.sin_of(angle as int),
            -UNIT <= r <= UNIT,
    {
        let turned: u128 = normalize_angle(angle) as u128;
        let samples: u128 = self.sines.len() as u128;
        assert(turned * samples <= 360_000_000 * samples) by (nonlinear_arith)
            requires
                turned <= 360_000_000,
        ;
        let slot: u128 = turned * samples / 360_000_000u128;
        assert(slot < samples) by (nonlinear_arith)
            requires
                slot == turned * samples / 360_000_000,
                turned < 360_000_000,
                samples > 0,
        ;
        self.sines[slot as usize]
    }

    /// The cosine of `angle`.
    pub fn cos(&self, angle: i64) -> (r: i64)
        requires
            self.wf(),
        ensures
            r == self.cos_of(angle as int),
            -UNIT <= r <= UNIT,
    {
        let turned: i64 = normalize_angle(angle);
        assert(normal_angle(turned + QUARTER_TURN) == normal_angle(angle + QUARTER_TURN))
            by (nonlinear_arith)
            requires
                turned == normal_angle(angle as int),
        ;
        self.sin(turned + 90_000_000)
    }
}

/// Along the axes a table that is exact there gives the unit vectors: east
/// at no turn, south at a quarter turn, west at a half turn and north at
/// three quarters, whatever full turns the angle holds on top.
pub proof fn lemma_axes(trig: &TrigTable, angle: int)
    requires
        trig.axes_exact(),
        normal_angle(angle) % (QUARTER_TURN as int) == 0,
    ensures
        normal_angle(angle) == 0 ==> trig.cos_of(angle) == UNIT && trig.sin_of(angle) == 0,
        normal_angle(angle) == QUARTER_TURN ==> trig.cos_of(angle) == 0 && trig.sin_of(angle) == UNIT,
        normal_angle(angle) == 2 * QUARTER_TURN ==> trig.cos_of(angle) == -UNIT && trig.sin_of(angle) == 0,
        normal_angle(angle) == 3 * QUARTER_TURN ==> trig.cos_of(angle) == 0 && trig.sin_of(angle) == -UNIT,
{
    let a = normal_angle(angle);
    assert(normal_angle(a) == a) by (nonlinear_arith)
        requires
            a == normal_angle(angle),
    ;
    assert(normal_angle(angle + QUARTER_TURN) == normal_angle(a + QUARTER_TURN)) by (nonlinear_arith)
        requires
            a == normal_angle(angle),
    ;
    assert(trig.slot(angle) == trig.slot(a));
    assert(trig.slot(angle + QUARTER_TURN) == trig.slot(a + QUARTER_TURN));
    assert(normal_angle(4 * QUARTER_TURN) == normal_angle(0)) by (nonlinear_arith);
    assert(trig.slot(4 * QUARTER_TURN) == trig.slot(0));
}

} // verus!
