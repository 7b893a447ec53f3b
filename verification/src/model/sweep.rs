//! The grid of rays that a sweep sends through a stack.

use vstd::prelude::*;
use crate::model::refract::is_incidence;
use crate::model::units::{Microns, Microradians, RIGHT_ANGLE};

verus! {

/// The grid of rays that a sweep sends through a stack, and the base
/// thickness of a layer.
#[derive(Clone, Copy, Debug, PartialEq, Eq, Structural)]
pub struct SimConfig {
    /// Width of the top of the stack: the last entry point is at or before it.
    pub top_width: Microns,
    /// Distance from one entry point to the next.
    pub entry_interval: Microns,
    /// First entry angle.
    pub angle_min: Microradians,
    /// The last entry angle is at or before this one.
    pub angle_max: Microradians,
    /// Difference from one entry angle to the next.
    pub angle_interval: Microradians,
    /// Thickness of a layer whose thickness code is zero.
    pub layer_base: Microns,
    /// How many boundaries a ray may reach before it is given up as lost.
    pub max_crossings: u32,
}

impl SimConfig {
    /// Both steps are positive and both angles are incidences.
    pub open spec fn wf(self) -> bool {
        &&& self.entry_interval > 0
        &&& self.angle_interval > 0
        &&& is_incidence(self.angle_min)
        &&& is_incidence(self.angle_max)
    }

    /// Number of entry points of the sweep.
    pub open spec fn entry_count(self) -> int {
        self.top_width as int / self.entry_interval as int + 1
    }

    /// Number of entry angles of the sweep.
    pub open spec fn angle_count(self) -> int {
        if self.angle_min > self.angle_max {
            0
        } else {
            (self.angle_max - self.angle_min) / (self.angle_interval as int) + 1
        }
    }

    /// The entry point of the given index.
    pub open spec fn entry_point(self, i: int) -> Microns {
        (i * self.entry_interval) as Microns
    }

    /// The entry angle of the given index.
    pub open spec fn entry_angle(self, j: int) -> Microradians {
        (self.angle_min + j * self.angle_interval) as Microradians
    }

    /// Checks `wf`.
    pub fn is_valid(&self) -> (ok: bool)
        ensures
            ok == self.wf(),
    {
        self.entry_interval > 0 && self.angle_interval > 0 && -RIGHT_ANGLE <= self.angle_min
            && self.angle_min <= RIGHT_ANGLE && -RIGHT_ANGLE <= self.angle_max && self.angle_max
            <= RIGHT_ANGLE
    }

    /// A top of 104 mm entered every 5 mm, at every 5 degrees from one
    /// horizontal to the other, over layers of 3 mm base thickness; a ray is
    /// given up after ten thousand boundaries.
    pub fn standard() -> (c: SimConfig)
        ensures
            c.wf(),
            c == (SimConfig {
                top_width: 104_000,
                entry_interval: 5_000,
                angle_min: (-1_570_796i32) as i32,
                angle_max: 1_570_796,
                angle_interval: 87_266,
                layer_base: 3_000,
                max_crossings: 10_000,
            }),
    {
        SimConfig {
            top_width: 104_000,
            entry_interval: 5_000,
            angle_min: -RIGHT_ANGLE,
            angle_max: RIGHT_ANGLE,
            angle_interval: 87_266,
            layer_base: 3_000,
            max_crossings: 10_000,
        }
    }

    /// The entry points of the sweep: zero, then one every `entry_interval`,
    /// up to `top_width`.
    pub fn entry_points(&self) -> (points: Vec<Microns>)
        requires
            self.wf(),
        ensures
            points@.len() == self.entry_count(),
            forall|i: int| 0 <= i < points@.len() ==> #[trigger] points@[i] == self.entry_point(i),
            forall|i: int|
                0 <= i < points@.len() ==> #[trigger] points@[i] == i * self.entry_interval
                    <= self.top_width,
    {
        let mut points: Vec<Microns> = Vec::new();
        let mut entry: Microns = 0;
        assert(0 * self.entry_interval == 0) by (nonlinear_arith);
        loop
            invariant_except_break
                entry == points@.len() * self.entry_interval,
            invariant
                self.wf(),
                entry <= self.top_width,
                forall|i: int|
                    0 <= i < points@.len() ==> #[trigger] points@[i] == i * self.entry_interval,
            ensures
                points@.len() >= 1,
                forall|i: int|
                    0 <= i < points@.len() ==> #[trigger] points@[i] == i * self.entry_interval,
                points@.len() * self.entry_interval > self.top_width,
                (points@.len() - 1) * self.entry_interval <= self.top_width,
            decreases self.top_width - entry,
        {
            let ghost before = points@.len() as int;
            let ghost step = self.entry_interval as int;
            points.push(entry);
            assert((before + 1) * step == before * step + step) by (nonlinear_arith);
            assert((before + 1 - 1) * step == before * step) by (nonlinear_arith);
            if self.top_width - entry < self.entry_interval {
                break ;
            }
            entry = entry + self.entry_interval;
        }
        proof {
            let n = points@.len() as int;
            let s = self.entry_interval as int;
            let w = self.top_width as int;
            assert(w / s == n - 1) by (nonlinear_arith)
                requires
                    s > 0,
                    (n - 1) * s <= w < n * s,
            ;
            assert forall|i: int| 0 <= i < n implies #[trigger] points@[i] == i * s <= w by {
                assert(i * s <= (n - 1) * s) by (nonlinear_arith)
                    requires
                        0 <= i <= n - 1,
                        s > 0,
                ;
            }
        }
        points
    }

    /// The entry angles of the sweep: `angle_min`, then one every
    /// `angle_interval`, up to `angle_max`. None where `angle_min` lies
    /// beyond `angle_max`.
    pub fn entry_angles(&self) -> (angles: Vec<Microradians>)
        requires
            self.wf(),
        ensures
            angles@.len() == self.angle_count(),
            forall|j: int| 0 <= j < angles@.len() ==> #[trigger] angles@[j] == self.entry_angle(j),
            forall|j: int| 0 <= j < angles@.len() ==> is_incidence(#[trigger] angles@[j]),
            forall|j: int|
                0 <= j < angles@.len() ==> #[trigger] angles@[j] == self.angle_min + j
                    * self.angle_interval <= self.angle_max,
    {
        let mut angles: Vec<Microradians> = Vec::new();
        if self.angle_min > self.angle_max {
            return angles;
        }
        let mut angle: Microradians = self.angle_min;
        assert(0 * self.angle_interval == 0) by (nonlinear_arith);
        loop
            invariant_except_break
                angle == self.angle_min + angles@.len() * self.angle_interval,
            invariant
                self.wf(),
                self.angle_min <= angle <= self.angle_max,
                forall|i: int|
                    0 <= i < angles@.len() ==> #[trigger] angles@[i] == self.angle_min + i
                        * self.angle_interval,
                forall|i: int| 0 <= i < angles@.len() ==> is_incidence(#[trigger] angles@[i]),
            ensures
                angles@.len() > 0,
                forall|i: int|
                    0 <= i < angles@.len() ==> #[trigger] angles@[i] == self.angle_min + i
                        * self.angle_interval,
                forall|i: int| 0 <= i < angles@.len() ==> is_incidence(#[trigger] angles@[i]),
                self.angle_min + angles@.len() * self.angle_interval > self.angle_max,
                self.angle_min + (angles@.len() - 1) * self.angle_interval <= self.angle_max,
            decreases self.angle_max - angle,
        {
            let ghost before = angles@.len() as int;
            let ghost step = self.angle_interval as int;
            angles.push(angle);
            assert((before + 1) * step == before * step + step) by (nonlinear_arith);
            assert((before + 1 - 1) * step == before * step) by (nonlinear_arith);
            if self.angle_max - angle < self.angle_interval {
                break ;
            }
            angle = angle + self.angle_interval;
        }
        proof {
            let n = angles@.len() as int;
            let s = self.angle_interval as int;
            let w = self.angle_max - self.angle_min;
            assert(w / s == n - 1) by (nonlinear_arith)
                requires
                    s > 0,
                    (n - 1) * s <= w < n * s,
            ;
            assert forall|j: int| 0 <= j < n implies #[trigger] angles@[j] == self.angle_min + j
                * s <= self.angle_max by {
                assert(j * s <= (n - 1) * s) by (nonlinear_arith)
                    requires
                        0 <= j <= n - 1,
                        s > 0,
                ;
            }
        }
        angles
    }
}

} // verus!
