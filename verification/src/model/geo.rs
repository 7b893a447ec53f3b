//! A traced ray: where it is, what it is in and where it is heading.

use vstd::prelude::*;
use crate::model::refract::{is_incidence, Snells};
use crate::model::units::{Microns, Microradians, RIGHT_ANGLE};
use crate::paramset::distance;

verus! {

/// A ray at one moment of its way.
#[derive(Clone, Copy, Debug, PartialEq, Eq, Structural)]
pub struct Pos {
    /// Horizontal position from leftmost
    pub x: Microns,
    /// Vertical height
    pub y: Microns,
    /// Current RI
    pub ri: u8,
    /// Current direction (from normal)
    pub dir: Microradians,
    /// Vertical direction
    pub going_down: bool,
}

impl Pos {
    /// The direction is an incidence to the normal.
    pub open spec fn wf(self) -> bool {
        is_incidence(self.dir)
    }

    /// The ray after it met a medium of index `new_ri`, where Snell's law for
    /// its direction and the two indices came out as `bend`.
    ///
    /// A ray along the normal, or one that meets its own medium again, keeps
    /// its course whatever `bend` says. A reflected ray mirrors its incidence
    /// and turns round. At the critical angle the incidence becomes a quarter
    /// turn of the same sign and the ray is taken to head down. The ray is in
    /// the new medium afterwards in every case.
    pub open spec fn refracted(self, new_ri: u8, bend: Snells) -> Pos {
        if self.dir == 0 || new_ri == self.ri {
            Pos { ri: new_ri, ..self }
        } else {
            match bend {
                Snells::Refracted(angle) => Pos { ri: new_ri, dir: angle, ..self },
                Snells::Reflected => Pos {
                    ri: new_ri,
                    dir: (-self.dir) as Microradians,
                    going_down: !self.going_down,
                    ..self
                },
                Snells::Critical => Pos {
                    ri: new_ri,
                    dir: if self.dir > 0 {
                        RIGHT_ANGLE
                    } else {
                        (-RIGHT_ANGLE) as Microradians
                    },
                    going_down: true,
                    ..self
                },
            }
        }
    }

    /// The ray after it went straight up or down to the boundary ahead of
    /// it: `down` when it heads down, `up` otherwise.
    pub open spec fn travelled(self, up: Microns, down: Microns) -> Pos {
        Pos { y: if self.going_down { down } else { up }, ..self }
    }

    /// Whether Snell's law has to be worked out before the ray can enter a
    /// medium of index `new_ri`.
    pub fn bends_into(&self, new_ri: u8) -> (needed: bool)
        ensures
            needed == (self.dir != 0 && new_ri != self.ri),
            !needed ==> forall|a: Snells, b: Snells|
                self.refracted(new_ri, a) == self.refracted(new_ri, b),
    {
        self.dir != 0 && new_ri != self.ri
    }

    /// Recomputes directions from the RI change at a boundary.
    ///
    /// Also does total internal reflection as needed.
    pub fn refract_into(&mut self, new_ri: u8, bend: Snells)
        requires
            old(self).wf(),
            bend.wf(),
        ensures
            *final(self) == old(self).refracted(new_ri, bend),
            final(self).wf(),
            final(self).ri == new_ri,
            final(self).x == old(self).x && final(self).y == old(self).y,
            new_ri == old(self).ri ==> final(self).dir == old(self).dir && final(self).going_down
                == old(self).going_down,
    {
        if self.dir == 0 || new_ri == self.ri {
            // no refraction happens
        } else {
            match bend {
                Snells::Refracted(angle) => {
                    self.dir = angle;
                },
                Snells::Reflected => {
                    self.dir = -self.dir;
                    self.going_down = !self.going_down;
                },
                Snells::Critical => {
                    self.dir = if self.dir > 0 {
                        RIGHT_ANGLE
                    } else {
                        -RIGHT_ANGLE
                    };
                    self.going_down = true;  // not really, but ah well
                },
            }
        }
        self.ri = new_ri;
    }

    /// Takes the heights of the boundaries above and below, moves the ray to
    /// the one ahead of it and outputs the vertical distance covered.
    pub fn travel_to_next_boundary(&mut self, up: Microns, down: Microns) -> (so_far: Microns)
        ensures
            *final(self) == old(self).travelled(up, down),
            so_far == distance(old(self).y as int, final(self).y as int),
    {
        let target: Microns = if self.going_down {
            down
        } else {
            up
        };
        let so_far: Microns = if self.y >= target {
            self.y - target
        } else {
            target - self.y
        };
        self.y = target;
        so_far
    }
}

} // verus!
