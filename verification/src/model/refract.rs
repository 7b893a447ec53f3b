//! What happens to a ray at the boundary between two media.

use vstd::prelude::*;
use crate::model::units::{model_ri_to_real_ri, Billionths, Microradians, RIGHT_ANGLE, WHOLE};

verus! {

/// The three outcomes of Snell's law at a boundary, `sin(new) = (n_old /
/// n_new) * sin(old)`, by the magnitude of that sine.
#[derive(Clone, Copy, Debug, PartialEq, Eq, Structural)]
pub enum Snells {
    /// Below one: the ray goes on into the new medium at the given incidence.
    Refracted(Microradians),
    /// Above one: total internal reflection.
    Reflected,
    /// Exactly one: the ray leaves along the boundary.
    Critical,
}

/// Whether `angle` can be an incidence to the normal: within a quarter turn
/// either way.
pub open spec fn is_incidence(angle: Microradians) -> bool {
    -RIGHT_ANGLE <= angle <= RIGHT_ANGLE
}

impl Snells {
    /// A refracted ray's incidence is an incidence.
    pub open spec fn wf(self) -> bool {
        self matches Snells::Refracted(angle) ==> is_incidence(angle)
    }

    /// Checks `wf`.
    pub fn is_valid(self) -> (ok: bool)
        ensures
            ok == self.wf(),
    {
        match self {
            Snells::Refracted(angle) => -RIGHT_ANGLE <= angle && angle <= RIGHT_ANGLE,
            _ => true,
        }
    }

    /// The same outcome, with a refracted ray's angle brought to the nearest
    /// incidence where it is none.
    pub open spec fn tamed(self) -> Snells {
        match self {
            Snells::Refracted(angle) => Snells::Refracted(
                if angle > RIGHT_ANGLE {
                    RIGHT_ANGLE
                } else if angle < -RIGHT_ANGLE {
                    (-RIGHT_ANGLE) as Microradians
                } else {
                    angle
                },
            ),
            _ => self,
        }
    }

    /// Makes an outcome well formed.
    pub fn tame(self) -> (bend: Snells)
        ensures
            bend == self.tamed(),
            bend.wf(),
            self.wf() ==> bend == self,
    {
        match self {
            Snells::Refracted(angle) => Snells::Refracted(
                if angle > RIGHT_ANGLE {
                    RIGHT_ANGLE
                } else if angle < -RIGHT_ANGLE {
                    -RIGHT_ANGLE
                } else {
                    angle
                },
            ),
            _ => self,
        }
    }
}

/// A sine brought to the nearest value that a sine can have.
pub open spec fn tamed_sine(sine: Billionths) -> Billionths {
    if sine > WHOLE {
        WHOLE
    } else if sine < -WHOLE {
        (-WHOLE) as Billionths
    } else {
        sine
    }
}

/// Size of a sine, whichever its sign.
pub open spec fn size(sine: Billionths) -> int {
    if sine < 0 {
        -sine
    } else {
        sine as int
    }
}

/// The sine of the new incidence by Snell's law, `(n_old / n_new) *
/// sin(old)`, cut to whole billionths: the two indices are those that the
/// codes stand for.
pub open spec fn new_sine(old_ri: u8, new_ri: u8, sine: Billionths) -> int {
    let cut = ((old_ri + 99) * size(sine)) / (new_ri + 99);
    if sine < 0 {
        -cut
    } else {
        cut
    }
}

/// `bend` is the outcome of Snell's law for a ray whose incidence has the
/// given sine, where it goes from a medium of index code `old_ri` to one of
/// code `new_ri`.
///
/// The size of the new sine is `n_old / n_new` times that of the old one.
/// Below one the ray is refracted, at an incidence that `arcsine` gives for
/// the new sine; above one it is reflected; at exactly one the angle is
/// critical.
pub open spec fn is_bend<A: Fn(Billionths) -> Microradians>(
    old_ri: u8,
    new_ri: u8,
    sine: Billionths,
    arcsine: A,
    bend: Snells,
) -> bool {
    let weight = (old_ri + 99) * size(sine);
    let limit = (new_ri + 99) * WHOLE;
    if weight < limit {
        exists|angle: Microradians| #[trigger]
            call_ensures(arcsine, (new_sine(old_ri, new_ri, sine) as Billionths,), angle) && bend
                == Snells::Refracted(angle).tamed()
    } else if weight > limit {
        bend == Snells::Reflected
    } else {
        bend == Snells::Critical
    }
}

/// Light that goes into a medium of no lower index is never reflected.
pub proof fn lemma_denser_never_reflects<A: Fn(Billionths) -> Microradians>(
    old_ri: u8,
    new_ri: u8,
    sine: Billionths,
    arcsine: A,
    bend: Snells,
)
    requires
        old_ri <= new_ri,
        -WHOLE <= sine <= WHOLE,
        is_bend(old_ri, new_ri, sine, arcsine, bend),
    ensures
        bend != Snells::Reflected,
        old_ri == new_ri ==> new_sine(old_ri, new_ri, sine) == sine,
{
    let old_index = old_ri + 99;
    let new_index = new_ri + 99;
    let s = size(sine);
    assert(old_index * s <= new_index * WHOLE) by (nonlinear_arith)
        requires
            0 < old_index <= new_index,
            0 <= s <= WHOLE,
    ;
    if old_ri == new_ri {
        assert((old_index * s) / old_index == s) by (nonlinear_arith)
            requires
                old_index > 0,
        ;
    }
}

/// Where the arcsine is a function, Snell's law has one outcome.
pub proof fn lemma_bend_unique<A: Fn(Billionths) -> Microradians>(
    old_ri: u8,
    new_ri: u8,
    sine: Billionths,
    arcsine: A,
    first: Snells,
    second: Snells,
)
    requires
        forall|s: Billionths, a: Microradians, b: Microradians|
            call_ensures(arcsine, (s,), a) && call_ensures(arcsine, (s,), b) ==> a == b,
        is_bend(old_ri, new_ri, sine, arcsine, first),
        is_bend(old_ri, new_ri, sine, arcsine, second),
    ensures
        first == second,
{
}

/// Calculates refraction between two mediums for a ray at a certain
/// incidence. `sine` and `arcsine` are asked for the sine of an angle and for
/// the angle of a sine; a sine or an angle out of range is brought to the
/// nearest in range.
pub fn snells<S: Fn(Microradians) -> Billionths, A: Fn(Billionths) -> Microradians>(
    old_ri: u8,
    new_ri: u8,
    incidence: Microradians,
    sine: &S,
    arcsine: &A,
) -> (bend: Snells)
    requires
        forall|angle: Microradians| call_requires(*sine, (angle,)),
        forall|s: Billionths| call_requires(*arcsine, (s,)),
    ensures
        bend.wf(),
        exists|s: Billionths| #[trigger]
            call_ensures(*sine, (incidence,), s) && is_bend(
                old_ri,
                new_ri,
                tamed_sine(s),
                *arcsine,
                bend,
            ),
{
    let raw: Billionths = sine(incidence);
    let old_sine: Billionths = if raw > WHOLE {
        WHOLE
    } else if raw < -WHOLE {
        -WHOLE
    } else {
        raw
    };
    let size: u64 = if old_sine < 0 {
        (-old_sine) as u64
    } else {
        old_sine as u64
    };
    let old_index: u64 = model_ri_to_real_ri(old_ri) as u64;
    let new_index: u64 = model_ri_to_real_ri(new_ri) as u64;
    assert(old_index * size <= 354 * 1_000_000_000) by (nonlinear_arith)
        requires
            old_index <= 354,
            size <= 1_000_000_000,
    ;
    let weight: u64 = old_index * size;
    let limit: u64 = new_index * (WHOLE as u64);
    proof {
        assert(size == self::size(tamed_sine(raw)));
        assert(weight == (old_ri + 99) * self::size(tamed_sine(raw)));
        assert(limit == (new_ri + 99) * WHOLE);
        let cut = weight as int / new_index as int;
        assert(0 <= cut <= weight) by (nonlinear_arith)
            requires
                cut == weight as int / new_index as int,
                new_index >= 99,
                weight >= 0,
        ;
    }
    let bend = if weight < limit {
        let cut: Billionths = (weight / new_index) as Billionths;
        let new_sine: Billionths = if old_sine < 0 {
            -cut
        } else {
            cut
        };
        assert(new_sine == self::new_sine(old_ri, new_ri, tamed_sine(raw)));
        Snells::Refracted(arcsine(new_sine)).tame()
    } else if weight > limit {
        Snells::Reflected
    } else {
        Snells::Critical
    };
    assert(is_bend(old_ri, new_ri, tamed_sine(raw), *arcsine, bend));
    bend
}

} // verus!
