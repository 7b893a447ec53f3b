//! The integer side of the ray-trace simulator: the geometry of a stack, the
//! decisions taken as one ray crosses it, and the reduction of all rays to
//! one performance record.
//!
//! The functions that follow rays take the law of refraction as a function
//! from the two index codes and the incidence to a [`refract::Snells`].
//! [`refract::snells`] is that law as Snell has it, for a caller who brings
//! the sine and the arcsine.

pub mod geo;
pub mod refract;
pub mod stack;
pub mod sweep;
pub mod trace;
pub mod units;

use vstd::prelude::*;
use crate::model::refract::{is_incidence, Snells};
use crate::model::stack::{layout_of, Layout, Stack};
use crate::model::sweep::SimConfig;
use crate::model::trace::{is_trace, lemma_trace_deterministic, obeys, trace_one, Traced};
use crate::model::units::Microradians;
use crate::paramset::ParamSet;

verus! {

/// What a sweep of rays through a stack comes to.
#[derive(Clone, Copy, Debug, PartialEq, Eq, Structural)]
pub struct Performance {
    /// Proportion of rays that exit at the bottom.
    ///
    /// Calculated as {bottom exit rays} * u32::MAX / {total rays}.
    ///
    /// Higher is better.
    pub exit_ratio: u32,
    /// Average of exit angles (to the normal) for rays that exit at the bottom.
    ///
    /// In 10000ths of a radian.
    ///
    /// Lower is better.
    pub exit_angle: u32,
    /// Total distance light travels inside the lens.
    ///
    /// In micrometres.
    ///
    /// Lower is better.
    pub light_travel: u32,
}

impl Performance {
    /// The score of a record: ten times the exit ratio, plus five times what
    /// the exit angle leaves of the full range, plus what the travel leaves
    /// of it.
    pub open spec fn score(self) -> int {
        10 * self.exit_ratio + 5 * (u32::MAX - self.exit_angle) + (u32::MAX - self.light_travel)
    }

    /// Reduces the record to one score, higher for better.
    pub fn summarise(self) -> (fitness: u64)
        ensures
            fitness == self.score(),
    {
        let one: u64 = self.exit_ratio as u64;
        let two: u64 = (u32::MAX - self.exit_angle) as u64;
        let three: u64 = (u32::MAX - self.light_travel) as u64;

        one * 10 + two * 5 + three
    }

    /// A higher exit ratio never lowers the score; nor does a lower exit
    /// angle or a shorter travel, the other two held fixed each time.
    pub proof fn lemma_score_monotonic(self, other: Performance)
        requires
            self.exit_ratio <= other.exit_ratio,
            self.exit_angle >= other.exit_angle,
            self.light_travel >= other.light_travel,
        ensures
            self.score() <= other.score(),
    {
    }
}

/// Size of an angle, whichever way it turns.
pub open spec fn magnitude(angle: Microradians) -> nat {
    if angle >= 0 {
        angle as nat
    } else {
        (-angle) as nat
    }
}

/// How many of the rays left through the bottom.
pub open spec fn bottomed(traces: Seq<Traced>) -> nat
    decreases traces.len(),
{
    if traces.len() == 0 {
        0
    } else {
        bottomed(traces.drop_last()) + if traces.last() is BottomExit {
            1nat
        } else {
            0nat
        }
    }
}

/// Sum of the sizes of the exit angles of the rays that left through the
/// bottom.
pub open spec fn total_angle(traces: Seq<Traced>) -> nat
    decreases traces.len(),
{
    if traces.len() == 0 {
        0
    } else {
        total_angle(traces.drop_last()) + match traces.last() {
            Traced::BottomExit { angle, .. } => magnitude(angle),
            _ => 0nat,
        }
    }
}

/// Sum of the distances travelled by the rays that left through the bottom.
pub open spec fn total_travel(traces: Seq<Traced>) -> nat
    decreases traces.len(),
{
    if traces.len() == 0 {
        0
    } else {
        total_travel(traces.drop_last()) + match traces.last() {
            Traced::BottomExit { travel, .. } => travel as nat,
            _ => 0nat,
        }
    }
}

/// `x`, or the largest `u32` where `x` is beyond it.
pub open spec fn capped(x: nat) -> u32 {
    if x > u32::MAX {
        u32::MAX
    } else {
        x as u32
    }
}

/// The record that a sweep of rays comes to.
///
/// The exit ratio is the share of rays that left through the bottom, scaled
/// to the range of `u32`. The exit angle is the mean size of their exit
/// angles, in 10000ths of a radian. The light travel is the sum of their
/// distances, capped at the largest `u32`. Where no ray left through the
/// bottom, angle and travel both take that largest value, the worst there is,
/// and a sweep of no rays at all has exit ratio zero.
pub open spec fn performance_of(traces: Seq<Traced>) -> Performance {
    let hits = bottomed(traces);
    Performance {
        exit_ratio: if traces.len() == 0 {
            0
        } else {
            capped((hits * u32::MAX / (traces.len() as int)) as nat)
        },
        exit_angle: if hits == 0 {
            u32::MAX
        } else {
            capped((total_angle(traces) / hits / 100) as nat)
        },
        light_travel: if hits == 0 {
            u32::MAX
        } else {
            capped(total_travel(traces))
        },
    }
}

/// No more rays leave through the bottom than there are.
pub proof fn lemma_bottomed_bound(traces: Seq<Traced>)
    ensures
        bottomed(traces) <= traces.len(),
        total_angle(traces) <= traces.len() * 0x8000_0000,
        total_travel(traces) <= traces.len() * u64::MAX,
    decreases traces.len(),
{
    if traces.len() > 0 {
        lemma_bottomed_bound(traces.drop_last());
    }
}

/// `x` as a `u32`, or the largest `u32` where `x` is beyond it.
fn cap(x: u128) -> (r: u32)
    ensures
        r == capped(x as nat),
{
    if x > u32::MAX as u128 {
        u32::MAX
    } else {
        x as u32
    }
}

/// Reduces the fates of all rays of a sweep to one record.
pub fn summarise_traces(traces: &Vec<Traced>) -> (p: Performance)
    ensures
        p == performance_of(traces@),
{
    let total_rays: usize = traces.len();
    let mut total_bottomed: u128 = 0;
    let mut angle_sum: u128 = 0;
    let mut travel_sum: u128 = 0;
    let mut i: usize = 0;
    while i < total_rays
        invariant
            i <= total_rays,
            total_rays == traces@.len(),
            total_bottomed == bottomed(traces@.take(i as int)),
            angle_sum == total_angle(traces@.take(i as int)),
            travel_sum == total_travel(traces@.take(i as int)),
        decreases total_rays - i,
    {
        proof {
            assert(traces@.take(i + 1).drop_last() =~= traces@.take(i as int));
            lemma_bottomed_bound(traces@.take(i + 1));
        }
        match traces[i] {
            Traced::BottomExit { angle, travel } => {
                let size: u128 = if angle >= 0 {
                    angle as u128
                } else {
                    (-(angle as i64)) as u128
                };
                total_bottomed = total_bottomed + 1;
                angle_sum = angle_sum + size;
                travel_sum = travel_sum + travel as u128;
            },
            _ => {},
        }
        i += 1;
    }
    proof {
        assert(traces@.take(total_rays as int) =~= traces@);
        lemma_bottomed_bound(traces@);
    }
    let exit_ratio: u32 = if total_rays == 0 {
        0
    } else {
        cap(total_bottomed * (u32::MAX as u128) / (total_rays as u128))
    };
    if total_bottomed == 0 {
        Performance { exit_ratio, exit_angle: u32::MAX, light_travel: u32::MAX }
    } else {
        Performance {
            exit_ratio,
            exit_angle: cap(angle_sum / total_bottomed / 100),
            light_travel: cap(travel_sum),
        }
    }
}

/// The fates of all rays of a sweep, entry point by entry point and, at each,
/// entry angle by entry angle.
pub open spec fn is_sweep<F: Fn(u8, u8, Microradians) -> Snells>(
    traces: Seq<Traced>,
    stack: Layout,
    config: SimConfig,
    snell: F,
) -> bool {
    &&& traces.len() == config.entry_count() * config.angle_count()
    &&& forall|k: int|
        0 <= k < traces.len() ==> is_trace(
            #[trigger] traces[k],
            stack,
            config.entry_point(k / config.angle_count()),
            config.entry_angle(k % config.angle_count()),
            config.max_crossings,
            snell,
        )
}

/// Sends the rays of a sweep through the stack of a design and reduces their
/// fates to one record. `snell` is asked for the outcome of Snell's law at
/// each boundary that a ray meets.
pub fn raytrace<F: Fn(u8, u8, Microradians) -> Snells>(
    params: ParamSet,
    config: &SimConfig,
    snell: &F,
) -> (performance: Performance)
    requires
        config.wf(),
        forall|old_ri: u8, new_ri: u8, dir: Microradians|
            call_requires(*snell, (old_ri, new_ri, dir)),
    ensures
        exists|traces: Seq<Traced>| #[trigger]
            is_sweep(traces, layout_of(params@, config.layer_base), *config, *snell)
                && performance == performance_of(traces),
{
    let stack = Stack::new(params, config.layer_base);
    let points = config.entry_points();
    let angles = config.entry_angles();
    let mut traces: Vec<Traced> = Vec::new();

    let ghost columns = angles@.len() as int;
    let mut i: usize = 0;
    assert(0 * columns == 0) by (nonlinear_arith);
    while i < points.len()
        invariant
            i <= points@.len(),
            config.wf(),
            columns == angles@.len() == config.angle_count(),
            stack@ == layout_of(params@, config.layer_base),
            forall|i: int| 0 <= i < points@.len() ==> #[trigger] points@[i] == config.entry_point(i),
            forall|j: int| 0 <= j < angles@.len() ==> #[trigger] angles@[j] == config.entry_angle(j),
            forall|j: int| 0 <= j < angles@.len() ==> is_incidence(#[trigger] angles@[j]),
            forall|old_ri: u8, new_ri: u8, dir: Microradians|
                call_requires(*snell, (old_ri, new_ri, dir)),
            traces@.len() == i * columns,
            forall|k: int|
                0 <= k < traces@.len() ==> is_trace(
                    #[trigger] traces@[k],
                    stack@,
                    config.entry_point(k / columns),
                    config.entry_angle(k % columns),
                    config.max_crossings,
                    *snell,
                ),
        decreases points@.len() - i,
    {
        let mut j: usize = 0;
        while j < angles.len()
            invariant
                i < points@.len(),
                j <= angles@.len(),
                config.wf(),
                columns == angles@.len() == config.angle_count(),
                stack@ == layout_of(params@, config.layer_base),
                points@[i as int] == config.entry_point(i as int),
                forall|j: int|
                    0 <= j < angles@.len() ==> #[trigger] angles@[j] == config.entry_angle(j),
                forall|j: int| 0 <= j < angles@.len() ==> is_incidence(#[trigger] angles@[j]),
                forall|old_ri: u8, new_ri: u8, dir: Microradians|
                    call_requires(*snell, (old_ri, new_ri, dir)),
                traces@.len() == i * columns + j,
                forall|k: int|
                    0 <= k < traces@.len() ==> is_trace(
                        #[trigger] traces@[k],
                        stack@,
                        config.entry_point(k / columns),
                        config.entry_angle(k % columns),
                        config.max_crossings,
                        *snell,
                    ),
            decreases angles@.len() - j,
        {
            let traced = trace_one(&stack, points[i], angles[j], config.max_crossings, snell);
            proof {
                let k = traces@.len() as int;
                vstd::arithmetic::div_mod::lemma_fundamental_div_mod_converse(
                    k,
                    columns,
                    i as int,
                    j as int,
                );
            }
            traces.push(traced);
            j += 1;
        }
        proof {
            assert((i + 1) * columns == i * columns + columns) by (nonlinear_arith);
        }
        i += 1;
    }
    assert(is_sweep(traces@, layout_of(params@, config.layer_base), *config, *snell));
    summarise_traces(&traces)
}

/// Where Snell's law is a function, two sweeps of the same stack over the
/// same grid see the same fates and come to the same record.
pub proof fn lemma_sweep_deterministic<F: Fn(u8, u8, Microradians) -> Snells>(
    first: Seq<Traced>,
    second: Seq<Traced>,
    stack: Layout,
    config: SimConfig,
    snell: F,
    law: spec_fn(u8, u8, Microradians) -> Snells,
)
    requires
        obeys(snell, law),
        is_sweep(first, stack, config, snell),
        is_sweep(second, stack, config, snell),
    ensures
        first == second,
        performance_of(first) == performance_of(second),
{
    assert forall|k: int| 0 <= k < first.len() implies first[k] == second[k] by {
        lemma_trace_deterministic(
            first[k],
            second[k],
            stack,
            config.entry_point(k / config.angle_count()),
            config.entry_angle(k % config.angle_count()),
            config.max_crossings,
            snell,
            law,
        );
    }
    assert(first =~= second);
}

/// Where Snell's law is a function, `raytrace` has one answer: two records
/// that it can return for the same design over the same grid are the same.
pub proof fn lemma_raytrace_deterministic<F: Fn(u8, u8, Microradians) -> Snells>(
    first: Performance,
    second: Performance,
    params: ParamSet,
    config: SimConfig,
    snell: F,
    law: spec_fn(u8, u8, Microradians) -> Snells,
)
    requires
        obeys(snell, law),
        exists|traces: Seq<Traced>| #[trigger]
            is_sweep(traces, layout_of(params@, config.layer_base), config, snell) && first
                == performance_of(traces),
        exists|traces: Seq<Traced>| #[trigger]
            is_sweep(traces, layout_of(params@, config.layer_base), config, snell) && second
                == performance_of(traces),
    ensures
        first == second,
{
    let stack = layout_of(params@, config.layer_base);
    let a = choose|traces: Seq<Traced>| #[trigger]
        is_sweep(traces, stack, config, snell) && first == performance_of(traces);
    let b = choose|traces: Seq<Traced>| #[trigger]
        is_sweep(traces, stack, config, snell) && second == performance_of(traces);
    lemma_sweep_deterministic(a, b, stack, config, snell, law);
}

} // verus!
