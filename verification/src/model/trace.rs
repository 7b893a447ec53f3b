//! One ray on its way through a stack, boundary by boundary.

use vstd::prelude::*;
use crate::model::geo::Pos;
use crate::model::refract::{is_incidence, Snells};
use crate::model::stack::{Layout, Place, Stack};
use crate::model::units::{sat_add, sat_sub, Microns, Microradians, RI_AIR};
use crate::paramset::distance;

verus! {

/// How a ray left the stack.
#[derive(Clone, Copy, Debug, PartialEq, Eq, Structural)]
pub enum Traced {
    /// Back out through the top.
    TopExit,
    /// Out through the bottom, at the given incidence to the normal and after
    /// the given distance inside the stack.
    BottomExit { angle: Microradians, travel: Microns },
    /// Still inside after as many boundaries as the sweep allows a ray.
    Lost,
}

/// What a trace waits for.
#[derive(Clone, Copy, Debug, PartialEq, Eq, Structural)]
pub enum Step {
    /// The ray stands at a boundary, in a medium of index `old_ri`, heading
    /// at incidence `dir` for a medium of index `new_ri`: the trace goes on
    /// once Snell's law is worked out for these three.
    Refract { old_ri: u8, new_ri: u8, dir: Microradians },
    /// The ray has left the stack.
    Done(Traced),
}

/// One ray on its way through a stack, standing at the boundary it reached
/// last.
#[derive(Clone, Copy, Debug, PartialEq, Eq, Structural)]
pub struct Tracer {
    /// The ray.
    pub ray: Pos,
    /// The place it is in.
    pub place: Place,
    /// Height of the boundary over that place.
    pub boundary_above: Microns,
    /// Height of the boundary under that place.
    pub boundary_below: Microns,
    /// Distance covered inside the stack so far.
    pub travel: Microns,
    /// How the ray left, once it has.
    pub result: Option<Traced>,
}

impl Tracer {
    /// The ray's direction is an incidence, the stack has the place the ray
    /// is in, and as long as the ray has not left there is a place ahead of
    /// it.
    pub open spec fn wf(self, stack: Layout) -> bool {
        &&& self.ray.wf()
        &&& stack.holds(self.place)
        &&& self.result is None ==> stack.ahead(self.place, self.ray.going_down) is Some
    }

    /// How a ray that has just reached a boundary has left the stack, if it
    /// has: through the top where it is over the stack, or level with its top
    /// and heading up; through the bottom where it is at height zero; and
    /// where nothing lies ahead of it, through the side it is heading for.
    pub open spec fn exit(self, stack: Layout) -> Option<Traced> {
        let bottom = Traced::BottomExit { angle: self.ray.dir, travel: self.travel };
        if self.ray.y > stack.height || (self.ray.y == stack.height && !self.ray.going_down) {
            Some(Traced::TopExit)
        } else if self.ray.y == 0 {
            Some(bottom)
        } else if stack.ahead(self.place, self.ray.going_down) is Some {
            None
        } else if self.ray.going_down {
            Some(bottom)
        } else {
            Some(Traced::TopExit)
        }
    }

    /// The trace of a ray that comes down through the air onto the top of
    /// the stack, at `entry_point` from the left and at incidence
    /// `entry_angle`. Over a stack of no layers it is through at once, with
    /// nothing travelled.
    pub open spec fn started(stack: Layout, entry_point: Microns, entry_angle: Microradians) -> Tracer {
        let t = Tracer {
            ray: Pos {
                x: entry_point,
                y: stack.height,
                ri: RI_AIR,
                dir: entry_angle,
                going_down: true,
            },
            place: Place::Above,
            boundary_above: stack.height,
            boundary_below: stack.height,
            travel: 0,
            result: None,
        };
        Tracer { result: t.exit(stack), ..t }
    }

    /// Puts a ray on top of the stack.
    pub fn start(stack: &Stack, entry_point: Microns, entry_angle: Microradians) -> (t: Tracer)
        requires
            is_incidence(entry_angle),
        ensures
            t == Tracer::started(stack@, entry_point, entry_angle),
            t.wf(stack@),
    {
        let mut t = Tracer {
            ray: Pos {
                x: entry_point,
                y: stack.height,
                ri: RI_AIR,
                dir: entry_angle,
                going_down: true,
            },
            place: Place::Above,
            boundary_above: stack.height,
            boundary_below: stack.height,
            travel: 0,
            result: None,
        };
        t.result = t.find_exit(stack);
        t
    }

    /// Computes `exit`.
    fn find_exit(&self, stack: &Stack) -> (out: Option<Traced>)
        requires
            stack@.holds(self.place),
        ensures
            out == self.exit(stack@),
            out is None ==> stack@.ahead(self.place, self.ray.going_down) is Some,
    {
        let bottom = Traced::BottomExit { angle: self.ray.dir, travel: self.travel };
        if self.ray.y > stack.height || (self.ray.y == stack.height && !self.ray.going_down) {
            Some(Traced::TopExit)
        } else if self.ray.y == 0 {
            Some(bottom)
        } else if stack.next_place(self.place, self.ray.going_down).is_some() {
            None
        } else if self.ray.going_down {
            Some(bottom)
        } else {
            Some(Traced::TopExit)
        }
    }

    /// What the trace waits for: the refraction at the boundary where the
    /// ray stands, or nothing more.
    pub open spec fn pending(self, stack: Layout) -> Step {
        match self.result {
            Some(traced) => Step::Done(traced),
            None => Step::Refract {
                old_ri: self.ray.ri,
                new_ri: stack.medium(stack.ahead(self.place, self.ray.going_down).unwrap()),
                dir: self.ray.dir,
            },
        }
    }

    /// Says what the trace waits for.
    pub fn next(&self, stack: &Stack) -> (step: Step)
        requires
            self.wf(stack@),
        ensures
            step == self.pending(stack@),
    {
        match self.result {
            Some(traced) => Step::Done(traced),
            None => {
                let target = stack.next_place(self.place, self.ray.going_down).unwrap();
                Step::Refract {
                    old_ri: self.ray.ri,
                    new_ri: stack.medium_of(target),
                    dir: self.ray.dir,
                }
            },
        }
    }

    /// The trace after the refraction it waited for came out as `bend`.
    ///
    /// The ray is refracted into the medium ahead. Where it still heads the
    /// same way up or down, it has crossed the boundary: it is in the place
    /// ahead, whose boundaries lie one thickness apart from where it stands.
    /// Where it has turned round, it has not crossed: it stays in its place
    /// and in its medium, between the same boundaries. Either way it then
    /// goes to the boundary now ahead of it, the vertical distance is added
    /// to its travel, and it is seen whether it has left the stack there.
    pub open spec fn advanced(self, stack: Layout, bend: Snells) -> Tracer {
        let target = stack.ahead(self.place, self.ray.going_down).unwrap();
        let bent = self.ray.refracted(stack.medium(target), bend);
        let crossed = bent.going_down == self.ray.going_down;
        let ray = if crossed {
            bent
        } else {
            Pos { ri: self.ray.ri, ..bent }
        };
        let above = if !crossed {
            self.boundary_above
        } else if ray.going_down {
            ray.y
        } else {
            sat_add(ray.y as int, stack.thickness(target) as int) as Microns
        };
        let below = if !crossed {
            self.boundary_below
        } else if ray.going_down {
            sat_sub(ray.y as int, stack.thickness(target) as int) as Microns
        } else {
            ray.y
        };
        let moved = ray.travelled(above, below);
        let t = Tracer {
            ray: moved,
            place: if crossed {
                target
            } else {
                self.place
            },
            boundary_above: above,
            boundary_below: below,
            travel: sat_add(self.travel as int, distance(ray.y as int, moved.y as int)) as Microns,
            result: None,
        };
        Tracer { result: t.exit(stack), ..t }
    }

    /// Takes the trace on by one boundary, given the refraction it waited
    /// for.
    pub fn advance(&mut self, stack: &Stack, bend: Snells)
        requires
            old(self).wf(stack@),
            old(self).result is None,
            bend.wf(),
        ensures
            *final(self) == old(self).advanced(stack@, bend),
            final(self).wf(stack@),
            final(self).travel >= old(self).travel,
            final(self).ray.x == old(self).ray.x,
    {
        let target = stack.next_place(self.place, self.ray.going_down).unwrap();
        let came_from: u8 = self.ray.ri;
        let was_going_down: bool = self.ray.going_down;
        self.ray.refract_into(stack.medium_of(target), bend);
        if self.ray.going_down == was_going_down {
            let thickness: Microns = stack.thickness_of(target);
            self.place = target;
            if self.ray.going_down {
                self.boundary_above = self.ray.y;
                self.boundary_below = self.ray.y.saturating_sub(thickness);
            } else {
                self.boundary_above = self.ray.y.saturating_add(thickness);
                self.boundary_below = self.ray.y;
            }
        } else {
            self.ray.ri = came_from;
        }
        let so_far = self.ray.travel_to_next_boundary(self.boundary_above, self.boundary_below);
        self.travel = self.travel.saturating_add(so_far);
        self.result = self.find_exit(stack);
    }
}

/// `bend` is an answer that `snell` can give where it is asked for the
/// refraction that the trace `t` waits for.
pub open spec fn answers<F: Fn(u8, u8, Microradians) -> Snells>(
    snell: F,
    t: Tracer,
    stack: Layout,
    bend: Snells,
) -> bool {
    match t.pending(stack) {
        Step::Refract { old_ri, new_ri, dir } => call_ensures(snell, (old_ri, new_ri, dir), bend),
        Step::Done(_) => false,
    }
}

/// The trace `next` is the trace `prev` taken on by one boundary, with an
/// answer of `snell` for the refraction.
pub open spec fn follows<F: Fn(u8, u8, Microradians) -> Snells>(
    prev: Tracer,
    next: Tracer,
    stack: Layout,
    snell: F,
) -> bool {
    exists|bend: Snells| #[trigger]
        answers(snell, prev, stack, bend) && next == prev.advanced(stack, bend.tamed())
}

/// `trail` is the course of one ray from its start on top of the stack, one
/// boundary at a time, every refraction answered by `snell`.
pub open spec fn is_run<F: Fn(u8, u8, Microradians) -> Snells>(
    trail: Seq<Tracer>,
    stack: Layout,
    entry_point: Microns,
    entry_angle: Microradians,
    snell: F,
) -> bool {
    &&& trail.len() >= 1
    &&& trail[0] == Tracer::started(stack, entry_point, entry_angle)
    &&& forall|k: int|
        0 <= k < trail.len() - 1 ==> follows(#[trigger] trail[k], trail[k + 1], stack, snell)
}

/// `traced` is the fate of a ray: there is a course of it that ends with the
/// ray out of the stack that way and after at most `max_crossings`
/// boundaries, or one of exactly `max_crossings` boundaries with the ray
/// still inside, which is then given up as lost.
pub open spec fn is_trace<F: Fn(u8, u8, Microradians) -> Snells>(
    traced: Traced,
    stack: Layout,
    entry_point: Microns,
    entry_angle: Microradians,
    max_crossings: u32,
    snell: F,
) -> bool {
    exists|trail: Seq<Tracer>| #[trigger]
        is_run(trail, stack, entry_point, entry_angle, snell) && trail.len() <= max_crossings + 1
            && match trail.last().result {
            Some(fate) => traced == fate,
            None => trail.len() == max_crossings + 1 && traced == Traced::Lost,
        }
}

/// Follows one ray through the stack. `snell` is asked for the outcome of
/// Snell's law at each boundary: the index codes of the old and the new
/// medium and the incidence go in.
pub fn trace_one<F: Fn(u8, u8, Microradians) -> Snells>(
    stack: &Stack,
    entry_point: Microns,
    entry_angle: Microradians,
    max_crossings: u32,
    snell: &F,
) -> (traced: Traced)
    requires
        is_incidence(entry_angle),
        forall|old_ri: u8, new_ri: u8, dir: Microradians|
            call_requires(*snell, (old_ri, new_ri, dir)),
    ensures
        is_trace(traced, stack@, entry_point, entry_angle, max_crossings, *snell),
{
    let mut t = Tracer::start(stack, entry_point, entry_angle);
    let ghost mut trail: Seq<Tracer> = seq![t];
    let mut crossings: u32 = 0;
    while crossings < max_crossings
        invariant
            crossings <= max_crossings,
            t.wf(stack@),
            is_run(trail, stack@, entry_point, entry_angle, *snell),
            trail.len() == crossings + 1,
            trail.last() == t,
            forall|old_ri: u8, new_ri: u8, dir: Microradians|
                call_requires(*snell, (old_ri, new_ri, dir)),
        decreases max_crossings - crossings,
    {
        match t.next(stack) {
            Step::Done(traced) => {
                return traced;
            },
            Step::Refract { old_ri, new_ri, dir } => {
                let bend = snell(old_ri, new_ri, dir);
                let ghost before = t;
                t.advance(stack, bend.tame());
                proof {
                    let longer = trail.push(t);
                    assert(answers(*snell, before, stack@, bend));
                    assert(follows(before, t, stack@, *snell));
                    assert forall|k: int| 0 <= k < longer.len() - 1 implies follows(
                        #[trigger] longer[k],
                        longer[k + 1],
                        stack@,
                        *snell,
                    ) by {
                        if k < trail.len() - 1 {
                            assert(longer[k] == trail[k] && longer[k + 1] == trail[k + 1]);
                        }
                    }
                    trail = longer;
                }
            },
        }
        crossings += 1;
    }
    match t.result {
        Some(traced) => traced,
        None => Traced::Lost,
    }
}

impl Tracer {
    /// The trace is where its place is: between the boundaries of the
    /// place, the ray on the one it is heading for.
    pub open spec fn aligned(self, stack: Layout) -> bool {
        &&& self.boundary_above == stack.top_of(self.place)
        &&& self.boundary_below == stack.bottom_of(self.place)
        &&& self.ray.y == if self.ray.going_down {
            self.boundary_below
        } else {
            self.boundary_above
        }
    }

    /// In an exact stack, a ray that has reached the boundary ahead of it
    /// has left the stack exactly where no place lies ahead: through the top
    /// where it heads up, level with the top; through the bottom where it
    /// heads down, at height zero.
    pub proof fn lemma_exit(self, stack: Layout)
        requires
            stack.exact(),
            stack.holds(self.place),
            self.aligned(stack),
        ensures
            self.exit(stack) is None <==> stack.ahead(self.place, self.ray.going_down) is Some,
            self.exit(stack) == Some(Traced::TopExit) <==> !self.ray.going_down && stack.ahead(
                self.place,
                false,
            ) is None,
            self.exit(stack) == Some(Traced::TopExit) ==> self.ray.y == stack.height,
            self.exit(stack) is Some && self.exit(stack) != Some(Traced::TopExit) ==> self.ray.y
                == 0 && self.exit(stack) == Some(
                Traced::BottomExit { angle: self.ray.dir, travel: self.travel },
            ),
    {
        stack.lemma_places(self.place);
    }

    /// A ray put on top of an exact stack is aligned.
    pub proof fn lemma_started_aligned(
        stack: Layout,
        entry_point: Microns,
        entry_angle: Microradians,
    )
        requires
            stack.exact(),
        ensures
            Tracer::started(stack, entry_point, entry_angle).aligned(stack),
    {
    }

    /// In an exact stack a trace stays aligned as it is taken on, and every
    /// boundary it is taken to lies a whole place further on: the travel
    /// grows by the thickness of the place gone through.
    pub proof fn lemma_advanced_aligned(self, stack: Layout, bend: Snells)
        requires
            stack.exact(),
            self.wf(stack),
            self.aligned(stack),
            self.result is None,
            bend.wf(),
        ensures
            self.advanced(stack, bend).aligned(stack),
            self.advanced(stack, bend).travel == sat_add(
                self.travel as int,
                stack.thickness(self.advanced(stack, bend).place) as int,
            ),
    {
        let target = stack.ahead(self.place, self.ray.going_down).unwrap();
        stack.lemma_places(self.place);
        stack.lemma_places(target);
    }
}

/// In an exact stack every trace along the course of a ray is well formed
/// and aligned. A ray that has left through the top has left level with the
/// top, heading up; one that has left through the bottom has left at height
/// zero. The travel never shrinks.
pub proof fn lemma_run_aligned<F: Fn(u8, u8, Microradians) -> Snells>(
    trail: Seq<Tracer>,
    stack: Layout,
    entry_point: Microns,
    entry_angle: Microradians,
    snell: F,
    k: int,
)
    requires
        stack.exact(),
        is_incidence(entry_angle),
        is_run(trail, stack, entry_point, entry_angle, snell),
        0 <= k < trail.len(),
    ensures
        trail[k].wf(stack),
        trail[k].aligned(stack),
        trail[k].result == Some(Traced::TopExit) ==> trail[k].ray.y == stack.height
            && !trail[k].ray.going_down,
        trail[k].result matches Some(Traced::BottomExit { angle, travel }) ==> trail[k].ray.y == 0
            && angle == trail[k].ray.dir && travel == trail[k].travel,
        trail[k].result != Some(Traced::Lost),
        k > 0 ==> trail[k - 1].result is None && trail[k].travel >= trail[k - 1].travel,
    decreases k,
{
    if k == 0 {
        trail[0].lemma_exit(stack);
    } else {
        lemma_run_aligned(trail, stack, entry_point, entry_angle, snell, k - 1);
        let before = trail[k - 1];
        assert(follows(before, trail[k - 1 + 1], stack, snell));
        let bend = choose|bend: Snells| #[trigger]
            answers(snell, before, stack, bend) && trail[k] == before.advanced(
                stack,
                bend.tamed(),
            );
        before.lemma_advanced_aligned(stack, bend.tamed());
        trail[k].lemma_exit(stack);
    }
}

/// How many boundaries lie between the air over the stack and a place.
pub open spec fn depth(place: Place) -> int {
    match place {
        Place::Above => 0,
        Place::Partition(k) => 2 * k + 1,
        Place::Layer(k) => 2 * k + 2,
    }
}

/// As long as a ray in an exact stack is never turned back, every boundary it
/// reaches lies one place deeper, and it has travelled as far as it has come
/// down.
pub proof fn lemma_descent<F: Fn(u8, u8, Microradians) -> Snells>(
    trail: Seq<Tracer>,
    stack: Layout,
    entry_point: Microns,
    entry_angle: Microradians,
    snell: F,
    k: int,
)
    requires
        stack.exact(),
        is_incidence(entry_angle),
        is_run(trail, stack, entry_point, entry_angle, snell),
        0 <= k < trail.len(),
        forall|j: int| 0 <= j <= k ==> (#[trigger] trail[j]).ray.going_down,
    ensures
        depth(trail[k].place) == k,
        trail[k].travel == stack.height - trail[k].ray.y,
        trail[k].result is None <==> k < 2 * stack.layers.len(),
        trail[k].result matches Some(fate) ==> fate == (Traced::BottomExit {
            angle: trail[k].ray.dir,
            travel: stack.height,
        }),
    decreases k,
{
    lemma_run_aligned(trail, stack, entry_point, entry_angle, snell, k);
    if k == 0 {
        trail[0].lemma_exit_on_the_way_down(stack);
    } else {
        lemma_descent(trail, stack, entry_point, entry_angle, snell, k - 1);
        lemma_run_aligned(trail, stack, entry_point, entry_angle, snell, k - 1);
        let before = trail[k - 1];
        assert(follows(before, trail[k - 1 + 1], stack, snell));
        let bend = choose|bend: Snells| #[trigger]
            answers(snell, before, stack, bend) && trail[k] == before.advanced(
                stack,
                bend.tamed(),
            );
        before.lemma_step_down(stack, bend.tamed());
        trail[k].lemma_exit_on_the_way_down(stack);
    }
}

/// A ray that comes in along the normal stays on it, heading down.
pub proof fn lemma_normal_run<F: Fn(u8, u8, Microradians) -> Snells>(
    trail: Seq<Tracer>,
    stack: Layout,
    entry_point: Microns,
    snell: F,
    k: int,
)
    requires
        is_run(trail, stack, entry_point, 0, snell),
        0 <= k < trail.len(),
    ensures
        trail[k].ray.dir == 0,
        trail[k].ray.going_down,
    decreases k,
{
    if k > 0 {
        lemma_normal_run(trail, stack, entry_point, snell, k - 1);
        assert(follows(trail[k - 1], trail[k - 1 + 1], stack, snell));
    }
}

/// A ray that comes in along the normal leaves an exact stack through the
/// bottom, along the normal and after the full height, as long as it is
/// allowed two boundaries for each layer.
pub proof fn lemma_normal_ray<F: Fn(u8, u8, Microradians) -> Snells>(
    traced: Traced,
    stack: Layout,
    entry_point: Microns,
    max_crossings: u32,
    snell: F,
)
    requires
        stack.exact(),
        max_crossings >= 2 * stack.layers.len(),
        is_trace(traced, stack, entry_point, 0, max_crossings, snell),
    ensures
        traced == (Traced::BottomExit { angle: 0, travel: stack.height }),
{
    let trail = choose|trail: Seq<Tracer>| #[trigger]
        is_run(trail, stack, entry_point, 0, snell) && trail.len() <= max_crossings + 1
            && match trail.last().result {
            Some(fate) => traced == fate,
            None => trail.len() == max_crossings + 1 && traced == Traced::Lost,
        };
    let last = trail.len() - 1;
    assert forall|j: int| 0 <= j <= last implies (#[trigger] trail[j]).ray.going_down by {
        lemma_normal_run(trail, stack, entry_point, snell, j);
    }
    lemma_normal_run(trail, stack, entry_point, snell, last);
    lemma_descent(trail, stack, entry_point, 0, snell, last);
}

impl Tracer {
    /// In an exact stack, a ray that heads down before and after a boundary
    /// is one place deeper at the next, and has travelled as far as it has
    /// come down.
    pub proof fn lemma_step_down(self, stack: Layout, bend: Snells)
        requires
            stack.exact(),
            self.wf(stack),
            self.aligned(stack),
            self.result is None,
            bend.wf(),
            self.ray.going_down,
            self.advanced(stack, bend).ray.going_down,
            self.travel == stack.height - self.ray.y,
        ensures
            depth(self.advanced(stack, bend).place) == depth(self.place) + 1,
            self.advanced(stack, bend).travel == stack.height - self.advanced(stack, bend).ray.y,
    {
        let target = stack.ahead(self.place, true).unwrap();
        self.lemma_advanced_aligned(stack, bend);
        stack.lemma_places(self.place);
        stack.lemma_places(target);
        assert(self.advanced(stack, bend).place == target);
    }

    /// In an exact stack, a ray that has come down to a boundary has left
    /// the stack there exactly if that was the last boundary, and then
    /// through the bottom.
    pub proof fn lemma_exit_on_the_way_down(self, stack: Layout)
        requires
            stack.exact(),
            stack.holds(self.place),
            self.aligned(stack),
            self.ray.going_down,
        ensures
            self.exit(stack) is None <==> depth(self.place) < 2 * stack.layers.len(),
            self.exit(stack) matches Some(fate) ==> self.ray.y == 0 && fate == (Traced::BottomExit {
                angle: self.ray.dir,
                travel: self.travel,
            }),
    {
        stack.lemma_places(self.place);
    }
}

/// `snell` works as a function: whatever it is asked, it has the one answer
/// that `law` gives.
pub open spec fn obeys<F: Fn(u8, u8, Microradians) -> Snells>(
    snell: F,
    law: spec_fn(u8, u8, Microradians) -> Snells,
) -> bool {
    forall|old_ri: u8, new_ri: u8, dir: Microradians, bend: Snells| #[trigger]
        call_ensures(snell, (old_ri, new_ri, dir), bend) ==> bend == law(old_ri, new_ri, dir)
}

/// Where Snell's law is a function, two courses of the same ray agree as far
/// as both go.
pub proof fn lemma_runs_agree<F: Fn(u8, u8, Microradians) -> Snells>(
    a: Seq<Tracer>,
    b: Seq<Tracer>,
    stack: Layout,
    entry_point: Microns,
    entry_angle: Microradians,
    snell: F,
    law: spec_fn(u8, u8, Microradians) -> Snells,
    k: int,
)
    requires
        obeys(snell, law),
        is_run(a, stack, entry_point, entry_angle, snell),
        is_run(b, stack, entry_point, entry_angle, snell),
        0 <= k < a.len(),
        k < b.len(),
    ensures
        a[k] == b[k],
    decreases k,
{
    if k > 0 {
        lemma_runs_agree(a, b, stack, entry_point, entry_angle, snell, law, k - 1);
        assert(follows(a[k - 1], a[k - 1 + 1], stack, snell));
        assert(follows(b[k - 1], b[k - 1 + 1], stack, snell));
    }
}

/// Where Snell's law is a function, a ray has one fate.
pub proof fn lemma_trace_deterministic<F: Fn(u8, u8, Microradians) -> Snells>(
    first: Traced,
    second: Traced,
    stack: Layout,
    entry_point: Microns,
    entry_angle: Microradians,
    max_crossings: u32,
    snell: F,
    law: spec_fn(u8, u8, Microradians) -> Snells,
)
    requires
        obeys(snell, law),
        is_trace(first, stack, entry_point, entry_angle, max_crossings, snell),
        is_trace(second, stack, entry_point, entry_angle, max_crossings, snell),
    ensures
        first == second,
{
    let a = choose|trail: Seq<Tracer>| #[trigger]
        is_run(trail, stack, entry_point, entry_angle, snell) && trail.len() <= max_crossings + 1
            && match trail.last().result {
            Some(fate) => first == fate,
            None => trail.len() == max_crossings + 1 && first == Traced::Lost,
        };
    let b = choose|trail: Seq<Tracer>| #[trigger]
        is_run(trail, stack, entry_point, entry_angle, snell) && trail.len() <= max_crossings + 1
            && match trail.last().result {
            Some(fate) => second == fate,
            None => trail.len() == max_crossings + 1 && second == Traced::Lost,
        };
    let n = if a.len() <= b.len() {
        a.len() as int
    } else {
        b.len() as int
    };
    lemma_runs_agree(a, b, stack, entry_point, entry_angle, snell, law, n - 1);
    if a.len() < b.len() {
        assert(follows(b[n - 1], b[n - 1 + 1], stack, snell));
    } else if b.len() < a.len() {
        assert(follows(a[n - 1], a[n - 1 + 1], stack, snell));
    }
}

} // verus!
