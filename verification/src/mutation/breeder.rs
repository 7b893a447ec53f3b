//! Bounded mutation: each point mutation moves the byte at a locus by a
//! coarse or a fine step, up or down, and brings the result back into the
//! bounds.

use vstd::prelude::*;
use genevo::random::Prng;
use crate::mutation::{
    applied,
    apply_value,
    keeps,
    lemma_applied_keeps,
    lemma_applied_wf,
    old_value,
    value_at,
    LOCUS_COUNT,
};
use crate::paramset::{Design, ParamSet};
use crate::mutation::random::{draw, is_draw};
use crate::rng::{pick_one, random_index};

verus! {

/// Where a step takes each byte: one table for each of the four steps, coarse
/// or fine and up or down, indexed by the byte stepped from.
///
/// The steps are those of the breeder's value mutation for a given range and
/// precision; working them out takes real arithmetic and is left to the
/// caller.
#[derive(Clone, Copy, Debug, PartialEq, Eq)]
pub struct BreederSteps {
    /// The coarse step up.
    pub up: [u8; 256],
    /// The coarse step down.
    pub down: [u8; 256],
    /// The fine step up.
    pub fine_up: [u8; 256],
    /// The fine step down.
    pub fine_down: [u8; 256],
}

impl BreederSteps {
    /// Where the step of the given size and sign takes `old`.
    pub open spec fn stepped(self, old: u8, sign: i8, fine: bool) -> u8 {
        if fine {
            if sign < 0 {
                self.fine_down@[old as int]
            } else {
                self.fine_up@[old as int]
            }
        } else {
            if sign < 0 {
                self.down@[old as int]
            } else {
                self.up@[old as int]
            }
        }
    }

    /// Looks a step up.
    pub fn step(&self, old: u8, sign: i8, fine: bool) -> (value: u8)
        ensures
            value == self.stepped(old, sign, fine),
    {
        let at: usize = old as usize;
        if fine {
            if sign < 0 {
                self.fine_down[at]
            } else {
                self.fine_up[at]
            }
        } else {
            if sign < 0 {
                self.down[at]
            } else {
                self.up[at]
            }
        }
    }
}

/// Whether `new` may be written for a stepped value: the stepped value
/// itself where it lies within the bounds, the upper bound where it lies
/// above them, any byte that can be drawn within them where it lies below
/// them.
pub open spec fn settles(stepped: u8, min_value: u8, max_value: u8, new: u8) -> bool {
    if stepped < min_value {
        is_draw(min_value, max_value, new)
    } else if stepped > max_value {
        new == max_value
    } else {
        new == stepped
    }
}

/// Brings a stepped value back into the bounds: one above them becomes the
/// upper bound, one below them is replaced by a draw within them.
pub fn settle(stepped: u8, min_value: u8, max_value: u8, rng: &mut Prng) -> (new: u8)
    requires
        min_value <= max_value,
    ensures
        settles(stepped, min_value, max_value, new),
        min_value <= new <= max_value,
{
    if stepped < min_value {
        draw(stepped, min_value, max_value, rng)
    } else if stepped > max_value {
        max_value
    } else {
        stepped
    }
}

/// Whether some step from `old`, coarse or fine and up or down, settles to
/// `new`.
pub open spec fn may_write(
    steps: BreederSteps,
    old: u8,
    min_value: u8,
    max_value: u8,
    new: u8,
) -> bool {
    exists|sign: i8, fine: bool|
        (sign == 1 || sign == -1) && settles(
            #[trigger] steps.stepped(old, sign, fine),
            min_value,
            max_value,
            new,
        )
}

/// `after` is `before` with the byte at some locus stepped, one way or the
/// other, and settled within the bounds.
pub open spec fn is_breeder_move(
    before: Design,
    after: Design,
    steps: BreederSteps,
    min_value: u8,
    max_value: u8,
) -> bool {
    exists|index: int, new: u8|
        0 <= index < LOCUS_COUNT && may_write(
            steps,
            value_at(before, index),
            min_value,
            max_value,
            new,
        ) && after == #[trigger] applied(before, index, new)
}

/// `trail` leads from `from` to `to` in `moves` breeder moves.
pub open spec fn is_breeder_trail(
    trail: Seq<Design>,
    from: Design,
    to: Design,
    moves: int,
    steps: BreederSteps,
    min_value: u8,
    max_value: u8,
) -> bool {
    &&& moves >= 0
    &&& trail.len() == moves + 1
    &&& trail[0] == from
    &&& trail[moves] == to
    &&& forall|k: int|
        0 <= k < moves ==> is_breeder_move(
            #[trigger] trail[k],
            trail[k + 1],
            steps,
            min_value,
            max_value,
        )
}

/// A trail of breeder moves keeps each invariant of a design that held at
/// its start, and so keeps a well-formed design well formed.
pub proof fn lemma_breeder_trail_wf(
    trail: Seq<Design>,
    from: Design,
    to: Design,
    moves: int,
    steps: BreederSteps,
    min_value: u8,
    max_value: u8,
)
    requires
        from.layers.len() == 10,
        is_breeder_trail(trail, from, to, moves, steps, min_value, max_value),
    ensures
        to.layers.len() == 10,
        keeps(from, to),
        from.wf() ==> to.wf(),
    decreases moves,
{
    if moves > 0 {
        let before = trail[moves - 1];
        lemma_breeder_trail_wf(
            trail.drop_last(),
            from,
            before,
            moves - 1,
            steps,
            min_value,
            max_value,
        );
        assert(is_breeder_move(before, trail[moves - 1 + 1], steps, min_value, max_value));
        assert(is_breeder_move(before, to, steps, min_value, max_value));
        let (index, new) = choose|index: int, new: u8|
            0 <= index < LOCUS_COUNT && may_write(
                steps,
                value_at(before, index),
                min_value,
                max_value,
                new,
            ) && to == #[trigger] applied(before, index, new);
        lemma_applied_keeps(before, index, new);
        if before.wf() {
            lemma_applied_wf(before, index, new);
        }
    }
}

/// Mutates `num_mutations` times: draws a locus, a sign and a step size,
/// steps the byte at the locus, settles the result within the bounds and
/// writes it back. Where no mutation is asked for, the bounds are not looked
/// at.
pub fn mutate_genome(
    genome: ParamSet,
    num_mutations: usize,
    steps: &BreederSteps,
    min_value: u8,
    max_value: u8,
    rng: &mut Prng,
) -> (mutated: ParamSet)
    requires
        num_mutations > 0 ==> min_value <= max_value,
    ensures
        exists|trail: Seq<Design>|
            is_breeder_trail(
                trail,
                genome@,
                mutated@,
                num_mutations as int,
                *steps,
                min_value,
                max_value,
            ),
        genome.wf() ==> mutated.wf(),
        keeps(genome@, mutated@),
        genome@.sound() ==> forall|k: int|
            0 <= k < 10 ==> #[trigger] mutated@.raw_code(k) == 0 || mutated@.raw_code(k)
                >= ParamSet::MINIMUM_RI,
        num_mutations == 0 ==> mutated == genome,
{
    let mut mutated = genome;
    let ghost mut trail: Seq<Design> = seq![genome@];
    let mut done: usize = 0;
    while done < num_mutations
        invariant
            done <= num_mutations,
            num_mutations > 0 ==> min_value <= max_value,
            is_breeder_trail(trail, genome@, mutated@, done as int, *steps, min_value, max_value),
            num_mutations == 0 ==> mutated == genome,
        decreases num_mutations - done,
    {
        let index = random_index(rng, LOCUS_COUNT);
        let sign: i8 = pick_one(-1, 1, rng);
        let fine: bool = pick_one(true, false, rng);

        let old = old_value(mutated, index);
        let value_mut = steps.step(old, sign, fine);
        let new = settle(value_mut, min_value, max_value, rng);

        let ghost before = mutated@;
        apply_value(&mut mutated, index, new);
        proof {
            let longer = trail.push(mutated@);
            assert(is_breeder_move(before, mutated@, *steps, min_value, max_value)) by {
                assert(settles(steps.stepped(old, sign, fine), min_value, max_value, new));
                assert(mutated@ == applied(before, index as int, new));
            }
            assert forall|k: int| 0 <= k < done + 1 implies is_breeder_move(
                #[trigger] longer[k],
                longer[k + 1],
                *steps,
                min_value,
                max_value,
            ) by {
                if k < done {
                    assert(longer[k] == trail[k] && longer[k + 1] == trail[k + 1]);
                }
            }
            trail = longer;
        }
        done += 1;
    }
    proof {
        lemma_breeder_trail_wf(
            trail,
            genome@,
            mutated@,
            num_mutations as int,
            *steps,
            min_value,
            max_value,
        );
        if genome@.sound() {
            mutated@.lemma_sound_codes();
        }
    }
    mutated
}

} // verus!
