//! Uniform random mutation: each point mutation writes a fresh draw at a
//! locus drawn at random.

use vstd::prelude::*;
use genevo::random::Prng;
use crate::mutation::{
    applied,
    apply_value,
    keeps,
    lemma_applied_keeps,
    lemma_applied_wf,
    old_value,
    LOCUS_COUNT,
};
use crate::paramset::{Design, ParamSet};
use crate::rng::{random_index, random_value};

verus! {

/// Whether `new` can be drawn within the bounds: a byte from `min_value` up
/// to, not including, `max_value`; where the two are the same, that one byte.
pub open spec fn is_draw(min_value: u8, max_value: u8, new: u8) -> bool {
    min_value <= new < max_value || (min_value == max_value && new == min_value)
}

/// Draws a byte within the bounds. Where they are the same there is nothing
/// to draw, and the byte is theirs.
pub fn draw(value: u8, min_value: u8, max_value: u8, rng: &mut Prng) -> (new: u8)
    requires
        min_value <= max_value,
    ensures
        is_draw(min_value, max_value, new),
        min_value <= new <= max_value,
{
    if min_value < max_value {
        random_value(value, min_value, max_value, rng)
    } else {
        min_value
    }
}

/// `after` is `before` with some byte drawn within the bounds written at
/// some locus.
pub open spec fn is_random_move(before: Design, after: Design, min_value: u8, max_value: u8) -> bool {
    exists|index: int, new: u8|
        0 <= index < LOCUS_COUNT && is_draw(min_value, max_value, new) && after
            == #[trigger] applied(before, index, new)
}

/// `trail` leads from `from` to `to` in `moves` random moves.
pub open spec fn is_random_trail(
    trail: Seq<Design>,
    from: Design,
    to: Design,
    moves: int,
    min_value: u8,
    max_value: u8,
) -> bool {
    &&& moves >= 0
    &&& trail.len() == moves + 1
    &&& trail[0] == from
    &&& trail[moves] == to
    &&& forall|k: int|
        0 <= k < moves ==> is_random_move(#[trigger] trail[k], trail[k + 1], min_value, max_value)
}

/// A trail of random moves keeps each invariant of a design that held at its
/// start, and so keeps a well-formed design well formed.
pub proof fn lemma_random_trail_wf(
    trail: Seq<Design>,
    from: Design,
    to: Design,
    moves: int,
    min_value: u8,
    max_value: u8,
)
    requires
        from.layers.len() == 10,
        is_random_trail(trail, from, to, moves, min_value, max_value),
    ensures
        to.layers.len() == 10,
        keeps(from, to),
        from.wf() ==> to.wf(),
    decreases moves,
{
    if moves > 0 {
        let before = trail[moves - 1];
        lemma_random_trail_wf(trail.drop_last(), from, before, moves - 1, min_value, max_value);
        assert(is_random_move(before, trail[moves - 1 + 1], min_value, max_value));
        assert(is_random_move(before, to, min_value, max_value));
        let (index, new) = choose|index: int, new: u8|
            0 <= index < LOCUS_COUNT && is_draw(min_value, max_value, new) && to
                == #[trigger] applied(before, index, new);
        lemma_applied_keeps(before, index, new);
        if before.wf() {
            lemma_applied_wf(before, index, new);
        }
    }
}

/// Mutates `num_mutations` times: draws a locus, draws a byte within the
/// bounds, and writes it there. Where no mutation is asked for, the bounds
/// are not looked at.
pub fn mutate_genome(
    genome: ParamSet,
    num_mutations: usize,
    min_value: u8,
    max_value: u8,
    rng: &mut Prng,
) -> (mutated: ParamSet)
    requires
        num_mutations > 0 ==> min_value <= max_value,
    ensures
        exists|trail: Seq<Design>|
            is_random_trail(trail, genome@, mutated@, num_mutations as int, min_value, max_value),
        genome.wf() ==> mutated.wf(),
        keeps(genome@, mutated@),
        genome@.sound() ==> forall|k: int|
            0 <= k < 10 ==> #[trigger] mutated@.raw_code(k) == 0 || mutated@.raw_code(k)
                >= ParamSet::MINIMUM_RI,
        num_mutations == 0 ==> mutated == genome,
{
    let mut mutated = genome;
    let ghost mut trail: Seq<Design> = seq![genome@];
    let mut done: usize = 0;
    while done < num_mutations
        invariant
            done <= num_mutations,
            num_mutations > 0 ==> min_value <= max_value,
            is_random_trail(trail, genome@, mutated@, done as int, min_value, max_value),
            num_mutations == 0 ==> mutated == genome,
        decreases num_mutations - done,
    {
        let index = random_index(rng, LOCUS_COUNT);

        let old = old_value(mutated, index);
        let new = draw(old, min_value, max_value, rng);
        let ghost before = mutated@;
        apply_value(&mut mutated, index, new);
        proof {
            let longer = trail.push(mutated@);
            assert(is_random_move(before, mutated@, min_value, max_value)) by {
                assert(mutated@ == applied(before, index as int, new));
            }
            assert forall|k: int| 0 <= k < done + 1 implies is_random_move(
                #[trigger] longer[k],
                longer[k + 1],
                min_value,
                max_value,
            ) by {
                if k < done {
                    assert(longer[k] == trail[k] && longer[k + 1] == trail[k + 1]);
                }
            }
            trail = longer;
        }
        done += 1;
    }
    proof {
        lemma_random_trail_wf(trail, genome@, mutated@, num_mutations as int, min_value, max_value);
        if genome@.sound() {
            mutated@.lemma_sound_codes();
        }
    }
    mutated
}

} // verus!
