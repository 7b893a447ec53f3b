//! Uniform crossover of the slots: every slot of a child comes from a parent
//! drawn at random for that slot alone.
//!
//! Only the slots are recombined. The two thicknesses of a child are those
//! of the first design of the enumeration, a layer thickness of zero and the
//! thinnest partition, whatever the parents hold.

use vstd::prelude::*;
use genevo::random::Prng;
use crate::array::{clamp_code, decoded, encoded, nonzero, ParamArray};
use crate::mutation::old_value;
use crate::paramset::{spec_nth, Design, ParamSet};
use crate::rng::random_index;

verus! {

/// The operator that breeds children from parents.
#[derive(Default, Clone, Copy, Debug, PartialEq)]
pub struct AgileCrossBreeder;

/// The designs of a list of parameter sets.
pub open spec fn designs(sets: Seq<ParamSet>) -> Seq<Design> {
    sets.map_values(|p: ParamSet| p@)
}

/// The genome bred from `parents` where slot `i` is taken from the parent
/// `picks[i]`: the thicknesses of the first design of the enumeration, then
/// for each slot the byte that the picked parent holds there.
pub open spec fn crossed(parents: Seq<Design>, picks: Seq<int>) -> Seq<u8> {
    Seq::new(
        12,
        |i: int|
            if i < 2 {
                encoded(spec_nth(0))[i]
            } else {
                parents[picks[i - 2]].raw_code(i - 2)
            },
    )
}

/// `child` is what some genome bred from `parents` decodes to.
pub open spec fn is_child(child: Design, parents: Seq<Design>) -> bool {
    exists|picks: Seq<int>|
        picks.len() == 10 && (forall|i: int| 0 <= i < 10 ==> 0 <= #[trigger] picks[i] < parents.len())
            && child == decoded(#[trigger] crossed(parents, picks))
}

/// Every slot that a child has is a slot that some parent has, its code
/// raised to the minimum.
pub proof fn lemma_child_from_parents(child: Design, parents: Seq<Design>, i: int)
    requires
        is_child(child, parents),
        0 <= i < 10,
        child.layers[i] is Some,
    ensures
        exists|p: int, j: int|
            0 <= p < parents.len() && 0 <= j < 10 && parents[p].raw_code(j) != 0
                && child.layers[i] == Some(clamp_code(#[trigger] parents[p].raw_code(j))),
{
    let picks = choose|picks: Seq<int>|
        picks.len() == 10 && (forall|i: int| 0 <= i < 10 ==> 0 <= #[trigger] picks[i] < parents.len())
            && child == decoded(#[trigger] crossed(parents, picks));
    let raw = crossed(parents, picks).subrange(2, 12);
    let present = raw.filter(nonzero());
    assert(child.layers[i] == Some(clamp_code(present[i])));
    raw.lemma_filter_pred(nonzero(), i);
    assert(present.contains(present[i]));
    raw.lemma_filter_contains_rev(nonzero(), present[i]);
    let j = choose|j: int| 0 <= j < raw.len() && raw[j] == present[i];
    assert(raw[j] == parents[picks[j]].raw_code(j));
}

impl AgileCrossBreeder {
    /// Breeds one child for each parent.
    pub fn crossover(&self, parents: Vec<ParamSet>, rng: &mut Prng) -> (offspring: Vec<ParamSet>)
        ensures
            offspring@.len() == parents@.len(),
            forall|c: int|
                0 <= c < offspring@.len() ==> (#[trigger] offspring@[c]).wf() && is_child(
                    offspring@[c]@,
                    designs(parents@),
                ),
    {
        let num_parents = parents.len();

        // breed one child for each partner in parents
        let mut offspring: Vec<ParamSet> = Vec::with_capacity(num_parents);
        while num_parents > offspring.len()
            invariant
                num_parents == parents@.len(),
                offspring@.len() <= num_parents,
                forall|c: int|
                    0 <= c < offspring@.len() ==> (#[trigger] offspring@[c]).wf() && is_child(
                        offspring@[c]@,
                        designs(parents@),
                    ),
            decreases num_parents - offspring@.len(),
        {
            let mut genome = ParamArray::default();
            let ghost blank = genome@;
            let ghost mut picks: Seq<int> = Seq::empty();
            proof {
                genome.lemma_twelve();
            }
            // for each slot of the genotype
            let mut locus: usize = 0;
            while locus < 10
                invariant
                    locus <= 10,
                    num_parents == parents@.len(),
                    num_parents > 0,
                    blank == encoded(spec_nth(0)),
                    genome@.len() == 12,
                    picks.len() == locus,
                    forall|i: int| 0 <= i < locus ==> 0 <= #[trigger] picks[i] < num_parents,
                    forall|i: int| 0 <= i < 2 ==> #[trigger] genome@[i] == blank[i],
                    forall|j: int|
                        2 <= j < 2 + locus ==> #[trigger] genome@[j] == parents@[picks[j - 2]]@.raw_code(
                            j - 2,
                        ),
                decreases 10 - locus,
            {
                // pick the value of a randomly chosen parent
                let random = random_index(rng, num_parents);
                let value = old_value(parents[random], 3 + locus);
                genome.set(2 + locus, value);
                proof {
                    picks = picks.push(random as int);
                }
                locus += 1;
            }
            let child = ParamSet::from(genome);
            proof {
                let bred = crossed(designs(parents@), picks);
                assert forall|j: int| 0 <= j < 12 implies genome@[j] == bred[j] by {
                    if j >= 2 {
                        assert(designs(parents@)[picks[j - 2]] == parents@[picks[j - 2]]@);
                    }
                }
                assert(genome@ =~= bred);
            }
            offspring.push(child);
        }

        offspring
    }
}

} // verus!
