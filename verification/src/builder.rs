//! Building a design at random.

use vstd::prelude::*;
use genevo::random::Prng;
use crate::paramset::{spec_nth, ParamSet};
use crate::rng::random_below;

verus! {

/// Builds the designs that a search starts from.
pub struct RandomBuilder;

impl RandomBuilder {
    /// Builds the design at a position of the enumeration drawn at random
    /// below [`ParamSet::MAX_POSSIBILITIES`]. The index of the individual is
    /// not used.
    pub fn build_genome(&self, _index: usize, rng: &mut Prng) -> (genome: ParamSet)
        ensures
            genome.wf(),
            exists|n: nat| n < ParamSet::MAX_POSSIBILITIES && genome@ == #[trigger] spec_nth(n),
    {
        let n = random_below(rng, ParamSet::MAX_POSSIBILITIES);
        let genome = ParamSet::nth(n);
        assert(genome@ == spec_nth(n as nat));
        genome
    }
}

} // verus!
