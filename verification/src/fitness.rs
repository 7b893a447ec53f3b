//! The scale on which designs are scored.

use vstd::prelude::*;
use crate::model::refract::Snells;
use crate::model::units::Microradians;
use crate::model::stack::layout_of;
use crate::model::sweep::SimConfig;
use crate::model::trace::Traced;
use crate::model::{is_sweep, performance_of, raytrace};
use crate::paramset::ParamSet;

verus! {

/// Scores designs, and knows the scale of the scores.
#[derive(Clone, Copy, Debug)]
pub struct AgileFitness;

/// Sum of a list of scores.
pub open spec fn total(scores: Seq<u64>) -> nat
    decreases scores.len(),
{
    if scores.len() == 0 {
        0
    } else {
        total(scores.drop_last()) + scores.last() as nat
    }
}

/// A sum of scores is at most as many times the largest score.
pub proof fn lemma_total_bound(scores: Seq<u64>)
    ensures
        total(scores) <= scores.len() * u64::MAX,
    decreases scores.len(),
{
    if scores.len() > 0 {
        lemma_total_bound(scores.drop_last());
    }
}

impl AgileFitness {
    /// The score of a design: that of the record which a sweep through its
    /// stack comes to.
    pub fn fitness_of<F: Fn(u8, u8, Microradians) -> Snells>(
        &self,
        params: &ParamSet,
        config: &SimConfig,
        snell: &F,
    ) -> (fitness: u64)
        requires
            config.wf(),
            forall|old_ri: u8, new_ri: u8, dir: Microradians|
                call_requires(*snell, (old_ri, new_ri, dir)),
        ensures
            exists|traces: Seq<Traced>| #[trigger]
                is_sweep(traces, layout_of(params@, config.layer_base), *config, *snell)
                    && fitness == performance_of(traces).score(),
    {
        raytrace(*params, config, snell).summarise()
    }

    /// The mean of the scores, rounded down; zero for no scores. The sum is
    /// taken in full, so that no score is lost to overflow.
    pub fn average(&self, a: &[u64]) -> (mean: u64)
        ensures
            a@.len() > 0 ==> mean == total(a@) / a@.len(),
            a@.len() == 0 ==> mean == 0,
    {
        let len: usize = a.len();
        if len == 0 {
            return 0;
        }
        let mut sum: u128 = 0;
        let mut i: usize = 0;
        while i < len
            invariant
                i <= len,
                len == a@.len(),
                sum == total(a@.take(i as int)),
            decreases len - i,
        {
            proof {
                assert(a@.take(i + 1).drop_last() =~= a@.take(i as int));
                lemma_total_bound(a@.take(i + 1));
            }
            sum = sum + a[i] as u128;
            i += 1;
        }
        proof {
            assert(a@.take(len as int) =~= a@);
            lemma_total_bound(a@);
            let n = len as int;
            let t = total(a@) as int;
            assert(t / n <= u64::MAX) by (nonlinear_arith)
                requires
                    n > 0,
                    0 <= t <= n * u64::MAX,
            ;
        }
        (sum / (len as u128)) as u64
    }

    pub fn highest_possible_fitness(&self) -> (fitness: u64)
        ensures
            fitness == u64::MAX,
    {
        u64::MAX
    }

    pub fn lowest_possible_fitness(&self) -> (fitness: u64)
        ensures
            fitness == 0,
    {
        0
    }
}

} // verus!
