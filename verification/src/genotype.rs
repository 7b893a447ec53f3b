//! The genome as the fitness function meets it: twelve bytes that hold the
//! fields of a design as they are.

use vstd::prelude::*;
use crate::array::{
    compact,
    decoded,
    lemma_decoded_wf,
    lemma_round_trip,
    lemma_same_design,
    raw_encoded,
};
use crate::paramset::{normalise_partition_thickness, Design, ParamSet};

verus! {

/// Twelve bytes that hold a design.
#[derive(Clone, Copy, Debug, PartialEq, Eq, Hash)]
pub struct Geno(pub(crate) [u8; 12]);

impl View for Geno {
    type V = Seq<u8>;

    closed spec fn view(&self) -> Seq<u8> {
        self.0@
    }
}

/// Two genomes with the same bytes are the same.
pub proof fn lemma_same_geno(a: Geno, b: Geno)
    requires
        a@ == b@,
    ensures
        a == b,
{
    assert(a.0 =~= b.0);
}

/// A well-formed design comes back as it went in from the bytes that hold
/// its fields as they are.
pub proof fn lemma_raw_round_trip(design: Design)
    requires
        design.wf(),
    ensures
        decoded(raw_encoded(design)) == design,
{
    lemma_round_trip(design);
}

impl From<Geno> for ParamSet {
    fn from(geno: Geno) -> (params: Self)
        ensures
            params@ == decoded(geno@),
            params.wf(),
    {
        let field = geno.0;
        let params = Self {
            layers_thickness: field[0],
            partitions_thickness: normalise_partition_thickness(field[1]),
            layers: compact(&field),
        };
        proof {
            lemma_decoded_wf(geno@);
            lemma_same_design(params, choose|p: ParamSet| p@ == decoded(geno@));
        }
        params
    }
}

impl vstd::std_specs::convert::FromSpecImpl<Geno> for ParamSet {
    open spec fn obeys_from_spec() -> bool {
        true
    }

    open spec fn from_spec(geno: Geno) -> Self {
        choose|p: ParamSet| p@ == decoded(geno@)
    }
}

impl From<ParamSet> for Geno {
    fn from(params: ParamSet) -> (geno: Self)
        ensures
            geno@ == raw_encoded(params@),
    {
        let mut field: [u8; 12] = [0; 12];
        field[0] = params.layers_thickness;
        field[1] = params.partitions_thickness;
        let mut i: usize = 0;
        while i < 10
            invariant
                i <= 10,
                field@[0] == params.layers_thickness,
                field@[1] == params.partitions_thickness,
                forall|j: int| 2 <= j < 2 + i ==> #[trigger] field@[j] == raw_encoded(params@)[j],
            decreases 10 - i,
        {
            field[2 + i] = match params.layers[i] {
                Some(code) => code,
                None => 0,
            };
            i += 1;
        }
        let geno = Geno(field);
        proof {
            assert(geno@ =~= raw_encoded(params@));
            lemma_same_geno(geno, choose|g: Geno| g@ == raw_encoded(params@));
        }
        geno
    }
}

impl vstd::std_specs::convert::FromSpecImpl<ParamSet> for Geno {
    open spec fn obeys_from_spec() -> bool {
        true
    }

    open spec fn from_spec(params: ParamSet) -> Self {
        choose|g: Geno| g@ == raw_encoded(params@)
    }
}

} // verus!
