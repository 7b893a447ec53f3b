//! Point mutations of a design, locus by locus.
//!
//! A design has thirteen loci: locus 0 is the number of active layers, locus
//! 1 the layer thickness, locus 2 the partition thickness, and loci 3 to 12
//! the ten slots. Reading a locus gives a byte; writing one takes any byte
//! and leaves a well-formed design well formed.

pub mod breeder;
pub mod crossover;
pub mod random;

use vstd::prelude::*;
use crate::paramset::{
    is_partition_thickness,
    lemma_first_absent,
    lemma_first_absent_is,
    lemma_normalise_idempotent,
    normalise_partition_thickness,
    normalised,
    Design,
    ParamSet,
};

verus! {

/// Number of loci of a design.
pub const LOCUS_COUNT: usize = 13;

/// One mutable field of a design.
#[derive(Clone, Copy, Debug, PartialEq, Eq, Structural)]
pub enum Locus {
    /// The number of active layers.
    Length,
    /// The thickness of the layers.
    LayersThickness,
    /// The thickness of the partitions.
    PartitionsThickness,
    /// The slot of the given index, below ten.
    Ri(usize),
}

impl Locus {
    /// A slot's locus names one of the ten slots.
    pub open spec fn wf(self) -> bool {
        self matches Locus::Ri(k) ==> k < ParamSet::LAYERS
    }

    /// The index that stands for the locus.
    pub open spec fn index(self) -> int {
        match self {
            Locus::Length => 0,
            Locus::LayersThickness => 1,
            Locus::PartitionsThickness => 2,
            Locus::Ri(k) => k + 3,
        }
    }

    /// The locus that an index below thirteen stands for.
    pub open spec fn at(index: int) -> Locus {
        if index == 0 {
            Locus::Length
        } else if index == 1 {
            Locus::LayersThickness
        } else if index == 2 {
            Locus::PartitionsThickness
        } else {
            Locus::Ri((index - 3) as usize)
        }
    }

    /// The locus that an index stands for, if it stands for one.
    pub fn from_index(index: usize) -> (locus: Option<Locus>)
        ensures
            index < LOCUS_COUNT ==> locus == Some(Locus::at(index as int)),
            index >= LOCUS_COUNT ==> locus is None,
            locus matches Some(l) ==> l.wf() && l.index() == index,
    {
        if index == 0 {
            Some(Locus::Length)
        } else if index == 1 {
            Some(Locus::LayersThickness)
        } else if index == 2 {
            Some(Locus::PartitionsThickness)
        } else if index < LOCUS_COUNT {
            Some(Locus::Ri(index - 3))
        } else {
            None
        }
    }

    /// Reads the byte at the locus.
    pub fn get(self, genome: &ParamSet) -> (value: u8)
        requires
            self.wf(),
        ensures
            value == value_at(genome@, self.index()),
    {
        match self {
            Locus::Length => genome.len() as u8,
            Locus::LayersThickness => genome.layers_thickness,
            Locus::PartitionsThickness => genome.partitions_thickness,
            Locus::Ri(k) => match genome.layers[k] {
                Some(ri) => ri,
                None => 0,
            },
        }
    }

    /// Writes a byte at the locus.
    pub fn set(self, genome: &mut ParamSet, new: u8)
        requires
            self.wf(),
        ensures
            final(genome)@ == applied(old(genome)@, self.index(), new),
            old(genome).wf() ==> final(genome).wf(),
            keeps(old(genome)@, final(genome)@),
    {
        let ghost before = genome@;
        match self {
            Locus::Length => {
                resize(genome, (new % 11) as usize);
            },
            Locus::LayersThickness => {
                genome.layers_thickness = new;
            },
            Locus::PartitionsThickness => {
                genome.partitions_thickness = normalise_partition_thickness(new);
            },
            Locus::Ri(k) => {
                rewrite(genome, k, new);
            },
        }
        proof {
            lemma_applied_keeps(before, self.index(), new);
            if before.wf() {
                lemma_applied_wf(before, self.index(), new);
            }
        }
    }
}

/// The byte read at a locus: the number of active layers, a thickness, or a
/// slot's code with zero for an absent slot.
pub open spec fn value_at(design: Design, index: int) -> u8 {
    if index == 0 {
        design.len() as u8
    } else if index == 1 {
        design.layers_thickness
    } else if index == 2 {
        design.partitions_thickness
    } else {
        design.raw_code(index - 3)
    }
}

/// The slots of a design cut or grown to `n` active layers: those it has
/// stay, new ones hold the minimum code.
pub open spec fn resized(design: Design, n: int) -> Seq<Option<u8>> {
    Seq::new(
        10,
        |i: int|
            if i >= n {
                None
            } else if i < design.len() {
                design.layers[i]
            } else {
                Some(ParamSet::MINIMUM_RI)
            },
    )
}

/// The slots of a design after `new` was written to slot `k`. An absent slot
/// stays absent. A present one takes `new` raised to the minimum; where
/// `new` is zero it is taken out, and the slots after it move up by one.
pub open spec fn rewritten(design: Design, k: int, new: u8) -> Seq<Option<u8>> {
    if design.layers[k] is None {
        design.layers
    } else if new == 0 {
        Seq::new(
            10,
            |i: int|
                if i < k {
                    design.layers[i]
                } else if i < 9 {
                    design.layers[i + 1]
                } else {
                    None
                },
        )
    } else if new < ParamSet::MINIMUM_RI {
        design.layers.update(k, Some(ParamSet::MINIMUM_RI))
    } else {
        design.layers.update(k, Some(new))
    }
}

/// The design after `new` was written at a locus.
///
/// At locus 0 the number of active layers becomes `new` modulo eleven. At
/// locus 1 the layer thickness becomes `new`. At locus 2 the partition
/// thickness becomes the usable thickness nearest to `new`. At a slot's
/// locus the slot is rewritten.
pub open spec fn applied(design: Design, index: int, new: u8) -> Design {
    if index == 0 {
        Design { layers: resized(design, new as int % 11), ..design }
    } else if index == 1 {
        Design { layers_thickness: new, ..design }
    } else if index == 2 {
        Design { partitions_thickness: normalised(new), ..design }
    } else {
        Design { layers: rewritten(design, index - 3, new), ..design }
    }
}

/// `after` has each invariant of a design that `before` has, whether or not
/// `before` has the others: a usable partition thickness, present codes of
/// at least the minimum, and no present slot after an absent one.
pub open spec fn keeps(before: Design, after: Design) -> bool {
    &&& is_partition_thickness(before.partitions_thickness) ==> is_partition_thickness(
        after.partitions_thickness,
    )
    &&& before.sound() ==> after.sound()
    &&& before.contiguous() ==> after.contiguous()
}

/// Writing any byte at any locus keeps each invariant of a design that held
/// before.
pub proof fn lemma_applied_keeps(design: Design, index: int, new: u8)
    requires
        design.layers.len() == 10,
        0 <= index < LOCUS_COUNT,
    ensures
        applied(design, index, new).layers.len() == 10,
        keeps(design, applied(design, index, new)),
{
    let after = applied(design, index, new);
    lemma_first_absent_is(design.layers, 0);
    if index == 2 {
        lemma_normalise_idempotent(new);
    } else if index >= 3 {
        let k = index - 3;
        assert(after.layers.len() == 10);
        if design.contiguous() {
            assert forall|i: int, j: int|
                0 <= i <= j < 10 && (#[trigger] after.layers[i]) is None implies (
            #[trigger] after.layers[j]) is None by {
                if design.layers[k] is Some && new == 0 {
                    if i < k {
                        assert(design.layers[i] is None);
                    } else if i < 9 {
                        assert(design.layers[i + 1] is None);
                    }
                }
            }
        }
        if design.sound() {
            assert forall|i: int| 0 <= i < 10 implies ((#[trigger] after.layers[i]) matches Some(
                c,
            ) ==> c >= ParamSet::MINIMUM_RI) by {
                if design.layers[k] is Some && new == 0 && k <= i < 9 {
                    assert(design.layers[i + 1] is Some ==> after.layers[i] == design.layers[i
                        + 1]);
                }
            }
        }
    }
}

/// Writing any byte at any locus of a well-formed design leaves it well
/// formed: in particular every slot is then absent or holds at least the
/// minimum code.
pub proof fn lemma_applied_wf(design: Design, index: int, new: u8)
    requires
        design.wf(),
        0 <= index < LOCUS_COUNT,
    ensures
        applied(design, index, new).wf(),
        forall|k: int|
            0 <= k < 10 ==> #[trigger] applied(design, index, new).raw_code(k) == 0 || applied(
                design,
                index,
                new,
            ).raw_code(k) >= ParamSet::MINIMUM_RI,
        index == 0 ==> applied(design, index, new).len() == new as int % 11,
{
    let after = applied(design, index, new);
    lemma_applied_keeps(design, index, new);
    design.lemma_len();
    if index == 0 {
        lemma_first_absent(after.layers, 0, new as int % 11);
    }
    assert forall|k: int| 0 <= k < 10 implies #[trigger] after.raw_code(k) == 0 || after.raw_code(
        k,
    ) >= ParamSet::MINIMUM_RI by {
        assert(after.layers[k] matches Some(c) ==> c >= ParamSet::MINIMUM_RI);
    }
}

/// Cuts or grows a design to `new_len` active layers.
fn resize(genome: &mut ParamSet, new_len: usize)
    ensures
        final(genome)@ == (Design { layers: resized(old(genome)@, new_len as int), ..old(genome)@ }),
{
    let ghost before = genome@;
    let current_len: usize = genome.len();
    let mut i: usize = 0;
    while i < 10
        invariant
            i <= 10,
            current_len == before.len(),
            before.layers.len() == 10,
            genome.layers_thickness == before.layers_thickness,
            genome.partitions_thickness == before.partitions_thickness,
            forall|j: int|
                0 <= j < i ==> #[trigger] genome.layers@[j] == resized(before, new_len as int)[j],
            forall|j: int| i <= j < 10 ==> #[trigger] genome.layers@[j] == before.layers[j],
        decreases 10 - i,
    {
        if i >= new_len {
            genome.layers[i] = None;
        } else if i >= current_len {
            genome.layers[i] = Some(ParamSet::MINIMUM_RI);
        }
        i += 1;
    }
    assert(genome@.layers =~= resized(before, new_len as int));
}

/// Writes `new` to slot `k`.
fn rewrite(genome: &mut ParamSet, k: usize, new: u8)
    requires
        k < 10,
    ensures
        final(genome)@ == (Design { layers: rewritten(old(genome)@, k as int, new), ..old(genome)@ }),
{
    let ghost before = genome@;
    if genome.layers[k].is_some() {
        if new == 0 {
            let mut i: usize = k;
            while i < 9
                invariant
                    k <= i <= 9,
                    new == 0,
                    before.layers.len() == 10,
                    before.layers[k as int] is Some,
                    genome.layers_thickness == before.layers_thickness,
                    genome.partitions_thickness == before.partitions_thickness,
                    forall|j: int|
                        0 <= j < i ==> #[trigger] genome.layers@[j] == rewritten(
                            before,
                            k as int,
                            new,
                        )[j],
                    forall|j: int| i <= j < 10 ==> #[trigger] genome.layers@[j] == before.layers[j],
                decreases 9 - i,
            {
                genome.layers[i] = genome.layers[i + 1];
                i += 1;
            }
            genome.layers[9] = None;
        } else if new < ParamSet::MINIMUM_RI {
            genome.layers[k] = Some(ParamSet::MINIMUM_RI);
        } else {
            genome.layers[k] = Some(new);
        }
    }
    assert(genome@.layers =~= rewritten(before, k as int, new));
}

/// Reads the byte at the locus of the given index.
pub fn old_value(genome: ParamSet, index: usize) -> (value: u8)
    requires
        index < LOCUS_COUNT,
    ensures
        value == value_at(genome@, index as int),
{
    Locus::from_index(index).unwrap().get(&genome)
}

/// Writes a byte at the locus of the given index.
pub fn apply_value(genome: &mut ParamSet, index: usize, new: u8)
    requires
        index < LOCUS_COUNT,
    ensures
        final(genome)@ == applied(old(genome)@, index as int, new),
        old(genome).wf() ==> final(genome).wf(),
        keeps(old(genome)@, final(genome)@),
{
    Locus::from_index(index).unwrap().set(genome, new);
}

} // verus!
