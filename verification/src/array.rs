//! The packed genome: twelve bytes that stand for a design.
//!
//! Byte 0 is the layer thickness, byte 1 the partition thickness, bytes 2 to
//! 11 the refractive-index codes of the ten slots, zero for an absent one.
//! Any twelve bytes decode to a well-formed design: the partition thickness
//! is snapped to a usable one, the codes that are not zero are raised to the
//! minimum and moved up to close the gaps that the zeros leave.

use vstd::prelude::*;
use crate::paramset::{
    lemma_first_absent,
    lemma_normalise_idempotent,
    lemma_normalised_fixes_usable,
    lemma_nth_wf,
    normalise_partition_thickness,
    normalised,
    spec_nth,
    Design,
    ParamSet,
};

verus! {

/// What tells a present slot's byte from an absent one's.
pub open spec fn nonzero() -> spec_fn(u8) -> bool {
    |b: u8| b != 0
}

/// A code raised to the minimum.
pub open spec fn clamp_code(b: u8) -> u8 {
    if b < ParamSet::MINIMUM_RI {
        ParamSet::MINIMUM_RI
    } else {
        b
    }
}

/// The ten slots that ten raw bytes decode to: one for each byte that is not
/// zero, in their order, then absent ones.
pub open spec fn compacted(raw: Seq<u8>) -> Seq<Option<u8>> {
    let present = raw.filter(nonzero());
    Seq::new(
        10,
        |i: int|
            if i < present.len() {
                Some(clamp_code(present[i]))
            } else {
                None
            },
    )
}

/// The design that twelve bytes decode to.
pub open spec fn decoded(bytes: Seq<u8>) -> Design {
    Design {
        layers_thickness: bytes[0],
        partitions_thickness: normalised(bytes[1]),
        layers: compacted(bytes.subrange(2, 12)),
    }
}

/// The twelve bytes that hold the fields of a design as they are.
pub open spec fn raw_encoded(design: Design) -> Seq<u8> {
    Seq::new(
        12,
        |i: int|
            if i == 0 {
                design.layers_thickness
            } else if i == 1 {
                design.partitions_thickness
            } else {
                design.raw_code(i - 2)
            },
    )
}

/// The twelve bytes that a design encodes to: its fields, the partition
/// thickness snapped to a usable one and each present code raised to the
/// minimum.
pub open spec fn encoded(design: Design) -> Seq<u8> {
    Seq::new(
        12,
        |i: int|
            if i == 0 {
                design.layers_thickness
            } else if i == 1 {
                normalised(design.partitions_thickness)
            } else {
                match design.layers[i - 2] {
                    Some(c) => clamp_code(c),
                    None => 0,
                }
            },
    )
}

/// Of bytes that are not zero up to `n` and zero from there on, the first `n`
/// are the present ones.
proof fn lemma_present_prefix(raw: Seq<u8>, n: int)
    requires
        0 <= n <= raw.len(),
        forall|i: int| 0 <= i < n ==> raw[i] != 0,
        forall|i: int| n <= i < raw.len() ==> raw[i] == 0,
    ensures
        raw.filter(nonzero()) == raw.take(n),
    decreases raw.len(),
{
    reveal(Seq::filter);
    if raw.len() > 0 {
        if n == raw.len() {
            lemma_present_prefix(raw.drop_last(), n - 1);
            assert(raw.take(n) =~= raw.drop_last().take(n - 1).push(raw.last()));
        } else {
            lemma_present_prefix(raw.drop_last(), n);
            assert(raw.take(n) =~= raw.drop_last().take(n));
        }
    } else {
        assert(raw.take(n) =~= raw);
    }
}

/// Whatever the bytes, what they decode to is a well-formed design.
pub proof fn lemma_decoded_wf(bytes: Seq<u8>)
    requires
        bytes.len() == 12,
    ensures
        decoded(bytes).wf(),
        decoded(bytes).len() == bytes.subrange(2, 12).filter(nonzero()).len(),
{
    let d = decoded(bytes);
    let raw = bytes.subrange(2, 12);
    let present = raw.filter(nonzero());
    raw.lemma_filter_len(nonzero());
    lemma_normalise_idempotent(bytes[1]);
    lemma_first_absent(d.layers, 0, present.len() as int);
}

/// A well-formed design comes back from its bytes as it went in, whether
/// they hold its fields as they are or snapped and raised.
pub proof fn lemma_round_trip(design: Design)
    requires
        design.wf(),
    ensures
        encoded(design) == raw_encoded(design),
        decoded(encoded(design)) == design,
{
    lemma_normalised_fixes_usable(design.partitions_thickness);
    assert(encoded(design) =~= raw_encoded(design));
    let bytes = encoded(design);
    let raw = bytes.subrange(2, 12);
    design.lemma_len();
    lemma_present_prefix(raw, design.len());
    assert(decoded(bytes).layers =~= design.layers);
}

/// What bytes decode to is settled: encoded and decoded again, it stays as
/// it is.
pub proof fn lemma_decode_settles(bytes: Seq<u8>)
    requires
        bytes.len() == 12,
    ensures
        decoded(encoded(decoded(bytes))) == decoded(bytes),
{
    lemma_decoded_wf(bytes);
    lemma_round_trip(decoded(bytes));
}

/// Every design of the enumeration comes back from its bytes as it went in.
pub proof fn lemma_nth_round_trip(n: nat)
    ensures
        decoded(encoded(spec_nth(n))) == spec_nth(n),
{
    lemma_nth_wf(n);
    lemma_round_trip(spec_nth(n));
}

/// Two parameter sets with the same content are the same.
pub proof fn lemma_same_design(a: ParamSet, b: ParamSet)
    requires
        a@ == b@,
    ensures
        a == b,
{
    assert(a.layers =~= b.layers);
}

/// Twelve bytes that stand for a design, open to change byte by byte.
#[derive(Clone, Copy, Debug, PartialEq, Eq, Hash)]
pub struct ParamArray(pub(crate) [u8; 12]);

impl View for ParamArray {
    type V = Seq<u8>;

    closed spec fn view(&self) -> Seq<u8> {
        self.0@
    }
}

/// Two genomes with the same bytes are the same.
pub proof fn lemma_same_bytes(a: ParamArray, b: ParamArray)
    requires
        a@ == b@,
    ensures
        a == b,
{
    assert(a.0 =~= b.0);
}

impl Default for ParamArray {
    fn default() -> (r: Self)
        ensures
            r@ == encoded(spec_nth(0)),
    {
        ParamArray::from(ParamSet::default())
    }
}

impl ParamArray {
    /// A genome has twelve bytes.
    pub proof fn lemma_twelve(self)
        ensures
            self@.len() == 12,
    {
    }

    /// Sets the byte at `index`, which has to be below twelve.
    pub fn set(&mut self, index: usize, value: u8)
        requires
            index < 12,
        ensures
            final(self)@ == old(self)@.update(index as int, value),
    {
        self.0[index] = value;
    }

    /// The byte at `index`, which has to be below twelve.
    pub fn get(&self, index: usize) -> (value: u8)
        requires
            index < 12,
        ensures
            value == self@[index as int],
    {
        self.0[index]
    }
}

/// The slots that the raw codes of a genome decode to.
pub(crate) fn compact(field: &[u8; 12]) -> (layers: [Option<u8>; 10])
    ensures
        layers@ == compacted(field@.subrange(2, 12)),
{
    let ghost raw = field@.subrange(2, 12);
    let mut layers: [Option<u8>; 10] = [None; 10];
    let mut filled: usize = 0;
    let mut i: usize = 0;
    proof {
        reveal(Seq::filter);
        assert(raw.take(0).filter(nonzero()) =~= Seq::<u8>::empty());
    }
    while i < 10
        invariant
            i <= 10,
            raw == field@.subrange(2, 12),
            filled == raw.take(i as int).filter(nonzero()).len(),
            filled <= i,
            forall|j: int|
                0 <= j < filled ==> #[trigger] layers@[j] == Some(
                    clamp_code(raw.take(i as int).filter(nonzero())[j]),
                ),
            forall|j: int| filled <= j < 10 ==> (#[trigger] layers@[j]) is None,
        decreases 10 - i,
    {
        let byte: u8 = field[2 + i];
        proof {
            assert(raw.take(i + 1) =~= raw.take(i as int).push(byte));
            raw.take(i as int).lemma_filter_push(byte, nonzero());
        }
        if byte != 0 {
            layers[filled] = Some(
                if byte < ParamSet::MINIMUM_RI {
                    ParamSet::MINIMUM_RI
                } else {
                    byte
                },
            );
            filled += 1;
        }
        i += 1;
    }
    proof {
        assert(raw.take(10) =~= raw);
        assert(layers@ =~= compacted(raw));
    }
    layers
}

impl From<ParamArray> for ParamSet {
    fn from(geno: ParamArray) -> (params: Self)
        ensures
            params@ == decoded(geno@),
            params.wf(),
    {
        let field = geno.0;
        let params = Self {
            layers_thickness: field[0],
            partitions_thickness: normalise_partition_thickness(field[1]),
            layers: compact(&field),
        };
        proof {
            lemma_decoded_wf(geno@);
            lemma_same_design(params, choose|p: ParamSet| p@ == decoded(geno@));
        }
        params
    }
}

impl vstd::std_specs::convert::FromSpecImpl<ParamArray> for ParamSet {
    open spec fn obeys_from_spec() -> bool {
        true
    }

    open spec fn from_spec(geno: ParamArray) -> Self {
        choose|p: ParamSet| p@ == decoded(geno@)
    }
}

impl From<ParamSet> for ParamArray {
    fn from(params: ParamSet) -> (geno: Self)
        ensures
            geno@ == encoded(params@),
    {
        let mut field: [u8; 12] = [0; 12];
        field[0] = params.layers_thickness;
        field[1] = normalise_partition_thickness(params.partitions_thickness);
        let mut i: usize = 0;
        while i < 10
            invariant
                i <= 10,
                field@[0] == params.layers_thickness,
                field@[1] == normalised(params.partitions_thickness),
                forall|j: int| 2 <= j < 2 + i ==> #[trigger] field@[j] == encoded(params@)[j],
            decreases 10 - i,
        {
            field[2 + i] = match params.layers[i] {
                Some(code) => if code < ParamSet::MINIMUM_RI {
                    ParamSet::MINIMUM_RI
                } else {
                    code
                },
                None => 0,
            };
            i += 1;
        }
        let geno = ParamArray(field);
        proof {
            assert(geno@ =~= encoded(params@));
            lemma_same_bytes(geno, choose|a: ParamArray| a@ == encoded(params@));
        }
        geno
    }
}

impl vstd::std_specs::convert::FromSpecImpl<ParamSet> for ParamArray {
    open spec fn obeys_from_spec() -> bool {
        true
    }

    open spec fn from_spec(params: ParamSet) -> Self {
        choose|a: ParamArray| a@ == encoded(params@)
    }
}

} // verus!
