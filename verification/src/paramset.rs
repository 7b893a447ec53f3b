//! A candidate design: two thicknesses and up to ten refractive-index codes.

use vstd::arithmetic::div_mod::{lemma_div_denominator, lemma_div_is_ordered_by_denominator};
use vstd::arithmetic::power::{lemma_pow_increases, lemma_pow_positive, pow};
use vstd::prelude::*;

verus! {

/// Usable partition thicknesses, in tenths of a millimetre, ascending.
pub const PARTITION_THICKNESSES: [u8; 9] = [2, 4, 6, 8, 10, 12, 15, 20, 30];

/// Whether `x` is one of the usable partition thicknesses.
pub open spec fn is_partition_thickness(x: u8) -> bool {
    exists|i: int| 0 <= i < 9 && #[trigger] PARTITION_THICKNESSES[i] == x
}

/// Distance between two numbers.
pub open spec fn distance(a: int, b: int) -> int {
    if a >= b {
        a - b
    } else {
        b - a
    }
}

/// `r` is the usable thickness closest to `x`; of two equally close ones, the
/// lower.
pub open spec fn is_nearest_thickness(x: u8, r: u8) -> bool {
    &&& is_partition_thickness(r)
    &&& forall|t: u8| #[trigger]
        is_partition_thickness(t) ==> distance(r as int, x as int) < distance(t as int, x as int)
            || (distance(r as int, x as int) == distance(t as int, x as int) && r <= t)
}

/// The usable thickness that an arbitrary thickness snaps to.
pub open spec fn normalised(x: u8) -> u8 {
    choose|r: u8| is_nearest_thickness(x, r)
}

/// At most one thickness is nearest.
pub proof fn lemma_nearest_unique(x: u8, a: u8, b: u8)
    requires
        is_nearest_thickness(x, a),
        is_nearest_thickness(x, b),
    ensures
        a == b,
{
}

/// Every thickness has a nearest usable one, and `normalised` is it.
pub proof fn lemma_normalised_is_nearest(x: u8)
    ensures
        is_nearest_thickness(x, normalised(x)),
{
    let c: u8 = if x <= 3 {
        2
    } else if x <= 5 {
        4
    } else if x <= 7 {
        6
    } else if x <= 9 {
        8
    } else if x <= 11 {
        10
    } else if x <= 13 {
        12
    } else if x <= 17 {
        15
    } else if x <= 25 {
        20
    } else {
        30
    };
    assert(PARTITION_THICKNESSES[0] == 2 && PARTITION_THICKNESSES[1] == 4
        && PARTITION_THICKNESSES[2] == 6 && PARTITION_THICKNESSES[3] == 8
        && PARTITION_THICKNESSES[4] == 10 && PARTITION_THICKNESSES[5] == 12
        && PARTITION_THICKNESSES[6] == 15 && PARTITION_THICKNESSES[7] == 20
        && PARTITION_THICKNESSES[8] == 30);
    assert(is_nearest_thickness(x, c));
}

/// A usable thickness snaps to itself.
pub proof fn lemma_normalised_fixes_usable(x: u8)
    requires
        is_partition_thickness(x),
    ensures
        normalised(x) == x,
{
    assert(is_nearest_thickness(x, x));
    lemma_normalised_is_nearest(x);
    lemma_nearest_unique(x, x, normalised(x));
}

/// Snapping always lands on a usable thickness, and snapping twice is the same
/// as snapping once.
pub proof fn lemma_normalise_idempotent(x: u8)
    ensures
        is_partition_thickness(normalised(x)),
        normalised(normalised(x)) == normalised(x),
{
    lemma_normalised_is_nearest(x);
    lemma_normalised_fixes_usable(normalised(x));
}

/// How far apart two thicknesses are.
fn gap(a: u8, b: u8) -> (d: u8)
    ensures
        d == distance(a as int, b as int),
{
    if a >= b {
        a - b
    } else {
        b - a
    }
}

/// From an arbitrary thickness, find the closest usable one.
pub fn normalise_partition_thickness(thicc: u8) -> (r: u8)
    ensures
        is_nearest_thickness(thicc, r),
        r == normalised(thicc),
{
    let mut best: u8 = PARTITION_THICKNESSES[0];
    let mut i: usize = 1;
    while i < 9
        invariant
            1 <= i <= 9,
            exists|j: int| 0 <= j < i && #[trigger] PARTITION_THICKNESSES[j] == best,
            forall|k: int|
                0 <= k < i ==> distance(best as int, thicc as int) < distance(
                    #[trigger] PARTITION_THICKNESSES[k] as int,
                    thicc as int,
                ) || (distance(best as int, thicc as int) == distance(
                    PARTITION_THICKNESSES[k] as int,
                    thicc as int,
                ) && best <= PARTITION_THICKNESSES[k]),
        decreases 9 - i,
    {
        let candidate: u8 = PARTITION_THICKNESSES[i];
        if gap(candidate, thicc) < gap(best, thicc) {
            best = candidate;
        }
        i += 1;
    }
    proof {
        assert(is_nearest_thickness(thicc, best));
        lemma_nearest_unique(thicc, best, normalised(thicc));
    }
    best
}

/// The mathematical content of a [`ParamSet`].
pub struct Design {
    /// Layer thickness above the 3.0 mm base, in tenths of a millimetre.
    pub layers_thickness: u8,
    /// Partition thickness, in tenths of a millimetre.
    pub partitions_thickness: u8,
    /// The ten slots, top of the stack first.
    pub layers: Seq<Option<u8>>,
}

/// Index of the first absent slot at or after `from`; the length of `s` if
/// there is none.
pub open spec fn first_absent(s: Seq<Option<u8>>, from: int) -> int
    decreases s.len() - from,
{
    if 0 <= from < s.len() && s[from] is Some {
        first_absent(s, from + 1)
    } else {
        from
    }
}

/// `n` is the first absent slot at or after `from` exactly when it lies in
/// range, every slot before it is present and the slot at it is not.
pub proof fn lemma_first_absent(s: Seq<Option<u8>>, from: int, n: int)
    requires
        0 <= from <= n <= s.len(),
        forall|i: int| from <= i < n ==> (#[trigger] s[i]) is Some,
        n < s.len() ==> s[n] is None,
    ensures
        first_absent(s, from) == n,
    decreases n - from,
{
    if from < n {
        lemma_first_absent(s, from + 1, n);
    }
}

/// What `first_absent` returns, said without recursion.
pub proof fn lemma_first_absent_is(s: Seq<Option<u8>>, from: int)
    requires
        0 <= from <= s.len(),
    ensures
        from <= first_absent(s, from) <= s.len(),
        forall|i: int| from <= i < first_absent(s, from) ==> (#[trigger] s[i]) is Some,
        first_absent(s, from) < s.len() ==> s[first_absent(s, from)] is None,
    decreases s.len() - from,
{
    if from < s.len() && s[from] is Some {
        lemma_first_absent_is(s, from + 1);
    }
}

impl Design {
    /// Every present code is at least the minimum.
    pub open spec fn sound(self) -> bool {
        forall|i: int|
            0 <= i < 10 ==> ((#[trigger] self.layers[i]) matches Some(c) ==> c
                >= ParamSet::MINIMUM_RI)
    }

    /// No present slot comes after an absent one.
    pub open spec fn contiguous(self) -> bool {
        forall|i: int, j: int|
            0 <= i <= j < 10 && (#[trigger] self.layers[i]) is None ==> (
            #[trigger] self.layers[j]) is None
    }

    /// The invariants of a design: ten slots, a usable partition thickness,
    /// every present code at least the minimum, and no present slot after an
    /// absent one.
    pub open spec fn wf(self) -> bool {
        &&& self.layers.len() == 10
        &&& is_partition_thickness(self.partitions_thickness)
        &&& self.sound()
        &&& self.contiguous()
    }

    /// Number of active layers: the index of the first absent slot.
    pub open spec fn len(self) -> int {
        first_absent(self.layers, 0)
    }

    /// The byte that stands for slot `i` in a packed genome: its code, or
    /// zero where the slot is absent.
    pub open spec fn raw_code(self, i: int) -> u8 {
        match self.layers[i] {
            Some(c) => c,
            None => 0,
        }
    }

    /// The codes of the active layers, top of the stack first.
    pub open spec fn codes(self) -> Seq<u8> {
        Seq::new(self.len() as nat, |i: int| self.raw_code(i))
    }

    /// Where every present code is at least the minimum, the byte that
    /// stands for a slot is zero or at least the minimum.
    pub proof fn lemma_sound_codes(self)
        requires
            self.sound(),
        ensures
            forall|k: int|
                0 <= k < 10 ==> #[trigger] self.raw_code(k) == 0 || self.raw_code(k)
                    >= ParamSet::MINIMUM_RI,
    {
        assert forall|k: int| 0 <= k < 10 implies #[trigger] self.raw_code(k) == 0
            || self.raw_code(k) >= ParamSet::MINIMUM_RI by {
            assert(self.layers[k] matches Some(c) ==> c >= ParamSet::MINIMUM_RI);
        }
    }

    /// In a well-formed design the active slots are exactly those below
    /// `len()`.
    pub proof fn lemma_len(self)
        requires
            self.wf(),
        ensures
            0 <= self.len() <= 10,
            forall|i: int| 0 <= i < 10 ==> ((#[trigger] self.layers[i]) is Some <==> i < self.len()),
    {
        lemma_first_absent_is(self.layers, 0);
    }
}

/// The slot `i` of the design that the enumeration gives for the remainder
/// `m`: the base-18 digit `i` of `m` above the minimum code, as long as the
/// digits before it have not used `m` up.
pub open spec fn nth_layer(m: nat, i: int) -> Option<u8> {
    if i == 0 || m / (pow(18, (i - 1) as nat) as nat) > 0 {
        Some((34 + (m / (pow(18, i as nat) as nat)) % 18) as u8)
    } else {
        None
    }
}

/// The design at position `n` of the enumeration: `n` in mixed radix, the
/// layer thickness varying fastest (256 values), then the partition thickness
/// (9 values), then the slots in turn (18 codes each).
pub open spec fn spec_nth(n: nat) -> Design {
    Design {
        layers_thickness: (n % 256) as u8,
        partitions_thickness: PARTITION_THICKNESSES[((n / 256) % 9) as int],
        layers: Seq::new(10, |i: int| nth_layer(n / 2304, i)),
    }
}

/// Dividing by one more power of 18 is dividing by 18 once more.
proof fn lemma_next_digit(m: nat, e: nat)
    ensures
        pow(18, e) > 0,
        (m / (pow(18, e) as nat)) / 18 == m / (pow(18, e + 1) as nat),
{
    lemma_pow_positive(18, e);
    reveal(pow);
    assert(pow(18, e + 1) == 18 * pow(18, e));
    lemma_div_denominator(m as int, pow(18, e), 18);
    assert(pow(18, e) * 18 == 18 * pow(18, e)) by (nonlinear_arith);
}

/// Once a power of 18 exceeds `m`, so does every higher one.
proof fn lemma_digits_run_out(m: nat, e1: nat, e2: nat)
    requires
        e1 <= e2,
        m / (pow(18, e1) as nat) == 0,
    ensures
        m / (pow(18, e2) as nat) == 0,
{
    lemma_pow_positive(18, e1);
    lemma_pow_positive(18, e2);
    lemma_pow_increases(18, e1, e2);
    lemma_div_is_ordered_by_denominator(m as int, pow(18, e1), pow(18, e2));
}

/// Every design of the enumeration is well formed, and its codes stay within
/// the range from water to acrylic.
pub proof fn lemma_nth_wf(n: nat)
    ensures
        spec_nth(n).wf(),
        1 <= spec_nth(n).len() <= 10,
        forall|i: int|
            0 <= i < 10 ==> ((#[trigger] spec_nth(n).layers[i]) matches Some(c) ==> 34 <= c <= 51),
{
    let d = spec_nth(n);
    let m = n / 2304;
    assert(is_partition_thickness(d.partitions_thickness));
    assert forall|i: int, j: int|
        0 <= i <= j < 10 && (#[trigger] d.layers[i]) is None implies (#[trigger] d.layers[j]) is None by {
        assert(d.layers[i] == nth_layer(m, i));
        assert(d.layers[j] == nth_layer(m, j));
        let low = pow(18, (i - 1) as nat) as nat;
        lemma_pow_positive(18, (i - 1) as nat);
        assert(m / low >= 0) by (nonlinear_arith)
            requires
                low > 0,
        ;
        lemma_digits_run_out(m, (i - 1) as nat, (j - 1) as nat);
    }
    lemma_first_absent_is(d.layers, 0);
    assert(d.layers[0] is Some);
}

/// Digit `i` of `m` in base 18.
pub open spec fn digit(m: nat, i: nat) -> nat {
    (m / (pow(18, i) as nat)) % 18
}

/// Two numbers below `18^k` with the same `k` digits in base 18 are the same.
proof fn lemma_digits_determine(a: nat, b: nat, k: nat)
    requires
        a < pow(18, k),
        b < pow(18, k),
        forall|i: nat| i < k ==> digit(a, i) == digit(b, i),
    ensures
        a == b,
    decreases k,
{
    reveal(pow);
    if k > 0 {
        let a1 = a / 18;
        let b1 = b / 18;
        assert forall|i: nat| i < k - 1 implies digit(a1, i) == digit(b1, i) by {
            lemma_next_digit(a, i);
            lemma_next_digit(b, i);
            lemma_pow_positive(18, i);
            lemma_pow_positive(18, i + 1);
            lemma_div_denominator(a as int, 18, pow(18, i));
            lemma_div_denominator(b as int, 18, pow(18, i));
            assert(18 * pow(18, i) == pow(18, i + 1));
            assert(digit(a, i + 1) == digit(b, i + 1));
        }
        assert(pow(18, k) == 18 * pow(18, (k - 1) as nat));
        lemma_digits_determine(a1, b1, (k - 1) as nat);
        let unit = pow(18, 0) as nat;
        assert(a / unit == a && b / unit == b) by (nonlinear_arith)
            requires
                unit == 1,
        ;
        assert(digit(a, 0) == a % 18 && digit(b, 0) == b % 18);
        assert(a == 18 * a1 + a % 18);
        assert(b == 18 * b1 + b % 18);
    }
}

/// A slot of the enumeration holds its digit over the minimum code; where it
/// is absent, the digit is zero.
proof fn lemma_absent_digit(m: nat, i: int)
    requires
        0 <= i,
    ensures
        match nth_layer(m, i) {
            Some(code) => code == ParamSet::MINIMUM_RI + digit(m, i as nat),
            None => digit(m, i as nat) == 0,
        },
{
    if nth_layer(m, i) is None {
        let low = pow(18, (i - 1) as nat) as nat;
        lemma_next_digit(m, (i - 1) as nat);
        assert(m / low >= 0) by (nonlinear_arith)
            requires
                low > 0,
        ;
        assert(m / low == 0);
        assert(m / (pow(18, i as nat) as nat) == 0);
    }
}

/// The size of the space of designs that the enumeration runs through, and
/// the bound that is one less.
pub proof fn lemma_max_possibilities()
    ensures
        pow(18, 10) == 3_570_467_226_624,
        ParamSet::MAX_POSSIBILITIES == 256 * 9 * pow(18, 10) - 1,
{
    reveal_with_fuel(pow, 11);
    let size = pow(18, 10);
    assert(256 * 9 * size == 8_226_356_490_141_696) by (nonlinear_arith)
        requires
            size == 3_570_467_226_624,
    ;
}

/// The enumeration gives every design at most once: two positions below
/// `256 * 9 * 18^10` with the same design are the same position.
pub proof fn lemma_nth_injective(a: nat, b: nat)
    requires
        a < 256 * 9 * pow(18, 10),
        b < 256 * 9 * pow(18, 10),
        spec_nth(a) == spec_nth(b),
    ensures
        a == b,
{
    lemma_max_possibilities();
    let ma = a / 2304;
    let mb = b / 2304;
    assert(PARTITION_THICKNESSES[0] == 2 && PARTITION_THICKNESSES[1] == 4
        && PARTITION_THICKNESSES[2] == 6 && PARTITION_THICKNESSES[3] == 8
        && PARTITION_THICKNESSES[4] == 10 && PARTITION_THICKNESSES[5] == 12
        && PARTITION_THICKNESSES[6] == 15 && PARTITION_THICKNESSES[7] == 20
        && PARTITION_THICKNESSES[8] == 30);
    assert((a / 256) % 9 == (b / 256) % 9);
    assert forall|i: nat| i < 10 implies digit(ma, i) == digit(mb, i) by {
        assert(spec_nth(a).layers[i as int] == nth_layer(ma, i as int));
        assert(spec_nth(b).layers[i as int] == nth_layer(mb, i as int));
        lemma_absent_digit(ma, i as int);
        lemma_absent_digit(mb, i as int);
    }
    lemma_digits_determine(ma, mb, 10);
    lemma_div_denominator(a as int, 256, 9);
    lemma_div_denominator(b as int, 256, 9);
}

/// Parameter set for one stack.
#[derive(Clone, Copy, Debug, PartialEq, Eq, Hash)]
pub struct ParamSet {
    /// Thickness of each layer in tenths of mm above 3.0mm.
    pub layers_thickness: u8,
    /// Thickness of each partition in tenths of mm.
    pub partitions_thickness: u8,
    /// Refractive indices of the layers in hundredths above 0.99.
    ///
    /// - 34 = 1.33 (water)
    /// - 51 = 1.50 (acrylic)
    ///
    /// There are 10 possible layers; those before the first `None` are the
    /// ones defined for this parameter set.
    pub layers: [Option<u8>; 10],
}

impl View for ParamSet {
    type V = Design;

    open spec fn view(&self) -> Design {
        Design {
            layers_thickness: self.layers_thickness,
            partitions_thickness: self.partitions_thickness,
            layers: self.layers@,
        }
    }
}

impl ParamSet {
    /// How many layer thicknesses there are: every byte is one.
    pub const POSSIBLE_LAYERS: u64 = 256;

    /// How many partition thicknesses there are.
    pub const POSSIBLE_PARTS: u64 = 9;

    /// How many slots a design has.
    pub const LAYERS: usize = 10;

    /// 0.99 + 0.34 = 1.33 (water)
    pub const MINIMUM_RI: u8 = 34;

    /// 0.99 + 0.51 = 1.50 (acrylic)
    pub const MAXIMUM_RI: u8 = 51;

    /// How many codes there are from water to acrylic.
    pub const POSSIBLE_RIS: u64 = 18;

    /// One less than 256 * 9 * 18^10: the random builder draws below it.
    pub const MAX_POSSIBILITIES: u64 = 8_226_356_490_141_695;

    /// Whether the invariants of a design hold of this value.
    pub open spec fn wf(self) -> bool {
        self@.wf()
    }

    /// Checks `wf`.
    pub fn is_valid(&self) -> (ok: bool)
        ensures
            ok == self.wf(),
    {
        if normalise_partition_thickness(self.partitions_thickness) != self.partitions_thickness {
            proof {
                if is_partition_thickness(self.partitions_thickness) {
                    lemma_normalised_fixes_usable(self.partitions_thickness);
                }
            }
            return false;
        }
        let mut seen_absent: bool = false;
        let mut i: usize = 0;
        while i < 10
            invariant
                i <= 10,
                forall|j: int|
                    0 <= j < i ==> ((#[trigger] self.layers@[j]) matches Some(c) ==> c >= 34),
                seen_absent <==> exists|j: int| 0 <= j < i && (#[trigger] self.layers@[j]) is None,
                forall|j: int, k: int|
                    0 <= j <= k < i && (#[trigger] self.layers@[j]) is None ==> (
                    #[trigger] self.layers@[k]) is None,
            decreases 10 - i,
        {
            match self.layers[i] {
                Some(code) => {
                    if seen_absent || code < Self::MINIMUM_RI {
                        return false;
                    }
                },
                None => {
                    seen_absent = true;
                },
            }
            i += 1;
        }
        true
    }

    /// Generate the Nth parameter set.
    ///
    /// Sequence loops breadth first through:
    /// - thickness of layers (in 0.1mm increments, 256 steps)
    /// - thickness of partitions (out of [`PARTITION_THICKNESSES`], 9 steps)
    /// - RI of each layer (in 0.01 increments from the minimum, 18 steps each)
    pub fn nth(n: u64) -> (r: Self)
        ensures
            r@ == spec_nth(n as nat),
            r.wf(),
    {
        let layer_n: u8 = (n % Self::POSSIBLE_LAYERS) as u8;
        let upper: u64 = n / Self::POSSIBLE_LAYERS;
        let part_n: usize = (upper % Self::POSSIBLE_PARTS) as usize;
        let ghost m: nat = (n as nat) / 2304;
        let mut rem: u64 = upper / Self::POSSIBLE_PARTS;
        let mut ris: [Option<u8>; 10] = [None; 10];
        let mut live: bool = true;
        let mut i: usize = 0;
        proof {
            lemma_div_denominator(n as int, 256, 9);
            assert(rem == (n as int / 256) / 9 == n as int / 2304);
            reveal(pow);
            let unit = pow(18, 0) as nat;
            assert(m / unit == m) by (nonlinear_arith)
                requires
                    unit == 1,
            ;
        }
        while i < 10
            invariant
                i <= 10,
                m == (n as nat) / 2304,
                live ==> rem == m / (pow(18, i as nat) as nat),
                live && i >= 1 ==> m / (pow(18, (i - 1) as nat) as nat) > 0,
                !live ==> i >= 1 && m / (pow(18, (i - 1) as nat) as nat) == 0,
                forall|j: int| 0 <= j < i ==> ris@[j] == nth_layer(m, j),
                forall|j: int| i <= j < 10 ==> ris@[j] is None,
            decreases 10 - i,
        {
            proof {
                lemma_next_digit(m, i as nat);
                if i >= 1 {
                    lemma_next_digit(m, (i - 1) as nat);
                }
            }
            if live {
                let digit: u8 = (rem % Self::POSSIBLE_RIS) as u8;
                ris[i] = Some(Self::MINIMUM_RI + digit);
                if rem == 0 {
                    live = false;
                } else {
                    rem = rem / Self::POSSIBLE_RIS;
                }
            }
            i += 1;
        }
        let r = Self {
            layers_thickness: layer_n,
            partitions_thickness: PARTITION_THICKNESSES[part_n],
            layers: ris,
        };
        proof {
            assert(r@.layers =~= spec_nth(n as nat).layers);
            lemma_nth_wf(n as nat);
        }
        r
    }

    /// Length of the layers "array": the index of its first absent slot.
    pub fn len(self) -> (n: usize)
        ensures
            n == self@.len(),
            n <= 10,
    {
        let mut i: usize = 0;
        while i < 10 && self.layers[i].is_some()
            invariant
                i <= 10,
                forall|j: int| 0 <= j < i ==> (#[trigger] self.layers@[j]) is Some,
            decreases 10 - i,
        {
            i += 1;
        }
        proof {
            lemma_first_absent(self.layers@, 0, i as int);
        }
        i
    }
}

impl Default for ParamSet {
    fn default() -> (r: Self)
        ensures
            r@ == spec_nth(0),
            r.wf(),
    {
        Self::nth(0)
    }
}

} // verus!
