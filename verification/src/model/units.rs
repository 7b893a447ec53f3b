//! Units of the simulator: lengths in microns, angles in microradians, sines
//! in billionths, refractive indices as codes in hundredths above 0.99.

use vstd::prelude::*;

verus! {

/// A length or a height, in micrometres.
pub type Microns = u64;

/// An angle, in millionths of a radian; negative is backwards.
pub type Microradians = i32;

/// A sine, in billionths.
pub type Billionths = i64;

/// The sine of a quarter turn.
pub const WHOLE: Billionths = 1_000_000_000;

/// Refractive-index code of air (1.00).
pub const RI_AIR: u8 = 1;

/// A quarter turn: the largest incidence a ray can have to the normal.
pub const RIGHT_ANGLE: Microradians = 1_570_796;

/// Converts tenths of a millimetre to microns.
pub fn mm_tenths_to_microns(mm10ths: u8) -> (um: Microns)
    ensures
        um == mm10ths * 100,
{
    let wide: Microns = mm10ths as Microns;
    wide * 100
}

/// Converts a refractive-index code to the refractive index it stands for,
/// in hundredths: a code counts hundredths above 0.99.
pub fn model_ri_to_real_ri(model_ri: u8) -> (hundredths: u16)
    ensures
        hundredths == model_ri + 99,
{
    let wide: u16 = model_ri as u16;
    wide + 99
}

/// The sum of two lengths, held at the largest `u64`.
pub open spec fn sat_add(a: int, b: int) -> int {
    if a + b > u64::MAX {
        u64::MAX as int
    } else {
        a + b
    }
}

/// The difference of two lengths, held at zero.
pub open spec fn sat_sub(a: int, b: int) -> int {
    if a < b {
        0
    } else {
        a - b
    }
}

/// The product of a count and a length, held at the largest `u64`.
pub open spec fn sat_mul(n: int, a: int) -> int {
    if n * a > u64::MAX {
        u64::MAX as int
    } else {
        n * a
    }
}

} // verus!
