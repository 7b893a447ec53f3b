//! Search-space encoding, genetic operators and ray bookkeeping for a
//! multi-layer optical stack.
//!
//! A stack alternates "partition" and "layer" media. A candidate design is a
//! [`paramset::ParamSet`]: two thicknesses and up to ten refractive-index
//! codes. Its packed twelve-byte form is in [`array`] and [`genotype`]. The
//! operators that an evolutionary search applies to designs are in
//! [`builder`] and [`mutation`], the random draws they make in [`rng`]. The
//! simulator in [`model`] scores a design by the light that a sweep of rays
//! gets through its stack; it works on integers only, lengths in microns and
//! angles in microradians, and leaves Snell's law to the caller. [`fitness`]
//! holds the scale of the scores, and [`text`] puts a design in words.

pub mod array;
pub mod builder;
pub mod fitness;
pub mod genotype;
pub mod model;
pub mod mutation;
pub mod paramset;
pub mod rng;
pub mod text;
