//! Approximates a target raster image by hill climbing over a fixed
//! population of coloured shapes.
//!
//! A [`canvas::Canvas`] holds pixels in one of the colour encodings of
//! [`color`]; the shapes of [`primitive`] draw on it; and an
//! [`anneal::Anneal`] proposes one change to its population at a time,
//! redraws, scores the result against the target and keeps the change only
//! if the score rose.
//!
//! All arithmetic is in integers. Similarities, saturations and values are
//! fixed-point fractions with denominator [`color::SCALE`]; a fitness is a
//! sum of similarities.

pub mod anneal;
pub mod arith;
pub mod canvas;
pub mod color;
pub mod error;
pub mod hsv;
pub mod line;
pub mod primitive;
pub mod random;
pub mod resample;
pub mod round_trip;
