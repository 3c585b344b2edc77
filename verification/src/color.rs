//! Colours: three interchangeable encodings behind one trait.

pub use crate::hsv::Hsv;
use crate::random::uniform_i32;
use rand::rngs::SmallRng;
use vstd::prelude::*;

verus! {

/// The denominator of every similarity score: `SCALE` stands for 1.0.
pub const SCALE: i32 = 255_000;

/// The integer part of the Rec. 709 luminance
/// `0.2126 r + 0.7152 g + 0.0722 b`.
pub open spec fn luminance(r: u8, g: u8, b: u8) -> int {
    (2126 * r + 7152 * g + 722 * b) / 10000
}

/// `v` brought into `[lo, hi]`.
pub open spec fn clamped(v: int, lo: int, hi: int) -> int {
    if v < lo {
        lo
    } else if v > hi {
        hi
    } else {
        v
    }
}

/// Computes [`luminance`].
pub fn luminance_of(r: u8, g: u8, b: u8) -> (l: u8)
    ensures
        l == luminance(r, g, b),
{
    let sum: u32 = 2126 * (r as u32) + 7152 * (g as u32) + 722 * (b as u32);
    (sum / 10000) as u8
}

/// A pixel colour in some encoding.
///
/// Similarities are fixed-point numbers with denominator [`SCALE`].
pub trait Color: Copy + Sized {
    /// Whether every field lies in the range its encoding allows.
    spec fn valid(self) -> bool;

    /// The darkest colour.
    spec fn spec_black() -> Self;

    /// The brightest colour.
    spec fn spec_white() -> Self;

    /// The encoding of an 8-bit RGB triple.
    spec fn spec_from_rgb(r: u8, g: u8, b: u8) -> Self;

    /// The 8-bit RGB triple that a colour decodes to.
    spec fn spec_to_rgb(self) -> (u8, u8, u8);

    /// How alike two colours are, in units of `1 / SCALE`.
    spec fn similarity(self, other: Self) -> int;

    /// Whether `generate` may return this colour.
    spec fn generable(self) -> bool;

    /// Whether `mutate` may turn `self` into `next`.
    spec fn reachable(self, next: Self) -> bool;

    /// The darkest colour.
    fn black() -> (c: Self)
        ensures
            c == Self::spec_black(),
            c.valid(),
    ;

    /// The brightest colour, which an untouched canvas shows.
    fn white() -> (c: Self)
        ensures
            c == Self::spec_white(),
            c.valid(),
    ;

    /// Encodes an 8-bit RGB triple.
    fn from_rgb(r: u8, g: u8, b: u8) -> (c: Self)
        ensures
            c == Self::spec_from_rgb(r, g, b),
            c.valid(),
    ;

    /// Decodes to an 8-bit RGB triple.
    fn to_rgb(self) -> (rgb: (u8, u8, u8))
        requires
            self.valid(),
        ensures
            rgb == self.spec_to_rgb(),
    ;

    /// Scores how alike two colours are: `SCALE` for a colour and itself,
    /// less for any other pair.
    fn compare(self, other: Self) -> (s: i32)
        requires
            self.valid(),
            other.valid(),
        ensures
            s == self.similarity(other),
    ;

    /// Draws a fresh colour.
    fn generate(rng: &mut SmallRng) -> (c: Self)
        ensures
            c.generable(),
            c.valid(),
    ;

    /// Draws a colour close to this one.
    fn mutate(self, rng: &mut SmallRng) -> (c: Self)
        requires
            self.valid(),
        ensures
            self.reachable(c),
            c.valid(),
    ;

    /// Comparing is symmetric.
    proof fn similarity_symmetric(a: Self, b: Self)
        ensures
            a.similarity(b) == b.similarity(a),
    ;

    /// No two valid colours are more alike than a colour and itself, which
    /// score exactly `SCALE`.
    proof fn similarity_bounded(a: Self, b: Self)
        requires
            a.valid(),
            b.valid(),
        ensures
            a.similarity(b) <= SCALE,
            a.similarity(a) == SCALE,
    ;
}

/// Greyscale: the luminance, kept as one 8-bit level.
#[derive(Clone, Copy, Debug, PartialEq, Eq, Structural)]
pub struct Grey {
    pub value: u8,
}

impl Grey {
    /// The level `delta` steps away, stopping at 0 and 255.
    pub open spec fn spec_shifted(self, delta: int) -> Grey {
        Grey { value: clamped(self.value + delta, 0, 255) as u8 }
    }

    /// Moves the level by `delta` steps, stopping at 0 and 255.
    pub fn shifted(self, delta: i32) -> (c: Grey)
        ensures
            c == self.spec_shifted(delta as int),
    {
        let moved: i64 = self.value as i64 + delta as i64;
        if moved < 0 {
            Grey { value: 0 }
        } else if moved > 255 {
            Grey { value: 255 }
        } else {
            Grey { value: moved as u8 }
        }
    }
}

impl Color for Grey {
    open spec fn valid(self) -> bool {
        true
    }

    open spec fn spec_black() -> Self {
        Grey { value: 0 }
    }

    open spec fn spec_white() -> Self {
        Grey { value: 255 }
    }

    open spec fn spec_from_rgb(r: u8, g: u8, b: u8) -> Self {
        Grey { value: luminance(r, g, b) as u8 }
    }

    open spec fn spec_to_rgb(self) -> (u8, u8, u8) {
        (self.value, self.value, self.value)
    }

    /// `1 - |a - b| / 255`, scaled.
    open spec fn similarity(self, other: Self) -> int {
        SCALE - 1000 * vstd::math::abs(self.value - other.value)
    }

    /// Levels below 190, so that a fresh shape shows on a white canvas.
    open spec fn generable(self) -> bool {
        self.value < 190
    }

    /// At most five levels down or four up, stopping at 0 and 255.
    open spec fn reachable(self, next: Self) -> bool {
        exists|delta: int| -5 <= delta < 5 && next == #[trigger] self.spec_shifted(delta)
    }

    fn black() -> (c: Self) {
        Grey { value: 0 }
    }

    fn white() -> (c: Self) {
        Grey { value: 255 }
    }

    fn from_rgb(r: u8, g: u8, b: u8) -> (c: Self) {
        Grey { value: luminance_of(r, g, b) }
    }

    fn to_rgb(self) -> (rgb: (u8, u8, u8)) {
        (self.value, self.value, self.value)
    }

    fn compare(self, other: Self) -> (s: i32) {
        let a: i32 = self.value as i32;
        let b: i32 = other.value as i32;
        let d: i32 = if a >= b { a - b } else { b - a };
        SCALE - 1000 * d
    }

    fn generate(rng: &mut SmallRng) -> (c: Self) {
        let level: i32 = uniform_i32(rng, 0, 190);
        Grey { value: level as u8 }
    }

    fn mutate(self, rng: &mut SmallRng) -> (c: Self) {
        let delta: i32 = uniform_i32(rng, -5, 5);
        let c = self.shifted(delta);
        c
    }

    proof fn similarity_symmetric(a: Self, b: Self) {
    }

    proof fn similarity_bounded(a: Self, b: Self) {
    }
}

/// Monochrome: black below the luminance threshold, white above it.
#[derive(Clone, Copy, Debug, PartialEq, Eq, Structural)]
pub struct Black {
    pub value: u8,
}

/// The luminance above which [`Black`] encodes white.
pub const THRESHOLD: u8 = 110;

impl Color for Black {
    open spec fn valid(self) -> bool {
        self.value == 0 || self.value == 255
    }

    open spec fn spec_black() -> Self {
        Black { value: 0 }
    }

    open spec fn spec_white() -> Self {
        Black { value: 255 }
    }

    open spec fn spec_from_rgb(r: u8, g: u8, b: u8) -> Self {
        if luminance(r, g, b) > THRESHOLD {
            Black { value: 255 }
        } else {
            Black { value: 0 }
        }
    }

    open spec fn spec_to_rgb(self) -> (u8, u8, u8) {
        (self.value, self.value, self.value)
    }

    /// All or nothing.
    open spec fn similarity(self, other: Self) -> int {
        if self.value == other.value {
            SCALE as int
        } else {
            0
        }
    }

    /// The palette is fixed: every fresh colour is black.
    open spec fn generable(self) -> bool {
        self == Self::spec_black()
    }

    /// The palette is fixed: mutation changes nothing.
    open spec fn reachable(self, next: Self) -> bool {
        next == self
    }

    fn black() -> (c: Self) {
        Black { value: 0 }
    }

    fn white() -> (c: Self) {
        Black { value: 255 }
    }

    fn from_rgb(r: u8, g: u8, b: u8) -> (c: Self) {
        if luminance_of(r, g, b) > THRESHOLD {
            Black { value: 255 }
        } else {
            Black { value: 0 }
        }
    }

    fn to_rgb(self) -> (rgb: (u8, u8, u8)) {
        (self.value, self.value, self.value)
    }

    fn compare(self, other: Self) -> (s: i32) {
        if self.value == other.value {
            SCALE
        } else {
            0
        }
    }

    fn generate(_rng: &mut SmallRng) -> (c: Self) {
        Black { value: 0 }
    }

    fn mutate(self, _rng: &mut SmallRng) -> (c: Self) {
        self
    }

    proof fn similarity_symmetric(a: Self, b: Self) {
    }

    proof fn similarity_bounded(a: Self, b: Self) {
    }
}

} // verus!
