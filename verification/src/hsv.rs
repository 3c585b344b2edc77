//! Hue, saturation and value in fixed point.

use crate::arith::{
    floor_sqrt, is_floor_sqrt, isqrt, lemma_floor_sqrt, lemma_floor_sqrt_unique, lemma_shift_quotient,
    lemma_square_monotonic,
};
use crate::color::{clamped, Color, SCALE};
use crate::random::uniform_i32;
use rand::rngs::SmallRng;
use vstd::prelude::*;

verus! {

/// Hue units in a full turn: a unit is a thousandth of a degree.
pub const TURN: i32 = 360_000;

/// Hue units in half a turn.
pub const HALF_TURN: i32 = 180_000;

/// Hue units in a sixth of a turn, the span between two primary or
/// secondary colours.
pub const SEXTANT: i32 = 60_000;

/// The largest of three.
pub open spec fn max3(a: int, b: int, c: int) -> int {
    if a >= b && a >= c {
        a
    } else if b >= c {
        b
    } else {
        c
    }
}

/// The smallest of three.
pub open spec fn min3(a: int, b: int, c: int) -> int {
    if a <= b && a <= c {
        a
    } else if b <= c {
        b
    } else {
        c
    }
}

/// The hue of an RGB triple, rounded down to a whole unit: a sixth of a
/// turn per step from one dominant channel to the next, zero for greys.
pub open spec fn hue_of(r: int, g: int, b: int) -> int {
    let hi = max3(r, g, b);
    let delta = hi - min3(r, g, b);
    if delta == 0 {
        0
    } else if r == hi {
        (SEXTANT * (g - b) / delta) % (TURN as int)
    } else if g == hi {
        2 * SEXTANT + SEXTANT * (b - r) / delta
    } else {
        4 * SEXTANT + SEXTANT * (r - g) / delta
    }
}

/// The saturation of an RGB triple, rounded down: the spread of the
/// channels relative to the largest, zero for black.
pub open spec fn saturation_of(r: int, g: int, b: int) -> int {
    let hi = max3(r, g, b);
    if hi == 0 {
        0
    } else {
        (hi - min3(r, g, b)) * SCALE / hi
    }
}

/// The value of an RGB triple: the largest channel as a fraction of 255.
pub open spec fn value_of(r: int, g: int, b: int) -> int {
    max3(r, g, b) * SCALE / 255
}

/// A colour as hue, saturation and value.
///
/// `h` counts thousandths of a degree and lies in `[0, TURN)`; `s` and `v`
/// are fractions with denominator `SCALE` and lie in `[0, SCALE]`.
#[derive(Clone, Copy, Debug, PartialEq, Eq, Structural)]
pub struct Hsv {
    pub h: i32,
    pub s: i32,
    pub v: i32,
}

/// The widest step of the hue in one mutation: fourteen degrees.
pub const HUE_STEP: i32 = 14_000;

/// The widest step of saturation or value in one mutation: 0.08.
pub const TONE_STEP: i32 = 20_400;

/// A fraction with denominator `SCALE` as an 8-bit level, rounded down.
pub open spec fn level(x: int) -> int {
    255 * x / (SCALE as int)
}

/// The 8-bit level of `v * (1 - s * w)`, rounded down, where `v` and `s`
/// are fractions with denominator `SCALE` and the weight `w` is a fraction
/// with denominator `SEXTANT`.
pub open spec fn blend(v: int, s: int, w: int) -> int {
    255 * v * (SCALE * SEXTANT - s * w) / (SCALE * SCALE * SEXTANT)
}

/// The shorter way round the hue circle between two hues.
pub open spec fn arc(a: int, b: int) -> int {
    let d = vstd::math::abs(a - b) as int;
    if d <= TURN - d {
        d
    } else {
        TURN - d
    }
}

/// The sum of squares under the root of the distance between two colours:
/// the arc as a fraction of half a turn, and the differences in saturation
/// and in value.
pub open spec fn spread(a: Hsv, b: Hsv) -> int {
    let dh = arc(a.h as int, b.h as int) * SCALE / (HALF_TURN as int);
    let ds = a.s - b.s;
    let dv = a.v - b.v;
    dh * dh + ds * ds + dv * dv
}

impl Hsv {
    /// The colour with the given fields, where they are in range.
    pub fn new(h: i32, s: i32, v: i32) -> (c: Option<Hsv>)
        ensures
            c == if 0 <= h < TURN && 0 <= s <= SCALE && 0 <= v <= SCALE {
                Some(Hsv { h, s, v })
            } else {
                None
            },
    {
        if 0 <= h && h < TURN && 0 <= s && s <= SCALE && 0 <= v && v <= SCALE {
            Some(Hsv { h, s, v })
        } else {
            None
        }
    }

    /// The colour whose hue lies `dh` further round the circle and whose
    /// saturation and value lie `ds` and `dv` further along, stopping at 0
    /// and at `SCALE`.
    pub open spec fn spec_shifted(self, dh: int, ds: int, dv: int) -> Hsv {
        Hsv {
            h: ((self.h + dh) % (TURN as int)) as i32,
            s: clamped(self.s + ds, 0, SCALE as int) as i32,
            v: clamped(self.v + dv, 0, SCALE as int) as i32,
        }
    }

    /// Turns the hue by `dh` and moves saturation and value by `ds` and
    /// `dv`, stopping at 0 and at `SCALE`.
    pub fn shifted(self, dh: i32, ds: i32, dv: i32) -> (c: Hsv)
        requires
            self.valid(),
        ensures
            c == self.spec_shifted(dh as int, ds as int, dv as int),
            c.valid(),
    {
        // 11931 turns exceed the span of an i32 twice over.
        let lifted: i64 = self.h as i64 + dh as i64 + 11931 * (TURN as i64);
        proof {
            lemma_shift_quotient(self.h + dh, 11931, TURN as int);
        }
        let h: i32 = (lifted % (TURN as i64)) as i32;
        Hsv { h, s: clamp_tone(self.s as i64 + ds as i64), v: clamp_tone(self.v as i64 + dv as i64) }
    }
}

/// Brings a saturation or value into `[0, SCALE]`.
fn clamp_tone(x: i64) -> (t: i32)
    ensures
        t == clamped(x as int, 0, SCALE as int),
{
    if x < 0 {
        0
    } else if x > SCALE as i64 {
        SCALE
    } else {
        x as i32
    }
}

/// Computes [`level`].
fn level_of(x: i32) -> (c: u8)
    requires
        0 <= x <= SCALE,
    ensures
        c == level(x as int),
{
    (255 * (x as i64) / (SCALE as i64)) as u8
}

/// Computes [`blend`].
fn blend_of(v: i32, s: i32, w: i32) -> (c: u8)
    requires
        0 <= v <= SCALE,
        0 <= s <= SCALE,
        0 <= w <= SEXTANT,
    ensures
        c == blend(v as int, s as int, w as int),
{
    let full: i64 = SCALE as i64 * SEXTANT as i64;
    proof {
        lemma_blend_range(v as int, s as int, w as int);
    }
    let cut: i64 = s as i64 * w as i64;
    let rest: i64 = full - cut;
    let lit: i64 = 255 * (v as i64);
    let num: i64 = lit * rest;
    let den: i64 = SCALE as i64 * full;
    (num / den) as u8
}

/// The dividend of [`blend`] fits 64 bits, and the quotient 8.
pub proof fn lemma_blend_range(v: int, s: int, w: int)
    requires
        0 <= v <= SCALE,
        0 <= s <= SCALE,
        0 <= w <= SEXTANT,
    ensures
        0 <= s * w <= SCALE * SEXTANT,
        0 <= (255 * v) * (SCALE * SEXTANT - s * w) <= 255 * SCALE * (SCALE * SEXTANT),
        255 * v * (SCALE * SEXTANT - s * w) == (255 * v) * (SCALE * SEXTANT - s * w),
        0 <= blend(v, s, w) <= 255,
{
    let full: int = SCALE * SEXTANT;
    let cut = s * w;
    assert(0 <= cut <= full) by (nonlinear_arith)
        requires
            cut == s * w,
            full == SCALE * SEXTANT,
            0 <= s <= SCALE,
            0 <= w <= SEXTANT,
    ;
    let rest = full - cut;
    let num = (255 * v) * rest;
    assert(0 <= num <= 255 * SCALE * full) by (nonlinear_arith)
        requires
            num == (255 * v) * rest,
            0 <= v <= SCALE,
            0 <= rest <= full,
    ;
    let den: int = SCALE * SCALE * SEXTANT;
    assert(full == 15_300_000_000);
    lemma_quotient_at_most(num, den, 255);
}

impl Color for Hsv {
    open spec fn valid(self) -> bool {
        &&& 0 <= self.h < TURN
        &&& 0 <= self.s <= SCALE
        &&& 0 <= self.v <= SCALE
    }

    open spec fn spec_black() -> Self {
        Hsv { h: 0, s: 0, v: 0 }
    }

    open spec fn spec_white() -> Self {
        Hsv { h: 0, s: 0, v: SCALE }
    }

    open spec fn spec_from_rgb(r: u8, g: u8, b: u8) -> Self {
        Hsv {
            h: hue_of(r as int, g as int, b as int) as i32,
            s: saturation_of(r as int, g as int, b as int) as i32,
            v: value_of(r as int, g as int, b as int) as i32,
        }
    }

    /// Greys decode to their value on every channel. Any other colour has
    /// its value on the dominant channel, and on the other two the value
    /// dimmed by the saturation, in full or in proportion to how far the
    /// hue stands into its sextant.
    open spec fn spec_to_rgb(self) -> (u8, u8, u8) {
        if self.s == 0 {
            let c = level(self.v as int) as u8;
            (c, c, c)
        } else {
            let f = self.h % SEXTANT;
            let v = level(self.v as int) as u8;
            let p = blend(self.v as int, self.s as int, SEXTANT as int) as u8;
            let q = blend(self.v as int, self.s as int, f as int) as u8;
            let t = blend(self.v as int, self.s as int, SEXTANT - f) as u8;
            let sector = self.h / SEXTANT;
            if sector == 0 {
                (v, t, p)
            } else if sector == 1 {
                (q, v, p)
            } else if sector == 2 {
                (p, v, t)
            } else if sector == 3 {
                (p, q, v)
            } else if sector == 4 {
                (t, p, v)
            } else {
                (v, p, q)
            }
        }
    }

    /// One minus the distance between the two colours, rounded up. It is
    /// negative for colours further apart than 1.
    open spec fn similarity(self, other: Self) -> int {
        SCALE - floor_sqrt(spread(self, other) as nat)
    }

    /// Any hue; saturation and value short of `SCALE`.
    open spec fn generable(self) -> bool {
        &&& 0 <= self.h < TURN
        &&& 0 <= self.s < SCALE
        &&& 0 <= self.v < SCALE
    }

    /// The hue turns by less than `HUE_STEP` either way, and saturation and
    /// value each move by less than `TONE_STEP`.
    open spec fn reachable(self, next: Self) -> bool {
        exists|dh: int, ds: int, dv: int|
            -HUE_STEP <= dh < HUE_STEP && -TONE_STEP <= ds < TONE_STEP && -TONE_STEP <= dv
                < TONE_STEP && next == #[trigger] self.spec_shifted(dh, ds, dv)
    }

    fn black() -> (c: Self) {
        Hsv { h: 0, s: 0, v: 0 }
    }

    fn white() -> (c: Self) {
        Hsv { h: 0, s: 0, v: SCALE }
    }

    fn from_rgb(r: u8, g: u8, b: u8) -> (c: Self) {
        let r: i32 = r as i32;
        let g: i32 = g as i32;
        let b: i32 = b as i32;
        let hi: i32 = if r >= g && r >= b {
            r
        } else if g >= b {
            g
        } else {
            b
        };
        let lo: i32 = if r <= g && r <= b {
            r
        } else if g <= b {
            g
        } else {
            b
        };
        let delta: i32 = hi - lo;
        let v: i32 = hi * 1000;
        let s: i32 = if hi == 0 {
            0
        } else {
            proof {
                lemma_quotient_at_most(delta as int * SCALE, hi as int, SCALE as int);
            }
            delta * SCALE / hi
        };
        let h: i32 = if delta == 0 {
            0
        } else if r == hi {
            if g >= b {
                proof {
                    lemma_sextant_steps(delta as int, (g - b) as int, 0);
                }
                SEXTANT * (g - b) / delta
            } else {
                proof {
                    lemma_sextant_steps(delta as int, (g - b) as int, 6);
                }
                SEXTANT * (6 * delta + g - b) / delta
            }
        } else if g == hi {
            proof {
                lemma_sextant_steps(delta as int, (b - r) as int, 2);
            }
            SEXTANT * (2 * delta + b - r) / delta
        } else {
            proof {
                lemma_sextant_steps(delta as int, (r - g) as int, 4);
            }
            SEXTANT * (4 * delta + r - g) / delta
        };
        Hsv { h, s, v }
    }

    fn to_rgb(self) -> (rgb: (u8, u8, u8)) {
        if self.s == 0 {
            let c = level_of(self.v);
            return (c, c, c);
        }
        let sector: i32 = self.h / SEXTANT;
        let f: i32 = self.h % SEXTANT;
        let v = level_of(self.v);
        let p = blend_of(self.v, self.s, SEXTANT);
        let q = blend_of(self.v, self.s, f);
        let t = blend_of(self.v, self.s, SEXTANT - f);
        match sector {
            0 => (v, t, p),
            1 => (q, v, p),
            2 => (p, v, t),
            3 => (p, q, v),
            4 => (t, p, v),
            _ => (v, p, q),
        }
    }

    fn compare(self, other: Self) -> (s: i32) {
        let gap: i64 = if self.h >= other.h {
            (self.h - other.h) as i64
        } else {
            (other.h - self.h) as i64
        };
        let around: i64 = if gap <= TURN as i64 - gap {
            gap
        } else {
            TURN as i64 - gap
        };
        let dh: i64 = around * (SCALE as i64) / (HALF_TURN as i64);
        let ds: i64 = self.s as i64 - other.s as i64;
        let dv: i64 = self.v as i64 - other.v as i64;
        proof {
            lemma_spread_range(self, other);
        }
        let sum: i64 = dh * dh + ds * ds + dv * dv;
        let root: u64 = isqrt(sum as u64);
        SCALE - root as i32
    }

    fn generate(rng: &mut SmallRng) -> (c: Self) {
        let h: i32 = uniform_i32(rng, 0, TURN);
        let s: i32 = uniform_i32(rng, 0, SCALE);
        let v: i32 = uniform_i32(rng, 0, SCALE);
        Hsv { h, s, v }
    }

    fn mutate(self, rng: &mut SmallRng) -> (c: Self) {
        let dh: i32 = uniform_i32(rng, -HUE_STEP, HUE_STEP);
        let ds: i32 = uniform_i32(rng, -TONE_STEP, TONE_STEP);
        let dv: i32 = uniform_i32(rng, -TONE_STEP, TONE_STEP);
        self.shifted(dh, ds, dv)
    }

    proof fn similarity_symmetric(a: Self, b: Self) {
        assert(spread(a, b) == spread(b, a)) by (nonlinear_arith)
            requires
                arc(a.h as int, b.h as int) == arc(b.h as int, a.h as int),
                a.s - b.s == -(b.s - a.s),
                a.v - b.v == -(b.v - a.v),
                spread(a, b) == (arc(a.h as int, b.h as int) * SCALE / (HALF_TURN as int)) * (arc(
                    a.h as int,
                    b.h as int,
                ) * SCALE / (HALF_TURN as int)) + (a.s - b.s) * (a.s - b.s) + (a.v - b.v) * (a.v
                    - b.v),
                spread(b, a) == (arc(b.h as int, a.h as int) * SCALE / (HALF_TURN as int)) * (arc(
                    b.h as int,
                    a.h as int,
                ) * SCALE / (HALF_TURN as int)) + (b.s - a.s) * (b.s - a.s) + (b.v - a.v) * (b.v
                    - a.v),
        ;
    }

    proof fn similarity_bounded(a: Self, b: Self) {
        assert(is_floor_sqrt(0, 0)) by (nonlinear_arith);
        lemma_floor_sqrt_unique(0, 0);
    }
}

/// The three squared differences of two valid colours sum to at most
/// `3 * SCALE * SCALE`, each being at most `SCALE` before squaring.
pub proof fn lemma_spread_range(a: Hsv, b: Hsv)
    requires
        a.valid(),
        b.valid(),
    ensures
        0 <= arc(a.h as int, b.h as int) <= HALF_TURN,
        0 <= arc(a.h as int, b.h as int) * SCALE / (HALF_TURN as int) <= SCALE,
        0 <= arc(a.h as int, b.h as int) * SCALE <= HALF_TURN * SCALE,
        0 <= spread(a, b) <= 3 * (SCALE * SCALE),
        (a.s - b.s) * (a.s - b.s) <= SCALE * SCALE,
        (a.v - b.v) * (a.v - b.v) <= SCALE * SCALE,
        (arc(a.h as int, b.h as int) * SCALE / (HALF_TURN as int)) * (arc(a.h as int, b.h as int)
            * SCALE / (HALF_TURN as int)) <= SCALE * SCALE,
        floor_sqrt(spread(a, b) as nat) <= 2 * SCALE,
{
    let around = arc(a.h as int, b.h as int);
    let dh = around * SCALE / (HALF_TURN as int);
    let ds = a.s - b.s;
    let dv = a.v - b.v;
    assert(0 <= dh <= SCALE);
    assert(0 <= dh * dh <= SCALE * SCALE) by (nonlinear_arith)
        requires
            0 <= dh <= SCALE,
    ;
    assert(0 <= ds * ds <= SCALE * SCALE) by (nonlinear_arith)
        requires
            -SCALE <= ds <= SCALE,
    ;
    assert(0 <= dv * dv <= SCALE * SCALE) by (nonlinear_arith)
        requires
            -SCALE <= dv <= SCALE,
    ;
    let n = spread(a, b) as nat;
    lemma_floor_sqrt(n);
    let r = floor_sqrt(n);
    if r > 2 * SCALE {
        lemma_square_monotonic((2 * SCALE + 1) as nat, r);
    }
}

/// A quotient of a dividend that is at most `bound` times the divisor is at
/// most `bound`.
proof fn lemma_quotient_at_most(x: int, d: int, bound: int)
    by (nonlinear_arith)
    requires
        d > 0,
        0 <= x <= bound * d,
    ensures
        0 <= x / d <= bound,
{
}

/// Where `diff` is a channel difference of magnitude at most `delta`, the
/// hue `k` sextants on is the quotient of one nonnegative dividend, and
/// lies within a sextant of the `k`-th.
proof fn lemma_sextant_steps(delta: int, diff: int, k: int)
    requires
        delta > 0,
        -delta <= diff <= delta,
        k >= 1 || (k == 0 && diff >= 0),
    ensures
        SEXTANT * (k * delta + diff) / delta == k * SEXTANT + SEXTANT * diff / delta,
        (k - 1) * SEXTANT <= SEXTANT * (k * delta + diff) / delta <= (k + 1) * SEXTANT,
        diff < 0 ==> SEXTANT * (k * delta + diff) / delta < k * SEXTANT,
        diff >= 0 ==> SEXTANT * (k * delta + diff) / delta >= k * SEXTANT,
        SEXTANT * (k * delta + diff) >= 0,
{
    let x = SEXTANT * diff;
    assert(SEXTANT * (k * delta + diff) == x + (k * SEXTANT) * delta) by (nonlinear_arith)
        requires
            x == SEXTANT * diff,
    ;
    lemma_shift_quotient(x, k * SEXTANT, delta);
    assert(-SEXTANT <= x / delta <= SEXTANT && (diff < 0 ==> x / delta < 0) && (diff >= 0 ==> x
        / delta >= 0)) by (nonlinear_arith)
        requires
            delta > 0,
            -SEXTANT * delta <= x <= SEXTANT * delta,
            x == SEXTANT * diff,
    ;
    assert(k * delta + diff >= 0) by (nonlinear_arith)
        requires
            delta > 0,
            -delta <= diff,
            k >= 1 || (k == 0 && diff >= 0),
    ;
}

} // verus!
