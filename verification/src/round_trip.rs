//! What survives of an RGB triple that is encoded and decoded again.

use crate::arith::{lemma_floor_quotient, lemma_shift_quotient};
use crate::color::{luminance, Black, Color, Grey, SCALE};
use crate::hsv::{blend, max3, min3, saturation_of, Hsv, SEXTANT};
use vstd::prelude::*;

verus! {

/// A saturation computed from a spread and a largest channel encloses the
/// exact quotient from below.
proof fn lemma_saturation(hi: int, delta: int)
    requires
        0 < delta <= hi <= 255,
    ensures
        ({
            let s = delta * SCALE / hi;
            &&& 0 < s <= SCALE
            &&& hi * s <= delta * SCALE < hi * s + hi
        }),
{
    let x = delta * SCALE;
    let s = x / hi;
    assert(x == hi * s + x % hi && 0 <= x % hi < hi) by (nonlinear_arith)
        requires
            hi > 0,
            s == x / hi,
    ;
    assert(0 < s <= SCALE) by (nonlinear_arith)
        requires
            0 < delta <= hi <= 255,
            hi * s <= delta * SCALE < hi * s + hi,
            SCALE == 255_000,
    ;
}

/// The share of a sextant that the hue has for a channel `part` levels
/// into a spread of `delta` encloses the exact quotient from below.
proof fn lemma_share(delta: int, part: int)
    requires
        0 < delta <= 255,
        0 <= part <= delta,
    ensures
        ({
            let f = SEXTANT * part / delta;
            &&& 0 <= f <= SEXTANT
            &&& part < delta ==> f < SEXTANT
            &&& part == delta ==> f == SEXTANT
            &&& delta * f <= SEXTANT * part < delta * f + delta
        }),
{
    let x = SEXTANT * part;
    let f = x / delta;
    assert(x == delta * f + x % delta && 0 <= x % delta < delta) by (nonlinear_arith)
        requires
            delta > 0,
            f == x / delta,
    ;
    assert(0 <= f <= SEXTANT && (part < delta ==> f < SEXTANT) && (part == delta ==> f
        == SEXTANT)) by (nonlinear_arith)
        requires
            0 < delta,
            0 <= part <= delta,
            delta * f <= SEXTANT * part < delta * f + delta,
            SEXTANT == 60_000,
    ;
}

/// A blend is pinned by the multiples of `SCALE * SEXTANT` that enclose
/// `hi * (SCALE * SEXTANT - s * w)`, where the value is `hi` levels.
proof fn lemma_blend_quotient(hi: int, s: int, w: int, c: int)
    requires
        0 <= hi <= 255,
        c * (SCALE * SEXTANT) <= hi * (SCALE * SEXTANT) - (hi * s) * w < (c + 1) * (SCALE
            * SEXTANT),
    ensures
        blend(hi * 1000, s, w) == c,
{
    let n: int = SCALE * SEXTANT;
    let x = hi * n - (hi * s) * w;
    let num = 255 * (hi * 1000) * (n - s * w);
    assert(num == SCALE * x) by (nonlinear_arith)
        requires
            num == 255 * (hi * 1000) * (n - s * w),
            x == hi * n - (hi * s) * w,
            SCALE == 255_000,
    ;
    let den: int = SCALE * SCALE * SEXTANT;
    assert(c * den <= num < (c + 1) * den) by (nonlinear_arith)
        requires
            c * n <= x < (c + 1) * n,
            num == SCALE * x,
            den == SCALE * n,
            SCALE == 255_000,
    ;
    lemma_floor_quotient(num, den, c);
}

/// A channel that the hue approaches from above comes back exactly: with
/// the weight rounded down, the blend of the largest channel `hi` and the
/// saturation of the spread `delta` is the channel `c` itself.
proof fn lemma_blend_exact(hi: int, delta: int, c: int)
    requires
        0 < delta <= hi <= 255,
        hi - delta <= c <= hi,
    ensures
        blend(hi * 1000, delta * SCALE / hi, SEXTANT * (hi - c) / delta) == c,
{
    let s = delta * SCALE / hi;
    let f = SEXTANT * (hi - c) / delta;
    lemma_saturation(hi, delta);
    lemma_share(delta, hi - c);
    let n: int = SCALE * SEXTANT;
    let a = hi * s;
    let b = delta * f;
    let p = a * f;
    assert(p <= SCALE * b) by (nonlinear_arith)
        requires
            p == a * f,
            b == delta * f,
            a <= delta * SCALE,
            0 <= f,
    ;
    assert(p >= SCALE * b - hi * f) by (nonlinear_arith)
        requires
            p == a * f,
            b == delta * f,
            delta * SCALE < a + hi,
            0 <= f,
    ;
    assert(hi * f <= 255 * SEXTANT) by (nonlinear_arith)
        requires
            0 <= hi <= 255,
            0 <= f <= SEXTANT,
    ;
    assert(n == 15_300_000_000);
    lemma_blend_quotient(hi, s, f, c);
}

/// A channel that the hue approaches from below comes back at most one
/// level lower: with the weight rounded up, the blend of the largest
/// channel `hi` and the saturation of the spread `delta` is the channel
/// `c` or the level under it.
proof fn lemma_blend_near(hi: int, delta: int, c: int)
    requires
        0 < delta <= hi <= 255,
        hi - delta <= c <= hi,
    ensures
        ({
            let w = SEXTANT - SEXTANT * (c - (hi - delta)) / delta;
            let t = blend(hi * 1000, delta * SCALE / hi, w);
            &&& 0 <= w <= SEXTANT
            &&& c - 1 <= t <= c
            &&& 0 <= t
        }),
{
    let s = delta * SCALE / hi;
    let f = SEXTANT * (c - (hi - delta)) / delta;
    let w = SEXTANT - f;
    lemma_saturation(hi, delta);
    lemma_share(delta, c - (hi - delta));
    let n: int = SCALE * SEXTANT;
    let a = hi * s;
    let b = delta * w;
    let p = a * w;
    assert(b == delta * SEXTANT - delta * f) by (nonlinear_arith)
        requires
            b == delta * w,
            w == SEXTANT - f,
    ;
    assert(p <= SCALE * b) by (nonlinear_arith)
        requires
            p == a * w,
            b == delta * w,
            a <= delta * SCALE,
            0 <= w,
    ;
    assert(p >= SCALE * b - hi * w) by (nonlinear_arith)
        requires
            p == a * w,
            b == delta * w,
            delta * SCALE < a + hi,
            0 <= w,
    ;
    assert(hi * w <= 255 * SEXTANT) by (nonlinear_arith)
        requires
            0 <= hi <= 255,
            0 <= w <= SEXTANT,
    ;
    let x = hi * n - p;
    if x >= c * n {
        lemma_blend_quotient(hi, s, w, c);
    } else {
        lemma_blend_quotient(hi, s, w, c - 1);
    }
    crate::hsv::lemma_blend_range(hi * 1000, s, w);
}

/// The hue that lies `part` levels of a spread of `delta` short of a
/// sextant mark: the quotient of the negative difference, a sextant on.
proof fn lemma_share_below(delta: int, part: int)
    requires
        0 < delta <= 255,
        0 <= part <= delta,
    ensures
        SEXTANT * (part - delta) / delta + SEXTANT == SEXTANT * part / delta,
{
    lemma_shift_quotient(SEXTANT * (part - delta), SEXTANT as int, delta);
}

/// Decoding the encoding of an RGB triple gives back the largest and the
/// smallest channel exactly, and every channel either exactly or one level
/// lower.
pub proof fn lemma_hsv_channels(r: u8, g: u8, b: u8)
    ensures
        Hsv::spec_from_rgb(r, g, b).valid(),
        ({
            let back = Hsv::spec_from_rgb(r, g, b).spec_to_rgb();
            &&& r - 1 <= back.0 <= r
            &&& g - 1 <= back.1 <= g
            &&& b - 1 <= back.2 <= b
            &&& max3(back.0 as int, back.1 as int, back.2 as int) == max3(
                r as int,
                g as int,
                b as int,
            )
            &&& min3(back.0 as int, back.1 as int, back.2 as int) == min3(
                r as int,
                g as int,
                b as int,
            )
        }),
{
    let hi = max3(r as int, g as int, b as int);
    let lo = min3(r as int, g as int, b as int);
    let delta = hi - lo;
    if delta == 0 {
        assert(saturation_of(r as int, g as int, b as int) == 0);
    } else {
        // The largest channel is the value; the smallest is the blend at
        // full weight; a channel as large as the largest is the blend at
        // no weight.
        lemma_saturation(hi, delta);
        lemma_blend_exact(hi, delta, lo);
        lemma_blend_exact(hi, delta, hi);
        lemma_share(delta, delta);
        lemma_share(delta, 0);
        // The middle channel is the blend at the weight that the hue
        // gives: exact where the hue falls short of a sextant mark, near
        // where it stands beyond one.
        if r == hi {
            if g >= b {
                lemma_share(delta, g - b);
                if g - b < delta {
                    lemma_blend_near(hi, delta, g as int);
                }
            } else {
                lemma_share(delta, hi - b);
                lemma_share_below(delta, hi - b);
                lemma_blend_exact(hi, delta, b as int);
            }
        } else if g == hi {
            if b >= r {
                lemma_share(delta, b - r);
                if b - r < delta {
                    lemma_blend_near(hi, delta, b as int);
                }
            } else {
                lemma_share(delta, hi - r);
                lemma_share_below(delta, hi - r);
                lemma_blend_exact(hi, delta, r as int);
            }
        } else {
            if r >= g {
                lemma_share(delta, r - g);
                lemma_blend_near(hi, delta, r as int);
            } else {
                lemma_share(delta, hi - g);
                lemma_share_below(delta, hi - g);
                lemma_blend_exact(hi, delta, g as int);
            }
        }
    }
}

/// Encoding an RGB triple as hue, saturation and value and decoding it
/// again lowers its luminance by at most one level and never raises it.
pub proof fn lemma_hsv_round_trip(r: u8, g: u8, b: u8)
    ensures
        ({
            let back = Hsv::spec_from_rgb(r, g, b).spec_to_rgb();
            luminance(r, g, b) - 1 <= luminance(back.0, back.1, back.2) <= luminance(r, g, b)
        }),
{
    lemma_hsv_channels(r, g, b);
}

/// Encoding an RGB triple as a grey level and decoding it again keeps its
/// luminance, rounded down to a whole level.
pub proof fn lemma_grey_round_trip(r: u8, g: u8, b: u8)
    ensures
        ({
            let back = Grey::spec_from_rgb(r, g, b).spec_to_rgb();
            &&& back.0 == luminance(r, g, b)
            &&& back.1 == luminance(r, g, b)
            &&& back.2 == luminance(r, g, b)
            &&& luminance(back.0, back.1, back.2) == luminance(r, g, b)
        }),
{
}

/// Encoding an RGB triple as monochrome and decoding it again gives pure
/// white if its luminance is above the threshold, and pure black if not.
pub proof fn lemma_black_round_trip(r: u8, g: u8, b: u8)
    ensures
        Black::spec_from_rgb(r, g, b).valid(),
        Black::spec_from_rgb(r, g, b).spec_to_rgb() == if luminance(r, g, b)
            > crate::color::THRESHOLD {
            (255u8, 255u8, 255u8)
        } else {
            (0u8, 0u8, 0u8)
        },
{
}

} // verus!
