//! Shapes: three interchangeable geometries behind one trait.

use crate::anneal::Config;
use crate::canvas::Canvas;
use crate::color::{clamped, Color};
pub use crate::line::Line;
use crate::random::uniform_i32;
use rand::rngs::SmallRng;
use vstd::prelude::*;

verus! {

/// The widest step of a coordinate in one mutation.
pub const STEP: i32 = 5;

/// The distance that a splat keeps from the edge of the bounds.
pub const MARGIN: i16 = 2;

/// Whether `v` may be drawn from `[lo, hi]`: any value short of `hi`, or
/// `hi` itself where the range holds nothing else.
pub open spec fn drawn(v: int, lo: int, hi: int) -> bool {
    lo <= v <= hi && (v < hi || lo == hi)
}

/// Draws a coordinate from `[lo, hi]`.
pub fn pick(rng: &mut SmallRng, lo: i16, hi: i16) -> (v: i16)
    requires
        lo <= hi,
    ensures
        drawn(v as int, lo as int, hi as int),
{
    if lo == hi {
        lo
    } else {
        uniform_i32(rng, lo as i32, hi as i32) as i16
    }
}

/// Moves a coordinate by `delta` and brings it back into `[lo, hi]`.
pub fn nudge(v: i16, delta: i32, lo: i16, hi: i16) -> (moved: i16)
    requires
        lo <= hi,
    ensures
        moved == clamped(v + delta, lo as int, hi as int),
{
    let target: i64 = v as i64 + delta as i64;
    if target < lo as i64 {
        lo
    } else if target > hi as i64 {
        hi
    } else {
        target as i16
    }
}

/// A shape that can be generated, perturbed and drawn.
pub trait Primitive: Copy + Sized {
    /// Whether the bounds leave room for a shape of this kind.
    spec fn admits(config: Config) -> bool;

    /// Whether the shape lies where shapes of its kind are placed in the
    /// bounds.
    spec fn within(self, config: Config) -> bool;

    /// Whether the shape covers the pixel `(x, y)`.
    spec fn covers(self, x: int, y: int) -> bool;

    /// Whether `generate` may return this shape.
    spec fn generable(self, config: Config) -> bool;

    /// Whether `mutate` may turn `self` into `next`.
    spec fn reachable(self, next: Self, config: Config) -> bool;

    /// Decides `admits`.
    fn accepts(config: &Config) -> (ok: bool)
        ensures
            ok == Self::admits(*config),
    ;

    /// Draws a fresh shape inside the bounds.
    fn generate(config: &Config, rng: &mut SmallRng) -> (p: Self)
        requires
            Self::admits(*config),
        ensures
            p.generable(*config),
            p.within(*config),
    ;

    /// Draws a shape close to this one, brought back into the bounds.
    fn mutate(self, config: &Config, rng: &mut SmallRng) -> (p: Self)
        requires
            Self::admits(*config),
        ensures
            self.reachable(p, *config),
            p.within(*config),
    ;

    /// Paints every covered pixel that the canvas has, and no other.
    fn draw<C: Color>(&self, color: C, canvas: &mut Canvas<C>)
        requires
            old(canvas).wf(),
            color.valid(),
        ensures
            final(canvas).wf(),
            final(canvas).same_size(old(canvas)),
            forall|x: int, y: int|
                old(canvas).holds(x, y) ==> #[trigger] final(canvas).pixel(x, y) == if self.covers(
                    x,
                    y,
                ) {
                    color
                } else {
                    old(canvas).pixel(x, y)
                },
    ;

    /// A shape placed within the bounds covers no pixel outside them.
    proof fn covers_within(self, config: Config, x: int, y: int)
        requires
            Self::admits(config),
            self.within(config),
            self.covers(x, y),
        ensures
            config.contains(x, y),
    ;
}

/// A shape placed within bounds that a canvas encloses is drawn whole:
/// the canvas has every pixel that the shape covers.
pub proof fn lemma_drawn_whole<P: Primitive, C: Color>(
    shape: P,
    config: Config,
    canvas: Canvas<C>,
    x: int,
    y: int,
)
    requires
        P::admits(config),
        shape.within(config),
        canvas.encloses(config),
        shape.covers(x, y),
    ensures
        canvas.holds(x, y),
{
    shape.covers_within(config, x, y);
}

/// A single pixel.
#[derive(Clone, Copy, Debug, PartialEq, Eq, Structural)]
pub struct Point {
    pub x: i16,
    pub y: i16,
}

impl Point {
    /// The point `(dx, dy)` further on, brought back into the bounds.
    pub open spec fn spec_shifted(self, dx: int, dy: int, config: Config) -> Point {
        Point {
            x: clamped(self.x + dx, config.min_x as int, config.max_x as int) as i16,
            y: clamped(self.y + dy, config.min_y as int, config.max_y as int) as i16,
        }
    }

    /// Moves the point by `(dx, dy)` and brings it back into the bounds.
    pub fn shifted(self, dx: i32, dy: i32, config: &Config) -> (p: Point)
        requires
            config.wf(),
        ensures
            p == self.spec_shifted(dx as int, dy as int, *config),
            config.contains(p.x as int, p.y as int),
    {
        Point {
            x: nudge(self.x, dx, config.min_x, config.max_x),
            y: nudge(self.y, dy, config.min_y, config.max_y),
        }
    }
}

impl Primitive for Point {
    open spec fn admits(config: Config) -> bool {
        config.wf()
    }

    open spec fn within(self, config: Config) -> bool {
        config.contains(self.x as int, self.y as int)
    }

    open spec fn covers(self, x: int, y: int) -> bool {
        x == self.x && y == self.y
    }

    open spec fn generable(self, config: Config) -> bool {
        &&& drawn(self.x as int, config.min_x as int, config.max_x as int)
        &&& drawn(self.y as int, config.min_y as int, config.max_y as int)
    }

    /// Each coordinate moves at most `STEP` down or one less up, and stops
    /// at the bounds.
    open spec fn reachable(self, next: Self, config: Config) -> bool {
        exists|dx: int, dy: int|
            -STEP <= dx < STEP && -STEP <= dy < STEP && next == #[trigger] self.spec_shifted(
                dx,
                dy,
                config,
            )
    }

    fn accepts(config: &Config) -> (ok: bool) {
        config.has_room(0)
    }

    fn generate(config: &Config, rng: &mut SmallRng) -> (p: Self) {
        let x: i16 = pick(rng, config.min_x, config.max_x);
        let y: i16 = pick(rng, config.min_y, config.max_y);
        Point { x, y }
    }

    fn mutate(self, config: &Config, rng: &mut SmallRng) -> (p: Self) {
        let dx: i32 = uniform_i32(rng, -STEP, STEP);
        let dy: i32 = uniform_i32(rng, -STEP, STEP);
        self.shifted(dx, dy, config)
    }

    fn draw<C: Color>(&self, color: C, canvas: &mut Canvas<C>) {
        let _ = canvas.plot(self.x, self.y, color);
    }

    proof fn covers_within(self, config: Config, x: int, y: int) {
    }
}

/// A filled blob of four by four pixels: from two below its centre to one
/// above it, on each axis.
#[derive(Clone, Copy, Debug, PartialEq, Eq, Structural)]
pub struct Splat {
    pub x: i16,
    pub y: i16,
}

impl Splat {
    /// The splat `(dx, dy)` further on, brought back to where splats are
    /// placed: the bounds less a margin on each side.
    pub open spec fn spec_shifted(self, dx: int, dy: int, config: Config) -> Splat {
        Splat {
            x: clamped(self.x + dx, config.min_x + MARGIN, config.max_x - MARGIN) as i16,
            y: clamped(self.y + dy, config.min_y + MARGIN, config.max_y - MARGIN) as i16,
        }
    }

    /// Moves the splat by `(dx, dy)` and brings it back to where splats
    /// are placed.
    pub fn shifted(self, dx: i32, dy: i32, config: &Config) -> (p: Splat)
        requires
            config.roomy(MARGIN as int),
        ensures
            p == self.spec_shifted(dx as int, dy as int, *config),
            p.within(*config),
    {
        Splat {
            x: nudge(self.x, dx, config.min_x + MARGIN, config.max_x - MARGIN),
            y: nudge(self.y, dy, config.min_y + MARGIN, config.max_y - MARGIN),
        }
    }
}

impl Splat {
    /// A splat placed within the bounds has its centre in them.
    pub proof fn lemma_centre_within(self, config: Config)
        requires
            Splat::admits(config),
            self.within(config),
        ensures
            config.contains(self.x as int, self.y as int),
    {
    }
}

impl Primitive for Splat {
    open spec fn admits(config: Config) -> bool {
        config.roomy(MARGIN as int)
    }

    /// The centre keeps a margin from each side of the bounds.
    open spec fn within(self, config: Config) -> bool {
        &&& config.min_x + MARGIN <= self.x <= config.max_x - MARGIN
        &&& config.min_y + MARGIN <= self.y <= config.max_y - MARGIN
    }

    open spec fn covers(self, x: int, y: int) -> bool {
        self.x - 2 <= x <= self.x + 1 && self.y - 2 <= y <= self.y + 1
    }

    open spec fn generable(self, config: Config) -> bool {
        &&& drawn(self.x as int, config.min_x + MARGIN, config.max_x - MARGIN)
        &&& drawn(self.y as int, config.min_y + MARGIN, config.max_y - MARGIN)
    }

    /// Each coordinate moves at most `STEP` down or one less up, and stops
    /// a margin short of the bounds.
    open spec fn reachable(self, next: Self, config: Config) -> bool {
        exists|dx: int, dy: int|
            -STEP <= dx < STEP && -STEP <= dy < STEP && next == #[trigger] self.spec_shifted(
                dx,
                dy,
                config,
            )
    }

    fn accepts(config: &Config) -> (ok: bool) {
        config.has_room(MARGIN)
    }

    fn generate(config: &Config, rng: &mut SmallRng) -> (p: Self) {
        let x: i16 = pick(rng, config.min_x + MARGIN, config.max_x - MARGIN);
        let y: i16 = pick(rng, config.min_y + MARGIN, config.max_y - MARGIN);
        Splat { x, y }
    }

    fn mutate(self, config: &Config, rng: &mut SmallRng) -> (p: Self) {
        let dx: i32 = uniform_i32(rng, -STEP, STEP);
        let dy: i32 = uniform_i32(rng, -STEP, STEP);
        self.shifted(dx, dy, config)
    }

    fn draw<C: Color>(&self, color: C, canvas: &mut Canvas<C>) {
        let left: i32 = self.x as i32 - 2;
        let low: i32 = self.y as i32 - 2;
        let mut u: i32 = left;
        while u < left + 4
            invariant
                left == self.x - 2,
                low == self.y - 2,
                left <= u <= left + 4,
                canvas.wf(),
                color.valid(),
                canvas.same_size(old(canvas)),
                forall|x: int, y: int|
                    old(canvas).holds(x, y) ==> #[trigger] canvas.pixel(x, y) == if left <= x < u
                        && low <= y < low + 4 {
                        color
                    } else {
                        old(canvas).pixel(x, y)
                    },
            decreases left + 4 - u,
        {
            let mut v: i32 = low;
            while v < low + 4
                invariant
                    left == self.x - 2,
                    low == self.y - 2,
                    left <= u < left + 4,
                    low <= v <= low + 4,
                    canvas.wf(),
                    color.valid(),
                    canvas.same_size(old(canvas)),
                    forall|x: int, y: int|
                        old(canvas).holds(x, y) ==> #[trigger] canvas.pixel(x, y) == if (left <= x
                            < u && low <= y < low + 4) || (x == u && low <= y < v) {
                            color
                        } else {
                            old(canvas).pixel(x, y)
                        },
                decreases low + 4 - v,
            {
                let _ = canvas.plot_i32(u, v, color);
                v += 1;
            }
            u += 1;
        }
    }

    proof fn covers_within(self, config: Config, x: int, y: int) {
    }
}

} // verus!
