//! Straight lines, rasterized with integer error stepping.

use crate::anneal::Config;
use crate::arith::lemma_floor_quotient;
use crate::canvas::Canvas;
use crate::color::Color;
use crate::primitive::{Point, Primitive};
use rand::rngs::SmallRng;
use vstd::prelude::*;

verus! {

/// The direction of travel from `from` to `to` along one axis.
pub open spec fn toward(from: int, to: int) -> int {
    if from < to {
        1
    } else {
        -1
    }
}

/// How far a line has come along its shorter axis after `k` of the `d`
/// steps along its longer one, where the shorter axis spans `m`: the exact
/// share `k * m / d`, rounded to the nearest whole step, halves upward.
pub open spec fn minor_at(d: int, m: int, k: int) -> int {
    (2 * k * m + d) / (2 * d)
}

/// The error term of the stepping after `i` steps along x and `j` along y,
/// for a line that spans `dx` and `dy`: how far the next diagonal pixel
/// would lie off the exact line.
pub open spec fn error_at(dx: int, dy: int, i: int, j: int) -> int {
    dx - dy + j * dx - i * dy
}

/// A line segment between two points, both of which it covers.
#[derive(Clone, Copy, Debug, PartialEq, Eq, Structural)]
pub struct Line {
    pub a: Point,
    pub b: Point,
}

impl Line {
    /// The span along x.
    pub open spec fn run(self) -> int {
        vstd::math::abs(self.b.x - self.a.x) as int
    }

    /// The span along y.
    pub open spec fn rise(self) -> int {
        vstd::math::abs(self.b.y - self.a.y) as int
    }

    /// The number of steps from `a` to `b`: the longer of the two spans.
    pub open spec fn steps(self) -> int {
        if self.run() >= self.rise() {
            self.run()
        } else {
            self.rise()
        }
    }

    /// The pixel reached after `k` steps: `k` along the longer axis, and
    /// the nearest whole number to the exact share along the shorter.
    pub open spec fn pixel_at(self, k: int) -> (int, int) {
        let sx = toward(self.a.x as int, self.b.x as int);
        let sy = toward(self.a.y as int, self.b.y as int);
        if self.steps() == 0 {
            (self.a.x as int, self.a.y as int)
        } else if self.run() >= self.rise() {
            (self.a.x + sx * k, self.a.y + sy * minor_at(self.run(), self.rise(), k))
        } else {
            (self.a.x + sx * minor_at(self.rise(), self.run(), k), self.a.y + sy * k)
        }
    }

    /// Whether one of the first `k + 1` pixels is `(x, y)`.
    pub open spec fn covers_upto(self, k: int, x: int, y: int) -> bool {
        exists|t: int| 0 <= t <= k && #[trigger] self.pixel_at(t) == (x, y)
    }

    /// One more step covers one more pixel.
    pub proof fn lemma_covers_grows(self, k: int, x: int, y: int)
        requires
            0 <= k,
        ensures
            self.covers_upto(k + 1, x, y) == (self.covers_upto(k, x, y) || self.pixel_at(k + 1) == (
                x,
                y,
            )),
    {
        if self.covers_upto(k + 1, x, y) {
            let t = choose|t: int| 0 <= t <= k + 1 && #[trigger] self.pixel_at(t) == (x, y);
            if t <= k {
                assert(self.covers_upto(k, x, y));
            }
        }
        if self.covers_upto(k, x, y) {
            let t = choose|t: int| 0 <= t <= k && #[trigger] self.pixel_at(t) == (x, y);
            assert(self.pixel_at(t) == (x, y));
        }
    }

    /// The line starts at `a` and ends at `b`.
    pub proof fn lemma_ends(self)
        ensures
            self.pixel_at(0) == (self.a.x as int, self.a.y as int),
            self.pixel_at(self.steps()) == (self.b.x as int, self.b.y as int),
    {
        let dx = self.run();
        let dy = self.rise();
        let sx = toward(self.a.x as int, self.b.x as int);
        let sy = toward(self.a.y as int, self.b.y as int);
        assert(sx * dx == self.b.x - self.a.x && sy * dy == self.b.y - self.a.y)
            by (nonlinear_arith)
            requires
                (sx == 1 && dx == self.b.x - self.a.x) || (sx == -1 && dx == self.a.x - self.b.x),
                (sy == 1 && dy == self.b.y - self.a.y) || (sy == -1 && dy == self.a.y - self.b.y),
        ;
        if self.steps() > 0 {
            if dx >= dy {
                lemma_minor_ends(dx, dy);
            } else {
                lemma_minor_ends(dy, dx);
            }
        }
    }

    /// Every pixel lies between the two ends on both axes.
    pub proof fn lemma_between_ends(self, k: int)
        requires
            0 <= k <= self.steps(),
        ensures
            vstd::math::min(self.a.x as int, self.b.x as int) <= self.pixel_at(k).0 <= vstd::math::max(
                self.a.x as int,
                self.b.x as int,
            ),
            vstd::math::min(self.a.y as int, self.b.y as int) <= self.pixel_at(k).1 <= vstd::math::max(
                self.a.y as int,
                self.b.y as int,
            ),
    {
        let dx = self.run();
        let dy = self.rise();
        if self.steps() > 0 {
            if dx >= dy {
                lemma_minor_range(dx, dy, k);
            } else {
                lemma_minor_range(dy, dx, k);
            }
        }
    }

    /// From one pixel to the next the line moves one step along its longer
    /// axis and at most one along the shorter: it has no gaps.
    pub proof fn lemma_connected(self, k: int)
        requires
            0 <= k < self.steps(),
        ensures
            ({
                let p = self.pixel_at(k);
                let q = self.pixel_at(k + 1);
                &&& -1 <= q.0 - p.0 <= 1
                &&& -1 <= q.1 - p.1 <= 1
                &&& p != q
            }),
    {
        let dx = self.run();
        let dy = self.rise();
        let sx = toward(self.a.x as int, self.b.x as int);
        let sy = toward(self.a.y as int, self.b.y as int);
        assert(sx * (k + 1) == sx * k + sx && sy * (k + 1) == sy * k + sy) by (nonlinear_arith);
        if dx >= dy {
            lemma_minor_step(dx, dy, k);
            let c = minor_at(dx, dy, k);
            assert(sy * (c + 1) == sy * c + sy) by (nonlinear_arith);
        } else {
            lemma_minor_step(dy, dx, k);
            let c = minor_at(dy, dx, k);
            assert(sx * (c + 1) == sx * c + sx) by (nonlinear_arith);
        }
    }

    /// No two steps reach the same pixel: the line covers exactly one
    /// pixel more than it has steps.
    pub proof fn lemma_distinct(self, k: int, l: int)
        requires
            0 <= k < l <= self.steps(),
        ensures
            self.pixel_at(k) != self.pixel_at(l),
    {
        let sx = toward(self.a.x as int, self.b.x as int);
        let sy = toward(self.a.y as int, self.b.y as int);
        assert(sx * k != sx * l && sy * k != sy * l) by (nonlinear_arith)
            requires
                k < l,
                sx == 1 || sx == -1,
                sy == 1 || sy == -1,
        ;
    }

    /// A line along one axis stays on it: where both ends share a
    /// coordinate, so does every pixel, and the other coordinate moves one
    /// step at a time from end to end.
    pub proof fn lemma_axis_aligned(self, k: int)
        requires
            0 <= k <= self.steps(),
        ensures
            self.a.y == self.b.y ==> self.pixel_at(k) == (
                self.a.x + toward(self.a.x as int, self.b.x as int) * k,
                self.a.y as int,
            ),
            self.a.x == self.b.x ==> self.pixel_at(k) == (
                self.a.x as int,
                self.a.y + toward(self.a.y as int, self.b.y as int) * k,
            ),
    {
        let d = self.steps();
        if d > 0 {
            lemma_floor_quotient(d, 2 * d, 0);
            let sx = toward(self.a.x as int, self.b.x as int);
            let sy = toward(self.a.y as int, self.b.y as int);
            assert(sx * 0 == 0 && sy * 0 == 0);
        } else {
            assert(toward(self.a.x as int, self.b.x as int) * k == 0 && toward(
                self.a.y as int,
                self.b.y as int,
            ) * k == 0) by (nonlinear_arith)
                requires
                    k == 0,
            ;
        }
    }

    /// No pixel lies more than half a step off the exact line, measured
    /// along the shorter axis.
    pub proof fn lemma_close(self, k: int)
        requires
            0 <= k <= self.steps(),
            self.steps() > 0,
        ensures
            self.run() >= self.rise() ==> -self.run() < 2 * (minor_at(self.run(), self.rise(), k)
                * self.run() - k * self.rise()) <= self.run(),
            self.run() < self.rise() ==> -self.rise() < 2 * (minor_at(self.rise(), self.run(), k)
                * self.rise() - k * self.run()) <= self.rise(),
    {
        let dx = self.run();
        let dy = self.rise();
        if dx >= dy {
            lemma_minor_range(dx, dy, k);
        } else {
            lemma_minor_range(dy, dx, k);
        }
    }
}

/// The rounded share is enclosed by the multiples that define it, and runs
/// from nothing to the whole of the shorter span.
pub proof fn lemma_minor_range(d: int, m: int, k: int)
    requires
        0 <= m <= d,
        d > 0,
        0 <= k <= d,
    ensures
        0 <= minor_at(d, m, k) <= m,
        minor_at(d, m, k) <= k,
        minor_at(d, m, k) * (2 * d) <= 2 * k * m + d < (minor_at(d, m, k) + 1) * (2 * d),
        -d < 2 * (minor_at(d, m, k) * d - k * m) <= d,
{
    let c = minor_at(d, m, k);
    let x = 2 * k * m + d;
    assert(0 <= k * m <= d * m && k * m <= k * d) by (nonlinear_arith)
        requires
            0 <= m <= d,
            0 <= k <= d,
    ;
    assert(2 * k * m == 2 * (k * m)) by (nonlinear_arith);
    assert(x == (2 * d) * c + x % (2 * d) && 0 <= x % (2 * d) < 2 * d) by (nonlinear_arith)
        requires
            d > 0,
            c == x / (2 * d),
    ;
    assert((2 * d) * c == c * (2 * d) && (c + 1) * (2 * d) == c * (2 * d) + 2 * d && c * (2 * d)
        == 2 * (c * d)) by (nonlinear_arith);
    assert(0 <= c <= m && c <= k) by (nonlinear_arith)
        requires
            d > 0,
            0 <= m <= d,
            0 <= k <= d,
            2 * (c * d) <= 2 * (k * m) + d < 2 * (c * d) + 2 * d,
            0 <= k * m <= d * m,
            k * m <= k * d,
    ;
}

/// The rounded share starts at nothing and ends at the whole span.
pub proof fn lemma_minor_ends(d: int, m: int)
    requires
        0 <= m <= d,
        d > 0,
    ensures
        minor_at(d, m, 0) == 0,
        minor_at(d, m, d) == m,
{
    assert(2 * 0 * m + d == d) by (nonlinear_arith);
    lemma_floor_quotient(d, 2 * d, 0);
    assert(m * (2 * d) <= 2 * d * m + d < (m + 1) * (2 * d)) by (nonlinear_arith)
        requires
            d > 0,
    ;
    lemma_floor_quotient(2 * d * m + d, 2 * d, m);
}

/// One more step along the longer axis takes the rounded share one step
/// further exactly when the half-way mark to that step has been reached.
pub proof fn lemma_minor_step(d: int, m: int, k: int)
    requires
        0 <= m <= d,
        d > 0,
        0 <= k < d,
    ensures
        minor_at(d, m, k + 1) == if (2 * minor_at(d, m, k) + 1) * d <= 2 * (k + 1) * m {
            minor_at(d, m, k) + 1
        } else {
            minor_at(d, m, k)
        },
{
    let c = minor_at(d, m, k);
    lemma_minor_range(d, m, k);
    let x = 2 * (k + 1) * m + d;
    assert(x == 2 * k * m + d + 2 * m) by (nonlinear_arith)
        requires
            x == 2 * (k + 1) * m + d,
    ;
    assert((2 * c + 1) * d == c * (2 * d) + d && (c + 1) * (2 * d) == c * (2 * d) + 2 * d && (c
        + 2) * (2 * d) == c * (2 * d) + 4 * d) by (nonlinear_arith);
    if (2 * c + 1) * d <= 2 * (k + 1) * m {
        lemma_floor_quotient(x, 2 * d, c + 1);
    } else {
        lemma_floor_quotient(x, 2 * d, c);
    }
}

/// A step along x lowers the error by the span along y, and a step along y
/// raises it by the span along x.
pub proof fn lemma_error_moves(dx: int, dy: int, i: int, j: int)
    by (nonlinear_arith)
    ensures
        error_at(dx, dy, i + 1, j) == error_at(dx, dy, i, j) - dy,
        error_at(dx, dy, i, j + 1) == error_at(dx, dy, i, j) + dx,
        error_at(dx, dy, i + 1, j + 1) == error_at(dx, dy, i, j) - dy + dx,
{
}

impl Primitive for Line {
    open spec fn admits(config: Config) -> bool {
        config.wf()
    }

    /// Both ends lie in the bounds.
    open spec fn within(self, config: Config) -> bool {
        self.a.within(config) && self.b.within(config)
    }

    open spec fn covers(self, x: int, y: int) -> bool {
        self.covers_upto(self.steps(), x, y)
    }

    open spec fn generable(self, config: Config) -> bool {
        self.a.generable(config) && self.b.generable(config)
    }

    open spec fn reachable(self, next: Self, config: Config) -> bool {
        self.a.reachable(next.a, config) && self.b.reachable(next.b, config)
    }

    fn accepts(config: &Config) -> (ok: bool) {
        config.has_room(0)
    }

    fn generate(config: &Config, rng: &mut SmallRng) -> (p: Self) {
        let a = Point::generate(config, rng);
        let b = Point::generate(config, rng);
        Line { a, b }
    }

    fn mutate(self, config: &Config, rng: &mut SmallRng) -> (p: Self) {
        let a = self.a.mutate(config, rng);
        let b = self.b.mutate(config, rng);
        Line { a, b }
    }

    fn draw<C: Color>(&self, color: C, canvas: &mut Canvas<C>) {
        let ax: i32 = self.a.x as i32;
        let ay: i32 = self.a.y as i32;
        let bx: i32 = self.b.x as i32;
        let by: i32 = self.b.y as i32;
        let dx: i32 = if bx >= ax {
            bx - ax
        } else {
            ax - bx
        };
        let dy: i32 = if by >= ay {
            ay - by
        } else {
            by - ay
        };
        let sx: i32 = if ax < bx {
            1
        } else {
            -1
        };
        let sy: i32 = if ay < by {
            1
        } else {
            -1
        };
        let mut err: i32 = dx + dy;
        let mut x: i32 = ax;
        let mut y: i32 = ay;
        let ghost mut i: int = 0;
        let ghost mut j: int = 0;
        let ghost mut k: int = 0;
        proof {
            self.lemma_ends();
            if self.steps() > 0 {
                if dx >= -dy {
                    lemma_minor_ends(dx as int, -dy as int);
                } else {
                    lemma_minor_ends(-dy as int, dx as int);
                }
            }
        }
        let _ = canvas.plot_i32(x, y, color);
        proof {
            assert forall|px: int, py: int| old(canvas).holds(px, py) implies #[trigger] canvas.pixel(
                px,
                py,
            ) == if self.covers_upto(0, px, py) {
                color
            } else {
                old(canvas).pixel(px, py)
            } by {
                if self.covers_upto(0, px, py) {
                    let t = choose|t: int| 0 <= t <= 0 && #[trigger] self.pixel_at(t) == (px, py);
                    assert(t == 0);
                }
            }
        }
        while x != bx || y != by
            invariant
                ax == self.a.x,
                ay == self.a.y,
                bx == self.b.x,
                by == self.b.y,
                dx == self.run(),
                dy == -self.rise(),
                sx == toward(ax as int, bx as int),
                sy == toward(ay as int, by as int),
                0 <= k <= self.steps(),
                0 <= i <= dx,
                0 <= j <= -dy,
                x == ax + sx * i,
                y == ay + sy * j,
                err == error_at(dx as int, -dy as int, i, j),
                self.steps() > 0 && dx >= -dy ==> i == k && j == minor_at(dx as int, -dy as int, k),
                self.steps() > 0 && dx < -dy ==> j == k && i == minor_at(-dy as int, dx as int, k),
                self.steps() == 0 ==> i == 0 && j == 0,
                (x as int, y as int) == self.pixel_at(k),
                canvas.wf(),
                color.valid(),
                canvas.same_size(old(canvas)),
                forall|px: int, py: int|
                    old(canvas).holds(px, py) ==> #[trigger] canvas.pixel(px, py)
                        == if self.covers_upto(k, px, py) {
                        color
                    } else {
                        old(canvas).pixel(px, py)
                    },
            decreases self.steps() - k,
        {
            let ghost rx = dx as int;
            let ghost ry = -dy as int;
            proof {
                lemma_step(rx, ry, i, j, k);
                lemma_error_moves(rx, ry, i, j);
                lemma_error_moves(rx, ry, i + 1, j);
            }
            let e2: i32 = err * 2;
            if e2 >= dy {
                err += dy;
                x += sx;
                proof {
                    i = i + 1;
                }
            }
            if e2 <= dx {
                err += dx;
                y += sy;
                proof {
                    j = j + 1;
                }
            }
            proof {
                k = k + 1;
            }
            let ghost before = *canvas;
            let _ = canvas.plot_i32(x, y, color);
            proof {
                assert forall|px: int, py: int| old(canvas).holds(px, py) implies #[trigger] canvas.pixel(
                    px,
                    py,
                ) == if self.covers_upto(k, px, py) {
                    color
                } else {
                    old(canvas).pixel(px, py)
                } by {
                    self.lemma_covers_grows(k - 1, px, py);
                    assert(before.holds(px, py));
                }
            }
        }
    }

    proof fn covers_within(self, config: Config, x: int, y: int) {
        let t = choose|t: int| 0 <= t <= self.steps() && #[trigger] self.pixel_at(t) == (x, y);
        self.lemma_between_ends(t);
    }
}

/// One turn of the stepping loop. Before the last pixel is reached the
/// step along the longer axis is always taken, the step along the shorter
/// one exactly when the rounded share moves on, and the error term stays
/// small.
pub proof fn lemma_step(dx: int, dy: int, i: int, j: int, k: int)
    requires
        0 <= dx,
        0 <= dy,
        0 <= k <= (if dx >= dy {
            dx
        } else {
            dy
        }),
        dx > 0 || dy > 0 ==> (if dx >= dy {
            i == k && j == minor_at(dx, dy, k)
        } else {
            j == k && i == minor_at(dy, dx, k)
        }),
        dx == 0 && dy == 0 ==> i == 0 && j == 0,
    ensures
        0 <= i <= dx,
        0 <= j <= dy,
        -2 * (dx + dy) <= error_at(dx, dy, i, j) <= 2 * (dx + dy),
        (i == dx && j == dy) <==> k == (if dx >= dy {
            dx
        } else {
            dy
        }),
        !(i == dx && j == dy) ==> ({
            let e2 = 2 * error_at(dx, dy, i, j);
            let i2 = if e2 >= -dy {
                i + 1
            } else {
                i
            };
            let j2 = if e2 <= dx {
                j + 1
            } else {
                j
            };
            if dx >= dy {
                i2 == k + 1 && j2 == minor_at(dx, dy, k + 1) && i2 <= dx && j2 <= dy
            } else {
                j2 == k + 1 && i2 == minor_at(dy, dx, k + 1) && i2 <= dx && j2 <= dy
            }
        }),
{
    if dx == 0 && dy == 0 {
        assert(error_at(dx, dy, i, j) == 0);
    } else if dx >= dy {
        lemma_minor_range(dx, dy, k);
        lemma_minor_ends(dx, dy);
        assert((2 * j + 1) * dx == 2 * (j * dx) + dx && 2 * (k + 1) * dy == 2 * (k * dy) + 2 * dy)
            by (nonlinear_arith);
        if k < dx {
            lemma_minor_step(dx, dy, k);
            lemma_minor_range(dx, dy, k + 1);
        }
    } else {
        lemma_minor_range(dy, dx, k);
        lemma_minor_ends(dy, dx);
        assert((2 * i + 1) * dy == 2 * (i * dy) + dy && 2 * (k + 1) * dx == 2 * (k * dx) + 2 * dx)
            by (nonlinear_arith);
        if k < dy {
            lemma_minor_step(dy, dx, k);
            lemma_minor_range(dy, dx, k + 1);
        }
    }
}

} // verus!
