//! The hill-climbing optimizer.

use crate::canvas::{offset, total_similarity, Canvas};
use crate::color::Color;
use crate::error::Error;
use crate::primitive::Primitive;
use crate::random::{coin, uniform_index};
use rand::rngs::SmallRng;
use vstd::prelude::*;

verus! {

/// The rectangle in which shapes are generated and mutated: both corners
/// belong to it.
#[derive(Clone, Copy, Debug, PartialEq, Eq, Structural)]
pub struct Config {
    pub min_x: i16,
    pub max_x: i16,
    pub min_y: i16,
    pub max_y: i16,
}

impl Config {
    /// The rectangle is not empty.
    pub open spec fn wf(&self) -> bool {
        self.min_x <= self.max_x && self.min_y <= self.max_y
    }

    /// Whether the point `(x, y)` lies in the rectangle.
    pub open spec fn contains(&self, x: int, y: int) -> bool {
        self.min_x <= x <= self.max_x && self.min_y <= y <= self.max_y
    }

    /// Whether the rectangle is still not empty once `margin` is taken off
    /// each side.
    pub open spec fn roomy(&self, margin: int) -> bool {
        self.min_x + 2 * margin <= self.max_x && self.min_y + 2 * margin <= self.max_y
    }

    /// Decides [`Config::roomy`].
    pub fn has_room(&self, margin: i16) -> (ok: bool)
        ensures
            ok == self.roomy(margin as int),
    {
        let need: i32 = 2 * (margin as i32);
        self.min_x as i32 + need <= self.max_x as i32 && self.min_y as i32 + need
            <= self.max_y as i32
    }
}

/// The colour that the first `n` shapes leave on the pixel `(x, y)` of a
/// white canvas: that of the last among them to cover it.
pub open spec fn painted<T: Primitive, U: Color>(
    shapes: Seq<T>,
    colors: Seq<U>,
    n: int,
    x: int,
    y: int,
) -> U
    decreases n,
{
    if n <= 0 {
        U::spec_white()
    } else if shapes[n - 1].covers(x, y) {
        colors[n - 1]
    } else {
        painted(shapes, colors, n - 1, x, y)
    }
}

/// The pixels, in storage order, of a white canvas of `width` by `height`
/// on which every shape has been drawn in its colour, first to last.
pub open spec fn rendered<T: Primitive, U: Color>(
    shapes: Seq<T>,
    colors: Seq<U>,
    width: nat,
    height: nat,
) -> Seq<U> {
    Seq::new(
        width * height,
        |i: int| painted(shapes, colors, shapes.len() as int, i / (width as int), i % (width as int)),
    )
}

/// Whether a fitness beats the best so far. Before anything was scored
/// every fitness does.
pub open spec fn exceeds(fitness: int, best: Option<i128>) -> bool {
    match best {
        None => true,
        Some(b) => fitness > b,
    }
}

/// Whether the best fitness `later` is at least the best fitness
/// `earlier`, where "nothing scored yet" lies below every score.
pub open spec fn no_worse(later: Option<i128>, earlier: Option<i128>) -> bool {
    match (earlier, later) {
        (None, _) => true,
        (Some(_), None) => false,
        (Some(e), Some(l)) => l >= e,
    }
}

/// The best fitness never falls over any run of steps: `no_worse` holds of
/// a state and itself, and carries over from step to step.
pub proof fn lemma_no_worse_chains(first: Option<i128>, second: Option<i128>, third: Option<i128>)
    ensures
        no_worse(first, first),
        no_worse(second, first) && no_worse(third, second) ==> no_worse(third, first),
{
}

/// Whether a step may propose to replace the shape `shape` and its colour
/// `color` by `next_shape` and `next_color`: both perturbed, or both
/// generated afresh.
pub open spec fn proposable<T: Primitive, U: Color>(
    shape: T,
    color: U,
    next_shape: T,
    next_color: U,
    config: Config,
) -> bool {
    ||| shape.reachable(next_shape, config) && color.reachable(next_color)
    ||| next_shape.generable(config) && next_color.generable()
}

/// A population of coloured shapes that climbs toward a target image.
pub struct Anneal<T: Primitive, U: Color> {
    canvas: Canvas<U>,
    primitives: Vec<T>,
    colors: Vec<U>,
    fitness: Option<i128>,
    rng: SmallRng,
}

impl<T: Primitive, U: Color> Anneal<T, U> {
    /// The shapes, in drawing order.
    pub closed spec fn shapes(&self) -> Seq<T> {
        self.primitives@
    }

    /// The colour of each shape.
    pub closed spec fn palette(&self) -> Seq<U> {
        self.colors@
    }

    /// The best fitness so far, if anything was scored yet.
    pub closed spec fn best(&self) -> Option<i128> {
        self.fitness
    }

    /// The working canvas.
    pub closed spec fn frame(&self) -> Canvas<U> {
        self.canvas
    }

    /// Every shape has a valid colour, and the working canvas is well
    /// formed.
    pub open spec fn wf(&self) -> bool {
        &&& self.shapes().len() == self.palette().len()
        &&& self.frame().wf()
        &&& forall|i: int| 0 <= i < self.palette().len() ==> (#[trigger] self.palette()[i]).valid()
    }

    /// What trying the shape `shape` in the colour `color` at index `i`
    /// against `target` scores: the likeliness of the target and the
    /// population drawn with that one pair replaced.
    pub open spec fn trial_fitness(&self, i: int, shape: T, color: U, target: Seq<U>) -> int {
        total_similarity(
            target,
            rendered(
                self.shapes().update(i, shape),
                self.palette().update(i, color),
                self.frame().spec_width(),
                self.frame().spec_height(),
            ),
        )
    }

    /// Whether `after` is what a trial of `shape` in `color` at index `i`
    /// makes of `self`, and `accepted` its verdict.
    ///
    /// The working canvas shows the trial either way. A trial is accepted
    /// exactly when its fitness exceeds the best so far; the new pair and
    /// its fitness are then kept. A rejected trial leaves the population
    /// and the best fitness as they were.
    pub open spec fn tried(
        &self,
        i: int,
        shape: T,
        color: U,
        target: Seq<U>,
        after: &Self,
        accepted: bool,
    ) -> bool {
        let fitness = self.trial_fitness(i, shape, color, target);
        &&& after.frame().same_size(&self.frame())
        &&& after.frame()@ == rendered(
            self.shapes().update(i, shape),
            self.palette().update(i, color),
            self.frame().spec_width(),
            self.frame().spec_height(),
        )
        &&& accepted == exceeds(fitness, self.best())
        &&& accepted ==> after.shapes() == self.shapes().update(i, shape) && after.palette()
            == self.palette().update(i, color) && after.best() == Some(fitness as i128)
            && i128::MIN <= fitness <= i128::MAX
        &&& !accepted ==> after.shapes() == self.shapes() && after.palette() == self.palette()
            && after.best() == self.best()
    }

    /// Whether `after` has the population, the best fitness and the
    /// working canvas of `self`.
    pub open spec fn unchanged(&self, after: &Self) -> bool {
        &&& after.shapes() == self.shapes()
        &&& after.palette() == self.palette()
        &&& after.best() == self.best()
        &&& after.frame() == self.frame()
    }

    /// An optimizer over the given shapes and colours, with a white canvas
    /// of `width` by `height` and nothing scored yet.
    pub fn from_population(
        primitives: Vec<T>,
        colors: Vec<U>,
        width: usize,
        height: usize,
        rng: SmallRng,
    ) -> (r: Result<Self, Error>)
        requires
            width * height <= usize::MAX,
            forall|i: int| 0 <= i < colors@.len() ==> (#[trigger] colors@[i]).valid(),
        ensures
            primitives@.len() == colors@.len() ==> (r matches Ok(anneal) && anneal.wf()
                && anneal.shapes() == primitives@ && anneal.palette() == colors@ && anneal.best()
                == None::<i128> && anneal.frame().spec_width() == width
                && anneal.frame().spec_height() == height && forall|i: int|
                0 <= i < anneal.frame()@.len() ==> anneal.frame()@[i] == U::spec_white()),
            primitives@.len() != colors@.len() ==> r is Err && r->Err_0 == Error::SizeMismatch,
    {
        if primitives.len() != colors.len() {
            return Err(Error::SizeMismatch);
        }
        Ok(Anneal { canvas: Canvas::empty(width, height), primitives, colors, fitness: None, rng })
    }

    /// An optimizer over `count` freshly generated shapes and colours,
    /// with a white canvas of the target's size and nothing scored yet.
    pub fn new(
        count: usize,
        config: &Config,
        target_width: usize,
        target_height: usize,
        rng: SmallRng,
    ) -> (anneal: Self)
        requires
            T::admits(*config),
            target_width * target_height <= usize::MAX,
        ensures
            anneal.wf(),
            anneal.shapes().len() == count,
            anneal.palette().len() == count,
            anneal.best() == None::<i128>,
            anneal.frame().spec_width() == target_width,
            anneal.frame().spec_height() == target_height,
            forall|i: int|
                0 <= i < anneal.frame()@.len() ==> anneal.frame()@[i] == U::spec_white(),
            forall|i: int|
                0 <= i < count ==> (#[trigger] anneal.shapes()[i]).generable(*config)
                    && anneal.shapes()[i].within(*config),
            forall|i: int| 0 <= i < count ==> (#[trigger] anneal.palette()[i]).generable(),
    {
        let mut rng = rng;
        let mut primitives: Vec<T> = Vec::new();
        let mut colors: Vec<U> = Vec::new();
        let mut n: usize = 0;
        while n < count
            invariant
                n <= count,
                T::admits(*config),
                primitives@.len() == n,
                colors@.len() == n,
                forall|i: int|
                    0 <= i < n ==> (#[trigger] primitives@[i]).generable(*config)
                        && primitives@[i].within(*config),
                forall|i: int|
                    0 <= i < n ==> (#[trigger] colors@[i]).generable() && colors@[i].valid(),
            decreases count - n,
        {
            let p = T::generate(config, &mut rng);
            let c = U::generate(&mut rng);
            primitives.push(p);
            colors.push(c);
            n += 1;
        }
        Anneal {
            canvas: Canvas::empty(target_width, target_height),
            primitives,
            colors,
            fitness: None,
            rng,
        }
    }

    /// The number of shapes.
    pub fn len(&self) -> (n: usize)
        ensures
            n == self.shapes().len(),
    {
        self.primitives.len()
    }

    /// The shape at index `i`.
    pub fn primitive(&self, i: usize) -> (p: Option<T>)
        ensures
            p == if i < self.shapes().len() {
                Some(self.shapes()[i as int])
            } else {
                None
            },
    {
        if i < self.primitives.len() {
            Some(self.primitives[i])
        } else {
            None
        }
    }

    /// The colour of the shape at index `i`.
    pub fn color(&self, i: usize) -> (c: Option<U>)
        ensures
            c == if i < self.palette().len() {
                Some(self.palette()[i as int])
            } else {
                None
            },
    {
        if i < self.colors.len() {
            Some(self.colors[i])
        } else {
            None
        }
    }

    /// The best fitness so far, if anything was scored yet.
    pub fn fitness(&self) -> (f: Option<i128>)
        ensures
            f == self.best(),
    {
        self.fitness
    }

    /// The working canvas: the last trial, accepted or not.
    pub fn canvas(&self) -> (c: &Canvas<U>)
        ensures
            *c == self.frame(),
    {
        &self.canvas
    }

    /// Clears the working canvas and draws every shape on it in its
    /// colour, first to last.
    pub fn render(&mut self)
        requires
            old(self).wf(),
        ensures
            final(self).wf(),
            final(self).shapes() == old(self).shapes(),
            final(self).palette() == old(self).palette(),
            final(self).best() == old(self).best(),
            final(self).frame().same_size(&old(self).frame()),
            final(self).frame()@ == rendered(
                old(self).shapes(),
                old(self).palette(),
                old(self).frame().spec_width(),
                old(self).frame().spec_height(),
            ),
    {
        self.canvas.clear();
        proof {
            self.canvas.lemma_offsets();
        }
        let count: usize = self.primitives.len();
        let mut n: usize = 0;
        while n < count
            invariant
                n <= count,
                count == self.primitives@.len(),
                self.wf(),
                self.primitives@ == old(self).primitives@,
                self.colors@ == old(self).colors@,
                self.fitness == old(self).fitness,
                self.canvas.same_size(&old(self).canvas),
                forall|x: int, y: int|
                    self.canvas.holds(x, y) ==> #[trigger] self.canvas.pixel(x, y) == painted(
                        self.primitives@,
                        self.colors@,
                        n as int,
                        x,
                        y,
                    ),
            decreases count - n,
        {
            let shape: T = self.primitives[n];
            let color: U = self.colors[n];
            shape.draw(color, &mut self.canvas);
            n += 1;
        }
        proof {
            let want = rendered(
                self.primitives@,
                self.colors@,
                self.canvas.spec_width(),
                self.canvas.spec_height(),
            );
            assert forall|i: int| 0 <= i < self.canvas@.len() implies self.canvas@[i] == want[i] by {
                self.canvas.lemma_index_pixel(i);
            }
        }
    }

    /// Tries the shape `shape` in the colour `color` at index `i`: draws
    /// the population with that pair replaced, scores it against `target`,
    /// and keeps the pair if the score exceeds the best so far.
    ///
    /// Refuses an index that names no shape and a target with another
    /// number of pixels than the working canvas, and then changes nothing.
    pub fn attempt(&mut self, i: usize, shape: T, color: U, target: &Canvas<U>) -> (r: Result<
        bool,
        Error,
    >)
        requires
            old(self).wf(),
            color.valid(),
            target.wf(),
        ensures
            final(self).wf(),
            final(self).shapes().len() == old(self).shapes().len(),
            no_worse(final(self).best(), old(self).best()),
            i >= old(self).shapes().len() ==> r is Err && r->Err_0 == Error::OutOfBounds
                && old(self).unchanged(final(self)),
            i < old(self).shapes().len() && target@.len() != old(self).frame()@.len() ==> r is Err
                && r->Err_0 == Error::SizeMismatch && old(self).unchanged(final(self)),
            i < old(self).shapes().len() && target@.len() == old(self).frame()@.len() ==> r is Ok
                && old(self).tried(i as int, shape, color, target@, final(self), r->Ok_0),
    {
        if i >= self.primitives.len() {
            return Err(Error::OutOfBounds);
        }
        if target.len() != self.canvas.len() {
            return Err(Error::SizeMismatch);
        }
        let saved_shape: T = self.primitives[i];
        let saved_color: U = self.colors[i];
        self.primitives.set(i, shape);
        self.colors.set(i, color);
        self.render();
        match target.likeliness(&self.canvas) {
            Ok(fitness) => {
                let better: bool = match self.fitness {
                    None => true,
                    Some(best) => fitness > best,
                };
                if better {
                    self.fitness = Some(fitness);
                } else {
                    self.primitives.set(i, saved_shape);
                    self.colors.set(i, saved_color);
                    proof {
                        assert(self.primitives@ =~= old(self).primitives@);
                        assert(self.colors@ =~= old(self).colors@);
                    }
                }
                Ok(better)
            },
            Err(e) => Err(e),
        }
    }

    /// One step of the climb: picks a shape at random, proposes either a
    /// perturbation of it and of its colour or a fresh pair, and tries the
    /// proposal as `attempt` does.
    ///
    /// Refuses an empty population and a target with another number of
    /// pixels than the working canvas, and then changes nothing.
    pub fn iterate(&mut self, config: &Config, target: &Canvas<U>) -> (r: Result<bool, Error>)
        requires
            old(self).wf(),
            T::admits(*config),
            target.wf(),
        ensures
            final(self).wf(),
            final(self).shapes().len() == old(self).shapes().len(),
            final(self).palette().len() == old(self).palette().len(),
            no_worse(final(self).best(), old(self).best()),
            old(self).shapes().len() == 0 ==> r is Err && r->Err_0 == Error::EmptyPopulation
                && old(self).unchanged(final(self)),
            old(self).shapes().len() > 0 && target@.len() != old(self).frame()@.len() ==> r is Err
                && r->Err_0 == Error::SizeMismatch && old(self).unchanged(final(self)),
            old(self).shapes().len() > 0 && target@.len() == old(self).frame()@.len() ==> r is Ok
                && exists|i: int, shape: T, color: U|
                0 <= i < old(self).shapes().len() && proposable(
                    old(self).shapes()[i],
                    old(self).palette()[i],
                    shape,
                    color,
                    *config,
                ) && shape.within(*config) && color.valid() && #[trigger] old(self).tried(
                    i,
                    shape,
                    color,
                    target@,
                    final(self),
                    r->Ok_0,
                ),
    {
        let count: usize = self.primitives.len();
        if count == 0 {
            return Err(Error::EmptyPopulation);
        }
        if target.len() != self.canvas.len() {
            return Err(Error::SizeMismatch);
        }
        let i: usize = uniform_index(&mut self.rng, count);
        let shape: T;
        let color: U;
        if coin(&mut self.rng) {
            shape = self.primitives[i].mutate(config, &mut self.rng);
            color = self.colors[i].mutate(&mut self.rng);
        } else {
            shape = T::generate(config, &mut self.rng);
            color = U::generate(&mut self.rng);
        }
        let r = self.attempt(i, shape, color, target);
        proof {
            assert(old(self).tried(i as int, shape, color, target@, self, r->Ok_0));
        }
        r
    }
}

} // verus!
