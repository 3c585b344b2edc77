//! The conditions under which an operation is refused.

use vstd::prelude::*;

verus! {

/// Why an operation was refused.
#[derive(Clone, Copy, Debug, PartialEq, Eq, Structural)]
pub enum Error {
    /// A coordinate lies outside the canvas.
    OutOfBounds,
    /// Two canvases differ in width or height, or a pixel buffer does not
    /// have one entry per pixel.
    SizeMismatch,
    /// A source image has no pixels, or its buffer does not hold three
    /// bytes for each of them.
    BadSource,
    /// The dimensions exceed what a resize can address.
    TooLarge,
    /// The optimizer holds no shape to work on.
    EmptyPopulation,
}

} // verus!
