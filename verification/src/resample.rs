//! Nearest-neighbour resizing, done by the `image` crate.

use image::imageops::FilterType;
use image::{Bgr, ImageBuffer};
use vstd::prelude::*;

verus! {

/// The bytes of the image that `image::imageops::resize` with
/// `FilterType::Nearest` makes of a source of `src_width` by `src_height`
/// pixels, three bytes each, at `width` by `height` pixels.
pub uninterp spec fn resampled(
    bytes: Seq<u8>,
    src_width: nat,
    src_height: nat,
    width: nat,
    height: nat,
) -> Seq<u8>;

/// Wraps the bytes in an `image::ImageBuffer` (`from_raw`) and calls
/// `image::imageops::resize` on it with `FilterType::Nearest`.
///
/// `from_raw` accepts the buffer exactly when it holds three bytes for
/// each source pixel. The resize allocates one image of `src_width` by
/// `height` pixels and one of `width` by `height`, and reads one source
/// pixel for each pixel it writes; its result has three bytes for each of
/// the `width * height` pixels. Which source pixel lands where is left to
/// `resampled`.
#[verifier::external_body]
pub(crate) fn resample(
    bytes: &[u8],
    src_width: u32,
    src_height: u32,
    width: u32,
    height: u32,
) -> (out: Option<Vec<u8>>)
    requires
        src_width > 0,
        src_height > 0,
        width > 0,
        height > 0,
        3 * (src_width * height) <= isize::MAX,
        3 * (width * height) <= isize::MAX,
    ensures
        out is Some <==> bytes@.len() >= 3 * (src_width * src_height),
        out matches Some(v) ==> v@ == resampled(
            bytes@,
            src_width as nat,
            src_height as nat,
            width as nat,
            height as nat,
        ) && v@.len() == 3 * (width * height),
{
    let source: ImageBuffer<Bgr<u8>, Vec<u8>> = ImageBuffer::from_raw(
        src_width,
        src_height,
        bytes.to_vec(),
    )?;
    Some(image::imageops::resize(&source, width, height, FilterType::Nearest).into_raw())
}

} // verus!
