//! The pixel canvas and its similarity metric.

use crate::anneal::Config;
use crate::color::{Color, SCALE};
use crate::error::Error;
use crate::resample::{resample, resampled};
use vstd::prelude::*;

verus! {

/// A grid of `height` rows of `width` pixels each.
///
/// The pixel `(x, y)` is stored at index `x * width + y`: `x` counts rows
/// and runs to `height`, `y` counts columns and runs to `width`.
pub struct Canvas<T: Color> {
    pixels: Vec<T>,
    width: usize,
    height: usize,
}

impl<T: Color> View for Canvas<T> {
    type V = Seq<T>;

    /// The pixels in storage order.
    closed spec fn view(&self) -> Seq<T> {
        self.pixels@
    }
}

/// The index at which a canvas `width` pixels wide stores the pixel
/// `(x, y)`.
pub open spec fn offset(width: nat, x: int, y: int) -> int {
    x * width + y
}

/// The sum of the similarities of the pixels of `a` and of `b`, index by
/// index.
pub open spec fn total_similarity<T: Color>(a: Seq<T>, b: Seq<T>) -> int
    decreases a.len(),
{
    if a.len() == 0 {
        0
    } else {
        total_similarity(a.drop_last(), b.drop_last()) + a.last().similarity(b.last())
    }
}

/// A display pixel: red, green and blue packed into 24 bits.
pub open spec fn packed(rgb: (u8, u8, u8)) -> int {
    rgb.0 * 65536 + rgb.1 * 256 + rgb.2
}

/// The colours that a buffer of blue, green, red byte triples encodes.
pub open spec fn decoded<T: Color>(bytes: Seq<u8>) -> Seq<T> {
    Seq::new(
        bytes.len() / 3,
        |i: int| T::spec_from_rgb(bytes[3 * i + 2], bytes[3 * i + 1], bytes[3 * i]),
    )
}

impl<T: Color> Canvas<T> {
    /// The number of pixels in a row.
    pub closed spec fn spec_width(&self) -> nat {
        self.width as nat
    }

    /// The number of rows.
    pub closed spec fn spec_height(&self) -> nat {
        self.height as nat
    }

    /// There is one valid colour for each pixel.
    pub open spec fn wf(&self) -> bool {
        &&& self@.len() == self.spec_width() * self.spec_height()
        &&& forall|i: int| 0 <= i < self@.len() ==> (#[trigger] self@[i]).valid()
    }

    /// Whether `(x, y)` names a pixel of this canvas.
    pub open spec fn holds(&self, x: int, y: int) -> bool {
        0 <= x < self.spec_height() && 0 <= y < self.spec_width()
    }

    /// The colour of the pixel `(x, y)`.
    pub open spec fn pixel(&self, x: int, y: int) -> T {
        self@[offset(self.spec_width(), x, y)]
    }

    /// Whether every point of the bounds names a pixel of this canvas.
    pub open spec fn encloses(&self, config: Config) -> bool {
        &&& 0 <= config.min_x
        &&& config.max_x < self.spec_height()
        &&& 0 <= config.min_y
        &&& config.max_y < self.spec_width()
    }

    /// Whether two canvases have the same width and the same height.
    pub open spec fn same_size(&self, other: &Canvas<T>) -> bool {
        self.spec_width() == other.spec_width() && self.spec_height() == other.spec_height()
    }

    /// The number of pixels in a row.
    pub fn width(&self) -> (w: usize)
        ensures
            w == self.spec_width(),
    {
        self.width
    }

    /// The number of rows.
    pub fn height(&self) -> (h: usize)
        ensures
            h == self.spec_height(),
    {
        self.height
    }

    /// The number of pixels.
    pub fn len(&self) -> (n: usize)
        ensures
            n == self@.len(),
    {
        self.pixels.len()
    }

    /// Every pixel has an index of its own.
    pub proof fn lemma_offsets(&self)
        requires
            self.wf(),
        ensures
            forall|x: int, y: int|
                self.holds(x, y) ==> 0 <= #[trigger] offset(self.spec_width(), x, y) < self@.len(),
            forall|x: int, y: int, u: int, v: int|
                self.holds(x, y) && self.holds(u, v) && #[trigger] offset(self.spec_width(), x, y)
                    == #[trigger] offset(self.spec_width(), u, v) ==> x == u && y == v,
    {
        let w = self.spec_width() as int;
        let h = self.spec_height() as int;
        assert forall|x: int, y: int| self.holds(x, y) implies 0 <= #[trigger] offset(
            self.spec_width(),
            x,
            y,
        ) < self@.len() by {
            lemma_offset_in_range(w, h, x, y);
        }
        assert forall|x: int, y: int, u: int, v: int|
            self.holds(x, y) && self.holds(u, v) && #[trigger] offset(self.spec_width(), x, y)
                == #[trigger] offset(self.spec_width(), u, v) implies x == u && y == v by {
            assert((x + 1) * w == x * w + w && (u + 1) * w == u * w + w) by (nonlinear_arith);
            crate::arith::lemma_floor_quotient(x * w + y, w, x);
            crate::arith::lemma_floor_quotient(u * w + v, w, u);
        }
    }

    /// Every index is that of a pixel: of the one in row `i / width` and
    /// column `i % width`.
    pub proof fn lemma_index_pixel(&self, i: int)
        requires
            self.wf(),
            0 <= i < self@.len(),
        ensures
            self.holds(i / (self.spec_width() as int), i % (self.spec_width() as int)),
            offset(
                self.spec_width(),
                i / (self.spec_width() as int),
                i % (self.spec_width() as int),
            ) == i,
            self.pixel(i / (self.spec_width() as int), i % (self.spec_width() as int)) == self@[i],
    {
        lemma_index_splits(self.spec_width() as int, self.spec_height() as int, i);
    }

    /// A canvas of the given size with every pixel white.
    pub fn empty(width: usize, height: usize) -> (canvas: Canvas<T>)
        requires
            width * height <= usize::MAX,
        ensures
            canvas.wf(),
            canvas.spec_width() == width,
            canvas.spec_height() == height,
            forall|i: int| 0 <= i < canvas@.len() ==> canvas@[i] == T::spec_white(),
    {
        let len: usize = width * height;
        let mut pixels: Vec<T> = Vec::new();
        let mut i: usize = 0;
        while i < len
            invariant
                i <= len,
                pixels@.len() == i,
                forall|j: int| 0 <= j < i ==> pixels@[j] == T::spec_white() && pixels@[j].valid(),
            decreases len - i,
        {
            pixels.push(T::white());
            i += 1;
        }
        Canvas { pixels, width, height }
    }

    /// Resets every pixel to white.
    pub fn clear(&mut self)
        requires
            old(self).wf(),
        ensures
            final(self).wf(),
            final(self).same_size(old(self)),
            forall|i: int| 0 <= i < final(self)@.len() ==> final(self)@[i] == T::spec_white(),
    {
        let len: usize = self.pixels.len();
        let mut i: usize = 0;
        while i < len
            invariant
                i <= len,
                self.pixels@.len() == len,
                self.width == old(self).width,
                self.height == old(self).height,
                forall|j: int| 0 <= j < i ==> self.pixels@[j] == T::spec_white(),
                forall|j: int| 0 <= j < len ==> (#[trigger] self.pixels@[j]).valid(),
            decreases len - i,
        {
            self.pixels.set(i, T::white());
            i += 1;
        }
    }

    /// Writes one pixel, or refuses a coordinate outside the canvas and
    /// leaves the canvas as it was.
    pub fn plot(&mut self, x: i16, y: i16, color: T) -> (r: Result<(), Error>)
        requires
            old(self).wf(),
            color.valid(),
        ensures
            final(self).wf(),
            final(self).same_size(old(self)),
            old(self).holds(x as int, y as int) ==> r is Ok && final(self)@ == old(self)@.update(
                offset(old(self).spec_width(), x as int, y as int),
                color,
            ),
            !old(self).holds(x as int, y as int) ==> r == Err::<(), Error>(Error::OutOfBounds)
                && final(self)@ == old(self)@,
            forall|u: int, v: int|
                old(self).holds(u, v) ==> #[trigger] final(self).pixel(u, v) == if u == x && v
                    == y {
                    color
                } else {
                    old(self).pixel(u, v)
                },
    {
        self.plot_i32(x as i32, y as i32, color)
    }

    /// Writes one pixel as `plot` does, for coordinates of any size.
    pub fn plot_i32(&mut self, x: i32, y: i32, color: T) -> (r: Result<(), Error>)
        requires
            old(self).wf(),
            color.valid(),
        ensures
            final(self).wf(),
            final(self).same_size(old(self)),
            old(self).holds(x as int, y as int) ==> r is Ok && final(self)@ == old(self)@.update(
                offset(old(self).spec_width(), x as int, y as int),
                color,
            ),
            !old(self).holds(x as int, y as int) ==> r == Err::<(), Error>(Error::OutOfBounds)
                && final(self)@ == old(self)@,
            forall|u: int, v: int|
                old(self).holds(u, v) ==> #[trigger] final(self).pixel(u, v) == if u == x && v
                    == y {
                    color
                } else {
                    old(self).pixel(u, v)
                },
    {
        if x < 0 || y < 0 {
            return Err(Error::OutOfBounds);
        }
        let row: usize = x as usize;
        let column: usize = y as usize;
        if row >= self.height || column >= self.width {
            return Err(Error::OutOfBounds);
        }
        proof {
            assert(self.pixels.len() == self.pixels@.len());
            lemma_offset_in_range(self.width as int, self.height as int, row as int, column as int);
            self.lemma_offsets();
        }
        let i: usize = row * self.width + column;
        self.pixels.set(i, color);
        proof {
            let w = old(self).spec_width();
            assert forall|u: int, v: int| old(self).holds(u, v) implies #[trigger] self.pixel(u, v)
                == if u == x && v == y {
                color
            } else {
                old(self).pixel(u, v)
            } by {
                if offset(w, u, v) == offset(w, x as int, y as int) {
                    assert(u == x && v == y);
                }
            }
        }
        Ok(())
    }

    /// Reads one pixel, if the coordinate names one.
    pub fn get(&self, x: i16, y: i16) -> (c: Option<T>)
        requires
            self.wf(),
        ensures
            c == if self.holds(x as int, y as int) {
                Some(self.pixel(x as int, y as int))
            } else {
                None
            },
    {
        if x < 0 || y < 0 {
            return None;
        }
        let row: usize = x as usize;
        let column: usize = y as usize;
        if row >= self.height || column >= self.width {
            return None;
        }
        proof {
            assert(self.pixels.len() == self.pixels@.len());
            lemma_offset_in_range(self.width as int, self.height as int, row as int, column as int);
        }
        Some(self.pixels[row * self.width + column])
    }

    /// The canvas that a buffer of blue, green, red byte triples encodes,
    /// one triple per pixel in storage order.
    pub fn from_bgr(bytes: &[u8], width: usize, height: usize) -> (r: Result<Canvas<T>, Error>)
        ensures
            bytes@.len() == 3 * (width * height) ==> (r matches Ok(canvas) && canvas.wf()
                && canvas.spec_width() == width && canvas.spec_height() == height && canvas@
                == decoded::<T>(bytes@)),
            bytes@.len() != 3 * (width * height) ==> (r matches Err(e) && e == Error::SizeMismatch),
    {
        let count: usize = bytes.len() / 3;
        assert(width * height <= 0xffff_ffff_ffff_ffff * 0xffff_ffff_ffff_ffff)
            by (nonlinear_arith);
        if bytes.len() % 3 != 0 || (width as u128) * (height as u128) != count as u128 {
            return Err(Error::SizeMismatch);
        }
        let mut pixels: Vec<T> = Vec::new();
        let mut i: usize = 0;
        while i < count
            invariant
                i <= count,
                count == bytes@.len() / 3,
                bytes@.len() % 3 == 0,
                bytes@.len() <= usize::MAX,
                pixels@.len() == i,
                forall|j: int|
                    0 <= j < i ==> pixels@[j] == T::spec_from_rgb(
                        bytes@[3 * j + 2],
                        bytes@[3 * j + 1],
                        bytes@[3 * j],
                    ) && pixels@[j].valid(),
            decreases count - i,
        {
            let blue: u8 = bytes[3 * i];
            let green: u8 = bytes[3 * i + 1];
            let red: u8 = bytes[3 * i + 2];
            pixels.push(T::from_rgb(red, green, blue));
            i += 1;
        }
        let canvas = Canvas { pixels, width, height };
        Ok(canvas)
    }

    /// The canvas that a source image gives when it is resized to `width`
    /// by `height` pixels, nearest neighbour first.
    ///
    /// The source is a buffer of blue, green, red byte triples, one for
    /// each of its `src_width * src_height` pixels.
    pub fn from_source(
        bytes: &[u8],
        width: usize,
        height: usize,
        src_width: usize,
        src_height: usize,
    ) -> (r: Result<Canvas<T>, Error>)
        ensures
            match source_fault(bytes@.len(), width, height, src_width, src_height) {
                Some(fault) => r matches Err(e) && e == fault,
                None => r matches Ok(canvas) && canvas.wf() && canvas.spec_width() == width
                    && canvas.spec_height() == height && canvas@ == if width == 0 || height == 0 {
                    Seq::<T>::empty()
                } else {
                    decoded::<T>(
                        resampled(
                            bytes@,
                            src_width as nat,
                            src_height as nat,
                            width as nat,
                            height as nat,
                        ),
                    )
                },
            },
    {
        assert(src_width * src_height <= 0xffff_ffff_ffff_ffff * 0xffff_ffff_ffff_ffff)
            by (nonlinear_arith);
        let given: usize = bytes.len();
        if src_width == 0 || src_height == 0 || (src_width as u128) * (src_height as u128)
            > (usize::MAX / 3) as u128 || given != 3 * (src_width * src_height) {
            return Err(Error::BadSource);
        }
        if width == 0 || height == 0 {
            return Ok(Canvas::empty(width, height));
        }
        let limit: u128 = (isize::MAX / 3) as u128;
        if width > u32::MAX as usize || height > u32::MAX as usize || src_width > u32::MAX as usize
            || src_height > u32::MAX as usize {
            return Err(Error::TooLarge);
        }
        assert(src_width * height <= 0xffff_ffff * 0xffff_ffff && width * height <= 0xffff_ffff
            * 0xffff_ffff) by (nonlinear_arith)
            requires
                src_width <= 0xffff_ffff,
                width <= 0xffff_ffff,
                height <= 0xffff_ffff,
        ;
        if (src_width as u128) * (height as u128) > limit || (width as u128) * (height as u128)
            > limit {
            return Err(Error::TooLarge);
        }
        match resample(bytes, src_width as u32, src_height as u32, width as u32, height as u32) {
            Some(resized) => Canvas::from_bgr(resized.as_slice(), width, height),
            None => Err(Error::BadSource),
        }
    }

    /// One packed 24-bit display pixel for each pixel, in storage order.
    pub fn to_u32_buffer(&self) -> (buffer: Vec<u32>)
        requires
            self.wf(),
        ensures
            buffer@.len() == self@.len(),
            forall|i: int|
                0 <= i < self@.len() ==> #[trigger] buffer@[i] == packed(self@[i].spec_to_rgb()),
    {
        let len: usize = self.pixels.len();
        let mut buffer: Vec<u32> = Vec::new();
        let mut i: usize = 0;
        while i < len
            invariant
                i <= len,
                len == self.pixels@.len(),
                self.wf(),
                buffer@.len() == i,
                forall|j: int|
                    0 <= j < i ==> #[trigger] buffer@[j] == packed(self.pixels@[j].spec_to_rgb()),
            decreases len - i,
        {
            let (r, g, b) = self.pixels[i].to_rgb();
            buffer.push(pack(r, g, b));
            i += 1;
        }
        buffer
    }

    /// How alike two canvases of as many pixels are: the sum of the
    /// similarities of their pixels, index by index.
    pub fn likeliness(&self, other: &Self) -> (r: Result<i128, Error>)
        requires
            self.wf(),
            other.wf(),
        ensures
            self@.len() == other@.len() ==> (r matches Ok(sum) && sum == total_similarity(
                self@,
                other@,
            )),
            self@.len() != other@.len() ==> (r matches Err(e) && e == Error::SizeMismatch),
    {
        let len: usize = self.pixels.len();
        if other.pixels.len() != len {
            return Err(Error::SizeMismatch);
        }
        let mut sum: i128 = 0;
        let mut i: usize = 0;
        while i < len
            invariant
                i <= len,
                len == self.pixels@.len(),
                len == other.pixels@.len(),
                self.wf(),
                other.wf(),
                sum == total_similarity(self.pixels@.take(i as int), other.pixels@.take(i as int)),
                -i * 0x8000_0000 <= sum <= i * 0x8000_0000,
            decreases len - i,
        {
            let s: i32 = self.pixels[i].compare(other.pixels[i]);
            proof {
                let a = self.pixels@.take(i + 1);
                let b = other.pixels@.take(i + 1);
                assert(a.drop_last() =~= self.pixels@.take(i as int));
                assert(b.drop_last() =~= other.pixels@.take(i as int));
            }
            sum = sum + s as i128;
            i += 1;
        }
        proof {
            assert(self.pixels@.take(len as int) =~= self.pixels@);
            assert(other.pixels@.take(len as int) =~= other.pixels@);
        }
        Ok(sum)
    }
}

/// Why `from_source` refuses a source of `bytes` bytes and `src_width` by
/// `src_height` pixels for a canvas of `width` by `height`, if it does.
///
/// A source must have pixels, and three bytes for each. A resize to no
/// pixels at all is always possible; otherwise all four dimensions must
/// fit 32 bits, and the resized image and the intermediate one of
/// `src_width` by `height` pixels must each fit an allocation.
pub open spec fn source_fault(
    bytes: nat,
    width: usize,
    height: usize,
    src_width: usize,
    src_height: usize,
) -> Option<Error> {
    if src_width == 0 || src_height == 0 || bytes != 3 * (src_width * src_height) {
        Some(Error::BadSource)
    } else if width == 0 || height == 0 {
        None
    } else if width > u32::MAX || height > u32::MAX || src_width > u32::MAX || src_height
        > u32::MAX || 3 * (src_width * height) > isize::MAX || 3 * (width * height) > isize::MAX {
        Some(Error::TooLarge)
    } else {
        None
    }
}

/// The likeliness of two pixel buffers does not depend on which of the two
/// is compared to which.
pub proof fn lemma_total_similarity_symmetric<T: Color>(a: Seq<T>, b: Seq<T>)
    requires
        a.len() == b.len(),
    ensures
        total_similarity(a, b) == total_similarity(b, a),
    decreases a.len(),
{
    if a.len() > 0 {
        lemma_total_similarity_symmetric(a.drop_last(), b.drop_last());
        T::similarity_symmetric(a.last(), b.last());
    }
}

/// No two buffers of valid colours are more alike than a buffer and
/// itself, which score `SCALE` for each pixel.
pub proof fn lemma_total_similarity_bounded<T: Color>(a: Seq<T>, b: Seq<T>)
    requires
        a.len() == b.len(),
        forall|i: int| 0 <= i < a.len() ==> (#[trigger] a[i]).valid(),
        forall|i: int| 0 <= i < b.len() ==> (#[trigger] b[i]).valid(),
    ensures
        total_similarity(a, b) <= a.len() * SCALE,
        total_similarity(a, a) == a.len() * SCALE,
    decreases a.len(),
{
    if a.len() > 0 {
        lemma_total_similarity_bounded(a.drop_last(), b.drop_last());
        T::similarity_bounded(a.last(), b.last());
    }
}

/// Packs three channels into one display pixel.
pub fn pack(r: u8, g: u8, b: u8) -> (p: u32)
    ensures
        p == packed((r, g, b)),
{
    let p: u32 = ((r as u32) << 16) | ((g as u32) << 8) | (b as u32);
    assert(((r as u32) << 16) | ((g as u32) << 8) | (b as u32) == (r as u32) * 65536 + (g as u32)
        * 256 + (b as u32)) by (bit_vector);
    p
}

/// The offset of a pixel inside a grid lies inside the buffer.
pub proof fn lemma_offset_in_range(w: int, h: int, x: int, y: int)
    by (nonlinear_arith)
    requires
        0 <= x < h,
        0 <= y < w,
    ensures
        0 <= x * w <= x * w + y < w * h,
        x * w + y < h * w,
{
}

/// An index into the buffer of a grid splits into a row and a column.
pub proof fn lemma_index_splits(w: int, h: int, i: int)
    requires
        0 <= w,
        0 <= h,
        0 <= i < w * h,
    ensures
        0 <= i / w < h,
        0 <= i % w < w,
        (i / w) * w + i % w == i,
{
    let q = i / w;
    let r = i % w;
    assert(i == q * w + r && 0 <= r < w && 0 <= q) by (nonlinear_arith)
        requires
            w > 0,
            0 <= i,
            q == i / w,
            r == i % w,
    ;
    assert(q < h) by (nonlinear_arith)
        requires
            w > 0,
            i == q * w + r,
            0 <= r,
            i < w * h,
    ;
}

} // verus!
