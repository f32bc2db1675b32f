//! The pixel buffer: a row-major RGB image, kept in an `ImageBuffer` of the
//! `image` crate.

use crate::color::Rgb;
use crate::grid::{lemma_pixel_index_in_range, pixel_index};
use vstd::prelude::*;

verus! {

/// A grid of RGB pixels, `width` by `height`, stored row by row with three
/// samples to the pixel.
#[verifier::external_body]
pub struct Canvas {
    image: image::ImageBuffer<image::Rgb<u8>, Vec<u8>>,
}

/// The samples that a canvas holds, in storage order.
pub uninterp spec fn canvas_samples(canvas: Canvas) -> Seq<u8>;

/// The width and the height that a canvas was made with.
pub uninterp spec fn canvas_dimensions(canvas: Canvas) -> (u32, u32);

/// The samples that `imageops::resize` gives with the Lanczos filter of
/// window 3, for an image of the given samples and sides and the new sides.
/// The function reads nothing else.
pub uninterp spec fn resampled_samples(
    samples: Seq<u8>,
    from_width: u32,
    from_height: u32,
    width: u32,
    height: u32,
) -> Seq<u8>;

/// The largest width or height that this library resamples from or to. The
/// limit is the library's own, not the resampler's: it is set well inside
/// the range in which the resampler's single-precision positions are exact,
/// so that a canvas within it is always resampled.
pub const MAX_RESAMPLE_SIDE: u32 = 65535;

impl Canvas {
    /// The number of pixels in a row.
    pub open spec fn width(&self) -> nat {
        canvas_dimensions(*self).0 as nat
    }

    /// The number of rows.
    pub open spec fn height(&self) -> nat {
        canvas_dimensions(*self).1 as nat
    }

    /// The samples in storage order.
    pub open spec fn samples(&self) -> Seq<u8> {
        canvas_samples(*self)
    }

    /// The canvas holds exactly three samples for each of its pixels.
    pub open spec fn wf(&self) -> bool {
        self.samples().len() == 3 * (self.width() * self.height())
    }

    /// The pixel whose samples start at `3 * k`.
    pub open spec fn pixel_by_index(&self, k: int) -> Rgb {
        Rgb { r: self.samples()[3 * k], g: self.samples()[3 * k + 1], b: self.samples()[3 * k + 2] }
    }

    /// The pixel in column `x` of row `y`.
    pub open spec fn pixel(&self, x: int, y: int) -> Rgb {
        self.pixel_by_index(pixel_index(x, y, self.width() as int))
    }

    /// `ImageBuffer::new`: a buffer of the given dimensions whose samples are
    /// all zero. It panics where the sample count does not fit a vector, which
    /// the precondition leaves out.
    #[verifier::external_body]
    fn blank(width: u32, height: u32) -> (canvas: Canvas)
        requires
            3 * (width * height) <= isize::MAX,
        ensures
            canvas_dimensions(canvas) == (width, height),
            canvas_samples(canvas) == Seq::new((3 * (width * height)) as nat, |i: int| 0u8),
    {
        Canvas { image: image::ImageBuffer::new(width, height) }
    }

    /// `ImageBuffer::dimensions`: the width and height the buffer was made with.
    #[verifier::external_body]
    fn dimensions(&self) -> (d: (u32, u32))
        ensures
            d == canvas_dimensions(*self),
    {
        self.image.dimensions()
    }

    /// `ImageBuffer::put_pixel`: overwrites the three samples of the pixel at
    /// `(x, y)` and nothing else. It panics outside the grid, which the
    /// precondition leaves out.
    #[verifier::external_body]
    fn put(&mut self, x: u32, y: u32, p: Rgb)
        requires
            old(self).wf(),
            x < old(self).width(),
            y < old(self).height(),
        ensures
            canvas_dimensions(*final(self)) == canvas_dimensions(*old(self)),
            canvas_samples(*final(self)) == canvas_samples(*old(self)).update(
                3 * pixel_index(x as int, y as int, old(self).width() as int),
                p.r,
            ).update(3 * pixel_index(x as int, y as int, old(self).width() as int) + 1, p.g).update(
                3 * pixel_index(x as int, y as int, old(self).width() as int) + 2,
                p.b,
            ),
    {
        self.image.put_pixel(x, y, image::Rgb([p.r, p.g, p.b]));
    }

    /// `ImageBuffer::get_pixel`: the three samples of the pixel at `(x, y)`.
    /// It panics outside the grid, which the precondition leaves out.
    #[verifier::external_body]
    fn get(&self, x: u32, y: u32) -> (p: Rgb)
        requires
            self.wf(),
            x < self.width(),
            y < self.height(),
        ensures
            p == self.pixel(x as int, y as int),
    {
        let px = self.image.get_pixel(x, y);
        Rgb { r: px.0[0], g: px.0[1], b: px.0[2] }
    }

    /// `ImageBuffer::into_raw`: the samples in storage order.
    #[verifier::external_body]
    fn raw(self) -> (samples: Vec<u8>)
        ensures
            samples@ == canvas_samples(self),
    {
        self.image.into_raw()
    }

    /// `imageops::resize` with the Lanczos filter of window 3: an image of the
    /// new dimensions, whose samples are those that the filter computes from
    /// the samples and the sides of this one. Where the dimensions do not
    /// change it is a copy, and from an image without pixels it is blank. The
    /// preconditions keep the two buffers that the function allocates within
    /// the size of a vector, and the sides within the library's limit.
    #[verifier::external_body]
    fn resized(&self, width: u32, height: u32) -> (out: Canvas)
        requires
            self.wf(),
            self.width() <= MAX_RESAMPLE_SIDE,
            self.height() <= MAX_RESAMPLE_SIDE,
            width <= MAX_RESAMPLE_SIDE,
            height <= MAX_RESAMPLE_SIDE,
            16 * (self.width() * height) <= isize::MAX,
            3 * (width * height) <= isize::MAX,
        ensures
            canvas_dimensions(out) == (width, height),
            canvas_samples(out) == resampled_samples(
                canvas_samples(*self),
                canvas_dimensions(*self).0,
                canvas_dimensions(*self).1,
                width,
                height,
            ),
            canvas_samples(out).len() == 3 * (width * height),
            (width, height) == canvas_dimensions(*self) ==> canvas_samples(out) == canvas_samples(
                *self,
            ),
            self.width() == 0 || self.height() == 0 ==> canvas_samples(out) == Seq::new(
                (3 * (width * height)) as nat,
                |i: int| 0u8,
            ),
    {
        let filter = image::imageops::FilterType::Lanczos3;
        Canvas { image: image::imageops::resize(&self.image, width, height, filter) }
    }

    /// A canvas of the given dimensions with every pixel black.
    pub fn new(width: u32, height: u32) -> (canvas: Canvas)
        requires
            3 * (width * height) <= isize::MAX,
        ensures
            canvas.wf(),
            canvas.width() == width,
            canvas.height() == height,
            forall|k: int|
                0 <= k < width * height ==> #[trigger] canvas.pixel_by_index(k) == crate::color::black(),
    {
        let canvas = Canvas::blank(width, height);
        assert forall|k: int| 0 <= k < width * height implies #[trigger] canvas.pixel_by_index(k)
            == crate::color::black() by {
            assert(3 * k + 2 < 3 * (width * height));
        }
        canvas
    }

    /// The number of pixels in a row.
    pub fn get_width(&self) -> (w: u32)
        ensures
            w == self.width(),
    {
        self.dimensions().0
    }

    /// The number of rows.
    pub fn get_height(&self) -> (h: u32)
        ensures
            h == self.height(),
    {
        self.dimensions().1
    }

    /// Reads the pixel in column `x` of row `y`.
    pub fn get_pixel(&self, x: u32, y: u32) -> (p: Rgb)
        requires
            self.wf(),
            x < self.width(),
            y < self.height(),
        ensures
            p == self.pixel(x as int, y as int),
    {
        self.get(x, y)
    }

    /// Writes the pixel in column `x` of row `y`; every other pixel stays.
    pub fn put_pixel(&mut self, x: u32, y: u32, p: Rgb)
        requires
            old(self).wf(),
            x < old(self).width(),
            y < old(self).height(),
        ensures
            final(self).wf(),
            final(self).width() == old(self).width(),
            final(self).height() == old(self).height(),
            final(self).pixel(x as int, y as int) == p,
            forall|k: int|
                0 <= k < old(self).width() * old(self).height() && k != pixel_index(
                    x as int,
                    y as int,
                    old(self).width() as int,
                ) ==> #[trigger] final(self).pixel_by_index(k) == old(self).pixel_by_index(k),
    {
        proof {
            lemma_pixel_index_in_range(
                x as int,
                y as int,
                self.width() as int,
                self.height() as int,
            );
        }
        self.put(x, y, p);
    }

    /// Whether an image of the first two sides can be resampled to the last two.
    pub open spec fn can_resample(from_width: nat, from_height: nat, width: nat, height: nat) -> bool {
        &&& from_width <= MAX_RESAMPLE_SIDE
        &&& from_height <= MAX_RESAMPLE_SIDE
        &&& width <= MAX_RESAMPLE_SIDE
        &&& height <= MAX_RESAMPLE_SIDE
        &&& 16 * (from_width * height) <= isize::MAX
        &&& 3 * (width * height) <= isize::MAX
    }

    /// Resamples the canvas to new dimensions with a Lanczos filter, where the
    /// sides are within the library's limit. The result holds the samples that
    /// the filter computes from this canvas. With unchanged dimensions it is a
    /// copy; from a canvas without pixels it is black.
    pub fn resample(&self, width: u32, height: u32) -> (out: Option<Canvas>)
        requires
            self.wf(),
        ensures
            out is Some <==> Canvas::can_resample(
                self.width(),
                self.height(),
                width as nat,
                height as nat,
            ),
            out matches Some(c) ==> {
                &&& c.wf()
                &&& c.width() == width
                &&& c.height() == height
                &&& c.samples() == resampled_samples(
                    self.samples(),
                    canvas_dimensions(*self).0,
                    canvas_dimensions(*self).1,
                    width,
                    height,
                )
                &&& (self.width() == width && self.height() == height ==> c.samples()
                    == self.samples())
                &&& (self.width() == 0 || self.height() == 0 ==> forall|k: int|
                    0 <= k < width * height ==> #[trigger] c.pixel_by_index(k)
                        == crate::color::black())
            },
    {
        let (from_width, from_height) = self.dimensions();
        if from_width > MAX_RESAMPLE_SIDE || from_height > MAX_RESAMPLE_SIDE || width
            > MAX_RESAMPLE_SIDE || height > MAX_RESAMPLE_SIDE {
            return None;
        }
        let limit: u64 = isize::MAX as u64;
        assert(from_width * height <= 65535 * 65535 && width * height <= 65535 * 65535)
            by (nonlinear_arith)
            requires
                from_width <= 65535,
                width <= 65535,
                height <= 65535,
        ;
        let work: u64 = 16 * (from_width as u64 * height as u64);
        let result: u64 = 3 * (width as u64 * height as u64);
        if work > limit || result > limit {
            return None;
        }
        let out = self.resized(width, height);
        assert forall|k: int|
            (self.width() == 0 || self.height() == 0) && 0 <= k < width * height implies #[trigger] out.pixel_by_index(
            k,
        ) == crate::color::black() by {
            assert(3 * k + 2 < 3 * (width * height));
        }
        Some(out)
    }

    /// The samples in storage order: three to the pixel, row by row.
    pub fn into_raw(self) -> (samples: Vec<u8>)
        ensures
            samples@ == self.samples(),
    {
        self.raw()
    }
}

} // verus!
