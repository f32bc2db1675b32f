//! The renderer: one colour for each pixel of the capture grid.

use crate::canvas::{resampled_samples, Canvas};
use crate::cli::RenderJob;
use crate::color::{black, color_of, compute_color, ColorScheme};
use crate::grid::{lemma_pixel_index_in_range, pixel_index};
use vstd::prelude::*;

verus! {

/// Every escape count is within the bound it was taken under.
pub open spec fn counts_within(counts: Seq<u32>, max_iter: u32) -> bool {
    forall|k: int| 0 <= k < counts.len() ==> #[trigger] counts[k] <= max_iter
}

/// The sample at place `j` of a painted grid: the red, green or blue of the
/// colour of the count at `j / 3`.
pub open spec fn painted_sample(counts: Seq<u32>, max_iter: u32, scheme: ColorScheme, j: int) -> u8 {
    let c = color_of(counts[j / 3] as nat, max_iter as nat, scheme);
    if j % 3 == 0 {
        c.r
    } else if j % 3 == 1 {
        c.g
    } else {
        c.b
    }
}

/// The samples of the grid painted from the counts, in storage order.
pub open spec fn painted_samples(counts: Seq<u32>, max_iter: u32, scheme: ColorScheme) -> Seq<u8> {
    Seq::new(3 * counts.len(), |j: int| painted_sample(counts, max_iter, scheme, j))
}

/// Paints the capture grid: the pixel in column `x` of row `y` gets the colour
/// of the escape count at `y * width + x`. Every pixel is written, each from
/// its own count alone, and a pixel whose count is the bound is black.
pub fn draw_fractal(
    width: u32,
    height: u32,
    max_iter: u32,
    scheme: ColorScheme,
    counts: &Vec<u32>,
) -> (canvas: Canvas)
    requires
        max_iter > 0,
        3 * (width * height) <= isize::MAX,
        counts@.len() == width * height,
        counts_within(counts@, max_iter),
    ensures
        canvas.wf(),
        canvas.width() == width,
        canvas.height() == height,
        canvas.samples() == painted_samples(counts@, max_iter, scheme),
        forall|x: int, y: int|
            0 <= x < width && 0 <= y < height ==> #[trigger] canvas.pixel(x, y) == color_of(
                counts@[pixel_index(x, y, width as int)] as nat,
                max_iter as nat,
                scheme,
            ),
        forall|x: int, y: int|
            0 <= x < width && 0 <= y < height && counts@[pixel_index(x, y, width as int)]
                == max_iter ==> #[trigger] canvas.pixel(x, y) == black(),
{
    let mut canvas = Canvas::new(width, height);
    let total: usize = counts.len();
    let mut y: u32 = 0;
    while y < height
        invariant
            y <= height,
            max_iter > 0,
            total == width * height,
            counts@.len() == width * height,
            counts_within(counts@, max_iter),
            canvas.wf(),
            canvas.width() == width,
            canvas.height() == height,
            forall|k: int|
                0 <= k < y * width ==> #[trigger] canvas.pixel_by_index(k) == color_of(
                    counts@[k] as nat,
                    max_iter as nat,
                    scheme,
                ),
        decreases height - y,
    {
        let mut x: u32 = 0;
        while x < width
            invariant
                x <= width,
                y < height,
                max_iter > 0,
                total == width * height,
                counts@.len() == width * height,
                counts_within(counts@, max_iter),
                canvas.wf(),
                canvas.width() == width,
                canvas.height() == height,
                forall|k: int|
                    0 <= k < y * width + x ==> #[trigger] canvas.pixel_by_index(k) == color_of(
                        counts@[k] as nat,
                        max_iter as nat,
                        scheme,
                    ),
            decreases width - x,
        {
            proof {
                lemma_pixel_index_in_range(x as int, y as int, width as int, height as int);
                assert(0 <= y * width) by (nonlinear_arith);
            }
            let at: usize = y as usize * width as usize + x as usize;
            let color = compute_color(counts[at], max_iter, scheme);
            let ghost before = canvas;
            canvas.put_pixel(x, y, color);
            assert forall|k: int| 0 <= k < y * width + x + 1 implies #[trigger] canvas.pixel_by_index(
                k,
            ) == color_of(counts@[k] as nat, max_iter as nat, scheme) by {
                if k != at {
                    assert(canvas.pixel_by_index(k) == before.pixel_by_index(k));
                }
            }
            x = x + 1;
        }
        assert((y + 1) * width == y * width + width) by (nonlinear_arith);
        y = y + 1;
    }
    assert forall|x: int, y: int| 0 <= x < width && 0 <= y < height implies #[trigger] canvas.pixel(
        x,
        y,
    ) == color_of(counts@[pixel_index(x, y, width as int)] as nat, max_iter as nat, scheme) by {
        lemma_pixel_index_in_range(x, y, width as int, height as int);
    }
    assert(canvas.samples() =~= painted_samples(counts@, max_iter, scheme)) by {
        assert forall|j: int| 0 <= j < canvas.samples().len() implies canvas.samples()[j]
            == painted_sample(counts@, max_iter, scheme, j) by {
            let k = j / 3;
            assert(canvas.pixel_by_index(k) == color_of(
                counts@[k] as nat,
                max_iter as nat,
                scheme,
            ));
        }
    }
    canvas
}

/// The inputs on which the grid can be painted: a positive bound, a buffer
/// that fits in memory, and one escape count within the bound for each pixel.
pub open spec fn can_draw(width: u32, height: u32, max_iter: u32, counts: Seq<u32>) -> bool {
    &&& max_iter > 0
    &&& 3 * (width * height) <= isize::MAX
    &&& counts.len() == width * height
    &&& counts_within(counts, max_iter)
}

/// Whether every escape count is within the bound.
pub fn all_within(counts: &Vec<u32>, max_iter: u32) -> (r: bool)
    ensures
        r == counts_within(counts@, max_iter),
{
    let mut k: usize = 0;
    while k < counts.len()
        invariant
            k <= counts@.len(),
            forall|j: int| 0 <= j < k ==> #[trigger] counts@[j] <= max_iter,
        decreases counts@.len() - k,
    {
        if counts[k] > max_iter {
            return false;
        }
        k = k + 1;
    }
    true
}

/// Paints the capture grid where the inputs allow it, and gives nothing
/// where they do not.
pub fn try_draw_fractal(
    width: u32,
    height: u32,
    max_iter: u32,
    scheme: ColorScheme,
    counts: &Vec<u32>,
) -> (r: Option<Canvas>)
    ensures
        r is Some <==> can_draw(width, height, max_iter, counts@),
        r matches Some(canvas) ==> {
            &&& canvas.wf()
            &&& canvas.width() == width
            &&& canvas.height() == height
            &&& canvas.samples() == painted_samples(counts@, max_iter, scheme)
            &&& forall|x: int, y: int|
                0 <= x < width && 0 <= y < height ==> #[trigger] canvas.pixel(x, y) == color_of(
                    counts@[pixel_index(x, y, width as int)] as nat,
                    max_iter as nat,
                    scheme,
                )
        },
{
    if max_iter == 0 {
        return None;
    }
    assert(width * height <= 0xffff_ffff * 0xffff_ffff) by (nonlinear_arith)
        requires
            width <= 0xffff_ffff,
            height <= 0xffff_ffff,
    ;
    let pixels: u64 = width as u64 * height as u64;
    let limit: u64 = (isize::MAX as u64) / 3;
    if pixels > limit {
        return None;
    }
    if counts.len() as u64 != pixels {
        return None;
    }
    if !all_within(counts, max_iter) {
        return None;
    }
    Some(draw_fractal(width, height, max_iter, scheme, counts))
}

/// Why a job gives no image.
#[derive(Clone, Copy, Debug, PartialEq, Eq, Structural)]
pub enum RenderError {
    /// The capture grid cannot be painted from the counts given.
    Capture,
    /// The capture grid cannot be resampled to the output size.
    Resample,
}

/// The image that a job asks for: the capture grid painted from its escape
/// counts, then resampled to the output size. Its samples are those that the
/// resampler computes from the painted grid. Where the two sizes are equal
/// the output is the capture grid itself, pixel for pixel.
pub fn render_image(job: &RenderJob, scheme: ColorScheme, counts: &Vec<u32>) -> (r: Result<
    Canvas,
    RenderError,
>)
    ensures
        r is Ok <==> can_draw(job.capture_width, job.capture_height, job.max_iter, counts@)
            && Canvas::can_resample(
            job.capture_width as nat,
            job.capture_height as nat,
            job.width as nat,
            job.height as nat,
        ),
        r == Err::<Canvas, RenderError>(RenderError::Capture) <==> !can_draw(
            job.capture_width,
            job.capture_height,
            job.max_iter,
            counts@,
        ),
        r matches Ok(image) ==> {
            &&& image.wf()
            &&& image.width() == job.width
            &&& image.height() == job.height
            &&& image.samples() == resampled_samples(
                painted_samples(counts@, job.max_iter, scheme),
                job.capture_width,
                job.capture_height,
                job.width,
                job.height,
            )
            &&& (job.width == job.capture_width && job.height == job.capture_height
                ==> forall|x: int, y: int|
                0 <= x < job.width && 0 <= y < job.height ==> #[trigger] image.pixel(x, y)
                    == color_of(
                    counts@[pixel_index(x, y, job.width as int)] as nat,
                    job.max_iter as nat,
                    scheme,
                ))
        },
{
    let capture = match try_draw_fractal(
        job.capture_width,
        job.capture_height,
        job.max_iter,
        scheme,
        counts,
    ) {
        Some(canvas) => canvas,
        None => {
            return Err(RenderError::Capture);
        },
    };
    match capture.resample(job.width, job.height) {
        Some(image) => {
            assert forall|x: int, y: int|
                job.width == job.capture_width && job.height == job.capture_height && 0 <= x
                    < job.width && 0 <= y < job.height implies #[trigger] image.pixel(x, y)
                == color_of(
                counts@[pixel_index(x, y, job.width as int)] as nat,
                job.max_iter as nat,
                scheme,
            ) by {
                assert(image.pixel(x, y) == capture.pixel(x, y));
            }
            Ok(image)
        },
        None => Err(RenderError::Resample),
    }
}

} // verus!
