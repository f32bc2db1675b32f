use mandelbrot::canvas::Canvas;
use mandelbrot::color::{compute_color, ColorScheme, Rgb};
use mandelbrot::escape;
use mandelbrot::fractal::FractalType;
use mandelbrot::grid::{centered_offset, index_of, position_of};
use mandelbrot::cli::parse_args;
use mandelbrot::render::{all_within, draw_fractal, render_image, try_draw_fractal, RenderError};

const BLACK: Rgb = Rgb { r: 0, g: 0, b: 0 };

/// The escape evaluator on pairs of `f64`.
fn escape_count(z0: (f64, f64), c: (f64, f64), max_iter: u32) -> u32 {
    escape::escape_count(
        z0,
        |z: &(f64, f64)| (z.0 * z.0 - z.1 * z.1 + c.0, 2.0 * z.0 * z.1 + c.1),
        |z: &(f64, f64)| z.0.hypot(z.1) <= 2.0,
        max_iter,
    )
}

/// The base transform from a pixel to the plane, on the library's offsets.
fn plane_point(x: u32, y: u32, width: u32, height: u32, scale: f64) -> (f64, f64) {
    let cx = centered_offset(x, width) as f64 * 0.5 * scale / width as f64;
    let cy = centered_offset(y, height) as f64 * 0.5 * scale / height as f64;
    (cx, cy)
}

fn counts_of(
    fractal: FractalType<(f64, f64)>,
    width: u32,
    height: u32,
    max_iter: u32,
    scale: f64,
) -> Vec<u32> {
    let mut counts = Vec::new();
    for index in 0..(width as usize * height as usize) {
        let (x, y) = position_of(index, width, height);
        let point = plane_point(x, y, width, height, scale);
        let (seed, parameter) = fractal.orbit_start(point, (0.0, 0.0));
        counts.push(escape_count(seed, parameter, max_iter));
    }
    counts
}

fn mandelbrot_counts(width: u32, height: u32, max_iter: u32, scale: f64) -> Vec<u32> {
    counts_of(FractalType::Mandelbrot, width, height, max_iter, scale)
}

fn julia_counts(width: u32, height: u32, max_iter: u32, scale: f64) -> Vec<u32> {
    counts_of(FractalType::Julia((-0.7, 0.27015)), width, height, max_iter, scale)
}

#[test]
fn orbits_start_where_the_fractal_says() {
    let mandelbrot: FractalType<(i32, i32)> = FractalType::Mandelbrot;
    assert_eq!(mandelbrot.orbit_start((3, 4), (0, 0)), ((0, 0), (3, 4)));
    let julia = FractalType::Julia((7, 8));
    assert_eq!(julia.orbit_start((3, 4), (0, 0)), ((3, 4), (7, 8)));
}

#[test]
fn the_evaluator_counts_steps_up_to_the_bound() {
    let count = |seed: u32, limit: u32, max_iter: u32| {
        escape::escape_count(seed, |n: &u32| n + 1, |n: &u32| *n < limit, max_iter)
    };
    assert_eq!(count(0, 7, 50), 7);
    assert_eq!(count(3, 7, 50), 4);
    assert_eq!(count(7, 7, 50), 0);
    assert_eq!(count(9, 7, 50), 0);
    assert_eq!(count(0, 7, 7), 7);
    assert_eq!(count(0, 7, 6), 6);
    assert_eq!(count(0, 7, 0), 0);
    assert_eq!(count(0, 1000, 50), 50);
}

#[test]
fn the_evaluator_applies_the_step_once_for_each_count() {
    let calls = std::cell::Cell::new(0u32);
    let n = escape::escape_count(
        1u64,
        |z: &u64| {
            calls.set(calls.get() + 1);
            z * 2
        },
        |z: &u64| *z <= 100,
        50,
    );
    assert_eq!(n, 7);
    assert_eq!(calls.get(), 7);
}

#[test]
fn the_origin_never_escapes() {
    for max_iter in [1, 2, 50, 1000] {
        assert_eq!(escape_count((0.0, 0.0), (0.0, 0.0), max_iter), max_iter);
    }
}

#[test]
fn a_far_point_escapes_at_once() {
    assert_eq!(escape_count((0.0, 0.0), (2.0, 2.0), 50), 1);
    assert_eq!(escape_count((3.0, 0.0), (0.0, 0.0), 50), 0);
    assert_eq!(escape_count((0.0, 0.0), (1.0, 0.0), 50), 3);
}

#[test]
fn raising_the_bound_never_lowers_the_count() {
    let points = [(0.0, 0.0), (0.3, 0.5), (-0.75, 0.1), (0.26, 0.0), (1.0, 1.0), (-2.0, 0.0)];
    for c in points {
        let mut last = 0;
        for max_iter in 0..200 {
            let count = escape_count((0.0, 0.0), c, max_iter);
            assert!(count >= last);
            assert_eq!(count, escape_count((0.0, 0.0), c, 200).min(max_iter));
            last = count;
        }
    }
}

#[test]
fn centre_pixel_maps_to_the_origin() {
    assert_eq!(centered_offset(50, 100), 0);
    assert_eq!(centered_offset(0, 100), -100);
    assert_eq!(centered_offset(99, 100), 98);
    assert_eq!(centered_offset(50, 101), -1);
    assert_eq!(centered_offset(u32::MAX, 0), 2 * (u32::MAX as i64));
    assert_eq!(centered_offset(0, u32::MAX), -(u32::MAX as i64));
    for (width, height, scale) in [(100u32, 100u32, 4.0f64), (200, 50, 3.5), (2, 2, 1e-9), (640, 480, 1e9)] {
        assert_eq!(plane_point(width / 2, height / 2, width, height, scale), (0.0, 0.0));
    }
}

#[test]
fn offsets_reproduce_the_base_transform() {
    for (x, width, scale) in [(0u32, 100u32, 4.0f64), (17, 100, 4.0), (99, 100, 4.0), (3, 7, 2.5), (1919, 1920, 3.0)] {
        let expected = (x as f64 - 0.5 * width as f64) * scale / width as f64;
        let got = centered_offset(x, width) as f64 * 0.5 * scale / width as f64;
        assert_eq!(got, expected);
    }
    assert_eq!(plane_point(0, 0, 100, 100, 4.0), (-2.0, -2.0));
    assert_eq!(plane_point(75, 25, 100, 100, 4.0), (1.0, -1.0));
}

#[test]
fn indices_and_positions_are_inverse() {
    assert_eq!(index_of(0, 0, 7, 5), 0);
    assert_eq!(index_of(6, 0, 7, 5), 6);
    assert_eq!(index_of(0, 1, 7, 5), 7);
    assert_eq!(index_of(3, 4, 7, 5), 31);
    assert_eq!(position_of(31, 7, 5), (3, 4));
    assert_eq!(position_of(34, 7, 5), (6, 4));
    for index in 0..35 {
        let (x, y) = position_of(index, 7, 5);
        assert!(x < 7 && y < 5);
        assert_eq!(index_of(x, y, 7, 5), index);
    }
}

#[test]
fn a_new_canvas_is_black() {
    let canvas = Canvas::new(4, 3);
    assert_eq!(canvas.get_width(), 4);
    assert_eq!(canvas.get_height(), 3);
    for y in 0..3 {
        for x in 0..4 {
            assert_eq!(canvas.get_pixel(x, y), BLACK);
        }
    }
    assert_eq!(canvas.into_raw(), vec![0u8; 36]);
    let empty = Canvas::new(0, 9);
    assert_eq!((empty.get_width(), empty.get_height()), (0, 9));
    assert_eq!(empty.into_raw(), Vec::<u8>::new());
}

#[test]
fn a_written_pixel_is_read_back_and_no_other_changes() {
    let mut canvas = Canvas::new(3, 2);
    canvas.put_pixel(1, 1, Rgb { r: 10, g: 20, b: 30 });
    canvas.put_pixel(2, 0, Rgb { r: 1, g: 2, b: 3 });
    assert_eq!(canvas.get_pixel(1, 1), Rgb { r: 10, g: 20, b: 30 });
    assert_eq!(canvas.get_pixel(2, 0), Rgb { r: 1, g: 2, b: 3 });
    assert_eq!(canvas.get_pixel(0, 0), BLACK);
    assert_eq!(canvas.get_pixel(1, 0), BLACK);
    assert_eq!(canvas.get_pixel(0, 1), BLACK);
    assert_eq!(canvas.get_pixel(2, 1), BLACK);
    assert_eq!((canvas.get_width(), canvas.get_height()), (3, 2));
    assert_eq!(
        canvas.into_raw(),
        vec![0, 0, 0, 0, 0, 0, 1, 2, 3, 0, 0, 0, 10, 20, 30, 0, 0, 0]
    );
}

#[test]
fn every_pixel_gets_the_colour_of_its_count() {
    let counts: Vec<u32> = vec![0, 1, 2, 3, 4, 5, 6, 7, 8, 9, 10, 10];
    for scheme in [ColorScheme::Grayscale, ColorScheme::BlackAndWhite, ColorScheme::Rainbow] {
        let canvas = draw_fractal(4, 3, 10, scheme, &counts);
        assert_eq!((canvas.get_width(), canvas.get_height()), (4, 3));
        for y in 0..3u32 {
            for x in 0..4u32 {
                let expected = compute_color(counts[(y * 4 + x) as usize], 10, scheme);
                assert_eq!(canvas.get_pixel(x, y), expected);
            }
        }
        assert_eq!(canvas.get_pixel(2, 2), BLACK);
        assert_eq!(canvas.get_pixel(3, 2), BLACK);
    }
    let gray = draw_fractal(4, 3, 10, ColorScheme::Grayscale, &counts);
    assert_eq!(gray.get_pixel(1, 0), Rgb { r: 25, g: 25, b: 25 });
    assert_eq!(gray.get_pixel(1, 2), Rgb { r: 229, g: 229, b: 229 });
    let raw = gray.into_raw();
    assert_eq!(raw.len(), 36);
    assert_eq!(&raw[3..6], &[25, 25, 25]);
}

#[test]
fn drawing_an_empty_grid_gives_an_empty_canvas() {
    let canvas = draw_fractal(0, 0, 5, ColorScheme::Rainbow, &Vec::new());
    assert_eq!((canvas.get_width(), canvas.get_height()), (0, 0));
    let canvas = draw_fractal(5, 0, 5, ColorScheme::Rainbow, &Vec::new());
    assert_eq!((canvas.get_width(), canvas.get_height()), (5, 0));
}

#[test]
fn counts_are_checked_before_drawing() {
    assert!(all_within(&vec![0, 5, 10], 10));
    assert!(!all_within(&vec![0, 11, 10], 10));
    assert!(all_within(&Vec::new(), 0));
    let counts = vec![0, 1, 2, 3, 4, 5];
    assert!(try_draw_fractal(3, 2, 5, ColorScheme::Grayscale, &counts).is_some());
    assert!(try_draw_fractal(2, 3, 5, ColorScheme::Grayscale, &counts).is_some());
    assert!(try_draw_fractal(3, 2, 4, ColorScheme::Grayscale, &counts).is_none());
    assert!(try_draw_fractal(3, 3, 5, ColorScheme::Grayscale, &counts).is_none());
    assert!(try_draw_fractal(3, 2, 0, ColorScheme::Grayscale, &vec![0; 6]).is_none());
    assert!(try_draw_fractal(0, 0, 0, ColorScheme::Grayscale, &Vec::new()).is_none());
    assert!(try_draw_fractal(u32::MAX, u32::MAX, 5, ColorScheme::Grayscale, &counts).is_none());
    let canvas = try_draw_fractal(3, 2, 5, ColorScheme::Grayscale, &counts).unwrap();
    assert_eq!(canvas.get_pixel(2, 1), BLACK);
    assert_eq!(canvas.get_pixel(1, 1), Rgb { r: 204, g: 204, b: 204 });
}

#[test]
fn resampling_to_the_same_size_is_a_copy() {
    let counts: Vec<u32> = (0..12).collect();
    let canvas = draw_fractal(4, 3, 12, ColorScheme::Rainbow, &counts);
    let copy = canvas.resample(4, 3).unwrap();
    assert_eq!((copy.get_width(), copy.get_height()), (4, 3));
    for y in 0..3 {
        for x in 0..4 {
            assert_eq!(copy.get_pixel(x, y), canvas.get_pixel(x, y));
        }
    }
    assert_eq!(copy.into_raw(), canvas.into_raw());
}

#[test]
fn resampling_gives_the_new_dimensions() {
    let counts: Vec<u32> = (0..12).collect();
    let canvas = draw_fractal(4, 3, 12, ColorScheme::Grayscale, &counts);
    let larger = canvas.resample(8, 9).unwrap();
    assert_eq!((larger.get_width(), larger.get_height()), (8, 9));
    assert_eq!(larger.into_raw().len(), 8 * 9 * 3);
    let smaller = canvas.resample(2, 1).unwrap();
    assert_eq!((smaller.get_width(), smaller.get_height()), (2, 1));
    let none = canvas.resample(0, 0).unwrap();
    assert_eq!((none.get_width(), none.get_height()), (0, 0));
    let flat = Canvas::new(6, 5).resample(3, 4).unwrap();
    for y in 0..4 {
        for x in 0..3 {
            assert_eq!(flat.get_pixel(x, y), BLACK);
        }
    }
}

#[test]
fn resampling_from_nothing_is_black() {
    let empty = Canvas::new(0, 0);
    let out = empty.resample(3, 2).unwrap();
    assert_eq!((out.get_width(), out.get_height()), (3, 2));
    assert_eq!(out.into_raw(), vec![0u8; 18]);
}

#[test]
fn resampling_beyond_the_supported_sides_is_refused() {
    let canvas = Canvas::new(2, 2);
    assert!(canvas.resample(65535, 1).is_some());
    assert!(canvas.resample(65536, 1).is_none());
    assert!(canvas.resample(1, 65536).is_none());
    assert!(canvas.resample(u32::MAX, u32::MAX).is_none());
    let wide = Canvas::new(65536, 1);
    assert!(wide.resample(10, 10).is_none());
    let tall = Canvas::new(1, 65536);
    assert!(tall.resample(10, 10).is_none());
}

#[test]
fn mandelbrot_scenario_has_a_black_centre() {
    let counts = mandelbrot_counts(100, 100, 50, 4.0);
    assert_eq!(counts.len(), 10_000);
    assert_eq!(counts[index_of(50, 50, 100, 100)], 50);
    for scheme in [ColorScheme::Rainbow, ColorScheme::Grayscale] {
        let canvas = try_draw_fractal(100, 100, 50, scheme, &counts).unwrap();
        assert_eq!(canvas.get_pixel(50, 50), BLACK);
        let output = canvas.resample(100, 100).unwrap();
        assert_eq!((output.get_width(), output.get_height()), (100, 100));
        assert_eq!(output.get_pixel(50, 50), BLACK);
    }
    let rainbow = draw_fractal(100, 100, 50, ColorScheme::Rainbow, &counts);
    assert_eq!(rainbow.get_pixel(0, 0), compute_color(counts[0], 50, ColorScheme::Rainbow));
    assert_ne!(rainbow.get_pixel(0, 0), BLACK);
}

#[test]
fn julia_scenario_fills_the_capture_buffer() {
    let counts = julia_counts(200, 200, 100, 4.0);
    assert_eq!(counts.len(), 40_000);
    assert!(all_within(&counts, 100));
    let canvas = try_draw_fractal(200, 200, 100, ColorScheme::Grayscale, &counts).unwrap();
    assert_eq!((canvas.get_width(), canvas.get_height()), (200, 200));
    for (x, y) in [(0u32, 0u32), (100, 100), (199, 199), (37, 150)] {
        let expected = compute_color(counts[index_of(x, y, 200, 200)], 100, ColorScheme::Grayscale);
        assert_eq!(canvas.get_pixel(x, y), expected);
    }
    let output = canvas.resample(50, 50).unwrap();
    assert_eq!((output.get_width(), output.get_height()), (50, 50));
    assert_eq!(output.into_raw().len(), 50 * 50 * 3);
}

#[test]
fn rendering_twice_gives_the_same_buffer() {
    let counts = mandelbrot_counts(40, 30, 25, 3.0);
    let again = mandelbrot_counts(40, 30, 25, 3.0);
    assert_eq!(counts, again);
    let a = draw_fractal(40, 30, 25, ColorScheme::Rainbow, &counts).resample(20, 15).unwrap();
    let b = draw_fractal(40, 30, 25, ColorScheme::Rainbow, &again).resample(20, 15).unwrap();
    assert_eq!(a.into_raw(), b.into_raw());
}

fn job(list: &[&str]) -> mandelbrot::cli::RenderJob {
    let arguments: Vec<String> = list.iter().map(|s| s.to_string()).collect();
    parse_args(&arguments).unwrap()
}

#[test]
fn an_image_of_the_capture_size_is_the_capture_grid() {
    let job = job(&["output.png", "100x100", "100x100", "50", "4.0"]);
    let scale: f64 = job.scale.parse().unwrap();
    let counts = mandelbrot_counts(job.capture_width, job.capture_height, job.max_iter, scale);
    let image = render_image(&job, ColorScheme::Rainbow, &counts).unwrap();
    assert_eq!((image.get_width(), image.get_height()), (100, 100));
    assert_eq!(image.get_pixel(50, 50), BLACK);
    for (x, y) in [(0u32, 0u32), (99, 99), (10, 60), (70, 45)] {
        let count = counts[index_of(x, y, 100, 100)];
        assert_eq!(image.get_pixel(x, y), compute_color(count, 50, ColorScheme::Rainbow));
    }
}

#[test]
fn an_image_has_the_output_size() {
    let job = job(&["out.png", "30x20", "60x40", "25", "3.0", "julia", "-0.7,0.27015"]);
    let counts = julia_counts(60, 40, 25, 3.0);
    let image = render_image(&job, ColorScheme::Grayscale, &counts).unwrap();
    assert_eq!((image.get_width(), image.get_height()), (30, 20));
    assert_eq!(image.into_raw().len(), 30 * 20 * 3);
}

#[test]
fn an_image_needs_fitting_counts_and_sides() {
    let small = job(&["out.png", "3x2", "3x2", "5", "1.0"]);
    assert!(render_image(&small, ColorScheme::Grayscale, &vec![0, 1, 2, 3, 4, 5]).is_ok());
    assert_eq!(
        render_image(&small, ColorScheme::Grayscale, &vec![0, 1, 2, 3, 4]).err(),
        Some(RenderError::Capture)
    );
    assert_eq!(
        render_image(&small, ColorScheme::Grayscale, &vec![0, 1, 2, 3, 4, 6]).err(),
        Some(RenderError::Capture)
    );
    let large = job(&["out.png", "65536x1", "3x2", "5", "1.0"]);
    assert_eq!(
        render_image(&large, ColorScheme::Grayscale, &vec![0, 1, 2, 3, 4, 5]).err(),
        Some(RenderError::Resample)
    );
    assert_eq!(
        render_image(&large, ColorScheme::Grayscale, &vec![0, 1, 2]).err(),
        Some(RenderError::Capture)
    );
}
