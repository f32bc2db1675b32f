use mandelbrot::color::{channel_ceiling, channel_floor, compute_color, ColorScheme, Rgb};

fn float_gray(i: u32, max_iter: u32) -> Rgb {
    let v = ((i as f64 / max_iter as f64) * 255.0) as u8;
    Rgb { r: v, g: v, b: v }
}

fn float_rainbow(i: u32, max_iter: u32) -> Rgb {
    let t = i as f64 / max_iter as f64;
    let r = t.powf(0.3);
    let g = t.powf(0.5);
    let b = 1.0 - t.powf(0.7);
    Rgb { r: (r * 255.0) as u8, g: (g * 255.0) as u8, b: (b * 255.0) as u8 }
}

#[test]
fn in_set_is_black_under_every_scheme() {
    let black = Rgb { r: 0, g: 0, b: 0 };
    for max_iter in [1u32, 2, 50, 255, 1000, u32::MAX] {
        assert_eq!(compute_color(max_iter, max_iter, ColorScheme::Rainbow), black);
        assert_eq!(compute_color(max_iter, max_iter, ColorScheme::Grayscale), black);
        assert_eq!(compute_color(max_iter, max_iter, ColorScheme::BlackAndWhite), black);
    }
}

#[test]
fn zero_fraction_has_the_formula_values() {
    assert_eq!(compute_color(0, 50, ColorScheme::Rainbow), Rgb { r: 0, g: 0, b: 255 });
    assert_eq!(compute_color(0, 50, ColorScheme::Grayscale), Rgb { r: 0, g: 0, b: 0 });
    assert_eq!(compute_color(0, 50, ColorScheme::BlackAndWhite), Rgb { r: 0, g: 0, b: 0 });
}

#[test]
fn gray_levels_are_exact() {
    assert_eq!(compute_color(25, 50, ColorScheme::Grayscale), Rgb { r: 127, g: 127, b: 127 });
    assert_eq!(compute_color(1, 2, ColorScheme::BlackAndWhite), Rgb { r: 127, g: 127, b: 127 });
    assert_eq!(compute_color(49, 50, ColorScheme::Grayscale), Rgb { r: 249, g: 249, b: 249 });
    assert_eq!(compute_color(1, 255, ColorScheme::Grayscale), Rgb { r: 1, g: 1, b: 1 });
    assert_eq!(compute_color(254, 255, ColorScheme::Grayscale), Rgb { r: 254, g: 254, b: 254 });
}

#[test]
fn rainbow_levels_are_exact() {
    // t = 1/4: 255 * 0.25^0.3 = 168.2.., 255 * 0.5 = 127.5, 255 * (1 - 0.25^0.7) = 158.3..
    assert_eq!(compute_color(25, 100, ColorScheme::Rainbow), Rgb { r: 168, g: 127, b: 158 });
    // t = 1/2: 255 * 0.5^0.3 = 207.1.., 255 * 0.7071 = 180.3.., 255 * (1 - 0.5^0.7) = 98.0..
    assert_eq!(compute_color(1, 2, ColorScheme::Rainbow), Rgb { r: 207, g: 180, b: 98 });
}

#[test]
fn just_below_the_bound_is_not_black() {
    let black = Rgb { r: 0, g: 0, b: 0 };
    assert_eq!(compute_color(999, 1000, ColorScheme::Grayscale), Rgb { r: 254, g: 254, b: 254 });
    assert_eq!(compute_color(999, 1000, ColorScheme::Rainbow), Rgb { r: 254, g: 254, b: 0 });
    assert_ne!(compute_color(999, 1000, ColorScheme::Rainbow), black);
    assert_eq!(compute_color(1000, 1000, ColorScheme::Rainbow), black);
}

#[test]
fn gray_agrees_with_the_floating_point_formula() {
    for max_iter in [1u32, 2, 3, 5, 7, 50, 100, 255, 256, 510, 765, 1000, 65025] {
        let step = if max_iter > 2000 { 17 } else { 1 };
        let mut i = 0;
        while i < max_iter {
            assert_eq!(compute_color(i, max_iter, ColorScheme::Grayscale), float_gray(i, max_iter));
            i += step;
        }
    }
}

#[test]
fn rainbow_agrees_with_the_floating_point_formula() {
    for max_iter in [1u32, 2, 3, 7, 50, 100, 1000] {
        for i in 0..max_iter {
            assert_eq!(
                compute_color(i, max_iter, ColorScheme::Rainbow),
                float_rainbow(i, max_iter),
                "i = {}, max_iter = {}",
                i,
                max_iter
            );
        }
    }
    for (i, max_iter) in [(1u32, u32::MAX), (u32::MAX - 1, u32::MAX), (123_456_789, 4_000_000_000)] {
        assert_eq!(compute_color(i, max_iter, ColorScheme::Rainbow), float_rainbow(i, max_iter));
    }
}

#[test]
fn the_same_input_gives_the_same_colour() {
    for scheme in [ColorScheme::Rainbow, ColorScheme::Grayscale, ColorScheme::BlackAndWhite] {
        for i in 0..=50u32 {
            assert_eq!(compute_color(i, 50, scheme), compute_color(i, 50, scheme));
        }
    }
}

#[test]
fn levels_are_exact_where_the_root_is_rational() {
    // t = 9/289 has the square root 3/17, and 255 * 3/17 is 45 exactly.
    assert_eq!(compute_color(9, 289, ColorScheme::Rainbow).g, 45);
    assert_eq!(compute_color(1, 65025, ColorScheme::Rainbow).g, 1);
    assert_eq!(compute_color(16384, 65025, ColorScheme::Rainbow).g, 128);
    assert_eq!(compute_color(1, 4, ColorScheme::Rainbow).g, 127);
}

#[test]
fn channels_stay_below_full_intensity_before_the_bound() {
    for max_iter in [1u32, 2, 10, 255, 256, 1000] {
        for i in 0..max_iter {
            let c = compute_color(i, max_iter, ColorScheme::Rainbow);
            assert!(c.r < 255 && c.g < 255);
            assert_eq!(c.b == 255, i == 0);
            let g = compute_color(i, max_iter, ColorScheme::Grayscale);
            assert!(g.r < 255 && g.r == g.g && g.g == g.b);
            assert_eq!(g, compute_color(i, max_iter, ColorScheme::BlackAndWhite));
        }
    }
}

#[test]
fn single_channels() {
    assert_eq!(channel_floor(1, 2, 1, 1), 127);
    assert_eq!(channel_ceiling(1, 2, 1, 1), 128);
    assert_eq!(channel_floor(0, 7, 3, 10), 0);
    assert_eq!(channel_ceiling(0, 7, 7, 10), 0);
    assert_eq!(channel_floor(1, 4, 1, 2), 127);
    assert_eq!(channel_ceiling(1, 4, 1, 2), 128);
    assert_eq!(channel_floor(4, 25, 1, 2), 102);
    assert_eq!(channel_ceiling(4, 25, 1, 2), 102);
    assert_eq!(channel_floor(u32::MAX - 1, u32::MAX, 3, 10), 254);
    assert_eq!(channel_ceiling(u32::MAX - 1, u32::MAX, 7, 10), 255);
    assert_eq!(channel_ceiling(1, u32::MAX, 7, 10), 1);
}
