use mandelbrot::canvas::PixelGrid;
use mandelbrot::color::Color;
use mandelbrot::colormap::{ColorMap, ColoredColorMap, GrayscaleMap};
use mandelbrot::config::{ColorMode, ConfigError};
use mandelbrot::escape::escape_time;
use mandelbrot::mandelbrotset::{generate_mandelbrot_set, render_mandelbrot};

/// An orbit state: the accumulator `(x, y)` and the point `(x0, y0)`.
type State = (f32, f32, f32, f32);

const DEFAULT_VIEW: (f32, f32, f32, f32) = (-2.0, 2.0, -1.5, 1.5);

fn plane(width: u32, height: u32, view: (f32, f32, f32, f32)) -> impl Fn(u32, u32) -> State {
    let (xmin, xmax, ymin, ymax) = view;
    let scale_x = (xmax - xmin) / width as f32;
    let scale_y = (ymax - ymin) / height as f32;
    move |px, py| (0.0, 0.0, px as f32 * scale_x + xmin, py as f32 * scale_y + ymin)
}

fn step(z: State) -> State {
    (z.0 * z.0 - z.1 * z.1 + z.2, 2.0 * z.0 * z.1 + z.3, z.2, z.3)
}

fn bounded(z: &State) -> bool {
    z.0 * z.0 + z.1 * z.1 <= 4.0
}

fn count_at(x0: f32, y0: f32, max_iterations: u32) -> u32 {
    escape_time((0.0, 0.0, x0, y0), max_iterations, &step, &bounded)
}

fn render(width: u32, height: u32, mode: ColorMode, max_iterations: u32) -> PixelGrid {
    let rendered =
        render_mandelbrot(width, height, mode, max_iterations, plane(width, height, DEFAULT_VIEW), step, bounded);
    match rendered {
        Ok(image) => image,
        Err(error) => panic!("{}", error.message()),
    }
}

#[test]
fn origin_never_escapes() {
    assert_eq!(count_at(0.0, 0.0, 100), 100);
    assert_eq!(count_at(0.0, 0.0, 1), 1);
    assert_eq!(count_at(-1.0, 0.0, 100), 100);
}

#[test]
fn far_point_escapes_after_one_step() {
    // The first state is the origin, which is bounded; one step leads to
    // (2, 2), whose squared distance 8 is beyond the radius.
    assert_eq!(count_at(2.0, 2.0, 100), 1);
    assert_eq!(count_at(2.0, 2.0, 1), 1);
    assert_eq!(count_at(-2.0, -1.5, 100), 1);
}

#[test]
fn cap_of_zero_takes_no_step() {
    assert_eq!(count_at(0.0, 0.0, 0), 0);
    assert_eq!(count_at(2.0, 2.0, 0), 0);
}

#[test]
fn escape_time_counts_steps_inside_the_bound() {
    let next = |z: u32| z + 1;
    let below = |z: &u32| *z < 3;
    assert_eq!(escape_time(0u32, 10, &next, &below), 3);
    assert_eq!(escape_time(0u32, 2, &next, &below), 2);
    assert_eq!(escape_time(0u32, 3, &next, &below), 3);
    assert_eq!(escape_time(3u32, 10, &next, &below), 0);
    assert_eq!(escape_time(7u32, 10, &next, &below), 0);
    assert_eq!(escape_time(1u32, 0, &next, &below), 0);
}

#[test]
fn boundary_of_the_radius_counts_as_bounded() {
    // (-2, 0): 0 -> -2 -> 2 -> 2 -> ...; the squared distance is exactly 4.
    assert_eq!(count_at(-2.0, 0.0, 50), 50);
    // (1, 0): 0 -> 1 -> 2 -> 5: the third state is still at distance 2.
    assert_eq!(count_at(1.0, 0.0, 50), 3);
}

#[test]
fn center_pixel_of_the_default_view_is_inside() {
    let point = plane(800, 600, DEFAULT_VIEW);
    let (_, _, x0, y0) = point(400, 300);
    assert_eq!((x0, y0), (0.0, 0.0));
    assert_eq!(escape_time(point(400, 300), 100, &step, &bounded), 100);
    for mode in [ColorMode::Grayscale, ColorMode::Colored] {
        let image = render(80, 60, mode, 100);
        assert_eq!(image.get_pixel(40, 30), Some(Color::new(0, 0, 0)));
    }
}

#[test]
fn grid_is_fully_covered() {
    let image = render(40, 30, ColorMode::Colored, 100);
    assert_eq!(image.dimensions(), (40, 30));
    assert_eq!(image.as_raw().len(), 40 * 30 * 3);
    // In the gradient mode black is the colour of unescaped points only: the
    // corner pixels escape at once and must have been painted.
    let first = ColoredColorMap::new(100).color(1);
    assert_ne!(first, Color::new(0, 0, 0));
    assert_eq!(image.get_pixel(0, 0), Some(first));
    assert_eq!(image.get_pixel(39, 29).map(|c| c == Color::new(0, 0, 0)), Some(false));
    for px in 0..40 {
        for py in 0..30 {
            assert!(image.get_pixel(px, py).is_some());
        }
    }
    assert_eq!(image.get_pixel(40, 0), None);
}

#[test]
fn every_pixel_is_the_shade_of_its_escape_time() {
    let width = 64;
    let height = 48;
    let point = plane(width, height, DEFAULT_VIEW);
    let gray = GrayscaleMap::new(100);
    let colored = ColoredColorMap::new(100);
    let gray_image =
        generate_mandelbrot_set(width, height, &gray, plane(width, height, DEFAULT_VIEW), step, bounded);
    let colored_image =
        generate_mandelbrot_set(width, height, &colored, plane(width, height, DEFAULT_VIEW), step, bounded);
    for px in 0..width {
        for py in 0..height {
            let count = escape_time(point(px, py), 100, &step, &bounded);
            assert_eq!(gray_image.get_pixel(px, py), Some(gray.color(count)));
            assert_eq!(colored_image.get_pixel(px, py), Some(colored.color(count)));
        }
    }
}

#[test]
fn rendering_is_repeatable() {
    for mode in [ColorMode::Grayscale, ColorMode::Colored] {
        let first = render(120, 90, mode, 100);
        let second = render(120, 90, mode, 100);
        assert_eq!(first.dimensions(), second.dimensions());
        assert_eq!(first.as_raw(), second.as_raw());
    }
}

#[test]
fn colored_render_stays_within_the_gradient() {
    let image = render(800, 600, ColorMode::Colored, 100);
    assert_eq!(image.dimensions(), (800, 600));
    let map = ColoredColorMap::new(100);
    let mut allowed = vec![Color::new(0, 0, 0)];
    for i in 0..100 {
        allowed.push(map.color(i));
    }
    let raw = image.as_raw();
    assert_eq!(raw.len(), 800 * 600 * 3);
    let mut inside = 0u32;
    for pixel in raw.chunks(3) {
        let color = Color::new(pixel[0], pixel[1], pixel[2]);
        assert!(allowed.contains(&color));
        if color == Color::new(0, 0, 0) {
            inside += 1;
        }
    }
    assert!(inside > 0);
    assert!(inside < 800 * 600);
}

#[test]
fn grayscale_render_is_gray() {
    let image = render(100, 75, ColorMode::Grayscale, 100);
    for pixel in image.as_raw().chunks(3) {
        assert!(pixel[0] == pixel[1] && pixel[1] == pixel[2]);
        assert!(pixel[0] <= 252);
    }
}

#[test]
fn invalid_requests_are_refused() {
    let refused = |width: u32, height: u32, mode: ColorMode, max_iterations: u32| {
        render_mandelbrot(width, height, mode, max_iterations, plane(800, 600, DEFAULT_VIEW), step, bounded)
            .err()
    };
    assert_eq!(refused(0, 600, ColorMode::Colored, 100), Some(ConfigError::EmptyGrid));
    assert_eq!(refused(800, 0, ColorMode::Grayscale, 100), Some(ConfigError::EmptyGrid));
    assert_eq!(refused(8, 6, ColorMode::Grayscale, 0), Some(ConfigError::TooFewIterations));
    assert_eq!(refused(8, 6, ColorMode::Colored, 1), Some(ConfigError::TooFewIterations));
    assert_eq!(refused(8, 6, ColorMode::Colored, 2), None);
    assert_eq!(refused(8, 6, ColorMode::Grayscale, 1), None);
    if usize::BITS <= 64 {
        assert_eq!(
            refused(u32::MAX, u32::MAX, ColorMode::Grayscale, 100),
            Some(ConfigError::GridTooLarge)
        );
    }
}

#[test]
fn empty_grids_render_to_nothing() {
    let map = GrayscaleMap::new(100);
    let image = generate_mandelbrot_set(0, 5, &map, plane(1, 5, DEFAULT_VIEW), step, bounded);
    assert_eq!(image.dimensions(), (0, 5));
    assert_eq!(image.as_raw().len(), 0);
    assert_eq!(image.get_pixel(0, 0), None);
}
