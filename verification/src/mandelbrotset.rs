//! The Mandelbrot renderer: one escape-time iteration per pixel, coloured by
//! a colour map.
//!
//! The arithmetic of the plane is the caller's: `point` gives the state in
//! which the orbit of a pixel starts, `step` the next state of an orbit, and
//! `bounded` tells whether a state is still within the escape radius.

use vstd::prelude::*;
use crate::canvas::{
    fits_in_memory, is_raster_of, lemma_raster_is_unique, new_grid, put_pixel, PixelGrid,
};
use crate::color::Color;
use crate::colormap::{shade_of, ColorMap, ColoredColorMap, GrayscaleMap};
use crate::config::{check_config, config_error, ColorMode, ConfigError};
use crate::escape::{
    bounds_by, escape_count, escape_time, escapes_after, lemma_escape_time_is_count, steps_by,
};

verus! {

/// Whether `color` is a colour that pixel `(px, py)` can get: what `paint`
/// makes of a number of steps after which the orbit of the pixel can leave
/// the bounded region, or of `cap` if the orbit can stay that long.
pub open spec fn is_rendering_of<S, P: Fn(u32, u32) -> S, T: Fn(S) -> S, B: Fn(&S) -> bool>(
    color: Color,
    paint: spec_fn(u32) -> Color,
    cap: u32,
    point: &P,
    step: &T,
    bounded: &B,
    px: u32,
    py: u32,
) -> bool {
    exists|start: S, count: u32|
        {
            &&& call_ensures(*point, (px, py), start)
            &&& #[trigger] escapes_after(step, bounded, start, cap, count)
            &&& color == paint(count)
        }
}

/// Whether `point` returns nothing but what the function `origin` gives.
pub open spec fn starts_at<S, P: Fn(u32, u32) -> S>(point: &P, origin: spec_fn(u32, u32) -> S) -> bool {
    forall|px: u32, py: u32, start: S| call_ensures(*point, (px, py), start) ==> start == origin(px, py)
}

/// Whether the pixels of `image` before column `px`, and those of column `px`
/// before row `py`, are rendered.
spec fn rendered_up_to<S, P: Fn(u32, u32) -> S, T: Fn(S) -> S, B: Fn(&S) -> bool>(
    image: PixelGrid,
    paint: spec_fn(u32) -> Color,
    cap: u32,
    point: &P,
    step: &T,
    bounded: &B,
    px: u32,
    py: u32,
) -> bool {
    forall|x: u32, y: u32|
        x < image.width() && y < image.height() && (x < px || (x == px && y < py))
            ==> is_rendering_of(#[trigger] image.pixel(x, y), paint, cap, point, step, bounded, x, y)
}

/// Renders the grid of `width` by `height` pixels: each pixel gets the colour
/// that `color_map` gives to the escape time of the pixel's orbit, capped at
/// the map's number of iterations.
///
/// The grid must fit in memory.
pub fn generate_mandelbrot_set<C: ColorMap, S, P: Fn(u32, u32) -> S, T: Fn(S) -> S, B: Fn(&S) -> bool>(
    width: u32,
    height: u32,
    color_map: &C,
    point: P,
    step: T,
    bounded: B,
) -> (image: PixelGrid)
    requires
        fits_in_memory(width, height),
        forall|px: u32, py: u32| px < width && py < height ==> call_requires(point, (px, py)),
        forall|z: S| call_requires(step, (z,)),
        forall|z: &S| call_requires(bounded, (z,)),
    ensures
        image.width() == width,
        image.height() == height,
        forall|px: u32, py: u32|
            px < width && py < height ==> is_rendering_of(
                #[trigger] image.pixel(px, py),
                |count: u32| color_map.shade(count),
                color_map.cap(),
                &point,
                &step,
                &bounded,
                px,
                py,
            ),
{
    let mut img = new_grid(width, height);
    let max_iterations = color_map.get_max_iterations();
    let ghost paint = |count: u32| color_map.shade(count);
    let mut px: u32 = 0;
    while px < width
        invariant
            forall|px: u32, py: u32| px < width && py < height ==> call_requires(point, (px, py)),
            forall|z: S| call_requires(step, (z,)),
            forall|z: &S| call_requires(bounded, (z,)),
            max_iterations == color_map.cap(),
            paint == |count: u32| color_map.shade(count),
            img.width() == width,
            img.height() == height,
            px <= width,
            rendered_up_to(img, paint, max_iterations, &point, &step, &bounded, px, 0),
        decreases width - px,
    {
        let mut py: u32 = 0;
        while py < height
            invariant
                forall|px: u32, py: u32|
                    px < width && py < height ==> call_requires(point, (px, py)),
                forall|z: S| call_requires(step, (z,)),
                forall|z: &S| call_requires(bounded, (z,)),
                max_iterations == color_map.cap(),
                paint == |count: u32| color_map.shade(count),
                img.width() == width,
                img.height() == height,
                px < width,
                py <= height,
                rendered_up_to(img, paint, max_iterations, &point, &step, &bounded, px, py),
            decreases height - py,
        {
            let start = point(px, py);
            let ghost origin = start;
            let iteration = escape_time(start, max_iterations, &step, &bounded);
            let color = color_map.color(iteration);
            assert(is_rendering_of(color, paint, max_iterations, &point, &step, &bounded, px, py))
                by {
                assert(escapes_after(&step, &bounded, origin, max_iterations, iteration));
            }
            let ghost before = img;
            put_pixel(&mut img, px, py, color);
            assert(rendered_up_to(
                img,
                paint,
                max_iterations,
                &point,
                &step,
                &bounded,
                px,
                (py + 1) as u32,
            )) by {
                assert forall|x: u32, y: u32|
                    x < width && y < height && (x < px || (x == px && y < py + 1))
                    implies is_rendering_of(
                    #[trigger] img.pixel(x, y),
                    paint,
                    max_iterations,
                    &point,
                    &step,
                    &bounded,
                    x,
                    y,
                ) by {
                    if x == px && y == py {
                    } else {
                        assert(img.pixel(x, y) == before.pixel(x, y));
                    }
                }
            }
            py += 1;
        }
        px += 1;
    }
    img
}

/// Checks the request, makes the colour map of `mode` for `max_iterations`
/// and renders the grid with it. A request that `config_error` refuses is
/// answered with that error, before any pixel is computed.
pub fn render_mandelbrot<S, P: Fn(u32, u32) -> S, T: Fn(S) -> S, B: Fn(&S) -> bool>(
    width: u32,
    height: u32,
    mode: ColorMode,
    max_iterations: u32,
    point: P,
    step: T,
    bounded: B,
) -> (rendered: Result<PixelGrid, ConfigError>)
    requires
        forall|px: u32, py: u32| px < width && py < height ==> call_requires(point, (px, py)),
        forall|z: S| call_requires(step, (z,)),
        forall|z: &S| call_requires(bounded, (z,)),
    ensures
        match config_error(width, height, mode, max_iterations) {
            Some(error) => rendered == Err::<PixelGrid, ConfigError>(error),
            None => {
                &&& rendered is Ok
                &&& rendered->Ok_0.width() == width
                &&& rendered->Ok_0.height() == height
                &&& forall|px: u32, py: u32|
                    px < width && py < height ==> is_rendering_of(
                        #[trigger] rendered->Ok_0.pixel(px, py),
                        |count: u32| shade_of(mode, count, max_iterations),
                        max_iterations,
                        &point,
                        &step,
                        &bounded,
                        px,
                        py,
                    )
            },
        },
{
    match check_config(width, height, mode, max_iterations) {
        Err(error) => {
            return Err(error);
        },
        Ok(()) => {},
    }
    let ghost paint = |count: u32| shade_of(mode, count, max_iterations);
    let image = match mode {
        ColorMode::Grayscale => {
            let map = GrayscaleMap::new(max_iterations);
            let image = generate_mandelbrot_set(width, height, &map, point, step, bounded);
            assert forall|px: u32, py: u32| px < width && py < height implies is_rendering_of(
                #[trigger] image.pixel(px, py),
                paint,
                max_iterations,
                &point,
                &step,
                &bounded,
                px,
                py,
            ) by {
                lemma_same_paint(
                    image.pixel(px, py),
                    |count: u32| map.shade(count),
                    paint,
                    max_iterations,
                    &point,
                    &step,
                    &bounded,
                    px,
                    py,
                );
            }
            image
        },
        ColorMode::Colored => {
            let map = ColoredColorMap::new(max_iterations);
            let image = generate_mandelbrot_set(width, height, &map, point, step, bounded);
            assert forall|px: u32, py: u32| px < width && py < height implies is_rendering_of(
                #[trigger] image.pixel(px, py),
                paint,
                max_iterations,
                &point,
                &step,
                &bounded,
                px,
                py,
            ) by {
                lemma_same_paint(
                    image.pixel(px, py),
                    |count: u32| map.shade(count),
                    paint,
                    max_iterations,
                    &point,
                    &step,
                    &bounded,
                    px,
                    py,
                );
            }
            image
        },
    };
    Ok(image)
}

/// A rendering under one paint is a rendering under any paint that gives
/// every count the same colour.
proof fn lemma_same_paint<S, P: Fn(u32, u32) -> S, T: Fn(S) -> S, B: Fn(&S) -> bool>(
    color: Color,
    paint: spec_fn(u32) -> Color,
    other: spec_fn(u32) -> Color,
    cap: u32,
    point: &P,
    step: &T,
    bounded: &B,
    px: u32,
    py: u32,
)
    requires
        is_rendering_of(color, paint, cap, point, step, bounded, px, py),
        forall|count: u32| #[trigger] paint(count) == other(count),
    ensures
        is_rendering_of(color, other, cap, point, step, bounded, px, py),
{
    let (start, count) = choose|start: S, count: u32|
        {
            &&& call_ensures(*point, (px, py), start)
            &&& #[trigger] escapes_after(step, bounded, start, cap, count)
            &&& color == paint(count)
        };
    assert(escapes_after(step, bounded, start, cap, count));
}

/// Where the three closures are functions, a rendered pixel has exactly the
/// colour that `paint` makes of the escape time of its orbit.
pub proof fn lemma_rendering_is_exact<S, P: Fn(u32, u32) -> S, T: Fn(S) -> S, B: Fn(&S) -> bool>(
    color: Color,
    paint: spec_fn(u32) -> Color,
    cap: u32,
    point: &P,
    step: &T,
    bounded: &B,
    origin: spec_fn(u32, u32) -> S,
    next: spec_fn(S) -> S,
    inside: spec_fn(S) -> bool,
    px: u32,
    py: u32,
)
    requires
        starts_at(point, origin),
        steps_by(step, next),
        bounds_by(bounded, inside),
        is_rendering_of(color, paint, cap, point, step, bounded, px, py),
    ensures
        escape_count(next, inside, origin(px, py), cap as nat) <= cap,
        color == paint(escape_count(next, inside, origin(px, py), cap as nat) as u32),
{
    let (start, count) = choose|start: S, count: u32|
        {
            &&& call_ensures(*point, (px, py), start)
            &&& #[trigger] escapes_after(step, bounded, start, cap, count)
            &&& color == paint(count)
        };
    lemma_escape_time_is_count(step, bounded, next, inside, start, cap, count);
}

/// Rendering is repeatable: where the three closures are functions, two
/// grids rendered from the same request agree in size, in every pixel, and
/// so in every byte of their rasters.
pub proof fn lemma_render_is_repeatable<S, P: Fn(u32, u32) -> S, T: Fn(S) -> S, B: Fn(&S) -> bool>(
    first: PixelGrid,
    second: PixelGrid,
    width: u32,
    height: u32,
    paint: spec_fn(u32) -> Color,
    cap: u32,
    point: &P,
    step: &T,
    bounded: &B,
    origin: spec_fn(u32, u32) -> S,
    next: spec_fn(S) -> S,
    inside: spec_fn(S) -> bool,
)
    requires
        starts_at(point, origin),
        steps_by(step, next),
        bounds_by(bounded, inside),
        first.width() == width && first.height() == height,
        second.width() == width && second.height() == height,
        forall|px: u32, py: u32|
            px < width && py < height ==> is_rendering_of(
                #[trigger] first.pixel(px, py),
                paint,
                cap,
                point,
                step,
                bounded,
                px,
                py,
            ),
        forall|px: u32, py: u32|
            px < width && py < height ==> is_rendering_of(
                #[trigger] second.pixel(px, py),
                paint,
                cap,
                point,
                step,
                bounded,
                px,
                py,
            ),
    ensures
        first.width() == second.width(),
        first.height() == second.height(),
        forall|px: u32, py: u32|
            px < width && py < height ==> first.pixel(px, py) == second.pixel(px, py),
        forall|a: Seq<u8>, b: Seq<u8>| is_raster_of(a, first) && is_raster_of(b, second) ==> a == b,
{
    assert forall|px: u32, py: u32| px < width && py < height implies first.pixel(px, py)
        == second.pixel(px, py) by {
        lemma_rendering_is_exact(
            first.pixel(px, py),
            paint,
            cap,
            point,
            step,
            bounded,
            origin,
            next,
            inside,
            px,
            py,
        );
        lemma_rendering_is_exact(
            second.pixel(px, py),
            paint,
            cap,
            point,
            step,
            bounded,
            origin,
            next,
            inside,
            px,
            py,
        );
    }
    assert forall|a: Seq<u8>, b: Seq<u8>| is_raster_of(a, first) && is_raster_of(b, second) implies a
        == b by {
        lemma_raster_is_unique(first, second, a, b);
    }
}

/// A rendered pixel whose orbit stays bounded up to the cap is black, in
/// either mode.
pub proof fn lemma_unescaped_pixel_is_black<S, P: Fn(u32, u32) -> S, T: Fn(S) -> S, B: Fn(&S) -> bool>(
    color: Color,
    mode: ColorMode,
    max_iterations: u32,
    point: &P,
    step: &T,
    bounded: &B,
    origin: spec_fn(u32, u32) -> S,
    next: spec_fn(S) -> S,
    inside: spec_fn(S) -> bool,
    px: u32,
    py: u32,
)
    requires
        starts_at(point, origin),
        steps_by(step, next),
        bounds_by(bounded, inside),
        is_rendering_of(
            color,
            |count: u32| shade_of(mode, count, max_iterations),
            max_iterations,
            point,
            step,
            bounded,
            px,
            py,
        ),
        escape_count(next, inside, origin(px, py), max_iterations as nat) == max_iterations,
    ensures
        color == Color::black(),
{
    lemma_rendering_is_exact(
        color,
        |count: u32| shade_of(mode, count, max_iterations),
        max_iterations,
        point,
        step,
        bounded,
        origin,
        next,
        inside,
        px,
        py,
    );
}

} // verus!
