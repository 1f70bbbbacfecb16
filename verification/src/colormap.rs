//! Colour maps: from the number of iterations a point took to escape to the
//! colour of its pixel.

use vstd::prelude::*;
use vstd::arithmetic::div_mod::{
    lemma_basic_div, lemma_div_by_self, lemma_div_is_ordered, lemma_fundamental_div_mod,
    lemma_mod_bound,
};
use crate::color::Color;
use crate::config::{ColorMode, ConfigError};
use crate::palette::{sample_turbo, turbo_colors};

verus! {

/// A rule that turns an iteration count into a colour, for a fixed cap on
/// the number of iterations.
pub trait ColorMap {
    /// The cap on the number of iterations that the map was made for.
    spec fn cap(&self) -> u32;

    /// The colour of a point whose orbit took `i` iterations.
    spec fn shade(&self, i: u32) -> Color;

    /// The colour of a point whose orbit took `i` iterations.
    fn color(&self, i: u32) -> (c: Color)
        ensures
            c == self.shade(i),
    ;

    /// The cap on the number of iterations that the map was made for.
    fn get_max_iterations(&self) -> (max_iterations: u32)
        ensures
            max_iterations == self.cap(),
    ;
}

/// The grey level of a point that took `i` of at most `max_iterations`
/// iterations: `255 * i / max_iterations`, rounded to the nearest integer
/// (a half rounds up) and limited to 255.
///
/// With `max_iterations == 0` every ratio is unbounded and the level is 255.
pub open spec fn gray_level(i: u32, max_iterations: u32) -> u8 {
    if max_iterations == 0 {
        255
    } else {
        let rounded = (510 * i + max_iterations) / (2 * max_iterations);
        if rounded > 255 {
            255
        } else {
            rounded as u8
        }
    }
}

/// The colour that the grayscale map gives to a count of `i`.
pub open spec fn grayscale_shade(i: u32, max_iterations: u32) -> Color {
    if i == max_iterations {
        Color::black()
    } else {
        Color::gray(gray_level(i, max_iterations))
    }
}

/// Maps iteration counts to shades of grey: the later a point escapes, the
/// lighter it is; a point that never escapes is black.
pub struct GrayscaleMap {
    max_iterations: u32,
}

impl GrayscaleMap {
    /// A grayscale map for orbits of at most `max_iterations` iterations.
    pub fn new(max_iterations: u32) -> (map: Self)
        ensures
            map.cap() == max_iterations,
    {
        Self { max_iterations }
    }
}

impl ColorMap for GrayscaleMap {
    closed spec fn cap(&self) -> u32 {
        self.max_iterations
    }

    open spec fn shade(&self, i: u32) -> Color {
        grayscale_shade(i, self.cap())
    }

    fn color(&self, i: u32) -> (c: Color) {
        if i == self.max_iterations {
            Color::new(0, 0, 0)
        } else if self.max_iterations == 0 {
            Color::new(255, 255, 255)
        } else {
            let doubled: u64 = 510 * (i as u64) + self.max_iterations as u64;
            let rounded: u64 = doubled / (2 * (self.max_iterations as u64));
            let intensity: u8 = if rounded > 255 {
                255
            } else {
                rounded as u8
            };
            Color::new(intensity, intensity, intensity)
        }
    }

    fn get_max_iterations(&self) -> (max_iterations: u32) {
        self.max_iterations
    }
}

/// The colour of a count of `i` on a gradient given by its samples: the
/// `i`-th sample for a count below the cap, and black from the cap on and
/// where the samples end.
pub open spec fn gradient_shade(gradient: Seq<Color>, i: u32, max_iterations: u32) -> Color {
    if i < max_iterations && i < gradient.len() {
        gradient[i as int]
    } else {
        Color::black()
    }
}

/// The samples that the gradient map for a cap of `max_iterations` holds: the
/// turbo gradient at `max_iterations` evenly spaced positions, so that count
/// `i` stands at `i / (max_iterations - 1)` of its length.
///
/// A cap of 0 or 1 leaves no position on the gradient, and there is no
/// sample.
pub open spec fn sampled_gradient(max_iterations: u32) -> Seq<Color> {
    if max_iterations <= 1 {
        Seq::empty()
    } else {
        turbo_colors(max_iterations as usize)
    }
}

/// The colour that the gradient map gives to a count of `i`.
pub open spec fn colored_shade(i: u32, max_iterations: u32) -> Color {
    gradient_shade(sampled_gradient(max_iterations), i, max_iterations)
}

/// Looks up the colour of a count of `i` on a gradient given by its samples.
pub fn shade_on_gradient(gradient: &Vec<Color>, i: u32, max_iterations: u32) -> (c: Color)
    ensures
        c == gradient_shade(gradient@, i, max_iterations),
{
    if i < max_iterations && (i as usize) < gradient.len() {
        gradient[i as usize]
    } else {
        Color::new(0, 0, 0)
    }
}

/// Maps iteration counts to the colours of the turbo gradient; a point that
/// never escapes is black.
pub struct ColoredColorMap {
    max_iterations: u32,
    gradient: Vec<Color>,
}

impl ColoredColorMap {
    #[verifier::type_invariant]
    spec fn well_formed(&self) -> bool {
        self.gradient@ == sampled_gradient(self.max_iterations)
    }

    /// A gradient map for orbits of at most `max_iterations` iterations. The
    /// gradient is sampled once, here.
    pub fn new(max_iterations: u32) -> (map: Self)
        ensures
            map.cap() == max_iterations,
    {
        let gradient = if max_iterations > 1 {
            sample_turbo(max_iterations as usize)
        } else {
            Vec::new()
        };
        Self { max_iterations, gradient }
    }
}

impl ColorMap for ColoredColorMap {
    closed spec fn cap(&self) -> u32 {
        self.max_iterations
    }

    open spec fn shade(&self, i: u32) -> Color {
        colored_shade(i, self.cap())
    }

    fn color(&self, i: u32) -> (c: Color) {
        proof {
            use_type_invariant(self);
        }
        shade_on_gradient(&self.gradient, i, self.max_iterations)
    }

    fn get_max_iterations(&self) -> (max_iterations: u32) {
        self.max_iterations
    }
}

/// The colour that the map of `mode` with a cap of `max_iterations` gives to
/// a count of `i`.
pub open spec fn shade_of(mode: ColorMode, i: u32, max_iterations: u32) -> Color {
    match mode {
        ColorMode::Grayscale => grayscale_shade(i, max_iterations),
        ColorMode::Colored => colored_shade(i, max_iterations),
    }
}

/// A grayscale map, for a cap of at least one iteration.
pub fn make_grayscale(max_iterations: u32) -> (made: Result<GrayscaleMap, ConfigError>)
    ensures
        max_iterations >= 1 ==> made is Ok && made->Ok_0.cap() == max_iterations,
        max_iterations < 1 ==> made == Err::<GrayscaleMap, ConfigError>(
            ConfigError::TooFewIterations,
        ),
{
    if max_iterations < 1 {
        Err(ConfigError::TooFewIterations)
    } else {
        Ok(GrayscaleMap::new(max_iterations))
    }
}

/// A gradient map, for a cap of at least two iterations.
pub fn make_colored(max_iterations: u32) -> (made: Result<ColoredColorMap, ConfigError>)
    ensures
        max_iterations > 1 ==> made is Ok && made->Ok_0.cap() == max_iterations,
        max_iterations <= 1 ==> made == Err::<ColoredColorMap, ConfigError>(
            ConfigError::TooFewIterations,
        ),
{
    if max_iterations <= 1 {
        Err(ConfigError::TooFewIterations)
    } else {
        Ok(ColoredColorMap::new(max_iterations))
    }
}

/// A point that reaches the cap without escaping is black, whatever the mode
/// and the cap.
pub proof fn lemma_unescaped_is_black(mode: ColorMode, max_iterations: u32)
    ensures
        shade_of(mode, max_iterations, max_iterations) == Color::black(),
{
}

/// Both maps paint a point that reaches their cap black.
pub proof fn lemma_maps_paint_unescaped_black(gray: GrayscaleMap, colored: ColoredColorMap)
    ensures
        gray.shade(gray.cap()) == Color::black(),
        colored.shade(colored.cap()) == Color::black(),
{
}

/// The gradient map gives no colour but black and the colours of the turbo
/// gradient sampled at as many positions as the cap says.
pub proof fn lemma_colored_shade_is_on_gradient(i: u32, max_iterations: u32)
    ensures
        colored_shade(i, max_iterations) == Color::black() || (1 < max_iterations && i
            < max_iterations && colored_shade(i, max_iterations) == turbo_colors(
            max_iterations as usize,
        )[i as int]),
{
}

/// Below the cap the grey level is the integer nearest to
/// `255 * i / max_iterations`: it lies at most one half above the ratio and
/// less than one half below it.
pub proof fn lemma_gray_level_is_nearest(i: u32, max_iterations: u32)
    requires
        i < max_iterations,
    ensures
        2 * gray_level(i, max_iterations) * max_iterations <= 2 * 255 * i + max_iterations,
        2 * 255 * i - max_iterations < 2 * gray_level(i, max_iterations) * max_iterations,
{
    let doubled = 510 * i + max_iterations;
    let divisor = 2 * max_iterations;
    let rounded = doubled / divisor;
    lemma_fundamental_div_mod(doubled, divisor);
    lemma_mod_bound(doubled, divisor);
    lemma_div_is_ordered(doubled, 255 * divisor + max_iterations, divisor);
    lemma_fundamental_div_mod(255 * divisor + max_iterations, divisor);
    lemma_mod_bound(255 * divisor + max_iterations, divisor);
    assert((255 * divisor + max_iterations) / divisor == 255) by (nonlinear_arith)
        requires
            divisor == 2 * max_iterations,
            max_iterations > 0,
            255 * divisor + max_iterations == divisor * ((255 * divisor + max_iterations) / divisor)
                + (255 * divisor + max_iterations) % divisor,
            0 <= (255 * divisor + max_iterations) % divisor < divisor,
    ;
    assert(0 <= rounded) by (nonlinear_arith)
        requires
            doubled >= 0,
            divisor > 0,
            doubled == divisor * rounded + doubled % divisor,
            doubled % divisor < divisor,
    ;
    assert(gray_level(i, max_iterations) == rounded);
    assert(2 * rounded * max_iterations == divisor * rounded) by (nonlinear_arith)
        requires
            divisor == 2 * max_iterations,
    ;
}

/// Below the cap the grayscale map gives the grey of level `gray_level`, and
/// the level does not fall when the count grows.
pub proof fn lemma_gray_level_monotonic(i: u32, j: u32, max_iterations: u32)
    requires
        i <= j < max_iterations,
    ensures
        grayscale_shade(i, max_iterations) == Color::gray(gray_level(i, max_iterations)),
        grayscale_shade(j, max_iterations) == Color::gray(gray_level(j, max_iterations)),
        gray_level(i, max_iterations) <= gray_level(j, max_iterations),
{
    lemma_div_is_ordered(510 * i + max_iterations, 510 * j + max_iterations, 2 * max_iterations);
}

/// With a cap above one, the first count is darker than the last count
/// before the cap.
pub proof fn lemma_gray_level_rises(max_iterations: u32)
    requires
        max_iterations > 1,
    ensures
        gray_level(0, max_iterations) == 0,
        gray_level(0, max_iterations) < gray_level((max_iterations - 1) as u32, max_iterations),
{
    let last = (max_iterations - 1) as u32;
    lemma_basic_div(max_iterations as int, 2 * max_iterations);
    lemma_div_by_self(2 * max_iterations);
    lemma_div_is_ordered(2 * max_iterations, 510 * last + max_iterations, 2 * max_iterations);
}

} // verus!
