//! What a render request may ask for, and how a request that asks for
//! something else is refused.

use vstd::prelude::*;
use crate::canvas::fits_in_memory;

verus! {

/// The two ways of colouring the Mandelbrot set.
#[derive(Clone, Copy, Debug, PartialEq, Eq, Structural)]
pub enum ColorMode {
    /// Shades of grey, lighter the later a point escapes.
    Grayscale,
    /// The colours of the turbo gradient.
    Colored,
}

impl ColorMode {
    /// The smallest cap on the number of iterations that the mode can work
    /// with: the gradient divides by the cap less one.
    pub open spec fn min_iterations(self) -> u32 {
        match self {
            ColorMode::Grayscale => 1,
            ColorMode::Colored => 2,
        }
    }

    /// The mode that a menu choice stands for: `c` for the gradient, `gs` for
    /// grayscale, and nothing for any other text.
    pub open spec fn of_choice(choice: Seq<char>) -> Option<ColorMode> {
        if choice == seq!['c'] {
            Some(ColorMode::Colored)
        } else if choice == seq!['g', 's'] {
            Some(ColorMode::Grayscale)
        } else {
            None
        }
    }

    /// Reads a menu choice: `c` for the gradient, `gs` for grayscale.
    pub fn from_choice(choice: &str) -> (mode: Option<ColorMode>)
        ensures
            mode == ColorMode::of_choice(choice@),
    {
        let len = choice.unicode_len();
        if len == 1 && choice.get_char(0) == 'c' {
            assert(choice@ =~= seq!['c']);
            Some(ColorMode::Colored)
        } else if len == 2 && choice.get_char(0) == 'g' && choice.get_char(1) == 's' {
            assert(choice@ =~= seq!['g', 's']);
            Some(ColorMode::Grayscale)
        } else {
            assert(seq!['c'].len() == 1 && seq!['c'][0] == 'c');
            assert(seq!['g', 's'].len() == 2 && seq!['g', 's'][0] == 'g' && seq!['g', 's'][1] == 's');
            None
        }
    }
}

/// Why a render request is refused.
#[derive(Clone, Copy, Debug, PartialEq, Eq, Structural)]
pub enum ConfigError {
    /// The viewport does not end right of or below where it begins.
    UnorderedViewport,
    /// The width or the height is zero.
    EmptyGrid,
    /// The cap on the number of iterations is below what the mode needs.
    TooFewIterations,
    /// The channels of the grid, three per pixel, are more than a buffer holds.
    GridTooLarge,
}

impl ConfigError {
    /// A sentence that says what was wrong with the request.
    pub fn message(&self) -> (text: &'static str)
        ensures
            text@ == match *self {
                ConfigError::UnorderedViewport => "the viewport needs xmin < xmax and ymin < ymax"@,
                ConfigError::EmptyGrid => "width and height must be positive"@,
                ConfigError::TooFewIterations => "the iteration cap is too small for the color mode"@,
                ConfigError::GridTooLarge => "the image does not fit in memory"@,
            },
    {
        match self {
            ConfigError::UnorderedViewport => "the viewport needs xmin < xmax and ymin < ymax",
            ConfigError::EmptyGrid => "width and height must be positive",
            ConfigError::TooFewIterations => "the iteration cap is too small for the color mode",
            ConfigError::GridTooLarge => "the image does not fit in memory",
        }
    }
}

/// Whether a viewport `(xmin, xmax, ymin, ymax)` can be well ordered by what
/// `less` says: `xmin` below `xmax`, and `ymin` below `ymax`.
pub open spec fn is_ordered<T, L: Fn(&T, &T) -> bool>(viewport: &(T, T, T, T), less: &L) -> bool {
    &&& call_ensures(*less, (&viewport.0, &viewport.1), true)
    &&& call_ensures(*less, (&viewport.2, &viewport.3), true)
}

/// Whether a viewport can fail to be well ordered by what `less` says: on
/// the horizontal axis, or on the vertical axis after the horizontal one was
/// in order.
pub open spec fn is_unordered<T, L: Fn(&T, &T) -> bool>(viewport: &(T, T, T, T), less: &L) -> bool {
    ||| call_ensures(*less, (&viewport.0, &viewport.1), false)
    ||| {
        &&& call_ensures(*less, (&viewport.0, &viewport.1), true)
        &&& call_ensures(*less, (&viewport.2, &viewport.3), false)
    }
}

/// Checks that a viewport `(xmin, xmax, ymin, ymax)` is well ordered, with
/// `less` to compare two bounds.
pub fn check_viewport<T, L: Fn(&T, &T) -> bool>(viewport: &(T, T, T, T), less: L) -> (checked:
    Result<(), ConfigError>)
    requires
        forall|a: &T, b: &T| call_requires(less, (a, b)),
    ensures
        match checked {
            Ok(()) => is_ordered(viewport, &less),
            Err(error) => error == ConfigError::UnorderedViewport && is_unordered(viewport, &less),
        },
{
    if less(&viewport.0, &viewport.1) && less(&viewport.2, &viewport.3) {
        Ok(())
    } else {
        Err(ConfigError::UnorderedViewport)
    }
}

/// The reason to refuse a request, if there is one: an empty grid first, then
/// a cap that is too small, then a grid that is too large.
pub open spec fn config_error(
    width: u32,
    height: u32,
    mode: ColorMode,
    max_iterations: u32,
) -> Option<ConfigError> {
    if width == 0 || height == 0 {
        Some(ConfigError::EmptyGrid)
    } else if max_iterations < mode.min_iterations() {
        Some(ConfigError::TooFewIterations)
    } else if !fits_in_memory(width, height) {
        Some(ConfigError::GridTooLarge)
    } else {
        None
    }
}

/// Checks a request before any pixel is computed.
pub fn check_config(width: u32, height: u32, mode: ColorMode, max_iterations: u32) -> (checked:
    Result<(), ConfigError>)
    ensures
        checked == match config_error(width, height, mode, max_iterations) {
            Some(error) => Err(error),
            None => Ok(()),
        },
{
    if width == 0 || height == 0 {
        return Err(ConfigError::EmptyGrid);
    }
    let least: u32 = match mode {
        ColorMode::Grayscale => 1,
        ColorMode::Colored => 2,
    };
    if max_iterations < least {
        return Err(ConfigError::TooFewIterations);
    }
    assert(width * height <= 0xffff_ffff * 0xffff_ffff && 3 * width * height == 3 * (width
        * height) && 3 * width <= 3 * width * height) by (nonlinear_arith)
        requires
            height >= 1,
    ;
    let pixels: u128 = (width as u128) * (height as u128);
    if 3 * pixels > isize::MAX as u128 {
        return Err(ConfigError::GridTooLarge);
    }
    Ok(())
}

} // verus!
