//! The turbo colour ramp of the `colorgrad` crate, sampled at equal steps.

use vstd::prelude::*;
use crate::color::Color;

verus! {

/// The `n` colours that the turbo gradient has at `n` positions spread evenly
/// over its domain, from its first colour to its last.
pub uninterp spec fn turbo_colors(n: usize) -> Seq<Color>;

/// `colorgrad::turbo` and `colorgrad::Gradient::colors`: samples the turbo
/// gradient at `n` evenly spaced positions, and `Color::to_rgba8` for the
/// 8-bit channels of each sample, of which the alpha channel is dropped.
/// The outside functions return one colour for each position.
#[verifier::external_body]
pub(crate) fn sample_turbo(n: usize) -> (colors: Vec<Color>)
    ensures
        colors@ == turbo_colors(n),
        colors@.len() == n,
{
    let samples = colorgrad::turbo().colors(n);
    samples.iter().map(|c| c.to_rgba8()).map(|p| Color { r: p[0], g: p[1], b: p[2] }).collect()
}

} // verus!
