//! Colour policies: discrete grayscale and clamped smooth channels.

use vstd::prelude::*;

verus! {

/// A colour without alpha, one byte per channel.
#[derive(Clone, Copy, Debug, PartialEq, Eq, Structural)]
pub struct Rgb {
    pub r: u8,
    pub g: u8,
    pub b: u8,
}

/// The colouring policy of a render.
#[derive(Clone, Copy, Debug, PartialEq, Eq, Structural)]
pub enum ColorMode {
    /// Gray level proportional to the iteration count.
    Discrete,
    /// Channel levels taken from the continuous colouring formula.
    Smooth,
}

/// What the iteration engine reports for one pixel.
///
/// `red`, `green` and `blue` are the rounded channel levels of the
/// continuous colouring formula, before they are clamped to a byte.  They
/// are read in `ColorMode::Smooth` only, and only for pixels that escaped.
#[derive(Clone, Copy, Debug, PartialEq, Eq, Structural)]
pub struct Sample {
    pub iterations: i32,
    pub red: i64,
    pub green: i64,
    pub blue: i64,
}

/// `v` limited to the range of a byte.
pub open spec fn clamp_byte(v: int) -> int {
    if v < 0 {
        0
    } else if v > 255 {
        255
    } else {
        v
    }
}

/// The gray level of `iterations` out of `max_iterations`: the proportion
/// scaled to 255 and clamped, and 0 where there is no iteration budget.
pub open spec fn gray_spec(iterations: int, max_iterations: int) -> int {
    if max_iterations <= 0 {
        0
    } else {
        clamp_byte(iterations * 255 / max_iterations)
    }
}

/// The colour of interior points.
pub open spec fn black() -> Rgb {
    Rgb { r: 0, g: 0, b: 0 }
}

/// The discrete colour of an iteration count: its gray level on all three
/// channels.
pub open spec fn discrete_spec(iterations: int, max_iterations: int) -> Rgb {
    let gray = gray_spec(iterations, max_iterations) as u8;
    Rgb { r: gray, g: gray, b: gray }
}

/// The smooth colour of a sample: its three channel levels, each clamped
/// to a byte.
pub open spec fn smooth_spec(sample: Sample) -> Rgb {
    Rgb {
        r: clamp_byte(sample.red as int) as u8,
        g: clamp_byte(sample.green as int) as u8,
        b: clamp_byte(sample.blue as int) as u8,
    }
}

/// The colour of a pixel.  A pixel that used up the whole iteration budget
/// is black under either policy; any other pixel is coloured by the policy.
pub open spec fn shade_spec(sample: Sample, max_iterations: int, mode: ColorMode) -> Rgb {
    if sample.iterations == max_iterations {
        black()
    } else {
        match mode {
            ColorMode::Discrete => discrete_spec(sample.iterations as int, max_iterations),
            ColorMode::Smooth => smooth_spec(sample),
        }
    }
}

/// Saturates a rounded channel level to a byte.
pub fn clamp_channel(level: i64) -> (byte: u8)
    ensures
        byte == clamp_byte(level as int),
{
    if level < 0 {
        0
    } else if level > 255 {
        255
    } else {
        level as u8
    }
}

/// Discrete grayscale level.  Never fails: counts outside
/// `0..=max_iterations` saturate, and a budget of zero gives 0.
pub fn gray_level(iterations: i32, max_iterations: i32) -> (gray: u8)
    ensures
        gray == gray_spec(iterations as int, max_iterations as int),
{
    if max_iterations <= 0 || iterations <= 0 {
        proof {
            if max_iterations > 0 {
                lemma_scaled_quotient_sign(iterations as int, max_iterations as int);
            }
        }
        return 0;
    }
    if iterations >= max_iterations {
        proof {
            lemma_scaled_quotient_sign(iterations as int, max_iterations as int);
        }
        return 255;
    }
    let scaled: u64 = iterations as u64 * 255;
    let level: u64 = scaled / (max_iterations as u64);
    proof {
        lemma_scaled_quotient_sign(iterations as int, max_iterations as int);
    }
    level as u8
}

/// Where `iterations * 255 / max_iterations` lies relative to the byte
/// range, by the position of `iterations` relative to the budget.
proof fn lemma_scaled_quotient_sign(iterations: int, max_iterations: int)
    by (nonlinear_arith)
    requires
        max_iterations > 0,
    ensures
        iterations <= 0 ==> iterations * 255 / max_iterations <= 0,
        iterations >= max_iterations ==> iterations * 255 / max_iterations >= 255,
        0 < iterations < max_iterations ==> 0 <= iterations * 255 / max_iterations < 255,
{
}

/// The discrete grayscale colour of an iteration count.
pub fn get_color_discrete(iterations: i32, max_iterations: i32) -> (color: Rgb)
    ensures
        color == discrete_spec(iterations as int, max_iterations as int),
{
    let gray: u8 = gray_level(iterations, max_iterations);
    Rgb { r: gray, g: gray, b: gray }
}

/// The smooth colour of a sample.  Levels outside the range of a byte
/// saturate; none is refused.
pub fn get_color_smooth(sample: &Sample) -> (color: Rgb)
    ensures
        color == smooth_spec(*sample),
{
    Rgb {
        r: clamp_channel(sample.red),
        g: clamp_channel(sample.green),
        b: clamp_channel(sample.blue),
    }
}

/// Colours one pixel from its iteration outcome.
pub fn shade(sample: &Sample, max_iterations: i32, mode: ColorMode) -> (color: Rgb)
    ensures
        color == shade_spec(*sample, max_iterations as int, mode),
        sample.iterations == max_iterations ==> color == black(),
{
    if sample.iterations == max_iterations {
        return Rgb { r: 0, g: 0, b: 0 };
    }
    match mode {
        ColorMode::Discrete => get_color_discrete(sample.iterations, max_iterations),
        ColorMode::Smooth => get_color_smooth(sample),
    }
}

/// A pixel that used up its iteration budget is black, whatever the
/// colouring policy and whatever else its sample holds.
pub proof fn lemma_interior_is_black(sample: Sample, max_iterations: int, mode: ColorMode)
    requires
        sample.iterations == max_iterations,
    ensures
        shade_spec(sample, max_iterations, mode) == black(),
{
}

/// Clamping adds no jump: two channel levels are never further apart after
/// clamping than before, and they keep their order.
pub proof fn lemma_clamp_keeps_levels_close(low: int, high: int)
    requires
        low <= high,
    ensures
        0 <= clamp_byte(high) - clamp_byte(low) <= high - low,
{
}

} // verus!
