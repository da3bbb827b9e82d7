//! The colour pipeline: brightness scaling followed by a gamma curve of
//! exponent two, both on 8-bit channel values with round-to-nearest division.

use vstd::prelude::*;

verus! {

/// Largest percentage accepted by the brightness setter.
pub const MAX_PERCENT: u8 = 100;

/// `round(v * b / 255)`, the channel value `v` dimmed by the brightness `b`.
pub open spec fn scale_spec(v: u8, b: u8) -> int {
    (v as int * b as int + 127) / 255
}

/// `round(x * x / 255)`, the gamma curve applied to an already dimmed value.
pub open spec fn gamma_spec(x: u8) -> int {
    (x as int * x as int + 127) / 255
}

/// The brightness on the 0..=255 scale that a percentage stands for;
/// percentages above one hundred count as one hundred.
pub open spec fn percent_to_brightness_spec(percent: u8) -> int {
    if percent >= 100 {
        255
    } else {
        percent as int * 255 / 100
    }
}

/// The byte stored for a raw channel value under a brightness: scaled, then
/// gamma corrected.
pub open spec fn corrected_spec(v: u8, b: u8) -> int {
    gamma_spec(scale_spec(v, b) as u8)
}

/// Dims `v` by the brightness `b`.
pub fn scale(v: u8, b: u8) -> (out: u8)
    ensures
        out as int == scale_spec(v, b),
        out <= v,
        out <= b,
{
    proof {
        lemma_scale_bounds(v, b);
    }
    let wide: u16 = v as u16 * b as u16 + 127;
    (wide / 255) as u8
}

/// Applies the gamma curve to `x`.
pub fn gamma2(x: u8) -> (out: u8)
    ensures
        out as int == gamma_spec(x),
        out <= x,
{
    proof {
        lemma_scale_bounds(x, x);
    }
    let wide: u16 = x as u16 * x as u16 + 127;
    (wide / 255) as u8
}

/// The brightness on the 0..=255 scale for a percentage; a percentage above
/// one hundred counts as one hundred.
pub fn percent_to_brightness(percent: u8) -> (out: u8)
    ensures
        out as int == percent_to_brightness_spec(percent),
{
    let p: u8 = if percent > MAX_PERCENT { MAX_PERCENT } else { percent };
    let wide: u16 = p as u16 * 255 / 100;
    wide as u8
}

/// The byte stored for the raw channel value `v` under the brightness `b`:
/// `v` is scaled first and gamma corrected second.
pub fn corrected(v: u8, b: u8) -> (out: u8)
    ensures
        out as int == corrected_spec(v, b),
        out <= v,
{
    gamma2(scale(v, b))
}

/// The byte stored for a channel is never brighter than the raw value.
pub proof fn lemma_corrected_bounds(v: u8, b: u8)
    ensures
        0 <= corrected_spec(v, b) <= v,
{
    lemma_scale_bounds(v, b);
    let scaled = scale_spec(v, b) as u8;
    lemma_scale_bounds(scaled, scaled);
}

/// Full brightness leaves a value as it is, a dark channel stays dark under
/// every brightness, and the gamma curve fixes both ends of the range.
pub proof fn lemma_rounding(v: u8, b: u8)
    ensures
        scale_spec(v, 255) == v,
        scale_spec(0, b) == 0,
        scale_spec(255, 255) == 255,
        gamma_spec(255) == 255,
        gamma_spec(0) == 0,
        corrected_spec(255, 255) == 255,
        corrected_spec(0, b) == 0,
{
    assert(v as int * 255 == 255 * v as int) by (nonlinear_arith);
    assert(0 * b as int == 0) by (nonlinear_arith);
}

/// Both transforms are monotone: a larger input never gives a smaller
/// output.
pub proof fn lemma_monotone(v: u8, w: u8, b: u8)
    requires
        v <= w,
    ensures
        scale_spec(v, b) <= scale_spec(w, b),
        gamma_spec(v) <= gamma_spec(w),
{
    assert(v as int * b as int <= w as int * b as int) by (nonlinear_arith)
        requires
            v <= w,
            0 <= b,
    ;
    assert(v as int * v as int <= w as int * w as int) by (nonlinear_arith)
        requires
            0 <= v <= w,
    ;
}

/// The percentages zero and one hundred stand for the two ends of the
/// brightness scale, and a larger percentage is never darker.
pub proof fn lemma_percent(p: u8, q: u8)
    ensures
        percent_to_brightness_spec(0) == 0,
        percent_to_brightness_spec(100) == 255,
        0 <= percent_to_brightness_spec(p) <= 255,
        p <= q ==> percent_to_brightness_spec(p) <= percent_to_brightness_spec(q),
{
}

/// A scaled value never exceeds either factor, and the product it is
/// computed from fits in sixteen bits.
pub proof fn lemma_scale_bounds(v: u8, b: u8)
    ensures
        0 <= v as int * b as int <= 255 * 255,
        0 <= scale_spec(v, b) <= v,
        scale_spec(v, b) <= b,
{
    let p: int = v as int * b as int;
    assert(0 <= p <= 255 * 255) by (nonlinear_arith)
        requires
            p == v as int * b as int,
            0 <= v <= 255,
            0 <= b <= 255,
    ;
    assert(p <= 255 * v as int) by (nonlinear_arith)
        requires
            p == v as int * b as int,
            0 <= v,
            0 <= b <= 255,
    ;
    assert(p <= 255 * b as int) by (nonlinear_arith)
        requires
            p == v as int * b as int,
            0 <= b,
            0 <= v <= 255,
    ;
}

} // verus!
