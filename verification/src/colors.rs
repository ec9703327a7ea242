//! The output stage of the color pipeline: gamma correction, clamping
//! into the displayable range, and the byte conversion an image encoder
//! consumes.

use vstd::prelude::*;
use crate::fx::{
    FX_ONE, fx_sqrt, fx_sqrt_spec, sqrt_floor, is_sqrt_floor, lemma_sqrt_floor_exists,
    lemma_sqrt_floor_monotonic, lemma_sqrt_floor_unique,
};
use crate::interval::clamp_spec;
use crate::vec3::Color;

verus! {

/// The top of the displayable channel range: just under one, so that
/// scaling by 256 stays below the next byte.
pub const INTENSITY_MAX: i64 = 65470;

/// Gamma-2 correction: the square root of a positive channel, zero for
/// the rest.
pub open spec fn gamma_spec(x: int) -> int {
    if x > 0 {
        fx_sqrt_spec(x)
    } else {
        0
    }
}

/// A channel after the whole output stage: gamma correction, then a
/// clamp into `[0, INTENSITY_MAX]`.
pub open spec fn finalize_channel_spec(x: int) -> int {
    clamp_spec(0, INTENSITY_MAX as int, gamma_spec(x))
}

/// Gamma-2 correction of one linear channel.
pub fn linear_to_gamma(linear_component: i64) -> (r: i64)
    ensures
        r == gamma_spec(linear_component as int),
        0 <= r < 0x100_0000_0000,
{
    if linear_component > 0 {
        fx_sqrt(linear_component)
    } else {
        0
    }
}

/// One linear channel through the whole output stage.
pub fn finalize_channel(x: i64) -> (r: i64)
    ensures
        r == finalize_channel_spec(x as int),
        0 <= r <= INTENSITY_MAX,
{
    let g = linear_to_gamma(x);
    if g > INTENSITY_MAX {
        INTENSITY_MAX
    } else {
        g
    }
}

/// The byte value of a finalized channel: scaled by 256 and truncated.
pub fn channel_to_byte(c: i64) -> (r: u8)
    requires
        0 <= c <= INTENSITY_MAX,
    ensures
        r as int == (256 * c) / 65536,
{
    ((256 * (c as u64)) / 65536) as u8
}

/// The three bytes an image encoder writes for a finalized color.
pub fn color_to_bytes(pixel_color: Color) -> (r: (u8, u8, u8))
    requires
        0 <= pixel_color.x <= INTENSITY_MAX,
        0 <= pixel_color.y <= INTENSITY_MAX,
        0 <= pixel_color.z <= INTENSITY_MAX,
    ensures
        r.0 as int == (256 * pixel_color.x) / 65536,
        r.1 as int == (256 * pixel_color.y) / 65536,
        r.2 as int == (256 * pixel_color.z) / 65536,
{
    (channel_to_byte(pixel_color.x), channel_to_byte(pixel_color.y), channel_to_byte(pixel_color.z))
}

/// The output stage is monotonic: a channel no brighter than another
/// stays no brighter through gamma correction and clamping.
pub proof fn lemma_finalize_monotonic(a: int, b: int)
    requires
        a <= b,
    ensures
        finalize_channel_spec(a) <= finalize_channel_spec(b),
{
    if a > 0 {
        lemma_sqrt_floor_exists(a * FX_ONE);
        lemma_sqrt_floor_exists(b * FX_ONE);
        lemma_sqrt_floor_monotonic(a * FX_ONE, b * FX_ONE);
    } else if b > 0 {
        lemma_sqrt_floor_exists(b * FX_ONE);
    }
}

/// The ends of the output stage: a full channel maps to the top of the
/// displayable range, and an empty or negative channel to the bottom.
pub proof fn lemma_finalize_endpoints(x: int)
    ensures
        finalize_channel_spec(FX_ONE as int) == INTENSITY_MAX,
        x <= 0 ==> finalize_channel_spec(x) == 0,
{
    assert(is_sqrt_floor(65536int * 65536, 65536int)) by (nonlinear_arith);
    lemma_sqrt_floor_unique(65536int * 65536, 65536int);
}

} // verus!
