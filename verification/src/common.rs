//! Random-number helpers shared by sampling code.
//!
//! All randomness enters the library through `random_u64`; everything
//! derived from it is verified for every value the source could hand back.

use vstd::prelude::*;
use crate::fx::FX_ONE;

verus! {

/// Relies on rand::random: a fresh draw from the thread-local generator.
/// Nothing is promised of the value; callers state what holds of every
/// outcome.
#[verifier::external_body]
fn random_u64() -> u64 {
    rand::random::<u64>()
}

/// A random fixed-point fraction in `[0, 1)`.
pub fn random_double() -> (r: i64)
    ensures
        0 <= r < FX_ONE,
{
    (random_u64() % 65536) as i64
}

/// A random fixed-point scalar in `[min, max)` (or exactly `min` when the
/// range is empty).
pub fn random_double_range(min: i64, max: i64) -> (r: i64)
    requires
        min <= max,
        -0x4000_0000_0000 <= min,
        max <= 0x4000_0000_0000,
    ensures
        min <= r <= max,
        min < max ==> r < max,
{
    let u = random_double();
    proof {
        crate::fx::lemma_mul_abs_bound((max - min) as int, u as int, 0x8000_0000_0000, 65536);
    }
    let step = crate::fx::fx_mul(max - min, u);
    proof {
        vstd::arithmetic::mul::lemma_mul_nonnegative((max - min) as int, u as int);
        vstd::arithmetic::div_mod::lemma_div_pos_is_pos((max - min) * u, 65536);
        crate::fx::lemma_div_abs_bound((max - min) * u, 0x8000_0000_0000_0000, 65536);
        if min < max {
            assert((max - min) * u <= (max - min) * 65536 - (max - min)) by (nonlinear_arith)
                requires
                    0 <= u < 65536,
                    0 < max - min,
            ;
            vstd::arithmetic::div_mod::lemma_div_is_ordered(
                (max - min) * u,
                (max - min) * 65536 - (max - min),
                65536,
            );
            assert(((max - min) * 65536 - (max - min)) / 65536 < max - min) by (nonlinear_arith)
                requires
                    0 < max - min <= 0x8000_0000_0000,
            ;
        } else {
            assert((max - min) * u == 0) by (nonlinear_arith)
                requires
                    max - min == 0,
            ;
        }
    }
    min + step
}

} // verus!
