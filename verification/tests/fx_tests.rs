use raytrace::fx::{div_floor_i64, fx_div, fx_mul, fx_sqrt, isqrt_u128, FX_ONE};

#[test]
fn one_is_65536() {
    assert_eq!(FX_ONE, 65536);
}

#[test]
fn mul_whole_numbers() {
    // 3.0 * 2.0 == 6.0
    assert_eq!(fx_mul(3 * 65536, 2 * 65536), 6 * 65536);
    // 0.5 * 0.5 == 0.25
    assert_eq!(fx_mul(32768, 32768), 16384);
}

#[test]
fn mul_rounds_toward_negative_infinity() {
    assert_eq!(fx_mul(1, 1), 0);
    assert_eq!(fx_mul(-1, 1), -1);
    assert_eq!(fx_mul(-3 * 65536, 2 * 65536), -6 * 65536);
}

#[test]
fn div_basic() {
    // 1.0 / 3.0 == 0.33333...
    assert_eq!(fx_div(65536, 3 * 65536), 21845);
    // (1.0 * 65536) / 3 exactly, floor
    assert_eq!(fx_div(65536, 3), 1431655765);
    assert_eq!(fx_div(-65536, 65536), -65536);
}

#[test]
fn sqrt_exact_squares() {
    // sqrt(4.0) == 2.0, sqrt(0.25) == 0.5
    assert_eq!(fx_sqrt(4 * 65536), 2 * 65536);
    assert_eq!(fx_sqrt(16384), 32768);
    assert_eq!(fx_sqrt(0), 0);
}

#[test]
fn sqrt_of_two() {
    // sqrt(2.0) == 1.41421... => 92681 in fixed point
    assert_eq!(fx_sqrt(2 * 65536), 92681);
}

#[test]
fn isqrt_bounds() {
    assert_eq!(isqrt_u128(0), 0);
    assert_eq!(isqrt_u128(15), 3);
    assert_eq!(isqrt_u128(16), 4);
    let r = isqrt_u128(1u128 << 80);
    assert_eq!(r, 1u128 << 40);
}

#[test]
fn floor_division_on_negatives() {
    assert_eq!(div_floor_i64(7, 2), 3);
    assert_eq!(div_floor_i64(-7, 2), -4);
    assert_eq!(div_floor_i64(-8, 2), -4);
}
