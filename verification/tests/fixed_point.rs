//! Exactness tests for the fixed-point scalar layer.

use rust_ray_tracer::fx::{fmul, fdiv, fdivc, fsqrt, fclamp, fmin, fmax, fabs, SCALE, T_HUGE};
use rust_ray_tracer::color::map_color_value;

#[test]
fn fmul_is_exact_product() {
    // 1.5 * 0.5 == 0.75
    assert_eq!(fmul(98304, 32768), 49152);
    // rounding is toward zero for negative products
    assert_eq!(fmul(-98304, 32768), -49152);
    assert_eq!(fmul(0, 123456), 0);
    assert_eq!(fmul(SCALE, 424242), 424242);
}

#[test]
fn fdiv_is_exact_quotient() {
    // 1 / 2 == 0.5
    assert_eq!(fdiv(65536, 131072), 32768);
    assert_eq!(fdiv(-65536, 131072), -32768);
    // 1 / 1.5 == 2/3, truncated
    assert_eq!(fdiv(65536, 98304), 43690);
}

#[test]
fn fdivc_saturates_at_huge() {
    assert_eq!(fdivc(1152921504606846976, 1), T_HUGE);
    assert_eq!(fdivc(-1152921504606846976, 1), -T_HUGE);
    // within range it agrees with fdiv
    assert_eq!(fdivc(65536, 131072), 32768);
}

#[test]
fn fsqrt_exact_values() {
    assert_eq!(fsqrt(0), 0);
    assert_eq!(fsqrt(SCALE), SCALE);
    // sqrt(0.25) == 0.5
    assert_eq!(fsqrt(16384), 32768);
    // sqrt(2), rounded down
    assert_eq!(fsqrt(131072), 92681);
}

#[test]
fn fsqrt_is_floor_square_root() {
    for x in [1i64, 2, 3, 7, 65535, 65537, 99999, 12345678] {
        let r = fsqrt(x) as i128;
        let n = (x as i128) * (SCALE as i128);
        assert!(r * r <= n);
        assert!(n < (r + 1) * (r + 1));
    }
}

#[test]
fn clamp_min_max_abs() {
    assert_eq!(fclamp(100, 0, 50), 50);
    assert_eq!(fclamp(-100, 0, 50), 0);
    assert_eq!(fclamp(25, 0, 50), 25);
    assert_eq!(fmin(3, -4), -4);
    assert_eq!(fmax(3, -4), 3);
    assert_eq!(fabs(-7), 7);
    assert_eq!(fabs(7), 7);
}

#[test]
fn map_color_value_applies_gamma_and_quantizes() {
    // four samples of full white average to one, gamma leaves one, the
    // 0.999 clamp gives byte 255
    assert_eq!(map_color_value(4 * SCALE, 4), 255);
    // a quarter-intensity channel comes out as sqrt(0.25) = 0.5 -> 128
    assert_eq!(map_color_value(16384, 1), 128);
    assert_eq!(map_color_value(0, 5), 0);
    // background red channel: 0.75 -> sqrt -> 0.866 -> byte 221
    assert_eq!(map_color_value(49152, 1), 221);
}
