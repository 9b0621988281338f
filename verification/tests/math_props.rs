//! Unit tests for the fixed-point math helpers.

use solar_raster::math::atan2_turn;
use solar_raster::math::clamp_i64;
use solar_raster::math::cos_turn;
use solar_raster::math::div_ceil_up;
use solar_raster::math::div_floor;
use solar_raster::math::div_round;
use solar_raster::math::div_trunc;
use solar_raster::math::isqrt;
use solar_raster::math::mod_turn;
use solar_raster::math::sin_turn;
use solar_raster::math::FULL_TURN;
use solar_raster::math::HALF_TURN;
use solar_raster::math::QUARTER_TURN;

#[test]
fn isqrt_exact_squares() {
    assert_eq!(isqrt(0), 0);
    assert_eq!(isqrt(1), 1);
    assert_eq!(isqrt(4), 2);
    assert_eq!(isqrt(1_000_000), 1000);
    assert_eq!(isqrt(144_400_000_000), 380_000);
}

#[test]
fn isqrt_rounds_down() {
    assert_eq!(isqrt(2), 1);
    assert_eq!(isqrt(3), 1);
    assert_eq!(isqrt(999_999), 999);
    assert_eq!(isqrt(u64::MAX), 4_294_967_295);
}

#[test]
fn sine_anchor_values() {
    assert_eq!(sin_turn(0), 0);
    assert_eq!(sin_turn(QUARTER_TURN), 1000);
    assert_eq!(sin_turn(HALF_TURN), 0);
    assert_eq!(sin_turn(HALF_TURN + QUARTER_TURN), -1000);
    assert_eq!(cos_turn(0), 1000);
    assert_eq!(cos_turn(QUARTER_TURN), 0);
    assert_eq!(cos_turn(HALF_TURN), -1000);
}

#[test]
fn sine_is_periodic_in_a_full_turn() {
    for a in [-130_000i64, -1, 0, 1, 12_345, 20_000, 65_535] {
        assert_eq!(sin_turn(a + FULL_TURN), sin_turn(a));
        assert_eq!(sin_turn(a - FULL_TURN), sin_turn(a));
    }
}

#[test]
fn sine_stays_in_range() {
    let mut a: i64 = -70_000;
    while a <= 70_000 {
        let s = sin_turn(a);
        assert!(-1000 <= s && s <= 1000);
        a += 777;
    }
}

#[test]
fn atan2_axes() {
    assert_eq!(atan2_turn(0, 0), 0);
    assert_eq!(atan2_turn(0, 5000), 0);
    assert_eq!(atan2_turn(5000, 0), 16384);
    assert_eq!(atan2_turn(0, -5000), 32768);
    assert_eq!(atan2_turn(-5000, 0), 49152);
    assert_eq!(atan2_turn(7000, 7000), 8192);
}

#[test]
fn atan2_range() {
    for dy in [-9000i64, -10, 0, 3, 8000] {
        for dx in [-7000i64, -2, 0, 5, 9000] {
            let a = atan2_turn(dy, dx);
            assert!(0 <= a && a < 65536);
        }
    }
}

#[test]
fn division_helpers_round_as_stated() {
    assert_eq!(div_trunc(7, 2), 3);
    assert_eq!(div_trunc(-7, 2), -3);
    assert_eq!(div_floor(7, 2), 3);
    assert_eq!(div_floor(-7, 2), -4);
    assert_eq!(div_floor(-8, 2), -4);
    assert_eq!(div_ceil_up(7, 2), 4);
    assert_eq!(div_ceil_up(-7, 2), -3);
    assert_eq!(div_round(1499, 1000), 1);
    assert_eq!(div_round(1500, 1000), 2);
    assert_eq!(div_round(-1500, 1000), -2);
    assert_eq!(div_round(-1499, 1000), -1);
}

#[test]
fn mod_turn_wraps_into_range() {
    assert_eq!(mod_turn(0), 0);
    assert_eq!(mod_turn(65536), 0);
    assert_eq!(mod_turn(65537), 1);
    assert_eq!(mod_turn(-1), 65535);
    assert_eq!(mod_turn(-65536), 0);
}

#[test]
fn clamp_saturates() {
    assert_eq!(clamp_i64(5, 0, 10), 5);
    assert_eq!(clamp_i64(-5, 0, 10), 0);
    assert_eq!(clamp_i64(50, 0, 10), 10);
}
