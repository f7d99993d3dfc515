//! Velocity calculator behavior on concrete attack windows.

use analog_midi::{velocity_calc, Sample};

fn window(points: &[(u32, u64)]) -> Vec<Sample> {
    points.iter().map(|&(value, time)| Sample { value, time }).collect()
}

#[test]
fn full_window_slope_maps_through_k() {
    // 0.0 -> 0.55 over 6 ms at k = 1270: round(550 * 1270 / 6000) = 116.
    let w = window(&[(0, 0), (150, 2), (550, 6)]);
    assert_eq!(velocity_calc(&w, 1270), 116);
}

#[test]
fn two_point_window_is_valid() {
    // 0.0 -> 0.30 over 3 ms at k = 1270: round(300 * 1270 / 3000) = 127.
    let w = window(&[(0, 0), (300, 3)]);
    assert_eq!(velocity_calc(&w, 1270), 127);
}

#[test]
fn zero_elapsed_time_yields_maximum() {
    let w = window(&[(0, 5), (900, 5)]);
    assert_eq!(velocity_calc(&w, 1270), 127);
}

#[test]
fn slow_press_yields_low_velocity() {
    // Full range over 200 ms: round(1000 * 1270 / 200000) = 6.
    let w = window(&[(0, 0), (1000, 200)]);
    assert_eq!(velocity_calc(&w, 1270), 6);
}

#[test]
fn flat_window_clamps_to_one() {
    let w = window(&[(400, 0), (400, 10)]);
    assert_eq!(velocity_calc(&w, 1270), 1);
}

#[test]
fn falling_window_clamps_to_one() {
    let w = window(&[(400, 0), (100, 10)]);
    assert_eq!(velocity_calc(&w, 1270), 1);
}

#[test]
fn fast_press_clamps_to_top() {
    // Full range in 1 ms: round(1000 * 1270 / 1000) = 1270, clamped to 127.
    let w = window(&[(0, 0), (1000, 1)]);
    assert_eq!(velocity_calc(&w, 1270), 127);
}

#[test]
fn zero_calibration_clamps_to_one() {
    let w = window(&[(0, 0), (1000, 10)]);
    assert_eq!(velocity_calc(&w, 0), 1);
}

#[test]
fn velocity_always_in_midi_range() {
    for dv in [1u32, 3, 50, 499, 1000, 1200] {
        for dt in [1u64, 2, 7, 100, 10_000] {
            let w = window(&[(0, 0), (dv, dt)]);
            let v = velocity_calc(&w, 1270);
            assert!((1..=127).contains(&v));
        }
    }
}
