use robot_arm::fixed::UNIT;
use robot_arm::shaping::{minimum_jerk, progress, Shaping};

#[test]
fn minimum_jerk_starts_at_zero_and_ends_at_one() {
    assert_eq!(minimum_jerk(0), 0);
    assert_eq!(minimum_jerk(UNIT), UNIT);
}

#[test]
fn minimum_jerk_passes_through_the_midpoint() {
    assert_eq!(minimum_jerk(UNIT / 2), UNIT / 2);
}

#[test]
fn minimum_jerk_exact_values() {
    // 10 t^3 - 15 t^4 + 6 t^5 at t = 1/4 is 0.103515625, at t = 3/4 it is 0.896484375.
    assert_eq!(minimum_jerk(250_000), 103_515);
    assert_eq!(minimum_jerk(750_000), 896_484);
    // At t = 1/10: 0.01 - 0.0015 + 0.00006 = 0.00856.
    assert_eq!(minimum_jerk(100_000), 8_560);
    // At t = 9/10: 7.29 - 9.8415 + 3.54294 = 0.99144.
    assert_eq!(minimum_jerk(900_000), 991_440);
}

#[test]
fn minimum_jerk_never_decreases() {
    let mut previous = 0;
    let mut t = 0;
    while t <= UNIT {
        let s = minimum_jerk(t);
        assert!(s >= previous, "decreased at {}", t);
        assert!(s <= UNIT);
        previous = s;
        t += 997;
    }
    // Neighbouring inputs as well, where rounding would show first.
    for t in 499_000..501_000 {
        assert!(minimum_jerk(t) <= minimum_jerk(t + 1));
    }
    for t in 0..2_000 {
        assert!(minimum_jerk(t) <= minimum_jerk(t + 1));
        assert!(minimum_jerk(UNIT - t - 1) <= minimum_jerk(UNIT - t));
    }
}

#[test]
fn minimum_jerk_is_symmetric_about_the_midpoint() {
    let mut t = 0;
    while t <= UNIT {
        let sum = minimum_jerk(t) + minimum_jerk(UNIT - t);
        assert!(sum == UNIT || sum == UNIT - 1, "sum {} at {}", sum, t);
        t += 1_234;
    }
}

#[test]
fn minimum_jerk_is_flat_at_both_ends() {
    // Zero velocity and acceleration: the first and last percent of the
    // progress move the output by about a hundred-thousandth.
    assert!(minimum_jerk(10_000) <= 10);
    assert!(minimum_jerk(UNIT - 10_000) >= UNIT - 10);
}

#[test]
fn linear_shaping_is_the_identity() {
    for t in [0, 1, 333_333, 500_000, 999_999, UNIT] {
        assert_eq!(Shaping::Linear.apply(t), t);
    }
}

#[test]
fn shaping_apply_dispatches() {
    assert_eq!(Shaping::MinimumJerk.apply(250_000), 103_515);
    assert_eq!(Shaping::MinimumJerk.apply(UNIT), UNIT);
}

#[test]
fn progress_runs_from_zero_to_one() {
    assert_eq!(progress(0, 300), 0);
    assert_eq!(progress(300, 300), UNIT);
    assert_eq!(progress(150, 300), 500_000);
    assert_eq!(progress(1, 3), 333_333);
    assert_eq!(progress(2, 3), 666_666);
    assert_eq!(progress(1, 1), UNIT);
    assert_eq!(progress(u32::MAX, u32::MAX), UNIT);
    assert_eq!(progress(1, u32::MAX), 0);
}
