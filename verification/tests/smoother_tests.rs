use robot_arm::fixed::{scale, UNIT};
use robot_arm::smoother::smooth;

#[test]
fn smooth_halves_the_gap() {
    assert_eq!(smooth(90_000, 160_000, 500_000), 125_000);
    assert_eq!(smooth(125_000, 160_000, 500_000), 142_500);
    assert_eq!(smooth(160_000, 90_000, 500_000), 125_000);
}

#[test]
fn smooth_exact_values_for_other_coefficients() {
    // A quarter of the way: the gap of 1000 shrinks to 750.
    assert_eq!(smooth(0, 1_000, 250_000), 250);
    assert_eq!(smooth(1_000, 0, 250_000), 750);
    // Coefficient one whole: the target is taken over at once.
    assert_eq!(smooth(12_345, 170_000, UNIT), 170_000);
    // The smallest coefficient still moves by one unit.
    assert_eq!(smooth(0, 10, 1), 1);
}

#[test]
fn smooth_rounds_toward_the_target() {
    // Half of a gap of one is rounded down to zero: the target is reached.
    assert_eq!(smooth(0, 1, 500_000), 1);
    assert_eq!(smooth(1, 0, 500_000), 0);
    // Gap 3, half of it is 1.5: the remaining gap is 1.
    assert_eq!(smooth(0, 3, 500_000), 2);
    assert_eq!(smooth(3, 0, 500_000), 1);
}

#[test]
fn smooth_holds_a_value_that_is_on_target() {
    assert_eq!(smooth(90_000, 90_000, 500_000), 90_000);
    assert_eq!(smooth(0, 0, 1), 0);
}

#[test]
fn smooth_converges_without_overshoot_from_below() {
    let target = 180_000;
    let mut value = 0;
    let mut ticks = 0;
    while value != target {
        let next = smooth(value, target, 500_000);
        assert!(next > value && next <= target);
        assert!(target - next <= (target - value) / 2);
        value = next;
        ticks += 1;
        assert!(ticks <= 18, "a gap of 180000 halves to nothing in 18 ticks");
    }
    assert_eq!(smooth(value, target, 500_000), target);
}

#[test]
fn smooth_converges_without_overshoot_from_above() {
    let target = 30_000;
    let mut value = 170_000;
    let mut ticks = 0;
    while value != target {
        let next = smooth(value, target, 100_000);
        assert!(next < value && next >= target);
        // The gap shrinks at least by the factor 0.9.
        assert!((next - target) as u64 * 10 <= (value - target) as u64 * 9);
        value = next;
        ticks += 1;
        assert!(ticks <= 140_000);
    }
    assert!(ticks < 200, "geometric convergence, took {}", ticks);
}

#[test]
fn smooth_works_on_the_whole_integer_range() {
    assert_eq!(smooth(0, u32::MAX, 500_000), u32::MAX - u32::MAX / 2);
    assert_eq!(smooth(u32::MAX, 0, 500_000), u32::MAX / 2);
}

#[test]
fn scale_takes_a_share_rounded_down() {
    assert_eq!(scale(1_000, 500_000), 500);
    assert_eq!(scale(3, 500_000), 1);
    assert_eq!(scale(70_000, 103_515), 7_246);
    assert_eq!(scale(u32::MAX, UNIT), u32::MAX);
    assert_eq!(scale(u32::MAX, 0), 0);
}
