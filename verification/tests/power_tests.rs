use robot_arm::arm::Mode;
use robot_arm::fixed::UNIT;
use robot_arm::phase::{MotionPhase, PhaseError};
use robot_arm::power::{power_law_floor, Exponent, MAX_ROOT};
use robot_arm::shaping::Shaping;

fn exponent(num: u8, den: u8) -> Exponent {
    Exponent::new(num, den).unwrap()
}

#[test]
fn exponents_lie_strictly_between_zero_and_one() {
    assert_eq!(Exponent::new(1, 2), Some(Exponent { num: 1, den: 2 }));
    assert_eq!(Exponent::new(5, 6), Some(Exponent { num: 5, den: 6 }));
    assert_eq!(Exponent::new(0, 2), None);
    assert_eq!(Exponent::new(2, 2), None);
    assert_eq!(Exponent::new(3, 2), None);
    assert_eq!(Exponent::new(1, MAX_ROOT + 1), None);
    assert_eq!(Exponent::new(0, 0), None);
}

#[test]
fn square_root_exact_values() {
    let half = exponent(1, 2);
    assert_eq!(power_law_floor(0, half), 0);
    assert_eq!(power_law_floor(UNIT, half), UNIT);
    assert_eq!(power_law_floor(250_000, half), 500_000);
    assert_eq!(power_law_floor(10_000, half), 100_000);
    assert_eq!(power_law_floor(1, half), 1_000);
    // The square root of one half is 0.70710678...
    assert_eq!(power_law_floor(500_000, half), 707_106);
    // Just below a perfect square the root is rounded down.
    assert_eq!(power_law_floor(249_999, half), 499_998);
}

#[test]
fn other_roots_exact_values() {
    assert_eq!(power_law_floor(125_000, exponent(1, 3)), 500_000);
    assert_eq!(power_law_floor(1_000, exponent(1, 3)), 100_000);
    assert_eq!(power_law_floor(125_000, exponent(2, 3)), 250_000);
    assert_eq!(power_law_floor(15_625, exponent(5, 6)), 31_250);
    assert_eq!(power_law_floor(15_625, exponent(1, 6)), 500_000);
    assert_eq!(power_law_floor(62_500, exponent(3, 4)), 125_000);
    // Three tenths to the power two fifths is 0.61780...
    assert_eq!(power_law_floor(300_000, exponent(2, 5)), 617_800);
}

#[test]
fn power_law_never_decreases_and_stays_ahead_of_linear() {
    for (num, den) in [(1u8, 2u8), (2, 3), (1, 6), (5, 6), (3, 5)] {
        let p = exponent(num, den);
        let mut previous = 0;
        let mut t = 0;
        while t <= UNIT {
            let s = power_law_floor(t, p);
            assert!(s >= previous);
            assert!(s >= t && s <= UNIT);
            previous = s;
            t += 9_973;
        }
        assert_eq!(power_law_floor(0, p), 0);
        assert_eq!(power_law_floor(UNIT, p), UNIT);
    }
}

#[test]
fn ease_in_starts_fast() {
    let ease = Shaping::EaseIn(exponent(1, 2));
    assert_eq!(ease.apply(0), 0);
    assert_eq!(ease.apply(10_000), 100_000);
    assert_eq!(ease.apply(250_000), 500_000);
    assert_eq!(ease.apply(UNIT), UNIT);
}

#[test]
fn ease_out_mirrors_ease_in() {
    let ease = Shaping::EaseOut(exponent(1, 2));
    assert_eq!(ease.apply(0), 0);
    assert_eq!(ease.apply(750_000), 500_000);
    assert_eq!(ease.apply(500_000), 292_894);
    assert_eq!(ease.apply(990_000), 900_000);
    assert_eq!(ease.apply(UNIT), UNIT);
    let mut previous = 0;
    let mut t = 0;
    while t <= UNIT {
        let s = ease.apply(t);
        assert!(s >= previous && s <= t);
        previous = s;
        t += 4_999;
    }
}

#[test]
fn shaping_knows_a_valid_exponent() {
    assert!(Shaping::Linear.is_valid());
    assert!(Shaping::MinimumJerk.is_valid());
    assert!(Shaping::EaseIn(Exponent { num: 1, den: 2 }).is_valid());
    assert!(!Shaping::EaseIn(Exponent { num: 2, den: 2 }).is_valid());
    assert!(!Shaping::EaseOut(Exponent { num: 0, den: 3 }).is_valid());
    assert!(!Shaping::EaseOut(Exponent { num: 1, den: 7 }).is_valid());
}

#[test]
fn a_phase_with_an_exponent_out_of_range_is_refused() {
    let shaping = Shaping::EaseIn(Exponent { num: 3, den: 2 });
    let phase = MotionPhase::single(shaping, 10, 20, Mode::Filtered, 0, 90_000, 100_000);
    assert_eq!(phase.validate(4), Err(PhaseError::ExponentOutOfRange));
    let no_ticks = MotionPhase::single(shaping, 0, 20, Mode::Filtered, 9, 90_000, 100_000);
    assert_eq!(no_ticks.validate(4), Err(PhaseError::NoTicks));
    let unknown = MotionPhase::single(shaping, 10, 20, Mode::Filtered, 9, 90_000, 100_000);
    assert_eq!(unknown.validate(4), Err(PhaseError::ExponentOutOfRange));
}
