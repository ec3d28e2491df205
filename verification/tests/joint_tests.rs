use robot_arm::joint::JointState;

#[test]
fn a_new_joint_rests_at_home_and_has_no_write_on_record() {
    let joint = JointState::new(90_000);
    assert_eq!(joint.smoothed_angle, 90_000);
    assert_eq!(joint.last_written_duty, None);
}

#[test]
fn the_first_code_always_goes_out() {
    for code in [0u8, 26, 77, 128, 255] {
        let mut joint = JointState::new(90_000);
        assert!(joint.gate(code).is_some());
        assert_eq!(joint.last_written_duty, Some(code));
    }
}

#[test]
fn the_same_code_twice_in_a_row_is_written_once() {
    let mut joint = JointState::new(90_000);
    assert_eq!(joint.gate(77), Some(4_947));
    assert_eq!(joint.gate(77), None);
    assert_eq!(joint.gate(77), None);
    assert_eq!(joint.last_written_duty, Some(77));
    assert_eq!(joint.smoothed_angle, 90_000);
}

#[test]
fn a_changed_code_is_written_and_recorded() {
    let mut joint = JointState::new(90_000);
    assert_eq!(joint.gate(77), Some(4_947));
    assert_eq!(joint.gate(78), Some(5_011));
    assert_eq!(joint.last_written_duty, Some(78));
    assert_eq!(joint.gate(77), Some(4_947));
    assert_eq!(joint.last_written_duty, Some(77));
}

#[test]
fn forgetting_the_last_write_lets_the_code_out_again() {
    let mut joint = JointState::new(90_000);
    assert_eq!(joint.gate(77), Some(4_947));
    joint.forget();
    assert_eq!(joint.last_written_duty, None);
    assert_eq!(joint.gate(77), Some(4_947));
    assert_eq!(joint.gate(77), None);
}
