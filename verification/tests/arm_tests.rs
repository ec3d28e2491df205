use robot_arm::arm::{Arm, ArmError, Command, Mode, Write};
use robot_arm::config::{
    Config, ConfigError, CONTROL_HZ, HOME_POS, JOINT_COUNT, MAX_DUTY, MIN_DUTY, SMOOTHING,
    TICK_PERIOD_MS,
};
use robot_arm::joint::JointState;
use robot_arm::quantizer::DutyRange;

fn reference_arm() -> Arm {
    Arm::new(Config::reference(), JOINT_COUNT)
}

#[test]
fn reference_constants() {
    assert_eq!(SMOOTHING, 500_000);
    assert_eq!((MIN_DUTY, MAX_DUTY), (26_000, 128_000));
    assert_eq!(HOME_POS, 90_000);
    assert_eq!(JOINT_COUNT, 4);
    assert_eq!(CONTROL_HZ, 50);
    assert_eq!(TICK_PERIOD_MS, 20);
}

#[test]
fn reference_parameters() {
    let config = Config::reference();
    assert_eq!(config.smoothing, 500_000);
    assert_eq!(config.duty, DutyRange { min_millis: 26_000, max_millis: 128_000 });
    assert_eq!(config.home, 90_000);
    assert_eq!(Config::new(500_000, 26_000, 128_000, 90_000), Ok(config));
}

#[test]
fn config_rejects_a_smoothing_coefficient_outside_its_domain() {
    assert_eq!(Config::new(0, 26_000, 128_000, 90_000), Err(ConfigError::SmoothingOutOfRange));
    assert_eq!(
        Config::new(1_000_001, 26_000, 128_000, 90_000),
        Err(ConfigError::SmoothingOutOfRange)
    );
    assert!(Config::new(1, 26_000, 128_000, 90_000).is_ok());
    assert!(Config::new(1_000_000, 26_000, 128_000, 90_000).is_ok());
}

#[test]
fn config_rejects_an_invalid_duty_range() {
    assert_eq!(Config::new(500_000, 128_000, 26_000, 90_000), Err(ConfigError::DutyRangeInvalid));
    assert_eq!(Config::new(500_000, 26_000, 255_001, 90_000), Err(ConfigError::DutyRangeInvalid));
    assert!(Config::new(500_000, 0, 255_000, 90_000).is_ok());
    assert!(Config::new(500_000, 77_000, 77_000, 90_000).is_ok());
}

#[test]
fn config_rejects_a_home_angle_outside_the_mechanical_range() {
    assert_eq!(Config::new(500_000, 26_000, 128_000, 180_001), Err(ConfigError::HomeOutOfRange));
    assert!(Config::new(500_000, 26_000, 128_000, 180_000).is_ok());
    assert!(Config::new(500_000, 26_000, 128_000, 0).is_ok());
}

#[test]
fn config_names_the_first_parameter_out_of_its_domain() {
    assert_eq!(Config::new(0, 128_000, 26_000, 200_000), Err(ConfigError::SmoothingOutOfRange));
    assert_eq!(Config::new(1, 128_000, 26_000, 200_000), Err(ConfigError::DutyRangeInvalid));
}

#[test]
fn a_new_arm_has_all_joints_at_home() {
    let arm = reference_arm();
    assert_eq!(arm.joint_count(), 4);
    for joint in 0..4 {
        assert_eq!(
            arm.joint(joint),
            Some(JointState { smoothed_angle: HOME_POS, last_written_duty: None })
        );
    }
    assert_eq!(arm.joint(4), None);
    assert_eq!(Arm::new(Config::reference(), 0).joint_count(), 0);
}

#[test]
fn holding_the_home_angle_for_ten_ticks_writes_once() {
    let mut arm = reference_arm();
    let mut writes = Vec::new();
    for _ in 0..10 {
        let outcome = arm.drive_filtered(0, 90_000).unwrap();
        assert_eq!(arm.joint(0).unwrap().last_written_duty, Some(77));
        assert_eq!(arm.joint(0).unwrap().smoothed_angle, 90_000);
        if let Some(write) = outcome {
            writes.push(write);
        }
    }
    assert_eq!(writes, vec![Write { joint: 0, duty_code: 77, register_value: 4_947 }]);
}

#[test]
fn the_first_tick_writes_and_the_second_is_held_back() {
    let mut arm = reference_arm();
    assert!(arm.drive_filtered(2, 90_000).unwrap().is_some());
    assert_eq!(arm.drive_filtered(2, 90_000), Ok(None));
    // A target that moves the angle but not the code is held back as well.
    assert_eq!(arm.drive_filtered(2, 90_200), Ok(None));
    assert_eq!(arm.joint(2).unwrap().smoothed_angle, 90_100);
}

#[test]
fn filtered_mode_moves_half_the_gap_per_tick() {
    let mut arm = reference_arm();
    assert_eq!(
        arm.drive_filtered(1, 160_000),
        Ok(Some(Write { joint: 1, duty_code: 97, register_value: 6_232 }))
    );
    assert_eq!(arm.joint(1).unwrap().smoothed_angle, 125_000);
    assert_eq!(
        arm.drive_filtered(1, 160_000),
        Ok(Some(Write { joint: 1, duty_code: 107, register_value: 6_874 }))
    );
    assert_eq!(arm.joint(1).unwrap().smoothed_angle, 142_500);
    // The other joints are untouched.
    assert_eq!(arm.joint(0).unwrap(), JointState { smoothed_angle: 90_000, last_written_duty: None });
}

#[test]
fn direct_mode_takes_the_target_at_once() {
    let mut arm = reference_arm();
    assert_eq!(
        arm.drive_direct(3, 160_000),
        Ok(Some(Write { joint: 3, duty_code: 117, register_value: 7_517 }))
    );
    assert_eq!(arm.joint(3).unwrap().smoothed_angle, 160_000);
    assert_eq!(arm.drive_direct(3, 160_000), Ok(None));
    assert_eq!(
        arm.drive_direct(3, 0),
        Ok(Some(Write { joint: 3, duty_code: 26, register_value: 1_670 }))
    );
    assert_eq!(arm.joint(3).unwrap().smoothed_angle, 0);
}

#[test]
fn drive_dispatches_on_the_mode() {
    let mut filtered = reference_arm();
    let mut direct = reference_arm();
    filtered.drive(0, 100_000, Mode::Filtered).unwrap();
    direct.drive(0, 100_000, Mode::Direct).unwrap();
    assert_eq!(filtered.joint(0).unwrap().smoothed_angle, 95_000);
    assert_eq!(direct.joint(0).unwrap().smoothed_angle, 100_000);
}

#[test]
fn an_unknown_joint_is_refused_and_nothing_changes() {
    let mut arm = reference_arm();
    assert_eq!(arm.drive_filtered(4, 90_000), Err(ArmError::UnknownJoint));
    assert_eq!(arm.drive_direct(usize::MAX, 90_000), Err(ArmError::UnknownJoint));
    // The joint is looked at before the angle.
    assert_eq!(arm.drive_direct(4, 200_000), Err(ArmError::UnknownJoint));
    for joint in 0..4 {
        assert_eq!(arm.joint(joint).unwrap(), JointState { smoothed_angle: 90_000, last_written_duty: None });
    }
}

#[test]
fn a_target_out_of_range_is_refused_and_nothing_changes() {
    let mut arm = reference_arm();
    assert_eq!(arm.drive_filtered(0, 180_001), Err(ArmError::AngleOutOfRange));
    assert_eq!(arm.drive_direct(0, u32::MAX), Err(ArmError::AngleOutOfRange));
    assert_eq!(arm.joint(0).unwrap(), JointState { smoothed_angle: 90_000, last_written_duty: None });
    assert!(arm.drive_direct(0, 180_000).is_ok());
    assert_eq!(arm.joint(0).unwrap().smoothed_angle, 180_000);
}

#[test]
fn a_failed_write_is_repeated_on_the_next_tick() {
    let mut arm = reference_arm();
    assert!(arm.drive_filtered(0, 90_000).unwrap().is_some());
    assert!(arm.forget_write(0));
    assert_eq!(arm.joint(0).unwrap().last_written_duty, None);
    assert_eq!(
        arm.drive_filtered(0, 90_000),
        Ok(Some(Write { joint: 0, duty_code: 77, register_value: 4_947 }))
    );
    assert_eq!(arm.drive_filtered(0, 90_000), Ok(None));
    assert!(!arm.forget_write(9));
}

#[test]
fn run_takes_commands_through_the_pipeline_in_order() {
    let mut arm = reference_arm();
    let commands = vec![
        Command { joint: 0, target: 90_000, mode: Mode::Filtered },
        Command { joint: 1, target: 160_000, mode: Mode::Direct },
        Command { joint: 0, target: 90_000, mode: Mode::Filtered },
        Command { joint: 1, target: 90_000, mode: Mode::Filtered },
    ];
    let writes = arm.run(&commands);
    assert_eq!(
        writes,
        vec![
            Write { joint: 0, duty_code: 77, register_value: 4_947 },
            Write { joint: 1, duty_code: 117, register_value: 7_517 },
            Write { joint: 1, duty_code: 97, register_value: 6_232 },
        ]
    );
    assert_eq!(arm.joint(1).unwrap().smoothed_angle, 125_000);
    assert_eq!(arm.run(&Vec::new()), Vec::new());
}

#[test]
fn the_smoothed_angle_never_leaves_the_mechanical_range() {
    let mut arm = reference_arm();
    let targets = [180_000, 0, 180_000, 180_000, 0, 0, 0, 90_000, 180_000];
    for target in targets {
        for _ in 0..25 {
            arm.drive_filtered(0, target).unwrap();
            assert!(arm.joint(0).unwrap().smoothed_angle <= 180_000);
        }
        assert_eq!(arm.joint(0).unwrap().smoothed_angle, target);
    }
}
