use robot_arm::arm::{Arm, Mode, Write};
use robot_arm::circle::{circle_tracks, UnitSample};
use robot_arm::config::{Config, JOINT_COUNT};
use robot_arm::phase::{MotionPhase, PhaseError, Track};
use robot_arm::quantizer::angle_to_duty;
use robot_arm::sequencer::{SequenceError, Sequencer, Stage, IDLE_PERIOD_MS, PHASE_PAUSE_MS};
use robot_arm::shaping::Shaping;

fn reference_arm() -> Arm {
    Arm::new(Config::reference(), JOINT_COUNT)
}

fn sequencer(phases: Vec<MotionPhase>) -> Sequencer {
    Sequencer::new(reference_arm(), phases, PHASE_PAUSE_MS, IDLE_PERIOD_MS).unwrap()
}

/// Millidegrees of `center + radius * f(angle)`, rounded to the nearest.
fn on_circle(center: f64, radius: f64, value: f64) -> u32 {
    ((center + radius * value) * 1000.0).round() as u32
}

/// Sine and cosine around the circle, sampled every half degree.
fn unit_circle(turns: u32) -> Vec<UnitSample> {
    (0..=720 * turns)
        .map(|k| {
            let theta = (k as f64) * std::f64::consts::PI / 360.0;
            UnitSample {
                sin: (theta.sin() * 1_000_000.0).round() as i32,
                cos: (theta.cos() * 1_000_000.0).round() as i32,
            }
        })
        .collect()
}

/// The two tracks of a circle of 30 degrees around 90 degrees, drawn by a
/// shoulder (sine) and an elbow (cosine).
fn circle(shoulder: usize, elbow: usize, turns: u32) -> Vec<Track> {
    let (first, second) =
        circle_tracks(shoulder, elbow, 90_000, 30_000, &unit_circle(turns)).unwrap();
    vec![first, second]
}

#[test]
fn a_held_target_gives_a_constant_code_and_one_write() {
    let phase = MotionPhase::single(Shaping::MinimumJerk, 9, 20, Mode::Filtered, 0, 90_000, 90_000);
    let mut seq = sequencer(vec![phase]);
    let mut writes = Vec::new();
    for tick in 0..10 {
        let step = seq.step();
        assert_eq!(step.stage, Stage::Moving { phase: 0, tick });
        assert_eq!(step.delay_ms, 20);
        assert_eq!(seq.arm.joint(0).unwrap().last_written_duty, Some(77));
        writes.push(step.writes);
    }
    assert_eq!(writes[0], vec![Write { joint: 0, duty_code: 77, register_value: 4_947 }]);
    for later in &writes[1..] {
        assert!(later.is_empty());
    }
    assert_eq!(seq.stage(), Stage::Pausing { phase: 0 });
}

#[test]
fn a_minimum_jerk_sweep_arrives_without_overshoot() {
    let phase =
        MotionPhase::single(Shaping::MinimumJerk, 300, 20, Mode::Filtered, 0, 90_000, 160_000);
    let mut seq = sequencer(vec![phase]);
    let mut previous_angle = 90_000;
    let mut previous_code = 0;
    for tick in 0..=300 {
        let step = seq.step();
        assert_eq!(step.stage, Stage::Moving { phase: 0, tick });
        let joint = seq.arm.joint(0).unwrap();
        assert!(joint.smoothed_angle <= 160_000, "overshoot at tick {}", tick);
        assert!(joint.smoothed_angle >= previous_angle, "moved back at tick {}", tick);
        let code = joint.last_written_duty.unwrap();
        assert!(code >= previous_code);
        // A write goes out exactly when the code changed.
        assert_eq!(step.writes.len(), usize::from(code != previous_code));
        previous_angle = joint.smoothed_angle;
        previous_code = code;
    }
    let arrived = seq.arm.joint(0).unwrap();
    assert!(160_000 - arrived.smoothed_angle < 1_000, "ended at {}", arrived.smoothed_angle);
    assert_eq!(arrived.last_written_duty, Some(117));
    assert_eq!(seq.stage(), Stage::Pausing { phase: 0 });
}

#[test]
fn a_sweep_writes_each_code_once() {
    let phase =
        MotionPhase::single(Shaping::MinimumJerk, 300, 20, Mode::Filtered, 0, 90_000, 160_000);
    let mut seq = sequencer(vec![phase]);
    let mut codes = Vec::new();
    for _ in 0..=300 {
        for write in seq.step().writes {
            assert_eq!(write.joint, 0);
            codes.push(write.duty_code);
        }
    }
    // Codes 77 to 117, every one of them, in rising order.
    assert_eq!(codes, (77..=117).collect::<Vec<u8>>());
}

#[test]
fn a_circle_visits_its_full_excursion_and_returns() {
    let config = Config::reference();
    let low = angle_to_duty(&config.duty, 60_000);
    let high = angle_to_duty(&config.duty, 120_000);
    assert_eq!((low, high), (60, 94));
    // A lead-in takes the elbow onto the circle, then one full revolution.
    let lead_in =
        MotionPhase::single(Shaping::MinimumJerk, 100, 20, Mode::Filtered, 1, 90_000, 120_000);
    let circle = MotionPhase::coupled(
        Shaping::Linear,
        720,
        20,
        Mode::Filtered,
        circle(0, 1, 1),
    );
    let mut seq = sequencer(vec![lead_in, circle]);
    while seq.stage() != (Stage::Moving { phase: 1, tick: 0 }) {
        seq.step();
    }
    let mut first = None;
    let mut last = [0u8; 2];
    let mut lowest = [u8::MAX; 2];
    let mut highest = [0u8; 2];
    for tick in 0..=720 {
        let step = seq.step();
        assert_eq!(step.stage, Stage::Moving { phase: 1, tick });
        for joint in 0..2 {
            let code = seq.arm.joint(joint).unwrap().last_written_duty.unwrap();
            lowest[joint] = lowest[joint].min(code);
            highest[joint] = highest[joint].max(code);
            last[joint] = code;
        }
        if first.is_none() {
            first = Some(last);
        }
    }
    let first = first.unwrap();
    for joint in 0..2 {
        assert_eq!(lowest[joint], low, "joint {}", joint);
        assert_eq!(highest[joint], high, "joint {}", joint);
        assert!(first[joint].abs_diff(last[joint]) <= 1, "joint {}", joint);
    }
    assert_eq!(first, [77, 94]);
}

#[test]
fn a_direct_circle_follows_the_samples() {
    let circle =
        MotionPhase::coupled(Shaping::Linear, 720, 20, Mode::Direct, circle(0, 1, 1));
    let mut seq = sequencer(vec![circle]);
    for tick in 0..=720u32 {
        seq.step();
        // Sines are rounded to parts per million, progress is floored to parts
        // per million and the interpolation rounds toward the earlier sample:
        // at most three millidegrees are lost.
        let theta = (tick as f64) * std::f64::consts::PI / 360.0;
        let shoulder = seq.arm.joint(0).unwrap().smoothed_angle;
        let elbow = seq.arm.joint(1).unwrap().smoothed_angle;
        assert!(shoulder.abs_diff(on_circle(90.0, 30.0, theta.sin())) <= 3, "tick {}", tick);
        assert!(elbow.abs_diff(on_circle(90.0, 30.0, theta.cos())) <= 3, "tick {}", tick);
    }
    // The first and the last tick lie on the ends of the path, with nothing lost.
    assert_eq!(seq.arm.joint(0).unwrap().smoothed_angle, 90_000);
    assert_eq!(seq.arm.joint(1).unwrap().smoothed_angle, 120_000);
}

#[test]
fn a_circle_of_several_turns_comes_round_each_time() {
    let circle =
        MotionPhase::coupled(Shaping::Linear, 300, 20, Mode::Direct, circle(2, 3, 3));
    let mut seq = sequencer(vec![circle]);
    let mut peaks = [0u32; 3];
    for tick in 0..=300u32 {
        seq.step();
        let shoulder = seq.arm.joint(2).unwrap().smoothed_angle;
        let elbow = seq.arm.joint(3).unwrap().smoothed_angle;
        assert!((60_000..=120_000).contains(&shoulder));
        assert!((60_000..=120_000).contains(&elbow));
        if tick % 100 == 0 {
            assert!(shoulder.abs_diff(90_000) <= 2, "shoulder {} at tick {}", shoulder, tick);
            assert!(elbow.abs_diff(120_000) <= 2, "elbow {} at tick {}", elbow, tick);
        }
        if tick < 300 {
            let turn = (tick / 100) as usize;
            peaks[turn] = peaks[turn].max(shoulder);
        }
    }
    // Tick 25 of each turn is the top of the sine.
    for peak in peaks {
        assert!(peak >= 119_998, "peak {}", peak);
    }
}

#[test]
fn stages_follow_the_choreography_in_order() {
    let first = MotionPhase::single(Shaping::MinimumJerk, 2, 20, Mode::Filtered, 0, 90_000, 100_000);
    let second = MotionPhase::single(Shaping::Linear, 1, 5, Mode::Direct, 1, 90_000, 45_000);
    let mut seq = Sequencer::new(reference_arm(), vec![first, second], 300, 700).unwrap();
    let mut seen = Vec::new();
    for _ in 0..10 {
        let step = seq.step();
        seen.push((step.stage, step.delay_ms));
    }
    assert_eq!(
        seen,
        vec![
            (Stage::Moving { phase: 0, tick: 0 }, 20),
            (Stage::Moving { phase: 0, tick: 1 }, 20),
            (Stage::Moving { phase: 0, tick: 2 }, 20),
            (Stage::Pausing { phase: 0 }, 300),
            (Stage::Moving { phase: 1, tick: 0 }, 5),
            (Stage::Moving { phase: 1, tick: 1 }, 5),
            (Stage::Pausing { phase: 1 }, 300),
            (Stage::Homing, 700),
            (Stage::Idle, 700),
            (Stage::Idle, 700),
        ]
    );
    assert!(seq.is_idle());
}

#[test]
fn a_pause_moves_nothing() {
    let phase = MotionPhase::single(Shaping::Linear, 1, 20, Mode::Direct, 0, 90_000, 100_000);
    let mut seq = sequencer(vec![phase]);
    seq.step();
    seq.step();
    let before = seq.arm.joints.clone();
    let pause = seq.step();
    assert_eq!(pause.stage, Stage::Pausing { phase: 0 });
    assert!(pause.writes.is_empty());
    assert_eq!(pause.delay_ms, PHASE_PAUSE_MS);
    assert_eq!(seq.arm.joints, before);
}

#[test]
fn homing_returns_every_joint_and_idling_changes_nothing() {
    let phase = MotionPhase::coupled(
        Shaping::Linear,
        1,
        20,
        Mode::Direct,
        vec![Track::sweep(0, 90_000, 10_000), Track::sweep(2, 90_000, 170_000)],
    );
    let mut seq = sequencer(vec![phase]);
    seq.step();
    seq.step();
    seq.step();
    assert_eq!(seq.stage(), Stage::Homing);
    assert_eq!(seq.arm.joint(0).unwrap().smoothed_angle, 10_000);
    assert_eq!(seq.arm.joint(2).unwrap().smoothed_angle, 170_000);
    let home = seq.step();
    assert_eq!(home.stage, Stage::Homing);
    // Joints 1 and 3 were never written, joints 0 and 2 moved: all four go out.
    assert_eq!(
        home.writes,
        vec![
            Write { joint: 0, duty_code: 77, register_value: 4_947 },
            Write { joint: 1, duty_code: 77, register_value: 4_947 },
            Write { joint: 2, duty_code: 77, register_value: 4_947 },
            Write { joint: 3, duty_code: 77, register_value: 4_947 },
        ]
    );
    for joint in 0..4 {
        assert_eq!(seq.arm.joint(joint).unwrap().smoothed_angle, 90_000);
    }
    let before = seq.arm.joints.clone();
    for _ in 0..5 {
        let idle = seq.step();
        assert_eq!(idle.stage, Stage::Idle);
        assert!(idle.writes.is_empty());
        assert_eq!(idle.delay_ms, IDLE_PERIOD_MS);
    }
    assert_eq!(seq.arm.joints, before);
}

#[test]
fn an_empty_choreography_goes_home_at_once() {
    let mut seq = sequencer(Vec::new());
    assert_eq!(seq.stage(), Stage::Homing);
    let home = seq.step();
    assert_eq!(home.writes.len(), 4);
    assert!(seq.is_idle());
}

#[test]
fn direct_mode_reaches_the_end_of_a_sweep_exactly() {
    let phase = MotionPhase::single(Shaping::MinimumJerk, 50, 20, Mode::Direct, 3, 20_000, 150_000);
    let mut seq = sequencer(vec![phase]);
    seq.step();
    assert_eq!(seq.arm.joint(3).unwrap().smoothed_angle, 20_000);
    for _ in 1..=25 {
        seq.step();
    }
    assert_eq!(seq.arm.joint(3).unwrap().smoothed_angle, 85_000);
    for _ in 26..=50 {
        seq.step();
    }
    assert_eq!(seq.arm.joint(3).unwrap().smoothed_angle, 150_000);
}

#[test]
fn a_failed_write_is_issued_again() {
    let phase = MotionPhase::single(Shaping::Linear, 3, 20, Mode::Filtered, 0, 90_000, 90_000);
    let mut seq = sequencer(vec![phase]);
    assert_eq!(seq.step().writes.len(), 1);
    assert!(seq.write_failed(0));
    assert_eq!(
        seq.step().writes,
        vec![Write { joint: 0, duty_code: 77, register_value: 4_947 }]
    );
    assert!(seq.step().writes.is_empty());
    assert!(!seq.write_failed(4));
}

#[test]
fn a_phase_without_ticks_is_refused() {
    let phase = MotionPhase::single(Shaping::Linear, 0, 20, Mode::Filtered, 0, 90_000, 100_000);
    assert_eq!(phase.validate(4), Err(PhaseError::NoTicks));
    let good = MotionPhase::single(Shaping::Linear, 1, 20, Mode::Filtered, 0, 90_000, 100_000);
    assert_eq!(good.validate(4), Ok(()));
    let refused = Sequencer::new(reference_arm(), vec![good, phase], 0, 0);
    assert_eq!(
        refused.err(),
        Some(SequenceError::InvalidPhase { index: 1, fault: PhaseError::NoTicks })
    );
}

#[test]
fn a_phase_for_an_unknown_joint_is_refused() {
    let phase = MotionPhase::single(Shaping::Linear, 5, 20, Mode::Filtered, 4, 90_000, 100_000);
    assert_eq!(phase.validate(4), Err(PhaseError::UnknownJoint));
    assert_eq!(phase.validate(5), Ok(()));
    let refused = Sequencer::new(reference_arm(), vec![phase], 0, 0);
    assert_eq!(
        refused.err(),
        Some(SequenceError::InvalidPhase { index: 0, fault: PhaseError::UnknownJoint })
    );
}

#[test]
fn a_phase_with_an_empty_path_is_refused() {
    let phase = MotionPhase::coupled(
        Shaping::Linear,
        5,
        20,
        Mode::Filtered,
        vec![Track::hold(0, 90_000), Track::along(1, Vec::new())],
    );
    assert_eq!(phase.validate(4), Err(PhaseError::EmptyPath));
}

#[test]
fn a_phase_that_leaves_the_mechanical_range_is_refused() {
    let phase = MotionPhase::single(Shaping::Linear, 5, 20, Mode::Filtered, 0, 90_000, 180_001);
    assert_eq!(phase.validate(4), Err(PhaseError::AngleOutOfRange));
    let edge = MotionPhase::single(Shaping::Linear, 5, 20, Mode::Filtered, 0, 0, 180_000);
    assert_eq!(edge.validate(4), Ok(()));
}

#[test]
fn faults_are_named_in_a_fixed_order() {
    let tracks = vec![Track::sweep(0, 90_000, 200_000), Track::along(1, Vec::new()), Track::hold(9, 0)];
    let all = MotionPhase::coupled(Shaping::Linear, 0, 20, Mode::Filtered, tracks.clone());
    assert_eq!(all.validate(4), Err(PhaseError::NoTicks));
    let ticking = MotionPhase::coupled(Shaping::Linear, 1, 20, Mode::Filtered, tracks.clone());
    assert_eq!(ticking.validate(4), Err(PhaseError::UnknownJoint));
    assert_eq!(ticking.validate(10), Err(PhaseError::EmptyPath));
    let filled = MotionPhase::coupled(
        Shaping::Linear,
        1,
        20,
        Mode::Filtered,
        vec![Track::sweep(0, 90_000, 200_000), Track::hold(9, 0)],
    );
    assert_eq!(filled.validate(10), Err(PhaseError::AngleOutOfRange));
}

#[test]
fn a_phase_without_tracks_only_paces() {
    let phase = MotionPhase::coupled(Shaping::Linear, 2, 50, Mode::Filtered, Vec::new());
    let mut seq = sequencer(vec![phase]);
    for tick in 0..=2 {
        let step = seq.step();
        assert_eq!(step.stage, Stage::Moving { phase: 0, tick });
        assert!(step.writes.is_empty());
        assert_eq!(step.delay_ms, 50);
    }
}

#[test]
fn commands_of_a_tick_follow_the_tracks() {
    let phase = MotionPhase::coupled(
        Shaping::MinimumJerk,
        4,
        20,
        Mode::Direct,
        vec![Track::sweep(1, 90_000, 160_000), Track::hold(0, 45_000)],
    );
    let commands = phase.commands(4, 1);
    assert_eq!(commands.len(), 2);
    // Progress 1/4 shapes to 0.103515, which is 7246 millidegrees of a 70 degree sweep.
    assert_eq!((commands[0].joint, commands[0].target, commands[0].mode), (1, 97_246, Mode::Direct));
    assert_eq!((commands[1].joint, commands[1].target, commands[1].mode), (0, 45_000, Mode::Direct));
}
