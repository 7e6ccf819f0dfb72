use car_evolution::brain::{car_lerp, collect_inputs, car_brain_system, CarBrain, Level};
use car_evolution::car::{Car, Force, Pose, Rotation, V3, Velocity};

fn pose_at(x: i64, y: i64, z: i64) -> Pose {
    Pose { translation: V3 { x, y, z }, rotation: Rotation { x: 0, y: 0, z: 0, w: 1000 } }
}

fn level(weights: Vec<Vec<i64>>, biases: Vec<i64>) -> Level {
    let n_in = weights.len();
    let n_out = biases.len();
    Level { inputs: vec![0; n_in], outputs: vec![0; n_out], weights, biases }
}

/// A fixed two-input, four-output controller with hand-picked parameters.
fn test_brain() -> CarBrain {
    CarBrain {
        levels: vec![level(
            vec![vec![1000, 0, 0, 1000], vec![0, 1000, 0, 0]],
            vec![500, 500, 1000, -1000],
        )],
    }
}

#[test]
fn forward_is_deterministic() {
    let mut a = test_brain();
    let mut b = test_brain();
    let out1 = a.feed_forward(vec![800, -1000]);
    let out2 = a.feed_forward(vec![800, -1000]);
    let out3 = b.feed_forward(vec![800, -1000]);
    assert_eq!(out1, out2);
    assert_eq!(out1, out3);
}

#[test]
fn forward_threshold_exact_values() {
    let mut b = test_brain();
    // unit 0: 0.8 * 1.0 = 0.8 > 0.5          -> 1.0
    // unit 1: -1.0 * 1.0 = -1.0, not > 0.5   -> 0.0
    // unit 2: 0, not > 1.0                   -> 0.0
    // unit 3: 0.8 > -1.0                     -> 1.0
    let out = b.feed_forward(vec![800, -1000]);
    assert_eq!(out, vec![1000, 0, 0, 1000]);
}

#[test]
fn forward_width_mismatch_uses_zero_vector() {
    let mut b = test_brain();
    let wrong = b.feed_forward(vec![800]);
    let zeroed = test_brain().feed_forward(vec![0, 0]);
    assert_eq!(wrong, zeroed);
}

#[test]
fn forward_two_level_chain() {
    // 1 -> 1 -> 1: first level fires (0.9 > 0.1), second sees 1.0 and
    // compares 1.0 * -0.5 = -0.5 against -0.25: stays off.
    let mut b = CarBrain {
        levels: vec![
            level(vec![vec![1000]], vec![100]),
            level(vec![vec![-500]], vec![-250]),
        ],
    };
    let out = b.feed_forward(vec![900]);
    assert_eq!(out, vec![0]);
    assert_eq!(b.levels[0].outputs, vec![1000]);
}

#[test]
fn new_controller_has_configured_widths() {
    let b = CarBrain::new(5, 4);
    assert_eq!(b.levels.len(), 2);
    assert_eq!(b.levels[0].weights.len(), 5);
    assert_eq!(b.levels[0].biases.len(), 6);
    assert_eq!(b.levels[1].weights.len(), 6);
    assert_eq!(b.levels[1].biases.len(), 4);
    for level in &b.levels {
        for row in &level.weights {
            assert_eq!(row.len(), level.biases.len());
            for w in row {
                assert!(0 <= *w && *w <= 1000);
            }
        }
        for bias in &level.biases {
            assert!(0 <= *bias && *bias <= 1000);
        }
    }
}

#[test]
fn fresh_controllers_differ_statistically() {
    // 54 parameters drawn from over a thousand values each: two equal
    // networks would be astronomically unlikely.
    let a = CarBrain::new(5, 4);
    let b = CarBrain::new(5, 4);
    assert_ne!(a.encode(), b.encode());
}

#[test]
fn mutation_preserves_topology() {
    let src = CarBrain::new(5, 4);
    let clone = CarBrain::clone_randomised(&src);
    assert_eq!(clone.levels.len(), src.levels.len());
    for (c, s) in clone.levels.iter().zip(src.levels.iter()) {
        assert_eq!(c.weights.len(), s.weights.len());
        assert_eq!(c.biases.len(), s.biases.len());
        for (cr, sr) in c.weights.iter().zip(s.weights.iter()) {
            assert_eq!(cr.len(), sr.len());
        }
    }
}

#[test]
fn mutation_moves_each_parameter_by_at_most_a_fifth() {
    // one step blends a tenth of the way toward a sample in [-1, 1], so no
    // parameter can move by more than 0.2 in one step
    let src = test_brain();
    let clone = CarBrain::clone_randomised(&src);
    for (c, s) in clone.levels.iter().zip(src.levels.iter()) {
        for (cr, sr) in c.weights.iter().zip(s.weights.iter()) {
            for (cw, sw) in cr.iter().zip(sr.iter()) {
                assert!((cw - sw).abs() <= 200);
                assert!(-1000 <= *cw && *cw <= 1000);
            }
        }
        for (cb, sb) in c.biases.iter().zip(s.biases.iter()) {
            assert!((cb - sb).abs() <= 200);
            assert!(-1000 <= *cb && *cb <= 1000);
        }
    }
}

#[test]
fn mutate_random_changes_something_statistically() {
    let mut b = CarBrain::new(5, 4);
    let before = b.encode();
    b.mutate_random();
    assert_ne!(before, b.encode());
    assert_eq!(before.len(), b.encode().len());
}

#[test]
fn lerp_exact_values_and_bound() {
    // 0.5 blended a tenth of the way toward -1.0: step of -0.15
    assert_eq!(car_lerp(500, -1000), 350);
    // 0.0 toward 1.0: step of 0.1
    assert_eq!(car_lerp(0, 1000), 100);
    // rounding is toward zero
    assert_eq!(car_lerp(0, 5), 0);
    assert_eq!(car_lerp(0, -5), 0);
    // a step never exceeds a tenth of the gap
    for a in [-1000i64, -337, 0, 211, 1000] {
        for b in [-1000i64, -1, 0, 999, 1000] {
            let r = car_lerp(a, b);
            assert!(10 * (r - a).abs() <= (b - a).abs());
            assert!(-1000 <= r && r <= 1000);
        }
    }
}

#[test]
fn sensor_hits_are_clamped_per_sensor() {
    let hits = vec![Some(800), None, Some(1500), Some(-5), Some(0)];
    let inputs = collect_inputs(&hits);
    assert_eq!(inputs, vec![800, -1000, 1000, 0, 0]);
}

#[test]
fn control_outputs_drive_throttle_brake_steering() {
    let car = Car::new(true, 400000, pose_at(0, 1000, 0), test_brain());
    let mut cars = vec![car];
    let hits = vec![vec![Some(800), None]];
    car_brain_system(&mut cars, &hits);
    assert_eq!(cars[0].gas, 1000);
    assert_eq!(cars[0].brake, 0);
    // steering = right - left = 1.0 - 0.0
    assert_eq!(cars[0].steering, 1000);
}

#[test]
fn control_skips_disabled_agents() {
    let car = Car::new(false, 400000, pose_at(0, 1000, 0), test_brain());
    let mut cars = vec![car];
    let hits = vec![vec![Some(800), None]];
    car_brain_system(&mut cars, &hits);
    assert_eq!(cars[0].gas, 0);
    assert_eq!(cars[0].brake, 0);
    assert_eq!(cars[0].steering, 0);
    assert_eq!(cars[0].velocity, Velocity { linvel: V3 { x: 0, y: 0, z: 0 }, angvel: V3 { x: 0, y: 0, z: 0 } });
    assert_eq!(cars[0].force, Force::default());
}
