use car_evolution::brain::CarBrain;
use car_evolution::car::{Car, Force, Pose, Rotation, V3, Velocity};
use car_evolution::config::Config;
use car_evolution::trainer::{
    reset_force_system, reset_pos_system, reset_spawn_key_system, trainer_system, Trainer,
};

fn pose_at(x: i64, y: i64, z: i64) -> Pose {
    Pose { translation: V3 { x, y, z }, rotation: Rotation { x: 0, y: 0, z: 0, w: 1000 } }
}

fn population(fitness: &[i64]) -> Vec<Car> {
    fitness
        .iter()
        .map(|m| {
            let mut c = Car::new(true, 400000, pose_at(0, 1000, 0), CarBrain::new(5, 4));
            c.meters = *m;
            c
        })
        .collect()
}

fn fresh_config() -> Config {
    Config::default()
}

#[test]
fn scenario_record_improves() {
    // fitness [10.0, 12.5, 9.0], record 11.0, interval elapsed:
    // 12.5 > 11.0 + 1.0, so the record becomes 12.5 and nothing else moves
    let mut trainer = Trainer::default();
    trainer.record = 11000;
    let mut config = fresh_config();
    let mut cars = population(&[10000, 12500, 9000]);
    let before: Vec<Vec<i64>> = cars.iter().map(|c| c.brain.encode()).collect();
    let report = trainer_system(&mut trainer, &mut config, 20000, &mut cars);
    assert_eq!(trainer.record, 12500);
    assert_eq!(trainer.generation, 0);
    assert_eq!(trainer.last_check_at, 20000);
    assert!(report.snapshot.is_none());
    assert!(config.use_brain);
    assert_eq!(config.reset_pause_until, 0);
    // no controller was replaced
    let after: Vec<Vec<i64>> = cars.iter().map(|c| c.brain.encode()).collect();
    assert_eq!(before, after);
    // the stored best is the controller of the fittest agent
    assert_eq!(trainer.best_brain.as_ref().unwrap().encode(), before[1]);
}

#[test]
fn scenario_generation_advances() {
    // fitness [10.0, 10.5, 9.0], record 11.0, interval elapsed:
    // 10.5 <= 12.0, so the generation increments, the record resets, and
    // every controller becomes a mutated clone of the 10.5 agent's
    let mut trainer = Trainer::default();
    trainer.record = 11000;
    let mut config = fresh_config();
    let mut cars = population(&[10000, 10500, 9000]);
    let best_before = cars[1].brain.encode();
    let before: Vec<Vec<i64>> = cars.iter().map(|c| c.brain.encode()).collect();
    let report = trainer_system(&mut trainer, &mut config, 20000, &mut cars);
    assert_eq!(trainer.generation, 1);
    assert_eq!(trainer.record, 0);
    assert!(!config.use_brain);
    assert_eq!(config.reset_pause_until, 20000 + 5000);
    // all three controllers were replaced by clones of the best one
    for (car, old) in cars.iter().zip(before.iter()) {
        assert_ne!(car.brain.encode(), *old);
        assert_eq!(car.brain.levels.len(), 2);
        assert_eq!(car.brain.levels[0].weights.len(), 5);
        assert_eq!(car.brain.levels[1].biases.len(), 4);
        assert!(!car.use_brain);
        assert_eq!(car.gas, 0);
        assert_eq!(car.brake, 0);
        assert_eq!(car.steering, 0);
        assert_eq!(car.transform, car.init_transform);
        assert_eq!(car.force, Force::default());
    }
    // fitness is left to the progress tracker, not reset here
    assert_eq!(cars[0].meters, 10000);
    // the snapshot is the sanitized best controller: same parameters
    let snap = report.snapshot.expect("a generation transition persists");
    assert_eq!(snap.encode(), best_before);
    for level in &snap.levels {
        assert!(level.inputs.iter().all(|x| *x == 0));
        assert!(level.outputs.iter().all(|x| *x == 0));
    }
}

#[test]
fn tie_break_takes_the_first_best() {
    let mut trainer = Trainer::default();
    let mut config = fresh_config();
    let mut cars = population(&[7000, 7000, 3000]);
    let first = cars[0].brain.encode();
    trainer_system(&mut trainer, &mut config, 20001, &mut cars);
    assert_eq!(trainer.best_brain.as_ref().unwrap().encode(), first);
}

#[test]
fn nothing_happens_before_the_interval() {
    let mut trainer = Trainer::default();
    trainer.record = 11000;
    let mut config = fresh_config();
    let mut cars = population(&[10000, 12500, 9000]);
    let report = trainer_system(&mut trainer, &mut config, 19999, &mut cars);
    assert_eq!(trainer.record, 11000);
    assert_eq!(trainer.generation, 0);
    assert_eq!(trainer.last_check_at, 0);
    assert!(report.snapshot.is_none());
    // only the countdown is reported: 20.0 - 19.999 time units
    assert_eq!(report.countdown, 1);
}

#[test]
fn paused_population_waits_and_resumes() {
    let mut trainer = Trainer::default();
    let mut config = fresh_config();
    config.use_brain = false;
    config.reset_pause_until = 5000;
    let mut cars = population(&[1000]);
    cars[0].use_brain = false;

    // still pausing: nothing changes
    let report = trainer_system(&mut trainer, &mut config, 4999, &mut cars);
    assert!(!config.use_brain);
    assert_eq!(config.reset_pause_until, 5000);
    assert!(!cars[0].use_brain);
    assert!(report.snapshot.is_none());

    // pause over: control comes back on, forces are cleared, and the
    // check timer starts a fresh evaluation window at now
    trainer_system(&mut trainer, &mut config, 5000, &mut cars);
    assert!(config.use_brain);
    assert_eq!(config.reset_pause_until, 0);
    assert!(cars[0].use_brain);
    assert_eq!(cars[0].force, Force::default());
    assert_eq!(trainer.last_check_at, 5000);
}

#[test]
fn watchdog_triggers_and_recovers() {
    let mut config = fresh_config();
    config.use_brain = true;
    let mut cars = population(&[0]);
    cars[0].gas = 1000;
    cars[0].transform = pose_at(0, 600000, 0);

    // out of bounds at t=1000: silenced, repositioned, paused until t=4000
    reset_pos_system(&config, 1000, &mut cars);
    assert!(!cars[0].use_brain);
    assert_eq!(cars[0].gas, 0);
    assert_eq!(cars[0].reset_pause_until, 4000);
    assert_eq!(cars[0].transform, cars[0].init_transform);

    // while settling, it is held at its spawn pose under a damping force
    cars[0].velocity.linvel = V3 { x: 2000, y: 0, z: -1000 };
    cars[0].velocity.angvel = V3 { x: 0, y: 3000, z: 0 };
    cars[0].transform = pose_at(5, 900, 0);
    reset_pos_system(&config, 2000, &mut cars);
    assert_eq!(cars[0].transform, cars[0].init_transform);
    assert_eq!(cars[0].force.force, V3 { x: -2000 * 10000, y: 0, z: 1000 * 10000 });
    assert_eq!(cars[0].force.torque, V3 { x: 0, y: -3000 * 2, z: 0 });
    assert!(!cars[0].use_brain);

    // once the pause has elapsed and it is back in bounds, it recovers and
    // control follows the global flag
    cars[0].velocity = Velocity { linvel: V3 { x: 0, y: 0, z: 0 }, angvel: V3 { x: 0, y: 0, z: 0 } };
    reset_pos_system(&config, 4000, &mut cars);
    assert_eq!(cars[0].transform, cars[0].init_transform);
    assert_eq!(cars[0].reset_pause_until, 0);
    assert_eq!(cars[0].force, Force::default());
    assert!(cars[0].use_brain);
}

#[test]
fn watchdog_recovery_respects_disabled_training() {
    let mut config = fresh_config();
    config.use_brain = false;
    let mut cars = population(&[0]);
    cars[0].transform = pose_at(0, -1, 0);
    reset_pos_system(&config, 1000, &mut cars);
    reset_pos_system(&config, 4000, &mut cars);
    assert!(!cars[0].use_brain);
    assert_eq!(cars[0].transform, cars[0].init_transform);
}

#[test]
fn population_pause_applies_damping() {
    let mut config = fresh_config();
    config.reset_pause_until = 9000;
    let mut cars = population(&[0]);
    cars[0].velocity.linvel = V3 { x: 100, y: 0, z: 0 };
    cars[0].transform = pose_at(7, 7, 7);
    reset_force_system(&config, 8000, &mut cars);
    assert_eq!(cars[0].transform, cars[0].init_transform);
    assert_eq!(cars[0].force.force.x, -100 * 10000);
    // outside the pause nothing changes
    cars[0].force = Force::default();
    cars[0].transform = pose_at(7, 7, 7);
    reset_force_system(&config, 9000, &mut cars);
    assert_eq!(cars[0].transform, pose_at(7, 7, 7));
}

#[test]
fn manual_reset_matches_a_failed_generation_step() {
    let mut config = fresh_config();
    let mut cars = population(&[500]);
    cars[0].gas = 1000;
    cars[0].steering = -1000;
    cars[0].transform = pose_at(9, 9, 9);
    reset_spawn_key_system(true, &mut config, 1000, &mut cars);
    assert!(!config.use_brain);
    assert_eq!(config.reset_pause_until, 4000);
    assert_eq!(cars[0].gas, 0);
    assert_eq!(cars[0].steering, 0);
    assert!(!cars[0].use_brain);
    assert_eq!(cars[0].transform, cars[0].init_transform);

    // without the key nothing happens
    let mut config2 = fresh_config();
    let mut cars2 = population(&[500]);
    cars2[0].gas = 700;
    reset_spawn_key_system(false, &mut config2, 1000, &mut cars2);
    assert_eq!(cars2[0].gas, 700);
    assert!(config2.use_brain);
}

#[test]
fn a_clock_running_backwards_counts_as_no_elapsed_time() {
    let mut trainer = Trainer::default();
    trainer.last_check_at = 5000;
    let mut config = fresh_config();
    let mut cars = population(&[10000]);
    let report = trainer_system(&mut trainer, &mut config, 1000, &mut cars);
    assert_eq!(trainer.last_check_at, 5000);
    assert_eq!(trainer.generation, 0);
    assert!(report.snapshot.is_none());
    assert_eq!(report.countdown, 20000);
}

#[test]
fn the_check_fires_once_the_interval_is_reached() {
    let mut trainer = Trainer::default();
    let mut config = fresh_config();
    let mut cars = population(&[10000]);
    // one thousandth short of the interval: still waiting
    trainer_system(&mut trainer, &mut config, 19999, &mut cars);
    assert_eq!(trainer.last_check_at, 0);
    // exactly at the interval: the check runs and the timer resets
    trainer_system(&mut trainer, &mut config, 20000, &mut cars);
    assert_eq!(trainer.last_check_at, 20000);
}

#[test]
fn default_trainer_and_config_values() {
    let t = Trainer::default();
    assert_eq!(t.interval, 20000);
    assert_eq!(t.generation, 0);
    assert_eq!(t.record, 0);
    assert_eq!(t.last_check_at, 0);
    assert!(t.best_brain.is_none());
    let c = Config::default();
    assert_eq!(c.cars_count, 10);
    assert!(c.use_brain);
    assert_eq!(c.sensor_count, 5);
    assert_eq!(c.reset_pause_until, 0);
    assert_eq!(c.translation, V3 { x: 0, y: 1000, z: 0 });
    // the spawn rotation: -0.2 pi about the vertical axis, in thousandths
    assert_eq!(c.quat, Rotation { x: 0, y: -309, z: 0, w: 951 });
}
