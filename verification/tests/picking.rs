use car_evolution::brain::{cars_pick_brain_mutate_restart, CarBrain};
use car_evolution::car::{Car, Pose, Rotation, V3};
use car_evolution::config::Config;

fn pose_at(x: i64, y: i64, z: i64) -> Pose {
    Pose { translation: V3 { x, y, z }, rotation: Rotation { x: 0, y: 0, z: 0, w: 1000 } }
}

#[test]
fn picking_saves_and_spreads_the_chosen_controller() {
    let config = Config::default();
    let mut cars: Vec<Car> = (0..3)
        .map(|_| Car::new(true, 400000, pose_at(0, 1000, 0), CarBrain::new(5, 4)))
        .collect();
    cars[1].gas = 777;
    let chosen_words = cars[2].brain.encode();
    let saved = cars_pick_brain_mutate_restart(&mut cars, Some(2), &config);
    assert_eq!(saved.expect("the pick is saved").encode(), chosen_words);
    for car in &cars {
        // every agent got a fresh mutated clone of the chosen controller
        assert_ne!(car.brain.encode(), chosen_words);
        assert_eq!(car.brain.levels.len(), 2);
        // and stands at the configured spawn pose
        assert_eq!(car.transform.translation, config.translation);
        assert_eq!(car.transform.rotation, config.quat);
    }
    // actuation is not touched by a pick
    assert_eq!(cars[1].gas, 777);
}

#[test]
fn no_pick_changes_nothing() {
    let config = Config::default();
    let mut cars = vec![Car::new(true, 400000, pose_at(0, 1000, 0), CarBrain::new(5, 4))];
    let words = cars[0].brain.encode();
    let saved = cars_pick_brain_mutate_restart(&mut cars, None, &config);
    assert!(saved.is_none());
    assert_eq!(cars[0].brain.encode(), words);
}
