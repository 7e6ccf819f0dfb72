//! Shared simulation configuration, passed explicitly into each tick call.

use vstd::prelude::*;
use crate::car::{Pose, Rotation, V3};

verus! {

/// The simulation's configuration and the trainer's shared pause state.
pub struct Config {
    /// Spawn translation for the population.
    pub translation: V3,
    /// Spawn orientation for the population, as plain quaternion components
    /// in thousandths.
    pub quat: Rotation,
    /// How many agents to spawn.
    pub cars_count: i16,
    /// Whether controllers drive the population at all: the globally-enabled
    /// flag, written only by the trainer.
    pub use_brain: bool,
    /// Wheel friction coefficient, in thousandths.
    pub friction: i64,
    /// Collision restitution, in thousandths.
    pub restitution: i64,
    /// Strongest wheel torque, in thousandths.
    pub max_torque: i64,
    /// Number of sensor rays per agent.
    pub sensor_count: usize,
    /// Farthest sensor reach, in thousandths.
    pub max_toi: i64,
    /// Index of the human-driven agent, if one exists.
    pub hid_car: Option<usize>,
    /// Index of the agent the camera follows, if any.
    pub camera_follow: Option<usize>,
    /// Time until which the whole population pauses after a generation
    /// transition or a manual reset; 0 when not pausing.
    pub reset_pause_until: u64,
}

impl Config {
    /// The spawn pose the configuration describes.
    pub open spec fn spawn_pose(self) -> Pose {
        Pose { translation: self.translation, rotation: self.quat }
    }
}

impl Default for Config {
    /// The stock configuration: ten agents, brains enabled, five sensors,
    /// and a spawn pose one unit above the origin, turned by -0.2 pi about
    /// the vertical axis (its quaternion in thousandths).
    fn default() -> (c: Config)
        ensures
            c.cars_count == 10,
            c.use_brain == true,
            c.max_torque == 400000,
            c.translation == (V3 { x: 0, y: 1000, z: 0 }),
            c.quat == (Rotation { x: 0, y: -309i64, z: 0, w: 951 }),
            c.friction == 10000,
            c.restitution == 0,
            c.sensor_count == 5,
            c.max_toi == 10000,
            c.hid_car is None,
            c.camera_follow is None,
            c.reset_pause_until == 0,
    {
        Config {
            translation: V3 { x: 0, y: 1000, z: 0 },
            quat: Rotation { x: 0, y: -309, z: 0, w: 951 },
            cars_count: 10,
            use_brain: true,
            friction: 10000,
            restitution: 0,
            max_torque: 400000,
            sensor_count: 5,
            max_toi: 10000,
            hid_car: None,
            camera_follow: None,
            reset_pause_until: 0,
        }
    }
}

} // verus!
