//! The agent: one simulated vehicle owning its controller, fitness, pose and
//! control state. Pose, velocity and force values come from the physics
//! collaborator as plain fixed-point components.

use vstd::prelude::*;
use crate::brain::CarBrain;
use crate::fixed::in_unit;

verus! {

/// Largest fitness value the trainer accepts: leaves room to add the minimum
/// improvement delta without overflow.
pub const MAX_FITNESS: i64 = 1000000000000;

/// Largest velocity component magnitude the watchdog accepts: leaves room to
/// scale by the damping multipliers without overflow.
pub const VEL_LIMIT: i64 = 1000000000;

/// A three-component vector in thousandths.
#[derive(Clone, Copy, PartialEq, Eq, Structural, Debug)]
pub struct V3 {
    pub x: i64,
    pub y: i64,
    pub z: i64,
}

/// An orientation, stored as four plain quaternion components in
/// thousandths; this crate only stores and compares them.
#[derive(Clone, Copy, PartialEq, Eq, Structural, Debug)]
pub struct Rotation {
    pub x: i64,
    pub y: i64,
    pub z: i64,
    pub w: i64,
}

/// A pose: a translation and an orientation.
#[derive(Clone, Copy, PartialEq, Eq, Structural, Debug)]
pub struct Pose {
    pub translation: V3,
    pub rotation: Rotation,
}

/// Linear and angular velocity, as the physics collaborator reports them.
#[derive(Clone, Copy, PartialEq, Eq, Structural, Debug)]
pub struct Velocity {
    pub linvel: V3,
    pub angvel: V3,
}

/// An external force and torque command for the physics collaborator.
#[derive(Clone, Copy, PartialEq, Eq, Structural, Debug)]
pub struct Force {
    pub force: V3,
    pub torque: V3,
}

/// The zero vector.
pub open spec fn zero_v3() -> V3 {
    V3 { x: 0, y: 0, z: 0 }
}

/// No force and no torque.
pub open spec fn zero_force() -> Force {
    Force { force: zero_v3(), torque: zero_v3() }
}

impl Default for Force {
    /// No force and no torque.
    fn default() -> (r: Force)
        ensures
            r == zero_force(),
    {
        Force { force: V3 { x: 0, y: 0, z: 0 }, torque: V3 { x: 0, y: 0, z: 0 } }
    }
}

/// Whether every component of a velocity is small enough for the damping
/// computation.
pub open spec fn velocity_bounded(v: Velocity) -> bool {
    &&& -VEL_LIMIT <= v.linvel.x <= VEL_LIMIT
    &&& -VEL_LIMIT <= v.linvel.y <= VEL_LIMIT
    &&& -VEL_LIMIT <= v.linvel.z <= VEL_LIMIT
    &&& -VEL_LIMIT <= v.angvel.x <= VEL_LIMIT
    &&& -VEL_LIMIT <= v.angvel.y <= VEL_LIMIT
    &&& -VEL_LIMIT <= v.angvel.z <= VEL_LIMIT
}

/// One simulated vehicle: its requested actuation, control flag, watchdog
/// pause, fitness, pose state and its controller.
pub struct Car {
    /// Requested throttle in [0, 1.0].
    pub gas: i64,
    /// Requested brake in [0, 1.0].
    pub brake: i64,
    /// Requested signed steering in [-1.0, 1.0].
    pub steering: i64,
    /// Whether this agent's controller currently drives it.
    pub use_brain: bool,
    /// Strongest torque the wheels may apply, in thousandths.
    pub wheel_max_torque: i64,
    /// The spawn pose, restored by every reset.
    pub init_transform: Pose,
    /// Time until which this agent's watchdog holds it still; 0 when idle.
    pub reset_pause_until: u64,
    /// The current pose, written by the physics collaborator and by resets.
    pub transform: Pose,
    /// The current velocity, written by the physics collaborator.
    pub velocity: Velocity,
    /// The force command handed to the physics collaborator.
    pub force: Force,
    /// Cumulative distance traveled in thousandths: the fitness.
    pub meters: i64,
    /// The controller this agent owns.
    pub brain: CarBrain,
}

impl Car {
    /// Well-formedness: a well-formed controller, a fitness in range,
    /// actuation values in range and a bounded velocity.
    pub open spec fn wf(self) -> bool {
        &&& self.brain.wf()
        &&& 0 <= self.meters <= MAX_FITNESS
        &&& in_unit(self.gas)
        &&& in_unit(self.brake)
        &&& in_unit(self.steering)
        &&& velocity_bounded(self.velocity)
    }

    /// Builds an agent at its spawn pose, at rest, with zeroed actuation and
    /// zero fitness, owning the given controller.
    pub fn new(use_brain: bool, wheel_max_torque: i64, init_transform: Pose, brain: CarBrain) -> (c: Car)
        requires
            brain.wf(),
        ensures
            c.wf(),
            c.gas == 0,
            c.brake == 0,
            c.steering == 0,
            c.use_brain == use_brain,
            c.wheel_max_torque == wheel_max_torque,
            c.init_transform == init_transform,
            c.reset_pause_until == 0,
            c.transform == init_transform,
            c.velocity == (Velocity { linvel: zero_v3(), angvel: zero_v3() }),
            c.force == zero_force(),
            c.meters == 0,
            c.brain == brain,
    {
        Car {
            gas: 0,
            brake: 0,
            steering: 0,
            use_brain,
            wheel_max_torque,
            init_transform,
            reset_pause_until: 0,
            transform: init_transform,
            velocity: Velocity { linvel: V3 { x: 0, y: 0, z: 0 }, angvel: V3 { x: 0, y: 0, z: 0 } },
            force: Force::default(),
            meters: 0,
            brain,
        }
    }
}

} // verus!
