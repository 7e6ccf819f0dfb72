//! The generational trainer state machine and the per-agent reset watchdog.
//!
//! Both converge on the same reset target and share the pose, force and
//! control fields; within one tick the watchdog (`reset_pos_system`) must
//! run before the trainer's pose and force writes, and the last writer wins.

use vstd::prelude::*;
use crate::brain::{CarBrain, mutated_brain, same_brain, sanitized_of, lemma_mutated_transfer, lemma_same_brain_params, lemma_same_brain_trans};
use crate::car::{Car, Force, Pose, V3, Velocity, velocity_bounded, zero_force, MAX_FITNESS};
use crate::config::Config;

verus! {

/// How long one agent's watchdog holds it still, in thousandths of a time
/// unit: 3 time units, shorter than the generation pause.
pub const PAUSE: u64 = 3000;

/// How long the whole population pauses after a generation transition:
/// 5 time units.
pub const GENERATION_PAUSE: u64 = 5000;

/// Damping multiplier against linear velocity while an agent settles.
pub const LINVEL_FORCE: i64 = 10000;

/// Damping multiplier against angular velocity while an agent settles.
pub const ANGVEL_FORCE: i64 = 2;

/// Lowest admissible vertical position, in thousandths.
pub const Y_MIN: i64 = 0;

/// Highest admissible vertical position, in thousandths: 500 units.
pub const Y_MAX: i64 = 500000;

/// Latest clock value the tick functions accept; leaves room to schedule
/// every pause and to form signed countdowns without overflow.
pub const MAX_TIME: u64 = 1000000000000000;

/// Whether a pose has left the admissible vertical band.
pub open spec fn out_of_bounds(t: Pose) -> bool {
    t.translation.y > Y_MAX || t.translation.y < Y_MIN
}

/// The damping force the watchdog applies while an agent settles: opposite
/// to the current linear and angular velocity.
pub open spec fn damping_force(v: Velocity) -> Force {
    Force {
        force: spec_neg_scale3(v.linvel, LINVEL_FORCE as int),
        torque: spec_neg_scale3(v.angvel, ANGVEL_FORCE as int),
    }
}

/// Each component negated and scaled by `m`.
pub open spec fn spec_neg_scale3(v: crate::car::V3, m: int) -> V3 {
    V3 {
        x: (-(v.x as int) * m) as i64,
        y: (-(v.y as int) * m) as i64,
        z: (-(v.z as int) * m) as i64,
    }
}

/// Computes the damping force for a bounded velocity.
fn damping(v: &Velocity) -> (f: Force)
    requires
        velocity_bounded(*v),
    ensures
        f == damping_force(*v),
{
    Force {
        force: V3 {
            x: -v.linvel.x * LINVEL_FORCE,
            y: -v.linvel.y * LINVEL_FORCE,
            z: -v.linvel.z * LINVEL_FORCE,
        },
        torque: V3 {
            x: -v.angvel.x * ANGVEL_FORCE,
            y: -v.angvel.y * ANGVEL_FORCE,
            z: -v.angvel.z * ANGVEL_FORCE,
        },
    }
}

/// One watchdog step for one agent at time `now`, as `reset_pos_system`
/// performs it. An agent found out of bounds is silenced, scheduled to rest
/// until `now + PAUSE` and put back at its spawn pose; a resting agent is
/// held at its spawn pose under a damping force; once its pause has elapsed
/// the force is cleared and its control follows the globally-enabled flag.
pub open spec fn watchdog_step(car: Car, global_use_brain: bool, now: u64) -> Car {
    let c1 = if out_of_bounds(car.transform) {
        Car {
            gas: 0,
            brake: 0,
            steering: 0,
            use_brain: false,
            reset_pause_until: (now + PAUSE) as u64,
            transform: car.init_transform,
            force: zero_force(),
            ..car
        }
    } else {
        car
    };
    if c1.reset_pause_until > now {
        Car { transform: c1.init_transform, force: damping_force(c1.velocity), ..c1 }
    } else if c1.reset_pause_until > 0 {
        Car {
            transform: c1.init_transform,
            force: zero_force(),
            use_brain: global_use_brain,
            reset_pause_until: 0,
            ..c1
        }
    } else {
        c1
    }
}

/// The per-agent watchdog: runs one `watchdog_step` on every agent,
/// independently. Runs before the trainer's own pose and force writes in
/// every tick.
pub fn reset_pos_system(config: &Config, now: u64, cars: &mut Vec<Car>)
    requires
        now <= MAX_TIME,
        forall|i: int| 0 <= i < old(cars)@.len() ==> (#[trigger] old(cars)@[i]).wf(),
    ensures
        final(cars)@.len() == old(cars)@.len(),
        forall|i: int|
            0 <= i < old(cars)@.len() ==> final(cars)@[i] == watchdog_step(
                old(cars)@[i],
                config.use_brain,
                now,
            ),
        forall|i: int| 0 <= i < final(cars)@.len() ==> (#[trigger] final(cars)@[i]).wf(),
    {
    let n = cars.len();
    let mut done: Vec<Car> = Vec::new();
    let mut k: usize = 0;
    while k < n
        invariant
            k <= n,
            done@.len() == k,
            cars@ == old(cars)@.skip(k as int),
            forall|i: int|
                0 <= i < k ==> done@[i] == watchdog_step(old(cars)@[i], config.use_brain, now),
            forall|i: int| 0 <= i < k ==> (#[trigger] done@[i]).wf(),
        decreases n - k,
    {
        let mut c: Car = cars.remove(0);
        proof {
            assert(c == old(cars)@[k as int]);
            assert(cars@ =~= old(cars)@.skip(k as int + 1));
        }
        let ghost c0 = c;
        if c.transform.translation.y > Y_MAX || c.transform.translation.y < Y_MIN {
            c.gas = 0;
            c.brake = 0;
            c.steering = 0;
            c.use_brain = false;
            c.reset_pause_until = now + PAUSE;
            c.transform = c.init_transform;
            c.force = Force::default();
        }
        if c.reset_pause_until > now {
            c.transform = c.init_transform;
            c.force = damping(&c.velocity);
        } else if c.reset_pause_until > 0 {
            c.transform = c.init_transform;
            c.force = Force::default();
            c.use_brain = config.use_brain;
            c.reset_pause_until = 0;
        }
        proof {
            assert(c == watchdog_step(c0, config.use_brain, now));
        }
        done.push(c);
        k = k + 1;
    }
    *cars = done;
}

/// While the population-wide pause runs, every agent is held at its spawn
/// pose under a damping force; outside the pause nothing changes.
pub fn reset_force_system(config: &Config, now: u64, cars: &mut Vec<Car>)
    requires
        forall|i: int| 0 <= i < old(cars)@.len() ==> (#[trigger] old(cars)@[i]).wf(),
    ensures
        final(cars)@.len() == old(cars)@.len(),
        config.reset_pause_until <= now ==> final(cars)@ == old(cars)@,
        config.reset_pause_until > now ==> forall|i: int|
            0 <= i < old(cars)@.len() ==> final(cars)@[i] == (Car {
                transform: old(cars)@[i].init_transform,
                force: damping_force(old(cars)@[i].velocity),
                ..old(cars)@[i]
            }),
        forall|i: int| 0 <= i < final(cars)@.len() ==> (#[trigger] final(cars)@[i]).wf(),
    {
    if config.reset_pause_until <= now {
        return ;
    }
    let n = cars.len();
    let mut done: Vec<Car> = Vec::new();
    let mut k: usize = 0;
    while k < n
        invariant
            k <= n,
            done@.len() == k,
            cars@ == old(cars)@.skip(k as int),
            forall|i: int|
                0 <= i < k ==> done@[i] == (Car {
                    transform: old(cars)@[i].init_transform,
                    force: damping_force(old(cars)@[i].velocity),
                    ..old(cars)@[i]
                }),
            forall|i: int| 0 <= i < k ==> (#[trigger] done@[i]).wf(),
        decreases n - k,
    {
        let mut c: Car = cars.remove(0);
        proof {
            assert(c == old(cars)@[k as int]);
            assert(cars@ =~= old(cars)@.skip(k as int + 1));
        }
        c.force = damping(&c.velocity);
        c.transform = c.init_transform;
        done.push(c);
        k = k + 1;
    }
    *cars = done;
}

/// A manual, population-wide reset: on the reset key, disable global control,
/// schedule a pause of `PAUSE`, silence every agent and put it back at its
/// spawn pose — the same step a failed generation performs, without touching
/// the generation counter.
pub fn reset_spawn_key_system(just_pressed: bool, config: &mut Config, now: u64, cars: &mut Vec<Car>)
    requires
        now <= MAX_TIME,
        forall|i: int| 0 <= i < old(cars)@.len() ==> (#[trigger] old(cars)@[i]).wf(),
    ensures
        final(cars)@.len() == old(cars)@.len(),
        !just_pressed ==> *final(config) == *old(config) && final(cars)@ == old(cars)@,
        just_pressed ==> *final(config) == (Config {
            use_brain: false,
            reset_pause_until: (now + PAUSE) as u64,
            ..*old(config)
        }),
        just_pressed ==> forall|i: int|
            0 <= i < old(cars)@.len() ==> final(cars)@[i] == (Car {
                gas: 0,
                brake: 0,
                steering: 0,
                use_brain: false,
                transform: old(cars)@[i].init_transform,
                ..old(cars)@[i]
            }),
        forall|i: int| 0 <= i < final(cars)@.len() ==> (#[trigger] final(cars)@[i]).wf(),
    {
    if !just_pressed {
        return ;
    }
    config.use_brain = false;
    config.reset_pause_until = now + PAUSE;
    let n = cars.len();
    let mut done: Vec<Car> = Vec::new();
    let mut k: usize = 0;
    while k < n
        invariant
            k <= n,
            done@.len() == k,
            cars@ == old(cars)@.skip(k as int),
            forall|i: int|
                0 <= i < k ==> done@[i] == (Car {
                    gas: 0,
                    brake: 0,
                    steering: 0,
                    use_brain: false,
                    transform: old(cars)@[i].init_transform,
                    ..old(cars)@[i]
                }),
            forall|i: int| 0 <= i < k ==> (#[trigger] done@[i]).wf(),
        decreases n - k,
    {
        let mut c: Car = cars.remove(0);
        proof {
            assert(c == old(cars)@[k as int]);
            assert(cars@ =~= old(cars)@.skip(k as int + 1));
        }
        c.gas = 0;
        c.brake = 0;
        c.steering = 0;
        c.use_brain = false;
        c.transform = c.init_transform;
        done.push(c);
        k = k + 1;
    }
    *cars = done;
}

/// Watchdog recovery: an agent found out of bounds at `t0` is back at its
/// spawn pose once its pause has elapsed at `t1` and its pose is again in
/// bounds, and its control is re-enabled exactly when global training is
/// enabled. `mid` is the agent as the physics collaborator may have left it
/// between the two ticks: only its pose and velocity may differ from the
/// watchdog's output at `t0`.
pub proof fn lemma_watchdog_recovery(c0: Car, mid: Car, g0: bool, g1: bool, t0: u64, t1: u64)
    requires
        t0 <= MAX_TIME,
        t1 <= MAX_TIME,
        out_of_bounds(c0.transform),
        mid == (Car {
            transform: mid.transform,
            velocity: mid.velocity,
            ..watchdog_step(c0, g0, t0)
        }),
        !out_of_bounds(mid.transform),
        t1 >= t0 + PAUSE,
    ensures
        watchdog_step(mid, g1, t1).transform == c0.init_transform,
        watchdog_step(mid, g1, t1).use_brain == g1,
        watchdog_step(mid, g1, t1).reset_pause_until == 0,
        watchdog_step(mid, g1, t1).force == zero_force(),
{
}

/// Minimum fitness improvement that keeps a generation alive: 1.0.
pub const MINIMAL_PROGRESS_DELTA: i64 = 1000;

/// The generational training state: a monotonic generation counter, the
/// check cadence, the record fitness, and an owned copy of the current best
/// controller.
pub struct Trainer {
    /// How much time must elapse between generation checks.
    pub interval: u64,
    /// How many generations have been bred so far.
    pub generation: i32,
    /// The best fitness seen since the last generation transition.
    pub record: i64,
    /// When the last generation check ran.
    pub last_check_at: u64,
    /// An owned copy of the best controller found so far, independent of any
    /// live agent's controller.
    pub best_brain: Option<CarBrain>,
}

impl Trainer {
    /// Well-formedness: a record fitness and clock values in range, and a
    /// well-formed stored controller if one exists.
    pub open spec fn wf(self) -> bool {
        &&& 0 <= self.record <= MAX_FITNESS
        &&& self.interval <= MAX_TIME
        &&& self.last_check_at <= MAX_TIME
        &&& self.generation >= 0
        &&& match self.best_brain {
            Some(b) => b.wf(),
            None => true,
        }
    }
}

impl Default for Trainer {
    /// The starting state: generation zero, no record, a check every 20 time
    /// units, and no stored controller yet.
    fn default() -> (t: Trainer)
        ensures
            t.wf(),
            t.interval == 20000,
            t.generation == 0,
            t.record == 0,
            t.last_check_at == 0,
            t.best_brain is None,
    {
        Trainer { interval: 20000, generation: 0, record: 0, last_check_at: 0, best_brain: None }
    }
}

/// What one trainer tick reports to the display sink, and the sanitized
/// snapshot to persist when a generation transition happened. Display values
/// never feed back into control flow.
pub struct TickReport {
    /// Time left until the next generation check, in thousandths; at most 0
    /// when the check just ran, 0 when the trainer did not look.
    pub countdown: i64,
    /// The record fitness after this tick.
    pub record: i64,
    /// The generation counter after this tick.
    pub generation: i32,
    /// The sanitized copy of the best controller, present exactly when this
    /// tick bred a new generation; the caller persists it, best-effort.
    pub snapshot: Option<CarBrain>,
}

/// The first index holding the maximum fitness: every agent's fitness is at
/// most this one's, and every earlier agent's is strictly below it.
pub open spec fn is_best(cars: Seq<Car>, j: int) -> bool {
    &&& 0 <= j < cars.len()
    &&& forall|i: int| 0 <= i < cars.len() ==> (#[trigger] cars[i]).meters <= cars[j].meters
    &&& forall|i: int| 0 <= i < j ==> (#[trigger] cars[i]).meters < cars[j].meters
}

/// The configuration once a population-wide pause ends: control re-enabled.
pub open spec fn resumed_config(c: Config) -> Config {
    Config { reset_pause_until: 0, use_brain: true, ..c }
}

/// An agent once a population-wide pause ends: control re-enabled, force
/// cleared.
pub open spec fn resumed_car(c: Car) -> Car {
    Car { use_brain: true, force: zero_force(), ..c }
}

/// Whether `newc` is `oldc` reset for a fresh generation bred from `best`:
/// controller replaced by a mutated clone of `best`, actuation zeroed,
/// control disabled, pose back at its own spawn pose, force cleared, and
/// everything else (fitness included) untouched.
pub open spec fn regenerated_car(newc: Car, oldc: Car, best: CarBrain) -> bool {
    &&& newc.brain.wf()
    &&& mutated_brain(newc.brain, best)
    &&& newc == (Car {
        brain: newc.brain,
        gas: 0,
        brake: 0,
        steering: 0,
        use_brain: false,
        transform: oldc.init_transform,
        force: zero_force(),
        ..oldc
    })
}

/// The configuration as the tick's pause handling leaves it: resumed when a
/// pause had been scheduled and has ended.
pub open spec fn mid_config(cfg0: Config) -> Config {
    if cfg0.reset_pause_until > 0 {
        resumed_config(cfg0)
    } else {
        cfg0
    }
}

/// The population as the tick's pause handling leaves it.
pub open spec fn mid_cars(cfg0: Config, cars0: Seq<Car>) -> Seq<Car> {
    if cfg0.reset_pause_until > 0 {
        Seq::new(cars0.len(), |i: int| resumed_car(cars0[i]))
    } else {
        cars0
    }
}

/// The trainer as the tick's pause handling leaves it: the check timer is
/// reset to `now` when a pause had been scheduled and has just ended.
pub open spec fn mid_trainer(t0: Trainer, cfg0: Config, now: u64) -> Trainer {
    if cfg0.reset_pause_until > 0 {
        Trainer { last_check_at: now, ..t0 }
    } else {
        t0
    }
}

/// Elapsed time since the last generation check; a clock that ran backwards
/// counts as no elapsed time.
pub open spec fn elapsed(t0: Trainer, now: u64) -> int {
    if now >= t0.last_check_at {
        now - t0.last_check_at
    } else {
        0
    }
}

/// What one trainer tick does, relating the states before (`t0`, `cfg0`,
/// `cars0`) and after (`t1`, `cfg1`, `cars1`) and the report:
/// - while a population pause runs, nothing changes;
/// - when one has just ended, control is re-enabled everywhere and the
///   check timer resets to `now`;
/// - with control disabled, or while the elapsed time is still below the
///   interval, only the countdown is reported;
/// - once it reaches the interval, the first agent with maximum fitness is
///   selected: a fitness
///   above the record plus the minimum delta only raises the record, while
///   anything less breeds a new generation from the selected controller,
///   increments the generation counter exactly once, resets the record,
///   pauses the population and reports the sanitized snapshot to persist.
pub open spec fn trainer_tick_rel(
    t0: Trainer,
    t1: Trainer,
    cfg0: Config,
    cfg1: Config,
    cars0: Seq<Car>,
    cars1: Seq<Car>,
    now: u64,
    report: TickReport,
) -> bool {
    if cfg0.reset_pause_until > now {
        &&& t1 == t0
        &&& cfg1 == cfg0
        &&& cars1 == cars0
        &&& report.snapshot is None
        &&& report.countdown == 0
        &&& report.record == t0.record
        &&& report.generation == t0.generation
    } else if !mid_config(cfg0).use_brain {
        &&& t1 == mid_trainer(t0, cfg0, now)
        &&& cfg1 == mid_config(cfg0)
        &&& cars1 == mid_cars(cfg0, cars0)
        &&& report.snapshot is None
        &&& report.countdown == 0
        &&& report.record == t0.record
        &&& report.generation == t0.generation
    } else if elapsed(mid_trainer(t0, cfg0, now), now) < t0.interval {
        &&& t1 == mid_trainer(t0, cfg0, now)
        &&& cfg1 == mid_config(cfg0)
        &&& cars1 == mid_cars(cfg0, cars0)
        &&& report.snapshot is None
        &&& report.countdown == t0.interval - elapsed(mid_trainer(t0, cfg0, now), now)
        &&& report.record == t0.record
        &&& report.generation == t0.generation
    } else {
        &&& report.countdown == t0.interval - elapsed(mid_trainer(t0, cfg0, now), now)
        &&& report.record == t1.record
        &&& report.generation == t1.generation
        &&& exists|j: int|
            #[trigger] is_best(mid_cars(cfg0, cars0), j) && trainer_check_rel(
                t0,
                t1,
                mid_config(cfg0),
                cfg1,
                mid_cars(cfg0, cars0),
                cars1,
                now,
                report,
                j,
            )
    }
}

/// The generation check itself, with `j` the index of the selected agent in
/// the mid-tick population `carsm`.
pub open spec fn trainer_check_rel(
    t0: Trainer,
    t1: Trainer,
    cfgm: Config,
    cfg1: Config,
    carsm: Seq<Car>,
    cars1: Seq<Car>,
    now: u64,
    report: TickReport,
    j: int,
) -> bool {
    &&& (t1.best_brain matches Some(bb) && same_brain(bb, carsm[j].brain))
    &&& if carsm[j].meters > t0.record + MINIMAL_PROGRESS_DELTA {
        // enough improvement: only the record and the check timer move
        &&& t1 == (Trainer {
            last_check_at: now,
            record: carsm[j].meters,
            best_brain: t1.best_brain,
            ..t0
        })
        &&& cfg1 == cfgm
        &&& cars1 == carsm
        &&& report.snapshot is None
    } else {
        // not enough: breed a new generation from the selected controller
        &&& t1 == (Trainer {
            last_check_at: now,
            record: 0,
            generation: (t0.generation + 1) as i32,
            best_brain: t1.best_brain,
            ..t0
        })
        &&& cfg1 == (Config {
            use_brain: false,
            reset_pause_until: (now + GENERATION_PAUSE) as u64,
            ..cfgm
        })
        &&& cars1.len() == carsm.len()
        &&& forall|i: int|
            0 <= i < carsm.len() ==> regenerated_car(#[trigger] cars1[i], carsm[i], carsm[j].brain)
        &&& (report.snapshot matches Some(s) && s.wf() && sanitized_of(s, carsm[j].brain))
    }
}

/// One trainer tick at time `now`: handles the population pause, reports the
/// countdown, and once the elapsed time reaches the interval runs the check
/// over the population — which must not be empty, selection over nothing is
/// refused. Runs after the watchdog within each tick.
pub fn trainer_system(trainer: &mut Trainer, config: &mut Config, now: u64, cars: &mut Vec<Car>) -> (report: TickReport)
    requires
        old(trainer).wf(),
        old(trainer).generation < i32::MAX,
        now <= MAX_TIME,
        old(cars)@.len() >= 1,
        forall|i: int| 0 <= i < old(cars)@.len() ==> (#[trigger] old(cars)@[i]).wf(),
    ensures
        final(trainer).wf(),
        final(cars)@.len() == old(cars)@.len(),
        forall|i: int| 0 <= i < final(cars)@.len() ==> (#[trigger] final(cars)@[i]).wf(),
        trainer_tick_rel(
            *old(trainer),
            *final(trainer),
            *old(config),
            *final(config),
            old(cars)@,
            final(cars)@,
            now,
            report,
        ),
        report.snapshot matches Some(s) ==> s.wf(),
{
    if config.reset_pause_until > now {
        return TickReport {
            countdown: 0,
            record: trainer.record,
            generation: trainer.generation,
            snapshot: None,
        };
    }
    if config.reset_pause_until > 0 {
        config.reset_pause_until = 0;
        config.use_brain = true;
        trainer.last_check_at = now;
        let n = cars.len();
        let mut done: Vec<Car> = Vec::new();
        let mut k: usize = 0;
        while k < n
            invariant
                k <= n,
                done@.len() == k,
                cars@ == old(cars)@.skip(k as int),
                forall|i: int| 0 <= i < k ==> done@[i] == resumed_car(old(cars)@[i]),
                forall|i: int| 0 <= i < k ==> (#[trigger] done@[i]).wf(),
            decreases n - k,
        {
            let mut c: Car = cars.remove(0);
            proof {
                assert(c == old(cars)@[k as int]);
                assert(cars@ =~= old(cars)@.skip(k as int + 1));
            }
            c.use_brain = true;
            c.force = Force::default();
            done.push(c);
            k = k + 1;
        }
        *cars = done;
        proof {
            assert(cars@ =~= Seq::new(old(cars)@.len(), |i: int| resumed_car(old(cars)@[i])));
        }
    }
    let ghost carsm = cars@;
    let ghost cfgm = *config;
    let ghost tm = *trainer;
    proof {
        assert(tm == mid_trainer(*old(trainer), *old(config), now));
    }
    if !config.use_brain {
        return TickReport {
            countdown: 0,
            record: trainer.record,
            generation: trainer.generation,
            snapshot: None,
        };
    }
    let diff: u64 = if now >= trainer.last_check_at {
        now - trainer.last_check_at
    } else {
        0
    };
    let countdown: i64 = trainer.interval as i64 - diff as i64;
    proof {
        assert(diff == elapsed(tm, now));
    }
    if diff < trainer.interval {
        return TickReport {
            countdown,
            record: trainer.record,
            generation: trainer.generation,
            snapshot: None,
        };
    }
    trainer.last_check_at = now;
    let n = cars.len();
    let mut best_i: usize = 0;
    let mut i: usize = 1;
    while i < n
        invariant
            1 <= i <= n,
            best_i < i,
            forall|t: int| 0 <= t < i ==> (#[trigger] cars@[t]).meters <= cars@[best_i as int].meters,
            forall|t: int| 0 <= t < best_i ==> (#[trigger] cars@[t]).meters < cars@[best_i as int].meters,
        decreases n - i,
    {
        if cars[i].meters > cars[best_i].meters {
            best_i = i;
        }
        i = i + 1;
    }
    proof {
        assert(is_best(carsm, best_i as int));
    }
    let best: CarBrain = cars[best_i].brain.duplicate();
    let stored: CarBrain = best.duplicate();
    proof {
        lemma_same_brain_trans(stored, best, carsm[best_i as int].brain);
    }
    trainer.best_brain = Some(stored);
    let best_meters: i64 = cars[best_i].meters;
    if best_meters > trainer.record + MINIMAL_PROGRESS_DELTA {
        trainer.record = best_meters;
        let report = TickReport {
            countdown,
            record: trainer.record,
            generation: trainer.generation,
            snapshot: None,
        };
        proof {
            assert(cfgm == mid_config(*old(config)));
            assert(carsm == mid_cars(*old(config), old(cars)@));
            assert(is_best(mid_cars(*old(config), old(cars)@), best_i as int));
            assert(trainer_check_rel(
                *old(trainer),
                *trainer,
                mid_config(*old(config)),
                *config,
                mid_cars(*old(config), old(cars)@),
                cars@,
                now,
                report,
                best_i as int,
            ));
            assert(trainer_tick_rel(
                *old(trainer),
                *trainer,
                *old(config),
                *config,
                old(cars)@,
                cars@,
                now,
                report,
            ));
        }
        return report;
    }
    trainer.generation = trainer.generation + 1;
    trainer.record = 0;
    config.use_brain = false;
    config.reset_pause_until = now + GENERATION_PAUSE;
    let mut done: Vec<Car> = Vec::new();
    let mut k: usize = 0;
    while k < n
        invariant
            k <= n,
            done@.len() == k,
            cars@ == carsm.skip(k as int),
            forall|i2: int|
                0 <= i2 < k ==> regenerated_car(
                    #[trigger] done@[i2],
                    carsm[i2],
                    carsm[best_i as int].brain,
                ),
            forall|i2: int| 0 <= i2 < k ==> (#[trigger] done@[i2]).wf(),
        decreases n - k,
    {
        let mut c: Car = cars.remove(0);
        proof {
            assert(c == carsm[k as int]);
            assert(cars@ =~= carsm.skip(k as int + 1));
        }
        c.brain = CarBrain::clone_randomised(&best);
        c.gas = 0;
        c.brake = 0;
        c.steering = 0;
        c.use_brain = false;
        c.transform = c.init_transform;
        c.force = Force::default();
        proof {
            lemma_mutated_transfer(c.brain, best, carsm[best_i as int].brain);
            assert(regenerated_car(c, carsm[k as int], carsm[best_i as int].brain));
        }
        done.push(c);
        k = k + 1;
    }
    *cars = done;
    let snap: CarBrain = best.sanitized();
    proof {
        lemma_same_brain_params(best, carsm[best_i as int].brain);
        assert(sanitized_of(snap, carsm[best_i as int].brain));
    }
    let report = TickReport {
        countdown,
        record: trainer.record,
        generation: trainer.generation,
        snapshot: Some(snap),
    };
    proof {
        assert(cfgm == mid_config(*old(config)));
        assert(carsm == mid_cars(*old(config), old(cars)@));
        assert(is_best(mid_cars(*old(config), old(cars)@), best_i as int));
        assert(trainer_check_rel(
            *old(trainer),
            *trainer,
            mid_config(*old(config)),
            *config,
            mid_cars(*old(config), old(cars)@),
            cars@,
            now,
            report,
            best_i as int,
        ));
        assert(trainer_tick_rel(
            *old(trainer),
            *trainer,
            *old(config),
            *config,
            old(cars)@,
            cars@,
            now,
            report,
        ));
    }
    report
}

} // verus!
