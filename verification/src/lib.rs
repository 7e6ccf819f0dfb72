#![verifier::loop_isolation(false)]
//! A neuro-evolution core for a vehicle-control simulation: fixed-topology
//! feed-forward controllers, a random mutation operator, a generational
//! trainer state machine, and a per-agent reset watchdog.
//!
//! Every quantity is a fixed-point number counted in thousandths, so that
//! `fixed::ONE` stands for the real value 1.0; times are in thousandths of a
//! time unit.

pub mod brain;
pub mod car;
pub mod config;
pub mod fixed;
pub mod snapshot;
pub mod trainer;
