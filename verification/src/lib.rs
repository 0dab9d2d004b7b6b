//! Demand instantiation for a microscopic traffic simulation: turns a
//! declarative description of a population's daily travel into concrete,
//! resource-consistent simulation commands, deterministically.
//!
//! The pipeline runs scenario by scenario: schedules are validated, each
//! person is allocated a minimal set of vehicles, each trip is resolved
//! against the road network into a runnable command, and cars that start
//! parked are assigned physical spots. Every random choice is keyed to a
//! forked sub-stream derived from its position in the input, so outcomes
//! are reproducible across runs and stable under unrelated map edits.

pub mod clip;
pub mod instantiate;
pub mod map_model;
pub mod mapspace;
pub mod parking;
pub mod rng;
pub mod scenario;
pub mod sim;
pub mod spawn;
pub mod types;
