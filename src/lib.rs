//! A deterministic, tick-based simulation of evolving organisms on a bounded
//! grid of resource cells.
//!
//! Every quantity is an integer: gene values and probabilities are per-mille
//! fixed-point numbers, energies and resources are whole units. Randomness is
//! an explicit stream keyed by seed, tick and organism, so a run depends on
//! its configuration alone.

pub mod rng;
pub mod genome;
pub mod config;
pub mod organism;
pub mod spatial;
pub mod world;
pub mod snapshot;
