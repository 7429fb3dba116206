//! Circuit-level stabilizer simulator for topological quantum error-correcting
//! codes: lattice construction, fault injection, Pauli-frame propagation,
//! sparse syndrome extraction and logical-operator validation.

pub mod code_builder;
pub mod noise;
pub mod noise_builder;
pub mod pauli;
pub mod position;
pub mod rng;
pub mod simulator;
pub mod sparse;
