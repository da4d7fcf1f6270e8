//! A verified evolutionary training loop for a grid-survival agent: weighted
//! action policies keyed by canonical perceptual state, a tick-based world
//! simulation as the fitness signal, and copy-on-write mutation and reward
//! reinforcement across generations.
pub mod policy;
pub mod rng;
pub mod world;
pub mod perception;
pub mod tree;
pub mod engine;
pub mod training;
pub mod draw;
