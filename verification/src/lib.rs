//! A parameter-sweep benchmark engine for sorted key/value stores.
//!
//! The library synthesizes reproducible datasets, enumerates a grid of
//! structural parameters, builds one store per parameter tuple, runs a
//! dual-phase timed measurement (full iteration, then randomized
//! lower-bound probes) with embedded correctness checks, and ranks the
//! results.

pub mod order;
pub mod params;
pub mod rng;
pub mod bitmap;
pub mod dataset;
pub mod store;
pub mod measure;
pub mod rank;
