//! A source-code minimizer core driven by an external command oracle.
//!
//! The library owns the verified heart of the tool: the per-file model of
//! original and blanked lines, the pure strategy generators that propose
//! candidate ranges, and the reduction engine that decides which attempts
//! to keep. Everything that touches the outside world (spawning the user's
//! command, reading and writing files, walking directories) lives with the
//! caller, which hands results back in as plain values.

pub mod bisector;
pub mod chomper;
pub mod command_runner;
pub mod file_manager;
pub mod file_state;
pub mod progress;
pub mod rng;
pub mod strategies;
pub mod strategy;
