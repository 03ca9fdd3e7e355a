//! The logic of the project that `max init` generates: its command line, its
//! configuration with defaults and environment overrides, and its greeting.

pub mod cli;
pub mod config;
pub mod greet;
pub mod startup;
