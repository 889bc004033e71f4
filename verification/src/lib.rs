//! Guided-breathing sessions: the breathing cycle, its tick-driven state
//! machine, and the configuration values that describe a session.

pub mod arith;
pub mod breathe;
pub mod config;
pub mod text;
pub mod verbosity;
