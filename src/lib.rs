//! Enrollment, triggering and persistence state for a small set of GPIO
//! output lines that remote clients can pulse for a configured duration.
pub mod config;
pub mod error;
pub mod fire;
pub mod roster;
pub mod state;
pub mod triggered;
