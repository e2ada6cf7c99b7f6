//! Keeps a mirror calendar in step with a source schedule: recurrence
//! expansion, correlation of events across the two systems, equivalence
//! checks and the create / update / delete diff.

pub mod instant;
pub mod recurrence;
pub mod events;
pub mod compare;
pub mod sync;
pub mod laws;
pub mod config;
pub mod feed;
pub mod settle;
