//! Treatment assignment for experiments: which variant a user gets, and how
//! often each variant was acted upon.
//!
//! A user's treatment in an experiment is resolved from two partitions of an
//! assignment store: a manual override, where one exists, wins over the base
//! assignment. A resolution can be read silently, or read and observed: an
//! observed read that finds a treatment counts one trigger for it.
//!
//! - `store`: the two partitions, held in memory, and what a store answers.
//! - `resolution`: the precedence of overrides, as a state machine that asks
//!   for one read at a time.
//! - `metrics`: the trigger counters, one per experiment and treatment.
//! - `facade`: the silent and the observed read, and the step that pairs an
//!   operation with a hook for its success.

pub mod facade;
pub mod metrics;
pub mod resolution;
pub mod store;
