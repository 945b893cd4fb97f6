//! Health tracking and selection for a pool of unreliable remote models.
//!
//! The crate keeps per-model success/failure statistics, jails models that
//! fail repeatedly (with exponentially growing jail terms), blacklists
//! chronic offenders, and picks the best currently eligible model from a
//! live catalog given a ranked preference list.  All decisions are pure
//! functions of their inputs; the current time is always passed in as a
//! plain second count so that every rule is checkable.

pub mod catalog;
pub mod codec;
pub mod prefs;
pub mod report;
pub mod select;
pub mod state;
pub mod stats;
pub mod store;
pub mod text;
pub mod util;
