//! A local-first client library for a hosted task list.
//!
//! The crate keeps a persisted replica of the remote state, records every
//! local mutation as a pending command, and reconciles server responses back
//! into the replica.  The reconciliation algorithm, the replica's mutation
//! API, and the command queue are specified by contracts and verified.

pub mod cli;
pub mod model;
pub mod sync;
pub mod tui;
