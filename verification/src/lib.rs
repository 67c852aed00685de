//! A behavior-tree execution core for a periodically ticked agent.
//!
//! A tree of [`bt::Node`]s is evaluated once per tick against a
//! [`registry::Registry`] of named conditions and actions.  Long-running
//! actions are bridged through a [`tracker::TaskTracker`], which makes sure
//! that an effect still in flight is polled rather than started again.

pub mod actor;
pub mod bt;
pub mod handlers;
pub mod key;
pub mod laws;
pub mod model;
pub mod registry;
pub mod rules;
pub mod status;
pub mod table;
pub mod tracker;
pub mod util;

pub use crate::status::NodeResult;
