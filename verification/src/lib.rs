//! A session supervisor: brings up a fixed set of long-running service
//! processes in dependency order, watches them, and tears the session down
//! deterministically in reverse launch order.
//!
//! The crate holds the supervisor's decision logic only.  Spawning, waiting
//! and signalling are performed by a driver outside the crate, which asks
//! [`supervisor::Session::next_action`] what to do, does it, and reports the
//! outcome back through [`supervisor::Session::apply`].

pub mod config;
pub mod descriptor;
pub mod laws;
pub mod logging;
pub mod model;
pub mod order;
pub mod supervisor;
