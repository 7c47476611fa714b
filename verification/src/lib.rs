//! A deterministic discrete-event simulation kernel.
//!
//! Networks of stateful models exchange typed messages through ports wired
//! into a central scheduler.  The scheduler advances a virtual clock,
//! dispatching pending events in (due time, priority, insertion order) order,
//! so that replaying the same stimuli against the same initial models always
//! yields the same observable outputs.

pub mod event;
pub mod laws;
pub mod models;
pub mod msg;
pub mod sim;
