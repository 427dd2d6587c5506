//! A single-process, in-memory publish/subscribe bus.
//!
//! Producers publish byte payloads on named channels; subscribers receive
//! them through a single-slot mailbox owned by their handler.
//!
//! Every operation here is sequential; a program that shares a bus between
//! threads keeps it behind one lock, and wakes its waiting deliveries after
//! each publish and close.

pub mod client;
pub mod clip;
pub mod cmm;
pub mod context;
pub mod control;
pub mod data;
pub mod errs;
pub mod flags;
pub mod handler;
pub mod mailbox;
pub mod pubsub;
