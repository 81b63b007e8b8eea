//! Measuring UDP loss, reordering and one-way latency between a
//! rate-controlled sender and a receiver.
pub mod codec;
pub mod config;
pub mod endpoint;
pub mod generator;
pub mod laws;
pub mod recorder;
pub mod tracker;
