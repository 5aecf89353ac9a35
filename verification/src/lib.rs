//! A discrete-time multi-server queueing simulator.
//!
//! Synthetic tasks arrive over simulated time, are dispatched to the
//! least-loaded server, wait in a FIFO queue, and are processed for a
//! randomized duration before completing. Simulated time is measured in
//! integer milliseconds; rates are fixed-point (thousandths per second).

pub mod display;
pub mod engine;
pub mod queue;
pub mod statistics;
