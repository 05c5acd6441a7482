//! Settlement engine of a multi-round elimination lottery: participants stake a
//! fixed fee, predict a sequence of coin flips, and survivors share the pools.

pub mod rules;
pub mod state;
pub mod engine;
pub mod laws;
