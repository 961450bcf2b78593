//! What the simulation and its clients tell each other, as plain values.
//! Turning these into frames on a connection is left to the caller.

pub mod message;
pub mod region;
