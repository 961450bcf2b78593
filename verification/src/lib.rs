//! A fixed-point flocking simulator core.
//!
//! Agents ("sheep") move on a bounded plane. Every quantity is an integer:
//! lengths are micrometres, headings are unit vectors scaled by one million,
//! speeds are micrometres per second and times are milliseconds. Each tick
//! runs a fixed sequence of stages over an entity store; their effects are
//! stated as contracts over mathematical models of the store.

pub mod command_queue;
pub mod component;
pub mod dense_grid;
pub mod entity_rtree;
pub mod frame;
pub mod geometry;
pub mod grid;
pub mod network;
pub mod random;
pub mod snapshot;
pub mod state;
pub mod store;
pub mod system;

