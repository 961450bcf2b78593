//! Summaries of the sheep of one cell of a grid.

use crate::geometry::Vec2;
use vstd::prelude::*;

verus! {

/// Snapshot of information about all sheep in a cell.
#[derive(Clone, Copy, Debug)]
pub struct AnySheepSnapshot {
    /// The sum of heading vectors for all sheep in the cell.
    pub heading_sum: Vec2,
}

impl Default for AnySheepSnapshot {
    fn default() -> (s: AnySheepSnapshot)
        ensures
            s.heading_sum == (Vec2 { x: 0, y: 0 }),
    {
        AnySheepSnapshot { heading_sum: Vec2 { x: 0, y: 0 } }
    }
}

/// Snapshot of information about stationary sheep in a cell.
#[derive(Clone, Copy, Debug)]
pub struct StationarySheepSnapshot {
    /// The number of stationary sheep in the cell.
    pub count: u16,
}

impl Default for StationarySheepSnapshot {
    fn default() -> (s: StationarySheepSnapshot)
        ensures
            s.count == 0,
    {
        StationarySheepSnapshot { count: 0 }
    }
}

/// Snapshot of information about walking sheep in a cell.
#[derive(Clone, Copy, Debug)]
pub struct WalkingSheepSnapshot {
    /// The number of walking sheep in the cell.
    pub count: u16,
}

impl Default for WalkingSheepSnapshot {
    fn default() -> (s: WalkingSheepSnapshot)
        ensures
            s.count == 0,
    {
        WalkingSheepSnapshot { count: 0 }
    }
}

/// Snapshot of information about running sheep in a cell.
#[derive(Clone, Copy, Debug)]
pub struct RunningSheepSnapshot {
    /// The number of running sheep in the cell.
    pub count: u16,
    /// The sum of heading vectors for all running sheep in the cell.
    pub heading_sum: Vec2,
}

impl Default for RunningSheepSnapshot {
    fn default() -> (s: RunningSheepSnapshot)
        ensures
            s.count == 0,
            s.heading_sum == (Vec2 { x: 0, y: 0 }),
    {
        RunningSheepSnapshot { count: 0, heading_sum: Vec2 { x: 0, y: 0 } }
    }
}

/// Snapshot of information about sheep in the cell that transitioned from
/// running to stationary on their last behavior update.
#[derive(Clone, Copy, Debug)]
pub struct RunningToStationarySheepSnapshot {
    /// The number of sheep in the cell that transitioned from running to
    /// stationary on their last behavior update.
    pub count: u16,
}

impl Default for RunningToStationarySheepSnapshot {
    fn default() -> (s: RunningToStationarySheepSnapshot)
        ensures
            s.count == 0,
    {
        RunningToStationarySheepSnapshot { count: 0 }
    }
}

} // verus!
