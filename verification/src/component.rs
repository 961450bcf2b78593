//! The components that an entity of the store may carry.

use crate::geometry::{is_unit, normalize, unit_vector, Vec2, NORM_LIMIT, UNIT};
use vstd::prelude::*;

verus! {

/// Identifier of an entity: a slot of the store and the generation of that
/// slot. A reused slot has a later generation, so a stale identifier differs
/// from the one that replaced it.
#[derive(Clone, Copy, Debug, PartialEq, Eq, Hash, Structural)]
pub struct Entity {
    pub index: u32,
    pub generation: u32,
}

/// Address of a remote peer: an IPv6 address (IPv4 addresses in their mapped
/// form) and a port.
#[derive(Clone, Copy, Debug, PartialEq, Eq, Hash, Structural)]
pub struct PeerAddr {
    pub ip: u128,
    pub port: u16,
}

/// A connected client's presence in the world.
#[derive(Clone, Copy, Debug, PartialEq, Eq, Structural)]
pub struct Socket {
    pub addr: PeerAddr,
}

impl Socket {
    pub fn new(addr: PeerAddr) -> (s: Socket)
        ensures
            s.addr == addr,
    {
        Socket { addr }
    }
}

/// Position in micrometres.
#[derive(Clone, Copy, Debug, PartialEq, Eq, Structural)]
pub struct Position {
    pub v: Vec2,
}

impl Position {
    pub fn new(x: i64, y: i64) -> (p: Position)
        ensures
            p.v == (Vec2 { x, y }),
    {
        Position { v: Vec2 { x, y } }
    }
}

/// Heading rotation, held as the unit vector into which it turns the x axis,
/// scaled by `UNIT`.
#[derive(Clone, Copy, Debug, PartialEq, Eq, Structural)]
pub struct Heading {
    pub r: Vec2,
}

impl Heading {
    /// The vector is of about unit length.
    pub open spec fn wf(self) -> bool {
        is_unit(self.r)
    }

    /// The heading along the x axis: the rotation by no angle.
    pub fn east() -> (h: Heading)
        ensures
            h.r == (Vec2 { x: UNIT, y: 0 }),
            h.wf(),
    {
        Heading { r: Vec2 { x: UNIT, y: 0 } }
    }

    /// The heading in the direction of `(x, y)`. There is none for the zero
    /// vector, nor for a component beyond `NORM_LIMIT`.
    pub fn new(x: i64, y: i64) -> (h: Option<Heading>)
        ensures
            h.is_some() <==> (x != 0 || y != 0) && -NORM_LIMIT <= x <= NORM_LIMIT && -NORM_LIMIT
                <= y <= NORM_LIMIT,
            h.is_some() ==> h.unwrap().r == unit_vector(x as int, y as int) && h.unwrap().wf(),
    {
        if x < -0x1000_0000_0000_0000 || x > 0x1000_0000_0000_0000 || y < -0x1000_0000_0000_0000
            || y > 0x1000_0000_0000_0000 {
            return None;
        }
        match normalize(x as i128, y as i128) {
            Some(r) => Some(Heading { r }),
            None => None,
        }
    }
}

/// Velocity in micrometres per second.
#[derive(Clone, Copy, Debug, PartialEq, Eq, Structural)]
pub struct Velocity {
    pub v: Vec2,
}

impl Velocity {
    pub fn new(x: i64, y: i64) -> (v: Velocity)
        ensures
            v.v == (Vec2 { x, y }),
    {
        Velocity { v: Vec2 { x, y } }
    }
}

/// Types of sheep behavior.
#[derive(Clone, Copy, Debug, PartialEq, Eq, Structural)]
pub enum SheepBehavior {
    /// The sheep stands still. The flag tells whether it was running until
    /// its latest change of behavior.
    Stationary { was_running_last_update: bool },
    Walking,
    Running,
}

/// Sheep behavior state: the behavior and the time left until it is next
/// put to the test.
#[derive(Clone, Copy, Debug, PartialEq, Eq, Structural)]
pub struct SheepBehaviorState {
    pub behavior: SheepBehavior,
    pub next_check_millis: u16,
}

/// Time between two tests of a sheep's behavior, in milliseconds.
pub const CHECK_PERIOD_MILLIS: u16 = 1000;

impl SheepBehaviorState {
    pub fn new(behavior: SheepBehavior) -> (s: SheepBehaviorState)
        ensures
            s.behavior == behavior,
            s.next_check_millis == CHECK_PERIOD_MILLIS,
    {
        SheepBehaviorState { behavior, next_check_millis: CHECK_PERIOD_MILLIS }
    }
}

} // verus!
