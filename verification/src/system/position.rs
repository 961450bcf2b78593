//! The position stage: a sheep moves by its velocity for the time that has
//! passed, unless that would take it out of the world.

use crate::component::{Position, Velocity};
use crate::frame::{DeltaFrame, FRAME_DURATION_MILLIS};
use crate::geometry::{trunc_div, Vec2, WORLD_SIZE};
use crate::store::{positions_bounded, positions_in_world};
use vstd::prelude::*;

verus! {

/// How far a sheep of speed `v` (micrometres per second) gets in `delta`
/// frames, in micrometres, rounded toward zero.
pub open spec fn displacement(v: int, delta: int) -> int {
    trunc_div(v * (delta * FRAME_DURATION_MILLIS as int), 1000)
}

/// Where the sheep would be after `delta` frames, if nothing stopped it.
pub open spec fn proposed_x(p: Position, v: Velocity, delta: u64) -> int {
    p.v.x + displacement(v.v.x as int, delta as int)
}

/// Where the sheep would be after `delta` frames, if nothing stopped it.
pub open spec fn proposed_y(p: Position, v: Velocity, delta: u64) -> int {
    p.v.y + displacement(v.v.y as int, delta as int)
}

/// The proposed position is taken if it lies strictly inside the world box,
/// and the sheep stays where it is otherwise.
pub open spec fn moved(p: Position, v: Velocity, delta: u64) -> Position {
    if 0 < proposed_x(p, v, delta) < WORLD_SIZE && 0 < proposed_y(p, v, delta) < WORLD_SIZE {
        Position { v: Vec2 { x: proposed_x(p, v, delta) as i64, y: proposed_y(p, v, delta) as i64 } }
    } else {
        p
    }
}

/// The position that the stage gives to an entity: the moved one where it
/// carries a position and a velocity, else the one it had.
pub open spec fn position_after(
    position: Option<Position>,
    velocity: Option<Velocity>,
    delta: u64,
) -> Option<Position> {
    if position.is_some() && velocity.is_some() {
        Some(moved(position.unwrap(), velocity.unwrap(), delta))
    } else {
        position
    }
}

/// A move keeps a sheep inside the world, and keeps it bounded.
pub proof fn lemma_moved_stays(p: Position, v: Velocity, delta: u64)
    ensures
        p.v.in_world() ==> moved(p, v, delta).v.in_world(),
        p.v.bounded() ==> moved(p, v, delta).v.bounded(),
        moved(p, v, delta) != p ==> moved(p, v, delta).v.in_world(),
        v.v == (Vec2 { x: 0, y: 0 }) && p.v.in_world() ==> moved(p, v, delta) == p,
{
    assert(0 * (delta * FRAME_DURATION_MILLIS as int) == 0) by (nonlinear_arith);
}

/// A displacement of this size or more takes every bounded sheep out of the
/// world.
pub const FAR: u128 = 4_000_000_000;

pub struct PositionSystem;

impl PositionSystem {
    /// The displacement of a sheep of speed `v` in `delta` frames where its
    /// magnitude is below `FAR`; `None` where it is not.
    fn displacement_within(v: i64, delta: u64) -> (d: Option<i64>)
        ensures
            match d {
                Some(d) => d == displacement(v as int, delta as int) && -FAR < d < FAR,
                None => displacement(v as int, delta as int) <= -FAR || displacement(
                    v as int,
                    delta as int,
                ) >= FAR,
            },
    {
        assert(FRAME_DURATION_MILLIS == 16);
        let frame: u128 = FRAME_DURATION_MILLIS as u128;
        assert((delta as u128) * frame == delta * 16);
        let millis: u128 = (delta as u128) * frame;
        let mag: u128 = if v >= 0 {
            v as u128
        } else {
            (-(v as i128)) as u128
        };
        let ghost vi = v as int;
        let ghost mi = delta as int * FRAME_DURATION_MILLIS as int;
        proof {
            if v >= 0 {
                assert(vi * mi >= 0) by (nonlinear_arith)
                    requires
                        vi >= 0,
                        mi >= 0,
                ;
            } else {
                assert((-vi) * mi == -(vi * mi)) by (nonlinear_arith);
                assert((-vi) * mi >= 0) by (nonlinear_arith)
                    requires
                        vi < 0,
                        mi >= 0,
                ;
            }
        }
        if mag == 0 {
            assert(vi * mi == 0) by (nonlinear_arith)
                requires
                    vi == 0,
            ;
            return Some(0);
        }
        if millis >= 1000 * FAR {
            // Even the slowest sheep gets too far in so long a time.
            proof {
                assert(mag * mi >= 1000 * FAR) by (nonlinear_arith)
                    requires
                        mag >= 1,
                        mi >= 1000 * FAR,
                ;
                assert((mag * mi) / 1000 >= FAR);
            }
            return None;
        }
        assert(mag * millis <= 0x8000_0000_0000_0000 * 4_000_000_000_000) by (nonlinear_arith)
            requires
                0 <= mag <= 0x8000_0000_0000_0000,
                0 <= millis <= 4_000_000_000_000,
        ;
        let path: u128 = mag * millis;
        let reach: u128 = path / 1000;
        if reach >= FAR {
            None
        } else if v >= 0 {
            Some(reach as i64)
        } else {
            assert(vi * mi == -(path as int));
            Some(-(reach as i64))
        }
    }

    /// Where a sheep at `p` with velocity `v` is after `delta` frames.
    pub fn step(p: Position, v: Velocity, delta: u64) -> (r: Position)
        requires
            p.v.bounded(),
        ensures
            r == moved(p, v, delta),
            r.v.bounded(),
            p.v.in_world() ==> r.v.in_world(),
    {
        proof {
            lemma_moved_stays(p, v, delta);
        }
        match (Self::displacement_within(v.v.x, delta), Self::displacement_within(v.v.y, delta)) {
            (Some(dx), Some(dy)) => {
                let x: i64 = p.v.x + dx;
                let y: i64 = p.v.y + dy;
                if x > 0 && x < WORLD_SIZE && y > 0 && y < WORLD_SIZE {
                    Position { v: Vec2 { x, y } }
                } else {
                    p
                }
            },
            _ => p,
        }
    }

    /// Moves every entity that carries a position and a velocity.
    pub fn run(
        delta: &DeltaFrame,
        velocities: &Vec<Option<Velocity>>,
        positions: &mut Vec<Option<Position>>,
    )
        requires
            velocities@.len() == old(positions)@.len(),
            positions_bounded(old(positions)@),
        ensures
            final(positions)@.len() == old(positions)@.len(),
            forall|i: int|
                0 <= i < old(positions)@.len() ==> #[trigger] final(positions)@[i]
                    == position_after(old(positions)@[i], velocities@[i], delta.delta),
            forall|i: int|
                0 <= i < old(positions)@.len() ==> ((#[trigger] final(positions)@[i]).is_some()
                    <==> old(positions)@[i].is_some()),
            positions_bounded(final(positions)@),
            positions_in_world(old(positions)@) ==> positions_in_world(final(positions)@),
    {
        let n: usize = positions.len();
        let mut i: usize = 0;
        while i < n
            invariant
                0 <= i <= n,
                n == positions@.len(),
                n == old(positions)@.len(),
                velocities@.len() == n,
                positions_bounded(old(positions)@),
                forall|k: int|
                    0 <= k < i ==> #[trigger] positions@[k] == position_after(
                        old(positions)@[k],
                        velocities@[k],
                        delta.delta,
                    ),
                forall|k: int| i <= k < n ==> #[trigger] positions@[k] == old(positions)@[k],
            decreases n - i,
        {
            match (positions[i], velocities[i]) {
                (Some(p), Some(v)) => {
                    assert(old(positions)@[i as int].is_some());
                    positions[i] = Some(Self::step(p, v, delta.delta));
                },
                _ => {},
            }
            i += 1;
        }
        proof {
            assert forall|k: int| 0 <= k < n && (#[trigger] positions@[k]).is_some() implies old(positions)@[k].is_some() && positions@[k].unwrap().v.bounded() && (old(positions)@[k].unwrap().v.in_world() ==> positions@[k].unwrap().v.in_world()) by {
                assert(positions@[k] == position_after(
                    old(positions)@[k],
                    velocities@[k],
                    delta.delta,
                ));
                assert(old(positions)@[k].is_some());
                if velocities@[k].is_some() {
                    lemma_moved_stays(
                        old(positions)@[k].unwrap(),
                        velocities@[k].unwrap(),
                        delta.delta,
                    );
                }
            }
        }
    }
}

} // verus!
