//! The velocity stage: a sheep's velocity follows from its behavior and its
//! heading.

use crate::component::{Heading, SheepBehavior, SheepBehaviorState, Velocity};
use crate::geometry::{scale_toward_zero, trunc_div, Vec2, UNIT};
use vstd::prelude::*;

verus! {

/// Speed of a walking sheep, in micrometres per second.
pub const SHEEP_WALKING_SPEED: u64 = 150_000;

/// Speed of a running sheep, in micrometres per second.
pub const SHEEP_RUNNING_SPEED: u64 = 1_500_000;

/// The speed that goes with a behavior.
pub open spec fn speed_of(behavior: SheepBehavior) -> int {
    match behavior {
        SheepBehavior::Stationary { .. } => 0,
        SheepBehavior::Walking => SHEEP_WALKING_SPEED as int,
        SheepBehavior::Running => SHEEP_RUNNING_SPEED as int,
    }
}

/// The velocity of a sheep: its heading applied to the vector of its speed
/// along the x axis, each component rounded toward zero.
pub open spec fn velocity_of(behavior: SheepBehavior, heading: Heading) -> Velocity {
    Velocity {
        v: Vec2 {
            x: trunc_div(heading.r.x * speed_of(behavior), UNIT as int) as i64,
            y: trunc_div(heading.r.y * speed_of(behavior), UNIT as int) as i64,
        },
    }
}

/// The velocity that the stage gives to an entity: that of its behavior and
/// heading where it carries both and a velocity, else the one it had.
pub open spec fn velocity_after(
    behavior: Option<SheepBehaviorState>,
    heading: Option<Heading>,
    velocity: Option<Velocity>,
) -> Option<Velocity> {
    if behavior.is_some() && heading.is_some() && velocity.is_some() {
        Some(velocity_of(behavior.unwrap().behavior, heading.unwrap()))
    } else {
        velocity
    }
}

/// A sheep with a unit heading stands still exactly if it is stationary.
pub proof fn lemma_velocity_zero_iff_stationary(behavior: SheepBehavior, heading: Heading)
    requires
        heading.wf(),
    ensures
        velocity_of(behavior, heading).v == (Vec2 { x: 0, y: 0 }) <==> behavior is Stationary,
        velocity_of(behavior, heading).v.x == trunc_div(
            heading.r.x * speed_of(behavior),
            UNIT as int,
        ),
        velocity_of(behavior, heading).v.y == trunc_div(
            heading.r.y * speed_of(behavior),
            UNIT as int,
        ),
        -speed_of(behavior) <= velocity_of(behavior, heading).v.x <= speed_of(behavior),
        -speed_of(behavior) <= velocity_of(behavior, heading).v.y <= speed_of(behavior),
{
    let s = speed_of(behavior);
    lemma_scaled_component(heading.r.x as int, s);
    lemma_scaled_component(heading.r.y as int, s);
}

/// A component of a unit vector, scaled by a speed: it stays within the
/// speed, and does not vanish where the component is half a unit or more and
/// the speed is that of a walk or a run.
proof fn lemma_scaled_component(c: int, s: int)
    requires
        -UNIT <= c <= UNIT,
        s == 0 || s == SHEEP_WALKING_SPEED || s == SHEEP_RUNNING_SPEED,
    ensures
        -s <= trunc_div(c * s, UNIT as int) <= s,
        s == 0 ==> trunc_div(c * s, UNIT as int) == 0,
        s != 0 && c >= UNIT / 2 ==> trunc_div(c * s, UNIT as int) > 0,
        s != 0 && c <= -UNIT / 2 ==> trunc_div(c * s, UNIT as int) < 0,
{
    if s == 0 {
        assert(c * s == 0) by (nonlinear_arith)
            requires
                s == 0,
        ;
    } else if c >= 0 {
        assert(0 <= c * s <= 1_000_000 * s) by (nonlinear_arith)
            requires
                0 <= c <= 1_000_000,
                s > 0,
        ;
        assert(c >= 500_000 ==> c * s >= 500_000 * s) by (nonlinear_arith)
            requires
                s > 0,
        ;
    } else {
        assert((-c) * s == -(c * s)) by (nonlinear_arith);
        assert(0 < (-c) * s <= 1_000_000 * s) by (nonlinear_arith)
            requires
                0 < -c <= 1_000_000,
                s > 0,
        ;
        assert(-c >= 500_000 ==> (-c) * s >= 500_000 * s) by (nonlinear_arith)
            requires
                s > 0,
        ;
    }
}

pub struct SheepVelocitySystem;

impl SheepVelocitySystem {
    /// The velocity of a sheep of the given behavior and heading. It is zero
    /// exactly if the sheep is stationary.
    pub fn velocity(behavior: SheepBehavior, heading: Heading) -> (v: Velocity)
        requires
            heading.wf(),
        ensures
            v == velocity_of(behavior, heading),
            v.v == (Vec2 { x: 0, y: 0 }) <==> behavior is Stationary,
    {
        proof {
            lemma_velocity_zero_iff_stationary(behavior, heading);
        }
        let speed: u64 = match behavior {
            SheepBehavior::Stationary { .. } => 0,
            SheepBehavior::Walking => SHEEP_WALKING_SPEED,
            SheepBehavior::Running => SHEEP_RUNNING_SPEED,
        };
        let x: i128 = scale_toward_zero(heading.r.x as i128, speed, UNIT as u64);
        let y: i128 = scale_toward_zero(heading.r.y as i128, speed, UNIT as u64);
        Velocity { v: Vec2 { x: x as i64, y: y as i64 } }
    }

    /// Gives every entity that carries a behavior, a heading and a velocity
    /// the velocity that its behavior and heading call for.
    pub fn run(
        behaviors: &Vec<Option<SheepBehaviorState>>,
        headings: &Vec<Option<Heading>>,
        velocities: &mut Vec<Option<Velocity>>,
    )
        requires
            behaviors@.len() == old(velocities)@.len(),
            headings@.len() == old(velocities)@.len(),
            crate::store::headings_unit(headings@),
        ensures
            final(velocities)@.len() == old(velocities)@.len(),
            forall|i: int|
                0 <= i < old(velocities)@.len() ==> #[trigger] final(velocities)@[i]
                    == velocity_after(behaviors@[i], headings@[i], old(velocities)@[i]),
            forall|i: int|
                0 <= i < old(velocities)@.len() && behaviors@[i].is_some() && headings@[i].is_some()
                    && old(velocities)@[i].is_some() ==> ((#[trigger] final(velocities)@[i]).unwrap().v == (Vec2 { x: 0, y: 0 })
                    <==> behaviors@[i].unwrap().behavior is Stationary),
    {
        let n: usize = velocities.len();
        let mut i: usize = 0;
        while i < n
            invariant
                0 <= i <= n,
                n == velocities@.len(),
                n == old(velocities)@.len(),
                behaviors@.len() == n,
                headings@.len() == n,
                crate::store::headings_unit(headings@),
                forall|k: int|
                    0 <= k < i ==> #[trigger] velocities@[k] == velocity_after(
                        behaviors@[k],
                        headings@[k],
                        old(velocities)@[k],
                    ),
                forall|k: int| i <= k < n ==> #[trigger] velocities@[k] == old(velocities)@[k],
            decreases n - i,
        {
            match (behaviors[i], headings[i], velocities[i]) {
                (Some(behavior), Some(heading), Some(_)) => {
                    assert(headings@[i as int].is_some());
                    velocities[i] = Some(Self::velocity(behavior.behavior, heading));
                },
                _ => {},
            }
            i += 1;
        }
        proof {
            assert forall|k: int|
                0 <= k < n && behaviors@[k].is_some() && headings@[k].is_some() && old(velocities)@[k].is_some() implies ((#[trigger] velocities@[k]).unwrap().v == (Vec2 {
                x: 0,
                y: 0,
            }) <==> behaviors@[k].unwrap().behavior is Stationary) by {
                assert(headings@[k].is_some());
                lemma_velocity_zero_iff_stationary(
                    behaviors@[k].unwrap().behavior,
                    headings@[k].unwrap(),
                );
            }
        }
    }
}

} // verus!
