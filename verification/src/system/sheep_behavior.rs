//! The behavior stage: from time to time a sheep puts its behavior to the
//! test, and changes it with a chance that depends on the sheep around it.

use crate::component::{
    Entity, Position, SheepBehavior, SheepBehaviorState, CHECK_PERIOD_MILLIS,
};
use crate::entity_rtree::{
    circle_members, entries_bounded, first_of, natural_neighbors_of, EntityPosition, EntityRTree,
    NeighborFilter,
};
use crate::frame::{DeltaFrame, FRAME_DURATION_MILLIS};
use crate::geometry::{
    dist2, distance_squared, int_sqrt, is_int_sqrt, isqrt, lemma_dist2_bounds,
    lemma_int_sqrt_monotonic, Vec2,
};
use crate::random::{may_draw, Dice, PROBABILITY_ONE};
use crate::store::{positions_bounded, MAX_ENTITIES};
use vstd::prelude::*;

verus! {

/// How much more likely a sheep is to take up a behavior for each nearby
/// sheep that shows it.
pub const BEHAVIOR_MIMETIC_EFFECT: u64 = 15;

/// The distance within which sheep that do not run influence each other's
/// behavior, in micrometres.
pub const METRIC_INTERACTION_RANGE: u64 = 1_000_000;

/// The length with which the mean distance of the natural neighbors is
/// compared when a sheep starts or stops running, in micrometres.
pub const CHARACTERISTIC_LEN_SCALE: u64 = 36_000_000;

/// The number of natural neighbors that a sheep looks at.
pub const NATURAL_NEIGHBORS: usize = 4;

/// Seconds in which a lone stationary sheep starts to walk once, on average.
pub const STATIONARY_TO_WALKING_TIME: u64 = 35;

/// Seconds in which a lone walking sheep stops once, on average.
pub const WALKING_TO_STATIONARY_TIME: u64 = 8;

/// The kinds of behavior that are counted among the sheep nearby.
#[derive(Clone, Copy, Debug, PartialEq, Eq, Structural)]
pub enum BehaviorKind {
    /// Stationary, whatever went before.
    Stationary,
    Walking,
    Running,
    /// Stationary, and running until the latest change of behavior.
    StoppedRunning,
}

impl BehaviorKind {
    pub open spec fn holds_of(self, behavior: SheepBehavior) -> bool {
        match self {
            BehaviorKind::Stationary => behavior is Stationary,
            BehaviorKind::Walking => behavior == SheepBehavior::Walking,
            BehaviorKind::Running => behavior == SheepBehavior::Running,
            BehaviorKind::StoppedRunning => behavior == (SheepBehavior::Stationary {
                was_running_last_update: true,
            }),
        }
    }

    /// Whether the behavior is of this kind.
    pub fn matches(&self, behavior: SheepBehavior) -> (r: bool)
        ensures
            r == self.holds_of(behavior),
    {
        match (*self, behavior) {
            (BehaviorKind::Stationary, SheepBehavior::Stationary { .. }) => true,
            (BehaviorKind::Walking, SheepBehavior::Walking) => true,
            (BehaviorKind::Running, SheepBehavior::Running) => true,
            (
                BehaviorKind::StoppedRunning,
                SheepBehavior::Stationary { was_running_last_update },
            ) => was_running_last_update,
            _ => false,
        }
    }
}

/// The number of entries of the given kind of behavior, the entry of
/// `except` left out.
pub open spec fn count_of(entries: Seq<EntityPosition>, kind: BehaviorKind, except: Entity) -> nat
    decreases entries.len(),
{
    if entries.len() == 0 {
        0
    } else {
        let last = entries.last();
        let one: nat = if last.entity != except && kind.holds_of(last.behavior.behavior) {
            1
        } else {
            0
        };
        count_of(entries.drop_last(), kind, except) + one
    }
}

/// The sum of the distances of the entries from `p`, each rounded down to a
/// whole micrometre.
pub open spec fn distance_sum(entries: Seq<EntityPosition>, p: Vec2) -> nat
    decreases entries.len(),
{
    if entries.len() == 0 {
        0
    } else {
        distance_sum(entries.drop_last(), p) + int_sqrt(dist2(entries.last().position, p)) as nat
    }
}

/// The number of entries of the given kind of behavior, the entry of
/// `except` left out.
pub fn count_kind(entries: &Vec<EntityPosition>, kind: BehaviorKind, except: Entity) -> (n: usize)
    ensures
        n == count_of(entries@, kind, except),
        n <= entries@.len(),
{
    let mut n: usize = 0;
    let mut i: usize = 0;
    while i < entries.len()
        invariant
            0 <= i <= entries@.len(),
            n <= i,
            n == count_of(entries@.take(i as int), kind, except),
        decreases entries@.len() - i,
    {
        proof {
            assert(entries@.take(i + 1).drop_last() =~= entries@.take(i as int));
        }
        let e = entries[i];
        if e.entity != except && kind.matches(e.behavior.behavior) {
            n += 1;
        }
        i += 1;
    }
    proof {
        assert(entries@.take(entries@.len() as int) =~= entries@);
    }
    n
}

/// No bounded points are farther apart than this, in micrometres.
pub const MAX_DISTANCE: u64 = 3_000_000_000;

/// The sum of the distances of the entries from `p`.
pub fn sum_distances(entries: &Vec<EntityPosition>, p: Vec2) -> (sum: u128)
    requires
        entries_bounded(entries@),
        p.bounded(),
    ensures
        sum == distance_sum(entries@, p),
        sum <= entries@.len() * MAX_DISTANCE,
{
    let mut sum: u128 = 0;
    let mut i: usize = 0;
    while i < entries.len()
        invariant
            0 <= i <= entries@.len(),
            entries_bounded(entries@),
            p.bounded(),
            sum == distance_sum(entries@.take(i as int), p),
            sum <= i * MAX_DISTANCE,
        decreases entries@.len() - i,
    {
        proof {
            assert(entries@.take(i + 1).drop_last() =~= entries@.take(i as int));
            assert(entries@[i as int].position.bounded());
            lemma_dist2_bounds(entries@[i as int].position, p);
        }
        let d2: u64 = distance_squared(entries[i].position, p);
        let d: u64 = isqrt(d2 as u128);
        proof {
            assert(is_int_sqrt(9_000_000_000_000_000_000, 3_000_000_000)) by (nonlinear_arith);
            lemma_int_sqrt_monotonic(d2 as int, d as int, 9_000_000_000_000_000_000, 3_000_000_000);
            assert((i + 1) * MAX_DISTANCE == i * MAX_DISTANCE + MAX_DISTANCE) by (nonlinear_arith);
            assert(i * MAX_DISTANCE <= 0xFFFF_FFFF_FFFF_FFFF * 3_000_000_000) by (nonlinear_arith)
                requires
                    0 <= i <= 0xFFFF_FFFF_FFFF_FFFF,
                    MAX_DISTANCE == 3_000_000_000,
            ;
        }
        sum = sum + d as u128;
        i += 1;
    }
    proof {
        assert(entries@.take(entries@.len() as int) =~= entries@);
    }
    sum
}

/// The smaller of two numbers.
pub open spec fn min_int(a: int, b: int) -> int {
    if a <= b {
        a
    } else {
        b
    }
}

/// The chance `(1 + effect * count) / time`, in parts of `PROBABILITY_ONE`
/// and at most that.
pub open spec fn mimetic_parts(count: int, time: int) -> int {
    min_int(
        PROBABILITY_ONE as int,
        (1 + BEHAVIOR_MIMETIC_EFFECT * count) * PROBABILITY_ONE / time,
    )
}

/// The chance `((a / b) to the fourth power) / 25`, in parts of
/// `PROBABILITY_ONE` and at most that. The quotient of `a` and `b` is taken
/// to 16 binary places.
pub open spec fn fourth_power_parts(a: int, b: int) -> int {
    let r = (a * 0x1_0000) / b;
    min_int(PROBABILITY_ONE as int, (r * r) * (r * r) / 27_487_790_694_400int)
}

/// The chance that a sheep starts to run: `(1 / 25) ((mean / L) (1 + effect
/// * running)) ^ 4`, where `mean` is the mean distance of its `count` natural
/// neighbors, `running` how many of them run, and `L` the characteristic
/// length. A sheep without neighbors has no such chance.
pub open spec fn run_parts(sum: int, count: int, running: int) -> int {
    if count == 0 {
        0
    } else {
        fourth_power_parts(
            sum * (1 + BEHAVIOR_MIMETIC_EFFECT * running),
            count * CHARACTERISTIC_LEN_SCALE,
        )
    }
}

/// The chance that a running sheep stops: `(1 / 25) ((L / mean) (1 + effect
/// * stopped)) ^ 4`, where `stopped` is how many of its natural neighbors
/// have just stopped running. A sheep without neighbors has no such chance,
/// and one whose neighbors are all where it is stops for certain.
pub open spec fn stop_running_parts(sum: int, count: int, stopped: int) -> int {
    if count == 0 {
        0
    } else if sum == 0 {
        PROBABILITY_ONE as int
    } else {
        fourth_power_parts(
            count * CHARACTERISTIC_LEN_SCALE * (1 + BEHAVIOR_MIMETIC_EFFECT * stopped),
            sum,
        )
    }
}

/// The chance `(1 + effect * count) / time`.
pub fn mimetic_chance(count: usize, time: u64) -> (parts: u32)
    requires
        0 < time <= 1000,
    ensures
        parts == mimetic_parts(count as int, time as int),
        0 < parts <= PROBABILITY_ONE,
{
    assert(0 <= BEHAVIOR_MIMETIC_EFFECT * count <= 15 * 0xFFFF_FFFF_FFFF_FFFF) by (nonlinear_arith)
        requires
            0 <= count <= 0xFFFF_FFFF_FFFF_FFFF,
            BEHAVIOR_MIMETIC_EFFECT == 15,
    ;
    let weight: u128 = 1 + (BEHAVIOR_MIMETIC_EFFECT as u128) * (count as u128);
    let one: u128 = PROBABILITY_ONE as u128;
    if weight >= time as u128 {
        assert(weight * one / (time as int) >= one) by (nonlinear_arith)
            requires
                weight >= time,
                time > 0,
                one >= 0,
        ;
        PROBABILITY_ONE
    } else {
        assert(weight * one < time * one) by (nonlinear_arith)
            requires
                weight < time,
                one > 0,
        ;
        assert(weight * one <= 1000 * one) by (nonlinear_arith)
            requires
                weight < time,
                time <= 1000,
                one > 0,
        ;
        let parts: u128 = weight * one / (time as u128);
        assert(parts < one) by (nonlinear_arith)
            requires
                parts == (weight * one) / (time as int),
                weight * one < time * one,
                time > 0,
        ;
        assert(parts > 0) by (nonlinear_arith)
            requires
                parts == (weight * one) / (time as int),
                weight >= 1,
                one == 0x100_0000,
                0 < time <= 1000,
        ;
        parts as u32
    }
}

/// The chance `((a / b) to the fourth power) / 25`.
pub fn fourth_power_chance(a: u128, b: u128) -> (parts: u32)
    requires
        b > 0,
        a <= 0xFFFF_FFFF_FFFF_FFFF_FFFF,
        b <= 0xFFFF_FFFF_FFFF_FFFF_FFFF,
    ensures
        parts == fourth_power_parts(a as int, b as int),
        parts <= PROBABILITY_ONE,
        a == 0 ==> parts == 0,
{
    let ghost r = (a * 0x1_0000) as int / (b as int);
    if a >= 3 * b {
        proof {
            assert(r >= 3 * 0x1_0000) by (nonlinear_arith)
                requires
                    r == (a * 0x1_0000) as int / (b as int),
                    a >= 3 * b,
                    b > 0,
            ;
            assert(r * r >= 9 * 0x1_0000_0000) by (nonlinear_arith)
                requires
                    r >= 3 * 0x1_0000,
            ;
            assert((r * r) * (r * r) >= 81 * 0x1_0000_0000_0000_0000) by (nonlinear_arith)
                requires
                    r * r >= 9 * 0x1_0000_0000,
            ;
            assert((r * r) * (r * r) / 27_487_790_694_400int >= 0x100_0000) by (nonlinear_arith)
                requires
                    (r * r) * (r * r) >= 81 * 0x1_0000_0000_0000_0000,
            ;
        }
        return PROBABILITY_ONE;
    }
    let ratio: u128 = a * 0x1_0000 / b;
    assert(ratio < 3 * 0x1_0000) by (nonlinear_arith)
        requires
            ratio == (a * 0x1_0000) / (b as int),
            a < 3 * b,
            b > 0,
    ;
    assert(ratio * ratio <= 9 * 0x1_0000_0000) by (nonlinear_arith)
        requires
            0 <= ratio <= 3 * 0x1_0000,
    ;
    let square: u128 = ratio * ratio;
    assert(square * square <= 81 * 0x1_0000_0000_0000_0000) by (nonlinear_arith)
        requires
            0 <= square <= 9 * 0x1_0000_0000,
    ;
    let fourth: u128 = square * square;
    let parts: u128 = fourth / (25 * 0x100_0000_0000);
    if a == 0 {
        assert(ratio == 0);
        assert(square == 0) by (nonlinear_arith)
            requires
                square == ratio * ratio,
                ratio == 0,
        ;
        assert(fourth == 0) by (nonlinear_arith)
            requires
                fourth == square * square,
                square == 0,
        ;
    }
    if parts >= PROBABILITY_ONE as u128 {
        PROBABILITY_ONE
    } else {
        parts as u32
    }
}

/// The chance that a sheep starts to run.
pub fn run_chance(sum: u128, count: usize, running: usize) -> (parts: u32)
    requires
        count <= NATURAL_NEIGHBORS,
        running <= count,
        sum <= count * MAX_DISTANCE,
    ensures
        parts == run_parts(sum as int, count as int, running as int),
        parts <= PROBABILITY_ONE,
        sum == 0 ==> parts == 0,
{
    if count == 0 {
        return 0;
    }
    assert(0 <= BEHAVIOR_MIMETIC_EFFECT * running <= 60 && count * CHARACTERISTIC_LEN_SCALE
        <= 144_000_000 && count * MAX_DISTANCE <= 12_000_000_000) by (nonlinear_arith)
        requires
            0 <= running <= count <= 4,
            BEHAVIOR_MIMETIC_EFFECT == 15,
            CHARACTERISTIC_LEN_SCALE == 36_000_000,
            MAX_DISTANCE == 3_000_000_000,
    ;
    let weight: u128 = 1 + (BEHAVIOR_MIMETIC_EFFECT as u128) * (running as u128);
    assert(sum * weight <= 12_000_000_000 * 61) by (nonlinear_arith)
        requires
            0 <= sum <= 12_000_000_000,
            0 <= weight <= 61,
    ;
    let a: u128 = sum * weight;
    let b: u128 = (count as u128) * (CHARACTERISTIC_LEN_SCALE as u128);
    assert(sum == 0 ==> a == 0) by (nonlinear_arith)
        requires
            a == sum * weight,
    ;
    fourth_power_chance(a, b)
}

/// The chance that a running sheep stops.
pub fn stop_running_chance(sum: u128, count: usize, stopped: usize) -> (parts: u32)
    requires
        count <= NATURAL_NEIGHBORS,
        stopped <= count,
        sum <= count * MAX_DISTANCE,
    ensures
        parts == stop_running_parts(sum as int, count as int, stopped as int),
        parts <= PROBABILITY_ONE,
{
    if count == 0 {
        return 0;
    }
    if sum == 0 {
        return PROBABILITY_ONE;
    }
    assert(0 <= BEHAVIOR_MIMETIC_EFFECT * stopped <= 60 && count * CHARACTERISTIC_LEN_SCALE
        <= 144_000_000 && count * MAX_DISTANCE <= 12_000_000_000) by (nonlinear_arith)
        requires
            0 <= stopped <= count <= 4,
            BEHAVIOR_MIMETIC_EFFECT == 15,
            CHARACTERISTIC_LEN_SCALE == 36_000_000,
            MAX_DISTANCE == 3_000_000_000,
    ;
    let weight: u128 = 1 + (BEHAVIOR_MIMETIC_EFFECT as u128) * (stopped as u128);
    let reach: u128 = (count as u128) * (CHARACTERISTIC_LEN_SCALE as u128);
    assert(reach * weight <= 144_000_000 * 61) by (nonlinear_arith)
        requires
            0 <= reach <= 144_000_000,
            0 <= weight <= 61,
    ;
    fourth_power_chance(reach * weight, sum)
}

/// The behavior that follows `current` when its test comes out as `first`
/// and, where the first draw missed, `second`.
///
/// A stationary or walking sheep starts to run on the first draw. Where it
/// does not, a stationary sheep starts to walk, and a walking sheep stops, on
/// the second draw. A running sheep stops on the first draw.
pub open spec fn transition(current: SheepBehavior, first: bool, second: bool) -> SheepBehavior {
    match current {
        SheepBehavior::Stationary { .. } => if first {
            SheepBehavior::Running
        } else if second {
            SheepBehavior::Walking
        } else {
            SheepBehavior::Stationary { was_running_last_update: false }
        },
        SheepBehavior::Walking => if first {
            SheepBehavior::Running
        } else if second {
            SheepBehavior::Stationary { was_running_last_update: false }
        } else {
            SheepBehavior::Walking
        },
        SheepBehavior::Running => if first {
            SheepBehavior::Stationary { was_running_last_update: true }
        } else {
            SheepBehavior::Running
        },
    }
}

/// The behavior that follows `current` when its test comes out as `first`
/// and `second`. A sheep that stops running is marked as having run; a sheep
/// that comes to stand, or goes on standing, otherwise is not.
pub fn next_behavior(current: SheepBehavior, first: bool, second: bool) -> (next: SheepBehavior)
    ensures
        next == transition(current, first, second),
        current == SheepBehavior::Running && next != current ==> next == (
        SheepBehavior::Stationary { was_running_last_update: true }),
        current != SheepBehavior::Running && next is Stationary ==> next == (
        SheepBehavior::Stationary { was_running_last_update: false }),
        next == (SheepBehavior::Stationary { was_running_last_update: true }) ==> current
            == SheepBehavior::Running,
{
    match current {
        SheepBehavior::Stationary { .. } => {
            if first {
                SheepBehavior::Running
            } else if second {
                SheepBehavior::Walking
            } else {
                SheepBehavior::Stationary { was_running_last_update: false }
            }
        },
        SheepBehavior::Walking => {
            if first {
                SheepBehavior::Running
            } else if second {
                SheepBehavior::Stationary { was_running_last_update: false }
            } else {
                SheepBehavior::Walking
            }
        },
        SheepBehavior::Running => {
            if first {
                SheepBehavior::Stationary { was_running_last_update: true }
            } else {
                SheepBehavior::Running
            }
        },
    }
}

/// The natural neighbors that the sheep `entity` at `pos` looks at: the
/// nearest four, itself left out.
pub open spec fn neighbors_of(
    entries: Seq<EntityPosition>,
    entity: Entity,
    pos: Vec2,
) -> Seq<EntityPosition> {
    first_of(
        natural_neighbors_of(
            entries,
            pos,
            NeighborFilter { exclude: Some(entity), running_only: false },
        ),
        NATURAL_NEIGHBORS as int,
    )
}

/// The sheep within the metric interaction range of `pos`.
pub open spec fn metric_neighbors(entries: Seq<EntityPosition>, pos: Vec2) -> Seq<EntityPosition> {
    circle_members(
        entries,
        pos.x as int,
        pos.y as int,
        EntityRTree::open_radius2(METRIC_INTERACTION_RANGE),
    )
}

/// The chance that the sheep starts to run.
pub open spec fn to_running_parts(entries: Seq<EntityPosition>, entity: Entity, pos: Vec2) -> int {
    let near = neighbors_of(entries, entity, pos);
    run_parts(
        distance_sum(near, pos) as int,
        near.len() as int,
        count_of(near, BehaviorKind::Running, entity) as int,
    )
}

/// The chance that the running sheep stops.
pub open spec fn running_to_stationary_parts(
    entries: Seq<EntityPosition>,
    entity: Entity,
    pos: Vec2,
) -> int {
    let near = neighbors_of(entries, entity, pos);
    stop_running_parts(
        distance_sum(near, pos) as int,
        near.len() as int,
        count_of(near, BehaviorKind::StoppedRunning, entity) as int,
    )
}

/// The chance that the stationary sheep starts to walk.
pub open spec fn stationary_to_walking_parts(
    entries: Seq<EntityPosition>,
    entity: Entity,
    pos: Vec2,
) -> int {
    mimetic_parts(
        count_of(metric_neighbors(entries, pos), BehaviorKind::Walking, entity) as int,
        STATIONARY_TO_WALKING_TIME as int,
    )
}

/// The chance that the walking sheep stops.
pub open spec fn walking_to_stationary_parts(
    entries: Seq<EntityPosition>,
    entity: Entity,
    pos: Vec2,
) -> int {
    mimetic_parts(
        count_of(metric_neighbors(entries, pos), BehaviorKind::Stationary, entity) as int,
        WALKING_TO_STATIONARY_TIME as int,
    )
}

/// The chance of the first draw of a sheep's test.
pub open spec fn first_parts(
    current: SheepBehavior,
    entries: Seq<EntityPosition>,
    entity: Entity,
    pos: Vec2,
) -> int {
    match current {
        SheepBehavior::Running => running_to_stationary_parts(entries, entity, pos),
        _ => to_running_parts(entries, entity, pos),
    }
}

/// The chance of the second draw of a sheep's test, which is made where the
/// first draw missed.
pub open spec fn second_parts(
    current: SheepBehavior,
    entries: Seq<EntityPosition>,
    entity: Entity,
    pos: Vec2,
) -> int {
    match current {
        SheepBehavior::Stationary { .. } => stationary_to_walking_parts(entries, entity, pos),
        SheepBehavior::Walking => walking_to_stationary_parts(entries, entity, pos),
        SheepBehavior::Running => 0,
    }
}

/// The test of the sheep's behavior is due after `delta` frames.
pub open spec fn test_due(state: SheepBehaviorState, delta: u64) -> bool {
    delta * FRAME_DURATION_MILLIS >= state.next_check_millis
}

/// `after` is a state that the stage may give to a sheep in the state
/// `before`. Where the test is not yet due, the time that has passed is
/// taken off the time until the test. Where it is due, the behavior changes
/// as some draws allow that the chances admit, and the next test is a whole
/// period away.
pub open spec fn is_update(
    before: SheepBehaviorState,
    after: SheepBehaviorState,
    delta: u64,
    entries: Seq<EntityPosition>,
    entity: Entity,
    pos: Vec2,
) -> bool {
    if test_due(before, delta) {
        &&& after.next_check_millis == CHECK_PERIOD_MILLIS
        &&& exists|first: bool, second: bool|
            {
                &&& #[trigger] transition(before.behavior, first, second) == after.behavior
                &&& may_draw(first_parts(before.behavior, entries, entity, pos) as u32, first)
                &&& !first ==> may_draw(
                    second_parts(before.behavior, entries, entity, pos) as u32,
                    second,
                )
            }
    } else {
        &&& after.behavior == before.behavior
        &&& after.next_check_millis == before.next_check_millis - delta * FRAME_DURATION_MILLIS
    }
}

/// The state that the stage gives to an entity is an update of its state
/// where it carries a position and a behavior, and its old state otherwise.
pub open spec fn is_update_at(
    position: Option<Position>,
    before: Option<SheepBehaviorState>,
    after: Option<SheepBehaviorState>,
    delta: u64,
    entries: Seq<EntityPosition>,
    entity: Entity,
) -> bool {
    if position.is_some() && before.is_some() {
        after.is_some() && is_update(
            before.unwrap(),
            after.unwrap(),
            delta,
            entries,
            entity,
            position.unwrap().v,
        )
    } else {
        after == before
    }
}

pub struct SheepBehaviorSystem;

impl SheepBehaviorSystem {
    /// The chance that the stationary sheep starts to walk.
    pub fn stationary_to_walking_chance(entity: Entity, pos: Vec2, rtree: &EntityRTree) -> (parts:
        u32)
        requires
            rtree.wf(),
            pos.bounded(),
        ensures
            parts == stationary_to_walking_parts(rtree@, entity, pos),
            0 < parts <= PROBABILITY_ONE,
    {
        let near = rtree.lookup_in_circle(pos, METRIC_INTERACTION_RANGE);
        let walking: usize = count_kind(&near, BehaviorKind::Walking, entity);
        mimetic_chance(walking, STATIONARY_TO_WALKING_TIME)
    }

    /// The chance that the walking sheep stops.
    pub fn walking_to_stationary_chance(entity: Entity, pos: Vec2, rtree: &EntityRTree) -> (parts:
        u32)
        requires
            rtree.wf(),
            pos.bounded(),
        ensures
            parts == walking_to_stationary_parts(rtree@, entity, pos),
            0 < parts <= PROBABILITY_ONE,
    {
        let near = rtree.lookup_in_circle(pos, METRIC_INTERACTION_RANGE);
        let stationary: usize = count_kind(&near, BehaviorKind::Stationary, entity);
        mimetic_chance(stationary, WALKING_TO_STATIONARY_TIME)
    }

    /// The chance that the sheep starts to run.
    pub fn to_running_chance(entity: Entity, pos: Vec2, rtree: &EntityRTree) -> (parts: u32)
        requires
            rtree.wf(),
            pos.bounded(),
        ensures
            parts == to_running_parts(rtree@, entity, pos),
            parts <= PROBABILITY_ONE,
    {
        let near = rtree.natural_neighbors(pos, NeighborFilter::others(entity), NATURAL_NEIGHBORS);
        let sum: u128 = sum_distances(&near, pos);
        let running: usize = count_kind(&near, BehaviorKind::Running, entity);
        run_chance(sum, near.len(), running)
    }

    /// The chance that the running sheep stops.
    pub fn running_to_stationary_chance(entity: Entity, pos: Vec2, rtree: &EntityRTree) -> (parts:
        u32)
        requires
            rtree.wf(),
            pos.bounded(),
        ensures
            parts == running_to_stationary_parts(rtree@, entity, pos),
            parts <= PROBABILITY_ONE,
    {
        let near = rtree.natural_neighbors(pos, NeighborFilter::others(entity), NATURAL_NEIGHBORS);
        let sum: u128 = sum_distances(&near, pos);
        let stopped: usize = count_kind(&near, BehaviorKind::StoppedRunning, entity);
        stop_running_chance(sum, near.len(), stopped)
    }

    /// Draws whether the stationary sheep starts to walk.
    pub fn is_stationary_to_walking(
        entity: Entity,
        pos: Vec2,
        rtree: &EntityRTree,
        dice: &mut Dice,
    ) -> (hit: bool)
        requires
            rtree.wf(),
            pos.bounded(),
        ensures
            may_draw(stationary_to_walking_parts(rtree@, entity, pos) as u32, hit),
    {
        let parts: u32 = Self::stationary_to_walking_chance(entity, pos, rtree);
        dice.chance(parts)
    }

    /// Draws whether the walking sheep stops.
    pub fn is_walking_to_stationary(
        entity: Entity,
        pos: Vec2,
        rtree: &EntityRTree,
        dice: &mut Dice,
    ) -> (hit: bool)
        requires
            rtree.wf(),
            pos.bounded(),
        ensures
            may_draw(walking_to_stationary_parts(rtree@, entity, pos) as u32, hit),
    {
        let parts: u32 = Self::walking_to_stationary_chance(entity, pos, rtree);
        dice.chance(parts)
    }

    /// Draws whether the sheep starts to run.
    pub fn is_to_running(entity: Entity, pos: Vec2, rtree: &EntityRTree, dice: &mut Dice) -> (hit:
        bool)
        requires
            rtree.wf(),
            pos.bounded(),
        ensures
            may_draw(to_running_parts(rtree@, entity, pos) as u32, hit),
    {
        let parts: u32 = Self::to_running_chance(entity, pos, rtree);
        dice.chance(parts)
    }

    /// Draws whether the running sheep stops.
    pub fn is_running_to_stationary(
        entity: Entity,
        pos: Vec2,
        rtree: &EntityRTree,
        dice: &mut Dice,
    ) -> (hit: bool)
        requires
            rtree.wf(),
            pos.bounded(),
        ensures
            may_draw(running_to_stationary_parts(rtree@, entity, pos) as u32, hit),
    {
        let parts: u32 = Self::running_to_stationary_chance(entity, pos, rtree);
        dice.chance(parts)
    }

    /// The state of the sheep `entity` at `pos` after `delta` frames.
    pub fn update(
        state: SheepBehaviorState,
        delta: u64,
        entity: Entity,
        pos: Vec2,
        rtree: &EntityRTree,
        dice: &mut Dice,
    ) -> (after: SheepBehaviorState)
        requires
            rtree.wf(),
            pos.bounded(),
        ensures
            is_update(state, after, delta, rtree@, entity, pos),
    {
        assert(FRAME_DURATION_MILLIS == 16);
        let frame: u128 = FRAME_DURATION_MILLIS as u128;
        assert((delta as u128) * frame == delta * FRAME_DURATION_MILLIS);
        let delta_millis: u128 = (delta as u128) * frame;
        if delta_millis >= state.next_check_millis as u128 {
            let first: bool = match state.behavior {
                SheepBehavior::Running => Self::is_running_to_stationary(entity, pos, rtree, dice),
                _ => Self::is_to_running(entity, pos, rtree, dice),
            };
            let second: bool = if first {
                false
            } else {
                match state.behavior {
                    SheepBehavior::Stationary { .. } => Self::is_stationary_to_walking(
                        entity,
                        pos,
                        rtree,
                        dice,
                    ),
                    SheepBehavior::Walking => Self::is_walking_to_stationary(
                        entity,
                        pos,
                        rtree,
                        dice,
                    ),
                    SheepBehavior::Running => false,
                }
            };
            let after = SheepBehaviorState {
                behavior: next_behavior(state.behavior, first, second),
                next_check_millis: CHECK_PERIOD_MILLIS,
            };
            assert(transition(state.behavior, first, second) == after.behavior);
            after
        } else {
            SheepBehaviorState {
                behavior: state.behavior,
                next_check_millis: state.next_check_millis - (delta_millis as u16),
            }
        }
    }

    /// Updates the behavior of every entity that carries a position and a
    /// behavior.
    pub fn run(
        delta: &DeltaFrame,
        rtree: &EntityRTree,
        generations: &Vec<u32>,
        positions: &Vec<Option<Position>>,
        behaviors: &mut Vec<Option<SheepBehaviorState>>,
        dice: &mut Dice,
    )
        requires
            rtree.wf(),
            generations@.len() <= MAX_ENTITIES,
            generations@.len() == old(behaviors)@.len(),
            positions@.len() == old(behaviors)@.len(),
            positions_bounded(positions@),
        ensures
            final(behaviors)@.len() == old(behaviors)@.len(),
            forall|i: int|
                0 <= i < old(behaviors)@.len() ==> is_update_at(
                    positions@[i],
                    old(behaviors)@[i],
                    #[trigger] final(behaviors)@[i],
                    delta.delta,
                    rtree@,
                    Entity { index: i as u32, generation: generations@[i] },
                ),
    {
        let n: usize = behaviors.len();
        let mut i: usize = 0;
        while i < n
            invariant
                0 <= i <= n,
                n == behaviors@.len(),
                n == old(behaviors)@.len(),
                n == generations@.len(),
                n == positions@.len(),
                n <= MAX_ENTITIES,
                rtree.wf(),
                positions_bounded(positions@),
                forall|k: int|
                    0 <= k < i ==> is_update_at(
                        positions@[k],
                        old(behaviors)@[k],
                        #[trigger] behaviors@[k],
                        delta.delta,
                        rtree@,
                        Entity { index: k as u32, generation: generations@[k] },
                    ),
                forall|k: int| i <= k < n ==> #[trigger] behaviors@[k] == old(behaviors)@[k],
            decreases n - i,
        {
            match (positions[i], behaviors[i]) {
                (Some(pos), Some(state)) => {
                    assert(positions@[i as int].is_some());
                    let entity = Entity { index: i as u32, generation: generations[i] };
                    let after = Self::update(state, delta.delta, entity, pos.v, rtree, dice);
                    behaviors[i] = Some(after);
                },
                _ => {},
            }
            i += 1;
        }
    }
}

/// A test of a sheep's behavior marks it as having run exactly where a
/// running sheep stops: whatever the draws, a sheep that leaves running
/// stands as one that ran, and a sheep that comes to stand, or goes on
/// standing, from another behavior stands as one that did not.
pub proof fn lemma_stopping_marks_runners(current: SheepBehavior, first: bool, second: bool)
    ensures
        current == SheepBehavior::Running && transition(current, first, second) != current
            ==> transition(current, first, second) == (SheepBehavior::Stationary {
            was_running_last_update: true,
        }),
        current != SheepBehavior::Running && transition(current, first, second) is Stationary
            ==> transition(current, first, second) == (SheepBehavior::Stationary {
            was_running_last_update: false,
        }),
{
}

} // verus!
