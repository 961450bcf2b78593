//! The heading stage: a walking sheep turns toward the mean heading of the
//! sheep around it, with some noise; a running sheep turns with the running
//! sheep among its natural neighbors and keeps its distance from them.

use crate::component::{Entity, Heading, Position, SheepBehavior, SheepBehaviorState};
use crate::entity_rtree::{
    entries_bounded, entries_unit, first_of, natural_neighbors_of, EntityPosition, EntityRTree,
    NeighborFilter,
};
use crate::geometry::{
    dist2, distance_squared, int_sqrt, isqrt, lemma_component_within_distance,
    lemma_dist2_bounds, normalize, scale_toward_zero, trunc_div, unit_vector, Vec2, UNIT,
};
use crate::random::{Dice, HEADING_NOISE_MICRORAD};
use crate::store::{headings_unit, positions_bounded, MAX_ENTITIES};
use crate::system::sheep_behavior::{metric_neighbors, METRIC_INTERACTION_RANGE, NATURAL_NEIGHBORS};
use vstd::prelude::*;

verus! {

/// How strongly a running sheep aligns its heading with that of a running
/// neighbor.
pub const ALIGNMENT_MIMETIC_EFFECT: i64 = 4;

/// Strength of the force that pushes or pulls running sheep to the
/// equilibrium distance, in tenths.
pub const EQB_FORCE_STRENGTH_TENTHS: i64 = 8;

/// The distance at which running sheep neither attract nor repel each other,
/// in micrometres.
pub const EQB_DIST: i64 = 1_000_000;

/// A walking sheep keeps its heading where the sum of the headings around it
/// is no longer than this: a tenth of a unit vector.
pub const ALIGNMENT_THRESHOLD: i64 = 100_000;

/// The sum of the x components of the entries' headings.
pub open spec fn heading_sum_x(entries: Seq<EntityPosition>) -> int
    decreases entries.len(),
{
    if entries.len() == 0 {
        0
    } else {
        heading_sum_x(entries.drop_last()) + entries.last().heading.r.x
    }
}

/// The sum of the y components of the entries' headings.
pub open spec fn heading_sum_y(entries: Seq<EntityPosition>) -> int
    decreases entries.len(),
{
    if entries.len() == 0 {
        0
    } else {
        heading_sum_y(entries.drop_last()) + entries.last().heading.r.y
    }
}

/// The heading along `(sx, sy)` where that vector is longer than the
/// threshold, and `current` where it is not.
pub open spec fn aligned(current: Heading, sx: int, sy: int) -> Heading {
    if sx * sx + sy * sy > ALIGNMENT_THRESHOLD * ALIGNMENT_THRESHOLD {
        Heading { r: unit_vector(sx, sy) }
    } else {
        current
    }
}

/// The square of an angle of `a` microradians, in millionths.
pub open spec fn angle_square(a: int) -> int {
    a * a / 1_000_000
}

/// The cosine of an angle of `t` microradians, in millionths: the first four
/// terms of its power series, each rounded down.
pub open spec fn cos_micro(t: int) -> int {
    let t2 = angle_square(t);
    let t4 = t2 * t2 / 1_000_000;
    let t6 = t4 * t2 / 1_000_000;
    1_000_000 - t2 / 2 + t4 / 24 - t6 / 720
}

/// The sine of an angle of `a` microradians, for `a` not negative, in
/// millionths: the first four terms of its power series, each rounded down.
pub open spec fn sin_micro_abs(a: int) -> int {
    let t2 = angle_square(a);
    let t3 = a * t2 / 1_000_000;
    let t5 = t3 * t2 / 1_000_000;
    let t7 = t5 * t2 / 1_000_000;
    a - t3 / 6 + t5 / 120 - t7 / 5040
}

/// The sine of an angle of `t` microradians, in millionths.
pub open spec fn sin_micro(t: int) -> int {
    if t >= 0 {
        sin_micro_abs(t)
    } else {
        -sin_micro_abs(-t)
    }
}

/// The heading `h` turned by `t` microradians. The turned vector is scaled
/// back to unit length.
pub open spec fn turned(h: Heading, t: int) -> Heading {
    let x = h.r.x * cos_micro(t) - h.r.y * sin_micro(t);
    let y = h.r.x * sin_micro(t) + h.r.y * cos_micro(t);
    if x == 0 && y == 0 {
        h
    } else {
        Heading { r: unit_vector(x, y) }
    }
}

/// The heading of a walking sheep: aligned with the sheep within the metric
/// interaction range, itself among them, and turned by the noise.
pub open spec fn walking_heading_of(
    current: Heading,
    members: Seq<EntityPosition>,
    noise: int,
) -> Heading {
    turned(aligned(current, heading_sum_x(members), heading_sum_y(members)), noise)
}

/// The force between two running sheep that are `d` apart, in millionths:
/// it pulls them together beyond the equilibrium distance, by no more than
/// one, and pushes them apart within it.
pub open spec fn equilibrium_force_of(d: int) -> int {
    if d - EQB_DIST > EQB_DIST {
        EQB_DIST as int
    } else {
        d - EQB_DIST
    }
}

/// What one component of the way to a neighbor adds to the heading of a
/// running sheep: the neighbor's heading, weighted by the alignment effect,
/// and the unit vector toward the neighbor, weighted by the equilibrium
/// force and its strength. `h` is the component of the neighbor's heading,
/// `delta` that of the way to it and `d` the distance.
pub open spec fn contribution(h: int, delta: int, d: int) -> int {
    ALIGNMENT_MIMETIC_EFFECT * h + if d == 0 {
        0
    } else {
        trunc_div(
            EQB_FORCE_STRENGTH_TENTHS * equilibrium_force_of(d) * trunc_div(delta * UNIT, d),
            10 * UNIT,
        )
    }
}

/// The sum of the x components of what the neighbors add to the heading of
/// a running sheep at `p`.
pub open spec fn contribution_sum_x(neighbors: Seq<EntityPosition>, p: Vec2) -> int
    decreases neighbors.len(),
{
    if neighbors.len() == 0 {
        0
    } else {
        let e = neighbors.last();
        contribution_sum_x(neighbors.drop_last(), p) + contribution(
            e.heading.r.x as int,
            e.position.x - p.x,
            int_sqrt(dist2(e.position, p)),
        )
    }
}

/// The sum of the y components of what the neighbors add to the heading of
/// a running sheep at `p`.
pub open spec fn contribution_sum_y(neighbors: Seq<EntityPosition>, p: Vec2) -> int
    decreases neighbors.len(),
{
    if neighbors.len() == 0 {
        0
    } else {
        let e = neighbors.last();
        contribution_sum_y(neighbors.drop_last(), p) + contribution(
            e.heading.r.y as int,
            e.position.y - p.y,
            int_sqrt(dist2(e.position, p)),
        )
    }
}

/// The heading of a running sheep at `p`: along the sum of what its running
/// neighbors add, and unchanged where that sum is zero, as it is without
/// neighbors.
pub open spec fn running_heading_of(
    current: Heading,
    p: Vec2,
    neighbors: Seq<EntityPosition>,
) -> Heading {
    let x = contribution_sum_x(neighbors, p);
    let y = contribution_sum_y(neighbors, p);
    if x == 0 && y == 0 {
        current
    } else {
        Heading { r: unit_vector(x, y) }
    }
}

/// The running natural neighbors of the sheep `entity` at `pos`: the
/// nearest four, itself left out.
pub open spec fn running_neighbors_of(
    entries: Seq<EntityPosition>,
    entity: Entity,
    pos: Vec2,
) -> Seq<EntityPosition> {
    first_of(
        natural_neighbors_of(
            entries,
            pos,
            NeighborFilter { exclude: Some(entity), running_only: true },
        ),
        NATURAL_NEIGHBORS as int,
    )
}

/// `after` is a heading that the stage may give to a sheep of the given
/// behavior: the old one for a stationary sheep, the walking heading for
/// some noise within the limit for a walking sheep, and the running heading
/// for a running sheep.
pub open spec fn is_heading_update(
    behavior: SheepBehavior,
    before: Heading,
    after: Heading,
    entries: Seq<EntityPosition>,
    entity: Entity,
    pos: Vec2,
) -> bool {
    match behavior {
        SheepBehavior::Stationary { .. } => after == before,
        SheepBehavior::Walking => exists|noise: int|
            -HEADING_NOISE_MICRORAD <= noise <= HEADING_NOISE_MICRORAD && after
                == #[trigger] walking_heading_of(before, metric_neighbors(entries, pos), noise),
        SheepBehavior::Running => after == running_heading_of(
            before,
            pos,
            running_neighbors_of(entries, entity, pos),
        ),
    }
}

/// The heading that the stage gives to an entity is an update of its heading
/// where it carries a position, a behavior and a heading, and its old
/// heading otherwise.
pub open spec fn is_heading_update_at(
    position: Option<Position>,
    behavior: Option<SheepBehaviorState>,
    before: Option<Heading>,
    after: Option<Heading>,
    entries: Seq<EntityPosition>,
    entity: Entity,
) -> bool {
    if position.is_some() && behavior.is_some() && before.is_some() {
        after.is_some() && is_heading_update(
            behavior.unwrap().behavior,
            before.unwrap(),
            after.unwrap(),
            entries,
            entity,
            position.unwrap().v,
        )
    } else {
        after == before
    }
}

/// The cosine and the sine of a noise angle stay within narrow bounds.
pub proof fn lemma_noise_turn_bounds(t: int)
    requires
        -HEADING_NOISE_MICRORAD <= t <= HEADING_NOISE_MICRORAD,
    ensures
        900_000 <= cos_micro(t) <= 1_002_000,
        -500_000 <= sin_micro(t) <= 500_000,
{
    let a = if t >= 0 { t } else { -t };
    assert(a * a == t * t) by (nonlinear_arith)
        requires
            a == t || a == -t,
    ;
    lemma_power_terms(a);
}

/// The sizes of the powers of a noise angle.
proof fn lemma_power_terms(a: int)
    requires
        0 <= a <= HEADING_NOISE_MICRORAD,
    ensures
        0 <= angle_square(a) <= 166_628,
        0 <= angle_square(a) * angle_square(a) / 1_000_000 <= 27_765,
        0 <= (angle_square(a) * angle_square(a) / 1_000_000) * angle_square(a) / 1_000_000 <= 4_627,
        0 <= a * angle_square(a) / 1_000_000 <= 68_018,
        0 <= (a * angle_square(a) / 1_000_000) * angle_square(a) / 1_000_000 <= 11_334,
        0 <= ((a * angle_square(a) / 1_000_000) * angle_square(a) / 1_000_000) * angle_square(a)
            / 1_000_000 <= 1_889,
{
    let t2 = angle_square(a);
    assert(0 <= a * a <= 408_200 * 408_200) by (nonlinear_arith)
        requires
            0 <= a <= 408_200,
    ;
    assert(0 <= t2 <= 166_628);
    assert(0 <= t2 * t2 <= 166_628 * 166_628) by (nonlinear_arith)
        requires
            0 <= t2 <= 166_628,
    ;
    let t4 = t2 * t2 / 1_000_000;
    assert(0 <= t4 <= 27_765);
    assert(0 <= t4 * t2 <= 27_765 * 166_628) by (nonlinear_arith)
        requires
            0 <= t2 <= 166_628,
            0 <= t4 <= 27_765,
    ;
    assert(0 <= a * t2 <= 408_200 * 166_628) by (nonlinear_arith)
        requires
            0 <= t2 <= 166_628,
            0 <= a <= 408_200,
    ;
    let t3 = a * t2 / 1_000_000;
    assert(0 <= t3 <= 68_018);
    assert(0 <= t3 * t2 <= 68_018 * 166_628) by (nonlinear_arith)
        requires
            0 <= t2 <= 166_628,
            0 <= t3 <= 68_018,
    ;
    let t5 = t3 * t2 / 1_000_000;
    assert(0 <= t5 <= 11_334);
    assert(0 <= t5 * t2 <= 11_334 * 166_628) by (nonlinear_arith)
        requires
            0 <= t2 <= 166_628,
            0 <= t5 <= 11_334,
    ;
}

/// Force that pulls sheep together when they are further apart than the
/// equilibrium distance and pushes them apart when they are closer, in
/// millionths.
pub fn equilibrium_force(dist: u64) -> (f: i64)
    requires
        dist <= 4_000_000_000,
    ensures
        f == equilibrium_force_of(dist as int),
        -EQB_DIST <= f <= EQB_DIST,
{
    let f: i64 = (dist as i64) - EQB_DIST;
    if f > EQB_DIST {
        EQB_DIST
    } else {
        f
    }
}

/// The sums of the components of the entries' headings.
pub fn sum_headings(entries: &Vec<EntityPosition>) -> (sum: (i128, i128))
    requires
        entries_unit(entries@),
        entries@.len() <= MAX_ENTITIES,
    ensures
        sum.0 == heading_sum_x(entries@),
        sum.1 == heading_sum_y(entries@),
        -entries@.len() * UNIT <= sum.0 <= entries@.len() * UNIT,
        -entries@.len() * UNIT <= sum.1 <= entries@.len() * UNIT,
{
    let mut x: i128 = 0;
    let mut y: i128 = 0;
    let mut i: usize = 0;
    while i < entries.len()
        invariant
            0 <= i <= entries@.len(),
            entries@.len() <= MAX_ENTITIES,
            entries_unit(entries@),
            x == heading_sum_x(entries@.take(i as int)),
            y == heading_sum_y(entries@.take(i as int)),
            -i * UNIT <= x <= i * UNIT,
            -i * UNIT <= y <= i * UNIT,
        decreases entries@.len() - i,
    {
        proof {
            assert(entries@.take(i + 1).drop_last() =~= entries@.take(i as int));
            assert(entries@[i as int].heading.wf());
            assert((i + 1) * UNIT == i * UNIT + UNIT) by (nonlinear_arith);
            assert(0 <= i * UNIT <= 0xFFFF_FFFF * 1_000_000) by (nonlinear_arith)
                requires
                    0 <= i <= 0xFFFF_FFFF,
                    UNIT == 1_000_000,
            ;
        }
        x = x + entries[i].heading.r.x as i128;
        y = y + entries[i].heading.r.y as i128;
        i += 1;
    }
    proof {
        assert(entries@.take(entries@.len() as int) =~= entries@);
    }
    (x, y)
}

/// The cosine and the sine of a noise angle of `t` microradians, in
/// millionths.
pub fn noise_turn(t: i32) -> (cs: (i64, i64))
    requires
        -HEADING_NOISE_MICRORAD <= t <= HEADING_NOISE_MICRORAD,
    ensures
        cs.0 == cos_micro(t as int),
        cs.1 == sin_micro(t as int),
        900_000 <= cs.0 <= 1_002_000,
        -500_000 <= cs.1 <= 500_000,
{
    let a: i64 = if t >= 0 {
        t as i64
    } else {
        -(t as i64)
    };
    proof {
        lemma_power_terms(a as int);
        lemma_noise_turn_bounds(t as int);
        assert(a * a == t * t) by (nonlinear_arith)
            requires
                a == t || a == -t,
        ;
        assert(0 <= a * a <= 408_200 * 408_200) by (nonlinear_arith)
            requires
                0 <= a <= 408_200,
        ;
    }
    let t2: i64 = a * a / 1_000_000;
    assert(t2 == angle_square(a as int));
    assert(0 <= t2 * t2 <= 166_628 * 166_628) by (nonlinear_arith)
        requires
            0 <= t2 <= 166_628,
    ;
    let t4: i64 = t2 * t2 / 1_000_000;
    assert(0 <= t4 * t2 <= 27_765 * 166_628) by (nonlinear_arith)
        requires
            0 <= t2 <= 166_628,
            0 <= t4 <= 27_765,
    ;
    let t6: i64 = t4 * t2 / 1_000_000;
    let cos: i64 = 1_000_000 - t2 / 2 + t4 / 24 - t6 / 720;
    assert(0 <= a * t2 <= 408_200 * 166_628) by (nonlinear_arith)
        requires
            0 <= t2 <= 166_628,
            0 <= a <= 408_200,
    ;
    let t3: i64 = a * t2 / 1_000_000;
    assert(0 <= t3 * t2 <= 68_018 * 166_628) by (nonlinear_arith)
        requires
            0 <= t2 <= 166_628,
            0 <= t3 <= 68_018,
    ;
    let t5: i64 = t3 * t2 / 1_000_000;
    assert(0 <= t5 * t2 <= 11_334 * 166_628) by (nonlinear_arith)
        requires
            0 <= t2 <= 166_628,
            0 <= t5 <= 11_334,
    ;
    let t7: i64 = t5 * t2 / 1_000_000;
    let sin_abs: i64 = a - t3 / 6 + t5 / 120 - t7 / 5040;
    assert(sin_abs == sin_micro_abs(a as int));
    if t >= 0 {
        (cos, sin_abs)
    } else {
        (cos, -sin_abs)
    }
}

pub struct SheepHeadingSystem;

impl SheepHeadingSystem {
    /// The heading `h` turned by a noise angle of `t` microradians.
    pub fn turn(h: Heading, t: i32) -> (r: Heading)
        requires
            h.wf(),
            -HEADING_NOISE_MICRORAD <= t <= HEADING_NOISE_MICRORAD,
        ensures
            r == turned(h, t as int),
            r.wf(),
    {
        let cs = noise_turn(t);
        let c: i128 = cs.0 as i128;
        let s: i128 = cs.1 as i128;
        let hx: i128 = h.r.x as i128;
        let hy: i128 = h.r.y as i128;
        assert(-1_002_000_000_000 <= hx * c <= 1_002_000_000_000 && -1_002_000_000_000 <= hy * c
            <= 1_002_000_000_000 && -500_000_000_000 <= hx * s <= 500_000_000_000
            && -500_000_000_000 <= hy * s <= 500_000_000_000) by (nonlinear_arith)
            requires
                -1_000_000 <= hx <= 1_000_000,
                -1_000_000 <= hy <= 1_000_000,
                900_000 <= c <= 1_002_000,
                -500_000 <= s <= 500_000,
        ;
        let x: i128 = hx * c - hy * s;
        let y: i128 = hx * s + hy * c;
        match normalize(x, y) {
            Some(r) => Heading { r },
            None => h,
        }
    }

    /// The heading of a walking sheep among the given sheep, for the given
    /// noise.
    pub fn walking_heading(current: Heading, members: &Vec<EntityPosition>, noise: i32) -> (r:
        Heading)
        requires
            current.wf(),
            entries_unit(members@),
            members@.len() <= MAX_ENTITIES,
            -HEADING_NOISE_MICRORAD <= noise <= HEADING_NOISE_MICRORAD,
        ensures
            r == walking_heading_of(current, members@, noise as int),
            r.wf(),
    {
        let sum = sum_headings(members);
        let sx: i128 = sum.0;
        let sy: i128 = sum.1;
        assert(members@.len() * UNIT <= 0xFFFF_FFFF * 1_000_000) by (nonlinear_arith)
            requires
                members@.len() <= 0xFFFF_FFFF,
                UNIT == 1_000_000,
        ;
        assert(0 <= sx * sx <= 0x1_0000_0000_0000_0000 * 0x1_0000_0000_0000 && 0 <= sy * sy
            <= 0x1_0000_0000_0000_0000 * 0x1_0000_0000_0000) by (nonlinear_arith)
            requires
                -0xFFFF_FFFF * 1_000_000 <= sx <= 0xFFFF_FFFF * 1_000_000,
                -0xFFFF_FFFF * 1_000_000 <= sy <= 0xFFFF_FFFF * 1_000_000,
        ;
        assert(ALIGNMENT_THRESHOLD * ALIGNMENT_THRESHOLD == 10_000_000_000) by (nonlinear_arith)
            requires
                ALIGNMENT_THRESHOLD == 100_000,
        ;
        let threshold: i128 = (ALIGNMENT_THRESHOLD as i128) * (ALIGNMENT_THRESHOLD as i128);
        let length2: i128 = sx * sx + sy * sy;
        let without_noise: Heading = if length2 > threshold {
            match normalize(sx, sy) {
                Some(r) => Heading { r },
                None => current,
            }
        } else {
            current
        };
        Self::turn(without_noise, noise)
    }

    /// The heading of the walking sheep at `pos`: aligned with the sheep
    /// within the metric interaction range and turned by a noise that the
    /// dice decide.
    pub fn new_walking_heading(
        current: Heading,
        pos: Vec2,
        rtree: &EntityRTree,
        dice: &mut Dice,
    ) -> (r: Heading)
        requires
            current.wf(),
            pos.bounded(),
            rtree.wf(),
            entries_unit(rtree@),
            rtree@.len() <= MAX_ENTITIES,
        ensures
            r.wf(),
            exists|noise: int|
                -HEADING_NOISE_MICRORAD <= noise <= HEADING_NOISE_MICRORAD && r
                    == #[trigger] walking_heading_of(current, metric_neighbors(rtree@, pos), noise),
    {
        let members = rtree.lookup_in_circle(pos, METRIC_INTERACTION_RANGE);
        let noise: i32 = dice.heading_noise();
        let r = Self::walking_heading(current, &members, noise);
        assert(r == walking_heading_of(current, metric_neighbors(rtree@, pos), noise as int));
        r
    }

    /// What one component of the way to a neighbor adds to the heading of a
    /// running sheep.
    fn contribution(h: i64, delta: i64, d: u64) -> (c: i128)
        requires
            -UNIT <= h <= UNIT,
            -(d as int) <= delta <= d,
            d <= 4_000_000_000,
        ensures
            c == contribution(h as int, delta as int, d as int),
            -5_000_000 <= c <= 5_000_000,
    {
        let heading_component: i128 = (ALIGNMENT_MIMETIC_EFFECT as i128) * (h as i128);
        if d == 0 {
            return heading_component;
        }
        let toward: i128 = scale_toward_zero(delta as i128, UNIT as u64, d);
        proof {
            lemma_toward_bounds(delta as int, d as int);
        }
        let force: i128 = equilibrium_force(d) as i128;
        assert(-8_000_000_000_000 <= EQB_FORCE_STRENGTH_TENTHS * force * toward
            <= 8_000_000_000_000) by (nonlinear_arith)
            requires
                -1_000_000 <= force <= 1_000_000,
                -1_000_000 <= toward <= 1_000_000,
                EQB_FORCE_STRENGTH_TENTHS == 8,
        ;
        let weighted: i128 = (EQB_FORCE_STRENGTH_TENTHS as i128) * force * toward;
        let eqb_component: i128 = scale_toward_zero(weighted, 1, 10_000_000);
        proof {
            assert(weighted * 1 == weighted);
            lemma_trunc_div_bounds(weighted as int, 10_000_000, 800_000);
        }
        heading_component + eqb_component
    }

    /// The heading of a running sheep at `pos` with the given running
    /// neighbors.
    pub fn running_heading(current: Heading, pos: Vec2, neighbors: &Vec<EntityPosition>) -> (r:
        Heading)
        requires
            current.wf(),
            pos.bounded(),
            entries_bounded(neighbors@),
            entries_unit(neighbors@),
            neighbors@.len() <= MAX_ENTITIES,
        ensures
            r == running_heading_of(current, pos, neighbors@),
            r.wf(),
    {
        let mut x: i128 = 0;
        let mut y: i128 = 0;
        let mut i: usize = 0;
        while i < neighbors.len()
            invariant
                0 <= i <= neighbors@.len(),
                neighbors@.len() <= MAX_ENTITIES,
                pos.bounded(),
                entries_bounded(neighbors@),
                entries_unit(neighbors@),
                x == contribution_sum_x(neighbors@.take(i as int), pos),
                y == contribution_sum_y(neighbors@.take(i as int), pos),
                -i * 5_000_000 <= x <= i * 5_000_000,
                -i * 5_000_000 <= y <= i * 5_000_000,
            decreases neighbors@.len() - i,
        {
            let e = neighbors[i];
            proof {
                assert(neighbors@.take(i + 1).drop_last() =~= neighbors@.take(i as int));
                assert(neighbors@[i as int].heading.wf());
                assert(neighbors@[i as int].position.bounded());
                lemma_dist2_bounds(e.position, pos);
                lemma_component_within_distance(e.position, pos);
                assert((i + 1) * 5_000_000 == i * 5_000_000 + 5_000_000) by (nonlinear_arith);
                assert(0 <= i * 5_000_000 <= 0xFFFF_FFFF * 5_000_000) by (nonlinear_arith)
                    requires
                        0 <= i <= 0xFFFF_FFFF,
                ;
            }
            let d2: u64 = distance_squared(e.position, pos);
            let d: u64 = isqrt(d2 as u128);
            proof {
                assert(d <= 4_000_000_000) by (nonlinear_arith)
                    requires
                        d * d <= 8_000_000_000_000_000_000,
                        d >= 0,
                ;
            }
            x = x + Self::contribution(e.heading.r.x, e.position.x - pos.x, d);
            y = y + Self::contribution(e.heading.r.y, e.position.y - pos.y, d);
            i += 1;
        }
        proof {
            assert(neighbors@.take(neighbors@.len() as int) =~= neighbors@);
            assert(neighbors@.len() * 5_000_000 <= 0xFFFF_FFFF * 5_000_000) by (nonlinear_arith)
                requires
                    neighbors@.len() <= 0xFFFF_FFFF,
            ;
        }
        match normalize(x, y) {
            Some(r) => Heading { r },
            None => current,
        }
    }

    /// The heading of the running sheep `entity` at `pos`.
    pub fn new_running_heading(
        current: Heading,
        entity: Entity,
        pos: Vec2,
        rtree: &EntityRTree,
    ) -> (r: Heading)
        requires
            current.wf(),
            pos.bounded(),
            rtree.wf(),
            entries_unit(rtree@),
        ensures
            r == running_heading_of(current, pos, running_neighbors_of(rtree@, entity, pos)),
            r.wf(),
    {
        let running_natural_neighbors = rtree.natural_neighbors(
            pos,
            NeighborFilter::running_others(entity),
            NATURAL_NEIGHBORS,
        );
        Self::running_heading(current, pos, &running_natural_neighbors)
    }

    /// Updates the heading of every entity that carries a position, a
    /// behavior and a heading.
    pub fn run(
        rtree: &EntityRTree,
        generations: &Vec<u32>,
        positions: &Vec<Option<Position>>,
        behaviors: &Vec<Option<SheepBehaviorState>>,
        headings: &mut Vec<Option<Heading>>,
        dice: &mut Dice,
    )
        requires
            rtree.wf(),
            entries_unit(rtree@),
            rtree@.len() <= MAX_ENTITIES,
            generations@.len() <= MAX_ENTITIES,
            generations@.len() == old(headings)@.len(),
            positions@.len() == old(headings)@.len(),
            behaviors@.len() == old(headings)@.len(),
            positions_bounded(positions@),
            headings_unit(old(headings)@),
        ensures
            final(headings)@.len() == old(headings)@.len(),
            headings_unit(final(headings)@),
            forall|i: int|
                0 <= i < old(headings)@.len() ==> is_heading_update_at(
                    positions@[i],
                    behaviors@[i],
                    old(headings)@[i],
                    #[trigger] final(headings)@[i],
                    rtree@,
                    Entity { index: i as u32, generation: generations@[i] },
                ),
    {
        let n: usize = headings.len();
        let mut i: usize = 0;
        while i < n
            invariant
                0 <= i <= n,
                n == headings@.len(),
                n == old(headings)@.len(),
                n == generations@.len(),
                n == positions@.len(),
                n == behaviors@.len(),
                n <= MAX_ENTITIES,
                rtree.wf(),
                entries_unit(rtree@),
                rtree@.len() <= MAX_ENTITIES,
                positions_bounded(positions@),
                headings_unit(headings@),
                forall|k: int|
                    0 <= k < i ==> is_heading_update_at(
                        positions@[k],
                        behaviors@[k],
                        old(headings)@[k],
                        #[trigger] headings@[k],
                        rtree@,
                        Entity { index: k as u32, generation: generations@[k] },
                    ),
                forall|k: int| i <= k < n ==> #[trigger] headings@[k] == old(headings)@[k],
            decreases n - i,
        {
            match (positions[i], behaviors[i], headings[i]) {
                (Some(pos), Some(behavior), Some(heading)) => {
                    assert(positions@[i as int].is_some());
                    assert(headings@[i as int].is_some());
                    let entity = Entity { index: i as u32, generation: generations[i] };
                    let ghost before = headings@;
                    match behavior.behavior {
                        SheepBehavior::Stationary { .. } => {},
                        SheepBehavior::Walking => {
                            let r = Self::new_walking_heading(heading, pos.v, rtree, dice);
                            headings[i] = Some(r);
                        },
                        SheepBehavior::Running => {
                            let r = Self::new_running_heading(heading, entity, pos.v, rtree);
                            headings[i] = Some(r);
                        },
                    }
                    proof {
                        assert forall|k: int|
                            0 <= k < headings@.len() && (
                            #[trigger] headings@[k]).is_some() implies headings@[k].unwrap().wf() by {
                            if k != i {
                                assert(headings@[k] == before[k]);
                            }
                        }
                    }
                },
                _ => {},
            }
            i += 1;
        }
    }
}

/// The unit vector toward a neighbor has no component beyond a unit.
proof fn lemma_toward_bounds(delta: int, d: int)
    requires
        d > 0,
        -d <= delta <= d,
    ensures
        -UNIT <= trunc_div(delta * UNIT, d) <= UNIT,
{
    if delta >= 0 {
        assert(0 <= (delta * UNIT) / d <= UNIT) by (nonlinear_arith)
            requires
                0 <= delta <= d,
                d > 0,
                UNIT == 1_000_000,
        ;
        assert(delta * UNIT >= 0) by (nonlinear_arith)
            requires
                delta >= 0,
                UNIT == 1_000_000,
        ;
    } else {
        assert((-delta) * UNIT == -(delta * UNIT)) by (nonlinear_arith);
        assert(0 <= ((-delta) * UNIT) / d <= UNIT) by (nonlinear_arith)
            requires
                0 <= -delta <= d,
                d > 0,
                UNIT == 1_000_000,
        ;
        assert(delta * UNIT < 0) by (nonlinear_arith)
            requires
                delta < 0,
                UNIT == 1_000_000,
        ;
    }
}

/// A quotient that is rounded toward zero is no larger than the dividend
/// allows.
proof fn lemma_trunc_div_bounds(n: int, d: int, bound: int)
    requires
        d > 0,
        bound >= 0,
        -bound * d <= n <= bound * d,
    ensures
        -bound <= trunc_div(n, d) <= bound,
{
    if n >= 0 {
        assert(0 <= n / d <= bound) by (nonlinear_arith)
            requires
                0 <= n <= bound * d,
                d > 0,
        ;
    } else {
        assert((-bound) * d == -(bound * d)) by (nonlinear_arith);
        assert(0 <= (-n) / d <= bound) by (nonlinear_arith)
            requires
                0 <= -n <= bound * d,
                d > 0,
        ;
    }
}

} // verus!
