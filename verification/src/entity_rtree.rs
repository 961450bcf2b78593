//! The spatial index over the sheep and its two queries: all entries within
//! a circle, and the natural neighbors of a point.
//!
//! The index is an R-tree of the `spade` crate. What is claimed of that crate,
//! and not proved here, is stated with each function that calls it.

use crate::component::{Entity, Heading, SheepBehavior, SheepBehaviorState};
use crate::geometry::{dist2, lemma_dist2_bounds, lemma_dist2_nonnegative, Vec2};
use vstd::prelude::*;

verus! {

/// An entry of the spatial index: a sheep, where it stands, and what the
/// stages that query the index read of it.
#[derive(Clone, Copy, Debug, PartialEq, Eq, Structural)]
pub struct EntityPosition {
    pub entity: Entity,
    pub position: Vec2,
    pub heading: Heading,
    pub behavior: SheepBehaviorState,
}

/// The point under which the R-tree files an entry: where the sheep stands.
impl spade::HasPosition for EntityPosition {
    type Point = [i64; 2];

    fn position(&self) -> (point: [i64; 2])
        ensures
            point@ == seq![self.position.x, self.position.y],
    {
        let point = [self.position.x, self.position.y];
        assert(point@ =~= seq![self.position.x, self.position.y]);
        point
    }
}

/// Every entry stands at a bounded point.
pub open spec fn entries_bounded(entries: Seq<EntityPosition>) -> bool {
    forall|i: int| 0 <= i < entries.len() ==> (#[trigger] entries[i]).position.bounded()
}

/// Every entry has a unit heading.
pub open spec fn entries_unit(entries: Seq<EntityPosition>) -> bool {
    forall|i: int| 0 <= i < entries.len() ==> (#[trigger] entries[i]).heading.wf()
}

/// `order` holds the entries of `entries`, each as often as `entries` does,
/// and none of them before one that is nearer to `q`.
pub open spec fn is_nearest_first(
    entries: Seq<EntityPosition>,
    q: Vec2,
    order: Seq<EntityPosition>,
) -> bool {
    &&& order.len() == entries.len()
    &&& forall|e: EntityPosition| #[trigger]
        order.to_multiset().count(e) == entries.to_multiset().count(e)
    &&& forall|i: int, j: int|
        0 <= i < j < order.len() ==> dist2(#[trigger] order[i].position, q) <= dist2(
            #[trigger] order[j].position,
            q,
        )
}

/// `found` holds the entries of `entries` that are nearer to `c` than the
/// square root of `radius2`, each as often as `entries` does, and no other.
pub open spec fn is_within_circle(
    entries: Seq<EntityPosition>,
    c: Vec2,
    radius2: int,
    found: Seq<EntityPosition>,
) -> bool {
    forall|e: EntityPosition| #[trigger]
        found.to_multiset().count(e) == if dist2(e.position, c) < radius2 {
            entries.to_multiset().count(e)
        } else {
            0
        }
}

/// The R-tree of the sheep, an `RTree` of `spade`.
#[verifier::external_body]
pub struct EntityRTree {
    tree: spade::rtree::RTree<EntityPosition>,
}

/// A walk through the entries of an `EntityRTree` from the nearest to the
/// farthest, a `NearestNeighborIterator` of `spade`.
#[verifier::external_body]
pub struct NearestCursor<'a> {
    inner: spade::rtree::NearestNeighborIterator<'a, EntityPosition>,
}

/// The entries that a tree holds, in the order in which it was given them.
pub uninterp spec fn tree_entries(tree: EntityRTree) -> Seq<EntityPosition>;

/// The entries that a cursor has yet to yield, in the order in which it will.
pub uninterp spec fn cursor_rest(cursor: NearestCursor<'_>) -> Seq<EntityPosition>;

/// The order in which `RTree::nearest_neighbor_iterator` yields the entries
/// of a tree that was loaded with `entries`, for the query point `(qx, qy)`.
pub uninterp spec fn nearest_order(entries: Seq<EntityPosition>, qx: int, qy: int) -> Seq<
    EntityPosition,
>;

/// What `RTree::lookup_in_circle` returns on a tree that was loaded with
/// `entries`, for the center `(cx, cy)` and the squared radius `radius2`.
pub uninterp spec fn circle_members(
    entries: Seq<EntityPosition>,
    cx: int,
    cy: int,
    radius2: int,
) -> Seq<EntityPosition>;

/// `RTree::bulk_load`: the tree that holds exactly the given entries. The
/// entries must stand at bounded points, so that the tree's arithmetic on
/// coordinates stays within 64 bits.
#[verifier::external_body]
fn tree_bulk_load(entries: Vec<EntityPosition>) -> (tree: EntityRTree)
    requires
        entries_bounded(entries@),
    ensures
        tree_entries(tree) == entries@,
{
    EntityRTree { tree: spade::rtree::RTree::bulk_load(entries) }
}

/// `RTree::nearest_neighbor_iterator`: a cursor that will yield every entry
/// of the tree once, nearest to `q` first; entries at the same distance come
/// in an order that the tree decides.
#[verifier::external_body]
fn tree_nearest<'a>(tree: &'a EntityRTree, q: Vec2) -> (cursor: NearestCursor<'a>)
    requires
        entries_bounded(tree_entries(*tree)),
        q.bounded(),
    ensures
        cursor_rest(cursor) == nearest_order(tree_entries(*tree), q.x as int, q.y as int),
        is_nearest_first(tree_entries(*tree), q, cursor_rest(cursor)),
{
    NearestCursor { inner: tree.tree.nearest_neighbor_iterator(&[q.x, q.y]) }
}

/// `NearestNeighborIterator::next`: the first entry that the cursor has yet
/// to yield, which it then has yielded; `None`, and no change, when none is
/// left.
#[verifier::external_body]
fn cursor_next(cursor: &mut NearestCursor<'_>) -> (next: Option<EntityPosition>)
    ensures
        match next {
            Some(e) => cursor_rest(*old(cursor)).len() > 0 && e == cursor_rest(*old(cursor))[0]
                && cursor_rest(*final(cursor)) == cursor_rest(*old(cursor)).skip(1),
            None => cursor_rest(*old(cursor)).len() == 0 && cursor_rest(*final(cursor))
                == cursor_rest(*old(cursor)),
        },
{
    cursor.inner.next().copied()
}

/// `RTree::lookup_in_circle`: the entries whose squared distance from `c` is
/// less than `radius2`, in an order that the tree decides.
#[verifier::external_body]
fn tree_lookup_in_circle(tree: &EntityRTree, c: Vec2, radius2: i64) -> (found: Vec<EntityPosition>)
    requires
        entries_bounded(tree_entries(*tree)),
        c.bounded(),
    ensures
        found@ == circle_members(tree_entries(*tree), c.x as int, c.y as int, radius2 as int),
        is_within_circle(tree_entries(*tree), c, radius2 as int, found@),
        found@.len() <= tree_entries(*tree).len(),
{
    tree.tree.lookup_in_circle(&[c.x, c.y], &radius2).into_iter().copied().collect()
}

/// Largest radius that `lookup_in_circle` tells from a larger one: no two
/// bounded points are farther apart.
pub const RADIUS_LIMIT: u64 = 3_000_000_000;

impl EntityRTree {
    /// The entries of the tree, as a mathematical sequence.
    pub open spec fn view(&self) -> Seq<EntityPosition> {
        tree_entries(*self)
    }

    /// Every entry stands at a bounded point.
    pub open spec fn wf(&self) -> bool {
        entries_bounded(self@)
    }

    /// The empty tree.
    pub fn new() -> (tree: EntityRTree)
        ensures
            tree@ == Seq::<EntityPosition>::empty(),
            tree.wf(),
    {
        tree_bulk_load(Vec::new())
    }

    /// The tree of the given entries.
    pub fn bulk_load(entries: Vec<EntityPosition>) -> (tree: EntityRTree)
        requires
            entries_bounded(entries@),
        ensures
            tree@ == entries@,
            tree.wf(),
    {
        tree_bulk_load(entries)
    }

    /// The squared radius that selects the closed disk of `radius` when it is
    /// compared strictly with squared distances of bounded points.
    pub open spec fn open_radius2(radius: u64) -> int {
        if radius <= RADIUS_LIMIT {
            radius * radius + 1
        } else {
            RADIUS_LIMIT * RADIUS_LIMIT + 1
        }
    }

    /// All entries whose position lies in the closed disk around `center`
    /// with the given radius.
    pub fn lookup_in_circle(&self, center: Vec2, radius: u64) -> (found: Vec<EntityPosition>)
        requires
            self.wf(),
            center.bounded(),
        ensures
            found@ == circle_members(
                self@,
                center.x as int,
                center.y as int,
                Self::open_radius2(radius),
            ),
            forall|e: EntityPosition| #[trigger]
                found@.to_multiset().count(e) == if dist2(e.position, center) <= radius * radius {
                    self@.to_multiset().count(e)
                } else {
                    0
                },
            forall|e: EntityPosition| #[trigger]
                found@.contains(e) <==> self@.contains(e) && dist2(e.position, center) <= radius
                    * radius,
            found@.len() <= self@.len(),
            entries_bounded(found@),
            entries_unit(self@) ==> entries_unit(found@),
    {
        let r: u64 = if radius <= RADIUS_LIMIT {
            radius
        } else {
            RADIUS_LIMIT
        };
        assert(r * r <= 9_000_000_000_000_000_000) by (nonlinear_arith)
            requires
                0 <= r <= 3_000_000_000,
        ;
        let radius2: i64 = (r * r + 1) as i64;
        let found = tree_lookup_in_circle(self, center, radius2);
        proof {
            self@.to_multiset_ensures();
            found@.to_multiset_ensures();
            assert forall|e: EntityPosition| #[trigger]
                found@.to_multiset().count(e) == if dist2(e.position, center) <= radius * radius {
                    self@.to_multiset().count(e)
                } else {
                    0
                } by {
                if self@.to_multiset().count(e) > 0 {
                    assert(self@.contains(e));
                    let i = choose|i: int| 0 <= i < self@.len() && self@[i] == e;
                    assert(self@[i].position.bounded());
                    lemma_dist2_bounds(e.position, center);
                    if radius > RADIUS_LIMIT {
                        assert(radius * radius >= 9_000_000_000_000_000_000) by (nonlinear_arith)
                            requires
                                radius > 3_000_000_000,
                        ;
                    }
                }
            }
            assert forall|e: EntityPosition| #[trigger]
                found@.contains(e) <==> self@.contains(e) && dist2(e.position, center) <= radius
                    * radius by {
                assert(found@.contains(e) <==> found@.to_multiset().count(e) > 0);
                assert(self@.contains(e) <==> self@.to_multiset().count(e) > 0);
            }
            assert forall|i: int| 0 <= i < found@.len() implies (
            #[trigger] found@[i]).position.bounded() && (entries_unit(self@)
                ==> found@[i].heading.wf()) by {
                assert(found@.contains(found@[i]));
                assert(self@.contains(found@[i]));
                let j = choose|j: int| 0 <= j < self@.len() && self@[j] == found@[i];
                assert(self@[j].position.bounded());
            }
        }
        found
    }
}

/// A line of the plane: the points `(x, y)` with `a * x + b * y == c`. With
/// whole coefficients a vertical line needs no case of its own, and the test
/// for the side of a point is exact.
#[derive(Clone, Copy, Debug, PartialEq, Eq, Structural)]
pub struct Line {
    pub a: i64,
    pub b: i64,
    pub c: i64,
}

impl Line {
    /// Where `p` lies: negative on one side of the line, positive on the
    /// other, zero on it.
    pub open spec fn side(self, p: Vec2) -> int {
        self.a * p.x + self.b * p.y - self.c
    }

    /// `p` and `q` lie on the same side of the line, and neither on it.
    pub open spec fn same_side(self, p: Vec2, q: Vec2) -> bool {
        ||| self.side(p) < 0 && self.side(q) < 0
        ||| self.side(p) > 0 && self.side(q) > 0
    }

    /// The coefficients of the perpendicular bisector of the segment from
    /// `p1` to `p2`.
    pub open spec fn bisector_of(p1: Vec2, p2: Vec2) -> Line {
        Line {
            a: (2 * (p2.x - p1.x)) as i64,
            b: (2 * (p2.y - p1.y)) as i64,
            c: (p2.x * p2.x + p2.y * p2.y - p1.x * p1.x - p1.y * p1.y) as i64,
        }
    }

    /// The perpendicular bisector of the segment from `p1` to `p2`: the
    /// points that are as far from `p1` as from `p2`.
    pub fn bisector(p1: Vec2, p2: Vec2) -> (line: Line)
        requires
            p1.bounded(),
            p2.bounded(),
        ensures
            line == Self::bisector_of(p1, p2),
            forall|p: Vec2| #[trigger] line.side(p) == dist2(p, p1) - dist2(p, p2),
    {
        let x1: i64 = p1.x;
        let y1: i64 = p1.y;
        let x2: i64 = p2.x;
        let y2: i64 = p2.y;
        assert(0 <= x1 * x1 <= 1_000_000_000_000_000_000 && 0 <= y1 * y1
            <= 1_000_000_000_000_000_000 && 0 <= x2 * x2 <= 1_000_000_000_000_000_000 && 0 <= y2
            * y2 <= 1_000_000_000_000_000_000) by (nonlinear_arith)
            requires
                -1_000_000_000 <= x1 <= 1_000_000_000,
                -1_000_000_000 <= y1 <= 1_000_000_000,
                -1_000_000_000 <= x2 <= 1_000_000_000,
                -1_000_000_000 <= y2 <= 1_000_000_000,
        ;
        let line = Line {
            a: 2 * (x2 - x1),
            b: 2 * (y2 - y1),
            c: x2 * x2 + y2 * y2 - x1 * x1 - y1 * y1,
        };
        proof {
            lemma_bisector_side(p1, p2);
        }
        line
    }

    /// Whether `p` and `q` lie on the same side of the line, and neither on
    /// it.
    pub fn is_same_side(&self, p: Vec2, q: Vec2) -> (r: bool)
        ensures
            r == self.same_side(p, q),
    {
        let sp: i8 = self.sign(p);
        let sq: i8 = self.sign(q);
        (sp < 0 && sq < 0) || (sp > 0 && sq > 0)
    }

    /// The sign of the side of `p`: -1, 0 or 1.
    fn sign(&self, p: Vec2) -> (s: i8)
        ensures
            s == if self.side(p) < 0 {
                -1int
            } else if self.side(p) > 0 {
                1int
            } else {
                0int
            },
    {
        let a: i128 = self.a as i128;
        let b: i128 = self.b as i128;
        let x: i128 = p.x as i128;
        let y: i128 = p.y as i128;
        assert(-0x4000_0000_0000_0000_0000_0000_0000_0000 <= a * x
            <= 0x4000_0000_0000_0000_0000_0000_0000_0000) by (nonlinear_arith)
            requires
                -0x8000_0000_0000_0000 <= a <= 0x8000_0000_0000_0000,
                -0x8000_0000_0000_0000 <= x <= 0x8000_0000_0000_0000,
        ;
        assert(-0x4000_0000_0000_0000_0000_0000_0000_0000 <= b * y
            <= 0x4000_0000_0000_0000_0000_0000_0000_0000) by (nonlinear_arith)
            requires
                -0x8000_0000_0000_0000 <= b <= 0x8000_0000_0000_0000,
                -0x8000_0000_0000_0000 <= y <= 0x8000_0000_0000_0000,
        ;
        // a * x + b * y - c is compared with zero as a * x against c - b * y,
        // which both fit.
        let left: i128 = a * x;
        let right: i128 = (self.c as i128) - b * y;
        if left < right {
            -1
        } else if left > right {
            1
        } else {
            0
        }
    }
}

/// A point's side of the bisector of two bounded points is the difference of
/// its squared distances from them: negative where the first is nearer.
pub proof fn lemma_bisector_side(p1: Vec2, p2: Vec2)
    requires
        p1.bounded(),
        p2.bounded(),
    ensures
        Line::bisector_of(p1, p2).a == 2 * (p2.x - p1.x),
        Line::bisector_of(p1, p2).b == 2 * (p2.y - p1.y),
        Line::bisector_of(p1, p2).c == p2.x * p2.x + p2.y * p2.y - p1.x * p1.x - p1.y * p1.y,
        forall|p: Vec2| #[trigger]
            Line::bisector_of(p1, p2).side(p) == dist2(p, p1) - dist2(p, p2),
        p1 != p2 ==> Line::bisector_of(p1, p2).side(p1) < 0,
        forall|p: Vec2|
            p1 != p2 ==> (#[trigger] Line::bisector_of(p1, p2).same_side(p1, p) <==> dist2(p, p1)
                < dist2(p, p2)),
        forall|p: Vec2| p1 == p2 ==> !#[trigger] Line::bisector_of(p1, p2).same_side(p1, p),
{
    let x1 = p1.x as int;
    let y1 = p1.y as int;
    let x2 = p2.x as int;
    let y2 = p2.y as int;
    assert(0 <= x1 * x1 <= 1_000_000_000_000_000_000 && 0 <= y1 * y1 <= 1_000_000_000_000_000_000
        && 0 <= x2 * x2 <= 1_000_000_000_000_000_000 && 0 <= y2 * y2
        <= 1_000_000_000_000_000_000) by (nonlinear_arith)
        requires
            -1_000_000_000 <= x1 <= 1_000_000_000,
            -1_000_000_000 <= y1 <= 1_000_000_000,
            -1_000_000_000 <= x2 <= 1_000_000_000,
            -1_000_000_000 <= y2 <= 1_000_000_000,
    ;
    let line = Line::bisector_of(p1, p2);
    assert(line.a == 2 * (x2 - x1));
    assert(line.b == 2 * (y2 - y1));
    assert(line.c == x2 * x2 + y2 * y2 - x1 * x1 - y1 * y1);
    assert forall|p: Vec2| #[trigger] line.side(p) == dist2(p, p1) - dist2(p, p2) by {
        let x = p.x as int;
        let y = p.y as int;
        assert((x - x1) * (x - x1) == x * x - 2 * (x1 * x) + x1 * x1) by (nonlinear_arith);
        assert((x - x2) * (x - x2) == x * x - 2 * (x2 * x) + x2 * x2) by (nonlinear_arith);
        assert((y - y1) * (y - y1) == y * y - 2 * (y1 * y) + y1 * y1) by (nonlinear_arith);
        assert((y - y2) * (y - y2) == y * y - 2 * (y2 * y) + y2 * y2) by (nonlinear_arith);
        assert((2 * (x2 - x1)) * x == 2 * (x2 * x) - 2 * (x1 * x)) by (nonlinear_arith);
        assert((2 * (y2 - y1)) * y == 2 * (y2 * y) - 2 * (y1 * y)) by (nonlinear_arith);
    }
    lemma_dist2_bounds(p1, p2);
    lemma_dist2_bounds(p1, p1);
    assert(line.side(p1) == dist2(p1, p1) - dist2(p1, p2));
}

/// Which entries a search for natural neighbors admits.
#[derive(Clone, Copy, Debug, PartialEq, Eq, Structural)]
pub struct NeighborFilter {
    /// An entity that is passed over: the one that asks.
    pub exclude: Option<Entity>,
    /// Whether only running sheep are admitted.
    pub running_only: bool,
}

impl NeighborFilter {
    /// The filter that admits every entry.
    pub fn any() -> (f: NeighborFilter)
        ensures
            f == (NeighborFilter { exclude: None, running_only: false }),
    {
        NeighborFilter { exclude: None, running_only: false }
    }

    /// The filter that admits every entry but that of `entity`.
    pub fn others(entity: Entity) -> (f: NeighborFilter)
        ensures
            f == (NeighborFilter { exclude: Some(entity), running_only: false }),
    {
        NeighborFilter { exclude: Some(entity), running_only: false }
    }

    /// The filter that admits the running sheep other than `entity`.
    pub fn running_others(entity: Entity) -> (f: NeighborFilter)
        ensures
            f == (NeighborFilter { exclude: Some(entity), running_only: true }),
    {
        NeighborFilter { exclude: Some(entity), running_only: true }
    }

    pub open spec fn admits(self, e: EntityPosition) -> bool {
        &&& self.exclude != Some(e.entity)
        &&& self.running_only ==> e.behavior.behavior == SheepBehavior::Running
    }

    /// Whether the filter admits the entry.
    pub fn accepts(&self, e: &EntityPosition) -> (r: bool)
        ensures
            r == self.admits(*e),
    {
        let excluded: bool = match self.exclude {
            Some(x) => x == e.entity,
            None => false,
        };
        let running: bool = match e.behavior.behavior {
            SheepBehavior::Running => true,
            _ => false,
        };
        !excluded && (!self.running_only || running)
    }
}

/// `s` lies on the same side as `q` of every line of `lines`.
pub open spec fn inside(lines: Seq<Line>, q: Vec2, s: Vec2) -> bool {
    forall|i: int| 0 <= i < lines.len() ==> (#[trigger] lines[i]).same_side(q, s)
}

/// The candidate is accepted: it lies inside the lines and the filter admits
/// it.
pub open spec fn accepted(
    q: Vec2,
    filter: NeighborFilter,
    lines: Seq<Line>,
    e: EntityPosition,
) -> bool {
    inside(lines, q, e.position) && filter.admits(e)
}

/// The candidates that are accepted when they are taken in turn, starting
/// from the perimeter `lines`: each accepted candidate adds the bisector
/// between `q` and itself to the perimeter that later candidates must lie
/// inside.
pub open spec fn natural_neighbors_from(
    q: Vec2,
    filter: NeighborFilter,
    lines: Seq<Line>,
    candidates: Seq<EntityPosition>,
) -> Seq<EntityPosition>
    decreases candidates.len(),
{
    if candidates.len() == 0 {
        Seq::empty()
    } else if accepted(q, filter, lines, candidates[0]) {
        seq![candidates[0]] + natural_neighbors_from(
            q,
            filter,
            lines.push(Line::bisector_of(q, candidates[0].position)),
            candidates.skip(1),
        )
    } else {
        natural_neighbors_from(q, filter, lines, candidates.skip(1))
    }
}

/// The natural neighbors of `q` among the entries that the filter admits,
/// nearest first, for a tree that was loaded with `entries`.
pub open spec fn natural_neighbors_of(
    entries: Seq<EntityPosition>,
    q: Vec2,
    filter: NeighborFilter,
) -> Seq<EntityPosition> {
    natural_neighbors_from(
        q,
        filter,
        Seq::empty(),
        nearest_order(entries, q.x as int, q.y as int),
    )
}

/// A lazy, single-pass walk through the natural neighbors of a point.
pub struct NaturalNeighborIterator<'a> {
    nearest: NearestCursor<'a>,
    query_point: Vec2,
    filter: NeighborFilter,
    /// Lines that bound the Voronoi cell of the query point, as far as it is
    /// known: the bisectors between the query point and the neighbors that
    /// were yielded.
    polygon_perimeter: Vec<Line>,
}

impl<'a> NaturalNeighborIterator<'a> {
    /// The neighbors that the iterator has yet to yield, in order.
    pub closed spec fn remaining(&self) -> Seq<EntityPosition> {
        natural_neighbors_from(
            self.query_point,
            self.filter,
            self.polygon_perimeter@,
            cursor_rest(self.nearest),
        )
    }

    /// The query point and the candidates left are bounded.
    pub closed spec fn wf(&self) -> bool {
        &&& self.query_point.bounded()
        &&& entries_bounded(cursor_rest(self.nearest))
    }

    /// The walk through the natural neighbors of `query_point` in `tree`.
    pub fn new(tree: &'a EntityRTree, query_point: Vec2, filter: NeighborFilter) -> (it: Self)
        requires
            tree.wf(),
            query_point.bounded(),
        ensures
            it.wf(),
            it.remaining() == natural_neighbors_of(tree@, query_point, filter),
            is_nearest_first(
                tree@,
                query_point,
                nearest_order(tree@, query_point.x as int, query_point.y as int),
            ),
    {
        let nearest = tree_nearest(tree, query_point);
        proof {
            lemma_same_entries_bounded(tree@, cursor_rest(nearest));
        }
        NaturalNeighborIterator { nearest, query_point, filter, polygon_perimeter: Vec::new() }
    }

    /// The next natural neighbor, if there is one.
    pub fn next(&mut self) -> (r: Option<EntityPosition>)
        requires
            old(self).wf(),
        ensures
            final(self).wf(),
            match r {
                Some(e) => old(self).remaining().len() > 0 && e == old(self).remaining()[0]
                    && final(self).remaining() == old(self).remaining().skip(1),
                None => old(self).remaining().len() == 0 && final(self).remaining().len() == 0,
            },
    {
        loop
            invariant
                self.wf(),
                self.remaining() == old(self).remaining(),
            decreases cursor_rest(self.nearest).len(),
        {
            let ghost before = cursor_rest(self.nearest);
            let ghost lines = self.polygon_perimeter@;
            match cursor_next(&mut self.nearest) {
                None => {
                    return None;
                },
                Some(neighbor) => {
                    assert(before[0].position.bounded());
                    assert forall|i: int| 0 <= i < before.skip(1).len() implies (
                    #[trigger] before.skip(1)[i]).position.bounded() by {
                        assert(before.skip(1)[i] == before[i + 1]);
                    }
                    let is_in_polygon = self.is_in_polygon(neighbor.position);
                    let passes_predicate = self.filter.accepts(&neighbor);
                    if is_in_polygon && passes_predicate {
                        let line = Line::bisector(self.query_point, neighbor.position);
                        self.polygon_perimeter.push(line);
                        proof {
                            let rest = natural_neighbors_from(
                                self.query_point,
                                self.filter,
                                lines.push(line),
                                before.skip(1),
                            );
                            assert(old(self).remaining() == seq![neighbor] + rest);
                            assert((seq![neighbor] + rest).skip(1) =~= rest);
                        }
                        return Some(neighbor);
                    }
                },
            }
        }
    }

    /// Whether `s` lies on the query point's side of every line of the
    /// perimeter.
    fn is_in_polygon(&self, s: Vec2) -> (r: bool)
        ensures
            r == inside(self.polygon_perimeter@, self.query_point, s),
    {
        let mut i: usize = 0;
        while i < self.polygon_perimeter.len()
            invariant
                0 <= i <= self.polygon_perimeter.len(),
                forall|k: int|
                    0 <= k < i ==> (#[trigger] self.polygon_perimeter@[k]).same_side(
                        self.query_point,
                        s,
                    ),
            decreases self.polygon_perimeter.len() - i,
        {
            if !self.polygon_perimeter[i].is_same_side(self.query_point, s) {
                return false;
            }
            i += 1;
        }
        true
    }
}

/// Sequences that hold the same entries are bounded together.
pub proof fn lemma_same_entries_bounded(a: Seq<EntityPosition>, b: Seq<EntityPosition>)
    requires
        entries_bounded(a),
        forall|e: EntityPosition| #[trigger] b.to_multiset().count(e) == a.to_multiset().count(e),
    ensures
        entries_bounded(b),
        forall|e: EntityPosition| b.contains(e) <==> a.contains(e),
{
    a.to_multiset_ensures();
    b.to_multiset_ensures();
    assert forall|e: EntityPosition| b.contains(e) <==> a.contains(e) by {
        assert(b.to_multiset().count(e) == a.to_multiset().count(e));
    }
    assert forall|i: int| 0 <= i < b.len() implies (#[trigger] b[i]).position.bounded() by {
        assert(b.contains(b[i]));
        assert(a.contains(b[i]));
        let j = choose|j: int| 0 <= j < a.len() && a[j] == b[i];
        assert(a[j].position.bounded());
    }
}

/// Trees that can be searched for the natural neighbors of a point.
pub trait IntoNaturalNeighborIterator {
    /// The entries of the tree.
    spec fn entries(&self) -> Seq<EntityPosition>;

    /// The walk through the natural neighbors of `query_point` that the
    /// filter admits, nearest first.
    fn natural_neighbor_iterator<'a>(
        &'a self,
        query_point: &Vec2,
        filter: NeighborFilter,
    ) -> (it: NaturalNeighborIterator<'a>)
        requires
            entries_bounded(self.entries()),
            query_point.bounded(),
        ensures
            it.wf(),
            it.remaining() == natural_neighbors_of(self.entries(), *query_point, filter),
            is_nearest_first(
                self.entries(),
                *query_point,
                nearest_order(self.entries(), query_point.x as int, query_point.y as int),
            ),
    ;
}

impl IntoNaturalNeighborIterator for EntityRTree {
    open spec fn entries(&self) -> Seq<EntityPosition> {
        self@
    }

    fn natural_neighbor_iterator<'a>(
        &'a self,
        query_point: &Vec2,
        filter: NeighborFilter,
    ) -> (it: NaturalNeighborIterator<'a>) {
        NaturalNeighborIterator::new(self, *query_point, filter)
    }
}

impl EntityRTree {
    /// The first `limit` natural neighbors of `query_point` that the filter
    /// admits, nearest first; all of them where there are no more.
    pub fn natural_neighbors(
        &self,
        query_point: Vec2,
        filter: NeighborFilter,
        limit: usize,
    ) -> (found: Vec<EntityPosition>)
        requires
            self.wf(),
            query_point.bounded(),
        ensures
            found@ == first_of(natural_neighbors_of(self@, query_point, filter), limit as int),
            found@.len() <= limit,
            entries_bounded(found@),
            entries_unit(self@) ==> entries_unit(found@),
            forall|k: int|
                0 <= k < found@.len() ==> self@.contains(#[trigger] found@[k]) && filter.admits(
                    found@[k],
                ),
            forall|i: int, j: int|
                0 <= i < j < found@.len() ==> dist2(#[trigger] found@[i].position, query_point)
                    <= dist2(#[trigger] found@[j].position, query_point),
            forall|i: int, j: int|
                0 <= i < j < found@.len() ==> Line::bisector_of(
                    query_point,
                    #[trigger] found@[i].position,
                ).same_side(query_point, #[trigger] found@[j].position),
            forall|i: int, j: int|
                0 <= i < j < found@.len() ==> dist2(#[trigger] found@[j].position, query_point)
                    < dist2(found@[j].position, #[trigger] found@[i].position),
    {
        let mut it = NaturalNeighborIterator::new(self, query_point, filter);
        let mut found: Vec<EntityPosition> = Vec::new();
        let mut exhausted: bool = false;
        let ghost all = natural_neighbors_of(self@, query_point, filter);
        proof {
            lemma_natural_neighbors_are_entries(self@, query_point, filter);
        }
        while !exhausted && found.len() < limit
            invariant
                it.wf(),
                found@.len() <= limit,
                found@.len() <= all.len(),
                found@ == all.take(found@.len() as int),
                it.remaining() == all.skip(found@.len() as int),
                exhausted ==> found@.len() == all.len(),
            decreases (if exhausted { 0int } else { 1int }) + limit - found.len(),
        {
            match it.next() {
                Some(e) => {
                    proof {
                        let k = found@.len() as int;
                        assert(all.skip(k)[0] == all[k]);
                        assert(all.take(k).push(all[k]) =~= all.take(k + 1));
                        assert(all.skip(k).skip(1) =~= all.skip(k + 1));
                    }
                    found.push(e);
                },
                None => {
                    assert(all.skip(found@.len() as int).len() == 0);
                    exhausted = true;
                },
            }
        }
        proof {
            assert(all.take(all.len() as int) =~= all);
        }
        proof {
            let order = nearest_order(self@, query_point.x as int, query_point.y as int);
            assert forall|i: int| 0 <= i < order.len() implies 0 <= dist2(
                #[trigger] order[i].position,
                query_point,
            ) by {
                lemma_dist2_nonnegative(order[i].position, query_point);
            }
            lemma_accepted_in_order(query_point, filter, Seq::empty(), order, 0);
            lemma_accepted_inside_earlier(query_point, filter, Seq::empty(), order);
            assert forall|i: int| 0 <= i < found@.len() implies (
            #[trigger] found@[i]).position.bounded() && (entries_unit(self@)
                ==> found@[i].heading.wf()) by {
                assert(found@[i] == all[i]);
                assert(self@.contains(all[i]));
                let j = choose|j: int| 0 <= j < self@.len() && self@[j] == all[i];
                assert(self@[j].position.bounded());
            }
            assert forall|i: int, j: int| 0 <= i < j < found@.len() implies dist2(
                #[trigger] found@[j].position,
                query_point,
            ) < dist2(found@[j].position, #[trigger] found@[i].position) by {
                assert(found@[i] == all[i] && found@[j] == all[j]);
                assert(found@[i].position.bounded() && found@[j].position.bounded());
                lemma_bisector_side(query_point, found@[i].position);
                assert(Line::bisector_of(query_point, all[i].position).same_side(
                    query_point,
                    all[j].position,
                ));
            }
        }
        found
    }
}

/// The first `n` elements of `s`, or all of `s` where it has no more.
pub open spec fn first_of(s: Seq<EntityPosition>, n: int) -> Seq<EntityPosition> {
    if n <= 0 {
        Seq::empty()
    } else if n < s.len() {
        s.take(n)
    } else {
        s
    }
}

/// Every accepted candidate is one of the candidates, lies inside the lines
/// from which the search started, and is admitted by the filter.
pub proof fn lemma_accepted_are_candidates(
    q: Vec2,
    filter: NeighborFilter,
    lines: Seq<Line>,
    candidates: Seq<EntityPosition>,
)
    ensures
        natural_neighbors_from(q, filter, lines, candidates).len() <= candidates.len(),
        forall|k: int|
            0 <= k < natural_neighbors_from(q, filter, lines, candidates).len() ==> {
                let e = #[trigger] natural_neighbors_from(q, filter, lines, candidates)[k];
                candidates.contains(e) && inside(lines, q, e.position) && filter.admits(e)
            },
    decreases candidates.len(),
{
    let out = natural_neighbors_from(q, filter, lines, candidates);
    if candidates.len() > 0 {
        let head = candidates[0];
        let rest = candidates.skip(1);
        if accepted(q, filter, lines, head) {
            let grown = lines.push(Line::bisector_of(q, head.position));
            lemma_accepted_are_candidates(q, filter, grown, rest);
            let tail = natural_neighbors_from(q, filter, grown, rest);
            assert forall|k: int| 0 <= k < out.len() implies {
                let e = #[trigger] out[k];
                candidates.contains(e) && inside(lines, q, e.position) && filter.admits(e)
            } by {
                if k > 0 {
                    let e = tail[k - 1];
                    assert(out[k] == e);
                    assert(rest.contains(e));
                    let j = choose|j: int| 0 <= j < rest.len() && rest[j] == e;
                    assert(candidates[j + 1] == e);
                    assert forall|i: int| 0 <= i < lines.len() implies (
                    #[trigger] lines[i]).same_side(q, e.position) by {
                        assert(grown[i] == lines[i]);
                    }
                } else {
                    assert(out[0] == head);
                }
            }
        } else {
            lemma_accepted_are_candidates(q, filter, lines, rest);
            assert forall|k: int| 0 <= k < out.len() implies {
                let e = #[trigger] out[k];
                candidates.contains(e) && inside(lines, q, e.position) && filter.admits(e)
            } by {
                let e = out[k];
                assert(rest.contains(e));
                let j = choose|j: int| 0 <= j < rest.len() && rest[j] == e;
                assert(candidates[j + 1] == e);
            }
        }
    }
}

/// Candidates that come in order of distance are accepted in order of
/// distance, and none of the accepted is nearer than every candidate was
/// known to be.
pub proof fn lemma_accepted_in_order(
    q: Vec2,
    filter: NeighborFilter,
    lines: Seq<Line>,
    candidates: Seq<EntityPosition>,
    floor: int,
)
    requires
        forall|i: int, j: int|
            0 <= i < j < candidates.len() ==> dist2(#[trigger] candidates[i].position, q) <= dist2(
                #[trigger] candidates[j].position,
                q,
            ),
        forall|i: int| 0 <= i < candidates.len() ==> floor <= dist2(#[trigger] candidates[i].position, q),
    ensures
        forall|i: int, j: int|
            0 <= i < j < natural_neighbors_from(q, filter, lines, candidates).len() ==> dist2(
                #[trigger] natural_neighbors_from(q, filter, lines, candidates)[i].position,
                q,
            ) <= dist2(
                #[trigger] natural_neighbors_from(q, filter, lines, candidates)[j].position,
                q,
            ),
        forall|i: int|
            0 <= i < natural_neighbors_from(q, filter, lines, candidates).len() ==> floor <= dist2(
                #[trigger] natural_neighbors_from(q, filter, lines, candidates)[i].position,
                q,
            ),
    decreases candidates.len(),
{
    let out = natural_neighbors_from(q, filter, lines, candidates);
    if candidates.len() > 0 {
        let head = candidates[0];
        let rest = candidates.skip(1);
        assert forall|i: int, j: int| 0 <= i < j < rest.len() implies dist2(
            #[trigger] rest[i].position,
            q,
        ) <= dist2(#[trigger] rest[j].position, q) by {
            assert(rest[i] == candidates[i + 1]);
            assert(rest[j] == candidates[j + 1]);
        }
        if accepted(q, filter, lines, head) {
            let grown = lines.push(Line::bisector_of(q, head.position));
            let d = dist2(head.position, q);
            assert forall|i: int| 0 <= i < rest.len() implies d <= dist2(
                #[trigger] rest[i].position,
                q,
            ) by {
                assert(rest[i] == candidates[i + 1]);
            }
            lemma_accepted_in_order(q, filter, grown, rest, d);
            let tail = natural_neighbors_from(q, filter, grown, rest);
            assert(out == seq![head] + tail);
            assert forall|i: int, j: int| 0 <= i < j < out.len() implies dist2(
                #[trigger] out[i].position,
                q,
            ) <= dist2(#[trigger] out[j].position, q) by {
                assert(out[j] == tail[j - 1]);
                if i > 0 {
                    assert(out[i] == tail[i - 1]);
                }
            }
            assert forall|i: int| 0 <= i < out.len() implies floor <= dist2(
                #[trigger] out[i].position,
                q,
            ) by {
                if i > 0 {
                    assert(out[i] == tail[i - 1]);
                }
            }
        } else {
            assert forall|i: int| 0 <= i < rest.len() implies floor <= dist2(
                #[trigger] rest[i].position,
                q,
            ) by {
                assert(rest[i] == candidates[i + 1]);
            }
            lemma_accepted_in_order(q, filter, lines, rest, floor);
        }
    }
}

/// Of two accepted candidates, the later lies on the query point's side of
/// the bisector between the query point and the earlier.
pub proof fn lemma_accepted_inside_earlier(
    q: Vec2,
    filter: NeighborFilter,
    lines: Seq<Line>,
    candidates: Seq<EntityPosition>,
)
    ensures
        forall|i: int, j: int|
            0 <= i < j < natural_neighbors_from(q, filter, lines, candidates).len()
                ==> Line::bisector_of(
                q,
                #[trigger] natural_neighbors_from(q, filter, lines, candidates)[i].position,
            ).same_side(
                q,
                #[trigger] natural_neighbors_from(q, filter, lines, candidates)[j].position,
            ),
    decreases candidates.len(),
{
    let out = natural_neighbors_from(q, filter, lines, candidates);
    if candidates.len() > 0 {
        let head = candidates[0];
        let rest = candidates.skip(1);
        if accepted(q, filter, lines, head) {
            let bisector = Line::bisector_of(q, head.position);
            let grown = lines.push(bisector);
            lemma_accepted_inside_earlier(q, filter, grown, rest);
            lemma_accepted_are_candidates(q, filter, grown, rest);
            let tail = natural_neighbors_from(q, filter, grown, rest);
            assert(out == seq![head] + tail);
            assert forall|i: int, j: int| 0 <= i < j < out.len() implies Line::bisector_of(
                q,
                #[trigger] out[i].position,
            ).same_side(q, #[trigger] out[j].position) by {
                assert(out[j] == tail[j - 1]);
                if i > 0 {
                    assert(out[i] == tail[i - 1]);
                } else {
                    assert(inside(grown, q, tail[j - 1].position));
                    assert(grown[lines.len() as int] == bisector);
                }
            }
        } else {
            lemma_accepted_inside_earlier(q, filter, lines, rest);
        }
    }
}

/// The natural neighbors that a tree yields are entries of the tree that the
/// filter admits.
pub proof fn lemma_natural_neighbors_are_entries(
    entries: Seq<EntityPosition>,
    q: Vec2,
    filter: NeighborFilter,
)
    requires
        is_nearest_first(entries, q, nearest_order(entries, q.x as int, q.y as int)),
    ensures
        natural_neighbors_of(entries, q, filter).len() <= entries.len(),
        forall|k: int|
            0 <= k < natural_neighbors_of(entries, q, filter).len() ==> entries.contains(
                #[trigger] natural_neighbors_of(entries, q, filter)[k],
            ) && filter.admits(natural_neighbors_of(entries, q, filter)[k]),
{
    let order = nearest_order(entries, q.x as int, q.y as int);
    lemma_accepted_are_candidates(q, filter, Seq::empty(), order);
    entries.to_multiset_ensures();
    order.to_multiset_ensures();
    let out = natural_neighbors_of(entries, q, filter);
    assert forall|k: int| 0 <= k < out.len() implies entries.contains(#[trigger] out[k])
        && filter.admits(out[k]) by {
        assert(order.contains(out[k]));
        assert(order.to_multiset().count(out[k]) == entries.to_multiset().count(out[k]));
    }
}

/// Where no two accepted candidates are equally far from the query point,
/// candidates that come in order of distance are accepted in strictly
/// growing distance.
pub proof fn lemma_accepted_in_strict_order(
    q: Vec2,
    filter: NeighborFilter,
    lines: Seq<Line>,
    candidates: Seq<EntityPosition>,
)
    requires
        forall|i: int, j: int|
            0 <= i < j < candidates.len() ==> dist2(#[trigger] candidates[i].position, q) <= dist2(
                #[trigger] candidates[j].position,
                q,
            ),
        forall|i: int, j: int|
            0 <= i < j < natural_neighbors_from(q, filter, lines, candidates).len() ==> dist2(
                #[trigger] natural_neighbors_from(q, filter, lines, candidates)[i].position,
                q,
            ) != dist2(
                #[trigger] natural_neighbors_from(q, filter, lines, candidates)[j].position,
                q,
            ),
    ensures
        forall|i: int, j: int|
            0 <= i < j < natural_neighbors_from(q, filter, lines, candidates).len() ==> dist2(
                #[trigger] natural_neighbors_from(q, filter, lines, candidates)[i].position,
                q,
            ) < dist2(
                #[trigger] natural_neighbors_from(q, filter, lines, candidates)[j].position,
                q,
            ),
{
    assert forall|i: int| 0 <= i < candidates.len() implies 0 <= dist2(
        #[trigger] candidates[i].position,
        q,
    ) by {
        lemma_dist2_nonnegative(candidates[i].position, q);
    }
    lemma_accepted_in_order(q, filter, lines, candidates, 0);
}

/// A search depends on nothing but the entries that the tree was loaded
/// with, the query point, the filter and the limit: trees with the same
/// entries give the same neighbors in the same order, however often they
/// are asked.
pub proof fn lemma_search_repeatable(
    first: EntityRTree,
    second: EntityRTree,
    q: Vec2,
    filter: NeighborFilter,
    limit: int,
)
    requires
        first@ == second@,
    ensures
        natural_neighbors_of(first@, q, filter) == natural_neighbors_of(second@, q, filter),
        first_of(natural_neighbors_of(first@, q, filter), limit) == first_of(
            natural_neighbors_of(second@, q, filter),
            limit,
        ),
{
}

} // verus!
