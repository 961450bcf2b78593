use flocksim::component::{Entity, Heading, SheepBehavior, SheepBehaviorState};
use flocksim::entity_rtree::{
    EntityPosition, EntityRTree, IntoNaturalNeighborIterator, Line, NaturalNeighborIterator,
    NeighborFilter,
};
use flocksim::geometry::Vec2;

fn entry(index: u32, x: i64, y: i64, behavior: SheepBehavior) -> EntityPosition {
    EntityPosition {
        entity: Entity { index, generation: 0 },
        position: Vec2::new(x, y),
        heading: Heading::east(),
        behavior: SheepBehaviorState::new(behavior),
    }
}

fn seven_points() -> Vec<EntityPosition> {
    vec![
        // nearest and first natural neighbor
        entry(0, 2_000_000, 0, SheepBehavior::Walking),
        // second nearest but not a natural neighbor
        entry(1, 3_000_000, 0, SheepBehavior::Walking),
        // third nearest and second natural neighbor
        entry(2, 0, 4_000_000, SheepBehavior::Walking),
        // fourth nearest and third natural neighbor
        entry(3, -1_000_000, -6_000_000, SheepBehavior::Walking),
        // fifth nearest but not a natural neighbor
        entry(4, -2_000_000, -6_000_000, SheepBehavior::Walking),
        // sixth nearest and fourth natural neighbor
        entry(5, -30_000_000, 1_999_000, SheepBehavior::Walking),
        // seventh nearest but not a natural neighbor
        entry(6, -31_000_000, 2_001_000, SheepBehavior::Walking),
    ]
}

fn collect(mut it: NaturalNeighborIterator) -> Vec<EntityPosition> {
    let mut out = Vec::new();
    while let Some(e) = it.next() {
        out.push(e);
    }
    out
}

#[test]
fn natural_neighbor_iterator() {
    let entity_positions = seven_points();
    let rtree = EntityRTree::bulk_load(entity_positions.clone());
    let expected: Vec<EntityPosition> = entity_positions
        .iter()
        .enumerate()
        .filter_map(|(i, epos)| {
            if vec![0, 2, 3, 5].contains(&i) {
                Some(*epos)
            } else {
                None
            }
        })
        .collect();
    let natural_neighbors: Vec<EntityPosition> =
        collect(rtree.natural_neighbor_iterator(&Vec2::new(0, 0), NeighborFilter::any()));
    assert_eq!(natural_neighbors, expected);
}

#[test]
fn natural_neighbors_take_a_limit() {
    let points = seven_points();
    let rtree = EntityRTree::bulk_load(points.clone());
    let two = rtree.natural_neighbors(Vec2::new(0, 0), NeighborFilter::any(), 2);
    assert_eq!(two, vec![points[0], points[2]]);
    let none = rtree.natural_neighbors(Vec2::new(0, 0), NeighborFilter::any(), 0);
    assert_eq!(none, Vec::<EntityPosition>::new());
    let all = rtree.natural_neighbors(Vec2::new(0, 0), NeighborFilter::any(), 100);
    assert_eq!(all, vec![points[0], points[2], points[3], points[5]]);
}

#[test]
fn natural_neighbors_twice_are_the_same() {
    let rtree = EntityRTree::bulk_load(seven_points());
    let q = Vec2::new(-500_000, 250_000);
    let first = rtree.natural_neighbors(q, NeighborFilter::any(), 4);
    let second = rtree.natural_neighbors(q, NeighborFilter::any(), 4);
    assert_eq!(first, second);
    let other_tree = EntityRTree::bulk_load(seven_points());
    assert_eq!(other_tree.natural_neighbors(q, NeighborFilter::any(), 4), first);
}

#[test]
fn natural_neighbors_are_entries_in_order_of_distance_and_inside_bisectors() {
    let points = seven_points();
    let rtree = EntityRTree::bulk_load(points.clone());
    let q = Vec2::new(1_000_000, 1_000_000);
    let found = rtree.natural_neighbors(q, NeighborFilter::any(), 7);
    assert!(!found.is_empty());
    let d2 = |a: Vec2, b: Vec2| (a.x - b.x).pow(2) + (a.y - b.y).pow(2);
    for e in &found {
        assert!(points.contains(e));
    }
    for i in 0..found.len() {
        for j in (i + 1)..found.len() {
            assert!(d2(found[i].position, q) <= d2(found[j].position, q));
            // The later neighbor is nearer to the query point than to the earlier one.
            assert!(d2(found[j].position, q) < d2(found[j].position, found[i].position));
        }
    }
}

#[test]
fn natural_neighbors_exclude_the_asking_entity() {
    let mut points = seven_points();
    points.push(entry(7, 0, 0, SheepBehavior::Walking));
    let rtree = EntityRTree::bulk_load(points.clone());
    let me = Entity { index: 7, generation: 0 };
    let found = rtree.natural_neighbors(Vec2::new(0, 0), NeighborFilter::others(me), 4);
    assert_eq!(found, vec![points[0], points[2], points[3], points[5]]);
    // Without the filter the entry at the query point comes first, and
    // nothing lies on the query point's side of the bisector with itself.
    let unfiltered = rtree.natural_neighbors(Vec2::new(0, 0), NeighborFilter::any(), 4);
    assert_eq!(unfiltered, vec![points[7]]);
}

#[test]
fn natural_neighbors_running_only() {
    let points = vec![
        entry(0, 2_000_000, 0, SheepBehavior::Walking),
        entry(1, 3_000_000, 0, SheepBehavior::Running),
        entry(2, 0, 4_000_000, SheepBehavior::Running),
        entry(3, 0, -5_000_000, SheepBehavior::Stationary { was_running_last_update: true }),
    ];
    let rtree = EntityRTree::bulk_load(points.clone());
    let me = Entity { index: 9, generation: 0 };
    // The walking sheep at (2, 0) is passed over and casts no bisector, so
    // the running sheep behind it is a neighbor.
    let found = rtree.natural_neighbors(Vec2::new(0, 0), NeighborFilter::running_others(me), 4);
    assert_eq!(found, vec![points[1], points[2]]);
}

#[test]
fn natural_neighbors_of_empty_tree() {
    let rtree = EntityRTree::new();
    assert!(rtree.natural_neighbors(Vec2::new(5, 5), NeighborFilter::any(), 4).is_empty());
    assert!(rtree.lookup_in_circle(Vec2::new(5, 5), 1_000_000).is_empty());
}

#[test]
fn equidistant_candidate_on_a_bisector_is_rejected() {
    // (2, 5) is as far from (0, 0) as from (4, 0): it lies on their bisector.
    let points = vec![
        entry(0, 4_000_000, 0, SheepBehavior::Walking),
        entry(1, 2_000_000, 5_000_000, SheepBehavior::Walking),
    ];
    let rtree = EntityRTree::bulk_load(points.clone());
    let found = rtree.natural_neighbors(Vec2::new(0, 0), NeighborFilter::any(), 4);
    assert_eq!(found, vec![points[0]]);
}

#[test]
fn lookup_in_circle_is_the_closed_disk() {
    let points = vec![
        entry(0, 1_000_000, 0, SheepBehavior::Walking),
        entry(1, 0, 1_000_001, SheepBehavior::Walking),
        entry(2, 600_000, 800_000, SheepBehavior::Running),
        entry(3, -700_000, -700_000, SheepBehavior::Walking),
        entry(4, 40_000_000, 40_000_000, SheepBehavior::Walking),
    ];
    let rtree = EntityRTree::bulk_load(points.clone());
    let mut found = rtree.lookup_in_circle(Vec2::new(0, 0), 1_000_000);
    found.sort_by_key(|e| e.entity.index);
    // The points at distance exactly one metre are inside; the one a
    // micrometre beyond is not.
    assert_eq!(found, vec![points[0], points[2], points[3]]);
    let mut all = rtree.lookup_in_circle(Vec2::new(0, 0), u64::MAX);
    all.sort_by_key(|e| e.entity.index);
    assert_eq!(all, points);
    assert!(rtree.lookup_in_circle(Vec2::new(10_000_000, 0), 0).is_empty());
    assert_eq!(rtree.lookup_in_circle(Vec2::new(1_000_000, 0), 0), vec![points[0]]);
}

#[test]
fn lookup_in_circle_on_a_large_tree_matches_a_scan() {
    let mut points = Vec::new();
    let mut i: u32 = 0;
    for x in 0..20 {
        for y in 0..20 {
            points.push(entry(i, x * 500_000, y * 500_000 + (x % 3) * 1000, SheepBehavior::Walking));
            i += 1;
        }
    }
    let rtree = EntityRTree::bulk_load(points.clone());
    let c = Vec2::new(4_200_000, 3_900_000);
    let r: i64 = 1_700_000;
    let mut found = rtree.lookup_in_circle(c, r as u64);
    found.sort_by_key(|e| e.entity.index);
    let expected: Vec<EntityPosition> = points
        .iter()
        .filter(|e| {
            (e.position.x - c.x).pow(2) + (e.position.y - c.y).pow(2) <= r * r
        })
        .cloned()
        .collect();
    assert_eq!(found, expected);
    assert!(!expected.is_empty());
}

#[test]
fn bisector_sides() {
    let q = Vec2::new(0, 0);
    let line = Line::bisector(q, Vec2::new(4, 0));
    assert_eq!(line, Line { a: 8, b: 0, c: 16 });
    assert!(line.is_same_side(q, Vec2::new(1, 100)));
    assert!(!line.is_same_side(q, Vec2::new(3, 0)));
    // A point on the line is on no side.
    assert!(!line.is_same_side(q, Vec2::new(2, 7)));
    assert!(line.is_same_side(Vec2::new(3, 0), Vec2::new(9, -9)));
    let slanted = Line::bisector(q, Vec2::new(-1_000_000, -6_000_000));
    assert!(slanted.is_same_side(q, Vec2::new(-30_000_000, 1_999_000)));
    assert!(!slanted.is_same_side(q, Vec2::new(-2_000_000, -6_000_000)));
}

#[test]
fn filter_accepts() {
    let me = Entity { index: 1, generation: 0 };
    let walking = entry(1, 0, 0, SheepBehavior::Walking);
    let running = entry(2, 0, 0, SheepBehavior::Running);
    assert!(NeighborFilter::any().accepts(&walking));
    assert!(!NeighborFilter::others(me).accepts(&walking));
    assert!(NeighborFilter::others(me).accepts(&running));
    assert!(NeighborFilter::running_others(me).accepts(&running));
    let stale = Entity { index: 2, generation: 1 };
    assert!(NeighborFilter::running_others(stale).accepts(&running));
    assert!(!NeighborFilter::running_others(Entity { index: 2, generation: 0 }).accepts(&running));
}

#[test]
fn an_entry_is_filed_under_its_position() {
    let e = entry(3, -1_000_000, 6_000_000, SheepBehavior::Running);
    assert_eq!(spade::HasPosition::position(&e), [-1_000_000, 6_000_000]);
    let origin = entry(4, 0, 0, SheepBehavior::Walking);
    assert_eq!(spade::HasPosition::position(&origin), [0, 0]);
}
