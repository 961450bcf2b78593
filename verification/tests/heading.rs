use flocksim::component::{Entity, Heading, Position, SheepBehavior, SheepBehaviorState};
use flocksim::entity_rtree::{EntityPosition, EntityRTree};
use flocksim::geometry::Vec2;
use flocksim::random::Dice;
use flocksim::system::sheep_heading::{equilibrium_force, noise_turn, sum_headings};
use flocksim::system::SheepHeadingSystem;

fn heading(x: i64, y: i64) -> Heading {
    Heading { r: Vec2::new(x, y) }
}

fn entry(index: u32, x: i64, y: i64, h: Heading, behavior: SheepBehavior) -> EntityPosition {
    EntityPosition {
        entity: Entity { index, generation: 0 },
        position: Vec2::new(x, y),
        heading: h,
        behavior: SheepBehaviorState::new(behavior),
    }
}

#[test]
fn equilibrium_force_saturates_at_one() {
    assert_eq!(equilibrium_force(1_000_000), 0);
    assert_eq!(equilibrium_force(1_500_000), 500_000);
    assert_eq!(equilibrium_force(2_000_000), 1_000_000);
    assert_eq!(equilibrium_force(2_000_001), 1_000_000);
    assert_eq!(equilibrium_force(3_000_000_000), 1_000_000);
    assert_eq!(equilibrium_force(250_000), -750_000);
    assert_eq!(equilibrium_force(0), -1_000_000);
}

#[test]
fn noise_turn_is_cosine_and_sine() {
    assert_eq!(noise_turn(0), (1_000_000, 0));
    assert_eq!(noise_turn(100_000), (995_004, 99_834));
    assert_eq!(noise_turn(408_200), (917_837, 396_958));
    assert_eq!(noise_turn(-408_200), (917_837, -396_958));
    assert_eq!(noise_turn(-250_000), (968_912, -247_404));
}

#[test]
fn noise_turn_is_close_to_the_true_values() {
    let mut t: i32 = -408_200;
    while t <= 408_200 {
        let (c, s) = noise_turn(t);
        let angle = t as f64 / 1e6;
        assert!((c as f64 - angle.cos() * 1e6).abs() < 5.0);
        assert!((s as f64 - angle.sin() * 1e6).abs() < 5.0);
        t += 4_082;
    }
}

#[test]
fn turn_by_noise() {
    assert_eq!(SheepHeadingSystem::turn(Heading::east(), 0), Heading::east());
    assert_eq!(SheepHeadingSystem::turn(Heading::east(), 408_200), heading(917_836, 396_957));
    assert_eq!(SheepHeadingSystem::turn(Heading::east(), -100_000), heading(995_004, -99_834));
    assert_eq!(SheepHeadingSystem::turn(heading(0, 1_000_000), 100_000), heading(-99_834, 995_004));
}

#[test]
fn sum_of_headings() {
    let entries = vec![
        entry(0, 0, 0, heading(1_000_000, 0), SheepBehavior::Walking),
        entry(1, 0, 0, heading(600_000, -800_000), SheepBehavior::Walking),
        entry(2, 0, 0, heading(-1_000_000, 0), SheepBehavior::Running),
    ];
    assert_eq!(sum_headings(&entries), (600_000, -800_000));
    assert_eq!(sum_headings(&Vec::new()), (0, 0));
}

#[test]
fn walking_heading_aligns_with_the_sheep_around() {
    let east_and_north = vec![
        entry(0, 0, 0, heading(1_000_000, 0), SheepBehavior::Walking),
        entry(1, 0, 0, heading(0, 1_000_000), SheepBehavior::Walking),
    ];
    assert_eq!(
        SheepHeadingSystem::walking_heading(Heading::east(), &east_and_north, 0),
        heading(707_106, 707_106)
    );
    // Opposite headings cancel: the sum is too short and the heading stays.
    let opposite = vec![
        entry(0, 0, 0, heading(1_000_000, 0), SheepBehavior::Walking),
        entry(1, 0, 0, heading(-1_000_000, 0), SheepBehavior::Walking),
    ];
    assert_eq!(
        SheepHeadingSystem::walking_heading(heading(0, 1_000_000), &opposite, 0),
        heading(0, 1_000_000)
    );
    let mixed = vec![
        entry(0, 0, 0, heading(0, 1_000_000), SheepBehavior::Walking),
        entry(1, 0, 0, heading(600_000, 800_000), SheepBehavior::Walking),
    ];
    assert_eq!(
        SheepHeadingSystem::walking_heading(heading(0, 1_000_000), &mixed, 100_000),
        heading(219_936, 975_514)
    );
    // No sheep around at all: only the noise turns the heading.
    assert_eq!(
        SheepHeadingSystem::walking_heading(Heading::east(), &Vec::new(), -100_000),
        heading(995_004, -99_834)
    );
}

#[test]
fn running_heading_follows_neighbors() {
    let p = Vec2::new(0, 0);
    // Without running neighbors the heading is unchanged.
    assert_eq!(
        SheepHeadingSystem::running_heading(heading(600_000, 800_000), p, &Vec::new()),
        heading(600_000, 800_000)
    );
    // A neighbor three metres to the east that heads north: it pulls east
    // with the full force and aligns north.
    let far = vec![entry(1, 3_000_000, 0, heading(0, 1_000_000), SheepBehavior::Running)];
    assert_eq!(
        SheepHeadingSystem::running_heading(Heading::east(), p, &far),
        heading(196_116, 980_580)
    );
    // The same neighbor half a metre away pushes west.
    let close = vec![entry(1, 500_000, 0, heading(0, 1_000_000), SheepBehavior::Running)];
    assert_eq!(
        SheepHeadingSystem::running_heading(Heading::east(), p, &close),
        heading(-99_503, 995_037)
    );
    let two = vec![
        entry(1, 3_000_000, 4_000_000, heading(1_000_000, 0), SheepBehavior::Running),
        entry(2, 0, -2_000_000, heading(0, -1_000_000), SheepBehavior::Running),
    ];
    assert_eq!(
        SheepHeadingSystem::running_heading(Heading::east(), p, &two),
        heading(732_793, -680_451)
    );
    // A neighbor at the same place adds its heading only.
    let same = vec![entry(1, 0, 0, heading(0, -1_000_000), SheepBehavior::Running)];
    assert_eq!(
        SheepHeadingSystem::running_heading(Heading::east(), p, &same),
        heading(0, -1_000_000)
    );
}

#[test]
fn new_running_heading_looks_at_running_natural_neighbors_only() {
    let me = Entity { index: 0, generation: 0 };
    let rtree = EntityRTree::bulk_load(vec![
        entry(0, 10_000_000, 10_000_000, Heading::east(), SheepBehavior::Running),
        entry(1, 11_000_000, 10_000_000, heading(0, 1_000_000), SheepBehavior::Walking),
        entry(2, 13_000_000, 10_000_000, heading(0, 1_000_000), SheepBehavior::Running),
    ]);
    let got = SheepHeadingSystem::new_running_heading(
        Heading::east(),
        me,
        Vec2::new(10_000_000, 10_000_000),
        &rtree,
    );
    assert_eq!(got, heading(196_116, 980_580));
    let alone = EntityRTree::bulk_load(vec![entry(
        0,
        10_000_000,
        10_000_000,
        Heading::east(),
        SheepBehavior::Running,
    )]);
    let got = SheepHeadingSystem::new_running_heading(
        heading(600_000, 800_000),
        me,
        Vec2::new(10_000_000, 10_000_000),
        &alone,
    );
    assert_eq!(got, heading(600_000, 800_000));
}

#[test]
fn new_walking_heading_stays_within_the_noise() {
    let rtree = EntityRTree::bulk_load(vec![entry(
        0,
        10_000_000,
        10_000_000,
        Heading::east(),
        SheepBehavior::Walking,
    )]);
    let mut dice = Dice::new(3);
    let mut seen_turn = false;
    for _ in 0..100 {
        let h = SheepHeadingSystem::new_walking_heading(
            Heading::east(),
            Vec2::new(10_000_000, 10_000_000),
            &rtree,
            &mut dice,
        );
        // cos(0.4082) is about 0.9178 and sin(0.4082) about 0.3970.
        assert!(h.r.x >= 917_000 && h.r.x <= 1_000_000);
        assert!(h.r.y.abs() <= 397_000);
        if h != Heading::east() {
            seen_turn = true;
        }
    }
    assert!(seen_turn);
}

#[test]
fn heading_stage_leaves_stationary_sheep_and_bare_rows() {
    let rtree = EntityRTree::new();
    let generations = vec![0u32, 0, 0];
    let positions = vec![Some(Position::new(5_000_000, 5_000_000)), None, Some(Position::new(1, 1))];
    let behaviors = vec![
        Some(SheepBehaviorState::new(SheepBehavior::Stationary { was_running_last_update: false })),
        Some(SheepBehaviorState::new(SheepBehavior::Walking)),
        Some(SheepBehaviorState::new(SheepBehavior::Running)),
    ];
    let mut headings = vec![Some(heading(0, 1_000_000)), Some(Heading::east()), None];
    let mut dice = Dice::new(5);
    SheepHeadingSystem::run(&rtree, &generations, &positions, &behaviors, &mut headings, &mut dice);
    assert_eq!(headings, vec![Some(heading(0, 1_000_000)), Some(Heading::east()), None]);
}
