use flocksim::component::{
    Entity, Heading, SheepBehavior, SheepBehaviorState, CHECK_PERIOD_MILLIS,
};
use flocksim::entity_rtree::{EntityPosition, EntityRTree};
use flocksim::geometry::Vec2;
use flocksim::random::{Dice, PROBABILITY_ONE};
use flocksim::system::sheep_behavior::{
    count_kind, fourth_power_chance, mimetic_chance, next_behavior, run_chance,
    stop_running_chance, sum_distances, BehaviorKind,
};
use flocksim::system::SheepBehaviorSystem;

const STATIONARY: SheepBehavior = SheepBehavior::Stationary { was_running_last_update: false };
const STOPPED_RUNNING: SheepBehavior = SheepBehavior::Stationary { was_running_last_update: true };

fn entry(index: u32, x: i64, y: i64, behavior: SheepBehavior) -> EntityPosition {
    EntityPosition {
        entity: Entity { index, generation: 0 },
        position: Vec2::new(x, y),
        heading: Heading::east(),
        behavior: SheepBehaviorState::new(behavior),
    }
}

fn me() -> Entity {
    Entity { index: 0, generation: 0 }
}

#[test]
fn transitions_from_stationary() {
    for was in [false, true] {
        let from = SheepBehavior::Stationary { was_running_last_update: was };
        assert_eq!(next_behavior(from, true, false), SheepBehavior::Running);
        assert_eq!(next_behavior(from, true, true), SheepBehavior::Running);
        assert_eq!(next_behavior(from, false, true), SheepBehavior::Walking);
        assert_eq!(next_behavior(from, false, false), STATIONARY);
    }
}

#[test]
fn transitions_from_walking() {
    assert_eq!(next_behavior(SheepBehavior::Walking, true, false), SheepBehavior::Running);
    assert_eq!(next_behavior(SheepBehavior::Walking, true, true), SheepBehavior::Running);
    assert_eq!(next_behavior(SheepBehavior::Walking, false, true), STATIONARY);
    assert_eq!(next_behavior(SheepBehavior::Walking, false, false), SheepBehavior::Walking);
}

#[test]
fn transitions_from_running() {
    assert_eq!(next_behavior(SheepBehavior::Running, true, false), STOPPED_RUNNING);
    assert_eq!(next_behavior(SheepBehavior::Running, true, true), STOPPED_RUNNING);
    assert_eq!(next_behavior(SheepBehavior::Running, false, true), SheepBehavior::Running);
    assert_eq!(next_behavior(SheepBehavior::Running, false, false), SheepBehavior::Running);
}

#[test]
fn only_runners_that_stop_are_marked() {
    let all = [STATIONARY, STOPPED_RUNNING, SheepBehavior::Walking, SheepBehavior::Running];
    for from in all.iter() {
        for first in [false, true] {
            for second in [false, true] {
                let to = next_behavior(*from, first, second);
                if *from == SheepBehavior::Running && to != *from {
                    assert_eq!(to, STOPPED_RUNNING);
                }
                if *from != SheepBehavior::Running {
                    assert_ne!(to, STOPPED_RUNNING);
                }
            }
        }
    }
}

#[test]
fn mimetic_chances() {
    assert_eq!(PROBABILITY_ONE, 16_777_216);
    // (1 + 15 n) / 35
    assert_eq!(mimetic_chance(0, 35), 479_349);
    assert_eq!(mimetic_chance(1, 35), 7_669_584);
    assert_eq!(mimetic_chance(2, 35), 14_859_819);
    assert_eq!(mimetic_chance(3, 35), PROBABILITY_ONE);
    // (1 + 15 n) / 8
    assert_eq!(mimetic_chance(0, 8), 2_097_152);
    assert_eq!(mimetic_chance(1, 8), PROBABILITY_ONE);
    assert_eq!(mimetic_chance(usize::MAX, 8), PROBABILITY_ONE);
}

#[test]
fn fourth_power_chances() {
    // ((a / b) ^ 4) / 25
    assert_eq!(fourth_power_chance(1, 1), 671_088);
    assert_eq!(fourth_power_chance(2, 1), 10_737_418);
    assert_eq!(fourth_power_chance(3, 1), PROBABILITY_ONE);
    assert_eq!(fourth_power_chance(0, 5), 0);
    assert_eq!(fourth_power_chance(1, 2), 41_943);
}

#[test]
fn run_chances() {
    // One neighbor at the characteristic length: 1 / 25.
    assert_eq!(run_chance(36_000_000, 1, 0), 671_088);
    // Twice as far: 16 / 25.
    assert_eq!(run_chance(72_000_000, 1, 0), 10_737_418);
    assert_eq!(run_chance(72_000_000, 2, 2), PROBABILITY_ONE);
    assert_eq!(run_chance(4_000_000, 1, 1), 6_703_215);
    assert_eq!(run_chance(500_000, 1, 0), 0);
    // Without neighbors a sheep does not start to run.
    assert_eq!(run_chance(0, 0, 0), 0);
}

#[test]
fn stop_running_chances() {
    assert_eq!(stop_running_chance(36_000_000, 1, 0), 671_088);
    assert_eq!(stop_running_chance(18_000_000, 1, 0), 10_737_418);
    assert_eq!(stop_running_chance(72_000_000, 1, 0), 41_943);
    assert_eq!(stop_running_chance(72_000_000, 1, 1), PROBABILITY_ONE);
    assert_eq!(stop_running_chance(100_000_000, 1, 0), 11_269);
    assert_eq!(stop_running_chance(0, 0, 0), 0);
    assert_eq!(stop_running_chance(0, 2, 0), PROBABILITY_ONE);
}

#[test]
fn counting_and_summing() {
    let entries = vec![
        entry(0, 0, 0, SheepBehavior::Walking),
        entry(1, 3_000_000, 4_000_000, SheepBehavior::Walking),
        entry(2, 0, -2_000_000, STATIONARY),
        entry(3, 1, 0, STOPPED_RUNNING),
        entry(4, 0, 0, SheepBehavior::Running),
    ];
    assert_eq!(count_kind(&entries, BehaviorKind::Walking, me()), 1);
    assert_eq!(count_kind(&entries, BehaviorKind::Walking, Entity { index: 9, generation: 0 }), 2);
    assert_eq!(count_kind(&entries, BehaviorKind::Stationary, me()), 2);
    assert_eq!(count_kind(&entries, BehaviorKind::StoppedRunning, me()), 1);
    assert_eq!(count_kind(&entries, BehaviorKind::Running, me()), 1);
    assert_eq!(count_kind(&Vec::new(), BehaviorKind::Running, me()), 0);
    assert_eq!(sum_distances(&entries, Vec2::new(0, 0)), 5_000_000 + 2_000_000 + 1);
    assert_eq!(sum_distances(&Vec::new(), Vec2::new(0, 0)), 0);
}

#[test]
fn chances_from_the_tree() {
    let entries = vec![
        entry(0, 40_000_000, 40_000_000, SheepBehavior::Walking),
        entry(1, 40_500_000, 40_000_000, SheepBehavior::Walking),
        entry(2, 40_000_000, 40_900_000, STATIONARY),
        entry(3, 40_000_000, 76_000_000, SheepBehavior::Running),
    ];
    let rtree = EntityRTree::bulk_load(entries);
    let pos = Vec2::new(40_000_000, 40_000_000);
    // One walking sheep within a metre, the asking one left out.
    assert_eq!(SheepBehaviorSystem::stationary_to_walking_chance(me(), pos, &rtree), 7_669_584);
    // One stationary sheep within a metre.
    assert_eq!(SheepBehaviorSystem::walking_to_stationary_chance(me(), pos, &rtree), PROBABILITY_ONE);
    // Seen from the far sheep, the three others are natural neighbors or
    // hidden; its chances follow from those that are.
    let far = Entity { index: 3, generation: 0 };
    let far_pos = Vec2::new(40_000_000, 76_000_000);
    let near = rtree.natural_neighbors(
        far_pos,
        flocksim::entity_rtree::NeighborFilter::others(far),
        4,
    );
    let sum = sum_distances(&near, far_pos);
    let running = count_kind(&near, BehaviorKind::Running, far);
    let stopped = count_kind(&near, BehaviorKind::StoppedRunning, far);
    assert_eq!(
        SheepBehaviorSystem::to_running_chance(far, far_pos, &rtree),
        run_chance(sum, near.len(), running)
    );
    assert_eq!(
        SheepBehaviorSystem::running_to_stationary_chance(far, far_pos, &rtree),
        stop_running_chance(sum, near.len(), stopped)
    );
}

#[test]
fn update_counts_down_until_the_test_is_due() {
    let rtree = EntityRTree::new();
    let mut dice = Dice::new(1);
    let pos = Vec2::new(10_000_000, 10_000_000);
    let state = SheepBehaviorState::new(SheepBehavior::Running);
    assert_eq!(state.next_check_millis, CHECK_PERIOD_MILLIS);
    let after = SheepBehaviorSystem::update(state, 1, me(), pos, &rtree, &mut dice);
    assert_eq!(after.behavior, SheepBehavior::Running);
    assert_eq!(after.next_check_millis, 984);
    let after = SheepBehaviorSystem::update(after, 61, me(), pos, &rtree, &mut dice);
    assert_eq!(after.next_check_millis, 8);
    let after = SheepBehaviorSystem::update(after, 0, me(), pos, &rtree, &mut dice);
    assert_eq!(after.next_check_millis, 8);
    // Due: a running sheep without neighbors goes on running, and the next
    // test is a whole period away.
    let after = SheepBehaviorSystem::update(after, 1, me(), pos, &rtree, &mut dice);
    assert_eq!(after.behavior, SheepBehavior::Running);
    assert_eq!(after.next_check_millis, CHECK_PERIOD_MILLIS);
    // A very long pause does not wrap around.
    let after = SheepBehaviorSystem::update(after, u64::MAX, me(), pos, &rtree, &mut dice);
    assert_eq!(after.next_check_millis, CHECK_PERIOD_MILLIS);
}

#[test]
fn certain_outcomes_of_a_test() {
    let pos = Vec2::new(40_000_000, 40_000_000);
    let due = |behavior| SheepBehaviorState { behavior, next_check_millis: 16 };
    for seed in 0..20u64 {
        let mut dice = Dice::new(seed);
        // A walking sheep next to a stationary one stops for certain: its
        // chance to run is nil at such a small distance.
        let rtree = EntityRTree::bulk_load(vec![
            entry(0, 40_000_000, 40_000_000, SheepBehavior::Walking),
            entry(1, 40_500_000, 40_000_000, STATIONARY),
        ]);
        let after =
            SheepBehaviorSystem::update(due(SheepBehavior::Walking), 1, me(), pos, &rtree, &mut dice);
        assert_eq!(after.behavior, STATIONARY);
        // A stationary sheep among three walking ones starts to walk.
        let rtree = EntityRTree::bulk_load(vec![
            entry(0, 40_000_000, 40_000_000, STOPPED_RUNNING),
            entry(1, 40_500_000, 40_000_000, SheepBehavior::Walking),
            entry(2, 40_000_000, 40_500_000, SheepBehavior::Walking),
            entry(3, 39_500_000, 40_000_000, SheepBehavior::Walking),
        ]);
        let after =
            SheepBehaviorSystem::update(due(STOPPED_RUNNING), 1, me(), pos, &rtree, &mut dice);
        assert_eq!(after.behavior, SheepBehavior::Walking);
        // A running sheep whose only neighbor stands at the same place stops,
        // and is marked as having run.
        let rtree = EntityRTree::bulk_load(vec![
            entry(0, 40_000_000, 40_000_000, SheepBehavior::Running),
            entry(1, 40_000_000, 40_000_000, SheepBehavior::Running),
        ]);
        let after =
            SheepBehaviorSystem::update(due(SheepBehavior::Running), 1, me(), pos, &rtree, &mut dice);
        assert_eq!(after.behavior, STOPPED_RUNNING);
        // A sheep far from running neighbors starts to run.
        let rtree = EntityRTree::bulk_load(vec![
            entry(0, 1_000_000, 1_000_000, SheepBehavior::Walking),
            entry(1, 79_000_000, 79_000_000, SheepBehavior::Running),
        ]);
        let after = SheepBehaviorSystem::update(
            due(SheepBehavior::Walking),
            1,
            me(),
            Vec2::new(1_000_000, 1_000_000),
            &rtree,
            &mut dice,
        );
        assert_eq!(after.behavior, SheepBehavior::Running);
    }
}

#[test]
fn dice_certainties_and_noise_range() {
    let mut dice = Dice::new(42);
    for _ in 0..200 {
        assert!(!dice.chance(0));
        assert!(dice.chance(PROBABILITY_ONE));
        assert!(dice.chance(u32::MAX));
        let noise = dice.heading_noise();
        assert!(-408_200 <= noise && noise <= 408_200);
    }
    // The same seed gives the same draws, and the draws do vary.
    let mut a = Dice::new(7);
    let mut b = Dice::new(7);
    let draws_a: Vec<i32> = (0..50).map(|_| a.heading_noise()).collect();
    let draws_b: Vec<i32> = (0..50).map(|_| b.heading_noise()).collect();
    assert_eq!(draws_a, draws_b);
    assert!(draws_a.iter().any(|d| *d != draws_a[0]));
    let hits: Vec<bool> = (0..200).map(|_| a.chance(PROBABILITY_ONE / 2)).collect();
    assert!(hits.iter().any(|h| *h));
    assert!(hits.iter().any(|h| !*h));
}
