//! The stage that rebuilds the spatial index from the sheep as they stand.

use crate::component::{Entity, Heading, Position, SheepBehaviorState};
use crate::entity_rtree::{entries_bounded, entries_unit, EntityPosition, EntityRTree};
use crate::store::{headings_unit, positions_bounded, MAX_ENTITIES};
use vstd::prelude::*;

verus! {

/// The entry of the index for row `i`, if the entity carries a behavior, a
/// position and a heading.
pub open spec fn entry_of(
    i: int,
    generation: u32,
    behavior: Option<SheepBehaviorState>,
    position: Option<Position>,
    heading: Option<Heading>,
) -> Option<EntityPosition> {
    if behavior.is_some() && position.is_some() && heading.is_some() {
        Some(
            EntityPosition {
                entity: Entity { index: i as u32, generation },
                position: position.unwrap().v,
                heading: heading.unwrap(),
                behavior: behavior.unwrap(),
            },
        )
    } else {
        None
    }
}

/// The entries of the index for the first `n` rows, in the order of the
/// rows.
pub open spec fn sheep_entries(
    generations: Seq<u32>,
    behaviors: Seq<Option<SheepBehaviorState>>,
    positions: Seq<Option<Position>>,
    headings: Seq<Option<Heading>>,
    n: int,
) -> Seq<EntityPosition>
    decreases n,
{
    if n <= 0 {
        Seq::empty()
    } else {
        let before = sheep_entries(generations, behaviors, positions, headings, n - 1);
        match entry_of(
            n - 1,
            generations[n - 1],
            behaviors[n - 1],
            positions[n - 1],
            headings[n - 1],
        ) {
            Some(e) => before.push(e),
            None => before,
        }
    }
}

pub struct SheepRTreeSystem;

impl SheepRTreeSystem {
    /// Replaces the index by one that holds an entry for every entity that
    /// carries a behavior, a position and a heading.
    pub fn run(
        rtree: &mut EntityRTree,
        generations: &Vec<u32>,
        behaviors: &Vec<Option<SheepBehaviorState>>,
        positions: &Vec<Option<Position>>,
        headings: &Vec<Option<Heading>>,
    )
        requires
            generations@.len() <= MAX_ENTITIES,
            behaviors@.len() == generations@.len(),
            positions@.len() == generations@.len(),
            headings@.len() == generations@.len(),
            positions_bounded(positions@),
            headings_unit(headings@),
        ensures
            final(rtree)@ == sheep_entries(
                generations@,
                behaviors@,
                positions@,
                headings@,
                generations@.len() as int,
            ),
            final(rtree).wf(),
            entries_unit(final(rtree)@),
            final(rtree)@.len() <= generations@.len(),
    {
        let n: usize = generations.len();
        let mut entries: Vec<EntityPosition> = Vec::new();
        let mut i: usize = 0;
        while i < n
            invariant
                0 <= i <= n,
                n == generations@.len(),
                n <= MAX_ENTITIES,
                behaviors@.len() == n,
                positions@.len() == n,
                headings@.len() == n,
                positions_bounded(positions@),
                headings_unit(headings@),
                entries@ == sheep_entries(
                    generations@,
                    behaviors@,
                    positions@,
                    headings@,
                    i as int,
                ),
                entries@.len() <= i,
                entries_bounded(entries@),
                entries_unit(entries@),
            decreases n - i,
        {
            match (behaviors[i], positions[i], headings[i]) {
                (Some(behavior), Some(pos), Some(heading)) => {
                    assert(positions@[i as int].is_some());
                    assert(headings@[i as int].is_some());
                    entries.push(
                        EntityPosition {
                            entity: Entity { index: i as u32, generation: generations[i] },
                            position: pos.v,
                            heading,
                            behavior,
                        },
                    );
                },
                _ => {},
            }
            i += 1;
        }
        *rtree = EntityRTree::bulk_load(entries);
    }
}

} // verus!
