//! The entity store: a dense table with one row for each entity and one
//! column for each kind of component. A cell is empty where the entity does
//! not carry the component.

use crate::component::{Entity, Heading, Position, SheepBehaviorState, Socket, Velocity};
use vstd::prelude::*;

verus! {

/// Largest number of entities that the store holds: an entity's index fits
/// in 32 bits.
pub const MAX_ENTITIES: usize = 0xFFFF_FFFF;

/// Every position of the column is bounded.
pub open spec fn positions_bounded(positions: Seq<Option<Position>>) -> bool {
    forall|i: int|
        0 <= i < positions.len() && (#[trigger] positions[i]).is_some()
            ==> positions[i].unwrap().v.bounded()
}

/// Every position of the column lies strictly inside the world box.
pub open spec fn positions_in_world(positions: Seq<Option<Position>>) -> bool {
    forall|i: int|
        0 <= i < positions.len() && (#[trigger] positions[i]).is_some()
            ==> positions[i].unwrap().v.in_world()
}

/// Every heading of the column is a unit vector.
pub open spec fn headings_unit(headings: Seq<Option<Heading>>) -> bool {
    forall|i: int|
        0 <= i < headings.len() && (#[trigger] headings[i]).is_some() ==> headings[i].unwrap().wf()
}

/// The entities and their components.
pub struct EntityStore {
    /// The generation of each row.
    pub generations: Vec<u32>,
    pub positions: Vec<Option<Position>>,
    pub headings: Vec<Option<Heading>>,
    pub velocities: Vec<Option<Velocity>>,
    pub behaviors: Vec<Option<SheepBehaviorState>>,
    pub sockets: Vec<Option<Socket>>,
}

impl EntityStore {
    /// The number of entities.
    pub open spec fn len(&self) -> nat {
        self.generations@.len()
    }

    /// The columns have a cell for each entity, no position is out of bounds
    /// and every heading is a unit vector.
    pub open spec fn wf(&self) -> bool {
        &&& self.generations@.len() <= MAX_ENTITIES
        &&& self.positions@.len() == self.generations@.len()
        &&& self.headings@.len() == self.generations@.len()
        &&& self.velocities@.len() == self.generations@.len()
        &&& self.behaviors@.len() == self.generations@.len()
        &&& self.sockets@.len() == self.generations@.len()
        &&& positions_bounded(self.positions@)
        &&& headings_unit(self.headings@)
    }

    /// `entity` names a row of the store, in its present generation.
    pub open spec fn alive(&self, entity: Entity) -> bool {
        &&& entity.index < self.generations@.len()
        &&& self.generations@[entity.index as int] == entity.generation
    }

    /// The store without entities.
    pub fn new() -> (store: EntityStore)
        ensures
            store.wf(),
            store.len() == 0,
    {
        EntityStore {
            generations: Vec::new(),
            positions: Vec::new(),
            headings: Vec::new(),
            velocities: Vec::new(),
            behaviors: Vec::new(),
            sockets: Vec::new(),
        }
    }

    /// The number of entities.
    pub fn count(&self) -> (n: usize)
        ensures
            n == self.len(),
    {
        self.generations.len()
    }

    /// Adds an entity that carries no component.
    pub fn create(&mut self) -> (entity: Entity)
        requires
            old(self).wf(),
            old(self).len() < MAX_ENTITIES,
        ensures
            final(self).wf(),
            entity.index == old(self).len(),
            entity.generation == 0,
            final(self).alive(entity),
            final(self).generations@ == old(self).generations@.push(0),
            final(self).positions@ == old(self).positions@.push(None),
            final(self).headings@ == old(self).headings@.push(None),
            final(self).velocities@ == old(self).velocities@.push(None),
            final(self).behaviors@ == old(self).behaviors@.push(None),
            final(self).sockets@ == old(self).sockets@.push(None),
    {
        let index: usize = self.generations.len();
        self.generations.push(0);
        self.positions.push(None);
        self.headings.push(None);
        self.velocities.push(None);
        self.behaviors.push(None);
        self.sockets.push(None);
        Entity { index: index as u32, generation: 0 }
    }

    /// The entity of row `index`.
    pub fn entity_at(&self, index: usize) -> (entity: Entity)
        requires
            self.wf(),
            index < self.len(),
        ensures
            entity.index == index,
            entity.generation == self.generations@[index as int],
            self.alive(entity),
    {
        Entity { index: index as u32, generation: self.generations[index] }
    }

    /// Whether `entity` names a row of the store, in its present generation.
    pub fn is_alive(&self, entity: Entity) -> (r: bool)
        ensures
            r == self.alive(entity),
    {
        let i: usize = entity.index as usize;
        i < self.generations.len() && self.generations[i] == entity.generation
    }

    /// The position of `entity`, if it is alive and has one.
    pub fn position(&self, entity: Entity) -> (r: Option<Position>)
        requires
            self.wf(),
        ensures
            r == if self.alive(entity) {
                self.positions@[entity.index as int]
            } else {
                None
            },
    {
        if self.is_alive(entity) {
            self.positions[entity.index as usize]
        } else {
            None
        }
    }

    /// The heading of `entity`, if it is alive and has one.
    pub fn heading(&self, entity: Entity) -> (r: Option<Heading>)
        requires
            self.wf(),
        ensures
            r == if self.alive(entity) {
                self.headings@[entity.index as int]
            } else {
                None
            },
    {
        if self.is_alive(entity) {
            self.headings[entity.index as usize]
        } else {
            None
        }
    }

    /// The velocity of `entity`, if it is alive and has one.
    pub fn velocity(&self, entity: Entity) -> (r: Option<Velocity>)
        requires
            self.wf(),
        ensures
            r == if self.alive(entity) {
                self.velocities@[entity.index as int]
            } else {
                None
            },
    {
        if self.is_alive(entity) {
            self.velocities[entity.index as usize]
        } else {
            None
        }
    }

    /// The behavior state of `entity`, if it is alive and has one.
    pub fn behavior(&self, entity: Entity) -> (r: Option<SheepBehaviorState>)
        requires
            self.wf(),
        ensures
            r == if self.alive(entity) {
                self.behaviors@[entity.index as int]
            } else {
                None
            },
    {
        if self.is_alive(entity) {
            self.behaviors[entity.index as usize]
        } else {
            None
        }
    }

    /// The socket of `entity`, if it is alive and has one.
    pub fn socket(&self, entity: Entity) -> (r: Option<Socket>)
        requires
            self.wf(),
        ensures
            r == if self.alive(entity) {
                self.sockets@[entity.index as int]
            } else {
                None
            },
    {
        if self.is_alive(entity) {
            self.sockets[entity.index as usize]
        } else {
            None
        }
    }
}

} // verus!
