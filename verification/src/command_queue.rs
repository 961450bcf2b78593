//! The queue of the sheep that are to be created.

use crate::component::{Heading, Position, SheepBehaviorState, Velocity};
use vstd::prelude::*;

verus! {

/// The order to create a sheep with the given components.
#[derive(Clone, Copy, Debug, PartialEq, Eq, Structural)]
pub struct CreateSheepCommand {
    pub position: Position,
    pub heading: Heading,
    pub velocity: Velocity,
    pub behavior: SheepBehaviorState,
}

impl CreateSheepCommand {
    /// The position is bounded and the heading is a unit vector.
    pub open spec fn wf(self) -> bool {
        &&& self.position.v.bounded()
        &&& self.heading.wf()
    }
}

/// The orders that the creation stage has yet to carry out, oldest first.
#[derive(Debug)]
pub struct CreateSheepCommandQueue {
    pub commands: Vec<CreateSheepCommand>,
}

impl CreateSheepCommandQueue {
    /// Every order of the queue is well formed.
    pub open spec fn wf(&self) -> bool {
        forall|i: int| 0 <= i < self.commands@.len() ==> (#[trigger] self.commands@[i]).wf()
    }

    /// Every order of the queue is for a position strictly inside the world.
    pub open spec fn in_world(&self) -> bool {
        forall|i: int|
            0 <= i < self.commands@.len() ==> (#[trigger] self.commands@[i]).position.v.in_world()
    }

    pub fn new() -> (q: CreateSheepCommandQueue)
        ensures
            q.commands@ == Seq::<CreateSheepCommand>::empty(),
            q.wf(),
            q.in_world(),
    {
        CreateSheepCommandQueue { commands: Vec::new() }
    }

    pub fn push(&mut self, command: CreateSheepCommand)
        ensures
            final(self).commands@ == old(self).commands@.push(command),
            old(self).wf() && command.wf() ==> final(self).wf(),
            old(self).in_world() && command.position.v.in_world() ==> final(self).in_world(),
    {
        self.commands.push(command);
    }

    pub fn clear(&mut self)
        ensures
            final(self).commands@ == Seq::<CreateSheepCommand>::empty(),
            final(self).wf(),
            final(self).in_world(),
    {
        self.commands.clear();
    }
}

} // verus!
