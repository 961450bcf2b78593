//! The world, the order of the stages within a tick, and the stepping of the
//! simulation behind its frame clock.

use crate::command_queue::{CreateSheepCommand, CreateSheepCommandQueue};
use crate::component::{
    Entity, Heading, Position, SheepBehavior, SheepBehaviorState, Socket, Velocity,
};
use crate::entity_rtree::{entries_unit, EntityRTree};
use crate::frame::{DeltaFrame, Frame, FRAME_DURATION_MILLIS};
use crate::geometry::{Vec2, UNIT};
use crate::network::message::{IncomingMessage, OutgoingMessage};
use crate::network::region::RegionRegistry;
use crate::random::Dice;
use crate::store::{positions_in_world, EntityStore, MAX_ENTITIES};
use crate::system::create_socket::{regions_after, sockets_after};
use crate::system::outbox::{agent_states_of, recipients_of};
use crate::system::position::position_after;
use crate::system::sheep_behavior::is_update_at;
use crate::system::sheep_heading::is_heading_update_at;
use crate::system::sheep_rtree::sheep_entries;
use crate::system::sheep_velocity::velocity_after;
use crate::system::{
    CreateCommandSystem, CreateSocketSystem, OutboxSystem, PositionSystem, SheepBehaviorSystem,
    SheepHeadingSystem, SheepRTreeSystem, SheepVelocitySystem,
};
use vstd::prelude::*;

verus! {

/// The entities and the resources of the simulation.
pub struct World {
    pub store: EntityStore,
    /// The number of frames that the present tick stands for.
    pub delta: DeltaFrame,
    /// The messages that have come in and wait for the next tick.
    pub inbox: Vec<IncomingMessage>,
    /// The messages that the present tick has produced.
    pub outbox: Vec<OutgoingMessage>,
    /// The spatial index over the sheep, rebuilt in every tick.
    pub rtree: EntityRTree,
    pub regions: RegionRegistry,
    pub create_commands: CreateSheepCommandQueue,
    pub dice: Dice,
}

impl World {
    /// The store, the index, the registry and the queue are well formed.
    pub open spec fn wf(&self) -> bool {
        &&& self.store.wf()
        &&& self.rtree.wf()
        &&& entries_unit(self.rtree@)
        &&& self.rtree@.len() <= MAX_ENTITIES
        &&& self.regions.wf()
        &&& self.create_commands.wf()
    }

    /// The store has room for the entities that the next tick may create:
    /// one for every message of the inbox and one for every order.
    pub open spec fn has_room(&self) -> bool {
        self.store.len() + self.inbox@.len() + self.create_commands.commands@.len()
            <= MAX_ENTITIES
    }

    /// The number of rows while the stages between the inbox stage and the
    /// creation stage run in the tick that leads to `self`.
    pub open spec fn rows_before_creation(&self, before: &World) -> int {
        self.store.len() - before.create_commands.commands@.len()
    }

    /// The world without entities, messages and orders, with dice that
    /// follow from `seed`.
    pub fn new(seed: u64) -> (world: World)
        ensures
            world.wf(),
            world.store.len() == 0,
            world.delta.delta == 0,
            world.inbox@.len() == 0,
            world.outbox@.len() == 0,
            world.create_commands.commands@.len() == 0,
            world.regions@ == Map::<crate::component::PeerAddr, crate::geometry::BoundingBox>::empty(),
    {
        World {
            store: EntityStore::new(),
            delta: DeltaFrame::new(0),
            inbox: Vec::new(),
            outbox: Vec::new(),
            rtree: EntityRTree::new(),
            regions: RegionRegistry::new(),
            create_commands: CreateSheepCommandQueue::new(),
            dice: Dice::new(seed),
        }
    }

    /// `self` is a world that a tick may lead to from `before`.
    ///
    /// The stages take effect in this order: inbox, index, behavior, heading,
    /// velocity, position, outbox, creation. The rows that the inbox stage
    /// adds carry a socket only; the sheep that the creation stage adds take
    /// part from the next tick on.
    pub open spec fn is_tick_of(&self, before: &World) -> bool {
        let orders = before.create_commands.commands@;
        let rows = self.rows_before_creation(before);
        let old_rows = before.store.len() as int;
        &&& self.wf()
        &&& self.delta == before.delta
        &&& self.inbox@.len() == 0
        &&& self.create_commands.commands@.len() == 0
        &&& old_rows <= rows <= old_rows + before.inbox@.len()
        &&& self.regions@ == regions_after(before.regions@, before.inbox@)
        &&& self.store.sockets@.take(rows) == sockets_after(before.store.sockets@, before.inbox@)
        &&& self.rtree@ == sheep_entries(
            self.store.generations@,
            before.store.behaviors@,
            before.store.positions@,
            before.store.headings@,
            old_rows,
        )
        &&& forall|i: int|
            0 <= i < old_rows ==> {
                let entity = Entity { index: i as u32, generation: self.store.generations@[i] };
                &&& self.store.generations@[i] == before.store.generations@[i]
                &&& is_update_at(
                    before.store.positions@[i],
                    before.store.behaviors@[i],
                    #[trigger] self.store.behaviors@[i],
                    before.delta.delta,
                    self.rtree@,
                    entity,
                )
                &&& is_heading_update_at(
                    before.store.positions@[i],
                    self.store.behaviors@[i],
                    before.store.headings@[i],
                    self.store.headings@[i],
                    self.rtree@,
                    entity,
                )
                &&& self.store.velocities@[i] == velocity_after(
                    self.store.behaviors@[i],
                    self.store.headings@[i],
                    before.store.velocities@[i],
                )
                &&& self.store.positions@[i] == position_after(
                    before.store.positions@[i],
                    self.store.velocities@[i],
                    before.delta.delta,
                )
            }
        &&& forall|i: int|
            old_rows <= i < rows ==> {
                &&& #[trigger] self.store.generations@[i] == 0
                &&& self.store.positions@[i].is_none()
                &&& self.store.headings@[i].is_none()
                &&& self.store.velocities@[i].is_none()
                &&& self.store.behaviors@[i].is_none()
            }
        &&& forall|i: int|
            rows <= i < self.store.len() ==> {
                &&& #[trigger] self.store.generations@[i] == 0
                &&& self.store.positions@[i] == Some(orders[i - rows].position)
                &&& self.store.headings@[i] == Some(orders[i - rows].heading)
                &&& self.store.velocities@[i] == Some(orders[i - rows].velocity)
                &&& self.store.behaviors@[i] == Some(orders[i - rows].behavior)
                &&& self.store.sockets@[i].is_none()
            }
        &&& self.outbox@.len() == before.outbox@.len() + recipients_of(
            self.store.sockets@,
            rows,
        ).len()
        &&& forall|k: int|
            0 <= k < before.outbox@.len() ==> #[trigger] self.outbox@[k] == before.outbox@[k]
        &&& forall|k: int|
            0 <= k < recipients_of(self.store.sockets@, rows).len() ==> {
                let msg = #[trigger] self.outbox@[before.outbox@.len() + k];
                &&& msg.recipient == recipients_of(self.store.sockets@, rows)[k]
                &&& msg.agent_states@ == agent_states_of(
                    self.store.positions@,
                    self.store.headings@,
                    rows,
                )
            }
    }

    /// Runs the stages of one tick in their order.
    pub fn dispatch(&mut self)
        requires
            old(self).store.wf(),
            old(self).regions.wf(),
            old(self).create_commands.wf(),
            old(self).has_room(),
        ensures
            final(self).is_tick_of(old(self)),
    {
        let ghost old_rows = self.store.len() as int;
        CreateSocketSystem::run(&mut self.inbox, &mut self.store, &mut self.regions);
        let ghost after_inbox = self.store;
        let ghost rows = self.store.len() as int;
        SheepRTreeSystem::run(
            &mut self.rtree,
            &self.store.generations,
            &self.store.behaviors,
            &self.store.positions,
            &self.store.headings,
        );
        proof {
            lemma_sheep_entries_padded(
                self.store.generations@,
                old(self).store.behaviors@,
                self.store.behaviors@,
                old(self).store.positions@,
                self.store.positions@,
                old(self).store.headings@,
                self.store.headings@,
                old_rows,
                rows,
            );
        }
        SheepBehaviorSystem::run(
            &self.delta,
            &self.rtree,
            &self.store.generations,
            &self.store.positions,
            &mut self.store.behaviors,
            &mut self.dice,
        );
        SheepHeadingSystem::run(
            &self.rtree,
            &self.store.generations,
            &self.store.positions,
            &self.store.behaviors,
            &mut self.store.headings,
            &mut self.dice,
        );
        SheepVelocitySystem::run(
            &self.store.behaviors,
            &self.store.headings,
            &mut self.store.velocities,
        );
        PositionSystem::run(&self.delta, &self.store.velocities, &mut self.store.positions);
        OutboxSystem::run(
            &mut self.outbox,
            &self.store.sockets,
            &self.store.positions,
            &self.store.headings,
        );
        let ghost before_creation = self.store;
        CreateCommandSystem::run(&mut self.create_commands, &mut self.store);
        proof {
            let orders = old(self).create_commands.commands@;
            assert(self.store.len() == rows + orders.len());
            assert(self.store.sockets@.take(rows) =~= before_creation.sockets@);
            assert forall|i: int| 0 <= i < rows implies self.store.generations@[i]
                == before_creation.generations@[i] && self.store.positions@[i]
                == before_creation.positions@[i] && self.store.headings@[i]
                == before_creation.headings@[i] && self.store.velocities@[i]
                == before_creation.velocities@[i] && #[trigger] self.store.behaviors@[i]
                == before_creation.behaviors@[i] && self.store.sockets@[i]
                == before_creation.sockets@[i] by {}
            lemma_sheep_entries_agree(
                self.store.generations@,
                before_creation.generations@,
                old(self).store.behaviors@,
                old(self).store.positions@,
                old(self).store.headings@,
                old_rows,
            );
            lemma_recipients_agree(self.store.sockets@, before_creation.sockets@, rows);
            lemma_agent_states_agree(
                self.store.positions@,
                before_creation.positions@,
                self.store.headings@,
                before_creation.headings@,
                rows,
            );
            assert forall|i: int| old_rows <= i < rows implies {
                &&& #[trigger] self.store.generations@[i] == 0
                &&& self.store.positions@[i].is_none()
                &&& self.store.headings@[i].is_none()
                &&& self.store.velocities@[i].is_none()
                &&& self.store.behaviors@[i].is_none()
            } by {
                assert(after_inbox.positions@[i].is_none());
                assert(after_inbox.headings@[i].is_none());
                assert(after_inbox.velocities@[i].is_none());
                assert(after_inbox.behaviors@[i].is_none());
                assert(after_inbox.generations@[i] == 0);
            }
            assert forall|i: int| 0 <= i < old_rows implies {
                let entity = Entity { index: i as u32, generation: self.store.generations@[i] };
                &&& self.store.generations@[i] == old(self).store.generations@[i]
                &&& is_update_at(
                    old(self).store.positions@[i],
                    old(self).store.behaviors@[i],
                    #[trigger] self.store.behaviors@[i],
                    old(self).delta.delta,
                    self.rtree@,
                    entity,
                )
                &&& is_heading_update_at(
                    old(self).store.positions@[i],
                    self.store.behaviors@[i],
                    old(self).store.headings@[i],
                    self.store.headings@[i],
                    self.rtree@,
                    entity,
                )
                &&& self.store.velocities@[i] == velocity_after(
                    self.store.behaviors@[i],
                    self.store.headings@[i],
                    old(self).store.velocities@[i],
                )
                &&& self.store.positions@[i] == position_after(
                    old(self).store.positions@[i],
                    self.store.velocities@[i],
                    old(self).delta.delta,
                )
            } by {
                assert(after_inbox.positions@[i] == old(self).store.positions@[i]);
                assert(after_inbox.headings@[i] == old(self).store.headings@[i]);
                assert(after_inbox.velocities@[i] == old(self).store.velocities@[i]);
                assert(after_inbox.behaviors@[i] == old(self).store.behaviors@[i]);
                assert(after_inbox.generations@[i] == old(self).store.generations@[i]);
                assert(self.store.behaviors@[i] == before_creation.behaviors@[i]);
            }
        }
    }
}

/// Columns that were padded with empty cells give the entries of the columns
/// as they were.
proof fn lemma_sheep_entries_padded(
    generations: Seq<u32>,
    behaviors: Seq<Option<SheepBehaviorState>>,
    behaviors_now: Seq<Option<SheepBehaviorState>>,
    positions: Seq<Option<Position>>,
    positions_now: Seq<Option<Position>>,
    headings: Seq<Option<Heading>>,
    headings_now: Seq<Option<Heading>>,
    old_rows: int,
    rows: int,
)
    requires
        0 <= old_rows <= rows,
        behaviors.len() == old_rows,
        positions.len() == old_rows,
        headings.len() == old_rows,
        crate::system::create_socket::padded(behaviors, behaviors_now),
        crate::system::create_socket::padded(positions, positions_now),
        crate::system::create_socket::padded(headings, headings_now),
        behaviors_now.len() == rows,
        positions_now.len() == rows,
        headings_now.len() == rows,
    ensures
        sheep_entries(generations, behaviors_now, positions_now, headings_now, rows)
            == sheep_entries(generations, behaviors, positions, headings, old_rows),
    decreases rows,
{
    if rows > old_rows {
        assert(behaviors_now[rows - 1].is_none());
        lemma_sheep_entries_prefix(
            generations,
            behaviors_now,
            positions_now,
            headings_now,
            old_rows,
            rows,
        );
    }
    lemma_sheep_entries_same(
        generations,
        behaviors,
        behaviors_now,
        positions,
        positions_now,
        headings,
        headings_now,
        old_rows,
    );
}

/// Rows without a behavior add no entries.
proof fn lemma_sheep_entries_prefix(
    generations: Seq<u32>,
    behaviors: Seq<Option<SheepBehaviorState>>,
    positions: Seq<Option<Position>>,
    headings: Seq<Option<Heading>>,
    from: int,
    to: int,
)
    requires
        0 <= from <= to <= behaviors.len(),
        forall|i: int| from <= i < to ==> (#[trigger] behaviors[i]).is_none(),
    ensures
        sheep_entries(generations, behaviors, positions, headings, to) == sheep_entries(
            generations,
            behaviors,
            positions,
            headings,
            from,
        ),
    decreases to - from,
{
    if to > from {
        assert(behaviors[to - 1].is_none());
        lemma_sheep_entries_prefix(generations, behaviors, positions, headings, from, to - 1);
    }
}

/// Columns that agree on the first `n` rows give the same entries for them.
proof fn lemma_sheep_entries_same(
    generations: Seq<u32>,
    behaviors: Seq<Option<SheepBehaviorState>>,
    behaviors_now: Seq<Option<SheepBehaviorState>>,
    positions: Seq<Option<Position>>,
    positions_now: Seq<Option<Position>>,
    headings: Seq<Option<Heading>>,
    headings_now: Seq<Option<Heading>>,
    n: int,
)
    requires
        0 <= n,
        forall|i: int| 0 <= i < n ==> #[trigger] behaviors_now[i] == behaviors[i],
        forall|i: int| 0 <= i < n ==> #[trigger] positions_now[i] == positions[i],
        forall|i: int| 0 <= i < n ==> #[trigger] headings_now[i] == headings[i],
    ensures
        sheep_entries(generations, behaviors_now, positions_now, headings_now, n)
            == sheep_entries(generations, behaviors, positions, headings, n),
    decreases n,
{
    if n > 0 {
        lemma_sheep_entries_same(
            generations,
            behaviors,
            behaviors_now,
            positions,
            positions_now,
            headings,
            headings_now,
            n - 1,
        );
        assert(behaviors_now[n - 1] == behaviors[n - 1]);
        assert(positions_now[n - 1] == positions[n - 1]);
        assert(headings_now[n - 1] == headings[n - 1]);
    }
}

/// Generations that agree on the first `n` rows give the same entries for
/// them.
proof fn lemma_sheep_entries_agree(
    a: Seq<u32>,
    b: Seq<u32>,
    behaviors: Seq<Option<SheepBehaviorState>>,
    positions: Seq<Option<Position>>,
    headings: Seq<Option<Heading>>,
    n: int,
)
    requires
        0 <= n,
        forall|i: int| 0 <= i < n ==> #[trigger] a[i] == b[i],
    ensures
        sheep_entries(a, behaviors, positions, headings, n) == sheep_entries(
            b,
            behaviors,
            positions,
            headings,
            n,
        ),
    decreases n,
{
    if n > 0 {
        lemma_sheep_entries_agree(a, b, behaviors, positions, headings, n - 1);
        assert(a[n - 1] == b[n - 1]);
    }
}

/// Columns that agree on the first `n` rows give the same recipients for
/// them.
proof fn lemma_recipients_agree(a: Seq<Option<Socket>>, b: Seq<Option<Socket>>, n: int)
    requires
        0 <= n,
        forall|i: int| 0 <= i < n ==> #[trigger] a[i] == b[i],
    ensures
        recipients_of(a, n) == recipients_of(b, n),
    decreases n,
{
    if n > 0 {
        lemma_recipients_agree(a, b, n - 1);
        assert(a[n - 1] == b[n - 1]);
    }
}

/// Columns that agree on the first `n` rows give the same agent states for
/// them.
proof fn lemma_agent_states_agree(
    positions: Seq<Option<Position>>,
    positions_then: Seq<Option<Position>>,
    headings: Seq<Option<Heading>>,
    headings_then: Seq<Option<Heading>>,
    n: int,
)
    requires
        0 <= n,
        forall|i: int| 0 <= i < n ==> #[trigger] positions[i] == positions_then[i],
        forall|i: int| 0 <= i < n ==> #[trigger] headings[i] == headings_then[i],
    ensures
        agent_states_of(positions, headings, n) == agent_states_of(
            positions_then,
            headings_then,
            n,
        ),
    decreases n,
{
    if n > 0 {
        lemma_agent_states_agree(positions, positions_then, headings, headings_then, n - 1);
        assert(positions[n - 1] == positions_then[n - 1]);
        assert(headings[n - 1] == headings_then[n - 1]);
    }
}

/// A tick keeps the sheep inside the world: where every sheep stood
/// strictly inside the world box before the tick, and every order was for a
/// position strictly inside it, every sheep stands strictly inside it after
/// the tick.
pub proof fn lemma_tick_keeps_sheep_in_world(before: World, after: World)
    requires
        before.store.wf(),
        after.is_tick_of(&before),
        positions_in_world(before.store.positions@),
        before.create_commands.in_world(),
    ensures
        positions_in_world(after.store.positions@),
{
    let rows = after.rows_before_creation(&before);
    let old_rows = before.store.len() as int;
    let orders = before.create_commands.commands@;
    assert forall|i: int|
        0 <= i < after.store.positions@.len() && (
        #[trigger] after.store.positions@[i]).is_some() implies after.store.positions@[i].unwrap().v.in_world() by {
        if i < old_rows {
            // What the tick says of row `i` is stated of its behavior.
            let _ = after.store.behaviors@[i];
            let p = before.store.positions@[i];
            let v = after.store.velocities@[i];
            assert(after.store.positions@[i] == position_after(p, v, before.delta.delta));
            if p.is_some() && v.is_some() {
                crate::system::position::lemma_moved_stays(
                    p.unwrap(),
                    v.unwrap(),
                    before.delta.delta,
                );
            }
        } else if i < rows {
            assert(after.store.generations@[i] == 0);
        } else {
            assert(after.store.generations@[i] == 0);
            assert(orders[i - rows].position.v.in_world());
        }
    }
}

/// After a tick, a sheep that took part in it stands still exactly if it is
/// stationary: of every entity that was there before the creation stage and
/// carries a behavior, a heading and a velocity, the velocity is zero
/// exactly if the behavior is stationary.
pub proof fn lemma_tick_velocity_zero_iff_stationary(before: World, after: World, i: int)
    requires
        before.store.wf(),
        after.is_tick_of(&before),
        0 <= i < before.store.len(),
        after.store.behaviors@[i].is_some(),
        after.store.headings@[i].is_some(),
        after.store.velocities@[i].is_some(),
    ensures
        after.store.velocities@[i].unwrap().v == (Vec2 { x: 0, y: 0 })
            <==> after.store.behaviors@[i].unwrap().behavior is Stationary,
{
    let b = after.store.behaviors@[i];
    let h = after.store.headings@[i];
    let v = before.store.velocities@[i];
    assert(after.store.velocities@[i] == velocity_after(b, h, v));
    assert(v.is_some());
    assert(h.unwrap().wf());
    crate::system::sheep_velocity::lemma_velocity_zero_iff_stationary(
        b.unwrap().behavior,
        h.unwrap(),
    );
}

/// The order for a walking sheep that stands at `(x, y)` and looks along the
/// x axis.
pub open spec fn walking_sheep_at(x: i64, y: i64) -> CreateSheepCommand {
    CreateSheepCommand {
        position: Position { v: Vec2 { x, y } },
        heading: Heading { r: Vec2 { x: UNIT, y: 0 } },
        velocity: Velocity { v: Vec2 { x: 0, y: 0 } },
        behavior: SheepBehaviorState {
            behavior: SheepBehavior::Walking,
            next_check_millis: crate::component::CHECK_PERIOD_MILLIS,
        },
    }
}

/// Distance between the sheep of the first flock's rows and columns, in
/// micrometres.
pub const FLOCK_SPACING: i64 = 4_000_000;

/// Where the sheep apart from the first flock stands, on both axes.
pub const LONE_SHEEP_AT: i64 = 64_000_000;

/// The simulation: the world and the frame that it is in.
pub struct State {
    pub world: World,
    pub frame: Option<Frame>,
}

impl State {
    /// The world and the frame are well formed.
    pub open spec fn wf(&self) -> bool {
        &&& self.world.wf()
        &&& self.frame.is_some() ==> self.frame.unwrap().wf()
    }

    /// The store has room for the entities that a step with `incoming`
    /// messages may create: one for every message, those of the inbox
    /// among them, and one for every order.
    pub open spec fn has_room_for(&self, incoming: nat) -> bool {
        self.world.store.len() + self.world.inbox@.len() + incoming
            + self.world.create_commands.commands@.len() <= MAX_ENTITIES
    }

    /// Whether the store has room for the entities that a step with
    /// `incoming` messages may create.
    pub fn room_for(&self, incoming: usize) -> (r: bool)
        requires
            self.world.store.wf(),
        ensures
            r == self.has_room_for(incoming as nat),
    {
        let limit: u128 = MAX_ENTITIES as u128;
        let need: u128 = self.world.store.count() as u128 + self.world.inbox.len() as u128
            + incoming as u128 + self.world.create_commands.commands.len() as u128;
        need <= limit
    }

    /// Whether a step may be taken at `now`: the clock has not gone back
    /// behind the ideal start of the frame.
    pub fn clock_allows(&self, now: u64) -> (r: bool)
        ensures
            r == (self.frame.is_some() ==> now >= self.frame.unwrap().ideal_start_time),
    {
        match self.frame {
            Some(frame) => now >= frame.ideal_start_time,
            None => true,
        }
    }

    /// The simulation before its first tick. The orders for the first sheep
    /// wait in the queue: five rows of five walking sheep, four metres
    /// apart, and one more far from them.
    pub fn new(seed: u64) -> (state: State)
        ensures
            state.wf(),
            state.frame.is_none(),
            state.world.store.len() == 0,
            state.world.inbox@.len() == 0,
            state.world.outbox@.len() == 0,
            state.world.create_commands.in_world(),
            state.world.create_commands.commands@.len() == 26,
            forall|x: int, y: int|
                1 <= x <= 5 && 1 <= y <= 5 ==> #[trigger] state.world.create_commands.commands@[(x
                    - 1) * 5 + (y - 1)] == walking_sheep_at(
                    (x * FLOCK_SPACING) as i64,
                    (y * FLOCK_SPACING) as i64,
                ),
            state.world.create_commands.commands@[25] == walking_sheep_at(
                LONE_SHEEP_AT,
                LONE_SHEEP_AT,
            ),
    {
        let mut world = World::new(seed);
        Self::initialize_cmd_queue(&mut world.create_commands);
        State { world, frame: None }
    }

    /// The order for a walking sheep at `(x, y)`.
    fn walking_sheep(x: i64, y: i64) -> (cmd: CreateSheepCommand)
        ensures
            cmd == walking_sheep_at(x, y),
    {
        CreateSheepCommand {
            position: Position::new(x, y),
            heading: Heading::east(),
            velocity: Velocity::new(0, 0),
            behavior: SheepBehaviorState::new(SheepBehavior::Walking),
        }
    }

    /// Queues the orders for the first sheep.
    fn initialize_cmd_queue(create_cmds: &mut CreateSheepCommandQueue)
        requires
            old(create_cmds).commands@.len() == 0,
        ensures
            final(create_cmds).wf(),
            final(create_cmds).in_world(),
            final(create_cmds).commands@.len() == 26,
            forall|x: int, y: int|
                1 <= x <= 5 && 1 <= y <= 5 ==> #[trigger] final(create_cmds).commands@[(x - 1) * 5
                    + (y - 1)] == walking_sheep_at(
                    (x * FLOCK_SPACING) as i64,
                    (y * FLOCK_SPACING) as i64,
                ),
            final(create_cmds).commands@[25] == walking_sheep_at(LONE_SHEEP_AT, LONE_SHEEP_AT),
    {
        let mut x: i64 = 1;
        while x <= 5
            invariant
                1 <= x <= 6,
                create_cmds.wf(),
                create_cmds.in_world(),
                create_cmds.commands@.len() == (x - 1) * 5,
                forall|a: int, b: int|
                    1 <= a < x && 1 <= b <= 5 ==> #[trigger] create_cmds.commands@[(a - 1) * 5 + (b
                        - 1)] == walking_sheep_at(
                        (a * FLOCK_SPACING) as i64,
                        (b * FLOCK_SPACING) as i64,
                    ),
            decreases 6 - x,
        {
            let mut y: i64 = 1;
            while y <= 5
                invariant
                    1 <= x <= 5,
                    1 <= y <= 6,
                    create_cmds.wf(),
                    create_cmds.in_world(),
                    create_cmds.commands@.len() == (x - 1) * 5 + (y - 1),
                    forall|a: int, b: int|
                        1 <= a <= x && 1 <= b <= 5 && (a < x || b < y)
                            ==> #[trigger] create_cmds.commands@[(a - 1) * 5 + (b - 1)]
                            == walking_sheep_at(
                            (a * FLOCK_SPACING) as i64,
                            (b * FLOCK_SPACING) as i64,
                        ),
                decreases 6 - y,
            {
                let ghost before = create_cmds.commands@;
                let cmd = Self::walking_sheep(x * FLOCK_SPACING, y * FLOCK_SPACING);
                assert(cmd.wf() && cmd.position.v.in_world());
                create_cmds.push(cmd);
                proof {
                    assert forall|a: int, b: int|
                        1 <= a <= x && 1 <= b <= 5 && (a < x || b < y + 1)
                            implies #[trigger] create_cmds.commands@[(a - 1) * 5 + (b - 1)]
                        == walking_sheep_at(
                        (a * FLOCK_SPACING) as i64,
                        (b * FLOCK_SPACING) as i64,
                    ) by {
                        if a < x || b < y {
                            assert(create_cmds.commands@[(a - 1) * 5 + (b - 1)] == before[(a - 1)
                                * 5 + (b - 1)]);
                        }
                    }
                }
                y += 1;
            }
            x += 1;
        }
        let ghost before = create_cmds.commands@;
        let cmd = Self::walking_sheep(LONE_SHEEP_AT, LONE_SHEEP_AT);
        assert(cmd.wf() && cmd.position.v.in_world());
        create_cmds.push(cmd);
        proof {
            assert forall|a: int, b: int| 1 <= a <= 5 && 1 <= b <= 5 implies #[trigger] create_cmds.commands@[(
            a - 1) * 5 + (b - 1)] == walking_sheep_at(
                (a * FLOCK_SPACING) as i64,
                (b * FLOCK_SPACING) as i64,
            ) by {
                assert(create_cmds.commands@[(a - 1) * 5 + (b - 1)] == before[(a - 1) * 5 + (b
                    - 1)]);
            }
        }
    }

    /// Milliseconds that the caller has to let pass at `now` before the next
    /// step: none before the first step, and after it what is left of a
    /// frame's duration since the ideal start of the frame.
    pub fn wait_millis(&self, now: u64) -> (wait: u64)
        requires
            self.frame.is_some() ==> now >= self.frame.unwrap().ideal_start_time,
        ensures
            wait == match self.frame {
                Some(frame) => if now - frame.ideal_start_time < FRAME_DURATION_MILLIS {
                    FRAME_DURATION_MILLIS - (now - frame.ideal_start_time)
                } else {
                    0
                },
                None => 0,
            },
    {
        match self.frame {
            Some(frame) => frame.wait_millis(now),
            None => 0,
        }
    }

    /// The frame that a step at `now` leads to.
    pub open spec fn frame_after_step(&self, now: u64) -> Frame {
        match self.frame {
            Some(frame) => frame.following(now),
            None => Frame { number: 0, start_time: now, ideal_start_time: now },
        }
    }

    /// The number of frames that a step at `now` stands for: none for the
    /// first step, and after it the growth of the frame number.
    pub open spec fn delta_of_step(&self, now: u64) -> int {
        match self.frame {
            Some(frame) => frame.elapsed_frames(now),
            None => 0,
        }
    }

    /// The world as the stages of a step at `now` find it: with the frames
    /// that the step stands for, and with `incoming` behind the messages of
    /// the inbox.
    pub open spec fn is_ready_for_tick(
        &self,
        world: &World,
        now: u64,
        incoming: Seq<IncomingMessage>,
    ) -> bool {
        &&& world.store == self.world.store
        &&& world.delta.delta == self.delta_of_step(now)
        &&& world.inbox@ == self.world.inbox@ + incoming
        &&& world.outbox@ == self.world.outbox@
        &&& world.regions == self.world.regions
        &&& world.create_commands == self.world.create_commands
    }

    /// One step of the simulation at the time `now`: moves on to the frame
    /// that is current, takes `incoming` into the inbox in its order, runs
    /// the stages of a tick, and hands back the messages of the outbox in the
    /// order in which they were produced.
    pub fn step(&mut self, now: u64, incoming: Vec<IncomingMessage>) -> (outgoing: Vec<
        OutgoingMessage,
    >)
        requires
            old(self).wf(),
            old(self).frame.is_some() ==> now >= old(self).frame.unwrap().ideal_start_time,
            old(self).has_room_for(incoming@.len()),
        ensures
            final(self).wf(),
            final(self).frame == Some(old(self).frame_after_step(now)),
            final(self).frame.unwrap().wf(),
            final(self).world.delta.delta == old(self).delta_of_step(now),
            final(self).world.outbox@.len() == 0,
            exists|ready: World, done: World|
                {
                    &&& old(self).is_ready_for_tick(&ready, now, incoming@)
                    &&& #[trigger] done.is_tick_of(&ready)
                    &&& final(self).world.store == done.store
                    &&& final(self).world.rtree == done.rtree
                    &&& final(self).world.regions == done.regions
                    &&& final(self).world.inbox@ == done.inbox@
                    &&& final(self).world.create_commands == done.create_commands
                    &&& outgoing@ == done.outbox@
                },
    {
        // Update the frame counter.
        match self.frame {
            Some(frame) => {
                let next_frame = frame.next(now);
                let delta: u64 = next_frame.number - frame.number;
                self.frame = Some(next_frame);
                self.world.delta = DeltaFrame::new(delta);
            },
            None => {
                self.frame = Some(Frame::new(now));
                self.world.delta = DeltaFrame::new(0);
            },
        }
        // Forward the incoming messages into the inbox.
        let n: usize = incoming.len();
        let mut i: usize = 0;
        while i < n
            invariant
                0 <= i <= n,
                n == incoming@.len(),
                self.world.inbox@ == old(self).world.inbox@ + incoming@.take(i as int),
                self.world.store == old(self).world.store,
                self.world.outbox@ == old(self).world.outbox@,
                self.world.regions == old(self).world.regions,
                self.world.create_commands == old(self).world.create_commands,
                self.world.rtree == old(self).world.rtree,
                self.world.delta.delta == old(self).delta_of_step(now),
                self.frame == Some(old(self).frame_after_step(now)),
            decreases n - i,
        {
            self.world.inbox.push(incoming[i]);
            proof {
                assert(incoming@.take(i + 1) =~= incoming@.take(i as int).push(incoming@[i as int]));
                assert(self.world.inbox@ =~= old(self).world.inbox@ + incoming@.take(i + 1));
            }
            i += 1;
        }
        proof {
            assert(incoming@.take(n as int) =~= incoming@);
        }
        let ghost ready = self.world;
        // Execute a frame of the simulation.
        self.world.dispatch();
        let ghost done = self.world;
        // Hand out the messages that the frame has produced.
        let mut outgoing: Vec<OutgoingMessage> = Vec::new();
        std::mem::swap(&mut outgoing, &mut self.world.outbox);
        proof {
            assert(old(self).is_ready_for_tick(&ready, now, incoming@));
            assert(done.is_tick_of(&ready));
        }
        outgoing
    }
}

/// The number of frames that a step stands for is at least one once the wait
/// before it has run out, and none only for the first step or a step that
/// comes too early.
pub proof fn lemma_step_delta(state: State, now: u64)
    requires
        state.wf(),
        state.frame.is_some(),
        now >= state.frame.unwrap().ideal_start_time + FRAME_DURATION_MILLIS,
    ensures
        state.delta_of_step(now) >= 1,
        state.frame_after_step(now).ideal_start_time - state.frame.unwrap().ideal_start_time
            == state.delta_of_step(now) * FRAME_DURATION_MILLIS,
{
    crate::frame::lemma_following(state.frame.unwrap(), now);
}

} // verus!
