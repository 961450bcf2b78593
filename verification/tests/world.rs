use flocksim::command_queue::{CreateSheepCommand, CreateSheepCommandQueue};
use flocksim::component::{
    Entity, Heading, PeerAddr, Position, SheepBehavior, SheepBehaviorState, Socket, Velocity,
};
use flocksim::entity_rtree::EntityRTree;
use flocksim::geometry::{BoundingBox, Vec2};
use flocksim::network::message::{AgentState, FromClient, IncomingMessage, OutgoingMessage};
use flocksim::network::region::RegionRegistry;
use flocksim::state::{State, World};
use flocksim::store::EntityStore;
use flocksim::system::{
    CreateCommandSystem, CreateSocketSystem, OutboxSystem, SheepRTreeSystem,
};

const STATIONARY: SheepBehavior = SheepBehavior::Stationary { was_running_last_update: false };

fn peer(n: u16) -> PeerAddr {
    PeerAddr { ip: 0x7f00_0001, port: n }
}

fn region(n: i64) -> BoundingBox {
    BoundingBox { min_x: n, max_x: n + 10, min_y: -n, max_y: n * 2 }
}

fn register(n: u16, r: i64) -> IncomingMessage {
    IncomingMessage::new(peer(n), FromClient::RegisterInterest(region(r)))
}

fn sheep(x: i64, y: i64, behavior: SheepBehavior) -> CreateSheepCommand {
    CreateSheepCommand {
        position: Position::new(x, y),
        heading: Heading::east(),
        velocity: Velocity::new(0, 0),
        behavior: SheepBehaviorState::new(behavior),
    }
}

fn empty_state(seed: u64) -> State {
    State { world: World::new(seed), frame: None }
}

#[test]
fn region_registry_last_writer_wins() {
    let mut registry = RegionRegistry::new();
    assert_eq!(registry.get(peer(1)), None);
    registry.register(peer(1), region(1));
    assert_eq!(registry.get(peer(1)), Some(region(1)));
    registry.register(peer(1), region(2));
    assert_eq!(registry.get(peer(1)), Some(region(2)));
    assert_eq!(registry.len(), 1);
    registry.register(peer(2), region(3));
    assert_eq!(registry.get(peer(1)), Some(region(2)));
    assert_eq!(registry.get(peer(2)), Some(region(3)));
    assert_eq!(registry.get(peer(3)), None);
    assert_eq!(registry.len(), 2);
    // The same address with another port is another peer.
    assert_eq!(registry.get(PeerAddr { ip: 0x7f00_0001, port: 9 }), None);
}

#[test]
fn inbox_stage_creates_sockets_and_records_regions() {
    let mut store = EntityStore::new();
    let mut regions = RegionRegistry::new();
    let mut inbox = vec![register(1, 1), register(2, 5), register(1, 2)];
    CreateSocketSystem::run(&mut inbox, &mut store, &mut regions);
    assert!(inbox.is_empty());
    assert_eq!(store.count(), 2);
    assert_eq!(store.sockets, vec![Some(Socket::new(peer(1))), Some(Socket::new(peer(2)))]);
    assert_eq!(store.positions, vec![None, None]);
    assert_eq!(store.headings, vec![None, None]);
    assert_eq!(store.velocities, vec![None, None]);
    assert_eq!(store.behaviors, vec![None, None]);
    assert_eq!(store.generations, vec![0, 0]);
    // Only the later region of the first peer can be seen.
    assert_eq!(regions.get(peer(1)), Some(region(2)));
    assert_eq!(regions.get(peer(2)), Some(region(5)));
    // A known peer gets no second socket.
    let mut inbox = vec![register(2, 7), register(3, 8)];
    CreateSocketSystem::run(&mut inbox, &mut store, &mut regions);
    assert_eq!(
        store.sockets,
        vec![Some(Socket::new(peer(1))), Some(Socket::new(peer(2))), Some(Socket::new(peer(3)))]
    );
    assert_eq!(regions.get(peer(2)), Some(region(7)));
    assert!(CreateSocketSystem::find_socket(&store.sockets, peer(3)));
    assert!(!CreateSocketSystem::find_socket(&store.sockets, peer(4)));
}

#[test]
fn creation_stage_creates_sheep_in_order_and_clears_the_queue() {
    let mut store = EntityStore::new();
    let first = store.create();
    assert_eq!(first, Entity { index: 0, generation: 0 });
    let mut queue = CreateSheepCommandQueue::new();
    queue.push(sheep(1_000_000, 2_000_000, SheepBehavior::Walking));
    queue.push(sheep(3_000_000, 4_000_000, SheepBehavior::Running));
    assert_eq!(queue.commands.len(), 2);
    CreateCommandSystem::run(&mut queue, &mut store);
    assert!(queue.commands.is_empty());
    assert_eq!(store.count(), 3);
    assert_eq!(
        store.positions,
        vec![None, Some(Position::new(1_000_000, 2_000_000)), Some(Position::new(3_000_000, 4_000_000))]
    );
    assert_eq!(store.headings, vec![None, Some(Heading::east()), Some(Heading::east())]);
    assert_eq!(store.velocities, vec![None, Some(Velocity::new(0, 0)), Some(Velocity::new(0, 0))]);
    assert_eq!(
        store.behaviors,
        vec![
            None,
            Some(SheepBehaviorState::new(SheepBehavior::Walking)),
            Some(SheepBehaviorState::new(SheepBehavior::Running))
        ]
    );
    assert_eq!(store.sockets, vec![None, None, None]);
    let second = Entity { index: 2, generation: 0 };
    assert!(store.is_alive(second));
    assert_eq!(store.position(second), Some(Position::new(3_000_000, 4_000_000)));
    assert_eq!(store.heading(second), Some(Heading::east()));
    assert_eq!(store.velocity(second), Some(Velocity::new(0, 0)));
    assert_eq!(store.behavior(second), Some(SheepBehaviorState::new(SheepBehavior::Running)));
    assert_eq!(store.socket(second), None);
    assert_eq!(store.entity_at(2), second);
    // A stale or unknown identifier names no entity.
    let stale = Entity { index: 2, generation: 1 };
    assert!(!store.is_alive(stale));
    assert_eq!(store.position(stale), None);
    assert!(!store.is_alive(Entity { index: 3, generation: 0 }));
    queue.clear();
    assert!(queue.commands.is_empty());
}

#[test]
fn index_stage_holds_the_sheep_only() {
    let mut store = EntityStore::new();
    let mut queue = CreateSheepCommandQueue::new();
    queue.push(sheep(1_000_000, 1_000_000, SheepBehavior::Walking));
    CreateCommandSystem::run(&mut queue, &mut store);
    let mut inbox = vec![register(1, 1)];
    let mut regions = RegionRegistry::new();
    CreateSocketSystem::run(&mut inbox, &mut store, &mut regions);
    queue.push(sheep(1_500_000, 1_000_000, STATIONARY));
    CreateCommandSystem::run(&mut queue, &mut store);
    let mut rtree = EntityRTree::new();
    SheepRTreeSystem::run(
        &mut rtree,
        &store.generations,
        &store.behaviors,
        &store.positions,
        &store.headings,
    );
    let mut found = rtree.lookup_in_circle(Vec2::new(1_000_000, 1_000_000), 10_000_000);
    found.sort_by_key(|e| e.entity.index);
    assert_eq!(found.len(), 2);
    assert_eq!(found[0].entity, Entity { index: 0, generation: 0 });
    assert_eq!(found[0].position, Vec2::new(1_000_000, 1_000_000));
    assert_eq!(found[0].behavior, SheepBehaviorState::new(SheepBehavior::Walking));
    assert_eq!(found[1].entity, Entity { index: 2, generation: 0 });
    assert_eq!(found[1].heading, Heading::east());
    assert_eq!(found[1].behavior, SheepBehaviorState::new(STATIONARY));
}

#[test]
fn outbox_stage_tells_every_client_of_every_agent() {
    let sockets = vec![Some(Socket::new(peer(1))), None, None, Some(Socket::new(peer(2)))];
    let positions =
        vec![None, Some(Position::new(1, 2)), Some(Position::new(3, 4)), Some(Position::new(5, 6))];
    let headings = vec![None, Some(Heading::east()), None, Some(Heading::east())];
    let mut outbox = vec![OutgoingMessage::new(peer(9))];
    OutboxSystem::run(&mut outbox, &sockets, &positions, &headings);
    assert_eq!(outbox.len(), 3);
    assert_eq!(outbox[0].recipient, peer(9));
    assert!(outbox[0].agent_states.is_empty());
    let states = vec![
        AgentState { position: Some(Vec2::new(1, 2)), heading: Some(Heading::east()) },
        AgentState { position: Some(Vec2::new(5, 6)), heading: Some(Heading::east()) },
    ];
    assert_eq!(outbox[1].recipient, peer(1));
    assert_eq!(outbox[1].agent_states, states);
    assert_eq!(outbox[2].recipient, peer(2));
    assert_eq!(outbox[2].agent_states, states);
    let snap = OutboxSystem::snapshot(peer(4), &positions, &headings);
    assert_eq!(snap.recipient, peer(4));
    assert_eq!(snap.agent_states, states);
}

#[test]
fn new_state_queues_the_first_flock() {
    let state = State::new(1);
    assert!(state.frame.is_none());
    assert_eq!(state.world.store.count(), 0);
    let commands = &state.world.create_commands.commands;
    assert_eq!(commands.len(), 26);
    assert_eq!(commands[0], sheep(4_000_000, 4_000_000, SheepBehavior::Walking));
    assert_eq!(commands[1], sheep(4_000_000, 8_000_000, SheepBehavior::Walking));
    assert_eq!(commands[5], sheep(8_000_000, 4_000_000, SheepBehavior::Walking));
    assert_eq!(commands[24], sheep(20_000_000, 20_000_000, SheepBehavior::Walking));
    assert_eq!(commands[25], sheep(64_000_000, 64_000_000, SheepBehavior::Walking));
    assert_eq!(state.wait_millis(12345), 0);
    assert!(state.clock_allows(0));
    assert!(state.room_for(1000));
    assert!(!state.room_for(usize::MAX));
    assert!(state.room_for(0xFFFF_FFFF - 26));
    assert!(!state.room_for(0xFFFF_FFFF - 25));
}

#[test]
fn first_step_creates_the_sheep_and_later_steps_move_them() {
    let mut state = State::new(11);
    let out = state.step(1_000, Vec::new());
    assert!(out.is_empty());
    assert_eq!(state.world.delta.delta, 0);
    let frame = state.frame.unwrap();
    assert_eq!((frame.number, frame.start_time, frame.ideal_start_time), (0, 1_000, 1_000));
    assert_eq!(state.world.store.count(), 26);
    assert!(state.world.create_commands.commands.is_empty());
    assert_eq!(state.world.store.positions[0], Some(Position::new(4_000_000, 4_000_000)));
    assert_eq!(state.wait_millis(1_004), 12);
    assert!(!state.clock_allows(999));

    let out = state.step(1_016, Vec::new());
    assert!(out.is_empty());
    assert_eq!(state.world.delta.delta, 1);
    assert_eq!(state.frame.unwrap().number, 1);
    for i in 0..26 {
        let before = if i < 25 {
            Vec2::new(4_000_000 * (i / 5 + 1), 4_000_000 * (i % 5 + 1))
        } else {
            Vec2::new(64_000_000, 64_000_000)
        };
        let p = state.world.store.positions[i as usize].unwrap().v;
        let v = state.world.store.velocities[i as usize].unwrap().v;
        let b = state.world.store.behaviors[i as usize].unwrap();
        // The sheep walk, at 0.15 m/s and within the noise of due east.
        assert_eq!(b, SheepBehaviorState { behavior: SheepBehavior::Walking, next_check_millis: 984 });
        assert!(v.x >= 137_000 && v.x <= 150_000);
        assert!(v.y.abs() <= 60_000);
        assert_eq!(p.x, before.x + v.x * 16 / 1000);
        assert_eq!(p.y, before.y + if v.y >= 0 { v.y * 16 / 1000 } else { -((-v.y) * 16 / 1000) });
    }
}

#[test]
fn sheep_stay_in_the_world_and_stand_still_exactly_if_stationary() {
    let mut state = empty_state(2024);
    // A crowd near a corner, some of it running toward the boundary.
    for i in 0..30i64 {
        let behavior = match i % 3 {
            0 => SheepBehavior::Running,
            1 => SheepBehavior::Walking,
            _ => STATIONARY,
        };
        state.world.create_commands.push(sheep(
            79_000_000 + (i % 6) * 150_000,
            500_000 + (i / 6) * 400_000,
            behavior,
        ));
    }
    let mut now: u64 = 0;
    for tick in 0..400u64 {
        now += 16 + (tick % 5) * 9;
        assert!(state.clock_allows(now) && state.room_for(0));
        state.step(now, Vec::new());
        if tick > 0 {
            assert!(state.world.delta.delta >= 1);
        }
        let store = &state.world.store;
        for i in 0..store.count() {
            let p = store.positions[i].unwrap().v;
            assert!(p.x > 0 && p.x < 80_000_000 && p.y > 0 && p.y < 80_000_000);
            if tick > 0 {
                let stationary =
                    matches!(store.behaviors[i].unwrap().behavior, SheepBehavior::Stationary { .. });
                assert_eq!(store.velocities[i].unwrap() == Velocity::new(0, 0), stationary);
            }
            let h = store.headings[i].unwrap().r;
            let len2 = h.x * h.x + h.y * h.y;
            assert!(len2 > 999_990_000_000 && len2 <= 1_000_000_000_000);
        }
    }
}

#[test]
fn a_lone_stationary_sheep_stays_until_its_test() {
    let mut state = empty_state(5);
    state.world.create_commands.push(sheep(10_000_000, 10_000_000, STATIONARY));
    let mut now: u64 = 0;
    state.step(now, Vec::new());
    // The test of its behavior is due after a second; until then nothing
    // can move it.
    for _ in 0..62 {
        now += 16;
        state.step(now, Vec::new());
        assert_eq!(state.world.store.positions[0], Some(Position::new(10_000_000, 10_000_000)));
        assert_eq!(state.world.store.velocities[0], Some(Velocity::new(0, 0)));
        assert_eq!(state.world.store.behaviors[0].unwrap().behavior, STATIONARY);
        assert_eq!(state.world.store.headings[0], Some(Heading::east()));
    }
    assert_eq!(state.world.store.behaviors[0].unwrap().next_check_millis, 8);
}

#[test]
fn a_step_after_a_pause_counts_the_missed_frames() {
    let mut state = empty_state(5);
    state.world.create_commands.push(sheep(40_000_000, 40_000_000, STATIONARY));
    state.step(500, Vec::new());
    state.step(600, Vec::new());
    assert_eq!(state.world.delta.delta, 6);
    assert_eq!(state.frame.unwrap().ideal_start_time, 596);
    assert_eq!(state.frame.unwrap().number, 6);
    assert_eq!(state.world.store.behaviors[0].unwrap().next_check_millis, 1000 - 96);
    assert_eq!(state.wait_millis(600), 12);
    state.step(612, Vec::new());
    assert_eq!(state.world.delta.delta, 1);
}

#[test]
fn clients_hear_of_the_sheep_from_the_tick_after_their_creation() {
    let mut state = State::new(3);
    let out = state.step(0, vec![register(1, 1), register(2, 2), register(1, 3)]);
    // The sockets are there when the outbox stage runs; the sheep are not.
    assert_eq!(out.len(), 2);
    assert_eq!(out[0].recipient, peer(1));
    assert_eq!(out[1].recipient, peer(2));
    assert!(out[0].agent_states.is_empty());
    assert!(state.world.outbox.is_empty());
    assert!(state.world.inbox.is_empty());
    assert_eq!(state.world.regions.get(peer(1)), Some(region(3)));
    assert_eq!(state.world.regions.get(peer(2)), Some(region(2)));
    assert_eq!(state.world.store.count(), 28);
    assert_eq!(state.world.store.sockets[0], Some(Socket::new(peer(1))));
    assert_eq!(state.world.store.sockets[2], None);

    let out = state.step(16, vec![register(2, 9)]);
    assert_eq!(out.len(), 2);
    assert_eq!(state.world.store.count(), 28);
    assert_eq!(state.world.regions.get(peer(2)), Some(region(9)));
    for msg in out.iter() {
        assert_eq!(msg.agent_states.len(), 26);
        for (k, agent) in msg.agent_states.iter().enumerate() {
            assert_eq!(agent.position, state.world.store.positions[k + 2].map(|p| p.v));
            assert_eq!(agent.heading, state.world.store.headings[k + 2]);
        }
    }
}

#[test]
fn the_same_seed_gives_the_same_run() {
    let run = |seed: u64| {
        let mut state = State::new(seed);
        let mut now = 0;
        for _ in 0..150 {
            state.step(now, Vec::new());
            now += 16;
        }
        (state.world.store.positions, state.world.store.headings, state.world.store.behaviors)
    };
    let a = run(77);
    let b = run(77);
    assert_eq!(a, b);
    let c = run(78);
    assert_ne!(a.0, c.0);
}

#[test]
fn outgoing_message_collects_agent_states() {
    let mut msg = OutgoingMessage::new(peer(5));
    assert_eq!(msg.recipient, peer(5));
    assert!(msg.agent_states.is_empty());
    msg.with_agent_state(1, 2, Heading::east()).with_agent_state(-3, 4, Heading::east());
    assert_eq!(
        msg.agent_states,
        vec![
            AgentState { position: Some(Vec2::new(1, 2)), heading: Some(Heading::east()) },
            AgentState { position: Some(Vec2::new(-3, 4)), heading: Some(Heading::east()) },
        ]
    );
    assert_eq!(msg.recipient, peer(5));
}
