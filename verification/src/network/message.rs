//! Messages to and from the simulation.

use crate::component::{Heading, PeerAddr};
use crate::geometry::{BoundingBox, Vec2};
use vstd::prelude::*;

verus! {

/// What a client asks of the simulation.
#[derive(Clone, Copy, Debug, PartialEq, Eq, Structural)]
pub enum FromClient {
    /// The client wants to hear of what happens inside the box.
    RegisterInterest(BoundingBox),
}

/// Message sent to the server, with the peer that sent it.
#[derive(Clone, Copy, Debug, PartialEq, Eq, Structural)]
pub struct IncomingMessage {
    pub sender: PeerAddr,
    pub body: FromClient,
}

impl IncomingMessage {
    pub fn new(sender: PeerAddr, body: FromClient) -> (m: IncomingMessage)
        ensures
            m.sender == sender,
            m.body == body,
    {
        IncomingMessage { sender, body }
    }
}

/// What a client is told of one agent.
#[derive(Clone, Copy, Debug, PartialEq, Eq, Structural)]
pub struct AgentState {
    pub position: Option<Vec2>,
    pub heading: Option<Heading>,
}

/// Message sent by the simulation server.
#[derive(Debug)]
pub struct OutgoingMessage {
    pub recipient: PeerAddr,
    pub agent_states: Vec<AgentState>,
}

impl OutgoingMessage {
    /// A message to `recipient` that tells of no agent yet.
    pub fn new(recipient: PeerAddr) -> (m: OutgoingMessage)
        ensures
            m.recipient == recipient,
            m.agent_states@ == Seq::<AgentState>::empty(),
    {
        OutgoingMessage { recipient, agent_states: Vec::new() }
    }

    /// The state that `with_agent_state` appends.
    pub open spec fn state_of(x: i64, y: i64, heading: Heading) -> AgentState {
        AgentState { position: Some(Vec2 { x, y }), heading: Some(heading) }
    }

    /// Appends the state of one agent, and hands the message back for more.
    pub fn with_agent_state(&mut self, x: i64, y: i64, heading: Heading) -> (msg:
        &mut OutgoingMessage)
        ensures
            msg.recipient == old(self).recipient,
            msg.agent_states@ == old(self).agent_states@.push(Self::state_of(x, y, heading)),
            *final(self) == *final(msg),
    {
        self.agent_states.push(AgentState { position: Some(Vec2 { x, y }), heading: Some(heading) });
        self
    }
}

/// An update of one cell of a grid.
#[derive(Clone, Copy, Debug, PartialEq, Eq, Structural)]
pub struct CellUpdate {
    pub x: i32,
    pub y: i32,
    pub grass: i32,
}

/// What the simulation hands to the handler of a client's connection.
#[derive(Debug)]
pub struct ClientHandlerMsg {
    pub cell_updates: Vec<CellUpdate>,
}

/// A message that is sent to a client from a simulation server.
#[derive(Debug)]
pub struct ToClient {
    pub cell_updates: Vec<CellUpdate>,
}

impl From<ClientHandlerMsg> for ToClient {
    /// The message to the client that carries the handler message's updates,
    /// in their order.
    fn from(msg: ClientHandlerMsg) -> (out: ToClient) {
        ToClient { cell_updates: msg.cell_updates }
    }
}

impl vstd::std_specs::convert::FromSpecImpl<ClientHandlerMsg> for ToClient {
    open spec fn obeys_from_spec() -> bool {
        true
    }

    open spec fn from_spec(msg: ClientHandlerMsg) -> ToClient {
        ToClient { cell_updates: msg.cell_updates }
    }
}

} // verus!
