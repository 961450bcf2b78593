//! The outbox stage: every client is told the state of every agent.

use crate::component::{Heading, PeerAddr, Position, Socket};
use crate::network::message::{AgentState, OutgoingMessage};
use vstd::prelude::*;

verus! {

/// The states of the agents among the first `n` rows: one for every entity
/// that carries a position and a heading, in the order of the rows.
pub open spec fn agent_states_of(
    positions: Seq<Option<Position>>,
    headings: Seq<Option<Heading>>,
    n: int,
) -> Seq<AgentState>
    decreases n,
{
    if n <= 0 {
        Seq::empty()
    } else {
        let before = agent_states_of(positions, headings, n - 1);
        if positions[n - 1].is_some() && headings[n - 1].is_some() {
            before.push(
                AgentState {
                    position: Some(positions[n - 1].unwrap().v),
                    heading: Some(headings[n - 1].unwrap()),
                },
            )
        } else {
            before
        }
    }
}

/// The addresses of the sockets among the first `n` rows, in the order of
/// the rows.
pub open spec fn recipients_of(sockets: Seq<Option<Socket>>, n: int) -> Seq<PeerAddr>
    decreases n,
{
    if n <= 0 {
        Seq::empty()
    } else {
        let before = recipients_of(sockets, n - 1);
        if sockets[n - 1].is_some() {
            before.push(sockets[n - 1].unwrap().addr)
        } else {
            before
        }
    }
}

pub struct OutboxSystem;

impl OutboxSystem {
    /// The message that tells `recipient` the state of every agent.
    pub fn snapshot(
        recipient: PeerAddr,
        positions: &Vec<Option<Position>>,
        headings: &Vec<Option<Heading>>,
    ) -> (msg: OutgoingMessage)
        requires
            headings@.len() == positions@.len(),
        ensures
            msg.recipient == recipient,
            msg.agent_states@ == agent_states_of(positions@, headings@, positions@.len() as int),
    {
        let mut msg = OutgoingMessage::new(recipient);
        let n: usize = positions.len();
        let mut i: usize = 0;
        while i < n
            invariant
                0 <= i <= n,
                n == positions@.len(),
                n == headings@.len(),
                msg.recipient == recipient,
                msg.agent_states@ == agent_states_of(positions@, headings@, i as int),
            decreases n - i,
        {
            match (positions[i], headings[i]) {
                (Some(pos), Some(heading)) => {
                    msg.with_agent_state(pos.v.x, pos.v.y, heading);
                },
                _ => {},
            }
            i += 1;
        }
        msg
    }

    /// Appends to the outbox, for every socket in the order of the rows, a
    /// message to its peer with the state of every agent.
    pub fn run(
        outbox: &mut Vec<OutgoingMessage>,
        sockets: &Vec<Option<Socket>>,
        positions: &Vec<Option<Position>>,
        headings: &Vec<Option<Heading>>,
    )
        requires
            headings@.len() == positions@.len(),
        ensures
            final(outbox)@.len() == old(outbox)@.len() + recipients_of(
                sockets@,
                sockets@.len() as int,
            ).len(),
            forall|k: int|
                0 <= k < old(outbox)@.len() ==> #[trigger] final(outbox)@[k] == old(outbox)@[k],
            forall|k: int|
                0 <= k < recipients_of(sockets@, sockets@.len() as int).len() ==> {
                    let msg = #[trigger] final(outbox)@[old(outbox)@.len() + k];
                    &&& msg.recipient == recipients_of(sockets@, sockets@.len() as int)[k]
                    &&& msg.agent_states@ == agent_states_of(
                        positions@,
                        headings@,
                        positions@.len() as int,
                    )
                },
    {
        let n: usize = sockets.len();
        let ghost start = outbox@.len();
        let mut i: usize = 0;
        while i < n
            invariant
                0 <= i <= n,
                n == sockets@.len(),
                headings@.len() == positions@.len(),
                start == old(outbox)@.len(),
                outbox@.len() == start + recipients_of(sockets@, i as int).len(),
                forall|k: int| 0 <= k < start ==> #[trigger] outbox@[k] == old(outbox)@[k],
                forall|k: int|
                    0 <= k < recipients_of(sockets@, i as int).len() ==> {
                        let msg = #[trigger] outbox@[start + k];
                        &&& msg.recipient == recipients_of(sockets@, i as int)[k]
                        &&& msg.agent_states@ == agent_states_of(
                            positions@,
                            headings@,
                            positions@.len() as int,
                        )
                    },
            decreases n - i,
        {
            match sockets[i] {
                Some(socket) => {
                    let msg = Self::snapshot(socket.addr, positions, headings);
                    let ghost before = outbox@;
                    outbox.push(msg);
                    proof {
                        let now = recipients_of(sockets@, i + 1);
                        let then = recipients_of(sockets@, i as int);
                        assert(now == then.push(socket.addr));
                        assert forall|k: int| 0 <= k < now.len() implies {
                            let m = #[trigger] outbox@[start + k];
                            &&& m.recipient == now[k]
                            &&& m.agent_states@ == agent_states_of(
                                positions@,
                                headings@,
                                positions@.len() as int,
                            )
                        } by {
                            if k < then.len() {
                                assert(outbox@[start + k] == before[start + k]);
                            }
                        }
                    }
                },
                None => {},
            }
            i += 1;
        }
    }
}

} // verus!
