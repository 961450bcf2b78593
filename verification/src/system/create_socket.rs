//! The inbox stage: every peer that sent a message gets a socket, unless it
//! has one, and the regions that the messages register are recorded.

use crate::component::{PeerAddr, Socket};
use crate::geometry::BoundingBox;
use crate::network::message::{FromClient, IncomingMessage};
use crate::network::region::RegionRegistry;
use crate::store::{EntityStore, MAX_ENTITIES};
use vstd::prelude::*;

verus! {

/// One of the sockets is that of `addr`.
pub open spec fn has_socket(sockets: Seq<Option<Socket>>, addr: PeerAddr) -> bool {
    exists|i: int| 0 <= i < sockets.len() && #[trigger] sockets[i] == Some(Socket { addr })
}

/// The column of sockets after the messages were handled in turn: the sender
/// of a message gets a new row with a socket unless it has a socket by then.
pub open spec fn sockets_after(
    sockets: Seq<Option<Socket>>,
    messages: Seq<IncomingMessage>,
) -> Seq<Option<Socket>>
    decreases messages.len(),
{
    if messages.len() == 0 {
        sockets
    } else {
        let before = sockets_after(sockets, messages.drop_last());
        let addr = messages.last().sender;
        if has_socket(before, addr) {
            before
        } else {
            before.push(Some(Socket { addr }))
        }
    }
}

/// The regions after the messages were handled in turn: each registration
/// replaces what its sender had registered before.
pub open spec fn regions_after(
    regions: Map<PeerAddr, BoundingBox>,
    messages: Seq<IncomingMessage>,
) -> Map<PeerAddr, BoundingBox>
    decreases messages.len(),
{
    if messages.len() == 0 {
        regions
    } else {
        let before = regions_after(regions, messages.drop_last());
        match messages.last().body {
            FromClient::RegisterInterest(region) => before.insert(messages.last().sender, region),
        }
    }
}

/// `now` is `before` with empty cells behind it.
pub open spec fn padded<T>(before: Seq<Option<T>>, now: Seq<Option<T>>) -> bool {
    &&& before.len() <= now.len()
    &&& forall|i: int| 0 <= i < before.len() ==> #[trigger] now[i] == before[i]
    &&& forall|i: int| before.len() <= i < now.len() ==> (#[trigger] now[i]).is_none()
}

/// `now` is `before` with rows of generation zero behind it.
pub open spec fn grown(before: Seq<u32>, now: Seq<u32>) -> bool {
    &&& before.len() <= now.len()
    &&& forall|i: int| 0 <= i < before.len() ==> #[trigger] now[i] == before[i]
    &&& forall|i: int| before.len() <= i < now.len() ==> #[trigger] now[i] == 0
}

pub struct CreateSocketSystem;

impl CreateSocketSystem {
    /// Whether one of the sockets is that of `addr`.
    pub fn find_socket(sockets: &Vec<Option<Socket>>, addr: PeerAddr) -> (found: bool)
        ensures
            found == has_socket(sockets@, addr),
    {
        let mut i: usize = 0;
        while i < sockets.len()
            invariant
                0 <= i <= sockets@.len(),
                forall|k: int| 0 <= k < i ==> #[trigger] sockets@[k] != Some(Socket { addr }),
            decreases sockets@.len() - i,
        {
            match sockets[i] {
                Some(s) => {
                    if s.addr == addr {
                        assert(sockets@[i as int] == Some(Socket { addr }));
                        return true;
                    }
                },
                None => {},
            }
            i += 1;
        }
        false
    }

    /// Handles the messages of the inbox in their order, and empties it. A
    /// sender without a socket gets a new entity that carries a socket and
    /// nothing else. A registered region replaces the one that its sender
    /// had registered before.
    pub fn run(
        inbox: &mut Vec<IncomingMessage>,
        store: &mut EntityStore,
        regions: &mut RegionRegistry,
    )
        requires
            old(store).wf(),
            old(regions).wf(),
            old(store).len() + old(inbox)@.len() <= MAX_ENTITIES,
        ensures
            final(inbox)@ == Seq::<IncomingMessage>::empty(),
            final(store).wf(),
            final(regions).wf(),
            final(store).sockets@ == sockets_after(old(store).sockets@, old(inbox)@),
            final(store).len() <= old(store).len() + old(inbox)@.len(),
            grown(old(store).generations@, final(store).generations@),
            padded(old(store).positions@, final(store).positions@),
            padded(old(store).headings@, final(store).headings@),
            padded(old(store).velocities@, final(store).velocities@),
            padded(old(store).behaviors@, final(store).behaviors@),
            final(regions)@ == regions_after(old(regions)@, old(inbox)@),
    {
        let n: usize = inbox.len();
        let mut k: usize = 0;
        while k < n
            invariant
                0 <= k <= n,
                n == inbox@.len(),
                inbox@ == old(inbox)@,
                store.wf(),
                regions.wf(),
                old(store).len() + n <= MAX_ENTITIES,
                store.len() <= old(store).len() + k,
                store.sockets@ == sockets_after(old(store).sockets@, inbox@.take(k as int)),
                grown(old(store).generations@, store.generations@),
                padded(old(store).positions@, store.positions@),
                padded(old(store).headings@, store.headings@),
                padded(old(store).velocities@, store.velocities@),
                padded(old(store).behaviors@, store.behaviors@),
                regions@ == regions_after(old(regions)@, inbox@.take(k as int)),
            decreases n - k,
        {
            let msg = inbox[k];
            proof {
                assert(inbox@.take(k + 1).drop_last() =~= inbox@.take(k as int));
                assert(inbox@.take(k + 1).last() == msg);
            }
            if !Self::find_socket(&store.sockets, msg.sender) {
                let e = store.create();
                store.sockets[e.index as usize] = Some(Socket::new(msg.sender));
                proof {
                    assert(store.sockets@ =~= sockets_after(
                        old(store).sockets@,
                        inbox@.take(k as int),
                    ).push(Some(Socket { addr: msg.sender })));
                }
            }
            match msg.body {
                FromClient::RegisterInterest(region) => {
                    regions.register(msg.sender, region);
                },
            }
            k += 1;
        }
        proof {
            assert(inbox@.take(n as int) =~= inbox@);
        }
        inbox.clear();
    }
}

} // verus!
