//! The creation stage: the sheep that were ordered are created.

use crate::command_queue::{CreateSheepCommand, CreateSheepCommandQueue};
use crate::component::Socket;
use crate::store::{EntityStore, MAX_ENTITIES};
use vstd::prelude::*;

verus! {

pub struct CreateCommandSystem;

impl CreateCommandSystem {
    /// Creates an entity for every order of the queue, in their order, with
    /// the position, heading, velocity and behavior that the order gives and
    /// without a socket, and empties the queue.
    pub fn run(queue: &mut CreateSheepCommandQueue, store: &mut EntityStore)
        requires
            old(store).wf(),
            old(queue).wf(),
            old(store).len() + old(queue).commands@.len() <= MAX_ENTITIES,
        ensures
            final(queue).commands@ == Seq::<CreateSheepCommand>::empty(),
            final(store).wf(),
            final(store).len() == old(store).len() + old(queue).commands@.len(),
            final(store).generations@ == old(store).generations@ + Seq::new(
                old(queue).commands@.len(),
                |i: int| 0u32,
            ),
            final(store).positions@ == old(store).positions@ + Seq::new(
                old(queue).commands@.len(),
                |i: int| Some(old(queue).commands@[i].position),
            ),
            final(store).headings@ == old(store).headings@ + Seq::new(
                old(queue).commands@.len(),
                |i: int| Some(old(queue).commands@[i].heading),
            ),
            final(store).velocities@ == old(store).velocities@ + Seq::new(
                old(queue).commands@.len(),
                |i: int| Some(old(queue).commands@[i].velocity),
            ),
            final(store).behaviors@ == old(store).behaviors@ + Seq::new(
                old(queue).commands@.len(),
                |i: int| Some(old(queue).commands@[i].behavior),
            ),
            final(store).sockets@ == old(store).sockets@ + Seq::new(
                old(queue).commands@.len(),
                |i: int| None::<Socket>,
            ),
    {
        let n: usize = queue.commands.len();
        let ghost orders = queue.commands@;
        let mut k: usize = 0;
        while k < n
            invariant
                0 <= k <= n,
                n == orders.len(),
                queue.commands@ == orders,
                orders == old(queue).commands@,
                old(queue).wf(),
                store.wf(),
                old(store).len() + n <= MAX_ENTITIES,
                store.len() == old(store).len() + k,
                store.generations@ == old(store).generations@ + Seq::new(k as nat, |i: int| 0u32),
                store.positions@ == old(store).positions@ + Seq::new(
                    k as nat,
                    |i: int| Some(orders[i].position),
                ),
                store.headings@ == old(store).headings@ + Seq::new(
                    k as nat,
                    |i: int| Some(orders[i].heading),
                ),
                store.velocities@ == old(store).velocities@ + Seq::new(
                    k as nat,
                    |i: int| Some(orders[i].velocity),
                ),
                store.behaviors@ == old(store).behaviors@ + Seq::new(
                    k as nat,
                    |i: int| Some(orders[i].behavior),
                ),
                store.sockets@ == old(store).sockets@ + Seq::new(
                    k as nat,
                    |i: int| None::<Socket>,
                ),
            decreases n - k,
        {
            let cmd = queue.commands[k];
            assert(orders[k as int].wf());
            let ghost before = *store;
            let e = store.create();
            let row: usize = e.index as usize;
            store.positions[row] = Some(cmd.position);
            store.headings[row] = Some(cmd.heading);
            store.velocities[row] = Some(cmd.velocity);
            store.behaviors[row] = Some(cmd.behavior);
            proof {
                assert(store.generations@ =~= old(store).generations@ + Seq::new(
                    (k + 1) as nat,
                    |i: int| 0u32,
                ));
                assert(store.positions@ =~= old(store).positions@ + Seq::new(
                    (k + 1) as nat,
                    |i: int| Some(orders[i].position),
                ));
                assert(store.headings@ =~= old(store).headings@ + Seq::new(
                    (k + 1) as nat,
                    |i: int| Some(orders[i].heading),
                ));
                assert(store.velocities@ =~= old(store).velocities@ + Seq::new(
                    (k + 1) as nat,
                    |i: int| Some(orders[i].velocity),
                ));
                assert(store.behaviors@ =~= old(store).behaviors@ + Seq::new(
                    (k + 1) as nat,
                    |i: int| Some(orders[i].behavior),
                ));
                assert(store.sockets@ =~= old(store).sockets@ + Seq::new(
                    (k + 1) as nat,
                    |i: int| None::<Socket>,
                ));
            }
            k += 1;
        }
        queue.clear();
    }
}

} // verus!
