//! The registry of the regions that clients have registered interest in.

use crate::component::PeerAddr;
use crate::geometry::BoundingBox;
use vstd::prelude::*;

verus! {

/// The region of interest of each peer that registered one. A later
/// registration of a peer replaces the earlier.
pub struct RegionRegistry {
    entries: Vec<(PeerAddr, BoundingBox)>,
}

/// The region that the first `n` entries hold for `addr`, if any.
pub open spec fn region_in(
    entries: Seq<(PeerAddr, BoundingBox)>,
    n: int,
    addr: PeerAddr,
) -> Option<BoundingBox>
    decreases n,
{
    if n <= 0 {
        None
    } else if entries[n - 1].0 == addr {
        Some(entries[n - 1].1)
    } else {
        region_in(entries, n - 1, addr)
    }
}

/// With one entry for each peer at most, an entry's region is its peer's.
proof fn lemma_region_of_entry(entries: Seq<(PeerAddr, BoundingBox)>, n: int, k: int)
    requires
        0 <= k < n <= entries.len(),
        forall|i: int, j: int|
            0 <= i < j < entries.len() ==> (#[trigger] entries[i]).0 != (#[trigger] entries[j]).0,
    ensures
        region_in(entries, n, entries[k].0) == Some(entries[k].1),
    decreases n,
{
    if k < n - 1 {
        lemma_region_of_entry(entries, n - 1, k);
    }
}

/// Entries that agree give the same regions.
proof fn lemma_region_in_prefix(
    a: Seq<(PeerAddr, BoundingBox)>,
    b: Seq<(PeerAddr, BoundingBox)>,
    n: int,
    addr: PeerAddr,
)
    requires
        0 <= n <= a.len(),
        n <= b.len(),
        forall|k: int| 0 <= k < n && (a[k].0 == addr || b[k].0 == addr) ==> a[k] == b[k],
    ensures
        region_in(a, n, addr) == region_in(b, n, addr),
    decreases n,
{
    if n > 0 {
        lemma_region_in_prefix(a, b, n - 1, addr);
    }
}

impl RegionRegistry {
    /// No peer has two entries.
    pub closed spec fn wf(&self) -> bool {
        forall|i: int, j: int|
            0 <= i < j < self.entries@.len() ==> (#[trigger] self.entries@[i]).0 != (
            #[trigger] self.entries@[j]).0
    }

    /// The region that `addr` registered last, if it registered any.
    pub closed spec fn region_of(&self, addr: PeerAddr) -> Option<BoundingBox> {
        region_in(self.entries@, self.entries@.len() as int, addr)
    }

    /// The registry as a map from peers to regions.
    pub open spec fn view(&self) -> Map<PeerAddr, BoundingBox> {
        Map::new(
            |addr: PeerAddr| self.region_of(addr).is_some(),
            |addr: PeerAddr| self.region_of(addr).unwrap(),
        )
    }

    /// The registry in which no peer has registered.
    pub fn new() -> (r: RegionRegistry)
        ensures
            r.wf(),
            r@ == Map::<PeerAddr, BoundingBox>::empty(),
            forall|addr: PeerAddr| r.region_of(addr).is_none(),
    {
        let r = RegionRegistry { entries: Vec::new() };
        assert(r@ =~= Map::<PeerAddr, BoundingBox>::empty());
        r
    }

    /// Registers `region` for `addr`, in place of what `addr` had registered
    /// before.
    pub fn register(&mut self, addr: PeerAddr, region: BoundingBox)
        requires
            old(self).wf(),
        ensures
            final(self).wf(),
            final(self).region_of(addr) == Some(region),
            forall|other: PeerAddr|
                other != addr ==> final(self).region_of(other) == old(self).region_of(other),
            final(self)@ == old(self)@.insert(addr, region),
    {
        let n: usize = self.entries.len();
        let mut i: usize = 0;
        while i < n
            invariant
                0 <= i <= n,
                n == self.entries@.len(),
                self.entries@ == old(self).entries@,
                self.wf(),
                forall|k: int| 0 <= k < i ==> (#[trigger] self.entries@[k]).0 != addr,
            decreases n - i,
        {
            if self.entries[i].0 == addr {
                self.entries[i] = (addr, region);
                proof {
                    let before = old(self).entries@;
                    let after = self.entries@;
                    assert(after == before.update(i as int, (addr, region)));
                    assert forall|k: int| 0 <= k < n implies (#[trigger] after[k]).0
                        == before[k].0 by {}
                    assert forall|a: int, b: int| 0 <= a < b < after.len() implies (
                    #[trigger] after[a]).0 != (#[trigger] after[b]).0 by {
                        assert(before[a].0 != before[b].0);
                    }
                    lemma_region_of_entry(after, n as int, i as int);
                    assert forall|other: PeerAddr| other != addr implies self.region_of(other)
                        == old(self).region_of(other) by {
                        lemma_region_in_prefix(before, after, n as int, other);
                    }
                    assert(self@ =~= old(self)@.insert(addr, region));
                }
                return ;
            }
            i += 1;
        }
        self.entries.push((addr, region));
        proof {
            let before = old(self).entries@;
            let after = self.entries@;
            assert(after == before.push((addr, region)));
            assert forall|a: int, b: int| 0 <= a < b < after.len() implies (#[trigger] after[a]).0
                != (#[trigger] after[b]).0 by {
                assert(after[a] == before[a]);
                if b < n {
                    assert(after[b] == before[b]);
                }
            }
            assert forall|other: PeerAddr| other != addr implies self.region_of(other) == old(
                self,
            ).region_of(other) by {
                lemma_region_in_prefix(before, after, n as int, other);
            }
            assert(self@ =~= old(self)@.insert(addr, region));
        }
    }

    /// The region that `addr` registered last, if it registered any.
    pub fn get(&self, addr: PeerAddr) -> (r: Option<BoundingBox>)
        ensures
            r == self.region_of(addr),
            r == if self@.dom().contains(addr) {
                Some(self@[addr])
            } else {
                None
            },
    {
        let mut i: usize = self.entries.len();
        while i > 0
            invariant
                0 <= i <= self.entries@.len(),
                self.region_of(addr) == region_in(self.entries@, i as int, addr),
            decreases i,
        {
            i -= 1;
            if self.entries[i].0 == addr {
                return Some(self.entries[i].1);
            }
        }
        None
    }

    /// The number of peers that have registered.
    pub fn len(&self) -> (n: usize)
        ensures
            n == self.count(),
    {
        self.entries.len()
    }

    /// The number of peers that have registered.
    pub closed spec fn count(&self) -> nat {
        self.entries@.len()
    }
}

/// Of two registrations of one peer only the later can be seen.
pub proof fn lemma_last_registration_wins(
    before: RegionRegistry,
    between: RegionRegistry,
    after: RegionRegistry,
    addr: PeerAddr,
    first: BoundingBox,
    second: BoundingBox,
)
    requires
        between@ == before@.insert(addr, first),
        after@ == between@.insert(addr, second),
    ensures
        after@ == before@.insert(addr, second),
        after@[addr] == second,
{
    assert(after@ =~= before@.insert(addr, second));
}

} // verus!
