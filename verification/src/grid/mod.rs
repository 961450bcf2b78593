//! Grids of square cells and searches for the cells around a cell.

pub mod cell_block;
pub mod search_ring;

pub use cell_block::{CellBlock, CellBlockBuilder};
pub use search_ring::{idx_pos, next_visible};

use search_ring::{in_ring, next_visible_of, ring_len, ring_position, MAX_RING_DIST};
use vstd::prelude::*;

verus! {

/// An interface for dealing with grids of square cells.
pub trait Grid {
    type Cell;

    /// The value of the cell at the given position, where the grid has such
    /// a cell.
    spec fn cell_at(&self, pos: (usize, usize)) -> Option<Self::Cell>;

    /// Gets the value of the cell at the given position.
    fn at(&self, pos: (usize, usize)) -> (cell: Option<&Self::Cell>)
        ensures
            match cell {
                Some(c) => self.cell_at(pos) == Some(*c),
                None => self.cell_at(pos).is_none(),
            },
    ;

    /// Sets the value of the cell at the given position. Nothing changes
    /// where the grid has no such cell.
    fn set(&mut self, pos: (usize, usize), t: Self::Cell)
        ensures
            final(self).cell_at(pos) == if old(self).cell_at(pos).is_some() {
                Some(t)
            } else {
                None
            },
            forall|p: (usize, usize)|
                final(self).cell_at(p).is_some() == old(self).cell_at(p).is_some(),
    ;
}

/// The predicate holds of the cell at `pos` that has the value `cell`.
pub open spec fn holds<C, P: Fn((usize, usize), &C) -> bool>(
    predicate: &P,
    pos: (usize, usize),
    cell: C,
) -> bool {
    call_ensures(*predicate, (pos, &cell), true)
}

/// The predicate can be asked of every cell, and what it answers depends on
/// the cell alone.
pub open spec fn decides<C, P: Fn((usize, usize), &C) -> bool>(predicate: &P) -> bool {
    &&& forall|pos: (usize, usize), cell: C| #[trigger] call_requires(*predicate, (pos, &cell))
    &&& forall|pos: (usize, usize), cell: C, answer: bool| #[trigger]
        call_ensures(*predicate, (pos, &cell), answer) ==> answer == holds(predicate, pos, cell)
}

/// The grid has a cell at `pos` of which the predicate holds.
pub open spec fn is_match<G: Grid, P: Fn((usize, usize), &G::Cell) -> bool>(
    grid: &G,
    predicate: &P,
    pos: (usize, usize),
) -> bool {
    grid.cell_at(pos).is_some() && holds(predicate, pos, grid.cell_at(pos).unwrap())
}

/// The position of the cell `idx` of the ring at distance `dist` around
/// `center`, where it is a position of a cell of which the predicate holds;
/// no position elsewhere.
pub open spec fn ring_match<G: Grid, P: Fn((usize, usize), &G::Cell) -> bool>(
    grid: &G,
    predicate: &P,
    center: (usize, usize),
    dist: int,
    idx: int,
) -> Seq<(usize, usize)> {
    match ring_position(idx as usize, center, dist as usize) {
        Some(pos) => if is_match(grid, predicate, pos) {
            seq![pos]
        } else {
            Seq::empty()
        },
        None => Seq::empty(),
    }
}

/// The positions that a search for neighbors yields from the cell `idx` of
/// the ring at distance `dist` on: the matches of the rest of that ring, and
/// then those of the rings behind it up to the distance `max_dist`.
pub open spec fn hits_from<G: Grid, P: Fn((usize, usize), &G::Cell) -> bool>(
    grid: &G,
    predicate: &P,
    center: (usize, usize),
    max_dist: int,
    dist: int,
    idx: int,
) -> Seq<(usize, usize)>
    decreases max_dist - dist, ring_len(dist) - idx,
{
    if dist < 0 || idx < 0 || dist > max_dist {
        Seq::empty()
    } else if idx < ring_len(dist) {
        ring_match(grid, predicate, center, dist, idx) + hits_from(
            grid,
            predicate,
            center,
            max_dist,
            dist,
            idx + 1,
        )
    } else if dist < max_dist {
        hits_from(grid, predicate, center, max_dist, dist + 1, 0)
    } else {
        Seq::empty()
    }
}

/// The positions that a search for visible neighbors yields from the `k`th
/// visible cell of the ring at distance `dist` on. `visible` are the indices
/// of the cells of that ring that can be seen, and `matches` those among the
/// first `k` of them of which the predicate holds. The cells that can be
/// seen of the next ring follow from the two.
pub open spec fn visible_hits<G: Grid, P: Fn((usize, usize), &G::Cell) -> bool>(
    grid: &G,
    predicate: &P,
    center: (usize, usize),
    max_dist: int,
    dist: int,
    visible: Seq<usize>,
    k: int,
    matches: Seq<usize>,
) -> Seq<(usize, usize)>
    decreases max_dist - dist, visible.len() - k,
{
    if dist < 0 || k < 0 || dist > max_dist {
        Seq::empty()
    } else if k < visible.len() {
        let found = ring_match(grid, predicate, center, dist, visible[k] as int);
        found + visible_hits(
            grid,
            predicate,
            center,
            max_dist,
            dist,
            visible,
            k + 1,
            if found.len() > 0 {
                matches.push(visible[k])
            } else {
                matches
            },
        )
    } else if dist < max_dist {
        visible_hits(
            grid,
            predicate,
            center,
            max_dist,
            dist + 1,
            next_visible_of(dist, visible, matches),
            0,
            Seq::empty(),
        )
    } else {
        Seq::empty()
    }
}

pub struct VisibleNeighborSearch<'a, G, P> {
    /// Grid of square cells to search.
    grid: &'a G,
    /// The cell around which to search.
    center: (usize, usize),
    /// Maximum distance from the center cell.
    max_dist: usize,
    /// Criteria that a cell must meet to be a match in the search.
    predicate: P,
    /// Current distance from the center cell.
    curr_dist: usize,
    /// List of indices into the current search ring indicating which cells
    /// are visible and can be searched.
    visible: Vec<usize>,
    /// Index into `visible` that indicates which cell should be searched
    /// next.
    next_check: usize,
    /// List of indices into the current ring that have matched the search
    /// criteria. These matches will block the visibility of cells in outer
    /// rings.
    matches: Vec<usize>,
}

impl<'a, G: Grid, P: Fn((usize, usize), &G::Cell) -> bool> VisibleNeighborSearch<'a, G, P> {
    /// The grid that is searched.
    pub closed spec fn grid(&self) -> &G {
        self.grid
    }

    /// The criteria of the search.
    pub closed spec fn predicate(&self) -> P {
        self.predicate
    }

    /// The positions that the search has yet to yield, in order.
    pub closed spec fn remaining(&self) -> Seq<(usize, usize)> {
        visible_hits(
            self.grid,
            &self.predicate,
            self.center,
            self.max_dist as int,
            self.curr_dist as int,
            self.visible@,
            self.next_check as int,
            self.matches@,
        )
    }

    /// The search is within its rings.
    pub closed spec fn wf(&self) -> bool {
        &&& self.max_dist <= MAX_RING_DIST
        &&& self.curr_dist <= self.max_dist
        &&& self.next_check <= self.visible@.len()
        &&& in_ring(self.visible@, self.curr_dist as int)
        &&& in_ring(self.matches@, self.curr_dist as int)
    }

    /// Creates a new search for visible neighbors.
    pub fn new(grid: &'a G, center: (usize, usize), max_dist: usize, predicate: P) -> (search:
        VisibleNeighborSearch<'a, G, P>)
        requires
            max_dist <= MAX_RING_DIST,
        ensures
            search.wf(),
            search.grid() == grid,
            search.predicate() == predicate,
            search.remaining() == visible_hits(
                grid,
                &predicate,
                center,
                max_dist as int,
                0,
                seq![0usize],
                0,
                Seq::empty(),
            ),
    {
        let mut visible: Vec<usize> = Vec::new();
        visible.push(0);
        assert(visible@ =~= seq![0usize]);
        VisibleNeighborSearch {
            grid,
            center,
            max_dist,
            predicate,
            curr_dist: 0,
            visible,
            next_check: 0,
            matches: Vec::new(),
        }
    }

    /// The next visible cell of which the predicate holds, with its
    /// position, if there is one.
    pub fn next(&mut self) -> (r: Option<((usize, usize), &'a G::Cell)>)
        requires
            old(self).wf(),
            decides::<G::Cell, P>(&old(self).predicate()),
        ensures
            final(self).wf(),
            final(self).grid() == old(self).grid(),
            final(self).predicate() == old(self).predicate(),
            match r {
                Some((pos, cell)) => old(self).remaining().len() > 0 && pos == old(
                    self,
                ).remaining()[0] && old(self).grid().cell_at(pos) == Some(*cell) && holds(
                    &old(self).predicate(),
                    pos,
                    *cell,
                ) && final(self).remaining() == old(self).remaining().skip(1),
                None => old(self).remaining().len() == 0 && final(self).remaining().len() == 0,
            },
    {
        loop
            invariant
                self.wf(),
                self.grid == old(self).grid,
                self.predicate == old(self).predicate,
                self.center == old(self).center,
                self.max_dist == old(self).max_dist,
                decides::<G::Cell, P>(&self.predicate),
                self.remaining() == old(self).remaining(),
            decreases self.max_dist - self.curr_dist, self.visible@.len() - self.next_check,
        {
            if self.next_check < self.visible.len() {
                let idx: usize = self.visible[self.next_check];
                let ghost tail_if_miss = visible_hits(
                    self.grid,
                    &self.predicate,
                    self.center,
                    self.max_dist as int,
                    self.curr_dist as int,
                    self.visible@,
                    self.next_check + 1,
                    self.matches@,
                );
                let ghost tail_if_hit = visible_hits(
                    self.grid,
                    &self.predicate,
                    self.center,
                    self.max_dist as int,
                    self.curr_dist as int,
                    self.visible@,
                    self.next_check + 1,
                    self.matches@.push(idx),
                );
                let ghost found = ring_match(
                    self.grid,
                    &self.predicate,
                    self.center,
                    self.curr_dist as int,
                    idx as int,
                );
                assert(self.remaining() == found + if found.len() > 0 {
                    tail_if_hit
                } else {
                    tail_if_miss
                });
                self.next_check += 1;
                if let Some(pos) = idx_pos(idx, self.center, self.curr_dist) {
                    let grid: &'a G = self.grid;
                    if let Some(cell) = grid.at(pos) {
                        if (self.predicate)(pos, cell) {
                            // Mark cell as matched so it blocks cells in outer rings.
                            self.matches.push(idx);
                            proof {
                                assert(found == seq![pos]);
                                assert((seq![pos] + tail_if_hit).skip(1) =~= tail_if_hit);
                            }
                            return Some((pos, cell));
                        }
                    }
                }
                proof {
                    assert(found.len() == 0);
                    assert(found + tail_if_miss =~= tail_if_miss);
                }
            } else if self.curr_dist < self.max_dist {
                self.visible = next_visible(
                    self.curr_dist,
                    self.visible.as_slice(),
                    self.matches.as_slice(),
                );
                self.matches = Vec::new();
                self.curr_dist += 1;
                self.next_check = 0;
            } else {
                return None;
            }
        }
    }
}

pub struct NeighborSearch<'a, G, P> {
    /// Grid of square cells to search.
    grid: &'a G,
    /// The cell around which to search.
    center: (usize, usize),
    /// Maximum distance from the center cell.
    max_dist: usize,
    /// Criteria that a cell must meet to be a match in the search.
    predicate: P,
    /// Current distance from the center cell.
    curr_dist: usize,
    /// Index into the current search ring.
    curr_ring_idx: usize,
}

impl<'a, G: Grid, P: Fn((usize, usize), &G::Cell) -> bool> NeighborSearch<'a, G, P> {
    /// The grid that is searched.
    pub closed spec fn grid(&self) -> &G {
        self.grid
    }

    /// The criteria of the search.
    pub closed spec fn predicate(&self) -> P {
        self.predicate
    }

    /// The positions that the search has yet to yield, in order.
    pub closed spec fn remaining(&self) -> Seq<(usize, usize)> {
        hits_from(
            self.grid,
            &self.predicate,
            self.center,
            self.max_dist as int,
            self.curr_dist as int,
            self.curr_ring_idx as int,
        )
    }

    /// The search is within its rings.
    pub closed spec fn wf(&self) -> bool {
        &&& self.max_dist <= MAX_RING_DIST
        &&& self.curr_dist <= self.max_dist
        &&& self.curr_ring_idx <= ring_len(self.curr_dist as int)
    }

    /// Creates a new search for neighbors.
    pub fn new(grid: &'a G, center: (usize, usize), max_dist: usize, predicate: P) -> (search:
        NeighborSearch<'a, G, P>)
        requires
            max_dist <= MAX_RING_DIST,
        ensures
            search.wf(),
            search.grid() == grid,
            search.predicate() == predicate,
            search.remaining() == hits_from(grid, &predicate, center, max_dist as int, 0, 0),
    {
        NeighborSearch { grid, center, max_dist, predicate, curr_dist: 0, curr_ring_idx: 0 }
    }

    /// The next cell of which the predicate holds, with its position, if
    /// there is one.
    pub fn next(&mut self) -> (r: Option<((usize, usize), &'a G::Cell)>)
        requires
            old(self).wf(),
            decides::<G::Cell, P>(&old(self).predicate()),
        ensures
            final(self).wf(),
            final(self).grid() == old(self).grid(),
            final(self).predicate() == old(self).predicate(),
            match r {
                Some((pos, cell)) => old(self).remaining().len() > 0 && pos == old(
                    self,
                ).remaining()[0] && old(self).grid().cell_at(pos) == Some(*cell) && holds(
                    &old(self).predicate(),
                    pos,
                    *cell,
                ) && final(self).remaining() == old(self).remaining().skip(1),
                None => old(self).remaining().len() == 0 && final(self).remaining().len() == 0,
            },
    {
        loop
            invariant
                self.wf(),
                self.grid == old(self).grid,
                self.predicate == old(self).predicate,
                self.center == old(self).center,
                self.max_dist == old(self).max_dist,
                decides::<G::Cell, P>(&self.predicate),
                self.remaining() == old(self).remaining(),
            decreases self.max_dist - self.curr_dist, ring_len(self.curr_dist as int)
                - self.curr_ring_idx,
        {
            if (self.curr_dist == 0 && self.curr_ring_idx < 1) || self.curr_ring_idx < 8
                * self.curr_dist {
                let curr_idx: usize = self.curr_ring_idx;
                let ghost tail = hits_from(
                    self.grid,
                    &self.predicate,
                    self.center,
                    self.max_dist as int,
                    self.curr_dist as int,
                    curr_idx + 1,
                );
                let ghost found = ring_match(
                    self.grid,
                    &self.predicate,
                    self.center,
                    self.curr_dist as int,
                    curr_idx as int,
                );
                assert(self.remaining() == found + tail);
                self.curr_ring_idx += 1;
                if let Some(pos) = idx_pos(curr_idx, self.center, self.curr_dist) {
                    let grid: &'a G = self.grid;
                    if let Some(cell) = grid.at(pos) {
                        if (self.predicate)(pos, cell) {
                            proof {
                                assert(found == seq![pos]);
                                assert((seq![pos] + tail).skip(1) =~= tail);
                            }
                            return Some((pos, cell));
                        }
                    }
                }
                proof {
                    assert(found.len() == 0);
                    assert(found + tail =~= tail);
                }
            } else if self.curr_dist < self.max_dist {
                self.curr_dist += 1;
                self.curr_ring_idx = 0;
            } else {
                return None;
            }
        }
    }
}

} // verus!
