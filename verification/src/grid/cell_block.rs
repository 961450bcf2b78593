//! A grid whose cells are stored row by row.

use super::search_ring::MAX_RING_DIST;
use super::{hits_from, visible_hits, Grid, NeighborSearch, VisibleNeighborSearch};
use vstd::prelude::*;

verus! {

pub struct CellBlockBuilder<T> {
    width: usize,
    height: usize,
    default: T,
}

impl<T: Clone + Copy> CellBlockBuilder<T> {
    /// The width, the height and the value of every cell of the grid that is
    /// to be built.
    pub closed spec fn plan(&self) -> (usize, usize, T) {
        (self.width, self.height, self.default)
    }

    pub fn new(width: usize, height: usize, default: T) -> (builder: CellBlockBuilder<T>)
        ensures
            builder.plan() == (width, height, default),
    {
        CellBlockBuilder { width, height, default }
    }

    /// The grid of the planned width and height, with the planned value in
    /// every cell.
    pub fn finish(&self) -> (block: CellBlock<T>)
        requires
            self.plan().0 * self.plan().1 <= usize::MAX,
        ensures
            block.width() == self.plan().0,
            block@.len() == self.plan().0 * self.plan().1,
            forall|i: int| 0 <= i < block@.len() ==> #[trigger] block@[i] == self.plan().2,
    {
        let count: usize = self.width * self.height;
        let mut cells: Vec<T> = Vec::new();
        let mut i: usize = 0;
        while i < count
            invariant
                0 <= i <= count,
                cells@.len() == i,
                forall|k: int| 0 <= k < i ==> #[trigger] cells@[k] == self.default,
            decreases count - i,
        {
            cells.push(self.default);
            i += 1;
        }
        CellBlock { width: self.width, cells }
    }
}

pub struct CellBlock<T> {
    width: usize,
    cells: Vec<T>,
}

impl<T> CellBlock<T> {
    /// The cells, row by row.
    pub closed spec fn view(&self) -> Seq<T> {
        self.cells@
    }

    /// The number of cells in a row.
    pub closed spec fn width(&self) -> usize {
        self.width
    }

    /// The place of the cell at `pos` among the cells: each row takes up
    /// `width` places.
    pub open spec fn index_of(&self, pos: (usize, usize)) -> int {
        pos.1 * self.width() + pos.0
    }

    /// The place of the cell at `pos` among the cells.
    pub fn pos_idx(&self, pos: (usize, usize)) -> (idx: usize)
        requires
            self.index_of(pos) <= usize::MAX,
        ensures
            idx == self.index_of(pos),
    {
        let (x, y) = pos;
        assert(y * self.width >= 0) by (nonlinear_arith)
            requires
                y >= 0,
                self.width >= 0,
        ;
        y * self.width + x
    }

    /// The place of the cell at `pos` among the cells, if there is such a
    /// cell.
    fn place(&self, pos: (usize, usize)) -> (idx: Option<usize>)
        ensures
            match idx {
                Some(i) => i == self.index_of(pos) && i < self@.len(),
                None => self.index_of(pos) >= self@.len(),
            },
            self.index_of(pos) >= 0,
    {
        let (x, y) = pos;
        assert(0 <= y * self.width <= 0xFFFF_FFFF_FFFF_FFFF * 0xFFFF_FFFF_FFFF_FFFF)
            by (nonlinear_arith)
            requires
                0 <= y <= 0xFFFF_FFFF_FFFF_FFFF,
                0 <= self.width <= 0xFFFF_FFFF_FFFF_FFFF,
        ;
        let idx: u128 = (y as u128) * (self.width as u128) + (x as u128);
        if idx < self.cells.len() as u128 {
            Some(idx as usize)
        } else {
            None
        }
    }
}

impl<T> CellBlock<T> {
    /// Creates a search which yields "visible" cells within a specified
    /// distance that satisfy the given predicate. Cells are ordered by
    /// ascending distance and then clockwise order starting from the bottom
    /// left cell. A cell that satisfies the predicate hides the cells behind
    /// it and behind the cells next to it.
    pub fn visible_neighbors<P>(&self, pos: (usize, usize), max_dist: usize, predicate: P) -> (search:
        VisibleNeighborSearch<'_, Self, P>) where P: Fn((usize, usize), &T) -> bool
        requires
            max_dist <= MAX_RING_DIST,
        ensures
            search.wf(),
            search.grid() == self,
            search.predicate() == predicate,
            search.remaining() == visible_hits(
                self,
                &predicate,
                pos,
                max_dist as int,
                0,
                seq![0usize],
                0,
                Seq::empty(),
            ),
    {
        VisibleNeighborSearch::new(self, pos, max_dist, predicate)
    }

    /// Creates a search which yields cells within a specified distance that
    /// satisfy the given predicate. Cells are ordered by ascending distance
    /// and then clockwise order starting from the bottom left cell.
    pub fn neighbors<P>(&self, pos: (usize, usize), max_dist: usize, predicate: P) -> (search:
        NeighborSearch<'_, Self, P>) where P: Fn((usize, usize), &T) -> bool
        requires
            max_dist <= MAX_RING_DIST,
        ensures
            search.wf(),
            search.grid() == self,
            search.predicate() == predicate,
            search.remaining() == hits_from(self, &predicate, pos, max_dist as int, 0, 0),
    {
        NeighborSearch::new(self, pos, max_dist, predicate)
    }
}

impl<T> Grid for CellBlock<T> {
    type Cell = T;

    open spec fn cell_at(&self, pos: (usize, usize)) -> Option<T> {
        if self.index_of(pos) < self@.len() {
            Some(self@[self.index_of(pos)])
        } else {
            None
        }
    }

    fn at(&self, pos: (usize, usize)) -> (cell: Option<&T>) {
        match self.place(pos) {
            Some(idx) => Some(&self.cells[idx]),
            None => None,
        }
    }

    fn set(&mut self, pos: (usize, usize), t: T)
        ensures
            final(self).width() == old(self).width(),
            final(self)@ == if old(self).index_of(pos) < old(self)@.len() {
                old(self)@.update(old(self).index_of(pos), t)
            } else {
                old(self)@
            },
    {
        match self.place(pos) {
            Some(idx) => {
                self.cells[idx] = t;
            },
            None => {},
        }
    }
}

} // verus!
