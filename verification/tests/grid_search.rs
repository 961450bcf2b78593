use flocksim::grid::{CellBlock, CellBlockBuilder, Grid, NeighborSearch, VisibleNeighborSearch};

#[test]
fn visible_neighbors_with_center_match() {
    let mut grid: CellBlock<bool> = CellBlockBuilder::new(7, 7, false).finish();
    grid.set((3, 3), true);
    grid.set((2, 2), true);
    let mut search = grid.visible_neighbors((3, 3), 2, |_, &t| t);

    // Expect match at center.
    assert_eq!(search.next(), Some(((3, 3), &true)));

    // Expect potential match outside center to not be found. It is blocked
    // by match at center.
    assert_eq!(search.next(), None);
}

#[test]
fn visible_neighbors_blocked() {
    // cells that match predicate
    // 0 0 0 0 0 0 0
    // 0 0 0 0 0 0 0
    // 0 0 0 0 0 0 0
    // 0 1 0 X 0 0 0
    // 0 0 1 0 0 0 0
    // 0 0 0 0 1 0 0
    // 0 0 0 0 0 0 0
    let mut grid: CellBlock<bool> = CellBlockBuilder::new(7, 7, false).finish();
    grid.set((1, 3), true);
    grid.set((2, 2), true);
    grid.set((4, 1), true);
    let mut search = grid.visible_neighbors((3, 3), 2, |_, &t| t);

    // Expect potential match at (2, 2) to be found. It is visible.
    assert_eq!(search.next(), Some(((2, 2), &true)));

    // Expect other potential matches to not be found. They are blocked by
    // match at (2, 2).
    assert_eq!(search.next(), None);
}

#[test]
fn visible_neighbors_unblocked() {
    // cells that match predicate
    // 0 0 0 0 0 0 0
    // 0 0 0 0 0 0 0
    // 0 1 0 0 0 0 0
    // 0 0 0 X 0 0 0
    // 0 0 1 0 0 0 0
    // 0 0 0 0 0 1 0
    // 0 0 0 0 0 0 0
    let mut grid: CellBlock<bool> = CellBlockBuilder::new(7, 7, false).finish();
    grid.set((1, 4), true);
    grid.set((2, 2), true);
    grid.set((5, 1), true);
    let mut search = grid.visible_neighbors((3, 3), 2, |_, &t| t);

    // Expect potential match at (2, 2) to be found. It is visible.
    assert_eq!(search.next(), Some(((2, 2), &true)));

    // Expect other potential matches to be found in clockwise order
    // starting from bottom left. They are not blocked by match at (2, 2).
    assert_eq!(search.next(), Some(((5, 1), &true)));
    assert_eq!(search.next(), Some(((1, 4), &true)));
}

#[test]
fn visible_neighbors_range() {
    // cells that match predicate
    // 0 0 0 0 0 0 1
    // 0 0 0 0 0 0 0
    // 0 0 0 0 0 0 0
    // 0 0 0 X 0 0 0
    // 0 0 0 0 0 0 0
    // 0 0 0 0 0 0 0
    // 0 0 0 0 0 0 0
    let mut grid: CellBlock<bool> = CellBlockBuilder::new(7, 7, false).finish();
    grid.set((2, 2), true);
    grid.set((6, 6), true);
    let mut search = grid.visible_neighbors((3, 3), 2, |_, &t| t);

    // Expect potential match at (2, 2) to be found. It is visible.
    assert_eq!(search.next(), Some(((2, 2), &true)));

    // Expect other potential match to not be found. It is too far.
    assert_eq!(search.next(), None);
}

#[test]
fn neighbors() {
    // cells that match predicate
    // 0 0 0 1 0 0 0
    // 0 0 0 0 0 0 0
    // 0 0 0 0 0 1 0
    // 0 0 0 X 0 0 0
    // 0 0 1 0 0 0 0
    // 0 0 0 1 0 0 0
    // 0 0 0 0 0 0 0
    let mut grid: CellBlock<bool> = CellBlockBuilder::new(7, 7, false).finish();
    grid.set((2, 2), true);
    grid.set((3, 1), true);
    grid.set((5, 4), true);
    grid.set((3, 7), true);
    let mut search = grid.neighbors((3, 3), 2, |_, &t| t);

    assert_eq!(search.next(), Some(((2, 2), &true)));
    assert_eq!(search.next(), Some(((3, 1), &true)));
    assert_eq!(search.next(), Some(((5, 4), &true)));

    // Expect the potential match at (3, 7) to not be found. It is too far.
    assert_eq!(search.next(), None);
}

#[test]
fn neighbors_does_not_stop_at_matches() {
    // Unlike the visible search, the plain search finds cells behind a match.
    let mut grid: CellBlock<bool> = CellBlockBuilder::new(7, 7, false).finish();
    grid.set((3, 3), true);
    grid.set((2, 2), true);
    grid.set((1, 1), true);
    let mut search = NeighborSearch::new(&grid, (3, 3), 2, |_, &t| t);
    assert_eq!(search.next(), Some(((3, 3), &true)));
    assert_eq!(search.next(), Some(((2, 2), &true)));
    assert_eq!(search.next(), Some(((1, 1), &true)));
    assert_eq!(search.next(), None);
    assert_eq!(search.next(), None);
}

#[test]
fn visible_search_by_constructor_and_position_predicate() {
    let grid: CellBlock<u8> = CellBlockBuilder::new(5, 5, 9).finish();
    let mut search = VisibleNeighborSearch::new(&grid, (0, 0), 1, |pos, _| pos == (1, 1));
    assert_eq!(search.next(), Some(((1, 1), &9)));
    assert_eq!(search.next(), None);
}

#[test]
fn cell_block_at_and_set() {
    let mut grid: CellBlock<u32> = CellBlockBuilder::new(3, 2, 7).finish();
    assert_eq!(grid.pos_idx((2, 1)), 5);
    assert_eq!(grid.at((0, 0)), Some(&7));
    assert_eq!(grid.at((2, 1)), Some(&7));
    // There is no cell behind the last one.
    assert_eq!(grid.at((0, 2)), None);
    grid.set((1, 1), 3);
    assert_eq!(grid.at((1, 1)), Some(&3));
    assert_eq!(grid.at((0, 1)), Some(&7));
    // Setting a cell that does not exist changes nothing.
    grid.set((0, 2), 1);
    assert_eq!(grid.at((0, 2)), None);
    // A position beyond the end of a row names the cell at its place.
    assert_eq!(grid.at((4, 0)), Some(&3));
}

#[test]
fn cell_block_of_no_cells() {
    let grid: CellBlock<bool> = CellBlockBuilder::new(0, 4, true).finish();
    assert_eq!(grid.at((0, 0)), None);
    let mut search = grid.neighbors((0, 0), 3, |_, &t| t);
    assert_eq!(search.next(), None);
}
