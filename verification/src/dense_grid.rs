//! A small grid of cells that is stored row by row and addressed by byte
//! coordinates, and the grass that grows on such a grid.

use crate::network::message::{CellUpdate, ClientHandlerMsg};
use vstd::prelude::*;

verus! {

pub struct Grid<T> {
    width: u8,
    height: u8,
    cells: Vec<T>,
}

/// The smaller of two bytes.
pub open spec fn min_u8(a: u8, b: u8) -> u8 {
    if a <= b {
        a
    } else {
        b
    }
}

/// `a - b`, or zero where `b` is not below `a`.
pub open spec fn span(a: int, b: int) -> int {
    if a > b {
        a - b
    } else {
        0
    }
}

impl<T: Clone + Copy> Grid<T> {
    /// The cells, row by row.
    pub closed spec fn view(&self) -> Seq<T> {
        self.cells@
    }

    /// The number of cells in a row.
    pub closed spec fn width(&self) -> u8 {
        self.width
    }

    /// The number of rows.
    pub closed spec fn height(&self) -> u8 {
        self.height
    }

    /// The grid has a cell for every position within its width and height.
    pub open spec fn wf(&self) -> bool {
        self@.len() == self.width() * self.height()
    }

    /// The place of the cell at `(x, y)` among the cells.
    pub open spec fn index_of(&self, x: u8, y: u8) -> int {
        y * self.width() + x
    }

    /// The cell at `(x, y)` is one of the grid, and its place is its own.
    pub proof fn lemma_index_in_grid(&self, x: u8, y: u8)
        requires
            self.wf(),
            x < self.width(),
            y < self.height(),
        ensures
            0 <= self.index_of(x, y) < self@.len(),
    {
        let w = self.width() as int;
        let h = self.height() as int;
        assert(0 <= y * w + x < w * h) by (nonlinear_arith)
            requires
                0 <= x < w,
                0 <= y < h,
        ;
    }

    /// The grid of width `w` and height `h` with `default` in every cell.
    pub fn new(w: u8, h: u8, default: T) -> (grid: Grid<T>)
        ensures
            grid.wf(),
            grid.width() == w,
            grid.height() == h,
            forall|i: int| 0 <= i < grid@.len() ==> #[trigger] grid@[i] == default,
    {
        assert(0 <= w * h <= 255 * 255) by (nonlinear_arith)
            requires
                0 <= w <= 255,
                0 <= h <= 255,
        ;
        let count: usize = (w as usize) * (h as usize);
        let mut cells: Vec<T> = Vec::new();
        let mut i: usize = 0;
        while i < count
            invariant
                0 <= i <= count,
                cells@.len() == i,
                forall|k: int| 0 <= k < i ==> #[trigger] cells@[k] == default,
            decreases count - i,
        {
            cells.push(default);
            i += 1;
        }
        Grid { width: w, height: h, cells }
    }

    /// Sets the cell at `(x, y)`.
    pub fn set(&mut self, x: u8, y: u8, val: T)
        requires
            old(self).index_of(x, y) < old(self)@.len(),
        ensures
            final(self)@ == old(self)@.update(old(self).index_of(x, y), val),
            final(self).width() == old(self).width(),
            final(self).height() == old(self).height(),
    {
        let idx: usize = self.xy_idx(x, y);
        self.cells[idx] = val;
    }

    /// The cell at `(x, y)`, where the grid has one at that place.
    pub fn at(&self, x: u8, y: u8) -> (cell: Option<&T>)
        ensures
            match cell {
                Some(c) => self.index_of(x, y) < self@.len() && *c == self@[self.index_of(x, y)],
                None => self.index_of(x, y) >= self@.len(),
            },
    {
        let idx: usize = self.xy_idx(x, y);
        if idx < self.cells.len() {
            Some(&self.cells[idx])
        } else {
            None
        }
    }

    /// The positions from `low` to below `high` on one axis.
    pub open spec fn horizontal(center_y: u8, low: int, high: int) -> Seq<(u8, u8)> {
        Seq::new(span(high, low) as nat, |i: int| ((low + i) as u8, center_y))
    }

    /// The positions `(center_x, y)` for `y` from `low` to below `high`,
    /// among the first `n` of them, the one with `y == center_y` left out.
    pub open spec fn vertical(center_x: u8, center_y: u8, low: int, n: int) -> Seq<(u8, u8)>
        decreases n,
    {
        if n <= 0 {
            Seq::empty()
        } else {
            let before = Self::vertical(center_x, center_y, low, n - 1);
            if low + n - 1 == center_y {
                before
            } else {
                before.push((center_x, (low + n - 1) as u8))
            }
        }
    }

    /// The positions around `(center_x, center_y)`: those of its row from
    /// `range` to the left of it to below `range` to the right of it, and
    /// then those of its column from `range` under it to below `range` over
    /// it, itself left out; all as far as the grid reaches.
    pub open spec fn around_positions_of(&self, center_x: u8, center_y: u8, range: u8) -> Seq<
        (u8, u8),
    > {
        let x_min = span(center_x as int, range as int);
        let x_max = min_u8(self.width(), (center_x + range) as u8) as int;
        let y_min = span(center_y as int, range as int);
        let y_max = min_u8(self.height(), (center_y + range) as u8) as int;
        Self::horizontal(center_y, x_min, x_max) + Self::vertical(
            center_x,
            center_y,
            y_min,
            span(y_max, y_min),
        )
    }

    /// The cells around `(x, y)`, each with its position; see
    /// `around_positions_of`.
    pub fn around(&self, x: u8, y: u8, range: u8) -> (cells: Vec<(u8, u8, &T)>)
        requires
            self.wf(),
            x < self.width(),
            y < self.height(),
            x + range <= u8::MAX,
            y + range <= u8::MAX,
        ensures
            cells@.len() == self.around_positions_of(x, y, range).len(),
            forall|k: int|
                0 <= k < cells@.len() ==> {
                    &&& (#[trigger] cells@[k]).0 == self.around_positions_of(x, y, range)[k].0
                    &&& cells@[k].1 == self.around_positions_of(x, y, range)[k].1
                    &&& 0 <= self.index_of(cells@[k].0, cells@[k].1) < self@.len()
                    &&& *cells@[k].2 == self@[self.index_of(cells@[k].0, cells@[k].1)]
                },
    {
        let positions = self.around_positions(x, y, range);
        let mut cells: Vec<(u8, u8, &T)> = Vec::new();
        let mut k: usize = 0;
        while k < positions.len()
            invariant
                0 <= k <= positions@.len(),
                self.wf(),
                positions@ == self.around_positions_of(x, y, range),
                forall|j: int|
                    0 <= j < positions@.len() ==> (#[trigger] positions@[j]).0 < self.width()
                        && positions@[j].1 < self.height(),
                cells@.len() == k,
                forall|j: int|
                    0 <= j < k ==> {
                        &&& (#[trigger] cells@[j]).0 == positions@[j].0
                        &&& cells@[j].1 == positions@[j].1
                        &&& 0 <= self.index_of(cells@[j].0, cells@[j].1) < self@.len()
                        &&& *cells@[j].2 == self@[self.index_of(cells@[j].0, cells@[j].1)]
                    },
            decreases positions@.len() - k,
        {
            let (ax, ay) = positions[k];
            proof {
                assert(positions@[k as int].0 < self.width());
                self.lemma_index_in_grid(ax, ay);
            }
            let ghost before = cells@;
            cells.push((ax, ay, self.unsafe_at(ax, ay)));
            proof {
                assert forall|j: int| 0 <= j < k implies #[trigger] cells@[j] == before[j] by {}
            }
            k += 1;
        }
        cells
    }

    /// The positions of the rows from `y_min` to below `y_max` and, within
    /// each, of the columns from `x_min` to below `x_max`, as far as the grid
    /// reaches: `rows` rows of `columns` positions each, row by row.
    pub open spec fn is_block(
        positions: Seq<(u8, u8)>,
        x_min: int,
        y_min: int,
        columns: int,
        rows: int,
    ) -> bool {
        &&& positions.len() == rows * columns
        &&& forall|r: int, c: int|
            0 <= r < rows && 0 <= c < columns ==> #[trigger] positions[r * columns + c] == ((x_min
                + c) as u8, (y_min + r) as u8)
    }

    /// The cells within the given bounds, each with its position: those of
    /// the rows from `y_min` to below `y_max` and, within each, of the
    /// columns from `x_min` to below `x_max`, as far as the grid reaches, row
    /// by row.
    pub fn within(&self, x_min: u8, x_max: u8, y_min: u8, y_max: u8) -> (cells: Vec<(u8, u8, &T)>)
        requires
            self.wf(),
        ensures
            ({
                let columns = span(min_u8(self.width(), x_max) as int, x_min as int);
                let rows = span(min_u8(self.height(), y_max) as int, y_min as int);
                &&& cells@.len() == rows * columns
                &&& forall|r: int, c: int|
                    0 <= r < rows && 0 <= c < columns ==> {
                        let cell = #[trigger] cells@[r * columns + c];
                        &&& cell.0 == x_min + c
                        &&& cell.1 == y_min + r
                        &&& 0 <= self.index_of(cell.0, cell.1) < self@.len()
                        &&& *cell.2 == self@[self.index_of(cell.0, cell.1)]
                    }
            }),
    {
        let positions = self.within_positions(x_min, x_max, y_min, y_max);
        let ghost columns = span(min_u8(self.width(), x_max) as int, x_min as int);
        let ghost rows = span(min_u8(self.height(), y_max) as int, y_min as int);
        let mut cells: Vec<(u8, u8, &T)> = Vec::new();
        let mut k: usize = 0;
        while k < positions.len()
            invariant
                0 <= k <= positions@.len(),
                self.wf(),
                forall|j: int|
                    0 <= j < positions@.len() ==> (#[trigger] positions@[j]).0 < self.width()
                        && positions@[j].1 < self.height(),
                cells@.len() == k,
                forall|j: int|
                    0 <= j < k ==> {
                        &&& (#[trigger] cells@[j]).0 == positions@[j].0
                        &&& cells@[j].1 == positions@[j].1
                        &&& 0 <= self.index_of(cells@[j].0, cells@[j].1) < self@.len()
                        &&& *cells@[j].2 == self@[self.index_of(cells@[j].0, cells@[j].1)]
                    },
            decreases positions@.len() - k,
        {
            let (ax, ay) = positions[k];
            proof {
                assert(positions@[k as int].0 < self.width());
                self.lemma_index_in_grid(ax, ay);
            }
            let ghost before = cells@;
            cells.push((ax, ay, self.unsafe_at(ax, ay)));
            proof {
                assert forall|j: int| 0 <= j < k implies #[trigger] cells@[j] == before[j] by {}
            }
            k += 1;
        }
        proof {
            assert forall|r: int, c: int| 0 <= r < rows && 0 <= c < columns implies {
                let cell = #[trigger] cells@[r * columns + c];
                &&& cell.0 == x_min + c
                &&& cell.1 == y_min + r
                &&& 0 <= self.index_of(cell.0, cell.1) < self@.len()
                &&& *cell.2 == self@[self.index_of(cell.0, cell.1)]
            } by {
                assert(0 <= r * columns + c < rows * columns) by (nonlinear_arith)
                    requires
                        0 <= r < rows,
                        0 <= c < columns,
                ;
                assert(positions@[r * columns + c] == ((x_min + c) as u8, (y_min + r) as u8));
            }
        }
        cells
    }

    /// The position at which `all` reports the cell of the place `i`: the
    /// place is cut down to a byte, and that is divided by the width.
    pub open spec fn reported_position(&self, i: usize) -> (u8, u8) {
        ((i as u8) % self.width(), (i as u8) / self.width())
    }

    /// All cells, in the order of their places, each with the position that
    /// is reported for its place.
    pub fn all(&self) -> (cells: Vec<(u8, u8, &T)>)
        requires
            self.wf(),
        ensures
            cells@.len() == self@.len(),
            forall|k: int|
                0 <= k < cells@.len() ==> {
                    &&& ((#[trigger] cells@[k]).0, cells@[k].1) == self.reported_position(
                        k as usize,
                    )
                    &&& *cells@[k].2 == self@[k]
                },
    {
        let mut cells: Vec<(u8, u8, &T)> = Vec::new();
        let mut i: usize = 0;
        while i < self.cells.len()
            invariant
                0 <= i <= self.cells@.len(),
                self.wf(),
                cells@.len() == i,
                forall|k: int|
                    0 <= k < i ==> {
                        &&& ((#[trigger] cells@[k]).0, cells@[k].1) == self.reported_position(
                            k as usize,
                        )
                        &&& *cells@[k].2 == self@[k]
                    },
            decreases self.cells@.len() - i,
        {
            proof {
                let w = self.width() as int;
                let h = self.height() as int;
                assert(w > 0) by (nonlinear_arith)
                    requires
                        w * h > 0,
                        w >= 0,
                ;
            }
            let (x, y) = self.idx_xy(i);
            cells.push((x, y, &self.cells[i]));
            i += 1;
        }
        cells
    }

    /// The positions of all cells, row by row.
    pub fn all_positions(&self) -> (positions: Vec<(u8, u8)>)
        ensures
            Self::is_block(positions@, 0, 0, self.width() as int, self.height() as int),
    {
        self.within_positions(0, self.width, 0, self.height)
    }

    /// The cell at `(x, y)`, which the grid must have.
    pub fn unsafe_at(&self, x: u8, y: u8) -> (cell: &T)
        requires
            self.index_of(x, y) < self@.len(),
        ensures
            *cell == self@[self.index_of(x, y)],
    {
        let idx: usize = self.xy_idx(x, y);
        &self.cells[idx]
    }

    /// Gets a list of positions around the specified cell.
    fn around_positions(&self, center_x: u8, center_y: u8, range: u8) -> (positions: Vec<(u8, u8)>)
        requires
            center_x < self.width(),
            center_y < self.height(),
            center_x + range <= u8::MAX,
            center_y + range <= u8::MAX,
        ensures
            positions@ == self.around_positions_of(center_x, center_y, range),
            forall|j: int|
                0 <= j < positions@.len() ==> (#[trigger] positions@[j]).0 < self.width()
                    && positions@[j].1 < self.height(),
    {
        let x_min: u8 = if range < center_x {
            center_x - range
        } else {
            0
        };
        let x_max: u8 = if self.width <= center_x + range {
            self.width
        } else {
            center_x + range
        };
        let y_min: u8 = if range < center_y {
            center_y - range
        } else {
            0
        };
        let y_max: u8 = if self.height <= center_y + range {
            self.height
        } else {
            center_y + range
        };
        let mut positions: Vec<(u8, u8)> = Vec::new();
        let mut x: u8 = x_min;
        while x < x_max
            invariant
                x_min <= x,
                x_max >= x_min ==> x <= x_max,
                x_max < x_min ==> x == x_min,
                x_max <= self.width(),
                center_y < self.height(),
                positions@ == Self::horizontal(center_y, x_min as int, x as int),
                forall|j: int|
                    0 <= j < positions@.len() ==> (#[trigger] positions@[j]).0 < self.width()
                        && positions@[j].1 < self.height(),
            decreases x_max - x,
        {
            positions.push((x, center_y));
            proof {
                assert(positions@ =~= Self::horizontal(center_y, x_min as int, x + 1));
            }
            x += 1;
        }
        proof {
            assert(positions@ =~= Self::horizontal(center_y, x_min as int, x_max as int));
        }
        let ghost row = positions@;
        let mut y: u8 = y_min;
        while y < y_max
            invariant
                y_min <= y,
                y_max >= y_min ==> y <= y_max,
                y_max < y_min ==> y == y_min,
                y_max <= self.height(),
                center_x < self.width(),
                positions@ == row + Self::vertical(center_x, center_y, y_min as int, y - y_min),
                forall|j: int|
                    0 <= j < positions@.len() ==> (#[trigger] positions@[j]).0 < self.width()
                        && positions@[j].1 < self.height(),
            decreases y_max - y,
        {
            if y != center_y {
                positions.push((center_x, y));
            }
            proof {
                assert(positions@ =~= row + Self::vertical(
                    center_x,
                    center_y,
                    y_min as int,
                    y + 1 - y_min,
                ));
            }
            y += 1;
        }
        positions
    }

    /// Gets a list of positions within the given bounds.
    fn within_positions(&self, x_min: u8, x_max: u8, y_min: u8, y_max: u8) -> (positions: Vec<
        (u8, u8),
    >)
        ensures
            Self::is_block(
                positions@,
                x_min as int,
                y_min as int,
                span(min_u8(self.width(), x_max) as int, x_min as int),
                span(min_u8(self.height(), y_max) as int, y_min as int),
            ),
            forall|j: int|
                0 <= j < positions@.len() ==> (#[trigger] positions@[j]).0 < self.width()
                    && positions@[j].1 < self.height(),
    {
        let x_max: u8 = if self.width <= x_max {
            self.width
        } else {
            x_max
        };
        let y_max: u8 = if self.height <= y_max {
            self.height
        } else {
            y_max
        };
        let ghost columns = span(x_max as int, x_min as int);
        let ghost rows = span(y_max as int, y_min as int);
        let mut positions: Vec<(u8, u8)> = Vec::new();
        let mut y: u8 = y_min;
        proof {
            assert(0 * columns == 0);
        }
        while y < y_max
            invariant
                y_min <= y,
                y_max >= y_min ==> y <= y_max,
                y_max < y_min ==> y == y_min,
                x_max <= self.width(),
                y_max <= self.height(),
                columns == span(x_max as int, x_min as int),
                rows == span(y_max as int, y_min as int),
                positions@.len() == (y - y_min) * columns,
                forall|r: int, c: int|
                    0 <= r < y - y_min && 0 <= c < columns ==> #[trigger] positions@[r * columns
                        + c] == ((x_min + c) as u8, (y_min + r) as u8),
                forall|j: int|
                    0 <= j < positions@.len() ==> (#[trigger] positions@[j]).0 < self.width()
                        && positions@[j].1 < self.height(),
            decreases y_max - y,
        {
            let ghost start = positions@;
            let mut x: u8 = x_min;
            while x < x_max
                invariant
                    x_min <= x,
                    x_max >= x_min ==> x <= x_max,
                x_max < x_min ==> x == x_min,
                    y_min <= y < y_max,
                    x_max <= self.width(),
                    y_max <= self.height(),
                    columns == span(x_max as int, x_min as int),
                    start.len() == (y - y_min) * columns,
                    positions@.len() == start.len() + (x - x_min),
                    forall|j: int| 0 <= j < start.len() ==> #[trigger] positions@[j] == start[j],
                    forall|c: int|
                        0 <= c < x - x_min ==> #[trigger] positions@[start.len() + c] == ((x_min
                            + c) as u8, y),
                    forall|j: int|
                        0 <= j < positions@.len() ==> (#[trigger] positions@[j]).0 < self.width()
                            && positions@[j].1 < self.height(),
                decreases x_max - x,
            {
                let ghost row = positions@;
                positions.push((x, y));
                proof {
                    assert forall|j: int| 0 <= j < row.len() implies #[trigger] positions@[j]
                        == row[j] by {}
                }
                x += 1;
            }
            proof {
                let done = y - y_min;
                assert(positions@.len() == start.len() + columns);
                assert((done + 1) * columns == done * columns + columns) by (nonlinear_arith);
                assert forall|r: int, c: int| 0 <= r < done + 1 && 0 <= c < columns implies #[trigger] positions@[r
                    * columns + c] == ((x_min + c) as u8, (y_min + r) as u8) by {
                    if r < done {
                        assert(0 <= r * columns + c < done * columns) by (nonlinear_arith)
                            requires
                                0 <= r < done,
                                0 <= c < columns,
                        ;
                        assert(positions@[r * columns + c] == start[r * columns + c]);
                    } else {
                        assert(r * columns + c == start.len() + c);
                    }
                }
            }
            y += 1;
        }
        proof {
            if y_max < y_min {
                assert(rows == 0);
                assert(0 * columns == 0);
            }
        }
        positions
    }

    fn xy_idx(&self, x: u8, y: u8) -> (idx: usize)
        ensures
            idx == self.index_of(x, y),
    {
        assert(0 <= y * self.width <= 255 * 255) by (nonlinear_arith)
            requires
                0 <= y <= 255,
                0 <= self.width <= 255,
        ;
        (y as usize * self.width as usize) + x as usize
    }

    fn idx_xy(&self, idx: usize) -> (pos: (u8, u8))
        requires
            self.width() > 0,
        ensures
            pos == self.reported_position(idx),
    {
        (#[verifier::truncate] (idx as u8) % self.width, #[verifier::truncate] (idx as u8) / self.width)
    }
}

/// A position on the grid.
#[derive(Clone, Copy, Debug, PartialEq, Eq, Structural)]
pub struct Pos {
    pub x: u8,
    pub y: u8,
}

/// The food that an animal carries.
#[derive(Clone, Copy, Debug, PartialEq, Eq, Structural)]
pub struct Food(pub u8);

/// The food that an animal uses up in a step.
#[derive(Clone, Copy, Debug, PartialEq, Eq, Structural)]
pub struct Metabolism(pub u8);

/// How far an animal sees.
#[derive(Clone, Copy, Debug, PartialEq, Eq, Structural)]
pub struct Vision(pub u8);

/// The height of the grass of a cell.
pub type Grass = u8;

/// The height above which grass does not grow: a cell that has reached it
/// is grazed down to nothing.
pub const GRASS_HEIGHTS: u8 = 5;

/// The grass of a cell after a step of growth.
pub open spec fn grown_grass(g: Grass) -> Grass {
    ((g + 1) % (GRASS_HEIGHTS as int)) as u8
}

pub struct GrowGrass;

impl GrowGrass {
    /// Lets the grass of every cell grow by one step.
    pub fn run(grass_grid: &mut Grid<Grass>)
        ensures
            final(grass_grid).width() == old(grass_grid).width(),
            final(grass_grid).height() == old(grass_grid).height(),
            final(grass_grid)@.len() == old(grass_grid)@.len(),
            forall|i: int|
                0 <= i < old(grass_grid)@.len() ==> #[trigger] final(grass_grid)@[i] == grown_grass(
                    old(grass_grid)@[i],
                ),
    {
        let n: usize = grass_grid.cells.len();
        let mut i: usize = 0;
        while i < n
            invariant
                0 <= i <= n,
                n == grass_grid.cells@.len(),
                n == old(grass_grid).cells@.len(),
                grass_grid.width == old(grass_grid).width,
                grass_grid.height == old(grass_grid).height,
                forall|k: int|
                    0 <= k < i ==> #[trigger] grass_grid.cells@[k] == grown_grass(
                        old(grass_grid).cells@[k],
                    ),
                forall|k: int|
                    i <= k < n ==> #[trigger] grass_grid.cells@[k] == old(grass_grid).cells@[k],
            decreases n - i,
        {
            let g: Grass = grass_grid.cells[i];
            let grown: u16 = (g as u16 + 1) % (GRASS_HEIGHTS as u16);
            grass_grid.cells[i] = grown as u8;
            i += 1;
        }
    }
}

/// The message that tells of the grass of the cells within the given
/// bounds, row by row; see `Grid::within`.
#[verifier::loop_isolation(false)]
pub fn grass_updates_within(grid: &Grid<Grass>, x_min: u8, x_max: u8, y_min: u8, y_max: u8) -> (msg:
    ClientHandlerMsg)
    requires
        grid.wf(),
    ensures
        ({
            let columns = span(min_u8(grid.width(), x_max) as int, x_min as int);
            let rows = span(min_u8(grid.height(), y_max) as int, y_min as int);
            &&& msg.cell_updates@.len() == rows * columns
            &&& forall|r: int, c: int|
                0 <= r < rows && 0 <= c < columns ==> {
                    let update = #[trigger] msg.cell_updates@[r * columns + c];
                    &&& update.x == x_min + c
                    &&& update.y == y_min + r
                    &&& 0 <= grid.index_of(update.x as u8, update.y as u8) < grid@.len()
                    &&& update.grass == grid@[grid.index_of(update.x as u8, update.y as u8)]
                }
        }),
{
    let cells = grid.within(x_min, x_max, y_min, y_max);
    let mut updates: Vec<CellUpdate> = Vec::new();
    let mut k: usize = 0;
    while k < cells.len()
        invariant
            0 <= k <= cells@.len(),
            updates@.len() == k,
            forall|j: int|
                0 <= j < k ==> {
                    &&& (#[trigger] updates@[j]).x == cells@[j].0
                    &&& updates@[j].y == cells@[j].1
                    &&& updates@[j].grass == *cells@[j].2
                },
        decreases cells@.len() - k,
    {
        let (x, y, g) = cells[k];
        updates.push(CellUpdate { x: x as i32, y: y as i32, grass: *g as i32 });
        k += 1;
    }
    proof {
        let columns = span(min_u8(grid.width(), x_max) as int, x_min as int);
        let rows = span(min_u8(grid.height(), y_max) as int, y_min as int);
        assert forall|r: int, c: int| 0 <= r < rows && 0 <= c < columns implies {
            let update = #[trigger] updates@[r * columns + c];
            &&& update.x == x_min + c
            &&& update.y == y_min + r
            &&& 0 <= grid.index_of(update.x as u8, update.y as u8) < grid@.len()
            &&& update.grass == grid@[grid.index_of(update.x as u8, update.y as u8)]
        } by {
            assert(0 <= r * columns + c < rows * columns) by (nonlinear_arith)
                requires
                    0 <= r < rows,
                    0 <= c < columns,
            ;
            let cell = cells@[r * columns + c];
            assert(cell.0 == x_min + c && cell.1 == y_min + r);
        }
    }
    ClientHandlerMsg { cell_updates: updates }
}

} // verus!
