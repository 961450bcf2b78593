use flocksim::dense_grid::{grass_updates_within, Food, Grid, GrowGrass, Metabolism, Pos, Vision};
use flocksim::network::message::{CellUpdate, ClientHandlerMsg, ToClient};
use flocksim::snapshot::{
    AnySheepSnapshot, RunningSheepSnapshot, RunningToStationarySheepSnapshot,
    StationarySheepSnapshot, WalkingSheepSnapshot,
};
use flocksim::geometry::Vec2;

#[test]
fn new_grid_holds_the_default_everywhere() {
    let grid: Grid<u8> = Grid::new(3, 2, 7);
    assert_eq!(grid.at(0, 0), Some(&7));
    assert_eq!(grid.at(2, 1), Some(&7));
    assert_eq!(grid.at(0, 2), None);
    assert_eq!(grid.at(3, 1), None);
    // A position beyond the end of a row names the cell at its place.
    assert_eq!(grid.at(3, 0), Some(&7));
    assert_eq!(*grid.unsafe_at(1, 1), 7);
    let empty: Grid<u8> = Grid::new(0, 9, 1);
    assert_eq!(empty.at(0, 0), None);
    assert!(empty.all().is_empty());
    assert!(empty.all_positions().is_empty());
}

#[test]
fn set_and_at() {
    let mut grid: Grid<u8> = Grid::new(4, 3, 0);
    grid.set(1, 2, 5);
    grid.set(3, 0, 6);
    assert_eq!(grid.at(1, 2), Some(&5));
    assert_eq!(grid.at(3, 0), Some(&6));
    assert_eq!(grid.at(0, 0), Some(&0));
    assert_eq!(*grid.unsafe_at(1, 2), 5);
}

#[test]
fn all_positions_row_by_row() {
    let grid: Grid<u8> = Grid::new(3, 2, 0);
    assert_eq!(grid.all_positions(), vec![(0, 0), (1, 0), (2, 0), (0, 1), (1, 1), (2, 1)]);
}

#[test]
fn all_cells_with_their_positions() {
    let mut grid: Grid<u8> = Grid::new(2, 2, 0);
    grid.set(1, 0, 1);
    grid.set(0, 1, 2);
    grid.set(1, 1, 3);
    assert_eq!(grid.all(), vec![(0, 0, &0), (1, 0, &1), (0, 1, &2), (1, 1, &3)]);
}

#[test]
fn within_bounds() {
    let mut grid: Grid<u8> = Grid::new(4, 4, 0);
    grid.set(2, 1, 9);
    assert_eq!(
        grid.within(1, 3, 1, 3),
        vec![(1, 1, &0), (2, 1, &9), (1, 2, &0), (2, 2, &0)]
    );
    // The bounds are cut down to the grid.
    assert_eq!(grid.within(3, 200, 2, 200), vec![(3, 2, &0), (3, 3, &0)]);
    assert!(grid.within(3, 1, 0, 4).is_empty());
    assert!(grid.within(0, 4, 2, 2).is_empty());
    assert!(grid.within(5, 9, 0, 4).is_empty());
    assert_eq!(grid.within(0, 255, 0, 255).len(), 16);
}

#[test]
fn around_a_cell() {
    let mut grid: Grid<u8> = Grid::new(5, 5, 0);
    grid.set(1, 2, 4);
    grid.set(2, 3, 8);
    // The row from one left to below one right, then the column likewise,
    // without the cell itself.
    assert_eq!(grid.around(2, 2, 1), vec![(1, 2, &4), (2, 2, &0), (2, 1, &0)]);
    assert_eq!(
        grid.around(2, 2, 2),
        vec![
            (0, 2, &0),
            (1, 2, &4),
            (2, 2, &0),
            (3, 2, &0),
            (2, 0, &0),
            (2, 1, &0),
            (2, 3, &8)
        ]
    );
    assert!(grid.around(2, 2, 0).is_empty());
    // At the corner the range is cut down to the grid.
    assert_eq!(grid.around(0, 0, 3), vec![(0, 0, &0), (1, 0, &0), (2, 0, &0), (0, 1, &0), (0, 2, &0)]);
    assert_eq!(grid.around(4, 4, 200), vec![
        (0, 4, &0), (1, 4, &0), (2, 4, &0), (3, 4, &0), (4, 4, &0),
        (4, 0, &0), (4, 1, &0), (4, 2, &0), (4, 3, &0)
    ]);
}

#[test]
fn all_reports_positions_from_the_place_cut_to_a_byte() {
    let grid: Grid<u8> = Grid::new(20, 20, 0);
    let all = grid.all();
    assert_eq!(all.len(), 400);
    assert_eq!((all[0].0, all[0].1), (0, 0));
    assert_eq!((all[21].0, all[21].1), (1, 1));
    assert_eq!((all[255].0, all[255].1), (15, 12));
    // Place 256 is cut down to 0.
    assert_eq!((all[256].0, all[256].1), (0, 0));
    assert_eq!((all[399].0, all[399].1), (143 % 20, 143 / 20));
}

#[test]
fn to_client_carries_the_updates() {
    let updates = vec![
        CellUpdate { x: 1, y: 2, grass: 3 },
        CellUpdate { x: -4, y: 5, grass: 0 },
    ];
    let msg = ClientHandlerMsg { cell_updates: updates.clone() };
    let out = ToClient::from(msg);
    assert_eq!(out.cell_updates, updates);
    let none = ToClient::from(ClientHandlerMsg { cell_updates: vec![] });
    assert!(none.cell_updates.is_empty());
}

#[test]
fn snapshots_start_empty() {
    assert_eq!(AnySheepSnapshot::default().heading_sum, Vec2::new(0, 0));
    assert_eq!(StationarySheepSnapshot::default().count, 0);
    assert_eq!(WalkingSheepSnapshot::default().count, 0);
    assert_eq!(RunningSheepSnapshot::default().count, 0);
    assert_eq!(RunningSheepSnapshot::default().heading_sum, Vec2::new(0, 0));
    assert_eq!(RunningToStationarySheepSnapshot::default().count, 0);
}

#[test]
fn grass_grows_and_is_grazed() {
    let mut grid: Grid<u8> = Grid::new(2, 2, 0);
    grid.set(1, 0, 3);
    grid.set(0, 1, 4);
    grid.set(1, 1, 255);
    GrowGrass::run(&mut grid);
    assert_eq!(grid.all(), vec![(0, 0, &1), (1, 0, &4), (0, 1, &0), (1, 1, &1)]);
    for _ in 0..4 {
        GrowGrass::run(&mut grid);
    }
    assert_eq!(grid.all(), vec![(0, 0, &0), (1, 0, &3), (0, 1, &4), (1, 1, &0)]);
}

#[test]
fn grass_updates_for_a_region() {
    let mut grid: Grid<u8> = Grid::new(4, 4, 0);
    grid.set(2, 1, 9);
    grid.set(1, 2, 200);
    let msg = grass_updates_within(&grid, 1, 3, 1, 3);
    assert_eq!(
        msg.cell_updates,
        vec![
            CellUpdate { x: 1, y: 1, grass: 0 },
            CellUpdate { x: 2, y: 1, grass: 9 },
            CellUpdate { x: 1, y: 2, grass: 200 },
            CellUpdate { x: 2, y: 2, grass: 0 },
        ]
    );
    assert!(grass_updates_within(&grid, 4, 9, 0, 9).cell_updates.is_empty());
    assert_eq!(grass_updates_within(&grid, 0, 255, 0, 255).cell_updates.len(), 16);
}

#[test]
fn grid_components() {
    assert_eq!(Pos { x: 1, y: 2 }, Pos { x: 1, y: 2 });
    assert_ne!(Pos { x: 1, y: 2 }, Pos { x: 2, y: 1 });
    assert_eq!(Food(3).0 + Metabolism(4).0 + Vision(5).0, 12);
}
