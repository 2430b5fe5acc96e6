use gol_core::cell::{CellState, CellType, RegionOwner};
use gol_core::grid::{
    alive_state_from, grid_to_world, most_frequent_kind, setup_grid, Grid, Region, WorldRegion,
    GRID_HEIGHT, GRID_WIDTH,
};
use gol_core::pattern::Dir;
use gol_core::store::{find_pattern, SavedPatterns};

fn world(cx: usize, cy: usize) -> (i64, i64) {
    ((cx as i64 - 32) * 10, (cy as i64 - 32) * 10)
}

fn state_of(grid: &Grid, cx: usize, cy: usize) -> CellState {
    grid.cells[cy * GRID_WIDTH + cx].state
}

fn alive_cells(grid: &Grid) -> Vec<(usize, usize)> {
    grid.cells
        .iter()
        .filter(|c| c.state.is_alive())
        .map(|c| (c.x, c.y))
        .collect()
}

#[test]
fn grid_to_world_centers_the_grid() {
    assert_eq!(grid_to_world(0, 0), (-320, -320));
    assert_eq!(grid_to_world(32, 32), (0, 0));
    assert_eq!(grid_to_world(63, 63), (310, 310));
}

#[test]
fn fresh_grid_is_all_dead_with_bands() {
    let grid = setup_grid();
    assert_eq!(grid.cells.len(), GRID_WIDTH * GRID_HEIGHT);
    assert!(alive_cells(&grid).is_empty());
    assert_eq!(grid.cells[0].region, RegionOwner::AI);
    assert_eq!(grid.cells[11 * GRID_WIDTH].region, RegionOwner::AI);
    assert_eq!(grid.cells[12 * GRID_WIDTH].region, RegionOwner::Neutral);
    assert_eq!(grid.cells[51 * GRID_WIDTH].region, RegionOwner::Neutral);
    assert_eq!(grid.cells[52 * GRID_WIDTH].region, RegionOwner::Player);
    assert_eq!(grid.cells[63 * GRID_WIDTH].region, RegionOwner::Player);
}

#[test]
fn step_of_all_dead_grid_stays_all_dead() {
    let mut grid = setup_grid();
    grid.step();
    assert!(alive_cells(&grid).is_empty());
}

#[test]
fn isolated_cell_dies_in_one_step() {
    let mut grid = setup_grid();
    grid.toggle_cell(world(10, 10));
    assert_eq!(alive_cells(&grid), vec![(10, 10)]);
    grid.step();
    assert!(alive_cells(&grid).is_empty());
    // dead cells hold exactly the Dead state, not some other non-live one
    assert_eq!(state_of(&grid, 10, 10), CellState::Dead);
    assert_eq!(state_of(&grid, 9, 9), CellState::Dead);
}

#[test]
fn full_block_follows_classic_counts() {
    // a 3x3 fully-alive block of one species: the corners keep exactly 3
    // live neighbors and survive, the edge cells (5) and the center (8)
    // die, and the four cells just outside the edge midpoints are born
    let mut grid = setup_grid();
    for cy in 10..13 {
        for cx in 10..13 {
            grid.toggle_cell(world(cx, cy));
        }
    }
    grid.step();
    let mut expected = vec![
        (10, 10),
        (12, 10),
        (10, 12),
        (12, 12),
        (11, 9),
        (9, 11),
        (13, 11),
        (11, 13),
    ];
    let mut got = alive_cells(&grid);
    expected.sort();
    got.sort();
    assert_eq!(got, expected);
    for (cx, cy) in [(11, 10), (10, 11), (11, 11), (12, 11), (11, 12)] {
        assert_eq!(state_of(&grid, cx, cy), CellState::Dead);
    }
}

#[test]
fn toggle_flips_and_flips_back() {
    let mut grid = setup_grid();
    grid.toggle_cell(world(5, 7));
    assert_eq!(state_of(&grid, 5, 7), CellState::Alive(CellType::Tree));
    grid.toggle_cell(world(5, 7));
    assert_eq!(state_of(&grid, 5, 7), CellState::Dead);
}

#[test]
fn toggle_on_a_cell_boundary_hits_nothing() {
    let mut grid = setup_grid();
    // (5, 5) lies exactly between cell centers on both axes
    grid.toggle_cell((5, 5));
    assert!(alive_cells(&grid).is_empty());
}

#[test]
fn place_pattern_sets_cells_alive_never_doubled() {
    let saved = SavedPatterns::default();
    let block = find_pattern(&saved, &"2x2".to_string()).unwrap();
    let mut grid = setup_grid();
    grid.place_pattern(block, world(20, 20), CellType::Water, CellType::Empty);
    let mut got = alive_cells(&grid);
    got.sort();
    assert_eq!(got, vec![(20, 20), (20, 21), (21, 20), (21, 21)]);
    // placing again over the same spot overwrites, never doubles or toggles
    grid.place_pattern(block, world(20, 20), CellType::Water, CellType::Empty);
    let mut again = alive_cells(&grid);
    again.sort();
    assert_eq!(again, vec![(20, 20), (20, 21), (21, 20), (21, 21)]);
    assert_eq!(state_of(&grid, 20, 20), CellState::Alive(CellType::Water));
}

#[test]
fn place_pattern_partially_off_grid_skips_missing_cells() {
    let saved = SavedPatterns::default();
    let block = find_pattern(&saved, &"2x2".to_string()).unwrap();
    let mut grid = setup_grid();
    // anchored at the far corner cell, the right/top half falls off the grid
    grid.place_pattern(block, world(63, 63), CellType::Tree, CellType::Empty);
    assert_eq!(alive_cells(&grid), vec![(63, 63)]);
}

#[test]
fn capture_rectangle_of_a_block_at_origin() {
    let mut grid = setup_grid();
    // a 2x2 block whose lower-left cell sits at world (0, 0), cell size 10
    for (cx, cy) in [(32, 32), (33, 32), (32, 33), (33, 33)] {
        grid.toggle_cell(world(cx, cy));
    }
    let p = grid.capture_rectangle((0, 0), (10, 10), "captured".to_string());
    let mut got = p.cells.clone();
    got.sort();
    assert_eq!(got, vec![(0, 0), (0, 1), (1, 0), (1, 1)]);
    assert!(p.deletable);
    assert!(p.is_temp);
    assert_eq!(p.dir, Dir::Unknown);
    assert_eq!(p.name, "captured");
}

#[test]
fn capture_rectangle_ignores_cells_outside_the_box() {
    let mut grid = setup_grid();
    grid.toggle_cell(world(32, 32));
    grid.toggle_cell(world(40, 40));
    let p = grid.capture_rectangle((0, 0), (10, 10), "one".to_string());
    assert_eq!(p.cells, vec![(0, 0)]);
}

#[test]
fn capture_rectangle_of_empty_box_is_empty() {
    let grid = setup_grid();
    let p = grid.capture_rectangle((0, 0), (50, 50), "nothing".to_string());
    assert!(p.cells.is_empty());
}

#[test]
fn glider_translates_one_cell_diagonally_in_four_steps() {
    // the regression anchor for the base rule: single-species mode
    let saved = SavedPatterns::default();
    let glider = find_pattern(&saved, &"glider".to_string()).unwrap();
    let mut grid = setup_grid();
    grid.place_pattern(glider, (0, 0), CellType::Tree, CellType::Empty);
    let start: Vec<(usize, usize)> = glider
        .cells
        .iter()
        .map(|&(ox, oy)| (32 + ox as usize, 32 + oy as usize))
        .collect();
    let mut placed = alive_cells(&grid);
    placed.sort();
    let mut start_sorted = start.clone();
    start_sorted.sort();
    assert_eq!(placed, start_sorted);
    for _ in 0..4 {
        grid.step();
    }
    let mut expected: Vec<(usize, usize)> = start.iter().map(|&(x, y)| (x + 1, y + 1)).collect();
    expected.sort();
    let mut got = alive_cells(&grid);
    got.sort();
    assert_eq!(got, expected);
    // with one species on the board, every survivor keeps that species
    for &(x, y) in &expected {
        assert_eq!(state_of(&grid, x, y), CellState::Alive(CellType::Tree));
    }
}

#[test]
fn blinker_oscillates_with_period_two() {
    let saved = SavedPatterns::default();
    let blinker = find_pattern(&saved, &"blinker".to_string()).unwrap();
    let mut grid = setup_grid();
    grid.place_pattern(blinker, world(20, 20), CellType::Tree, CellType::Empty);
    let mut horizontal = alive_cells(&grid);
    horizontal.sort();
    assert_eq!(horizontal, vec![(20, 21), (21, 21), (22, 21)]);
    grid.step();
    let mut vertical = alive_cells(&grid);
    vertical.sort();
    assert_eq!(vertical, vec![(21, 20), (21, 21), (21, 22)]);
    grid.step();
    let mut back = alive_cells(&grid);
    back.sort();
    assert_eq!(back, horizontal);
}

#[test]
fn tree_beats_water_in_a_contested_row() {
    // a Tree cell flanked by two Water cells: the Tree survives its two
    // neighbors and wins every battle (Tree beats Water), and the two cells
    // born above and below it draw their species from the same contest —
    // the outcome is fixed although the tie-breaking coins are random
    let saved = SavedPatterns::default();
    let one = find_pattern(&saved, &"1x1".to_string()).unwrap();
    let mut grid = setup_grid();
    grid.place_pattern(one, world(19, 20), CellType::Water, CellType::Empty);
    grid.place_pattern(one, world(20, 20), CellType::Tree, CellType::Empty);
    grid.place_pattern(one, world(21, 20), CellType::Water, CellType::Empty);
    grid.step();
    let mut got = alive_cells(&grid);
    got.sort();
    assert_eq!(got, vec![(20, 19), (20, 20), (20, 21)]);
    for (cx, cy) in [(20, 19), (20, 20), (20, 21)] {
        assert_eq!(state_of(&grid, cx, cy), CellState::Alive(CellType::Tree));
    }
}

#[test]
fn most_frequent_kind_counts_exactly() {
    assert_eq!(
        most_frequent_kind(&vec![CellType::Tree, CellType::Water, CellType::Tree]),
        CellType::Tree
    );
    assert_eq!(
        most_frequent_kind(&vec![CellType::Fire, CellType::Water, CellType::Water]),
        CellType::Water
    );
    assert_eq!(most_frequent_kind(&vec![]), CellType::PlainOn);
}

#[test]
fn alive_state_from_settles_two_species_battles() {
    assert_eq!(alive_state_from(CellType::Tree, &vec![]), CellState::Alive(CellType::Tree));
    assert_eq!(
        alive_state_from(CellType::Tree, &vec![CellType::Tree, CellType::Tree]),
        CellState::Alive(CellType::Tree)
    );
    // Tree beats Water: the challenger never takes the cell
    assert_eq!(
        alive_state_from(CellType::Tree, &vec![CellType::Water, CellType::Water]),
        CellState::Alive(CellType::Tree)
    );
    // Water loses to Tree: the challenger always takes the cell
    assert_eq!(
        alive_state_from(CellType::Water, &vec![CellType::Tree]),
        CellState::Alive(CellType::Tree)
    );
    assert_eq!(
        alive_state_from(CellType::Fire, &vec![CellType::Water, CellType::Fire]),
        CellState::Alive(CellType::Water)
    );
}

#[test]
fn region_bands_cut_the_grid() {
    let s = Region::from(Dir::S, None);
    assert_eq!((s.min_x, s.min_y, s.max_x, s.max_y), (0, 0, 64, 12));
    let n = Region::from(Dir::N, None);
    assert_eq!((n.min_x, n.min_y, n.max_x, n.max_y), (0, 52, 64, 64));
    let e = Region::from(Dir::E, Some(20));
    assert_eq!((e.min_x, e.min_y, e.max_x, e.max_y), (44, 0, 64, 64));
    let w = Region::from(Dir::W, Some(20));
    assert_eq!((w.min_x, w.min_y, w.max_x, w.max_y), (0, 0, 20, 64));
    let whole = Region::from(Dir::Any, None);
    assert_eq!((whole.min_x, whole.min_y, whole.max_x, whole.max_y), (0, 0, 64, 64));
}

#[test]
fn region_to_world_scales_and_centers() {
    let s = Region::from(Dir::S, None);
    let w = s.to_world();
    assert_eq!((w.min_x, w.min_y, w.max_x, w.max_y), (-320, -320, 320, -200));
}

#[test]
fn random_world_points_stay_inside_the_rectangle() {
    let r = WorldRegion::new(-30, 10, 40, 25);
    for _ in 0..200 {
        let (x, y) = r.to_random_pos();
        assert!(-30 <= x && x < 40);
        assert!(10 <= y && y < 25);
    }
}
