use gol_core::cell::CellState;
use gol_core::grid::Region;
use gol_core::pattern::{rotate_from_a_to_b, steps_between, to_state, Dir, Pattern};
use gol_core::store::{find_pattern, SavedPatterns};

fn normalized(cells: &[(i32, i32)]) -> Vec<(i32, i32)> {
    let min_x = cells.iter().map(|c| c.0).min().unwrap_or(0);
    let min_y = cells.iter().map(|c| c.1).min().unwrap_or(0);
    cells.iter().map(|c| (c.0 - min_x, c.1 - min_y)).collect()
}

fn builtin(name: &str) -> Pattern {
    let saved = SavedPatterns::default();
    find_pattern(&saved, &name.to_string()).expect("builtin present").clone()
}

fn round_trip(name: &str, chain: [Dir; 4]) {
    let original = builtin(name);
    let mut p = original.clone();
    for d in chain {
        p.change_heading(d);
    }
    assert_eq!(p.dir, original.dir);
    assert_eq!(p.cells, normalized(&original.cells));
}

#[test]
fn rotation_round_trip_glider() {
    round_trip("glider", [Dir::SE, Dir::SW, Dir::NW, Dir::NE]);
}

#[test]
fn rotation_round_trip_toad() {
    round_trip("toad", [Dir::W, Dir::N, Dir::E, Dir::S]);
}

#[test]
fn rotation_round_trip_beacon() {
    round_trip("beacon", [Dir::NW, Dir::NE, Dir::SE, Dir::SW]);
}

#[test]
fn rotation_round_trip_lwss() {
    round_trip("LWSS", [Dir::N, Dir::E, Dir::S, Dir::W]);
}

#[test]
fn rotation_round_trip_r_pentomino() {
    round_trip("R-Pentomino", [Dir::N, Dir::E, Dir::S, Dir::W]);
}

#[test]
fn rotation_round_trip_gosper_gun() {
    round_trip("Gosper Glider Gun", [Dir::SW, Dir::NW, Dir::NE, Dir::SE]);
}

#[test]
fn headingless_builtins_accept_any_heading_without_rotating() {
    for name in ["1x1", "2x2", "blinker", "face"] {
        let original = builtin(name);
        let mut p = original.clone();
        p.change_heading(Dir::N);
        assert_eq!(p.dir, Dir::N);
        assert_eq!(p.cells, original.cells);
    }
}

#[test]
fn captured_pattern_takes_a_heading_and_then_rotates() {
    // a freshly captured pattern starts with heading Unknown: the first
    // heading change is accepted trivially, after which real rotations work
    let mut p = Pattern::new_deleatable("caught".to_string(), vec![(0, 0), (1, 0)]);
    assert_eq!(p.dir, Dir::Unknown);
    p.change_heading(Dir::N);
    assert_eq!(p.dir, Dir::N);
    assert_eq!(p.cells, vec![(0, 0), (1, 0)]);
    p.change_heading(Dir::E);
    assert_eq!(p.dir, Dir::E);
    assert_eq!(p.cells, vec![(0, 1), (0, 0)]);
}

#[test]
fn orthogonal_to_diagonal_rejected() {
    let original = builtin("toad");
    let mut p = original.clone();
    p.change_heading(Dir::NE);
    assert_eq!(p.dir, original.dir);
    assert_eq!(p.cells, original.cells);
    assert!(p.is_temp == original.is_temp && p.deletable == original.deletable);
}

#[test]
fn diagonal_to_orthogonal_rejected() {
    let original = builtin("glider");
    let mut p = original.clone();
    p.change_heading(Dir::N);
    assert_eq!(p.dir, original.dir);
    assert_eq!(p.cells, original.cells);
}

#[test]
fn same_heading_is_a_no_op() {
    let original = builtin("toad");
    let mut p = original.clone();
    p.change_heading(Dir::S);
    assert_eq!(p.dir, Dir::S);
    assert_eq!(p.cells, original.cells);
}

#[test]
fn quarter_turn_rotates_and_normalizes() {
    let cells = vec![(0, 0), (1, 0)];
    let r = rotate_from_a_to_b(&cells, &Dir::N, &Dir::E);
    assert_eq!(r, vec![(0, 1), (0, 0)]);
}

#[test]
fn half_turn_rotates_and_normalizes() {
    let cells = vec![(0, 0), (2, 1)];
    let r = rotate_from_a_to_b(&cells, &Dir::N, &Dir::S);
    assert_eq!(r, vec![(2, 1), (0, 0)]);
}

#[test]
fn refused_pair_only_normalizes() {
    let cells = vec![(1, 1), (2, 1)];
    let r = rotate_from_a_to_b(&cells, &Dir::N, &Dir::Unknown);
    assert_eq!(r, vec![(0, 0), (1, 0)]);
}

#[test]
fn steps_between_families() {
    assert_eq!(steps_between(&Dir::N, &Dir::E), Some(1));
    assert_eq!(steps_between(&Dir::N, &Dir::W), Some(3));
    assert_eq!(steps_between(&Dir::S, &Dir::S), Some(0));
    assert_eq!(steps_between(&Dir::NE, &Dir::SW), Some(2));
    assert_eq!(steps_between(&Dir::N, &Dir::NE), None);
    assert_eq!(steps_between(&Dir::Any, &Dir::N), None);
}

#[test]
fn dimensions_of_patterns() {
    let glider = builtin("glider");
    assert_eq!(glider.dimensions(), (3, 3));
    let empty = Pattern::new_deleatable("empty".to_string(), vec![]);
    assert_eq!(empty.dimensions(), (1, 1));
}

#[test]
fn placeable_region_shrinks_by_dimensions() {
    let p = Pattern::new_deleatable("wide".to_string(), vec![(0, 0), (1, 0), (2, 0), (0, 1)]);
    assert_eq!(p.dimensions(), (3, 2));
    let region = Region::new(0, 0, 64, 64);
    let r = p.to_region_that_accepts_my_cells(&region);
    assert_eq!((r.min_x, r.min_y, r.max_x, r.max_y), (0, 0, 61, 62));
}

#[test]
fn new_deleatable_flags() {
    let p = Pattern::new_deleatable("mine".to_string(), vec![(0, 0)]);
    assert!(p.deletable);
    assert!(p.is_temp);
    assert_eq!(p.dir, Dir::Unknown);
    assert_eq!(p.name, "mine");
}

#[test]
fn readonly_map_entry_flags() {
    let (key, p) = Pattern::readonly_map_entry("ro".to_string(), vec![(0, 0)], Dir::S);
    assert_eq!(key, "ro");
    assert!(!p.deletable);
    assert!(p.is_temp);
    assert_eq!(p.dir, Dir::S);
}

#[test]
fn to_state_rasterizes_offsets() {
    let grid = to_state(&vec![(0, 0), (1, 1)]);
    assert_eq!(grid.len(), 2);
    assert_eq!(grid[0].len(), 2);
    assert_eq!(grid[0][0], CellState::AlivePlain);
    assert_eq!(grid[0][1], CellState::Dead);
    assert_eq!(grid[1][0], CellState::Dead);
    assert_eq!(grid[1][1], CellState::AlivePlain);
}

#[test]
fn dir_from_deltas_covers_the_plane() {
    assert_eq!(Dir::from_deltas(0, 0), Dir::Any);
    assert_eq!(Dir::from_deltas(0, -3), Dir::S);
    assert_eq!(Dir::from_deltas(0, 7), Dir::N);
    assert_eq!(Dir::from_deltas(-2, 0), Dir::W);
    assert_eq!(Dir::from_deltas(4, 0), Dir::E);
    assert_eq!(Dir::from_deltas(5, -1), Dir::SE);
    assert_eq!(Dir::from_deltas(5, 1), Dir::NE);
    assert_eq!(Dir::from_deltas(-5, -1), Dir::SW);
    assert_eq!(Dir::from_deltas(-5, 1), Dir::NW);
}

#[test]
fn dir_symbols() {
    assert_eq!(Dir::Any.symbol(), "*");
    assert_eq!(Dir::Unknown.symbol(), "?");
    assert_eq!(Dir::N.symbol(), "N");
    assert_eq!(Dir::SW.symbol(), "SW");
}
