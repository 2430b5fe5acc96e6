use gol_core::cell::CellType;
use gol_core::grid::{setup_grid, Region, GRID_WIDTH};
use gol_core::pattern::Dir;
use gol_core::player::{
    ai_spawn_pattern_on_timer, populate_player_region, spawn_pattern_at_random_in_region,
};
use gol_core::store::{find_pattern, SavedPatterns};

// A randomly anchored spawn can land between cell centers and then writes no
// cell at all, so these tests retry until a drop lands; what they check
// unconditionally is that every written cell lies in the right band with the
// right species.

#[test]
fn player_seeding_stays_in_the_southern_band() {
    let saved = SavedPatterns::default();
    let mut grid = setup_grid();
    for _ in 0..40 {
        populate_player_region(&mut grid, &saved);
        if grid.cells.iter().any(|c| c.state.is_alive()) {
            break;
        }
    }
    let alive: Vec<_> = grid.cells.iter().filter(|c| c.state.is_alive()).collect();
    assert!(!alive.is_empty());
    for c in alive {
        assert!(c.y < 12);
        assert_eq!(c.state.kind(), CellType::Tree);
    }
}

#[test]
fn ai_spawn_stays_in_the_northern_band() {
    let saved = SavedPatterns::default();
    let mut grid = setup_grid();
    for _ in 0..100 {
        ai_spawn_pattern_on_timer(&mut grid, &saved);
        if grid.cells.iter().any(|c| c.state.is_alive()) {
            break;
        }
    }
    let alive: Vec<_> = grid.cells.iter().filter(|c| c.state.is_alive()).collect();
    assert!(!alive.is_empty());
    for c in alive {
        assert!(c.y >= 52);
        assert_eq!(c.state.kind(), CellType::Fire);
    }
}

#[test]
fn oversized_pattern_is_skipped() {
    let saved = SavedPatterns::default();
    let gun = find_pattern(&saved, &"Gosper Glider Gun".to_string()).unwrap();
    let mut grid = setup_grid();
    // a band too small for the gun's footprint: nothing is ever placed
    let tiny = Region::new(0, 0, 8, 8);
    let dirs = vec![Dir::SE];
    for _ in 0..20 {
        spawn_pattern_at_random_in_region(
            &mut grid,
            gun,
            &tiny,
            &dirs,
            CellType::Fire,
            CellType::Empty,
        );
    }
    assert!(grid.cells.iter().all(|c| !c.state.is_alive()));
}

#[test]
fn spawn_with_empty_heading_set_still_places() {
    let saved = SavedPatterns::default();
    let block = find_pattern(&saved, &"2x2".to_string()).unwrap();
    let band = Region::new(0, 0, GRID_WIDTH as i32, 12);
    let dirs: Vec<Dir> = vec![];
    for _ in 0..100 {
        let mut grid = setup_grid();
        spawn_pattern_at_random_in_region(
            &mut grid,
            block,
            &band,
            &dirs,
            CellType::Water,
            CellType::Empty,
        );
        let alive: Vec<_> = grid.cells.iter().filter(|c| c.state.is_alive()).collect();
        for c in &alive {
            assert!(c.y < 12);
            assert_eq!(c.state.kind(), CellType::Water);
        }
        if alive.len() == 4 {
            return;
        }
    }
    panic!("no drop of the block ever landed on whole cells");
}
