use gol_core::cell::CellType;
use gol_core::grid::setup_grid;
use gol_core::score::{check_game_over, update_scores, AiScore, BestScore, GameOverState, PlayerScore};
use gol_core::store::{find_pattern, SavedPatterns};

fn world(cx: usize, cy: usize) -> (i64, i64) {
    ((cx as i64 - 32) * 10, (cy as i64 - 32) * 10)
}

#[test]
fn scores_project_the_grid() {
    let saved = SavedPatterns::default();
    let block = find_pattern(&saved, &"2x2".to_string()).unwrap();
    let one = find_pattern(&saved, &"1x1".to_string()).unwrap();
    let mut grid = setup_grid();
    // 4 Tree, 1 Water, 2 Fire
    grid.place_pattern(block, world(10, 30), CellType::Tree, CellType::Empty);
    grid.place_pattern(one, world(20, 30), CellType::Water, CellType::Empty);
    grid.place_pattern(one, world(40, 30), CellType::Fire, CellType::Empty);
    grid.place_pattern(one, world(42, 30), CellType::Fire, CellType::Empty);
    let mut player = PlayerScore(0);
    let mut ai = AiScore(0);
    update_scores(&grid, &mut player, &mut ai);
    assert_eq!(player.0, 3);
    assert_eq!(ai.0, 2);
}

#[test]
fn scores_of_empty_grid_are_zero() {
    let grid = setup_grid();
    let mut player = PlayerScore(7);
    let mut ai = AiScore(7);
    update_scores(&grid, &mut player, &mut ai);
    assert_eq!(player.0, 0);
    assert_eq!(ai.0, 0);
}

fn fresh_state(ai_moved: u32) -> GameOverState {
    GameOverState { is_over: false, message: String::new(), ai_moved }
}

#[test]
fn game_over_waits_for_ai_moves() {
    let mut best = BestScore(0);
    let mut state = fresh_state(4);
    let ended = check_game_over(&PlayerScore(50), &AiScore(0), &mut best, &mut state);
    assert!(!ended);
    assert!(!state.is_over);
    assert_eq!(best.0, 0);
}

#[test]
fn game_over_win_when_ai_is_wiped_out() {
    let mut best = BestScore(3);
    let mut state = fresh_state(5);
    let ended = check_game_over(&PlayerScore(10), &AiScore(0), &mut best, &mut state);
    assert!(ended);
    assert!(state.is_over);
    assert_eq!(state.message, "You win!");
    assert_eq!(best.0, 10);
}

#[test]
fn game_over_lose_when_far_behind() {
    let mut best = BestScore(0);
    let mut state = fresh_state(9);
    let ended = check_game_over(&PlayerScore(-101), &AiScore(5), &mut best, &mut state);
    assert!(ended);
    assert!(state.is_over);
    assert_eq!(state.message, "You lose.");
}

#[test]
fn game_over_lose_when_ai_runs_away() {
    let mut best = BestScore(0);
    let mut state = fresh_state(6);
    let ended = check_game_over(&PlayerScore(10), &AiScore(300), &mut best, &mut state);
    assert!(ended);
    assert_eq!(state.message, "You lose.");
}

#[test]
fn game_over_neither_keeps_playing() {
    let mut best = BestScore(2);
    let mut state = fresh_state(6);
    let ended = check_game_over(&PlayerScore(5), &AiScore(5), &mut best, &mut state);
    assert!(!ended);
    assert!(!state.is_over);
    assert_eq!(best.0, 5);
}
