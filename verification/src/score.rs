//! Scores and the game-over rule. Scores are pure projections recomputed
//! from the grid each tick, never stored state of their own.

use crate::cell::{Cell, CellType};
use crate::grid::Grid;
use vstd::prelude::*;

verus! {

/// The player's score: live Tree cells minus live Water cells.
#[derive(Clone, Copy, PartialEq, Eq, Structural, Debug)]
pub struct PlayerScore(pub i32);

/// The AI's score: live Fire cells.
#[derive(Clone, Copy, PartialEq, Eq, Structural, Debug)]
pub struct AiScore(pub i32);

/// The best player score seen so far.
#[derive(Clone, Copy, PartialEq, Eq, Structural, Debug)]
pub struct BestScore(pub i32);

/// Progress of the game-over rule: whether the game ended, the message shown
/// for it, and how many AI moves have happened.
pub struct GameOverState {
    pub is_over: bool,
    pub message: String,
    pub ai_moved: u32,
}

/// How many of the first `n` cells carry species `k`.
pub open spec fn kind_count_upto(s: Seq<Cell>, k: CellType, n: int) -> int
    decreases n,
{
    if n <= 0 {
        0
    } else {
        kind_count_upto(s, k, n - 1) + if s[n - 1].state.spec_kind() == k {
            1int
        } else {
            0int
        }
    }
}

/// How many cells of the collection carry species `k`.
pub open spec fn kind_count(s: Seq<Cell>, k: CellType) -> int {
    kind_count_upto(s, k, s.len() as int)
}

/// Recompute both scores from the grid: the player holds Tree minus Water,
/// the AI holds Fire.
pub fn update_scores(grid: &Grid, player_score: &mut PlayerScore, ai_score: &mut AiScore)
    requires
        grid.wf(),
    ensures
        final(player_score).0 == kind_count(grid.cells@, CellType::Tree) - kind_count(
            grid.cells@,
            CellType::Water,
        ),
        final(ai_score).0 == kind_count(grid.cells@, CellType::Fire),
{
    let mut tree: i32 = 0;
    let mut water: i32 = 0;
    let mut fire: i32 = 0;
    let mut i: usize = 0;
    while i < grid.cells.len()
        invariant
            grid.wf(),
            0 <= i <= grid.cells@.len(),
            grid.cells@.len() == crate::grid::GRID_WIDTH * crate::grid::GRID_HEIGHT,
            tree as int == kind_count_upto(grid.cells@, CellType::Tree, i as int),
            water as int == kind_count_upto(grid.cells@, CellType::Water, i as int),
            fire as int == kind_count_upto(grid.cells@, CellType::Fire, i as int),
            0 <= tree <= i && 0 <= water <= i && 0 <= fire <= i,
        decreases grid.cells@.len() - i,
    {
        let k = grid.cells[i].state.kind();
        match k {
            CellType::Tree => {
                tree = tree + 1;
            },
            CellType::Water => {
                water = water + 1;
            },
            CellType::Fire => {
                fire = fire + 1;
            },
            _ => {},
        }
        i = i + 1;
    }
    player_score.0 = tree - water;
    ai_score.0 = fire;
}

/// Apply the game-over rule to the current scores. Nothing happens until the
/// AI has moved five times. Then the best score absorbs the player score,
/// and the game ends — with a winning message when the AI is wiped out while
/// the player holds a point, or a losing one when the player falls far
/// behind. Returns whether the game ended on this call.
pub fn check_game_over(
    player_score: &PlayerScore,
    ai_score: &AiScore,
    best_score: &mut BestScore,
    game_over: &mut GameOverState,
) -> (transition: bool)
    ensures
        final(game_over).ai_moved == old(game_over).ai_moved,
        old(game_over).ai_moved < 5 ==> ({
            &&& final(best_score).0 == old(best_score).0
            &&& final(game_over).is_over == old(game_over).is_over
            &&& final(game_over).message == old(game_over).message
            &&& !transition
        }),
        old(game_over).ai_moved >= 5 ==> ({
            let win = ai_score.0 < 1 && !old(game_over).is_over && player_score.0 >= 1;
            let lose = !(ai_score.0 < 1 && player_score.0 >= 1) && (player_score.0 < -100
                || ai_score.0 as int - player_score.0 as int > 200) && !old(game_over).is_over;
            &&& final(best_score).0 == (if player_score.0 > old(best_score).0 {
                player_score.0
            } else {
                old(best_score).0
            })
            &&& win ==> final(game_over).is_over && final(game_over).message@ == "You win!"@
                && transition
            &&& lose ==> final(game_over).is_over && final(game_over).message@ == "You lose."@
                && transition
            &&& !win && !lose ==> final(game_over).is_over == old(game_over).is_over && final(
                game_over).message == old(game_over).message && !transition
        }),
{
    if game_over.ai_moved < 5 {
        return false;
    }
    if player_score.0 > best_score.0 {
        best_score.0 = player_score.0;
    }
    if ai_score.0 < 1 && !game_over.is_over && player_score.0 >= 1 {
        game_over.is_over = true;
        game_over.message = "You win!".to_owned();
        true
    } else if (player_score.0 < -100 || ai_score.0 as i64 - player_score.0 as i64 > 200)
        && !game_over.is_over {
        game_over.is_over = true;
        game_over.message = "You lose.".to_owned();
        true
    } else {
        false
    }
}

} // verus!
