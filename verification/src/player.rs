//! The spawn scheduler: random pattern drops into each side's band. The
//! player's side seeds its southern band once; the AI drops a random pattern
//! into its northern band on a timer owned by the caller.

use crate::cell::{Cell, CellState, CellType};
use crate::grid::{
    covered_by, in_grid, spec_cell_world_x, spec_cell_world_y, state_at, Grid, Region, GRID_HEIGHT,
    GRID_WIDTH, REGION_DEFAULT_HEIGHT,
};
use crate::pattern::{
    lemma_max_x_bounds, lemma_max_y_bounds, lemma_min_x_bounds, lemma_min_y_bounds, max_x, max_y,
    spec_heading_result, Dir, Pattern,
};
use crate::rng::{random_in_range, random_index};
use crate::store::{contains_name, find_pattern, index_of_name, SavedPatterns};
use vstd::prelude::*;

verus! {

/// `news` is `olds` with the pattern offsets stamped alive at `anchor`:
/// exactly the cells some scaled offset lands on hold the spawned species,
/// every other cell keeps its state.
pub open spec fn stamped(
    olds: Seq<Cell>,
    news: Seq<Cell>,
    offs: Seq<(int, int)>,
    anchor: (int, int),
    alive_for: CellType,
) -> bool {
    forall|x: int, y: int|
        in_grid(x, y) ==> state_at(news, x, y) == (if covered_by(
            offs,
            anchor,
            x,
            y,
            offs.len() as int,
        ) {
            CellState::Alive(alive_for)
        } else {
            state_at(olds, x, y)
        })
}

/// What one spawn attempt leaves on the grid once a heading `d` has been
/// drawn: when the rotated footprint does not fit the region, the grid is
/// unchanged; otherwise some anchor inside the shrunken region's world
/// rectangle received the pattern's stamp, and the grid is exactly the old
/// one with that stamp applied.
pub open spec fn spawn_outcome(
    olds: Seq<Cell>,
    news: Seq<Cell>,
    pattern: Pattern,
    region: Region,
    alive_for: CellType,
    d: Dir,
) -> bool {
    let offs = spec_heading_result(pattern.offsets(), pattern.dir, d);
    let w = max_x(offs) + 1;
    let h = max_y(offs) + 1;
    if !(region.max_x > region.min_x + w && region.max_y > region.min_y + h) {
        news == olds
    } else {
        exists|ax: int, ay: int|
            spec_cell_world_x(region.min_x as int) <= ax < spec_cell_world_x(region.max_x - w)
                && spec_cell_world_y(region.min_y as int) <= ay < spec_cell_world_y(
                region.max_y - h,
            ) && #[trigger] stamped(
                olds,
                news,
                spec_heading_result(pattern.offsets(), pattern.dir, d),
                (ax, ay),
                alive_for,
            )
    }
}

/// One spawn draw: some heading of the allowed set — east when the set is
/// empty — whose outcome the two grids exhibit.
pub open spec fn one_spawn(
    olds: Seq<Cell>,
    news: Seq<Cell>,
    pattern: Pattern,
    region: Region,
    alive_for: CellType,
    allowed: Seq<Dir>,
) -> bool {
    exists|d: Dir|
        (allowed.contains(d) || (allowed.len() == 0 && d == Dir::E)) && #[trigger] spawn_outcome(
            olds,
            news,
            pattern,
            region,
            alive_for,
            d,
        )
}

/// `n` spawn draws of the same pattern into the same region, in sequence.
pub open spec fn spawn_chain(
    olds: Seq<Cell>,
    news: Seq<Cell>,
    pattern: Pattern,
    region: Region,
    alive_for: CellType,
    allowed: Seq<Dir>,
    n: int,
) -> bool
    decreases n,
{
    if n <= 0 {
        news == olds
    } else {
        exists|mid: Seq<Cell>|
            #![auto]
            spawn_chain(olds, mid, pattern, region, alive_for, allowed, n - 1) && one_spawn(
                mid,
                news,
                pattern,
                region,
                alive_for,
                allowed,
            )
    }
}

/// Rotate a copy of the pattern to a heading drawn at random from `dirs`
/// (east when the set is empty), shrink `region` so the whole footprint
/// fits, sample a uniformly random anchor in the shrunken region's world
/// rectangle, and stamp the pattern there with the given species. A pattern
/// too large for the region is skipped. Whatever was drawn, the grid shows
/// the outcome of exactly one such draw: no cell outside `region` changes,
/// and a changed cell is alive with the spawned species.
pub fn spawn_pattern_at_random_in_region(
    grid: &mut Grid,
    pattern_unrotated: &Pattern,
    region: &Region,
    dirs: &Vec<Dir>,
    alive_for: CellType,
    dead_for: CellType,
)
    requires
        old(grid).wf(),
        pattern_unrotated.wf(),
    ensures
        final(grid).wf(),
        one_spawn(
            old(grid).cells@,
            final(grid).cells@,
            *pattern_unrotated,
            *region,
            alive_for,
            dirs@,
        ),
        forall|x: int, y: int|
            in_grid(x, y) && !(region.min_x as int <= x < region.max_x as int && region.min_y
                as int <= y < region.max_y as int) ==> #[trigger] state_at(final(grid).cells@, x, y)
                == state_at(old(grid).cells@, x, y),
        forall|x: int, y: int|
            in_grid(x, y) ==> #[trigger] state_at(final(grid).cells@, x, y) == state_at(
                old(grid).cells@,
                x,
                y,
            ) || state_at(final(grid).cells@, x, y) == CellState::Alive(alive_for),
{
    let dir: Dir = if dirs.len() > 0 {
        let idx = random_index(dirs.len());
        dirs[idx]
    } else {
        Dir::E
    };
    proof {
        assert(dirs@.len() > 0 ==> dirs@.contains(dir));
        assert(dirs@.len() == 0 ==> dir == Dir::E);
    }
    let mut pattern = pattern_unrotated.clone();
    pattern.change_heading(dir);
    proof {
        assert(pattern.offsets() == spec_heading_result(
            pattern_unrotated.offsets(),
            pattern_unrotated.dir,
            dir,
        ));
    }
    let ghost offs = pattern.offsets();
    let dims = pattern.dimensions();
    let w = dims.0;
    let h = dims.1;
    proof {
        if offs.len() > 0 {
            lemma_max_x_bounds(offs);
            lemma_max_y_bounds(offs);
            let jx = choose|i: int| 0 <= i < offs.len() && max_x(offs) == #[trigger] offs[i].0;
            let jy = choose|i: int| 0 <= i < offs.len() && max_y(offs) == #[trigger] offs[i].1;
            assert(0 <= offs[jx].0 <= crate::pattern::MAX_COORD as int);
            assert(0 <= offs[jy].0 <= crate::pattern::MAX_COORD as int);
        }
        assert(w as int <= crate::pattern::MAX_COORD as int + 1);
        assert(h as int <= crate::pattern::MAX_COORD as int + 1);
    }
    if !(region.max_x as i64 - w as i64 > region.min_x as i64 && region.max_y as i64 - h as i64
        > region.min_y as i64) {
        // the region cannot hold the pattern's footprint: skip this spawn
        proof {
            assert(spawn_outcome(
                old(grid).cells@,
                grid.cells@,
                *pattern_unrotated,
                *region,
                alive_for,
                dir,
            ));
            assert(one_spawn(
                old(grid).cells@,
                grid.cells@,
                *pattern_unrotated,
                *region,
                alive_for,
                dirs@,
            ));
        }
        return ;
    }
    let sub = pattern.to_region_that_accepts_my_cells(region);
    let world = sub.to_world();
    let pos = world.to_random_pos();
    let ghost mid = grid.cells@;
    grid.place_pattern(&pattern, pos, alive_for, dead_for);
    proof {
        let p = (pos.0 as int, pos.1 as int);
        assert forall|x: int, y: int|
            in_grid(x, y) && !(region.min_x as int <= x < region.max_x as int && region.min_y
                as int <= y < region.max_y as int) implies #[trigger] state_at(grid.cells@, x, y)
            == state_at(mid, x, y) by {
            if state_at(grid.cells@, x, y) != state_at(mid, x, y) {
                let jj = choose|jj: int|
                    0 <= jj < offs.len() && crate::grid::cell_hit(
                        x,
                        y,
                        crate::grid::offset_point(p, #[trigger] offs[jj]),
                    );
                lemma_max_x_bounds(offs);
                lemma_max_y_bounds(offs);
                assert(0 <= offs[jj].0 <= w - 1 && 0 <= offs[jj].1 <= h - 1);
                assert(false);
            }
        }
        assert(spec_cell_world_x(region.min_x as int) <= p.0 < spec_cell_world_x(
            region.max_x - w,
        ));
        assert(spec_cell_world_y(region.min_y as int) <= p.1 < spec_cell_world_y(
            region.max_y - h,
        ));
        assert(stamped(
            old(grid).cells@,
            grid.cells@,
            spec_heading_result(pattern_unrotated.offsets(), pattern_unrotated.dir, dir),
            p,
            alive_for,
        ));
        assert(spawn_outcome(
            old(grid).cells@,
            grid.cells@,
            *pattern_unrotated,
            *region,
            alive_for,
            dir,
        ));
        assert(one_spawn(
            old(grid).cells@,
            grid.cells@,
            *pattern_unrotated,
            *region,
            alive_for,
            dirs@,
        ));
    }
}

/// Seed the player's southern band with a handful of 2x2 blocks of Tree
/// cells at random spots: five spawn draws of the "2x2" built-in, each with
/// the free heading. Without a "2x2" pattern in the store nothing happens.
/// Cells outside the band keep their state; a changed cell is alive with the
/// player's species.
pub fn populate_player_region(grid: &mut Grid, saved: &SavedPatterns)
    requires
        old(grid).wf(),
        saved.wf(),
    ensures
        final(grid).wf(),
        !contains_name(saved.patterns@, "2x2"@) ==> final(grid).cells@ == old(grid).cells@,
        contains_name(saved.patterns@, "2x2"@) ==> spawn_chain(
            old(grid).cells@,
            final(grid).cells@,
            saved.patterns@[index_of_name(saved.patterns@, "2x2"@)],
            (Region {
                min_x: 0,
                min_y: 0,
                max_x: GRID_WIDTH as i32,
                max_y: REGION_DEFAULT_HEIGHT as i32,
            }),
            CellType::Tree,
            seq![Dir::Any],
            5,
        ),
        forall|x: int, y: int|
            in_grid(x, y) && y >= REGION_DEFAULT_HEIGHT as int ==> #[trigger] state_at(
                final(grid).cells@,
                x,
                y,
            ) == state_at(old(grid).cells@, x, y),
        forall|x: int, y: int|
            in_grid(x, y) ==> #[trigger] state_at(final(grid).cells@, x, y) == state_at(
                old(grid).cells@,
                x,
                y,
            ) || state_at(final(grid).cells@, x, y) == CellState::Alive(CellType::Tree),
{
    let name = "2x2".to_owned();
    let pattern = match find_pattern(saved, &name) {
        Some(p) => p,
        None => {
            return ;
        },
    };
    let player_region = Region::from(Dir::S, None);
    let dirs: Vec<Dir> = vec![Dir::Any];
    proof {
        assert(dirs@ =~= seq![Dir::Any]);
    }
    let mut i: usize = 0;
    while i < 5
        invariant
            0 <= i <= 5,
            grid.wf(),
            saved.wf(),
            pattern.wf(),
            contains_name(saved.patterns@, "2x2"@),
            *pattern == saved.patterns@[index_of_name(saved.patterns@, "2x2"@)],
            dirs@ == seq![Dir::Any],
            player_region == (Region {
                min_x: 0,
                min_y: 0,
                max_x: GRID_WIDTH as i32,
                max_y: REGION_DEFAULT_HEIGHT as i32,
            }),
            spawn_chain(
                old(grid).cells@,
                grid.cells@,
                *pattern,
                player_region,
                CellType::Tree,
                seq![Dir::Any],
                i as int,
            ),
            forall|x: int, y: int|
                in_grid(x, y) && y >= REGION_DEFAULT_HEIGHT as int ==> #[trigger] state_at(
                    grid.cells@,
                    x,
                    y,
                ) == state_at(old(grid).cells@, x, y),
            forall|x: int, y: int|
                in_grid(x, y) ==> #[trigger] state_at(grid.cells@, x, y) == state_at(
                    old(grid).cells@,
                    x,
                    y,
                ) || state_at(grid.cells@, x, y) == CellState::Alive(CellType::Tree),
        decreases 5 - i,
    {
        let ghost mid = grid.cells@;
        spawn_pattern_at_random_in_region(
            grid,
            pattern,
            &player_region,
            &dirs,
            CellType::Tree,
            CellType::Empty,
        );
        proof {
            assert(spawn_chain(
                old(grid).cells@,
                mid,
                *pattern,
                player_region,
                CellType::Tree,
                seq![Dir::Any],
                i as int,
            ) && one_spawn(mid, grid.cells@, *pattern, player_region, CellType::Tree, seq![Dir::Any]));
        }
        i = i + 1;
    }
}

/// The AI's spawn table, by configuration index: the pattern name drawn and
/// the headings it may take.
pub open spec fn ai_config_name(ci: int) -> Seq<char> {
    if ci == 0 {
        "glider"@
    } else if ci == 1 {
        "LWSS"@
    } else {
        "face"@
    }
}

/// The allowed headings of the AI's spawn configuration `ci`.
pub open spec fn ai_config_dirs(ci: int) -> Seq<Dir> {
    if ci == 0 {
        seq![Dir::SE, Dir::SW]
    } else if ci == 1 {
        seq![Dir::S]
    } else {
        seq![Dir::E]
    }
}

/// One firing of the AI spawn timer: pick one of the three configured
/// patterns at random, rotate it to one of its allowed headings, and drop it
/// into the AI's northern band with the AI's species; a configuration whose
/// pattern name is missing from the store degrades to a no-op. Cells outside
/// the band keep their state; a changed cell is alive with the AI's species.
pub fn ai_spawn_pattern_on_timer(grid: &mut Grid, saved: &SavedPatterns)
    requires
        old(grid).wf(),
        saved.wf(),
    ensures
        final(grid).wf(),
        exists|ci: int|
            #![auto]
            0 <= ci < 3 && (if !contains_name(saved.patterns@, ai_config_name(ci)) {
                final(grid).cells@ == old(grid).cells@
            } else {
                one_spawn(
                    old(grid).cells@,
                    final(grid).cells@,
                    saved.patterns@[index_of_name(saved.patterns@, ai_config_name(ci))],
                    (Region {
                        min_x: 0,
                        min_y: (GRID_HEIGHT - REGION_DEFAULT_HEIGHT) as i32,
                        max_x: GRID_WIDTH as i32,
                        max_y: GRID_HEIGHT as i32,
                    }),
                    CellType::Fire,
                    ai_config_dirs(ci),
                )
            }),
        forall|x: int, y: int|
            in_grid(x, y) && y < GRID_HEIGHT as int - REGION_DEFAULT_HEIGHT as int
                ==> #[trigger] state_at(final(grid).cells@, x, y) == state_at(
                old(grid).cells@,
                x,
                y,
            ),
        forall|x: int, y: int|
            in_grid(x, y) ==> #[trigger] state_at(final(grid).cells@, x, y) == state_at(
                old(grid).cells@,
                x,
                y,
            ) || state_at(final(grid).cells@, x, y) == CellState::Alive(CellType::Fire),
{
    let pick = random_in_range(0, 3);
    let ghost ci = pick as int;
    let name: String;
    let mut dirs: Vec<Dir> = Vec::new();
    if pick == 0 {
        name = "glider".to_owned();
        dirs.push(Dir::SE);
        dirs.push(Dir::SW);
        proof {
            assert(dirs@ =~= ai_config_dirs(ci));
        }
    } else if pick == 1 {
        name = "LWSS".to_owned();
        dirs.push(Dir::S);
        proof {
            assert(dirs@ =~= ai_config_dirs(ci));
        }
    } else {
        name = "face".to_owned();
        dirs.push(Dir::E);
        proof {
            assert(dirs@ =~= ai_config_dirs(ci));
        }
    }
    proof {
        assert(name@ == ai_config_name(ci));
    }
    let pattern = match find_pattern(saved, &name) {
        Some(p) => p,
        None => {
            proof {
                assert(!contains_name(saved.patterns@, ai_config_name(ci)));
            }
            return ;
        },
    };
    let ai_region = Region::from(Dir::N, None);
    spawn_pattern_at_random_in_region(
        grid,
        pattern,
        &ai_region,
        &dirs,
        CellType::Fire,
        CellType::Empty,
    );
    proof {
        assert(contains_name(saved.patterns@, ai_config_name(ci)));
        assert(one_spawn(
            old(grid).cells@,
            grid.cells@,
            saved.patterns@[index_of_name(saved.patterns@, ai_config_name(ci))],
            (Region {
                min_x: 0,
                min_y: (GRID_HEIGHT - REGION_DEFAULT_HEIGHT) as i32,
                max_x: GRID_WIDTH as i32,
                max_y: GRID_HEIGHT as i32,
            }),
            CellType::Fire,
            ai_config_dirs(ci),
        ));
    }
}

} // verus!
