//! The bounded cell plane: grid-to-world geometry, axis-aligned regions with
//! directional band constructors, and (further down) the grid itself with its
//! step, toggle, placement and capture operations.

use crate::cell::{spec_battle, Cell, CellState, CellType, Outcome, RegionOwner};
use crate::pattern::{offsets_of, offsets_within, Dir, Pattern, MAX_COORD};
use crate::rng::random_in_range;
use vstd::arithmetic::div_mod::{lemma_fundamental_div_mod, lemma_fundamental_div_mod_converse};
use vstd::pervasive::VecAdditionalExecFns;
use vstd::prelude::*;

verus! {

/// Number of cell columns.
pub const GRID_WIDTH: usize = 64;

/// Number of cell rows.
pub const GRID_HEIGHT: usize = 64;

/// Side length of one cell in world units.
pub const CELL_SIZE: i64 = 10;

/// Default depth of a directional spawn band.
pub const REGION_DEFAULT_HEIGHT: usize = GRID_HEIGHT / 5;

/// World coordinate of the cell in column `x`: the grid is centered on the
/// origin and each cell is `CELL_SIZE` wide.
pub open spec fn spec_cell_world_x(x: int) -> int {
    (x - (GRID_WIDTH as int) / 2) * (CELL_SIZE as int)
}

/// World coordinate of the cell in row `y`.
pub open spec fn spec_cell_world_y(y: int) -> int {
    (y - (GRID_HEIGHT as int) / 2) * (CELL_SIZE as int)
}

/// Convert grid coordinates to the world coordinates at which the cell sits.
pub fn grid_to_world(x: usize, y: usize) -> (r: (i64, i64))
    requires
        x < GRID_WIDTH,
        y < GRID_HEIGHT,
    ensures
        r.0 == spec_cell_world_x(x as int),
        r.1 == spec_cell_world_y(y as int),
{
    (
        (x as i64 - (GRID_WIDTH as i64) / 2) * CELL_SIZE,
        (y as i64 - (GRID_HEIGHT as i64) / 2) * CELL_SIZE,
    )
}

/// An axis-aligned rectangle in grid coordinates, min corner inclusive and
/// max corner exclusive.
#[derive(Clone, Copy, PartialEq, Eq, Structural, Debug)]
pub struct Region {
    pub min_x: i32,
    pub min_y: i32,
    pub max_x: i32,
    pub max_y: i32,
}

/// The band depth a directional region constructor uses: the given one, or
/// the default.
pub open spec fn spec_band_range(range_opt: Option<usize>) -> int {
    match range_opt {
        Some(n) => n as int,
        None => REGION_DEFAULT_HEIGHT as int,
    }
}

impl Region {
    /// A rectangle over two opposite corners, in either order.
    pub fn new(x0: i32, y0: i32, x1: i32, y1: i32) -> (r: Region)
        ensures
            r.min_x == if x0 <= x1 { x0 } else { x1 },
            r.min_y == if y0 <= y1 { y0 } else { y1 },
            r.max_x == if x0 <= x1 { x1 } else { x0 },
            r.max_y == if y0 <= y1 { y1 } else { y0 },
    {
        Region {
            min_x: if x0 <= x1 { x0 } else { x1 },
            min_y: if y0 <= y1 { y0 } else { y1 },
            max_x: if x0 <= x1 { x1 } else { x0 },
            max_y: if y0 <= y1 { y1 } else { y0 },
        }
    }

    /// The whole grid, or a directional band of it: a south/north strip cuts
    /// the rows, an east/west strip the columns, to the given depth.
    pub fn from(dir: Dir, range_opt: Option<usize>) -> (r: Region)
        requires
            range_opt matches Some(n) ==> n <= GRID_HEIGHT,
        ensures
            dir == Dir::S ==> r == (Region {
                min_x: 0,
                min_y: 0,
                max_x: GRID_WIDTH as i32,
                max_y: spec_band_range(range_opt) as i32,
            }),
            dir == Dir::N ==> r == (Region {
                min_x: 0,
                min_y: (GRID_HEIGHT as int - spec_band_range(range_opt)) as i32,
                max_x: GRID_WIDTH as i32,
                max_y: GRID_HEIGHT as i32,
            }),
            dir == Dir::E ==> r == (Region {
                min_x: (GRID_WIDTH as int - spec_band_range(range_opt)) as i32,
                min_y: 0,
                max_x: GRID_WIDTH as i32,
                max_y: GRID_HEIGHT as i32,
            }),
            dir == Dir::W ==> r == (Region {
                min_x: 0,
                min_y: 0,
                max_x: spec_band_range(range_opt) as i32,
                max_y: GRID_HEIGHT as i32,
            }),
            dir != Dir::S && dir != Dir::N && dir != Dir::E && dir != Dir::W ==> r == (Region {
                min_x: 0,
                min_y: 0,
                max_x: GRID_WIDTH as i32,
                max_y: GRID_HEIGHT as i32,
            }),
    {
        let range: usize = match range_opt {
            Some(n) => n,
            None => REGION_DEFAULT_HEIGHT,
        };
        let mut r = Region { min_x: 0, min_y: 0, max_x: GRID_WIDTH as i32, max_y: GRID_HEIGHT as i32 };
        match dir {
            Dir::S => {
                r.max_y = range as i32;
            },
            Dir::N => {
                r.min_y = (GRID_HEIGHT - range) as i32;
            },
            Dir::E => {
                r.min_x = (GRID_WIDTH - range) as i32;
            },
            Dir::W => {
                r.max_x = range as i32;
            },
            _ => {},
        }
        r
    }

    /// The same rectangle in world coordinates.
    pub fn to_world(&self) -> (r: WorldRegion)
        ensures
            r.min_x == spec_cell_world_x(self.min_x as int),
            r.min_y == spec_cell_world_y(self.min_y as int),
            r.max_x == spec_cell_world_x(self.max_x as int),
            r.max_y == spec_cell_world_y(self.max_y as int),
    {
        WorldRegion {
            min_x: (self.min_x as i64 - (GRID_WIDTH as i64) / 2) * CELL_SIZE,
            min_y: (self.min_y as i64 - (GRID_HEIGHT as i64) / 2) * CELL_SIZE,
            max_x: (self.max_x as i64 - (GRID_WIDTH as i64) / 2) * CELL_SIZE,
            max_y: (self.max_y as i64 - (GRID_HEIGHT as i64) / 2) * CELL_SIZE,
        }
    }
}

/// An axis-aligned rectangle in world coordinates.
#[derive(Clone, Copy, PartialEq, Eq, Structural, Debug)]
pub struct WorldRegion {
    pub min_x: i64,
    pub min_y: i64,
    pub max_x: i64,
    pub max_y: i64,
}

impl WorldRegion {
    /// A rectangle over two opposite corners, in either order.
    pub fn new(x0: i64, y0: i64, x1: i64, y1: i64) -> (r: WorldRegion)
        ensures
            r.min_x == if x0 <= x1 { x0 } else { x1 },
            r.min_y == if y0 <= y1 { y0 } else { y1 },
            r.max_x == if x0 <= x1 { x1 } else { x0 },
            r.max_y == if y0 <= y1 { y1 } else { y0 },
    {
        WorldRegion {
            min_x: if x0 <= x1 { x0 } else { x1 },
            min_y: if y0 <= y1 { y0 } else { y1 },
            max_x: if x0 <= x1 { x1 } else { x0 },
            max_y: if y0 <= y1 { y1 } else { y0 },
        }
    }

    /// A uniformly random world point inside the rectangle. The rectangle
    /// must not be empty on either axis.
    pub fn to_random_pos(&self) -> (r: (i64, i64))
        requires
            self.min_x < self.max_x,
            self.min_y < self.max_y,
        ensures
            self.min_x <= r.0 < self.max_x,
            self.min_y <= r.1 < self.max_y,
    {
        (random_in_range(self.min_x, self.max_x), random_in_range(self.min_y, self.max_y))
    }
}

/// Both coordinates on the grid.
pub open spec fn in_grid(x: int, y: int) -> bool {
    0 <= x < GRID_WIDTH && 0 <= y < GRID_HEIGHT
}

/// Row-major index of the cell at (x, y).
pub open spec fn grid_index(x: int, y: int) -> int {
    y * (GRID_WIDTH as int) + x
}

/// The spawn band a row belongs to: the top band is the player's, the bottom
/// band the AI's, the middle no one's.
pub open spec fn spec_region_for_row(y: int) -> RegionOwner {
    if y >= GRID_HEIGHT as int - REGION_DEFAULT_HEIGHT as int {
        RegionOwner::Player
    } else if y < REGION_DEFAULT_HEIGHT as int {
        RegionOwner::AI
    } else {
        RegionOwner::Neutral
    }
}

/// State of the cell at (x, y) in a grid snapshot.
pub open spec fn state_at(s: Seq<Cell>, x: int, y: int) -> CellState {
    s[grid_index(x, y)].state
}

/// The cell at (x, y) exists and is alive with a species.
pub open spec fn alive_at(s: Seq<Cell>, x: int, y: int) -> bool {
    in_grid(x, y) && state_at(s, x, y) is Alive
}

/// Column offset of the k-th Moore neighbor, scanning rows top to bottom and
/// columns left to right with the cell itself skipped.
pub open spec fn neighbor_dx(k: int) -> int {
    if k == 0 || k == 3 || k == 5 {
        -1
    } else if k == 2 || k == 4 || k == 7 {
        1
    } else {
        0
    }
}

/// Row offset of the k-th Moore neighbor.
pub open spec fn neighbor_dy(k: int) -> int {
    if k <= 2 {
        -1
    } else if k <= 4 {
        0
    } else {
        1
    }
}

/// Species of the live cells among the first k Moore neighbors of (x, y), in
/// scan order. Out-of-grid neighbors are absent, not wrapped.
pub open spec fn neighbor_kinds_upto(s: Seq<Cell>, x: int, y: int, k: int) -> Seq<CellType>
    decreases k,
{
    if k <= 0 {
        Seq::empty()
    } else {
        let rest = neighbor_kinds_upto(s, x, y, k - 1);
        let nx = x + neighbor_dx(k - 1);
        let ny = y + neighbor_dy(k - 1);
        if alive_at(s, nx, ny) {
            rest.push(state_at(s, nx, ny).spec_kind())
        } else {
            rest
        }
    }
}

/// Species of all live Moore neighbors of (x, y), in scan order.
pub open spec fn neighbor_kinds(s: Seq<Cell>, x: int, y: int) -> Seq<CellType> {
    neighbor_kinds_upto(s, x, y, 8)
}

/// The classic Life aliveness rule over the snapshot `s`: a live cell lives
/// on with 2 or 3 live neighbors, a dead cell is born with exactly 3.
pub open spec fn spec_next_alive(s: Seq<Cell>, x: int, y: int) -> bool {
    if alive_at(s, x, y) {
        neighbor_kinds(s, x, y).len() == 2 || neighbor_kinds(s, x, y).len() == 3
    } else {
        neighbor_kinds(s, x, y).len() == 3
    }
}

/// On a grid with no live cell anywhere, every neighbor species list is
/// empty.
pub proof fn lemma_neighbor_kinds_all_dead(s: Seq<Cell>, x: int, y: int, k: int)
    requires
        forall|i: int, j: int| in_grid(i, j) ==> !alive_at(s, i, j),
    ensures
        neighbor_kinds_upto(s, x, y, k).len() == 0,
    decreases k,
{
    if k > 0 {
        lemma_neighbor_kinds_all_dead(s, x, y, k - 1);
        let nx = x + neighbor_dx(k - 1);
        let ny = y + neighbor_dy(k - 1);
        assert(!alive_at(s, nx, ny));
    }
}

/// Law: no spontaneous generation — one step of an all-dead grid leaves
/// every cell dead.
pub proof fn lemma_no_spontaneous_generation(s: Seq<Cell>, x: int, y: int)
    requires
        forall|i: int, j: int| in_grid(i, j) ==> !alive_at(s, i, j),
        in_grid(x, y),
    ensures
        !spec_next_alive(s, x, y),
{
    lemma_neighbor_kinds_all_dead(s, x, y, 8);
}

/// A cell none of whose Moore neighbors is alive has an empty neighbor
/// species list.
pub proof fn lemma_neighbor_kinds_isolated(s: Seq<Cell>, x: int, y: int, k: int)
    requires
        0 <= k <= 8,
        forall|m: int|
            0 <= m < 8 ==> !alive_at(s, x + #[trigger] neighbor_dx(m), y + neighbor_dy(m)),
    ensures
        neighbor_kinds_upto(s, x, y, k).len() == 0,
    decreases k,
{
    if k > 0 {
        lemma_neighbor_kinds_isolated(s, x, y, k - 1);
        assert(!alive_at(s, x + neighbor_dx(k - 1), y + neighbor_dy(k - 1)));
    }
}

/// Law: a live cell with no live neighbor always dies in one step.
pub proof fn lemma_isolated_cell_dies(s: Seq<Cell>, x: int, y: int)
    requires
        in_grid(x, y),
        alive_at(s, x, y),
        forall|m: int|
            0 <= m < 8 ==> !alive_at(s, x + #[trigger] neighbor_dx(m), y + neighbor_dy(m)),
    ensures
        !spec_next_alive(s, x, y),
{
    lemma_neighbor_kinds_isolated(s, x, y, 8);
}

/// When every live cell of the grid has species `sp`, every member of every
/// neighbor species list is `sp`.
pub proof fn lemma_neighbor_kinds_uniform(s: Seq<Cell>, x: int, y: int, k: int, sp: CellType)
    requires
        forall|i: int, j: int|
            #[trigger] alive_at(s, i, j) ==> state_at(s, i, j).spec_kind() == sp,
    ensures
        forall|m: int|
            0 <= m < neighbor_kinds_upto(s, x, y, k).len() ==> neighbor_kinds_upto(s, x, y, k)[m]
                == sp,
    decreases k,
{
    if k > 0 {
        lemma_neighbor_kinds_uniform(s, x, y, k - 1, sp);
        let nx = x + neighbor_dx(k - 1);
        let ny = y + neighbor_dy(k - 1);
        if alive_at(s, nx, ny) {
            assert(state_at(s, nx, ny).spec_kind() == sp);
        }
    }
}

/// Law: one step preserves a single-species grid. The second premise is
/// exactly what `Grid::step` ensures of the generation it writes: a live
/// cell's species is kept from the prior generation or taken from a live
/// neighbor of it.
pub proof fn lemma_uniform_species_preserved(olds: Seq<Cell>, news: Seq<Cell>, sp: CellType)
    requires
        forall|x: int, y: int|
            #[trigger] alive_at(olds, x, y) ==> state_at(olds, x, y).spec_kind() == sp,
        forall|x: int, y: int|
            in_grid(x, y) && #[trigger] alive_at(news, x, y) ==> {
                ||| alive_at(olds, x, y) && state_at(news, x, y).spec_kind() == state_at(
                    olds,
                    x,
                    y,
                ).spec_kind()
                ||| neighbor_kinds(olds, x, y).contains(state_at(news, x, y).spec_kind())
            },
    ensures
        forall|x: int, y: int|
            #[trigger] alive_at(news, x, y) ==> state_at(news, x, y).spec_kind() == sp,
{
    assert forall|x: int, y: int|
        #[trigger] alive_at(news, x, y) implies state_at(news, x, y).spec_kind() == sp by {
        lemma_neighbor_kinds_uniform(olds, x, y, 8, sp);
        if !(alive_at(olds, x, y) && state_at(news, x, y).spec_kind() == state_at(
            olds,
            x,
            y,
        ).spec_kind()) {
            let kinds = neighbor_kinds(olds, x, y);
            let m = choose|m: int| 0 <= m < kinds.len() && kinds[m] == state_at(news, x, y).spec_kind();
            assert(kinds[m] == sp);
        }
    }
}

/// How often species `k` occurs in a list of species.
pub open spec fn count_of(s: Seq<CellType>, k: CellType) -> int
    decreases s.len(),
{
    if s.len() == 0 {
        0
    } else {
        count_of(s.drop_last(), k) + if s.last() == k {
            1int
        } else {
            0int
        }
    }
}

/// Occurrence counts are non-negative, bounded by the length, zero exactly
/// for absent species, and positive for present ones.
pub proof fn lemma_count_of_bounds(s: Seq<CellType>, k: CellType)
    ensures
        0 <= count_of(s, k) <= s.len(),
        count_of(s, k) > 0 <==> s.contains(k),
    decreases s.len(),
{
    if s.len() > 0 {
        lemma_count_of_bounds(s.drop_last(), k);
        if s.contains(k) {
            let j = choose|i: int| 0 <= i < s.len() && s[i] == k;
            if j < s.len() - 1 {
                assert(s.drop_last()[j] == k);
                assert(s.drop_last().contains(k));
            }
        }
        if s.drop_last().contains(k) {
            let j = choose|i: int| 0 <= i < s.drop_last().len() && s.drop_last()[i] == k;
            assert(s[j] == k);
        }
    }
}

/// How often `k` occurs in the vector.
fn count_in(list: &Vec<CellType>, k: CellType) -> (c: usize)
    ensures
        c as int == count_of(list@, k),
{
    let mut c: usize = 0;
    let mut i: usize = 0;
    while i < list.len()
        invariant
            0 <= i <= list@.len(),
            c as int == count_of(list@.take(i as int), k),
            c <= i,
        decreases list@.len() - i,
    {
        proof {
            let t = list@.take(i as int + 1);
            assert(t.drop_last() =~= list@.take(i as int));
            assert(t.last() == list@[i as int]);
        }
        if list[i] == k {
            c = c + 1;
        }
        i = i + 1;
    }
    proof {
        assert(list@.take(list@.len() as int) =~= list@);
    }
    c
}

/// The species occurring most often among the given live neighbors, ties
/// broken by first occurrence; `PlainOn` as a fallback when there are none.
pub fn most_frequent_kind(alive_neighbors: &Vec<CellType>) -> (r: CellType)
    ensures
        alive_neighbors@.len() == 0 ==> r == CellType::PlainOn,
        alive_neighbors@.len() > 0 ==> alive_neighbors@.contains(r),
        alive_neighbors@.len() > 0 ==> forall|k: CellType|
            #[trigger] count_of(alive_neighbors@, k) <= count_of(alive_neighbors@, r),
{
    if alive_neighbors.len() == 0 {
        return CellType::PlainOn;
    }
    let mut best: CellType = alive_neighbors[0];
    let mut best_count: usize = count_in(alive_neighbors, best);
    proof {
        lemma_count_of_bounds(alive_neighbors@, best);
        assert(alive_neighbors@.contains(best));
    }
    let mut i: usize = 1;
    while i < alive_neighbors.len()
        invariant
            1 <= i <= alive_neighbors@.len(),
            alive_neighbors@.contains(best),
            best_count as int == count_of(alive_neighbors@, best),
            best_count >= 1,
            forall|j: int|
                0 <= j < i ==> count_of(alive_neighbors@, #[trigger] alive_neighbors@[j])
                    <= best_count as int,
        decreases alive_neighbors@.len() - i,
    {
        let k = alive_neighbors[i];
        let c = count_in(alive_neighbors, k);
        if c > best_count {
            best = k;
            best_count = c;
        }
        i = i + 1;
    }
    proof {
        assert forall|k: CellType|
            #[trigger] count_of(alive_neighbors@, k) <= count_of(alive_neighbors@, best) by {
            lemma_count_of_bounds(alive_neighbors@, k);
            if alive_neighbors@.contains(k) {
                let j = choose|i: int|
                    0 <= i < alive_neighbors@.len() && alive_neighbors@[i] == k;
                assert(count_of(alive_neighbors@, alive_neighbors@[j]) <= best_count as int);
            }
        }
    }
    best
}

/// Every species in the list is one of the two given ones.
pub open spec fn only_species(s: Seq<CellType>, a: CellType, b: CellType) -> bool {
    forall|i: int| 0 <= i < s.len() ==> s[i] == a || s[i] == b
}

/// The next state of a cell that stays or becomes alive: fold the neighbor
/// species over a two-slot candidate pair seeded with `current`, a fresh
/// species entering a random slot the first time a third distinct one is
/// seen, then let the two candidates battle — the winner keeps the cell, a
/// draw is settled by a coin flip. With no live neighbors, or with every
/// neighbor of the cell's own species, the cell keeps `current` exactly;
/// with exactly one challenger species present, the battle's winner takes
/// the cell whatever the coin flips were.
pub fn alive_state_from(current: CellType, alive_neighbors: &Vec<CellType>) -> (r: CellState)
    ensures
        r is Alive,
        r->0 == current || alive_neighbors@.contains(r->0),
        alive_neighbors@.len() == 0 ==> r == CellState::Alive(current),
        (forall|i: int| 0 <= i < alive_neighbors@.len() ==> alive_neighbors@[i] == current)
            ==> r == CellState::Alive(current),
        forall|d: CellType|
            #[trigger] only_species(alive_neighbors@, current, d) && d != current
                && alive_neighbors@.contains(d) && spec_battle(current, d) == Outcome::Win ==> r
                == CellState::Alive(current),
        forall|d: CellType|
            #[trigger] only_species(alive_neighbors@, current, d) && d != current
                && alive_neighbors@.contains(d) && spec_battle(current, d) == Outcome::Lose ==> r
                == CellState::Alive(d),
    {
    if alive_neighbors.len() == 0 {
        return CellState::Alive(current);
    }
    let mut a: CellType = current;
    let mut b: CellType = current;
    let mut i: usize = 0;
    while i < alive_neighbors.len()
        invariant
            0 <= i <= alive_neighbors@.len(),
            a == current || alive_neighbors@.contains(a),
            b == current || alive_neighbors@.contains(b),
            (forall|j: int| 0 <= j < i ==> alive_neighbors@[j] == current) ==> a == current && b
                == current,
            forall|d: CellType|
                #[trigger] only_species(alive_neighbors@, current, d) && d != current ==> ({
                    ||| a == current && b == current && (forall|j: int|
                        0 <= j < i ==> alive_neighbors@[j] != d)
                    ||| a == current && b == d
                    ||| a == d && b == current
                }),
        decreases alive_neighbors@.len() - i,
    {
        let n = alive_neighbors[i];
        if n == a || n == b {
            // already a candidate
        } else if crate::rng::coin_flip() {
            b = a;
            a = n;
        } else {
            b = n;
        }
        proof {
            assert(alive_neighbors@.contains(alive_neighbors@[i as int]));
        }
        i = i + 1;
    }
    let kind: CellType = match a.battle(&b) {
        crate::cell::Outcome::Win => a,
        crate::cell::Outcome::Lose => b,
        crate::cell::Outcome::Draw => if crate::rng::coin_flip() {
            a
        } else {
            b
        },
    };
    proof {
        assert forall|d: CellType|
            #[trigger] only_species(alive_neighbors@, current, d) && d != current
                && alive_neighbors@.contains(d) && (spec_battle(current, d) == Outcome::Win
                || spec_battle(current, d) == Outcome::Lose) implies (a == current && b == d) || (a
            == d && b == current) by {
            let j = choose|j: int|
                0 <= j < alive_neighbors@.len() && alive_neighbors@[j] == d;
            assert(!(a == current && b == current));
        }
    }
    CellState::Alive(kind)
}

/// Largest world coordinate a placement anchor may take; keeps anchor plus
/// scaled offset inside `i64`.
pub const WORLD_LIMIT: i64 = 4_000_000_000_000_000_000;

/// Smallest world coordinate a capture corner may take; keeps the offsets of
/// a captured pattern inside the pattern coordinate bound.
pub const CAPTURE_MIN_LIMIT: i64 = -1_000_000_000;

/// The cell at (x, y) owns the world point `p`: `p` lies strictly within half
/// a cell size of the cell's world position on both axes.
pub open spec fn cell_hit(x: int, y: int, p: (int, int)) -> bool {
    &&& in_grid(x, y)
    &&& spec_cell_world_x(x) - (CELL_SIZE as int) / 2 < p.0 < spec_cell_world_x(x) + (
    CELL_SIZE as int) / 2
    &&& spec_cell_world_y(y) - (CELL_SIZE as int) / 2 < p.1 < spec_cell_world_y(y) + (
    CELL_SIZE as int) / 2
}

/// At most one cell owns any world point.
pub proof fn lemma_cell_hit_unique(x1: int, y1: int, x2: int, y2: int, p: (int, int))
    requires
        cell_hit(x1, y1, p),
        cell_hit(x2, y2, p),
    ensures
        x1 == x2 && y1 == y2,
{
}

/// What a toggle does to a cell's state: a live cell dies, any other state
/// becomes the default live state.
pub open spec fn spec_toggled(s: CellState) -> CellState {
    if s is Alive {
        CellState::Dead
    } else {
        CellState::Alive(CellType::Tree)
    }
}

/// The world point of `p` shifted by a pattern offset scaled to cell size.
pub open spec fn offset_point(p: (int, int), off: (int, int)) -> (int, int) {
    (p.0 + (CELL_SIZE as int) * off.0, p.1 + (CELL_SIZE as int) * off.1)
}

/// Some of the first `j` pattern offsets, placed at anchor `p`, lands on the
/// cell at (x, y).
pub open spec fn covered_by(offs: Seq<(int, int)>, p: (int, int), x: int, y: int, j: int) -> bool {
    exists|jj: int| 0 <= jj < j && cell_hit(x, y, offset_point(p, #[trigger] offs[jj]))
}

/// A cell is captured by a drag box when it is alive and its world position
/// lies inside the box, both corners inclusive.
pub open spec fn captured_cell(c: Cell, mn: (int, int), mx: (int, int)) -> bool {
    &&& c.state is Alive
    &&& mn.0 <= spec_cell_world_x(c.x as int) <= mx.0
    &&& mn.1 <= spec_cell_world_y(c.y as int) <= mx.1
}

/// The pattern offset a captured cell contributes: its distance from the
/// box's min corner in whole cells.
pub open spec fn capture_offset(c: Cell, mn: (int, int)) -> (int, int) {
    (
        (spec_cell_world_x(c.x as int) - mn.0) / (CELL_SIZE as int),
        (spec_cell_world_y(c.y as int) - mn.1) / (CELL_SIZE as int),
    )
}

/// Offsets contributed by the first `n` cells of the collection, scan order.
pub open spec fn capture_upto(s: Seq<Cell>, mn: (int, int), mx: (int, int), n: int) -> Seq<
    (int, int),
>
    decreases n,
{
    if n <= 0 {
        Seq::empty()
    } else {
        let rest = capture_upto(s, mn, mx, n - 1);
        if captured_cell(s[n - 1], mn, mx) {
            rest.push(capture_offset(s[n - 1], mn))
        } else {
            rest
        }
    }
}

/// Offsets of every captured cell of the collection, scan order.
pub open spec fn spec_capture(s: Seq<Cell>, mn: (int, int), mx: (int, int)) -> Seq<(int, int)> {
    capture_upto(s, mn, mx, s.len() as int)
}

/// The full cell collection, row-major, one cell per grid coordinate.
pub struct Grid {
    pub cells: Vec<Cell>,
}

/// A fresh grid session: every cell dead, spawn bands assigned by row.
pub fn setup_grid() -> (r: Grid)
    ensures
        r.wf(),
        forall|x: int, y: int| in_grid(x, y) ==> !alive_at(r.cells@, x, y),
        forall|x: int, y: int|
            in_grid(x, y) ==> #[trigger] state_at(r.cells@, x, y) == CellState::Dead,
{
    let mut cells: Vec<Cell> = Vec::new();
    let mut y: usize = 0;
    while y < GRID_HEIGHT
        invariant
            0 <= y <= GRID_HEIGHT,
            cells@.len() == y * GRID_WIDTH,
            forall|i: int|
                0 <= i < cells@.len() ==> (#[trigger] cells@[i]).x == i % (GRID_WIDTH as int)
                    && cells@[i].y == i / (GRID_WIDTH as int) && cells@[i].region
                    == spec_region_for_row(i / (GRID_WIDTH as int)) && cells@[i].state
                    == CellState::Dead,
        decreases GRID_HEIGHT - y,
    {
        let region: RegionOwner = if y >= GRID_HEIGHT - REGION_DEFAULT_HEIGHT {
            RegionOwner::Player
        } else if y < REGION_DEFAULT_HEIGHT {
            RegionOwner::AI
        } else {
            RegionOwner::Neutral
        };
        let mut x: usize = 0;
        while x < GRID_WIDTH
            invariant
                0 <= x <= GRID_WIDTH,
                0 <= y < GRID_HEIGHT,
                region == spec_region_for_row(y as int),
                cells@.len() == y * GRID_WIDTH + x,
                forall|i: int|
                    0 <= i < cells@.len() ==> (#[trigger] cells@[i]).x == i % (
                    GRID_WIDTH as int) && cells@[i].y == i / (GRID_WIDTH as int)
                        && cells@[i].region == spec_region_for_row(i / (GRID_WIDTH as int))
                        && cells@[i].state == CellState::Dead,
            decreases GRID_WIDTH - x,
        {
            cells.push(Cell { x, y, state: CellState::Dead, region });
            proof {
                lemma_fundamental_div_mod_converse(
                    (y * GRID_WIDTH + x) as int,
                    GRID_WIDTH as int,
                    y as int,
                    x as int,
                );
            }
            x = x + 1;
        }
        y = y + 1;
    }
    let r = Grid { cells };
    proof {
        assert forall|x: int, y: int|
            in_grid(x, y) implies !alive_at(r.cells@, x, y) && #[trigger] state_at(r.cells@, x, y)
            == CellState::Dead by {
            lemma_fundamental_div_mod_converse(
                grid_index(x, y),
                GRID_WIDTH as int,
                y,
                x,
            );
            assert(r.cells@[grid_index(x, y)].state == CellState::Dead);
        }
    }
    r
}

impl Grid {
    /// Well-formed: one cell per coordinate in row-major order, each knowing
    /// its own coordinates and its row's spawn band.
    pub open spec fn wf(self) -> bool {
        &&& self.cells@.len() == GRID_WIDTH * GRID_HEIGHT
        &&& forall|i: int|
            0 <= i < self.cells@.len() ==> (#[trigger] self.cells@[i]).x == i % (
            GRID_WIDTH as int) && self.cells@[i].y == i / (GRID_WIDTH as int)
                && self.cells@[i].region == spec_region_for_row(i / (GRID_WIDTH as int))
    }

    /// Advance every cell one generation against a frozen snapshot of the
    /// prior one: aliveness follows the classic Life counts exactly, and a
    /// live cell's species is its own kept from the prior generation or one
    /// taken from a live neighbor of that generation.
    pub fn step(&mut self)
        requires
            old(self).wf(),
        ensures
            final(self).wf(),
            forall|x: int, y: int|
                in_grid(x, y) ==> (#[trigger] alive_at(final(self).cells@, x, y)
                    <==> spec_next_alive(old(self).cells@, x, y)),
            forall|x: int, y: int|
                in_grid(x, y) && !spec_next_alive(old(self).cells@, x, y)
                    ==> #[trigger] state_at(final(self).cells@, x, y) == CellState::Dead,
            forall|x: int, y: int|
                in_grid(x, y) && #[trigger] alive_at(final(self).cells@, x, y) ==> {
                    ||| alive_at(old(self).cells@, x, y) && state_at(
                        final(self).cells@,
                        x,
                        y,
                    ).spec_kind() == state_at(old(self).cells@, x, y).spec_kind()
                    ||| neighbor_kinds(old(self).cells@, x, y).contains(
                        state_at(final(self).cells@, x, y).spec_kind(),
                    )
                },
            forall|x: int, y: int, d: CellType|
                in_grid(x, y) && alive_at(old(self).cells@, x, y) && alive_at(
                    final(self).cells@,
                    x,
                    y,
                ) && #[trigger] only_species(
                    neighbor_kinds(old(self).cells@, x, y),
                    state_at(old(self).cells@, x, y).spec_kind(),
                    d,
                ) && d != state_at(old(self).cells@, x, y).spec_kind() && neighbor_kinds(
                    old(self).cells@,
                    x,
                    y,
                ).contains(d) ==> ({
                    &&& spec_battle(state_at(old(self).cells@, x, y).spec_kind(), d)
                        == Outcome::Win ==> state_at(final(self).cells@, x, y).spec_kind()
                        == state_at(old(self).cells@, x, y).spec_kind()
                    &&& spec_battle(state_at(old(self).cells@, x, y).spec_kind(), d)
                        == Outcome::Lose ==> state_at(final(self).cells@, x, y).spec_kind() == d
                }),
    {
        let ghost olds = self.cells@;
        // Freeze the prior generation so no cell observes an updated neighbor.
        let mut snap: Vec<CellState> = Vec::new();
        let mut i: usize = 0;
        while i < self.cells.len()
            invariant
                old(self).wf(),
                olds == old(self).cells@,
                self.cells@ == olds,
                0 <= i <= olds.len(),
                snap@.len() == i,
                forall|j: int| 0 <= j < i ==> snap@[j] == olds[j].state,
            decreases olds.len() - i,
        {
            let st = self.cells[i].state;
            snap.push(st);
            i = i + 1;
        }
        let mut i: usize = 0;
        while i < self.cells.len()
            invariant
                old(self).wf(),
                olds == old(self).cells@,
                olds.len() == GRID_WIDTH * GRID_HEIGHT,
                self.cells@.len() == olds.len(),
                snap@.len() == olds.len(),
                forall|j: int| 0 <= j < olds.len() ==> snap@[j] == olds[j].state,
                0 <= i <= olds.len(),
                forall|j: int| i <= j < olds.len() ==> #[trigger] self.cells@[j] == olds[j],
                forall|j: int|
                    0 <= j < i ==> (#[trigger] self.cells@[j]).x == olds[j].x && self.cells@[j].y
                        == olds[j].y && self.cells@[j].region == olds[j].region,
                forall|j: int|
                    0 <= j < i ==> ((#[trigger] self.cells@[j]).state is Alive
                        <==> spec_next_alive(olds, olds[j].x as int, olds[j].y as int)),
                forall|j: int|
                    0 <= j < i && !spec_next_alive(olds, olds[j].x as int, olds[j].y as int)
                        ==> (#[trigger] self.cells@[j]).state == CellState::Dead,
                forall|j: int|
                    0 <= j < i && (#[trigger] self.cells@[j]).state is Alive ==> {
                        ||| olds[j].state is Alive && self.cells@[j].state.spec_kind()
                            == olds[j].state.spec_kind()
                        ||| neighbor_kinds(olds, olds[j].x as int, olds[j].y as int).contains(
                            self.cells@[j].state.spec_kind(),
                        )
                    },
                forall|j: int, d: CellType|
                    0 <= j < i && olds[j].state is Alive && (#[trigger] self.cells@[j]).state
                        is Alive && #[trigger] only_species(
                        neighbor_kinds(olds, olds[j].x as int, olds[j].y as int),
                        olds[j].state.spec_kind(),
                        d,
                    ) && d != olds[j].state.spec_kind() && neighbor_kinds(
                        olds,
                        olds[j].x as int,
                        olds[j].y as int,
                    ).contains(d) ==> ({
                        &&& spec_battle(olds[j].state.spec_kind(), d) == Outcome::Win
                            ==> self.cells@[j].state.spec_kind() == olds[j].state.spec_kind()
                        &&& spec_battle(olds[j].state.spec_kind(), d) == Outcome::Lose
                            ==> self.cells@[j].state.spec_kind() == d
                    }),
            decreases olds.len() - i,
        {
            let c = self.cells[i];
            let x = c.x;
            let y = c.y;
            proof {
                assert(c == olds[i as int]);
                assert(x as int == i as int % (GRID_WIDTH as int));
                assert(y as int == i as int / (GRID_WIDTH as int));
                lemma_fundamental_div_mod(i as int, GRID_WIDTH as int);
                assert(grid_index(x as int, y as int) == i as int);
            }
            // Collect the species of the live Moore neighbors, scan order.
            let mut neigh: Vec<CellType> = Vec::new();
            let mut k: usize = 0;
            while k < 8
                invariant
                    0 <= k <= 8,
                    x < GRID_WIDTH,
                    y < GRID_HEIGHT,
                    olds.len() == GRID_WIDTH * GRID_HEIGHT,
                    snap@.len() == olds.len(),
                    forall|j: int| 0 <= j < olds.len() ==> snap@[j] == olds[j].state,
                    neigh@ == neighbor_kinds_upto(olds, x as int, y as int, k as int),
                decreases 8 - k,
            {
                let dx: i64 = if k == 0 || k == 3 || k == 5 {
                    -1
                } else if k == 2 || k == 4 || k == 7 {
                    1
                } else {
                    0
                };
                let dy: i64 = if k <= 2 {
                    -1
                } else if k <= 4 {
                    0
                } else {
                    1
                };
                proof {
                    assert(dx as int == neighbor_dx(k as int));
                    assert(dy as int == neighbor_dy(k as int));
                }
                let nx = x as i64 + dx;
                let ny = y as i64 + dy;
                if nx >= 0 && ny >= 0 && nx < GRID_WIDTH as i64 && ny < GRID_HEIGHT as i64 {
                    let idx = (ny * GRID_WIDTH as i64 + nx) as usize;
                    proof {
                        assert(idx as int == grid_index(nx as int, ny as int));
                    }
                    let st = snap[idx];
                    proof {
                        assert(st == olds[idx as int].state);
                        assert(st == state_at(olds, nx as int, ny as int));
                    }
                    if st.is_alive() {
                        neigh.push(st.kind());
                    }
                } else {
                    proof {
                        assert(!in_grid(nx as int, ny as int));
                        assert(!alive_at(olds, nx as int, ny as int));
                    }
                }
                k = k + 1;
            }
            let cur = snap[i];
            proof {
                assert(cur == olds[i as int].state);
                assert(cur == state_at(olds, x as int, y as int));
                assert(neigh@ == neighbor_kinds(olds, x as int, y as int));
            }
            let alive_now = cur.is_alive();
            let n = neigh.len();
            let next: CellState = if alive_now && (n == 2 || n == 3) {
                alive_state_from(cur.kind(), &neigh)
            } else if !alive_now && n == 3 {
                let mf = most_frequent_kind(&neigh);
                alive_state_from(mf, &neigh)
            } else {
                CellState::Dead
            };
            proof {
                assert(next is Alive <==> spec_next_alive(olds, x as int, y as int));
            }
            let mut updated = c;
            updated.state = next;
            self.cells.set(i, updated);
            i = i + 1;
        }
        proof {
            assert forall|x: int, y: int|
                in_grid(x, y) implies (#[trigger] alive_at(self.cells@, x, y)
                <==> spec_next_alive(olds, x, y)) && (!spec_next_alive(olds, x, y)
                ==> state_at(self.cells@, x, y) == CellState::Dead) by {
                lemma_fundamental_div_mod_converse(grid_index(x, y), GRID_WIDTH as int, y, x);
                let j = grid_index(x, y);
                assert(olds[j].x as int == x && olds[j].y as int == y);
                assert(self.cells@[j].state == state_at(self.cells@, x, y));
            }
            assert forall|x: int, y: int|
                in_grid(x, y) && #[trigger] alive_at(self.cells@, x, y) implies {
                ||| alive_at(olds, x, y) && state_at(self.cells@, x, y).spec_kind() == state_at(
                    olds,
                    x,
                    y,
                ).spec_kind()
                ||| neighbor_kinds(olds, x, y).contains(state_at(self.cells@, x, y).spec_kind())
            } by {
                lemma_fundamental_div_mod_converse(grid_index(x, y), GRID_WIDTH as int, y, x);
                let j = grid_index(x, y);
                assert(olds[j].x as int == x && olds[j].y as int == y);
            }
            assert forall|x: int, y: int, d: CellType|
                in_grid(x, y) && alive_at(olds, x, y) && alive_at(self.cells@, x, y)
                    && #[trigger] only_species(
                    neighbor_kinds(olds, x, y),
                    state_at(olds, x, y).spec_kind(),
                    d,
                ) && d != state_at(olds, x, y).spec_kind() && neighbor_kinds(olds, x, y).contains(
                    d,
                ) implies ({
                &&& spec_battle(state_at(olds, x, y).spec_kind(), d) == Outcome::Win ==> state_at(
                    self.cells@,
                    x,
                    y,
                ).spec_kind() == state_at(olds, x, y).spec_kind()
                &&& spec_battle(state_at(olds, x, y).spec_kind(), d) == Outcome::Lose ==> state_at(
                    self.cells@,
                    x,
                    y,
                ).spec_kind() == d
            }) by {
                lemma_fundamental_div_mod_converse(grid_index(x, y), GRID_WIDTH as int, y, x);
                let j = grid_index(x, y);
                assert(olds[j].x as int == x && olds[j].y as int == y);
                assert(olds[j].state == state_at(olds, x, y));
                assert(self.cells@[j].state == state_at(self.cells@, x, y));
            }
            assert forall|i2: int|
                0 <= i2 < self.cells@.len() implies (#[trigger] self.cells@[i2]).x == i2 % (
            GRID_WIDTH as int) && self.cells@[i2].y == i2 / (GRID_WIDTH as int)
                && self.cells@[i2].region == spec_region_for_row(
                i2 / (GRID_WIDTH as int),
            ) by {
                assert(olds[i2].x == i2 % (GRID_WIDTH as int));
            }
        }
    }

    /// Flip the cell owning `world_pos`, if any: a live cell dies, any other
    /// becomes the default live state. At most one cell owns a point, so at
    /// most one cell changes; a point on no cell changes nothing.
    pub fn toggle_cell(&mut self, world_pos: (i64, i64))
        requires
            old(self).wf(),
        ensures
            final(self).wf(),
            forall|x: int, y: int|
                in_grid(x, y) ==> #[trigger] state_at(final(self).cells@, x, y) == (
                if cell_hit(x, y, (world_pos.0 as int, world_pos.1 as int)) {
                    spec_toggled(state_at(old(self).cells@, x, y))
                } else {
                    state_at(old(self).cells@, x, y)
                }),
    {
        let ghost olds = self.cells@;
        let ghost p = (world_pos.0 as int, world_pos.1 as int);
        let mut i: usize = 0;
        while i < self.cells.len()
            invariant
                old(self).wf(),
                olds == old(self).cells@,
                olds.len() == GRID_WIDTH * GRID_HEIGHT,
                self.cells@.len() == olds.len(),
                p == (world_pos.0 as int, world_pos.1 as int),
                0 <= i <= olds.len(),
                forall|j: int| i <= j < olds.len() ==> #[trigger] self.cells@[j] == olds[j],
                forall|j: int|
                    0 <= j < i ==> #[trigger] self.cells@[j] == (
                    if cell_hit(olds[j].x as int, olds[j].y as int, p) {
                        (Cell {
                            x: olds[j].x,
                            y: olds[j].y,
                            state: spec_toggled(olds[j].state),
                            region: olds[j].region,
                        })
                    } else {
                        olds[j]
                    }),
            decreases olds.len() - i,
        {
            let c = self.cells[i];
            proof {
                assert(c == olds[i as int]);
            }
            let wx = (c.x as i64 - (GRID_WIDTH as i64) / 2) * CELL_SIZE;
            let wy = (c.y as i64 - (GRID_HEIGHT as i64) / 2) * CELL_SIZE;
            let half = CELL_SIZE / 2;
            let hit = world_pos.0 > wx - half && world_pos.0 < wx + half && world_pos.1 > wy - half
                && world_pos.1 < wy + half;
            proof {
                assert(wx as int == spec_cell_world_x(c.x as int));
                assert(wy as int == spec_cell_world_y(c.y as int));
                assert(in_grid(c.x as int, c.y as int));
                assert(hit == cell_hit(c.x as int, c.y as int, p));
            }
            if hit {
                let mut updated = c;
                updated.state = if c.state.is_alive() {
                    CellState::Dead
                } else {
                    CellState::default_alive()
                };
                self.cells.set(i, updated);
            }
            i = i + 1;
        }
        proof {
            assert forall|x: int, y: int|
                in_grid(x, y) implies #[trigger] state_at(self.cells@, x, y) == (
            if cell_hit(x, y, p) {
                spec_toggled(state_at(olds, x, y))
            } else {
                state_at(olds, x, y)
            }) by {
                lemma_fundamental_div_mod_converse(grid_index(x, y), GRID_WIDTH as int, y, x);
                let j = grid_index(x, y);
                assert(olds[j].x as int == x && olds[j].y as int == y);
            }
            assert forall|i2: int|
                0 <= i2 < self.cells@.len() implies (#[trigger] self.cells@[i2]).x == i2 % (
            GRID_WIDTH as int) && self.cells@[i2].y == i2 / (GRID_WIDTH as int)
                && self.cells@[i2].region == spec_region_for_row(
                i2 / (GRID_WIDTH as int),
            ) by {
                assert(olds[i2].x == i2 % (GRID_WIDTH as int));
            }
        }
    }

    /// Set the cell owning `world_pos`, if any, to the given state.
    fn set_cell_state_at(&mut self, world_pos: (i64, i64), st: CellState)
        requires
            old(self).wf(),
        ensures
            final(self).wf(),
            forall|x: int, y: int|
                in_grid(x, y) ==> #[trigger] state_at(final(self).cells@, x, y) == (
                if cell_hit(x, y, (world_pos.0 as int, world_pos.1 as int)) {
                    st
                } else {
                    state_at(old(self).cells@, x, y)
                }),
    {
        let ghost olds = self.cells@;
        let ghost p = (world_pos.0 as int, world_pos.1 as int);
        let mut i: usize = 0;
        while i < self.cells.len()
            invariant
                old(self).wf(),
                olds == old(self).cells@,
                olds.len() == GRID_WIDTH * GRID_HEIGHT,
                self.cells@.len() == olds.len(),
                p == (world_pos.0 as int, world_pos.1 as int),
                0 <= i <= olds.len(),
                forall|j: int| i <= j < olds.len() ==> #[trigger] self.cells@[j] == olds[j],
                forall|j: int|
                    0 <= j < i ==> #[trigger] self.cells@[j] == (
                    if cell_hit(olds[j].x as int, olds[j].y as int, p) {
                        (Cell { x: olds[j].x, y: olds[j].y, state: st, region: olds[j].region })
                    } else {
                        olds[j]
                    }),
            decreases olds.len() - i,
        {
            let c = self.cells[i];
            proof {
                assert(c == olds[i as int]);
            }
            let wx = (c.x as i64 - (GRID_WIDTH as i64) / 2) * CELL_SIZE;
            let wy = (c.y as i64 - (GRID_HEIGHT as i64) / 2) * CELL_SIZE;
            let half = CELL_SIZE / 2;
            let hit = world_pos.0 > wx - half && world_pos.0 < wx + half && world_pos.1 > wy - half
                && world_pos.1 < wy + half;
            proof {
                assert(wx as int == spec_cell_world_x(c.x as int));
                assert(wy as int == spec_cell_world_y(c.y as int));
                assert(in_grid(c.x as int, c.y as int));
                assert(hit == cell_hit(c.x as int, c.y as int, p));
            }
            if hit {
                let mut updated = c;
                updated.state = st;
                self.cells.set(i, updated);
            }
            i = i + 1;
        }
        proof {
            assert forall|x: int, y: int|
                in_grid(x, y) implies #[trigger] state_at(self.cells@, x, y) == (
            if cell_hit(x, y, p) {
                st
            } else {
                state_at(olds, x, y)
            }) by {
                lemma_fundamental_div_mod_converse(grid_index(x, y), GRID_WIDTH as int, y, x);
                let j = grid_index(x, y);
                assert(olds[j].x as int == x && olds[j].y as int == y);
            }
            assert forall|i2: int|
                0 <= i2 < self.cells@.len() implies (#[trigger] self.cells@[i2]).x == i2 % (
            GRID_WIDTH as int) && self.cells@[i2].y == i2 / (GRID_WIDTH as int)
                && self.cells@[i2].region == spec_region_for_row(
                i2 / (GRID_WIDTH as int),
            ) by {
                assert(olds[i2].x == i2 % (GRID_WIDTH as int));
            }
        }
    }

    /// Stamp the pattern onto the grid: for every offset, the cell nearest
    /// the anchor plus that offset (scaled to cell size) is set alive with
    /// the given species — overwritten, never doubled. Offsets landing on no
    /// cell are skipped; no other cell changes. `dead_for` mirrors the
    /// placement interface but no cell is ever written dead.
    #[allow(unused_variables)]
    pub fn place_pattern(
        &mut self,
        pattern: &Pattern,
        world_pos: (i64, i64),
        alive_for: CellType,
        dead_for: CellType,
    )
        requires
            old(self).wf(),
            pattern.wf(),
            -WORLD_LIMIT <= world_pos.0 <= WORLD_LIMIT,
            -WORLD_LIMIT <= world_pos.1 <= WORLD_LIMIT,
        ensures
            final(self).wf(),
            forall|x: int, y: int|
                in_grid(x, y) ==> #[trigger] state_at(final(self).cells@, x, y) == (
                if covered_by(
                    pattern.offsets(),
                    (world_pos.0 as int, world_pos.1 as int),
                    x,
                    y,
                    pattern.offsets().len() as int,
                ) {
                    CellState::Alive(alive_for)
                } else {
                    state_at(old(self).cells@, x, y)
                }),
    {
        let ghost olds = self.cells@;
        let ghost offs = pattern.offsets();
        let ghost p = (world_pos.0 as int, world_pos.1 as int);
        let mut j: usize = 0;
        while j < pattern.cells.len()
            invariant
                pattern.wf(),
                offs == pattern.offsets(),
                offs.len() == pattern.cells@.len(),
                p == (world_pos.0 as int, world_pos.1 as int),
                -WORLD_LIMIT <= world_pos.0 <= WORLD_LIMIT,
                -WORLD_LIMIT <= world_pos.1 <= WORLD_LIMIT,
                0 <= j <= pattern.cells@.len(),
                self.wf(),
                self.cells@.len() == olds.len(),
                forall|x: int, y: int|
                    in_grid(x, y) ==> #[trigger] state_at(self.cells@, x, y) == (
                    if covered_by(offs, p, x, y, j as int) {
                        CellState::Alive(alive_for)
                    } else {
                        state_at(olds, x, y)
                    }),
            decreases pattern.cells@.len() - j,
        {
            let off = pattern.cells[j];
            proof {
                assert(offs[j as int] == (off.0 as int, off.1 as int));
                assert(0 <= offs[j as int].0 <= MAX_COORD as int);
            }
            let qx = world_pos.0 + CELL_SIZE * off.0 as i64;
            let qy = world_pos.1 + CELL_SIZE * off.1 as i64;
            let ghost mid = self.cells@;
            self.set_cell_state_at((qx, qy), CellState::Alive(alive_for));
            proof {
                let q = (qx as int, qy as int);
                assert(q == offset_point(p, offs[j as int]));
                assert forall|x: int, y: int|
                    in_grid(x, y) implies #[trigger] state_at(self.cells@, x, y) == (
                if covered_by(offs, p, x, y, j as int + 1) {
                    CellState::Alive(alive_for)
                } else {
                    state_at(olds, x, y)
                }) by {
                    if cell_hit(x, y, q) {
                        assert(cell_hit(x, y, offset_point(p, offs[j as int])));
                        assert(covered_by(offs, p, x, y, j as int + 1));
                    } else {
                        if covered_by(offs, p, x, y, j as int) {
                            let jj = choose|jj: int|
                                0 <= jj < j as int && cell_hit(
                                    x,
                                    y,
                                    offset_point(p, #[trigger] offs[jj]),
                                );
                            assert(covered_by(offs, p, x, y, j as int + 1));
                        } else {
                            if covered_by(offs, p, x, y, j as int + 1) {
                                let jj = choose|jj: int|
                                    0 <= jj < j as int + 1 && cell_hit(
                                        x,
                                        y,
                                        offset_point(p, #[trigger] offs[jj]),
                                    );
                                assert(jj == j as int);
                                assert(false);
                            }
                        }
                    }
                }
            }
            j = j + 1;
        }
    }

    /// Scan the live cells whose world position lies inside the inclusive
    /// drag box and return them as a fresh deletable, temporary pattern, each
    /// offset the cell's distance from the box's min corner in whole cells.
    pub fn capture_rectangle(&self, min_world: (i64, i64), max_world: (i64, i64), name: String) -> (r:
        Pattern)
        requires
            self.wf(),
            min_world.0 >= CAPTURE_MIN_LIMIT,
            min_world.1 >= CAPTURE_MIN_LIMIT,
        ensures
            r.name == name,
            r.deletable,
            r.is_temp,
            r.dir == Dir::Unknown,
            r.offsets() == spec_capture(
                self.cells@,
                (min_world.0 as int, min_world.1 as int),
                (max_world.0 as int, max_world.1 as int),
            ),
            r.wf(),
    {
        let ghost mn = (min_world.0 as int, min_world.1 as int);
        let ghost mx = (max_world.0 as int, max_world.1 as int);
        let mut sel: Vec<(i32, i32)> = Vec::new();
        let mut i: usize = 0;
        while i < self.cells.len()
            invariant
                self.wf(),
                mn == (min_world.0 as int, min_world.1 as int),
                mx == (max_world.0 as int, max_world.1 as int),
                min_world.0 >= CAPTURE_MIN_LIMIT,
                min_world.1 >= CAPTURE_MIN_LIMIT,
                0 <= i <= self.cells@.len(),
                offsets_of(sel@) == capture_upto(self.cells@, mn, mx, i as int),
                offsets_within(offsets_of(sel@), 0, MAX_COORD as int),
            decreases self.cells@.len() - i,
        {
            let c = self.cells[i];
            let wx = (c.x as i64 - (GRID_WIDTH as i64) / 2) * CELL_SIZE;
            let wy = (c.y as i64 - (GRID_HEIGHT as i64) / 2) * CELL_SIZE;
            proof {
                assert(wx as int == spec_cell_world_x(c.x as int));
                assert(wy as int == spec_cell_world_y(c.y as int));
                assert(-320 <= wx <= 310 && -320 <= wy <= 310);
            }
            let ghost prev = sel@;
            if c.state.is_alive() && wx >= min_world.0 && wx <= max_world.0 && wy >= min_world.1
                && wy <= max_world.1 {
                let rel_x = ((wx - min_world.0) as u64 / CELL_SIZE as u64) as i32;
                let rel_y = ((wy - min_world.1) as u64 / CELL_SIZE as u64) as i32;
                sel.push((rel_x, rel_y));
                proof {
                    assert(rel_x as int == (spec_cell_world_x(c.x as int) - mn.0) / (
                    CELL_SIZE as int));
                    assert(rel_y as int == (spec_cell_world_y(c.y as int) - mn.1) / (
                    CELL_SIZE as int));
                    assert(offsets_of(sel@) =~= offsets_of(prev).push(
                        (rel_x as int, rel_y as int),
                    ));
                }
            }
            proof {
                let t = capture_upto(self.cells@, mn, mx, i as int + 1);
                assert(self.cells@[i as int] == c);
            }
            i = i + 1;
        }
        proof {
            assert(capture_upto(self.cells@, mn, mx, self.cells@.len() as int) == spec_capture(
                self.cells@,
                mn,
                mx,
            ));
        }
        Pattern::new_deleatable(name, sel)
    }
}

} // verus!
