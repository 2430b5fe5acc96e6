//! Pattern templates: named sets of relative live-cell offsets with a
//! heading, and the rotation algebra that re-expresses a template under a new
//! heading while keeping its offsets non-negative.

use crate::cell::CellState;
use crate::grid::Region;
use vstd::prelude::*;

verus! {

/// The largest coordinate a pattern offset may take. Keeping offsets inside
/// this bound lets every rotation and normalization stay within `i32`.
pub const MAX_COORD: i32 = 300_000_000;

/// A pattern's heading: one of the eight compass directions, `Any` for
/// patterns that face no particular way, or `Unknown` for freshly captured
/// ones.
#[derive(Clone, Copy, PartialEq, Eq, Structural, Debug)]
pub enum Dir {
    Any,
    Unknown,
    N,
    S,
    E,
    W,
    NE,
    SE,
    SW,
    NW,
}

pub open spec fn is_orthogonal(d: Dir) -> bool {
    d == Dir::N || d == Dir::E || d == Dir::S || d == Dir::W
}

pub open spec fn is_diagonal(d: Dir) -> bool {
    d == Dir::NE || d == Dir::SE || d == Dir::SW || d == Dir::NW
}

/// Position of an orthogonal heading in the clockwise cycle N, E, S, W.
pub open spec fn ortho_index(d: Dir) -> int {
    match d {
        Dir::N => 0,
        Dir::E => 1,
        Dir::S => 2,
        _ => 3,
    }
}

/// Position of a diagonal heading in the clockwise cycle NE, SE, SW, NW.
pub open spec fn diag_index(d: Dir) -> int {
    match d {
        Dir::NE => 0,
        Dir::SE => 1,
        Dir::SW => 2,
        _ => 3,
    }
}

/// How many quarter turns take `from` to `to`, or `None` when the pair does
/// not lie in one heading family (the rotation is then refused).
pub open spec fn spec_steps_between(from: Dir, to: Dir) -> Option<int> {
    if is_orthogonal(from) && is_orthogonal(to) {
        Some((ortho_index(to) - ortho_index(from)) % 4)
    } else if is_diagonal(from) && is_diagonal(to) {
        Some((diag_index(to) - diag_index(from)) % 4)
    } else {
        None
    }
}

/// A heading change is blocked when it crosses between the orthogonal and the
/// diagonal family.
pub open spec fn heading_blocked(from: Dir, to: Dir) -> bool {
    ||| is_orthogonal(from) && is_diagonal(to)
    ||| is_diagonal(from) && is_orthogonal(to)
}

/// One offset after `steps` quarter turns clockwise: a quarter turn sends
/// (x, y) to (y, -x).
pub open spec fn rot_point(p: (int, int), steps: int) -> (int, int) {
    if steps == 1 {
        (p.1, -p.0)
    } else if steps == 2 {
        (-p.0, -p.1)
    } else if steps == 3 {
        (-p.1, p.0)
    } else {
        p
    }
}

/// A whole offset sequence after `steps` quarter turns.
pub open spec fn rot_cells(s: Seq<(int, int)>, steps: int) -> Seq<(int, int)> {
    s.map_values(|p: (int, int)| rot_point(p, steps))
}

/// An offset sequence shifted by (dx, dy).
pub open spec fn translate(s: Seq<(int, int)>, dx: int, dy: int) -> Seq<(int, int)> {
    s.map_values(|p: (int, int)| (p.0 + dx, p.1 + dy))
}

/// Smallest first coordinate in the sequence; 0 for an empty sequence.
pub open spec fn min_x(s: Seq<(int, int)>) -> int
    decreases s.len(),
{
    if s.len() == 0 {
        0
    } else if s.len() == 1 {
        s[0].0
    } else if s.last().0 <= min_x(s.drop_last()) {
        s.last().0
    } else {
        min_x(s.drop_last())
    }
}

/// Smallest second coordinate in the sequence; 0 for an empty sequence.
pub open spec fn min_y(s: Seq<(int, int)>) -> int
    decreases s.len(),
{
    if s.len() == 0 {
        0
    } else if s.len() == 1 {
        s[0].1
    } else if s.last().1 <= min_y(s.drop_last()) {
        s.last().1
    } else {
        min_y(s.drop_last())
    }
}

/// Largest first coordinate in the sequence; 0 for an empty sequence.
pub open spec fn max_x(s: Seq<(int, int)>) -> int
    decreases s.len(),
{
    if s.len() == 0 {
        0
    } else if s.len() == 1 {
        s[0].0
    } else if s.last().0 >= max_x(s.drop_last()) {
        s.last().0
    } else {
        max_x(s.drop_last())
    }
}

/// Largest second coordinate in the sequence; 0 for an empty sequence.
pub open spec fn max_y(s: Seq<(int, int)>) -> int
    decreases s.len(),
{
    if s.len() == 0 {
        0
    } else if s.len() == 1 {
        s[0].1
    } else if s.last().1 >= max_y(s.drop_last()) {
        s.last().1
    } else {
        max_y(s.drop_last())
    }
}

/// The sequence shifted so its bounding box starts at (0, 0).
pub open spec fn normalize(s: Seq<(int, int)>) -> Seq<(int, int)> {
    translate(s, -min_x(s), -min_y(s))
}

/// What a heading change does to an offset sequence: rotate by the quarter
/// turns the pair calls for (or leave the offsets as they are when the pair is
/// refused), then re-normalize to non-negative space.
pub open spec fn rotated_cells(s: Seq<(int, int)>, from: Dir, to: Dir) -> Seq<(int, int)> {
    match spec_steps_between(from, to) {
        Some(k) => normalize(rot_cells(s, k)),
        None => normalize(s),
    }
}

/// The offsets a heading request leaves a pattern with: unchanged when the
/// request is refused (cross-family), when the pattern has no heading yet,
/// or when the heading already matches; otherwise rotated and re-normalized.
pub open spec fn spec_heading_result(s: Seq<(int, int)>, from: Dir, to: Dir) -> Seq<(int, int)> {
    if heading_blocked(from, to) || from == Dir::Any || from == Dir::Unknown || to == from {
        s
    } else {
        rotated_cells(s, from, to)
    }
}

/// The mathematical offsets of an executable offset vector.
pub open spec fn offsets_of(cells: Seq<(i32, i32)>) -> Seq<(int, int)> {
    cells.map_values(|c: (i32, i32)| (c.0 as int, c.1 as int))
}

/// All offsets lie within [lo, hi] on both axes.
pub open spec fn offsets_within(s: Seq<(int, int)>, lo: int, hi: int) -> bool {
    forall|i: int| 0 <= i < s.len() ==> lo <= #[trigger] s[i].0 <= hi && lo <= s[i].1 <= hi
}

impl Dir {
    pub fn is_orthogonal_dir(&self) -> (r: bool)
        ensures
            r == is_orthogonal(*self),
    {
        matches!(self, Dir::N | Dir::E | Dir::S | Dir::W)
    }

    pub fn is_diagonal_dir(&self) -> (r: bool)
        ensures
            r == is_diagonal(*self),
    {
        matches!(self, Dir::NE | Dir::SE | Dir::SW | Dir::NW)
    }

    /// A short printable tag for the heading.
    pub fn symbol(&self) -> (r: &'static str)
        ensures
            *self == Dir::Any ==> r@ == "*"@,
            *self == Dir::Unknown ==> r@ == "?"@,
            *self == Dir::N ==> r@ == "N"@,
            *self == Dir::S ==> r@ == "S"@,
            *self == Dir::E ==> r@ == "E"@,
            *self == Dir::W ==> r@ == "W"@,
            *self == Dir::NE ==> r@ == "NE"@,
            *self == Dir::SE ==> r@ == "SE"@,
            *self == Dir::SW ==> r@ == "SW"@,
            *self == Dir::NW ==> r@ == "NW"@,
    {
        match self {
            Dir::Any => "*",
            Dir::Unknown => "?",
            Dir::N => "N",
            Dir::S => "S",
            Dir::E => "E",
            Dir::W => "W",
            Dir::NE => "NE",
            Dir::SE => "SE",
            Dir::SW => "SW",
            Dir::NW => "NW",
        }
    }

    /// The heading of an aim vector given by its axis deltas: straight
    /// headings on the axes, diagonal headings in the quadrants, `Any` at the
    /// origin. The y axis grows northward.
    pub fn from_deltas(x: i64, y: i64) -> (r: Dir)
        ensures
            x == 0 && y == 0 ==> r == Dir::Any,
            x == 0 && y < 0 ==> r == Dir::S,
            x == 0 && y > 0 ==> r == Dir::N,
            x < 0 && y == 0 ==> r == Dir::W,
            x > 0 && y == 0 ==> r == Dir::E,
            x > 0 && y < 0 ==> r == Dir::SE,
            x > 0 && y > 0 ==> r == Dir::NE,
            x < 0 && y < 0 ==> r == Dir::SW,
            x < 0 && y > 0 ==> r == Dir::NW,
    {
        if x == 0 {
            if y == 0 {
                Dir::Any
            } else if y < 0 {
                Dir::S
            } else {
                Dir::N
            }
        } else if y == 0 {
            if x < 0 {
                Dir::W
            } else {
                Dir::E
            }
        } else if x > 0 {
            if y < 0 {
                Dir::SE
            } else {
                Dir::NE
            }
        } else if y < 0 {
            Dir::SW
        } else {
            Dir::NW
        }
    }

    fn ortho_idx(&self) -> (r: u32)
        requires
            is_orthogonal(*self),
        ensures
            r == ortho_index(*self),
    {
        match self {
            Dir::N => 0,
            Dir::E => 1,
            Dir::S => 2,
            _ => 3,
        }
    }

    fn diag_idx(&self) -> (r: u32)
        requires
            is_diagonal(*self),
        ensures
            r == diag_index(*self),
    {
        match self {
            Dir::NE => 0,
            Dir::SE => 1,
            Dir::SW => 2,
            _ => 3,
        }
    }
}

/// `min_x` is a lower bound on every first coordinate and is attained.
pub proof fn lemma_min_x_bounds(s: Seq<(int, int)>)
    requires
        s.len() > 0,
    ensures
        forall|i: int| 0 <= i < s.len() ==> min_x(s) <= #[trigger] s[i].0,
        exists|i: int| 0 <= i < s.len() && min_x(s) == #[trigger] s[i].0,
    decreases s.len(),
{
    if s.len() == 1 {
        assert(min_x(s) == s[0].0);
    } else {
        lemma_min_x_bounds(s.drop_last());
        let t = s.drop_last();
        assert(forall|i: int| 0 <= i < t.len() ==> t[i] == s[i]);
        let j = choose|i: int| 0 <= i < t.len() && min_x(t) == #[trigger] t[i].0;
        if s.last().0 <= min_x(t) {
            assert(min_x(s) == s[s.len() - 1].0);
        } else {
            assert(min_x(s) == s[j].0);
        }
    }
}

/// `min_y` is a lower bound on every second coordinate and is attained.
pub proof fn lemma_min_y_bounds(s: Seq<(int, int)>)
    requires
        s.len() > 0,
    ensures
        forall|i: int| 0 <= i < s.len() ==> min_y(s) <= #[trigger] s[i].1,
        exists|i: int| 0 <= i < s.len() && min_y(s) == #[trigger] s[i].1,
    decreases s.len(),
{
    if s.len() == 1 {
        assert(min_y(s) == s[0].1);
    } else {
        lemma_min_y_bounds(s.drop_last());
        let t = s.drop_last();
        assert(forall|i: int| 0 <= i < t.len() ==> t[i] == s[i]);
        let j = choose|i: int| 0 <= i < t.len() && min_y(t) == #[trigger] t[i].1;
        if s.last().1 <= min_y(t) {
            assert(min_y(s) == s[s.len() - 1].1);
        } else {
            assert(min_y(s) == s[j].1);
        }
    }
}

/// `max_x` is an upper bound on every first coordinate and is attained.
pub proof fn lemma_max_x_bounds(s: Seq<(int, int)>)
    requires
        s.len() > 0,
    ensures
        forall|i: int| 0 <= i < s.len() ==> #[trigger] s[i].0 <= max_x(s),
        exists|i: int| 0 <= i < s.len() && max_x(s) == #[trigger] s[i].0,
    decreases s.len(),
{
    if s.len() == 1 {
        assert(max_x(s) == s[0].0);
    } else {
        lemma_max_x_bounds(s.drop_last());
        let t = s.drop_last();
        assert(forall|i: int| 0 <= i < t.len() ==> t[i] == s[i]);
        let j = choose|i: int| 0 <= i < t.len() && max_x(t) == #[trigger] t[i].0;
        if s.last().0 >= max_x(t) {
            assert(max_x(s) == s[s.len() - 1].0);
        } else {
            assert(max_x(s) == s[j].0);
        }
    }
}

/// `max_y` is an upper bound on every second coordinate and is attained.
pub proof fn lemma_max_y_bounds(s: Seq<(int, int)>)
    requires
        s.len() > 0,
    ensures
        forall|i: int| 0 <= i < s.len() ==> #[trigger] s[i].1 <= max_y(s),
        exists|i: int| 0 <= i < s.len() && max_y(s) == #[trigger] s[i].1,
    decreases s.len(),
{
    if s.len() == 1 {
        assert(max_y(s) == s[0].1);
    } else {
        lemma_max_y_bounds(s.drop_last());
        let t = s.drop_last();
        assert(forall|i: int| 0 <= i < t.len() ==> t[i] == s[i]);
        let j = choose|i: int| 0 <= i < t.len() && max_y(t) == #[trigger] t[i].1;
        if s.last().1 >= max_y(t) {
            assert(max_y(s) == s[s.len() - 1].1);
        } else {
            assert(max_y(s) == s[j].1);
        }
    }
}

/// Shifting a non-empty sequence shifts its minima by the same amount.
pub proof fn lemma_min_translate(s: Seq<(int, int)>, dx: int, dy: int)
    requires
        s.len() > 0,
    ensures
        min_x(translate(s, dx, dy)) == min_x(s) + dx,
        min_y(translate(s, dx, dy)) == min_y(s) + dy,
    decreases s.len(),
{
    let t = translate(s, dx, dy);
    if s.len() == 1 {
        assert(t.len() == 1 && t[0] == (s[0].0 + dx, s[0].1 + dy));
    } else {
        lemma_min_translate(s.drop_last(), dx, dy);
        assert(t.drop_last() =~= translate(s.drop_last(), dx, dy));
        assert(t.last() == (s.last().0 + dx, s.last().1 + dy));
    }
}

/// Normalization ignores any prior shift.
pub proof fn lemma_normalize_translate(s: Seq<(int, int)>, dx: int, dy: int)
    ensures
        normalize(translate(s, dx, dy)) == normalize(s),
{
    if s.len() == 0 {
        assert(normalize(translate(s, dx, dy)) =~= normalize(s));
    } else {
        lemma_min_translate(s, dx, dy);
        assert(normalize(translate(s, dx, dy)) =~= normalize(s));
    }
}

/// A quarter turn of a shifted sequence is the shifted quarter turn: the
/// shift itself turns from (dx, dy) to (dy, -dx).
pub proof fn lemma_rot_translate(s: Seq<(int, int)>, dx: int, dy: int)
    ensures
        rot_cells(translate(s, dx, dy), 1) == translate(rot_cells(s, 1), dy, -dx),
{
    assert(rot_cells(translate(s, dx, dy), 1) =~= translate(rot_cells(s, 1), dy, -dx));
}

/// Four quarter turns are the identity.
pub proof fn lemma_rot_four(s: Seq<(int, int)>)
    ensures
        rot_cells(rot_cells(rot_cells(rot_cells(s, 1), 1), 1), 1) == s,
{
    assert(rot_cells(rot_cells(rot_cells(rot_cells(s, 1), 1), 1), 1) =~= s);
}

/// One quarter-turn heading step: rotate clockwise once and re-normalize.
pub open spec fn quarter_step(s: Seq<(int, int)>) -> Seq<(int, int)> {
    normalize(rot_cells(s, 1))
}

/// Law: four successive quarter-turn heading steps reproduce the original
/// offsets in normalized form, whatever the pattern.
pub proof fn lemma_rotation_round_trip(s: Seq<(int, int)>)
    ensures
        quarter_step(quarter_step(quarter_step(quarter_step(s)))) == normalize(s),
{
    let r1 = rot_cells(s, 1);
    let r2 = rot_cells(r1, 1);
    let r3 = rot_cells(r2, 1);
    let r4 = rot_cells(r3, 1);
    lemma_rot_translate(r1, -min_x(r1), -min_y(r1));
    lemma_normalize_translate(r2, -min_y(r1), min_x(r1));
    assert(quarter_step(quarter_step(s)) == normalize(r2));
    lemma_rot_translate(r2, -min_x(r2), -min_y(r2));
    lemma_normalize_translate(r3, -min_y(r2), min_x(r2));
    assert(quarter_step(normalize(r2)) == normalize(r3));
    lemma_rot_translate(r3, -min_x(r3), -min_y(r3));
    lemma_normalize_translate(r4, -min_y(r3), min_x(r3));
    assert(quarter_step(normalize(r3)) == normalize(r4));
    lemma_rot_four(s);
}

/// Law: chaining the four orthogonal headings N, E, S, W back to N — or the
/// four diagonal headings NE, SE, SW, NW back to NE — reproduces a pattern's
/// normalized offsets exactly.
pub proof fn lemma_heading_round_trip(s: Seq<(int, int)>)
    ensures
        rotated_cells(
            rotated_cells(rotated_cells(rotated_cells(s, Dir::N, Dir::E), Dir::E, Dir::S), Dir::S, Dir::W),
            Dir::W,
            Dir::N,
        ) == normalize(s),
        rotated_cells(
            rotated_cells(
                rotated_cells(rotated_cells(s, Dir::NE, Dir::SE), Dir::SE, Dir::SW),
                Dir::SW,
                Dir::NW,
            ),
            Dir::NW,
            Dir::NE,
        ) == normalize(s),
{
    assert(spec_steps_between(Dir::N, Dir::E) == Some(1int));
    assert(spec_steps_between(Dir::E, Dir::S) == Some(1int));
    assert(spec_steps_between(Dir::S, Dir::W) == Some(1int));
    assert(spec_steps_between(Dir::W, Dir::N) == Some(1int));
    assert(spec_steps_between(Dir::NE, Dir::SE) == Some(1int));
    assert(spec_steps_between(Dir::SE, Dir::SW) == Some(1int));
    assert(spec_steps_between(Dir::SW, Dir::NW) == Some(1int));
    assert(spec_steps_between(Dir::NW, Dir::NE) == Some(1int));
    lemma_rotation_round_trip(s);
}

/// Normalizing a sequence whose offsets lie in a box moves them into the
/// box's size, anchored at the origin.
pub proof fn lemma_normalize_box(s: Seq<(int, int)>, lox: int, hix: int, loy: int, hiy: int)
    requires
        forall|i: int| 0 <= i < s.len() ==> lox <= #[trigger] s[i].0 <= hix && loy <= s[i].1 <= hiy,
    ensures
        forall|i: int|
            0 <= i < normalize(s).len() ==> 0 <= #[trigger] normalize(s)[i].0 <= hix - lox && 0
                <= normalize(s)[i].1 <= hiy - loy,
{
    if s.len() > 0 {
        lemma_min_x_bounds(s);
        lemma_min_y_bounds(s);
        let jx = choose|i: int| 0 <= i < s.len() && min_x(s) == #[trigger] s[i].0;
        let jy = choose|i: int| 0 <= i < s.len() && min_y(s) == #[trigger] s[i].1;
        assert(lox <= s[jx].0 <= hix);
        assert(lox <= s[jy].0 <= hix);
        assert(loy <= s[jy].1 <= hiy);
        assert forall|i: int|
            0 <= i < normalize(s).len() implies 0 <= #[trigger] normalize(s)[i].0 <= hix - lox && 0
            <= normalize(s)[i].1 <= hiy - loy by {
            assert(normalize(s)[i] == (s[i].0 - min_x(s), s[i].1 - min_y(s)));
            assert(lox <= s[i].0 <= hix);
        }
    }
}

/// Quarter turns between two headings of one family, `None` across families
/// or for a heading outside both.
pub fn steps_between(from: &Dir, to: &Dir) -> (r: Option<u32>)
    ensures
        r matches Some(k) ==> spec_steps_between(*from, *to) == Some(k as int),
        r is None ==> spec_steps_between(*from, *to) is None,
{
    if from.is_orthogonal_dir() && to.is_orthogonal_dir() {
        Some((to.ortho_idx() + 4 - from.ortho_idx()) % 4)
    } else if from.is_diagonal_dir() && to.is_diagonal_dir() {
        Some((to.diag_idx() + 4 - from.diag_idx()) % 4)
    } else {
        None
    }
}

/// The smallest and largest coordinates on each axis: (min x, min y, max x,
/// max y), all 0 for an empty vector.
pub fn offsets_bounds(cells: &Vec<(i32, i32)>) -> (r: (i32, i32, i32, i32))
    ensures
        r.0 as int == min_x(offsets_of(cells@)),
        r.1 as int == min_y(offsets_of(cells@)),
        r.2 as int == max_x(offsets_of(cells@)),
        r.3 as int == max_y(offsets_of(cells@)),
{
    let ghost s = offsets_of(cells@);
    if cells.len() == 0 {
        return (0, 0, 0, 0);
    }
    let c0 = cells[0];
    let mut mnx: i32 = c0.0;
    let mut mny: i32 = c0.1;
    let mut mxx: i32 = c0.0;
    let mut mxy: i32 = c0.1;
    proof {
        assert(s.take(1)[0] == s[0]);
        assert(s[0] == (cells@[0].0 as int, cells@[0].1 as int));
    }
    let mut i: usize = 1;
    while i < cells.len()
        invariant
            1 <= i <= cells@.len(),
            s == offsets_of(cells@),
            s.len() == cells@.len(),
            mnx as int == min_x(s.take(i as int)),
            mny as int == min_y(s.take(i as int)),
            mxx as int == max_x(s.take(i as int)),
            mxy as int == max_y(s.take(i as int)),
        decreases cells@.len() - i,
    {
        let c = cells[i];
        proof {
            let t = s.take(i as int + 1);
            assert(t.drop_last() =~= s.take(i as int));
            assert(t.last() == s[i as int]);
            assert(s[i as int] == (cells@[i as int].0 as int, cells@[i as int].1 as int));
        }
        if c.0 < mnx {
            mnx = c.0;
        }
        if c.1 < mny {
            mny = c.1;
        }
        if c.0 > mxx {
            mxx = c.0;
        }
        if c.1 > mxy {
            mxy = c.1;
        }
        i = i + 1;
    }
    proof {
        assert(s.take(cells@.len() as int) =~= s);
    }
    (mnx, mny, mxx, mxy)
}

/// Shift every offset so the bounding box starts at (0, 0).
pub fn translate_to_positive_coordinates(cells: &Vec<(i32, i32)>) -> (r: Vec<(i32, i32)>)
    requires
        offsets_within(offsets_of(cells@), -(MAX_COORD as int), MAX_COORD as int),
    ensures
        offsets_of(r@) == normalize(offsets_of(cells@)),
{
    let ghost s = offsets_of(cells@);
    let bounds = offsets_bounds(cells);
    let mnx = bounds.0;
    let mny = bounds.1;
    proof {
        if s.len() > 0 {
            lemma_min_x_bounds(s);
            lemma_min_y_bounds(s);
        }
    }
    let mut r: Vec<(i32, i32)> = Vec::new();
    let mut i: usize = 0;
    while i < cells.len()
        invariant
            0 <= i <= cells@.len(),
            s == offsets_of(cells@),
            s.len() == cells@.len(),
            offsets_within(s, -(MAX_COORD as int), MAX_COORD as int),
            mnx as int == min_x(s),
            mny as int == min_y(s),
            s.len() > 0 ==> (forall|j: int| 0 <= j < s.len() ==> min_x(s) <= #[trigger] s[j].0),
            s.len() > 0 ==> (forall|j: int| 0 <= j < s.len() ==> min_y(s) <= #[trigger] s[j].1),
            s.len() > 0 ==> -(MAX_COORD as int) <= min_x(s) && -(MAX_COORD as int) <= min_y(s),
            offsets_of(r@) == translate(s, -min_x(s), -min_y(s)).take(i as int),
        decreases cells@.len() - i,
    {
        let c = cells[i];
        proof {
            assert(s[i as int] == (cells@[i as int].0 as int, cells@[i as int].1 as int));
        }
        let p = (c.0 - mnx, c.1 - mny);
        let ghost old_r = r@;
        r.push(p);
        proof {
            let t = translate(s, -min_x(s), -min_y(s));
            assert(t[i as int] == (s[i as int].0 - min_x(s), s[i as int].1 - min_y(s)));
            assert(offsets_of(r@) =~= offsets_of(old_r).push((p.0 as int, p.1 as int)));
            assert(t.take(i as int + 1) =~= t.take(i as int).push(t[i as int]));
        }
        i = i + 1;
    }
    proof {
        let t = translate(s, -min_x(s), -min_y(s));
        assert(t.take(s.len() as int) =~= t);
    }
    r
}

/// Rotate every offset by the given number of clockwise quarter turns.
fn rotate_quarter_turns(cells: &Vec<(i32, i32)>, steps: u32) -> (r: Vec<(i32, i32)>)
    requires
        steps < 4,
        offsets_within(offsets_of(cells@), -(MAX_COORD as int), MAX_COORD as int),
    ensures
        offsets_of(r@) == rot_cells(offsets_of(cells@), steps as int),
{
    let ghost s = offsets_of(cells@);
    let ghost rs = rot_cells(s, steps as int);
    let mut r: Vec<(i32, i32)> = Vec::new();
    let mut i: usize = 0;
    while i < cells.len()
        invariant
            0 <= i <= cells@.len(),
            steps < 4,
            s == offsets_of(cells@),
            rs == rot_cells(s, steps as int),
            s.len() == cells@.len(),
            rs.len() == s.len(),
            offsets_within(s, -(MAX_COORD as int), MAX_COORD as int),
            offsets_of(r@) == rs.take(i as int),
        decreases cells@.len() - i,
    {
        let c = cells[i];
        proof {
            assert(s[i as int] == (cells@[i as int].0 as int, cells@[i as int].1 as int));
            assert(rs[i as int] == rot_point(s[i as int], steps as int));
        }
        let p: (i32, i32) = if steps == 1 {
            (c.1, -c.0)
        } else if steps == 2 {
            (-c.0, -c.1)
        } else if steps == 3 {
            (-c.1, c.0)
        } else {
            c
        };
        let ghost old_r = r@;
        r.push(p);
        proof {
            assert(offsets_of(r@) =~= offsets_of(old_r).push((p.0 as int, p.1 as int)));
            assert(rs.take(i as int + 1) =~= rs.take(i as int).push(rs[i as int]));
        }
        i = i + 1;
    }
    proof {
        assert(rs.take(s.len() as int) =~= rs);
    }
    r
}

/// Re-express offsets under a new heading: rotate by the quarter turns the
/// from/to pair calls for — or leave them unrotated when the pair is refused —
/// and re-normalize to non-negative space.
pub fn rotate_from_a_to_b(cells: &Vec<(i32, i32)>, from: &Dir, to: &Dir) -> (r: Vec<(i32, i32)>)
    requires
        offsets_within(offsets_of(cells@), 0, MAX_COORD as int),
    ensures
        offsets_of(r@) == rotated_cells(offsets_of(cells@), *from, *to),
        offsets_within(offsets_of(r@), 0, MAX_COORD as int),
{
    let ghost s = offsets_of(cells@);
    let ghost m = MAX_COORD as int;
    match steps_between(from, to) {
        Some(k) => {
            let rotated = rotate_quarter_turns(cells, k);
            proof {
                let rs = rot_cells(s, k as int);
                assert forall|i: int| 0 <= i < rs.len() implies -m <= #[trigger] rs[i].0 <= m && -m
                    <= rs[i].1 <= m by {
                    assert(rs[i] == rot_point(s[i], k as int));
                    assert(0 <= s[i].0 <= m);
                }
                if k == 0 {
                    lemma_normalize_box(rs, 0, m, 0, m);
                } else if k == 1 {
                    assert forall|i: int| 0 <= i < rs.len() implies 0 <= #[trigger] rs[i].0 <= m
                        && -m <= rs[i].1 <= 0 by {
                        assert(rs[i] == rot_point(s[i], 1));
                        assert(0 <= s[i].0 <= m);
                    }
                    lemma_normalize_box(rs, 0, m, -m, 0);
                } else if k == 2 {
                    assert forall|i: int| 0 <= i < rs.len() implies -m <= #[trigger] rs[i].0 <= 0
                        && -m <= rs[i].1 <= 0 by {
                        assert(rs[i] == rot_point(s[i], 2));
                        assert(0 <= s[i].0 <= m);
                    }
                    lemma_normalize_box(rs, -m, 0, -m, 0);
                } else {
                    assert forall|i: int| 0 <= i < rs.len() implies -m <= #[trigger] rs[i].0 <= 0
                        && 0 <= rs[i].1 <= m by {
                        assert(rs[i] == rot_point(s[i], 3));
                        assert(0 <= s[i].0 <= m);
                    }
                    lemma_normalize_box(rs, -m, 0, 0, m);
                }
            }
            translate_to_positive_coordinates(&rotated)
        },
        None => {
            proof {
                lemma_normalize_box(s, 0, m, 0, m);
            }
            translate_to_positive_coordinates(cells)
        },
    }
}

/// Some of the first `j` offsets is exactly (x, y).
pub open spec fn offset_listed(s: Seq<(int, int)>, x: int, y: int, j: int) -> bool {
    exists|jj: int| 0 <= jj < j && #[trigger] s[jj] == (x, y)
}

/// A pattern rendered as a 2D grid of cell states, row-major by y: a plain
/// live cell where the template has an offset, a dead cell elsewhere. The
/// grid spans the template's bounding box.
pub fn to_state(pattern: &Vec<(i32, i32)>) -> (r: Vec<Vec<CellState>>)
    requires
        offsets_within(offsets_of(pattern@), 0, MAX_COORD as int),
    ensures
        r@.len() == max_y(offsets_of(pattern@)) + 1,
        forall|y: int|
            0 <= y < r@.len() ==> (#[trigger] r@[y])@.len() == max_x(offsets_of(pattern@)) + 1,
        forall|y: int, x: int|
            0 <= y < r@.len() && 0 <= x < r@[y]@.len() ==> #[trigger] r@[y]@[x] == (
            if offsets_of(pattern@).contains((x, y)) {
                CellState::AlivePlain
            } else {
                CellState::Dead
            }),
{
    let ghost offs = offsets_of(pattern@);
    let bounds = offsets_bounds(pattern);
    proof {
        if offs.len() > 0 {
            lemma_max_x_bounds(offs);
            lemma_max_y_bounds(offs);
            let jx = choose|i: int| 0 <= i < offs.len() && max_x(offs) == #[trigger] offs[i].0;
            let jy = choose|i: int| 0 <= i < offs.len() && max_y(offs) == #[trigger] offs[i].1;
            assert(0 <= offs[jx].0 <= MAX_COORD as int);
            assert(0 <= offs[jy].0 <= MAX_COORD as int);
        }
    }
    let w = (bounds.2 + 1) as usize;
    let h = (bounds.3 + 1) as usize;
    let mut rows: Vec<Vec<CellState>> = Vec::new();
    while rows.len() < h
        invariant
            rows@.len() <= h,
            forall|y: int|
                0 <= y < rows@.len() ==> (#[trigger] rows@[y])@.len() == w as int,
            forall|y: int, x: int|
                0 <= y < rows@.len() && 0 <= x < w as int ==> #[trigger] rows@[y]@[x]
                    == CellState::Dead,
        decreases h - rows@.len(),
    {
        let mut row: Vec<CellState> = Vec::new();
        while row.len() < w
            invariant
                row@.len() <= w,
                forall|x: int| 0 <= x < row@.len() ==> #[trigger] row@[x] == CellState::Dead,
            decreases w - row@.len(),
        {
            row.push(CellState::Dead);
        }
        rows.push(row);
    }
    let mut j: usize = 0;
    while j < pattern.len()
        invariant
            offs == offsets_of(pattern@),
            offs.len() == pattern@.len(),
            offsets_within(offs, 0, MAX_COORD as int),
            forall|i: int| 0 <= i < offs.len() ==> #[trigger] offs[i].0 <= max_x(offs) && offs[i].1
                <= max_y(offs),
            w as int == max_x(offs) + 1,
            h as int == max_y(offs) + 1,
            0 <= j <= offs.len(),
            rows@.len() == h as int,
            forall|y: int| 0 <= y < rows@.len() ==> (#[trigger] rows@[y])@.len() == w as int,
            forall|y: int, x: int|
                0 <= y < rows@.len() && 0 <= x < w as int ==> #[trigger] rows@[y]@[x] == (
                if offset_listed(offs, x, y, j as int) {
                    CellState::AlivePlain
                } else {
                    CellState::Dead
                }),
        decreases offs.len() - j,
    {
        let c = pattern[j];
        proof {
            assert(offs[j as int] == (c.0 as int, c.1 as int));
            assert(0 <= offs[j as int].0 <= max_x(offs));
        }
        let x = c.0 as usize;
        let y = c.1 as usize;
        let ghost before = rows@;
        let mut taken: Vec<CellState> = Vec::new();
        rows.set_and_swap(y, &mut taken);
        taken.set(x, CellState::AlivePlain);
        rows.set(y, taken);
        proof {
            assert forall|y2: int, x2: int|
                0 <= y2 < rows@.len() && 0 <= x2 < w as int implies #[trigger] rows@[y2]@[x2] == (
            if offset_listed(offs, x2, y2, j as int + 1) {
                CellState::AlivePlain
            } else {
                CellState::Dead
            }) by {
                if y2 == y as int && x2 == x as int {
                    assert(offs[j as int] == (x2, y2));
                    assert(offset_listed(offs, x2, y2, j as int + 1));
                } else {
                    assert(rows@[y2]@[x2] == before[y2]@[x2]);
                    if offset_listed(offs, x2, y2, j as int) {
                        let jj = choose|jj: int| 0 <= jj < j && #[trigger] offs[jj] == (x2, y2);
                        assert(offset_listed(offs, x2, y2, j as int + 1));
                    } else {
                        if offset_listed(offs, x2, y2, j as int + 1) {
                            let jj = choose|jj: int|
                                0 <= jj < j as int + 1 && #[trigger] offs[jj] == (x2, y2);
                            assert(jj == j as int);
                            assert(false);
                        }
                    }
                }
            }
        }
        j = j + 1;
    }
    proof {
        assert forall|y: int, x: int|
            0 <= y < rows@.len() && 0 <= x < rows@[y]@.len() implies #[trigger] rows@[y]@[x] == (
        if offs.contains((x, y)) {
            CellState::AlivePlain
        } else {
            CellState::Dead
        }) by {
            if offs.contains((x, y)) {
                let jj = choose|jj: int| 0 <= jj < offs.len() && #[trigger] offs[jj] == (x, y);
                assert(offset_listed(offs, x, y, offs.len() as int));
            } else {
                if offset_listed(offs, x, y, offs.len() as int) {
                    let jj = choose|jj: int|
                        0 <= jj < offs.len() && #[trigger] offs[jj] == (x, y);
                    assert(false);
                }
            }
        }
    }
    rows
}

/// A named template of relative live-cell offsets with a heading. Built-in
/// patterns are never deletable; temporary patterns are not persisted.
#[derive(Debug)]
pub struct Pattern {
    pub name: String,
    pub cells: Vec<(i32, i32)>,
    pub deletable: bool,
    pub is_temp: bool,
    pub dir: Dir,
}

/// Two patterns hold the same data: same name, offsets, flags and heading.
pub open spec fn same_pattern(a: Pattern, b: Pattern) -> bool {
    &&& a.name@ == b.name@
    &&& a.cells@ == b.cells@
    &&& a.deletable == b.deletable
    &&& a.is_temp == b.is_temp
    &&& a.dir == b.dir
}

/// An exact copy of an offset vector.
fn copy_offsets(v: &Vec<(i32, i32)>) -> (r: Vec<(i32, i32)>)
    ensures
        r@ == v@,
{
    let mut r: Vec<(i32, i32)> = Vec::new();
    let mut i: usize = 0;
    while i < v.len()
        invariant
            0 <= i <= v@.len(),
            r@ == v@.take(i as int),
        decreases v@.len() - i,
    {
        let ghost prev = r@;
        r.push(v[i]);
        proof {
            assert(v@.take(i as int + 1) =~= prev.push(v@[i as int]));
        }
        i = i + 1;
    }
    proof {
        assert(v@.take(v@.len() as int) =~= v@);
    }
    r
}

impl Clone for Pattern {
    /// A copy holding the same name, offsets, flags and heading.
    fn clone(&self) -> (r: Self)
        ensures
            same_pattern(r, *self),
            r.name == self.name,
    {
        Pattern {
            name: self.name.clone(),
            cells: copy_offsets(&self.cells),
            deletable: self.deletable,
            is_temp: self.is_temp,
            dir: self.dir,
        }
    }
}

impl Pattern {
    /// The template's offsets as mathematical pairs.
    pub open spec fn offsets(self) -> Seq<(int, int)> {
        offsets_of(self.cells@)
    }

    /// Well-formed: every offset non-negative and bounded.
    pub open spec fn wf(self) -> bool {
        offsets_within(self.offsets(), 0, MAX_COORD as int)
    }

    /// Width of the template's bounding box: one more than the largest x.
    pub open spec fn spec_width(self) -> int {
        max_x(self.offsets()) + 1
    }

    /// Height of the template's bounding box: one more than the largest y.
    pub open spec fn spec_height(self) -> int {
        max_y(self.offsets()) + 1
    }

    /// A fresh user-made pattern: deletable, and temporary until saved.
    pub fn new_deleatable(name: String, cells: Vec<(i32, i32)>) -> (r: Pattern)
        ensures
            r.name == name,
            r.cells == cells,
            r.deletable,
            r.is_temp,
            r.dir == Dir::Unknown,
    {
        Pattern { name, cells, deletable: true, is_temp: true, dir: Dir::Unknown }
    }

    /// A built-in pattern paired with its lookup key: never deletable, and
    /// never persisted.
    pub fn readonly_map_entry(name: String, cells: Vec<(i32, i32)>, dir: Dir) -> (r: (
        String,
        Pattern,
    ))
        ensures
            r.0 == name,
            r.1.name == name,
            r.1.cells == cells,
            !r.1.deletable,
            r.1.is_temp,
            r.1.dir == dir,
    {
        let key = name.clone();
        (key, Pattern { name, cells, deletable: false, is_temp: true, dir })
    }

    /// Turn the pattern to a new heading. A change across heading families
    /// (orthogonal to diagonal or back) is refused and leaves the pattern
    /// unchanged; so does a heading equal to the current one. A pattern with
    /// no heading yet (`Any` or `Unknown`) accepts any heading trivially: it
    /// takes the new heading with its offsets untouched. A valid change
    /// within one family rotates the offsets by the quarter turns the pair
    /// calls for and re-normalizes them.
    pub fn change_heading(&mut self, new_dir: Dir)
        requires
            old(self).wf(),
        ensures
            final(self).wf(),
            final(self).name == old(self).name,
            final(self).deletable == old(self).deletable,
            final(self).is_temp == old(self).is_temp,
            final(self).offsets() == spec_heading_result(
                old(self).offsets(),
                old(self).dir,
                new_dir,
            ),
            heading_blocked(old(self).dir, new_dir) ==> *final(self) == *old(self),
            old(self).dir == Dir::Any || old(self).dir == Dir::Unknown ==> final(self).cells
                == old(self).cells && final(self).dir == new_dir,
            !(old(self).dir == Dir::Any || old(self).dir == Dir::Unknown) && new_dir == old(
                self,
            ).dir ==> *final(self) == *old(self),
            !heading_blocked(old(self).dir, new_dir) && old(self).dir != Dir::Any && old(self).dir
                != Dir::Unknown && new_dir != old(self).dir ==> {
                &&& final(self).dir == new_dir
                &&& final(self).offsets() == rotated_cells(old(self).offsets(), old(self).dir, new_dir)
            },
    {
        if self.dir.is_orthogonal_dir() && new_dir.is_diagonal_dir() {
            return ;
        }
        if self.dir.is_diagonal_dir() && new_dir.is_orthogonal_dir() {
            return ;
        }
        match self.dir {
            Dir::Any | Dir::Unknown => {
                // no rotation is defined from a heading-less pattern: the
                // heading change is accepted trivially
                self.dir = new_dir;
            },
            _ => {
                if new_dir != self.dir {
                    let rotated = rotate_from_a_to_b(&self.cells, &self.dir, &new_dir);
                    self.cells = rotated;
                    self.dir = new_dir;
                }
            },
        }
    }

    /// Width and height of the template in cells.
    pub fn dimensions(&self) -> (r: (usize, usize))
        requires
            self.wf(),
        ensures
            r.0 as int == self.spec_width(),
            r.1 as int == self.spec_height(),
    {
        let bounds = offsets_bounds(&self.cells);
        proof {
            if self.cells@.len() > 0 {
                lemma_max_x_bounds(self.offsets());
                lemma_max_y_bounds(self.offsets());
                let jx = choose|i: int|
                    0 <= i < self.offsets().len() && max_x(self.offsets()) == #[trigger] self
                        .offsets()[i].0;
                let jy = choose|i: int|
                    0 <= i < self.offsets().len() && max_y(self.offsets()) == #[trigger] self
                        .offsets()[i].1;
                assert(0 <= self.offsets()[jx].0 <= MAX_COORD as int);
                assert(0 <= self.offsets()[jy].0 <= MAX_COORD as int);
            }
        }
        ((bounds.2 + 1) as usize, (bounds.3 + 1) as usize)
    }

    /// Shrink `given` from its max corner by the template's width and height,
    /// so that any anchor point sampled in the result keeps the whole
    /// template inside `given`.
    pub fn to_region_that_accepts_my_cells(&self, given: &Region) -> (r: Region)
        requires
            self.wf(),
            given.max_x as int - self.spec_width() >= i32::MIN,
            given.max_y as int - self.spec_height() >= i32::MIN,
        ensures
            ({
                let sx = given.max_x as int - self.spec_width();
                let sy = given.max_y as int - self.spec_height();
                &&& r.min_x as int == if given.min_x as int <= sx { given.min_x as int } else { sx }
                &&& r.min_y as int == if given.min_y as int <= sy { given.min_y as int } else { sy }
                &&& r.max_x as int == if given.min_x as int <= sx { sx } else { given.min_x as int }
                &&& r.max_y as int == if given.min_y as int <= sy { sy } else { given.min_y as int }
            }),
    {
        let dims = self.dimensions();
        proof {
            if self.cells@.len() > 0 {
                lemma_max_x_bounds(self.offsets());
                lemma_max_y_bounds(self.offsets());
            }
        }
        Region::new(
            given.min_x,
            given.min_y,
            given.max_x - dims.0 as i32,
            given.max_y - dims.1 as i32,
        )
    }
}

} // verus!
