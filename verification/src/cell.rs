//! The typed-cell state machine: alive/dead status, species, and the
//! species-vs-species battle that resolves contested cells.

use vstd::prelude::*;

verus! {

/// A cell's species (faction). `Tree`, `Water` and `Fire` form the
/// rock-paper-scissors cycle; `PlainOn`/`PlainOff` are the untyped black and
/// white cells of plain Life; `Empty` is the species reported for dead cells.
#[derive(Clone, Copy, PartialEq, Eq, Structural, Debug)]
pub enum CellType {
    Tree,
    Water,
    Fire,
    PlainOn,
    PlainOff,
    Empty,
}

/// The result of one species battling another.
#[derive(Clone, Copy, PartialEq, Eq, Structural, Debug)]
pub enum Outcome {
    Win,
    Lose,
    Draw,
}

/// A cell's full state: dead, or alive with a species; the two `Plain`
/// variants carry the untyped black/white cells of plain Life.
#[derive(Clone, Copy, PartialEq, Eq, Structural, Debug)]
pub enum CellState {
    Alive(CellType),
    AlivePlain,
    DeadPlain,
    Dead,
}

/// Which side's spawn band a cell belongs to, fixed at grid creation from the
/// cell's row alone.
#[derive(Clone, Copy, PartialEq, Eq, Structural, Debug)]
pub enum RegionOwner {
    Neutral,
    Player,
    AI,
}

/// One grid cell: fixed coordinates, live state, and the spawn band it
/// belongs to. Coordinates and band never change after grid creation.
#[derive(Clone, Copy, PartialEq, Eq, Structural, Debug)]
pub struct Cell {
    pub x: usize,
    pub y: usize,
    pub state: CellState,
    pub region: RegionOwner,
}

/// The dominance relation of the three-species cycle: each species beats
/// exactly one other and loses to exactly one other; every remaining pairing
/// (same species, or a species outside the cycle) is a draw.
pub open spec fn spec_battle(a: CellType, b: CellType) -> Outcome {
    match (a, b) {
        (CellType::Tree, CellType::Water) => Outcome::Win,
        (CellType::Water, CellType::Fire) => Outcome::Win,
        (CellType::Fire, CellType::Tree) => Outcome::Win,
        (CellType::Water, CellType::Tree) => Outcome::Lose,
        (CellType::Fire, CellType::Water) => Outcome::Lose,
        (CellType::Tree, CellType::Fire) => Outcome::Lose,
        _ => Outcome::Draw,
    }
}

/// True of the three species that take part in the battle cycle.
pub open spec fn in_cycle(k: CellType) -> bool {
    k == CellType::Tree || k == CellType::Water || k == CellType::Fire
}

/// The dominance relation is total and anti-symmetric over the cycle: two
/// distinct cycle members never draw, and exactly one of them wins; a species
/// paired with itself always draws.
pub proof fn lemma_battle_cycle(a: CellType, b: CellType)
    requires
        in_cycle(a),
        in_cycle(b),
    ensures
        a == b ==> spec_battle(a, b) == Outcome::Draw,
        a != b ==> spec_battle(a, b) != Outcome::Draw,
        a != b ==> (spec_battle(a, b) == Outcome::Win <==> spec_battle(b, a) == Outcome::Lose),
{
}

impl CellType {
    /// Resolve a battle between `self` and `other` per the cycle.
    pub fn battle(&self, other: &Self) -> (r: Outcome)
        ensures
            r == spec_battle(*self, *other),
    {
        match (self, other) {
            (CellType::Tree, CellType::Water)
            | (CellType::Water, CellType::Fire)
            | (CellType::Fire, CellType::Tree) => Outcome::Win,
            (CellType::Water, CellType::Tree)
            | (CellType::Fire, CellType::Water)
            | (CellType::Tree, CellType::Fire) => Outcome::Lose,
            _ => Outcome::Draw,
        }
    }
}

impl CellState {
    /// The species carried by this state; `Empty` for a dead cell.
    pub open spec fn spec_kind(self) -> CellType {
        match self {
            CellState::Alive(kind) => kind,
            CellState::AlivePlain => CellType::PlainOn,
            CellState::DeadPlain => CellType::PlainOff,
            CellState::Dead => CellType::Empty,
        }
    }

    /// A cell is alive exactly when it carries a species.
    pub fn is_alive(&self) -> (r: bool)
        ensures
            r == (*self is Alive),
    {
        matches!(self, CellState::Alive(_))
    }

    pub fn is_dead(&self) -> (r: bool)
        ensures
            r == (*self is Dead),
    {
        matches!(self, CellState::Dead)
    }

    pub fn kind(&self) -> (r: CellType)
        ensures
            r == self.spec_kind(),
    {
        match self {
            CellState::Alive(kind) => *kind,
            CellState::AlivePlain => CellType::PlainOn,
            CellState::DeadPlain => CellType::PlainOff,
            CellState::Dead => CellType::Empty,
        }
    }

    /// The state given to a cell toggled alive by hand.
    pub fn default_alive() -> (r: Self)
        ensures
            r == CellState::Alive(CellType::Tree),
    {
        CellState::Alive(CellType::Tree)
    }
}

} // verus!
