use gol_core::cell::{CellState, CellType, Outcome};

#[test]
fn battle_tree_water_win() {
    assert!(matches!(CellType::Tree.battle(&CellType::Water), Outcome::Win));
}

#[test]
fn battle_water_tree_lose() {
    assert!(matches!(CellType::Water.battle(&CellType::Tree), Outcome::Lose));
}

#[test]
fn battle_water_fire_win() {
    assert!(matches!(CellType::Water.battle(&CellType::Fire), Outcome::Win));
}

#[test]
fn battle_fire_water_lose() {
    assert!(matches!(CellType::Fire.battle(&CellType::Water), Outcome::Lose));
}

#[test]
fn battle_fire_tree_win() {
    assert!(matches!(CellType::Fire.battle(&CellType::Tree), Outcome::Win));
}

#[test]
fn battle_tree_fire_lose() {
    assert!(matches!(CellType::Tree.battle(&CellType::Fire), Outcome::Lose));
}

#[test]
fn battle_same_species_draw() {
    assert!(matches!(CellType::Tree.battle(&CellType::Tree), Outcome::Draw));
    assert!(matches!(CellType::Water.battle(&CellType::Water), Outcome::Draw));
    assert!(matches!(CellType::Fire.battle(&CellType::Fire), Outcome::Draw));
}

#[test]
fn battle_outside_cycle_draw() {
    assert!(matches!(CellType::Empty.battle(&CellType::Tree), Outcome::Draw));
    assert!(matches!(CellType::Tree.battle(&CellType::PlainOn), Outcome::Draw));
    assert!(matches!(CellType::PlainOff.battle(&CellType::PlainOn), Outcome::Draw));
}

#[test]
fn cell_state_alive_and_kind() {
    let alive = CellState::Alive(CellType::Water);
    assert!(alive.is_alive());
    assert!(!alive.is_dead());
    assert_eq!(alive.kind(), CellType::Water);

    let dead = CellState::Dead;
    assert!(!dead.is_alive());
    assert!(dead.is_dead());
    assert_eq!(dead.kind(), CellType::Empty);

    assert_eq!(CellState::AlivePlain.kind(), CellType::PlainOn);
    assert!(!CellState::AlivePlain.is_alive());
    assert_eq!(CellState::DeadPlain.kind(), CellType::PlainOff);

    assert_eq!(CellState::default_alive(), CellState::Alive(CellType::Tree));
}
