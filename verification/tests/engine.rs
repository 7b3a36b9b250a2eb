use game_of_life::Board;
use game_of_life::Cell;
use game_of_life::Live;
use game_of_life::Topology;
use game_of_life::grim_reaper;

fn alive() -> Cell {
    Cell { live: Live::Alive, birth_day: 0 }
}

#[test]
fn new_board_is_all_dead() {
    let b = Board::new(4, 3);
    for h in 0..3 {
        for w in 0..4 {
            assert!(!b.is_alive(w, h));
            assert_eq!(b.get_cell(w, h, 0).birth_day, 0);
        }
    }
    let (lives, deads) = b.cell_statics();
    assert_eq!(lives, 0);
    assert_eq!(deads, 12);
}

#[test]
fn neighbor_count_wrap_center() {
    // A 3x3 wrap grid with only the center alive: all 8 surrounding cells
    // see exactly one live neighbor, the center sees none.
    let mut b = Board::new(3, 3);
    b.set(1, 1, alive());
    for h in 0..3 {
        for w in 0..3 {
            let expected = if w == 1 && h == 1 { 0 } else { 1 };
            assert_eq!(b.alive_neighbors_count(w, h, Topology::Wrap), expected);
        }
    }
}

#[test]
fn neighbor_count_clamp_corner() {
    // On a fully alive 5x5 clamp grid, the corner (0,0) has only 3 of its 8
    // offsets in bounds, so it counts exactly those 3.
    let mut b = Board::new(5, 5);
    for h in 0..5 {
        for w in 0..5 {
            b.set(w, h, alive());
        }
    }
    assert_eq!(b.alive_neighbors_count(0, 0, Topology::Clamp), 3);
    assert_eq!(b.alive_neighbors_count(4, 4, Topology::Clamp), 3);
    assert_eq!(b.alive_neighbors_count(0, 2, Topology::Clamp), 5);
    assert_eq!(b.alive_neighbors_count(2, 2, Topology::Clamp), 8);
    // The same corner under wrap sees all 8.
    assert_eq!(b.alive_neighbors_count(0, 0, Topology::Wrap), 8);
}

#[test]
fn neighbor_count_one_by_one() {
    // On a 1x1 wrap grid every offset folds back onto the cell itself.
    let mut b = Board::new(1, 1);
    b.set(0, 0, alive());
    assert_eq!(b.alive_neighbors_count(0, 0, Topology::Wrap), 8);
    assert_eq!(b.alive_neighbors_count(0, 0, Topology::Clamp), 0);
}

#[test]
fn neighbor_count_3d() {
    let mut b = Board::new_3d(3, 3, 3);
    b.set_3d(1, 1, 1, alive());
    assert!(b.is_alive_3d(1, 1, 1));
    // The lone center neighbors every other cell of the 3x3x3 cube.
    assert_eq!(b.alive_neighbors_count_3d(0, 0, 0, Topology::Clamp), 1);
    assert_eq!(b.alive_neighbors_count_3d(2, 2, 2, Topology::Clamp), 1);
    assert_eq!(b.alive_neighbors_count_3d(1, 1, 1, Topology::Clamp), 0);
    // A fully alive cube gives the center all 26 neighbors.
    for z in 0..3 {
        for y in 0..3 {
            for x in 0..3 {
                b.set_3d(x, y, z, alive());
            }
        }
    }
    assert_eq!(b.alive_neighbors_count_3d(1, 1, 1, Topology::Clamp), 26);
    assert_eq!(b.alive_neighbors_count_3d(0, 0, 0, Topology::Clamp), 7);
}

#[test]
fn rule_application() {
    // Exactly three live neighbors: alive regardless of prior state.
    assert!(grim_reaper(true, 3));
    assert!(grim_reaper(false, 3));
    // Zero or one: dead.
    assert!(!grim_reaper(true, 0));
    assert!(!grim_reaper(false, 0));
    assert!(!grim_reaper(true, 1));
    assert!(!grim_reaper(false, 1));
    // Exactly two: unchanged.
    assert!(grim_reaper(true, 2));
    assert!(!grim_reaper(false, 2));
    // Four or more: dead.
    for n in 4..=26 {
        assert!(!grim_reaper(true, n));
        assert!(!grim_reaper(false, n));
    }
}

#[test]
fn cell_accessors_and_toggle() {
    let mut c = Cell::new();
    assert!(c.live());
    assert_eq!(c.birth_day(), 0);
    c.toggle();
    assert!(!c.live());
    c.toggle();
    assert!(c.live());
}

#[test]
fn cell_statics_counts() {
    let mut b = Board::new(4, 4);
    b.set(0, 0, alive());
    b.set(3, 1, alive());
    b.set(2, 2, alive());
    let (lives, deads) = b.cell_statics();
    assert_eq!(lives, 3);
    assert_eq!(deads, 13);
}
