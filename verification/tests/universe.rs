use game_of_life::Board;
use game_of_life::Cell;
use game_of_life::Live;
use game_of_life::Seed;
use game_of_life::Spark;
use game_of_life::Topology;
use game_of_life::Universe;

fn alive() -> Cell {
    Cell { live: Live::Alive, birth_day: 0 }
}

fn snapshot(u: &Universe) -> Vec<bool> {
    let b = u.get_now_board();
    let mut out = Vec::new();
    for z in 0..b.depth {
        for y in 0..b.height {
            for x in 0..b.width {
                out.push(b.is_alive_3d(x, y, z));
            }
        }
    }
    out
}

#[test]
fn block_still_life() {
    // A 2x2 block on an otherwise dead 6x6 wrap grid survives unchanged.
    let mut b = Board::new(6, 6);
    b.set(2, 2, alive());
    b.set(3, 2, alive());
    b.set(2, 3, alive());
    b.set(3, 3, alive());
    let mut u = Universe::from_board(b, Topology::Wrap, Spark::Off, Seed::Fixed(7));
    let before = snapshot(&u);
    for _ in 0..4 {
        u.tick();
        assert_eq!(snapshot(&u), before);
    }
}

#[test]
fn block_still_life_across_seam() {
    // The same block anchored at the far corner, wrapping around both axes.
    let mut b = Board::new(4, 4);
    b.set(3, 3, alive());
    b.set(0, 3, alive());
    b.set(3, 0, alive());
    b.set(0, 0, alive());
    let mut u = Universe::from_board(b, Topology::Wrap, Spark::Off, Seed::Fixed(7));
    let before = snapshot(&u);
    u.tick();
    assert_eq!(snapshot(&u), before);
}

#[test]
fn blinker_oscillates() {
    // A horizontal blinker at row 3 of a 7x7 wrap grid turns vertical, then
    // back, every two generations.
    let mut b = Board::new(7, 7);
    b.set(2, 3, alive());
    b.set(3, 3, alive());
    b.set(4, 3, alive());
    let mut u = Universe::from_board(b, Topology::Wrap, Spark::Off, Seed::Fixed(7));
    let horizontal = snapshot(&u);
    u.tick();
    for y in 0..7 {
        for x in 0..7 {
            let expected = x == 3 && (2..=4).contains(&y);
            assert_eq!(u.is_alive(x, y), expected);
        }
    }
    u.tick();
    assert_eq!(snapshot(&u), horizontal);
}

#[test]
fn blinker_birth_days() {
    // Cells born on a tick are stamped with that generation; survivors keep
    // their original birth generation.
    let mut b = Board::new(7, 7);
    b.set(2, 3, alive());
    b.set(3, 3, alive());
    b.set(4, 3, alive());
    let mut u = Universe::from_board(b, Topology::Wrap, Spark::Off, Seed::Fixed(7));
    u.tick();
    let board = u.get_now_board();
    assert_eq!(board.get_cell(3, 3, 0).birth_day, 0); // survivor of generation 0
    assert_eq!(board.get_cell(3, 2, 0).birth_day, 1); // born this generation
    assert_eq!(board.get_cell(3, 4, 0).birth_day, 1);
}

#[test]
fn generation_counter_monotonicity() {
    let mut u = Universe::new(5, 5, Topology::Wrap, Spark::OneIn(100), Seed::Fixed(11));
    assert_eq!(u.current_generation(), 0);
    for k in 1..=7u64 {
        u.tick();
        assert_eq!(u.current_generation(), k);
        let b = u.get_now_board();
        for y in 0..5 {
            for x in 0..5 {
                assert!(b.get_cell(x, y, 0).birth_day <= k);
            }
        }
    }
}

#[test]
fn forced_spark_revives_everything() {
    // With a one-in-one spark chance every cell is alive after any tick,
    // whatever the grid held before.
    let b = Board::new(6, 4);
    let mut u = Universe::from_board(b, Topology::Clamp, Spark::OneIn(1), Seed::Fixed(3));
    u.tick();
    for y in 0..4 {
        for x in 0..6 {
            assert!(u.is_alive(x, y));
        }
    }
    u.tick();
    for y in 0..4 {
        for x in 0..6 {
            assert!(u.is_alive(x, y));
        }
    }
}

#[test]
fn spark_off_is_pure_rule() {
    // With sparks off, a fully dead grid stays fully dead forever.
    let b = Board::new(5, 5);
    let mut u = Universe::from_board(b, Topology::Wrap, Spark::Off, Seed::Entropy);
    for _ in 0..3 {
        u.tick();
        for y in 0..5 {
            for x in 0..5 {
                assert!(!u.is_alive(x, y));
            }
        }
    }
}

#[test]
fn determinism_same_seed() {
    // Two universes built alike from the same seed stay observably equal
    // through every tick.
    let mut u1 = Universe::new(8, 6, Topology::Wrap, Spark::OneIn(10), Seed::Fixed(42));
    let mut u2 = Universe::new(8, 6, Topology::Wrap, Spark::OneIn(10), Seed::Fixed(42));
    assert_eq!(snapshot(&u1), snapshot(&u2));
    for _ in 0..6 {
        u1.tick();
        u2.tick();
        assert_eq!(u1.current_generation(), u2.current_generation());
        assert_eq!(snapshot(&u1), snapshot(&u2));
    }
}

#[test]
fn determinism_explicit_draws() {
    // Identical grids fed identical spark draws step identically, and a
    // drawn spark forces its cell alive.
    let mut b1 = Board::new(3, 3);
    b1.set(1, 1, alive());
    let mut b2 = Board::new(3, 3);
    b2.set(1, 1, alive());
    let mut u1 = Universe::from_board(b1, Topology::Clamp, Spark::Off, Seed::Fixed(1));
    let mut u2 = Universe::from_board(b2, Topology::Clamp, Spark::Off, Seed::Fixed(99));
    let mut draws = vec![false; 9];
    draws[0] = true; // spark the corner (0,0)
    u1.tick_with_draws(&draws);
    u2.tick_with_draws(&draws);
    assert_eq!(snapshot(&u1), snapshot(&u2));
    assert!(u1.is_alive(0, 0));
    assert!(!u1.is_alive(1, 1)); // the lone center starves
    assert_eq!(u1.get_now_board().get_cell(0, 0, 0).birth_day, 1);
}

#[test]
fn universe_3d_runs() {
    let mut u = Universe::new_3d(4, 4, 3, Topology::Clamp, Spark::Off, Seed::Fixed(5));
    u.tick();
    u.tick();
    assert_eq!(u.current_generation(), 2);
    let b = u.get_now_board();
    assert_eq!(b.width, 4);
    assert_eq!(b.height, 4);
    assert_eq!(b.depth, 3);
}

#[test]
fn twin_buffers_swap() {
    let b = Board::new(3, 3);
    let mut u = Universe::from_board(b, Topology::Wrap, Spark::Off, Seed::Fixed(0));
    assert_eq!(u.iboard, 0);
    u.tick();
    assert_eq!(u.iboard, 1);
    u.tick();
    assert_eq!(u.iboard, 0);
    // After a tick the previous generation is still readable.
    let mut c = Board::new(3, 3);
    c.set(1, 1, alive());
    let mut v = Universe::from_board(c, Topology::Wrap, Spark::Off, Seed::Fixed(0));
    v.tick();
    assert!(v.get_pre_board().is_alive(1, 1));
    assert!(!v.get_now_board().is_alive(1, 1));
    assert!(v.get_board(0).is_alive(1, 1));
}
