//! The automaton engine: two alternating grid buffers, the classical B3/S23
//! transition rule, optional stochastic spark revival, and a monotonically
//! increasing generation counter.

use vstd::prelude::*;

use crate::board::Axes;
use crate::board::Board;
use crate::board::Topology;
use crate::board::lemma_idx_bounds;
use crate::cell::Cell;
use crate::cell::Live;
use crate::rng::rng_below;
use crate::rng::rng_coin;
use crate::rng::rng_from_entropy;
use crate::rng::rng_from_seed;

verus! {

/// Spark policy: `Off` applies the neighbor rule alone; `OneIn(n)` forces a
/// cell alive with probability 1/n each generation, independent of the rule
/// (`OneIn(1)` forces every cell alive).
#[derive(Clone, Copy, PartialEq, Eq, Structural, Debug)]
pub enum Spark {
    Off,
    OneIn(u32),
}

/// A spark policy is meaningful when its chance denominator is nonzero.
pub open spec fn spark_wf(spark: Spark) -> bool {
    match spark {
        Spark::Off => true,
        Spark::OneIn(n) => n >= 1,
    }
}

/// Seed policy for the initial random population and the spark draws.
#[derive(Clone, Copy, PartialEq, Eq, Structural, Debug)]
pub enum Seed {
    Entropy,
    Fixed(u64),
}

/// The classical B3/S23 rule: a cell is alive next generation exactly when
/// it has three live neighbors, or two live neighbors and is alive already.
pub open spec fn grim_rule(live: bool, count: nat) -> bool {
    count == 3 || (count == 2 && live)
}

/// Decides a cell's next liveness from its own liveness and its live
/// neighbor count, by the classical rule: at most one neighbor starves it,
/// exactly three give birth, four or more smother it, and exactly two leave
/// it as it was.
pub fn grim_reaper(live: bool, count: u8) -> (r: bool)
    ensures
        r == grim_rule(live, count as nat),
        count <= 1 ==> !r,
        count == 2 ==> r == live,
        count == 3 ==> r,
        count >= 4 ==> !r,
{
    match count {
        2 => live,
        3 => true,
        _ => false,
    }
}

/// The cell that replaces `(x, y, z)` in the next generation: sparked cells
/// are forced alive; otherwise the neighbor rule decides. A cell newly alive
/// this generation is stamped with `now`; one that stays alive keeps its
/// birth generation; a dead cell's birth resets to 0.
pub open spec fn next_cell(
    prev: Board,
    x: int,
    y: int,
    z: int,
    topology: Topology,
    spark: bool,
    now: u64,
) -> Cell {
    let was = prev.live_at(x, y, z);
    let lv = spark || grim_rule(was, prev.neighbor_count(x, y, z, topology));
    if lv {
        Cell {
            live: Live::Alive,
            birth_day: if was {
                prev.cell_at(x, y, z).birth_day
            } else {
                now
            },
        }
    } else {
        Cell { live: Live::Dead, birth_day: 0 }
    }
}

/// One full generation step from `prev` to `nxt`: same extents, and every
/// cell of `nxt` is `next_cell` of `prev` under its own spark draw.
pub open spec fn board_steps(
    prev: Board,
    nxt: Board,
    topology: Topology,
    draws: Seq<bool>,
    now: u64,
) -> bool {
    &&& nxt.width == prev.width
    &&& nxt.height == prev.height
    &&& nxt.depth == prev.depth
    &&& nxt.axes == prev.axes
    &&& nxt.cells@.len() == prev.cells@.len()
    &&& draws.len() == prev.volume()
    &&& forall|x: int, y: int, z: int| prev.in_bounds(x, y, z) ==>
            #[trigger] nxt.cell_at(x, y, z)
                == next_cell(prev, x, y, z, topology, draws[prev.idx(x, y, z)], now)
}

/// The prefix of a board's cell store computed so far by a generation step.
spec fn filled_to(
    prev: Board,
    cells: Seq<Cell>,
    topology: Topology,
    draws: Seq<bool>,
    now: u64,
) -> bool {
    forall|x: int, y: int, z: int|
        prev.in_bounds(x, y, z) && prev.idx(x, y, z) < cells.len() ==>
            cells[prev.idx(x, y, z)]
                == #[trigger] next_cell(prev, x, y, z, topology, draws[prev.idx(x, y, z)], now)
}

/// Computes the next generation of `prev` as a fresh board, reading only
/// `prev` and the per-cell spark draws.
pub fn next_board(prev: &Board, topology: Topology, draws: &Vec<bool>, now: u64) -> (r: Board)
    requires
        prev.wf(),
        draws@.len() == prev.volume(),
    ensures
        r.wf(),
        board_steps(*prev, r, topology, draws@, now),
{
    let mut cells: Vec<Cell> = Vec::new();
    let mut z: usize = 0;
    while z < prev.depth
        invariant
            prev.wf(),
            draws@.len() == prev.volume(),
            z <= prev.depth,
            cells@.len() == (z * prev.height) * prev.width,
            filled_to(*prev, cells@, topology, draws@, now),
        decreases prev.depth - z,
    {
        let mut y: usize = 0;
        while y < prev.height
            invariant
                prev.wf(),
                draws@.len() == prev.volume(),
                z < prev.depth,
                y <= prev.height,
                cells@.len() == (z * prev.height + y) * prev.width,
                filled_to(*prev, cells@, topology, draws@, now),
            decreases prev.height - y,
        {
            let mut x: usize = 0;
            while x < prev.width
                invariant
                    prev.wf(),
                    draws@.len() == prev.volume(),
                    z < prev.depth,
                    y < prev.height,
                    x <= prev.width,
                    cells@.len() == (z * prev.height + y) * prev.width + x,
                    filled_to(*prev, cells@, topology, draws@, now),
                decreases prev.width - x,
            {
                proof {
                    lemma_idx_bounds(*prev, x as int, y as int, z as int);
                }
                let i: usize = cells.len();
                let count: u8 = prev.alive_neighbors_count_3d(x, y, z, topology);
                let was: bool = prev.is_alive_3d(x, y, z);
                let lv: bool = draws[i] || grim_reaper(was, count);
                let c: Cell = if lv {
                    Cell {
                        live: Live::Alive,
                        birth_day: if was {
                            prev.get_cell(x, y, z).birth_day
                        } else {
                            now
                        },
                    }
                } else {
                    Cell { live: Live::Dead, birth_day: 0 }
                };
                cells.push(c);
                proof {
                    assert(cells@[i as int]
                        == next_cell(*prev, x as int, y as int, z as int, topology,
                            draws@[prev.idx(x as int, y as int, z as int)], now));
                    assert forall|x2: int, y2: int, z2: int|
                        prev.in_bounds(x2, y2, z2) && prev.idx(x2, y2, z2) < cells@.len() implies
                            cells@[prev.idx(x2, y2, z2)] == #[trigger] next_cell(
                                *prev, x2, y2, z2, topology,
                                draws@[prev.idx(x2, y2, z2)], now) by {
                        lemma_idx_bounds(*prev, x2, y2, z2);
                        if prev.idx(x2, y2, z2) == i as int {
                            crate::board::lemma_idx_injective(
                                *prev, x2, y2, z2, x as int, y as int, z as int);
                        }
                    }
                }
                x = x + 1;
            }
            proof {
                assert((z * prev.height + y) * prev.width + prev.width
                    == (z * prev.height + (y + 1)) * prev.width) by (nonlinear_arith);
            }
            y = y + 1;
        }
        proof {
            assert((z * prev.height + prev.height) * prev.width
                == ((z + 1) * prev.height) * prev.width) by (nonlinear_arith);
        }
        z = z + 1;
    }
    proof {
        assert((prev.depth * prev.height) * prev.width
            == prev.width * prev.height * prev.depth) by (nonlinear_arith);
    }
    let r = Board {
        cells,
        width: prev.width,
        height: prev.height,
        depth: prev.depth,
        axes: prev.axes,
    };
    proof {
        assert forall|x: int, y: int, z: int| prev.in_bounds(x, y, z) implies
            #[trigger] r.cell_at(x, y, z)
                == next_cell(*prev, x, y, z, topology, draws@[prev.idx(x, y, z)], now) by {
            lemma_idx_bounds(*prev, x, y, z);
        }
    }
    r
}

/// Every cell of the board was born no later than generation `now`.
pub open spec fn births_bounded(b: Board, now: u64) -> bool {
    forall|x: int, y: int, z: int| b.in_bounds(x, y, z) ==>
        #[trigger] b.cell_at(x, y, z).birth_day <= now
}

/// The universe: twin grid buffers of identical extents, an index selecting
/// the current one, the generation counter, and the configured topology and
/// spark policy.
pub struct Universe {
    pub board_a: Board,
    pub board_b: Board,
    pub iboard: usize,
    pub now: u64,
    pub topology: Topology,
    pub spark: Spark,
    pub rng: fastrand::Rng,
}

impl Universe {
    /// The buffer currently holding the present generation.
    pub open spec fn cur(self) -> Board {
        if self.iboard == 0 {
            self.board_a
        } else {
            self.board_b
        }
    }

    /// The other buffer: the previous generation, soon to be overwritten.
    pub open spec fn pre(self) -> Board {
        if self.iboard == 0 {
            self.board_b
        } else {
            self.board_a
        }
    }

    /// Well-formedness: two well-formed buffers of identical extents and
    /// dimensionality, a binary buffer index, a meaningful spark policy, and
    /// no cell born later than the present generation.
    pub open spec fn wf(self) -> bool {
        &&& self.board_a.wf()
        &&& self.board_b.wf()
        &&& self.board_b.width == self.board_a.width
        &&& self.board_b.height == self.board_a.height
        &&& self.board_b.depth == self.board_a.depth
        &&& self.board_b.axes == self.board_a.axes
        &&& self.iboard < 2
        &&& spark_wf(self.spark)
        &&& births_bounded(self.board_a, self.now)
        &&& births_bounded(self.board_b, self.now)
    }
}

/// How one `tick` relates a universe to its successor, given the per-cell
/// spark draws: the generation counter advances by one, the buffers swap
/// roles, the configuration is untouched, the old current grid is kept as
/// the previous buffer, and the new current grid is the generation step of
/// the old one.
pub open spec fn tick_step(pre: Universe, post: Universe, draws: Seq<bool>) -> bool {
    &&& post.now == pre.now + 1
    &&& post.iboard == 1 - pre.iboard
    &&& post.topology == pre.topology
    &&& post.spark == pre.spark
    &&& post.pre() == pre.cur()
    &&& board_steps(pre.cur(), post.cur(), pre.topology, draws, post.now)
}

impl Universe {
    /// A universe over a caller-built starting grid, with every cell at its
    /// genesis birth generation.
    pub fn from_board(board: Board, topology: Topology, spark: Spark, seed: Seed) -> (u: Universe)
        requires
            board.wf(),
            spark_wf(spark),
            births_bounded(board, 0),
        ensures
            u.wf(),
            u.now == 0,
            u.iboard == 0,
            u.cur() == board,
            u.topology == topology,
            u.spark == spark,
    {
        // The store's executable length bounds the grid volume below
        // usize::MAX, which the twin buffer's constructor requires.
        let n: usize = board.cells.len();
        proof {
            assert(board.volume() <= n as int);
            assert(board.width * board.height <= board.width * board.height * board.depth)
                by (nonlinear_arith)
                requires
                    board.width >= 1,
                    board.height >= 1,
                    board.depth >= 1,
            ;
        }
        let twin: Board = match board.axes {
            Axes::Two => Board::new(board.width, board.height),
            Axes::Three => Board::new_3d(board.width, board.height, board.depth),
        };
        let rng: fastrand::Rng = match seed {
            Seed::Fixed(s) => rng_from_seed(s),
            Seed::Entropy => rng_from_entropy(),
        };
        Universe { board_a: board, board_b: twin, iboard: 0, now: 0, topology, spark, rng }
    }

    /// A fresh 2D universe: each cell of the starting grid is drawn alive
    /// with probability one half.
    pub fn new(
        width: usize,
        height: usize,
        topology: Topology,
        spark: Spark,
        seed: Seed,
    ) -> (u: Universe)
        requires
            width >= 1,
            height >= 1,
            width * height <= usize::MAX,
            spark_wf(spark),
        ensures
            u.wf(),
            u.now == 0,
            u.iboard == 0,
            u.topology == topology,
            u.spark == spark,
            u.cur().width == width,
            u.cur().height == height,
            u.cur().depth == 1,
            u.cur().axes == Axes::Two,
    {
        let mut rng: fastrand::Rng = match seed {
            Seed::Fixed(s) => rng_from_seed(s),
            Seed::Entropy => rng_from_entropy(),
        };
        let n: usize = width * height;
        let board = Board {
            cells: random_cells(&mut rng, n),
            width,
            height,
            depth: 1,
            axes: Axes::Two,
        };
        let twin: Board = Board::new(width, height);
        proof {
            assert forall|x: int, y: int, z: int| board.in_bounds(x, y, z) implies
                #[trigger] board.cell_at(x, y, z).birth_day <= 0 by {
                lemma_idx_bounds(board, x, y, z);
            }
        }
        Universe { board_a: board, board_b: twin, iboard: 0, now: 0, topology, spark, rng }
    }

    /// A fresh 3D universe: each cell of the starting grid is drawn alive
    /// with probability one half.
    pub fn new_3d(
        width: usize,
        height: usize,
        depth: usize,
        topology: Topology,
        spark: Spark,
        seed: Seed,
    ) -> (u: Universe)
        requires
            width >= 1,
            height >= 1,
            depth >= 1,
            width * height * depth <= usize::MAX,
            spark_wf(spark),
        ensures
            u.wf(),
            u.now == 0,
            u.iboard == 0,
            u.topology == topology,
            u.spark == spark,
            u.cur().width == width,
            u.cur().height == height,
            u.cur().depth == depth,
            u.cur().axes == Axes::Three,
    {
        let mut rng: fastrand::Rng = match seed {
            Seed::Fixed(s) => rng_from_seed(s),
            Seed::Entropy => rng_from_entropy(),
        };
        proof {
            assert(width * height <= width * height * depth) by (nonlinear_arith)
                requires
                    width >= 1,
                    height >= 1,
                    depth >= 1,
            ;
        }
        let wh: usize = width * height;
        let n: usize = wh * depth;
        let board = Board {
            cells: random_cells(&mut rng, n),
            width,
            height,
            depth,
            axes: Axes::Three,
        };
        let twin: Board = Board::new_3d(width, height, depth);
        proof {
            assert forall|x: int, y: int, z: int| board.in_bounds(x, y, z) implies
                #[trigger] board.cell_at(x, y, z).birth_day <= 0 by {
                lemma_idx_bounds(board, x, y, z);
            }
        }
        Universe { board_a: board, board_b: twin, iboard: 0, now: 0, topology, spark, rng }
    }

    /// The grid of the present generation.
    pub fn get_now_board(&self) -> (b: &Board)
        ensures
            *b == self.cur(),
    {
        if self.iboard == 0 {
            &self.board_a
        } else {
            &self.board_b
        }
    }

    /// The grid of the previous generation.
    pub fn get_pre_board(&self) -> (b: &Board)
        ensures
            *b == self.pre(),
    {
        if self.iboard == 0 {
            &self.board_b
        } else {
            &self.board_a
        }
    }

    /// One of the two buffers by index.
    pub fn get_board(&self, i: usize) -> (b: &Board)
        requires
            i < 2,
        ensures
            *b == if i == 0 {
                self.board_a
            } else {
                self.board_b
            },
    {
        if i == 0 {
            &self.board_a
        } else {
            &self.board_b
        }
    }

    /// Elapsed generations since construction.
    pub fn current_generation(&self) -> (r: u64)
        ensures
            r == self.now,
    {
        self.now
    }

    /// Whether the cell at `(w, h)` of the present grid's front layer is
    /// alive.
    pub fn is_alive(&self, w: usize, h: usize) -> (r: bool)
        requires
            self.wf(),
            self.cur().in_bounds(w as int, h as int, 0),
        ensures
            r == self.cur().live_at(w as int, h as int, 0),
    {
        self.get_now_board().is_alive(w, h)
    }

    /// Whether the cell at `(x, y, z)` of the present grid is alive.
    pub fn is_alive_3d(&self, x: usize, y: usize, z: usize) -> (r: bool)
        requires
            self.wf(),
            self.cur().in_bounds(x as int, y as int, z as int),
        ensures
            r == self.cur().live_at(x as int, y as int, z as int),
    {
        self.get_now_board().is_alive_3d(x, y, z)
    }

    /// Advances one generation with the given per-cell spark draws: the
    /// deterministic core of `tick`, a total function of the current grid
    /// and the draws.
    pub fn tick_with_draws(&mut self, draws: &Vec<bool>)
        requires
            old(self).wf(),
            draws@.len() == old(self).cur().volume(),
            old(self).now < u64::MAX,
        ensures
            final(self).wf(),
            tick_step(*old(self), *final(self), draws@),
    {
        self.now = self.now + 1;
        if self.iboard == 0 {
            let nb: Board = next_board(&self.board_a, self.topology, draws, self.now);
            self.board_b = nb;
            self.iboard = 1;
        } else {
            let nb: Board = next_board(&self.board_b, self.topology, draws, self.now);
            self.board_a = nb;
            self.iboard = 0;
        }
        proof {
            assert forall|x: int, y: int, z: int| self.cur().in_bounds(x, y, z) implies
                #[trigger] self.cur().cell_at(x, y, z).birth_day <= self.now by {
                assert(self.cur().cell_at(x, y, z)
                    == next_cell(old(self).cur(), x, y, z, old(self).topology,
                        draws@[old(self).cur().idx(x, y, z)], self.now));
            }
        }
    }

    /// Advances one generation, drawing sparks by the configured policy:
    /// with sparks off no cell is forced; with a one-in-one chance every
    /// cell is forced alive.
    pub fn tick(&mut self)
        requires
            old(self).wf(),
            old(self).now < u64::MAX,
        ensures
            final(self).wf(),
            exists|draws: Seq<bool>|
                {
                    &&& #[trigger] tick_step(*old(self), *final(self), draws)
                    &&& (old(self).spark == Spark::Off ==> forall|i: int|
                        0 <= i < draws.len() ==> !draws[i])
                    &&& (old(self).spark == Spark::OneIn(1u32) ==> forall|i: int|
                        0 <= i < draws.len() ==> draws[i])
                },
            old(self).spark == Spark::OneIn(1u32) ==> forall|x: int, y: int, z: int|
                final(self).cur().in_bounds(x, y, z) ==> #[trigger] final(self).cur().live_at(x, y, z),
    {
        let n: usize = self.get_now_board().cells.len();
        let draws: Vec<bool> = self.spark_draws(n);
        self.tick_with_draws(&draws);
        proof {
            assert(tick_step(*old(self), *self, draws@));
            if old(self).spark == Spark::OneIn(1u32) {
                assert forall|x: int, y: int, z: int| self.cur().in_bounds(x, y, z) implies
                    #[trigger] self.cur().live_at(x, y, z) by {
                    lemma_idx_bounds(old(self).cur(), x, y, z);
                    assert(self.cur().cell_at(x, y, z) == next_cell(
                        old(self).cur(), x, y, z, old(self).topology,
                        draws@[old(self).cur().idx(x, y, z)], self.now));
                }
            }
        }
    }

    /// Draws one spark decision per cell by the configured policy; only the
    /// generator state changes.
    fn spark_draws(&mut self, n: usize) -> (draws: Vec<bool>)
        requires
            spark_wf(old(self).spark),
        ensures
            final(self).board_a == old(self).board_a,
            final(self).board_b == old(self).board_b,
            final(self).iboard == old(self).iboard,
            final(self).now == old(self).now,
            final(self).topology == old(self).topology,
            final(self).spark == old(self).spark,
            draws@.len() == n,
            old(self).spark == Spark::Off ==> forall|i: int| 0 <= i < n ==> !draws@[i],
            old(self).spark == Spark::OneIn(1u32) ==> forall|i: int| 0 <= i < n ==> draws@[i],
    {
        let mut draws: Vec<bool> = Vec::new();
        match self.spark {
            Spark::Off => {
                let mut i: usize = 0;
                while i < n
                    invariant
                        i <= n,
                        draws@.len() == i,
                        forall|j: int| 0 <= j < i ==> !draws@[j],
                    decreases n - i,
                {
                    draws.push(false);
                    i = i + 1;
                }
            }
            Spark::OneIn(denom) => {
                let mut i: usize = 0;
                while i < n
                    invariant
                        denom >= 1,
                        i <= n,
                        draws@.len() == i,
                        denom == 1 ==> forall|j: int| 0 <= j < i ==> draws@[j],
                        self.board_a == old(self).board_a,
                        self.board_b == old(self).board_b,
                        self.iboard == old(self).iboard,
                        self.now == old(self).now,
                        self.topology == old(self).topology,
                        self.spark == old(self).spark,
                    decreases n - i,
                {
                    let r: u32 = rng_below(&mut self.rng, denom);
                    draws.push(r == 0);
                    i = i + 1;
                }
            }
        }
        draws
    }
}

/// A store of `n` cells, each independently drawn alive with probability one
/// half, all born at genesis.
fn random_cells(rng: &mut fastrand::Rng, n: usize) -> (cells: Vec<Cell>)
    ensures
        cells@.len() == n,
        forall|i: int| 0 <= i < n ==> #[trigger] cells@[i].birth_day == 0,
{
    let mut cells: Vec<Cell> = Vec::new();
    let mut i: usize = 0;
    while i < n
        invariant
            i <= n,
            cells@.len() == i,
            forall|j: int| 0 <= j < i ==> #[trigger] cells@[j].birth_day == 0,
        decreases n - i,
    {
        let alive: bool = rng_coin(rng);
        cells.push(Cell {
            live: if alive {
                Live::Alive
            } else {
                Live::Dead
            },
            birth_day: 0,
        });
        i = i + 1;
    }
    cells
}

} // verus!
