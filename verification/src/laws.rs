//! Laws of the engine, stated and proved once and for all: stability of the
//! 2×2 block, the blinker's two-generation oscillation, monotonicity of the
//! generation counter, forced revival under a certain spark, and determinism
//! of a generation step in the grid and the draws.

use vstd::prelude::*;
use vstd::arithmetic::div_mod::lemma_fundamental_div_mod_converse_mod;

use crate::board::Axes;
use crate::board::Board;
use crate::board::Topology;
use crate::board::lemma_idx_bounds;
use crate::board::lemma_wrap1_val;
use crate::board::n_offsets;
use crate::board::offset;
use crate::board::wrap1;
use crate::universe::Universe;
use crate::universe::board_steps;
use crate::universe::births_bounded;
use crate::universe::next_cell;
use crate::universe::tick_step;

verus! {

/// Every spark draw withheld: the pure neighbor rule.
pub open spec fn all_false(draws: Seq<bool>) -> bool {
    forall|i: int| 0 <= i < draws.len() ==> !draws[i]
}

/// Membership of coordinate `p` in the window of `l` consecutive cells
/// starting at `b`, on a ring of `m` cells.
pub open spec fn in_win(p: int, b: int, l: int, m: int) -> bool {
    (p - b) % m < l
}

/// A 2D wrap grid whose live cells are exactly an `lx` × `ly` rectangle
/// anchored at `(bx, by)`, toroidally wrapped, on a grid wide enough that
/// the rectangle does not touch its own neighborhood around the seam.
pub open spec fn window_config(g: Board, bx: int, by: int, lx: int, ly: int) -> bool {
    &&& g.axes == Axes::Two
    &&& 1 <= lx && lx + 2 <= g.width
    &&& 1 <= ly && ly + 2 <= g.height
    &&& 0 <= bx < g.width
    &&& 0 <= by < g.height
    &&& forall|x: int, y: int| g.in_bounds(x, y, 0) ==>
            (#[trigger] g.live_at(x, y, 0) <==> in_win(x, bx, lx, g.width as int)
                && in_win(y, by, ly, g.height as int))
}

/// How many of the three displacements -1, 0, +1 move a coordinate at window
/// offset `e` into a window of length `l` on a ring of `m` cells.
pub open spec fn axis_hits(e: int, l: int, m: int) -> int {
    (if e < l { 1int } else { 0int })
    + (if e == m - 1 || e + 1 < l { 1int } else { 0int })
    + (if 1 <= e && e - 1 < l { 1int } else { 0int })
}

/// The Euclidean remainder of a value within one ring of zero.
proof fn lemma_mod_small_range(a: int, m: int)
    requires
        m >= 1,
        -m <= a < m,
    ensures
        a % m == if a < 0 { a + m } else { a },
        0 <= a % m < m,
{
    if a < 0 {
        lemma_fundamental_div_mod_converse_mod(a, m, -1, a + m);
    } else {
        lemma_fundamental_div_mod_converse_mod(a, m, 0, a);
    }
}

/// Whether a single wrapped step lands inside a window, written over the
/// window offset `(p - b) % m` of the starting coordinate.
proof fn lemma_wrap_hit(p: int, d: int, b: int, l: int, m: int)
    requires
        0 <= p < m,
        0 <= b < m,
        -1 <= d <= 1,
        1 <= l,
        l + 2 <= m,
    ensures
        0 <= wrap1(p, d, m) < m,
        in_win(wrap1(p, d, m), b, l, m) <==> (
            if d == 0 {
                (p - b) % m < l
            } else if d == 1 {
                (p - b) % m == m - 1 || (p - b) % m + 1 < l
            } else {
                1 <= (p - b) % m && (p - b) % m - 1 < l
            }
        ),
{
    lemma_mod_small_range(p - b, m);
    lemma_wrap1_val(p, d, m);
    let q = wrap1(p, d, m);
    lemma_mod_small_range(q - b, m);
}

/// The live-neighbor count of any cell of a window configuration is the
/// product of the per-axis hit counts, less one for the cell itself when it
/// belongs to the window.
#[verifier::rlimit(30)]
proof fn lemma_window_count(g: Board, bx: int, by: int, lx: int, ly: int, x: int, y: int)
    requires
        g.wf(),
        window_config(g, bx, by, lx, ly),
        g.in_bounds(x, y, 0),
    ensures
        g.neighbor_count(x, y, 0, Topology::Wrap)
            == axis_hits((x - bx) % (g.width as int), lx, g.width as int)
                * axis_hits((y - by) % (g.height as int), ly, g.height as int)
                - (if in_win(x, bx, lx, g.width as int) && in_win(y, by, ly, g.height as int) {
                    1int
                } else {
                    0int
                }),
{
    let w = g.width as int;
    let h = g.height as int;
    let ex = (x - bx) % w;
    let ey = (y - by) % h;
    lemma_mod_small_range(x - bx, w);
    lemma_mod_small_range(y - by, h);
    assert(wrap1(0, 0, 1) == 0) by {
        lemma_mod_small_range(0, 1);
    }
    let u1 = if ex < lx { 1int } else { 0int };
    let u2 = if ex == w - 1 || ex + 1 < lx { 1int } else { 0int };
    let u3 = if 1 <= ex && ex - 1 < lx { 1int } else { 0int };
    let v1 = if ey < ly { 1int } else { 0int };
    let v2 = if ey == h - 1 || ey + 1 < ly { 1int } else { 0int };
    let v3 = if 1 <= ey && ey - 1 < ly { 1int } else { 0int };
    assert forall|dx: int, dy: int| -1 <= dx <= 1 && -1 <= dy <= 1 implies
        ((if #[trigger] g.neighbor_live(x, y, 0, (dx, dy, 0), Topology::Wrap) { 1int } else { 0int })
            == (if dx == 0 { u1 } else if dx == 1 { u2 } else { u3 })
                * (if dy == 0 { v1 } else if dy == 1 { v2 } else { v3 })) by {
        lemma_wrap_hit(x, dx, bx, lx, w);
        lemma_wrap_hit(y, dy, by, ly, h);
        assert(g.in_bounds(wrap1(x, dx, w), wrap1(y, dy, h), 0));
        assert(g.live_at(wrap1(x, dx, w), wrap1(y, dy, h), 0)
            <==> (in_win(wrap1(x, dx, w), bx, lx, w) && in_win(wrap1(y, dy, h), by, ly, h)));
    }
    assert(g.neighbor_count(x, y, 0, Topology::Wrap)
        == (if g.neighbor_live(x, y, 0, (-1, -1, 0), Topology::Wrap) { 1int } else { 0int })
            + (if g.neighbor_live(x, y, 0, (-1, 0, 0), Topology::Wrap) { 1int } else { 0int })
            + (if g.neighbor_live(x, y, 0, (-1, 1, 0), Topology::Wrap) { 1int } else { 0int })
            + (if g.neighbor_live(x, y, 0, (0, -1, 0), Topology::Wrap) { 1int } else { 0int })
            + (if g.neighbor_live(x, y, 0, (0, 1, 0), Topology::Wrap) { 1int } else { 0int })
            + (if g.neighbor_live(x, y, 0, (1, -1, 0), Topology::Wrap) { 1int } else { 0int })
            + (if g.neighbor_live(x, y, 0, (1, 0, 0), Topology::Wrap) { 1int } else { 0int })
            + (if g.neighbor_live(x, y, 0, (1, 1, 0), Topology::Wrap) { 1int } else { 0int })) by {
        reveal_with_fuel(Board::count_to, 9);
    }
    assert(g.neighbor_count(x, y, 0, Topology::Wrap)
        == u3 * v3 + u3 * v1 + u3 * v2 + u1 * v3 + u1 * v2 + u2 * v3 + u2 * v1 + u2 * v2);
    assert((u1 + u2 + u3) * (v1 + v2 + v3)
        == u1 * v1 + u1 * v2 + u1 * v3 + u2 * v1 + u2 * v2 + u2 * v3 + u3 * v1 + u3 * v2
            + u3 * v3) by (nonlinear_arith);
    assert(axis_hits(ex, lx, w) == u1 + u2 + u3);
    assert(axis_hits(ey, ly, h) == v1 + v2 + v3);
    assert((if in_win(x, bx, lx, w) && in_win(y, by, ly, h) { 1int } else { 0int }) == u1 * v1);
}

/// The per-axis hit count of a window of length 2 on a ring of at least 4.
proof fn lemma_axis_hits_win2(e: int, m: int)
    requires
        m >= 4,
        0 <= e < m,
    ensures
        axis_hits(e, 2, m) == if e < 2 {
            2int
        } else if e == 2 || e == m - 1 {
            1int
        } else {
            0int
        },
{
}

/// Still life: a 2×2 all-alive block on an otherwise dead wrap grid of
/// extents at least 4×4 is unchanged by a generation step with sparks
/// withheld — each member cell has exactly three live neighbors, each
/// outside cell at most two.
#[verifier::rlimit(30)]
pub proof fn lemma_block_still_life(
    prev: Board,
    nxt: Board,
    draws: Seq<bool>,
    now: u64,
    bx: int,
    by: int,
)
    requires
        prev.wf(),
        window_config(prev, bx, by, 2, 2),
        all_false(draws),
        board_steps(prev, nxt, Topology::Wrap, draws, now),
    ensures
        window_config(nxt, bx, by, 2, 2),
        forall|x: int, y: int| prev.in_bounds(x, y, 0) ==>
            (#[trigger] nxt.live_at(x, y, 0) <==> prev.live_at(x, y, 0)),
        forall|x: int, y: int| prev.in_bounds(x, y, 0) && prev.live_at(x, y, 0) ==>
            #[trigger] nxt.cell_at(x, y, 0).birth_day == prev.cell_at(x, y, 0).birth_day,
{
    let w = prev.width as int;
    let h = prev.height as int;
    assert forall|x: int, y: int| prev.in_bounds(x, y, 0) implies
        (#[trigger] nxt.live_at(x, y, 0) <==> (in_win(x, bx, 2, w) && in_win(y, by, 2, h))) by {
        lemma_idx_bounds(prev, x, y, 0);
        assert(nxt.cell_at(x, y, 0) == next_cell(
            prev, x, y, 0, Topology::Wrap, draws[prev.idx(x, y, 0)], now));
        lemma_window_count(prev, bx, by, 2, 2, x, y);
        lemma_mod_small_range(x - bx, w);
        lemma_mod_small_range(y - by, h);
        let ex = (x - bx) % w;
        let ey = (y - by) % h;
        lemma_axis_hits_win2(ex, w);
        lemma_axis_hits_win2(ey, h);
        if ex < 2 && ey < 2 {
            assert(prev.neighbor_count(x, y, 0, Topology::Wrap) == 3);
        } else {
            let ax = axis_hits(ex, 2, w);
            let ay = axis_hits(ey, 2, h);
            assert(0 <= ax <= 2 && 0 <= ay <= 2 && (ax <= 1 || ay <= 1));
            assert(ax * ay <= 2) by (nonlinear_arith)
                requires
                    0 <= ax <= 2,
                    0 <= ay <= 2,
                    ax <= 1 || ay <= 1,
            ;
            assert(prev.neighbor_count(x, y, 0, Topology::Wrap) <= 2);
            assert(!prev.live_at(x, y, 0));
        }
    }
    assert forall|x: int, y: int| prev.in_bounds(x, y, 0) && prev.live_at(x, y, 0) implies
        #[trigger] nxt.cell_at(x, y, 0).birth_day == prev.cell_at(x, y, 0).birth_day by {
        lemma_idx_bounds(prev, x, y, 0);
        assert(nxt.cell_at(x, y, 0) == next_cell(
            prev, x, y, 0, Topology::Wrap, draws[prev.idx(x, y, 0)], now));
        lemma_window_count(prev, bx, by, 2, 2, x, y);
        lemma_mod_small_range(x - bx, w);
        lemma_mod_small_range(y - by, h);
        lemma_axis_hits_win2((x - bx) % w, w);
        lemma_axis_hits_win2((y - by) % h, h);
    }
}

/// The per-axis hit count of a window of length 3 on a ring of at least 5.
proof fn lemma_axis_hits_win3(e: int, m: int)
    requires
        m >= 5,
        0 <= e < m,
    ensures
        axis_hits(e, 3, m) == if e == 1 {
            3int
        } else if e == 0 || e == 2 {
            2int
        } else if e == 3 || e == m - 1 {
            1int
        } else {
            0int
        },
{
}

/// The per-axis hit count of a window of length 1 on a ring of at least 3.
proof fn lemma_axis_hits_win1(e: int, m: int)
    requires
        m >= 3,
        0 <= e < m,
    ensures
        axis_hits(e, 1, m) == if e == 0 || e == 1 || e == m - 1 {
            1int
        } else {
            0int
        },
{
}

/// One sparkless generation step turns a horizontal three-cell blinker into
/// a vertical one, centered on the same middle cell.
#[verifier::rlimit(30)]
pub proof fn lemma_blinker_step_horizontal(
    prev: Board,
    nxt: Board,
    draws: Seq<bool>,
    now: u64,
    bx: int,
    by: int,
)
    requires
        prev.wf(),
        window_config(prev, bx, by, 3, 1),
        prev.height >= 5,
        all_false(draws),
        board_steps(prev, nxt, Topology::Wrap, draws, now),
    ensures
        window_config(nxt, wrap1(bx, 1, prev.width as int), wrap1(by, -1, prev.height as int),
            1, 3),
{
    let w = prev.width as int;
    let h = prev.height as int;
    let bx2 = wrap1(bx, 1, w);
    let by2 = wrap1(by, -1, h);
    lemma_wrap1_val(bx, 1, w);
    lemma_wrap1_val(by, -1, h);
    assert forall|x: int, y: int| nxt.in_bounds(x, y, 0) implies
        (#[trigger] nxt.live_at(x, y, 0) <==> (in_win(x, bx2, 1, w) && in_win(y, by2, 3, h))) by {
        lemma_idx_bounds(prev, x, y, 0);
        assert(nxt.cell_at(x, y, 0) == next_cell(
            prev, x, y, 0, Topology::Wrap, draws[prev.idx(x, y, 0)], now));
        lemma_window_count(prev, bx, by, 3, 1, x, y);
        lemma_mod_small_range(x - bx, w);
        lemma_mod_small_range(y - by, h);
        lemma_mod_small_range(x - bx2, w);
        lemma_mod_small_range(y - by2, h);
        let ex = (x - bx) % w;
        let ey = (y - by) % h;
        lemma_axis_hits_win3(ex, w);
        lemma_axis_hits_win1(ey, h);
        let ax = axis_hits(ex, 3, w);
        let ay = axis_hits(ey, 1, h);
        assert(0 <= ax <= 3 && 0 <= ay <= 1);
        assert(ax * ay == if ay == 1 { ax } else { 0int }) by (nonlinear_arith)
            requires
                0 <= ax <= 3,
                0 <= ay <= 1,
        ;
        assert(prev.neighbor_count(x, y, 0, Topology::Wrap)
            == ax * ay - (if ex < 3 && ey < 1 { 1int } else { 0int }));
        // The shifted anchor moves each window offset by one along its axis.
        assert((x - bx2) % w == if ex >= 1 { ex - 1 } else { w - 1 });
        assert((y - by2) % h == if ey == h - 1 { 0int } else { ey + 1 });
    }
}

/// One sparkless generation step turns a vertical three-cell blinker back
/// into a horizontal one, centered on the same middle cell.
#[verifier::rlimit(30)]
pub proof fn lemma_blinker_step_vertical(
    prev: Board,
    nxt: Board,
    draws: Seq<bool>,
    now: u64,
    bx: int,
    by: int,
)
    requires
        prev.wf(),
        window_config(prev, bx, by, 1, 3),
        prev.width >= 5,
        all_false(draws),
        board_steps(prev, nxt, Topology::Wrap, draws, now),
    ensures
        window_config(nxt, wrap1(bx, -1, prev.width as int), wrap1(by, 1, prev.height as int),
            3, 1),
{
    let w = prev.width as int;
    let h = prev.height as int;
    let bx2 = wrap1(bx, -1, w);
    let by2 = wrap1(by, 1, h);
    lemma_wrap1_val(bx, -1, w);
    lemma_wrap1_val(by, 1, h);
    assert forall|x: int, y: int| nxt.in_bounds(x, y, 0) implies
        (#[trigger] nxt.live_at(x, y, 0) <==> (in_win(x, bx2, 3, w) && in_win(y, by2, 1, h))) by {
        lemma_idx_bounds(prev, x, y, 0);
        assert(nxt.cell_at(x, y, 0) == next_cell(
            prev, x, y, 0, Topology::Wrap, draws[prev.idx(x, y, 0)], now));
        lemma_window_count(prev, bx, by, 1, 3, x, y);
        lemma_mod_small_range(x - bx, w);
        lemma_mod_small_range(y - by, h);
        lemma_mod_small_range(x - bx2, w);
        lemma_mod_small_range(y - by2, h);
        let ex = (x - bx) % w;
        let ey = (y - by) % h;
        lemma_axis_hits_win1(ex, w);
        lemma_axis_hits_win3(ey, h);
        let ax = axis_hits(ex, 1, w);
        let ay = axis_hits(ey, 3, h);
        assert(0 <= ax <= 1 && 0 <= ay <= 3);
        assert(ax * ay == if ax == 1 { ay } else { 0int }) by (nonlinear_arith)
            requires
                0 <= ax <= 1,
                0 <= ay <= 3,
        ;
        assert(prev.neighbor_count(x, y, 0, Topology::Wrap)
            == ax * ay - (if ex < 1 && ey < 3 { 1int } else { 0int }));
        // The shifted anchor moves each window offset by one along its axis.
        assert((x - bx2) % w == if ex == w - 1 { 0int } else { ex + 1 });
        assert((y - by2) % h == if ey >= 1 { ey - 1 } else { h - 1 });
    }
}

/// A generation step leaves a board well-formed.
pub proof fn lemma_board_steps_wf(prev: Board, nxt: Board, topology: Topology, draws: Seq<bool>, now: u64)
    requires
        prev.wf(),
        board_steps(prev, nxt, topology, draws, now),
    ensures
        nxt.wf(),
{
}

/// Oscillator: a horizontal three-cell blinker on a wrap grid of extents at
/// least 5×5, with sparks withheld, is vertical after one generation and
/// back to its exact original liveness pattern after two.
pub proof fn lemma_blinker_oscillates(
    b0: Board,
    b1: Board,
    b2: Board,
    d1: Seq<bool>,
    d2: Seq<bool>,
    n1: u64,
    n2: u64,
    bx: int,
    by: int,
)
    requires
        b0.wf(),
        b0.width >= 5,
        b0.height >= 5,
        window_config(b0, bx, by, 3, 1),
        all_false(d1),
        all_false(d2),
        board_steps(b0, b1, Topology::Wrap, d1, n1),
        board_steps(b1, b2, Topology::Wrap, d2, n2),
    ensures
        window_config(b1, wrap1(bx, 1, b0.width as int), wrap1(by, -1, b0.height as int), 1, 3),
        forall|x: int, y: int| b0.in_bounds(x, y, 0) ==>
            (#[trigger] b2.live_at(x, y, 0) <==> b0.live_at(x, y, 0)),
{
    let w = b0.width as int;
    let h = b0.height as int;
    lemma_blinker_step_horizontal(b0, b1, d1, n1, bx, by);
    lemma_board_steps_wf(b0, b1, Topology::Wrap, d1, n1);
    lemma_blinker_step_vertical(b1, b2, d2, n2, wrap1(bx, 1, w), wrap1(by, -1, h));
    lemma_wrap1_val(bx, 1, w);
    lemma_wrap1_val(by, -1, h);
    lemma_wrap1_val(wrap1(bx, 1, w), -1, w);
    lemma_wrap1_val(wrap1(by, -1, h), 1, h);
    assert(wrap1(wrap1(bx, 1, w), -1, w) == bx);
    assert(wrap1(wrap1(by, -1, h), 1, h) == by);
}

/// Grids that agree cell by cell report the same liveness for any single
/// displaced neighbor.
proof fn lemma_neighbor_live_congruent(
    a: Board,
    b: Board,
    x: int,
    y: int,
    z: int,
    d: (int, int, int),
    topology: Topology,
)
    requires
        a.wf(),
        b.wf(),
        a.width == b.width,
        a.height == b.height,
        a.depth == b.depth,
        a.axes == b.axes,
        forall|x2: int, y2: int, z2: int| a.in_bounds(x2, y2, z2) ==>
            #[trigger] a.cell_at(x2, y2, z2) == b.cell_at(x2, y2, z2),
        a.in_bounds(x, y, z),
        -1 <= d.0 <= 1,
        -1 <= d.1 <= 1,
        -1 <= d.2 <= 1,
    ensures
        a.neighbor_live(x, y, z, d, topology) == b.neighbor_live(x, y, z, d, topology),
{
    match topology {
        Topology::Wrap => {
            lemma_wrap1_val(x, d.0, a.width as int);
            lemma_wrap1_val(y, d.1, a.height as int);
            lemma_wrap1_val(z, d.2, a.depth as int);
        }
        Topology::Clamp => {
        }
    }
}

/// Every neighbor offset displaces each axis by at most one.
proof fn lemma_offset_small(axes: Axes, k: int)
    requires
        0 <= k < n_offsets(axes),
    ensures
        -1 <= offset(axes, k).0 <= 1,
        -1 <= offset(axes, k).1 <= 1,
        -1 <= offset(axes, k).2 <= 1,
{
}

/// Grids that agree cell by cell report the same live-neighbor counts.
proof fn lemma_count_congruent(
    a: Board,
    b: Board,
    x: int,
    y: int,
    z: int,
    topology: Topology,
    k: int,
)
    requires
        a.wf(),
        b.wf(),
        a.width == b.width,
        a.height == b.height,
        a.depth == b.depth,
        a.axes == b.axes,
        forall|x2: int, y2: int, z2: int| a.in_bounds(x2, y2, z2) ==>
            #[trigger] a.cell_at(x2, y2, z2) == b.cell_at(x2, y2, z2),
        a.in_bounds(x, y, z),
        k <= n_offsets(a.axes),
    ensures
        a.count_to(x, y, z, topology, k) == b.count_to(x, y, z, topology, k),
    decreases k,
{
    if k > 0 {
        lemma_count_congruent(a, b, x, y, z, topology, k - 1);
        lemma_offset_small(a.axes, k - 1);
        lemma_neighbor_live_congruent(a, b, x, y, z, offset(a.axes, k - 1), topology);
    }
}

/// What of two universes a sink can observe: the generation counter, the
/// configuration, and every cell of the current grid.
pub open spec fn obs_eq(u1: Universe, u2: Universe) -> bool {
    &&& u1.now == u2.now
    &&& u1.topology == u2.topology
    &&& u1.spark == u2.spark
    &&& u1.cur().width == u2.cur().width
    &&& u1.cur().height == u2.cur().height
    &&& u1.cur().depth == u2.cur().depth
    &&& u1.cur().axes == u2.cur().axes
    &&& forall|x: int, y: int, z: int| u1.cur().in_bounds(x, y, z) ==>
            #[trigger] u1.cur().cell_at(x, y, z) == u2.cur().cell_at(x, y, z)
}

/// Determinism: two observably equal universes fed the same spark draws are
/// observably equal after one generation step.
pub proof fn lemma_determinism(
    u1: Universe,
    u2: Universe,
    v1: Universe,
    v2: Universe,
    draws: Seq<bool>,
)
    requires
        u1.wf(),
        u2.wf(),
        obs_eq(u1, u2),
        tick_step(u1, v1, draws),
        tick_step(u2, v2, draws),
    ensures
        obs_eq(v1, v2),
{
    assert forall|x: int, y: int, z: int| v1.cur().in_bounds(x, y, z) implies
        #[trigger] v1.cur().cell_at(x, y, z) == v2.cur().cell_at(x, y, z) by {
        assert(v1.cur().cell_at(x, y, z) == next_cell(
            u1.cur(), x, y, z, u1.topology, draws[u1.cur().idx(x, y, z)], v1.now));
        assert(v2.cur().cell_at(x, y, z) == next_cell(
            u2.cur(), x, y, z, u2.topology, draws[u2.cur().idx(x, y, z)], v2.now));
        lemma_count_congruent(
            u1.cur(), u2.cur(), x, y, z, u1.topology, n_offsets(u1.cur().axes));
    }
}

/// Determinism along whole runs: two observably equal universes fed the same
/// spark draws tick for tick stay observably equal forever.
pub proof fn lemma_determinism_trace(t1: Seq<Universe>, t2: Seq<Universe>, draws: Seq<Seq<bool>>)
    requires
        t1.len() == t2.len(),
        t1.len() >= 1,
        t1[0].wf(),
        t2[0].wf(),
        obs_eq(t1[0], t2[0]),
        draws.len() == t1.len() - 1,
        forall|i: int| 0 <= i < t1.len() - 1 ==> #[trigger] tick_step(t1[i], t1[i + 1], draws[i]),
        forall|i: int| 0 <= i < t2.len() - 1 ==> #[trigger] tick_step(t2[i], t2[i + 1], draws[i]),
    ensures
        forall|k: int| 0 <= k < t1.len() ==> #[trigger] obs_eq(t1[k], t2[k]),
{
    assert forall|k: int| 0 <= k < t1.len() implies #[trigger] obs_eq(t1[k], t2[k]) by {
        lemma_determinism_prefix(t1, t2, draws, k);
    }
}

/// Along two tick traces driven by the same draws, the `k`-th universes are
/// well-formed and observably equal.
proof fn lemma_determinism_prefix(
    t1: Seq<Universe>,
    t2: Seq<Universe>,
    draws: Seq<Seq<bool>>,
    k: int,
)
    requires
        t1.len() == t2.len(),
        t1.len() >= 1,
        t1[0].wf(),
        t2[0].wf(),
        obs_eq(t1[0], t2[0]),
        draws.len() == t1.len() - 1,
        forall|i: int| 0 <= i < t1.len() - 1 ==> #[trigger] tick_step(t1[i], t1[i + 1], draws[i]),
        forall|i: int| 0 <= i < t2.len() - 1 ==> #[trigger] tick_step(t2[i], t2[i + 1], draws[i]),
        0 <= k < t1.len(),
    ensures
        t1[k].wf(),
        t2[k].wf(),
        obs_eq(t1[k], t2[k]),
    decreases k,
{
    if k > 0 {
        lemma_determinism_prefix(t1, t2, draws, k - 1);
        assert(tick_step(t1[k - 1], t1[k - 1 + 1], draws[k - 1]));
        assert(tick_step(t2[k - 1], t2[k - 1 + 1], draws[k - 1]));
        lemma_tick_step_wf(t1[k - 1], t1[k], draws[k - 1]);
        lemma_tick_step_wf(t2[k - 1], t2[k], draws[k - 1]);
        lemma_determinism(t1[k - 1], t2[k - 1], t1[k], t2[k], draws[k - 1]);
    }
}

/// A tick from a well-formed universe yields a well-formed universe.
pub proof fn lemma_tick_step_wf(pre: Universe, post: Universe, draws: Seq<bool>)
    requires
        pre.wf(),
        tick_step(pre, post, draws),
    ensures
        post.wf(),
{
    assert(post.board_a.wf() && post.board_b.wf()) by {
        lemma_board_steps_wf(pre.cur(), post.cur(), pre.topology, draws, post.now);
    }
    assert(births_bounded(post.cur(), post.now)) by {
        assert forall|x: int, y: int, z: int| post.cur().in_bounds(x, y, z) implies
            #[trigger] post.cur().cell_at(x, y, z).birth_day <= post.now by {
            assert(post.cur().cell_at(x, y, z) == next_cell(
                pre.cur(), x, y, z, pre.topology, draws[pre.cur().idx(x, y, z)], post.now));
        }
    }
}

/// Generation counter monotonicity along a trace: starting from a fresh
/// universe, after `k` ticks the counter reads exactly `k` and no cell was
/// born after generation `k`.
pub proof fn lemma_generation_counter(trace: Seq<Universe>, draws: Seq<Seq<bool>>)
    requires
        trace.len() >= 1,
        trace[0].wf(),
        trace[0].now == 0,
        draws.len() == trace.len() - 1,
        forall|i: int| 0 <= i < trace.len() - 1 ==>
            #[trigger] tick_step(trace[i], trace[i + 1], draws[i]),
    ensures
        forall|k: int| 0 <= k < trace.len() ==> #[trigger] trace[k].now == k,
        forall|k: int, x: int, y: int, z: int|
            0 <= k < trace.len() && trace[k].cur().in_bounds(x, y, z) ==>
                #[trigger] trace[k].cur().cell_at(x, y, z).birth_day <= k,
{
    assert forall|k: int| 0 <= k < trace.len() implies
        #[trigger] trace[k].now == k && trace[k].wf() by {
        lemma_trace_prefix(trace, draws, k);
    }
    assert forall|k: int, x: int, y: int, z: int|
        0 <= k < trace.len() && trace[k].cur().in_bounds(x, y, z) implies
            #[trigger] trace[k].cur().cell_at(x, y, z).birth_day <= k by {
        lemma_trace_prefix(trace, draws, k);
    }
}

/// Along a tick trace, the `k`-th universe is well-formed and has counted
/// exactly `k` generations.
proof fn lemma_trace_prefix(trace: Seq<Universe>, draws: Seq<Seq<bool>>, k: int)
    requires
        trace.len() >= 1,
        trace[0].wf(),
        trace[0].now == 0,
        draws.len() == trace.len() - 1,
        forall|i: int| 0 <= i < trace.len() - 1 ==>
            #[trigger] tick_step(trace[i], trace[i + 1], draws[i]),
        0 <= k < trace.len(),
    ensures
        trace[k].wf(),
        trace[k].now == k,
    decreases k,
{
    if k > 0 {
        lemma_trace_prefix(trace, draws, k - 1);
        lemma_tick_step_wf(trace[k - 1], trace[k], draws[k - 1]);
    }
}

/// Spark behavior: when every cell's spark draw fires, every cell of the
/// next generation is alive, whatever the previous grid held.
pub proof fn lemma_forced_spark(pre: Universe, post: Universe, draws: Seq<bool>)
    requires
        pre.wf(),
        tick_step(pre, post, draws),
        forall|i: int| 0 <= i < draws.len() ==> draws[i],
    ensures
        forall|x: int, y: int, z: int| post.cur().in_bounds(x, y, z) ==>
            #[trigger] post.cur().live_at(x, y, z),
{
    assert forall|x: int, y: int, z: int| post.cur().in_bounds(x, y, z) implies
        #[trigger] post.cur().live_at(x, y, z) by {
        lemma_idx_bounds(pre.cur(), x, y, z);
        assert(post.cur().cell_at(x, y, z) == next_cell(
            pre.cur(), x, y, z, pre.topology, draws[pre.cur().idx(x, y, z)], post.now));
    }
}

} // verus!
