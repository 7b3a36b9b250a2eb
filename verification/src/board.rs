//! A dense, fixed-size 2D or 3D grid of cells with neighbor counting over the
//! Moore neighborhood, under either a wrapping (toroidal) or a clamped
//! (bounded) boundary policy.

use vstd::prelude::*;
use vstd::arithmetic::div_mod::lemma_fundamental_div_mod_converse_mod;

use crate::cell::Cell;
use crate::cell::Live;

verus! {

/// Boundary policy for neighbor lookup: `Wrap` folds out-of-range coordinates
/// back modulo each extent (a torus); `Clamp` skips out-of-range neighbors
/// (edge cells simply have fewer neighbors).
#[derive(Clone, Copy, PartialEq, Eq, Structural, Debug)]
pub enum Topology {
    Wrap,
    Clamp,
}

/// Dimensionality of a grid: a 2D grid uses the 8-cell Moore neighborhood,
/// a 3D grid the 26-cell one.
#[derive(Clone, Copy, PartialEq, Eq, Structural, Debug)]
pub enum Axes {
    Two,
    Three,
}

/// A dense `width` × `height` (× `depth`) array of cells, stored row-major:
/// the cell at `(x, y, z)` lives at flat index `(z * height + y) * width + x`.
/// A 2D grid is a 3D grid of depth 1 that counts neighbors over the 8-cell
/// neighborhood only.
pub struct Board {
    pub cells: Vec<Cell>,
    pub width: usize,
    pub height: usize,
    pub depth: usize,
    pub axes: Axes,
}

/// A coordinate shifted by an offset and wrapped back into `[0, extent)`,
/// using Euclidean remainder.
pub open spec fn wrap1(p: int, d: int, extent: int) -> int {
    (p + d) % extent
}

/// Number of neighbor offsets for each dimensionality.
pub open spec fn n_offsets(axes: Axes) -> int {
    match axes {
        Axes::Two => 8,
        Axes::Three => 26,
    }
}

/// The `k`-th offset of the 2D Moore neighborhood.
pub open spec fn offset2(k: int) -> (int, int, int) {
    if k == 0 { (-1, -1, 0) }
    else if k == 1 { (-1, 0, 0) }
    else if k == 2 { (-1, 1, 0) }
    else if k == 3 { (0, -1, 0) }
    else if k == 4 { (0, 1, 0) }
    else if k == 5 { (1, -1, 0) }
    else if k == 6 { (1, 0, 0) }
    else { (1, 1, 0) }
}

/// The `k`-th offset of the 3D Moore neighborhood: the layer above, the same
/// layer, then the layer below.
pub open spec fn offset3(k: int) -> (int, int, int) {
    if k == 0 { (0, 0, 1) }
    else if k == 1 { (0, 1, 1) }
    else if k == 2 { (0, -1, 1) }
    else if k == 3 { (1, 0, 1) }
    else if k == 4 { (-1, 0, 1) }
    else if k == 5 { (1, 1, 1) }
    else if k == 6 { (1, -1, 1) }
    else if k == 7 { (-1, -1, 1) }
    else if k == 8 { (-1, 1, 1) }
    else if k == 9 { (0, 1, 0) }
    else if k == 10 { (0, -1, 0) }
    else if k == 11 { (1, 0, 0) }
    else if k == 12 { (-1, 0, 0) }
    else if k == 13 { (1, 1, 0) }
    else if k == 14 { (1, -1, 0) }
    else if k == 15 { (-1, 1, 0) }
    else if k == 16 { (-1, -1, 0) }
    else if k == 17 { (0, 0, -1) }
    else if k == 18 { (0, 1, -1) }
    else if k == 19 { (0, -1, -1) }
    else if k == 20 { (1, 0, -1) }
    else if k == 21 { (-1, 0, -1) }
    else if k == 22 { (1, 1, -1) }
    else if k == 23 { (1, -1, -1) }
    else if k == 24 { (-1, 1, -1) }
    else { (-1, -1, -1) }
}

/// The `k`-th neighbor offset for the given dimensionality.
pub open spec fn offset(axes: Axes, k: int) -> (int, int, int) {
    match axes {
        Axes::Two => offset2(k),
        Axes::Three => offset3(k),
    }
}

impl Board {
    /// Cells in the grid.
    pub open spec fn volume(self) -> int {
        self.width * self.height * self.depth
    }

    /// Flat index of coordinate `(x, y, z)`.
    pub open spec fn idx(self, x: int, y: int, z: int) -> int {
        (z * self.height + y) * self.width + x
    }

    /// Whether `(x, y, z)` is a coordinate of this grid.
    pub open spec fn in_bounds(self, x: int, y: int, z: int) -> bool {
        0 <= x < self.width && 0 <= y < self.height && 0 <= z < self.depth
    }

    /// The cell at `(x, y, z)`.
    pub open spec fn cell_at(self, x: int, y: int, z: int) -> Cell {
        self.cells@[self.idx(x, y, z)]
    }

    /// Whether the cell at `(x, y, z)` is alive.
    pub open spec fn live_at(self, x: int, y: int, z: int) -> bool {
        self.cell_at(x, y, z).live == Live::Alive
    }

    /// Well-formedness: positive extents, depth 1 for a 2D grid, and a cell
    /// store of exactly `volume` cells.
    pub open spec fn wf(self) -> bool {
        &&& self.width >= 1
        &&& self.height >= 1
        &&& self.depth >= 1
        &&& (self.axes == Axes::Two ==> self.depth == 1)
        &&& self.cells@.len() == self.volume()
    }

    /// Whether the neighbor of `(x, y, z)` displaced by `d` is alive, under
    /// the given boundary policy. Under `Clamp`, an offset that leaves the
    /// grid on any axis contributes nothing.
    pub open spec fn neighbor_live(
        self,
        x: int,
        y: int,
        z: int,
        d: (int, int, int),
        topology: Topology,
    ) -> bool {
        match topology {
            Topology::Wrap => self.live_at(
                wrap1(x, d.0, self.width as int),
                wrap1(y, d.1, self.height as int),
                wrap1(z, d.2, self.depth as int),
            ),
            Topology::Clamp => self.in_bounds(x + d.0, y + d.1, z + d.2)
                && self.live_at(x + d.0, y + d.1, z + d.2),
        }
    }

    /// Live neighbors of `(x, y, z)` among the first `k` offsets.
    pub open spec fn count_to(
        self,
        x: int,
        y: int,
        z: int,
        topology: Topology,
        k: int,
    ) -> nat
        decreases k,
    {
        if k <= 0 {
            0
        } else {
            self.count_to(x, y, z, topology, k - 1)
                + if self.neighbor_live(x, y, z, offset(self.axes, k - 1), topology) {
                    1nat
                } else {
                    0nat
                }
        }
    }

    /// Live neighbors of `(x, y, z)` over the full Moore neighborhood of the
    /// grid's dimensionality.
    pub open spec fn neighbor_count(self, x: int, y: int, z: int, topology: Topology) -> nat {
        self.count_to(x, y, z, topology, n_offsets(self.axes))
    }
}

/// The flat index of an in-bounds coordinate lies inside the cell store.
pub proof fn lemma_idx_bounds(b: Board, x: int, y: int, z: int)
    requires
        b.in_bounds(x, y, z),
    ensures
        0 <= b.idx(x, y, z) < b.volume(),
{
    assert(0 <= (z * b.height + y) * b.width + x < b.width * b.height * b.depth) by (nonlinear_arith)
        requires
            0 <= x < b.width,
            0 <= y < b.height,
            0 <= z < b.depth,
    ;
}

/// Distinct in-bounds coordinates have distinct flat indices.
pub proof fn lemma_idx_injective(b: Board, x1: int, y1: int, z1: int, x2: int, y2: int, z2: int)
    requires
        b.in_bounds(x1, y1, z1),
        b.in_bounds(x2, y2, z2),
        b.idx(x1, y1, z1) == b.idx(x2, y2, z2),
    ensures
        x1 == x2 && y1 == y2 && z1 == z2,
{
    assert(x1 == x2 && y1 == y2 && z1 == z2) by (nonlinear_arith)
        requires
            0 <= x1 < b.width,
            0 <= y1 < b.height,
            0 <= z1 < b.depth,
            0 <= x2 < b.width,
            0 <= y2 < b.height,
            0 <= z2 < b.depth,
            (z1 * b.height + y1) * b.width + x1 == (z2 * b.height + y2) * b.width + x2,
    ;
}

/// Closed form of a wrapped step: adding an offset of at most one either
/// stays inside `[0, extent)` or folds over by exactly one extent.
pub proof fn lemma_wrap1_val(p: int, d: int, m: int)
    requires
        m >= 1,
        0 <= p < m,
        -1 <= d <= 1,
    ensures
        wrap1(p, d, m) == (
            if p + d < 0 { p + d + m } else if p + d >= m { p + d - m } else { p + d }
        ),
        0 <= wrap1(p, d, m) < m,
{
    if p + d < 0 {
        lemma_fundamental_div_mod_converse_mod(p + d, m, -1, p + d + m);
    } else if p + d >= m {
        lemma_fundamental_div_mod_converse_mod(p + d, m, 1, p + d - m);
    } else {
        lemma_fundamental_div_mod_converse_mod(p + d, m, 0, p + d);
    }
}

impl Board {
    /// Flat index of an in-bounds coordinate, as an executable value.
    fn cell_idx(&self, x: usize, y: usize, z: usize) -> (i: usize)
        requires
            self.wf(),
            self.in_bounds(x as int, y as int, z as int),
        ensures
            i == self.idx(x as int, y as int, z as int),
            i < self.cells@.len(),
    {
        // The store's executable length bounds the flat index below
        // usize::MAX, so the row-major arithmetic cannot overflow.
        let n: usize = self.cells.len();
        proof {
            assert(self.volume() <= n as int);
            lemma_idx_bounds(*self, x as int, y as int, z as int);
            assert(z * self.height + y < self.height * self.depth) by (nonlinear_arith)
                requires
                    0 <= y < self.height,
                    0 <= z < self.depth,
            ;
            assert(self.height * self.depth <= self.width * self.height * self.depth)
                by (nonlinear_arith)
                requires
                    self.width >= 1,
                    self.height >= 1,
                    self.depth >= 1,
            ;
            assert((z * self.height + y) * self.width <= (z * self.height + y) * self.width + x);
        }
        let layer: usize = z * self.height + y;
        let flat: usize = layer * self.width + x;
        flat
    }

    /// A fresh 2D grid of the given extents, every cell dead at genesis.
    pub fn new(width: usize, height: usize) -> (b: Board)
        requires
            width >= 1,
            height >= 1,
            width * height <= usize::MAX,
        ensures
            b.wf(),
            b.width == width,
            b.height == height,
            b.depth == 1,
            b.axes == Axes::Two,
            forall|x: int, y: int, z: int| b.in_bounds(x, y, z) ==>
                #[trigger] b.cell_at(x, y, z) == (Cell { live: Live::Dead, birth_day: 0 }),
    {
        let n: usize = width * height;
        let cells: Vec<Cell> = Self::dead_cells(n);
        let b = Board { cells, width, height, depth: 1, axes: Axes::Two };
        proof {
            assert forall|x: int, y: int, z: int| b.in_bounds(x, y, z) implies
                #[trigger] b.cell_at(x, y, z) == (Cell { live: Live::Dead, birth_day: 0 }) by {
                lemma_idx_bounds(b, x, y, z);
            }
        }
        b
    }

    /// A fresh 3D grid of the given extents, every cell dead at genesis.
    pub fn new_3d(width: usize, height: usize, depth: usize) -> (b: Board)
        requires
            width >= 1,
            height >= 1,
            depth >= 1,
            width * height * depth <= usize::MAX,
        ensures
            b.wf(),
            b.width == width,
            b.height == height,
            b.depth == depth,
            b.axes == Axes::Three,
            forall|x: int, y: int, z: int| b.in_bounds(x, y, z) ==>
                #[trigger] b.cell_at(x, y, z) == (Cell { live: Live::Dead, birth_day: 0 }),
    {
        assert(width * height <= width * height * depth) by (nonlinear_arith)
            requires width >= 1, height >= 1, depth >= 1,
        ;
        let wh: usize = width * height;
        let n: usize = wh * depth;
        let cells: Vec<Cell> = Self::dead_cells(n);
        let b = Board { cells, width, height, depth, axes: Axes::Three };
        proof {
            assert forall|x: int, y: int, z: int| b.in_bounds(x, y, z) implies
                #[trigger] b.cell_at(x, y, z) == (Cell { live: Live::Dead, birth_day: 0 }) by {
                lemma_idx_bounds(b, x, y, z);
            }
        }
        b
    }

    /// A store of `n` dead genesis cells.
    fn dead_cells(n: usize) -> (cells: Vec<Cell>)
        ensures
            cells@.len() == n,
            forall|i: int| 0 <= i < n ==>
                cells@[i] == (Cell { live: Live::Dead, birth_day: 0 }),
    {
        let mut cells: Vec<Cell> = Vec::new();
        let mut i: usize = 0;
        while i < n
            invariant
                i <= n,
                cells@.len() == i,
                forall|j: int| 0 <= j < i ==>
                    cells@[j] == (Cell { live: Live::Dead, birth_day: 0 }),
            decreases n - i,
        {
            cells.push(Cell { live: Live::Dead, birth_day: 0 });
            i = i + 1;
        }
        cells
    }

    /// Replaces the cell at `(w, h)` of a grid's front layer. Out-of-bounds
    /// coordinates are a caller error, excluded by precondition.
    pub fn set(&mut self, w: usize, h: usize, cell: Cell)
        requires
            old(self).wf(),
            old(self).in_bounds(w as int, h as int, 0),
        ensures
            final(self).wf(),
            final(self).width == old(self).width,
            final(self).height == old(self).height,
            final(self).depth == old(self).depth,
            final(self).axes == old(self).axes,
            final(self).cell_at(w as int, h as int, 0) == cell,
            forall|x: int, y: int, z: int|
                old(self).in_bounds(x, y, z) && !(x == w && y == h && z == 0) ==>
                    #[trigger] final(self).cell_at(x, y, z) == old(self).cell_at(x, y, z),
    {
        self.set_3d(w, h, 0, cell);
    }

    /// Replaces the cell at `(x, y, z)`. Out-of-bounds coordinates are a
    /// caller error, excluded by precondition.
    pub fn set_3d(&mut self, x: usize, y: usize, z: usize, cell: Cell)
        requires
            old(self).wf(),
            old(self).in_bounds(x as int, y as int, z as int),
        ensures
            final(self).wf(),
            final(self).width == old(self).width,
            final(self).height == old(self).height,
            final(self).depth == old(self).depth,
            final(self).axes == old(self).axes,
            final(self).cell_at(x as int, y as int, z as int) == cell,
            forall|x2: int, y2: int, z2: int|
                old(self).in_bounds(x2, y2, z2) && !(x2 == x && y2 == y && z2 == z) ==>
                    #[trigger] final(self).cell_at(x2, y2, z2) == old(self).cell_at(x2, y2, z2),
    {
        let i: usize = self.cell_idx(x, y, z);
        self.cells.set(i, cell);
        proof {
            assert forall|x2: int, y2: int, z2: int|
                old(self).in_bounds(x2, y2, z2) && !(x2 == x && y2 == y && z2 == z) implies
                    #[trigger] self.cell_at(x2, y2, z2) == old(self).cell_at(x2, y2, z2) by {
                lemma_idx_bounds(*old(self), x2, y2, z2);
                if old(self).idx(x2, y2, z2) == old(self).idx(x as int, y as int, z as int) {
                    lemma_idx_injective(
                        *old(self), x2, y2, z2, x as int, y as int, z as int);
                }
            }
        }
    }

    /// Whether the cell at `(w, h)` of the front layer is alive.
    pub fn is_alive(&self, w: usize, h: usize) -> (r: bool)
        requires
            self.wf(),
            self.in_bounds(w as int, h as int, 0),
        ensures
            r == self.live_at(w as int, h as int, 0),
    {
        self.is_alive_3d(w, h, 0)
    }

    /// Whether the cell at `(x, y, z)` is alive.
    pub fn is_alive_3d(&self, x: usize, y: usize, z: usize) -> (r: bool)
        requires
            self.wf(),
            self.in_bounds(x as int, y as int, z as int),
        ensures
            r == self.live_at(x as int, y as int, z as int),
    {
        let i: usize = self.cell_idx(x, y, z);
        self.cells[i].live()
    }

    /// A copy of the cell at `(x, y, z)`.
    pub fn get_cell(&self, x: usize, y: usize, z: usize) -> (c: Cell)
        requires
            self.wf(),
            self.in_bounds(x as int, y as int, z as int),
        ensures
            c == self.cell_at(x as int, y as int, z as int),
    {
        let i: usize = self.cell_idx(x, y, z);
        self.cells[i]
    }

    /// The `k`-th neighbor offset, as executable values.
    fn offset_at(axes: Axes, k: usize) -> (r: (i32, i32, i32))
        requires
            k < n_offsets(axes),
        ensures
            (r.0 as int, r.1 as int, r.2 as int) == offset(axes, k as int),
            -1 <= r.0 <= 1,
            -1 <= r.1 <= 1,
            -1 <= r.2 <= 1,
    {
        match axes {
            Axes::Two => {
                match k {
                    0 => (-1, -1, 0),
                    1 => (-1, 0, 0),
                    2 => (-1, 1, 0),
                    3 => (0, -1, 0),
                    4 => (0, 1, 0),
                    5 => (1, -1, 0),
                    6 => (1, 0, 0),
                    _ => (1, 1, 0),
                }
            }
            Axes::Three => {
                match k {
                    0 => (0, 0, 1),
                    1 => (0, 1, 1),
                    2 => (0, -1, 1),
                    3 => (1, 0, 1),
                    4 => (-1, 0, 1),
                    5 => (1, 1, 1),
                    6 => (1, -1, 1),
                    7 => (-1, -1, 1),
                    8 => (-1, 1, 1),
                    9 => (0, 1, 0),
                    10 => (0, -1, 0),
                    11 => (1, 0, 0),
                    12 => (-1, 0, 0),
                    13 => (1, 1, 0),
                    14 => (1, -1, 0),
                    15 => (-1, 1, 0),
                    16 => (-1, -1, 0),
                    17 => (0, 0, -1),
                    18 => (0, 1, -1),
                    19 => (0, -1, -1),
                    20 => (1, 0, -1),
                    21 => (-1, 0, -1),
                    22 => (1, 1, -1),
                    23 => (1, -1, -1),
                    24 => (-1, 1, -1),
                    _ => (-1, -1, -1),
                }
            }
        }
    }

    /// Live neighbors of `(x, y, z)` over the Moore neighborhood of the
    /// grid's dimensionality, under the given boundary policy.
    pub fn alive_neighbors_count_3d(
        &self,
        x: usize,
        y: usize,
        z: usize,
        topology: Topology,
    ) -> (r: u8)
        requires
            self.wf(),
            self.in_bounds(x as int, y as int, z as int),
        ensures
            r as nat == self.neighbor_count(x as int, y as int, z as int, topology),
    {
        let n: usize = match self.axes {
            Axes::Two => 8,
            Axes::Three => 26,
        };
        let mut count: u8 = 0;
        let mut k: usize = 0;
        while k < n
            invariant
                self.wf(),
                self.in_bounds(x as int, y as int, z as int),
                k <= n,
                n == n_offsets(self.axes),
                count as nat == self.count_to(x as int, y as int, z as int, topology, k as int),
                count <= k,
            decreases n - k,
        {
            let d: (i32, i32, i32) = Self::offset_at(self.axes, k);
            let alive: bool = match topology {
                Topology::Wrap => {
                    let nx: usize = wrap_add(x, d.0, self.width);
                    let ny: usize = wrap_add(y, d.1, self.height);
                    let nz: usize = wrap_add(z, d.2, self.depth);
                    self.is_alive_3d(nx, ny, nz)
                }
                Topology::Clamp => {
                    let sx: Option<usize> = shift_in_bounds(x, d.0, self.width);
                    let sy: Option<usize> = shift_in_bounds(y, d.1, self.height);
                    let sz: Option<usize> = shift_in_bounds(z, d.2, self.depth);
                    match (sx, sy, sz) {
                        (Some(nx), Some(ny), Some(nz)) => self.is_alive_3d(nx, ny, nz),
                        _ => false,
                    }
                }
            };
            assert(alive == self.neighbor_live(
                x as int, y as int, z as int, offset(self.axes, k as int), topology));
            if alive {
                count = count + 1;
            }
            k = k + 1;
        }
        count
    }

    /// Live neighbors of `(w, h)` on the front layer; the 2D entry point.
    pub fn alive_neighbors_count(&self, w: usize, h: usize, topology: Topology) -> (r: u8)
        requires
            self.wf(),
            self.in_bounds(w as int, h as int, 0),
        ensures
            r as nat == self.neighbor_count(w as int, h as int, 0, topology),
    {
        self.alive_neighbors_count_3d(w, h, 0, topology)
    }

    /// Counts the grid's live and dead cells: returns `(lives, deads)`.
    pub fn cell_statics(&self) -> (r: (usize, usize))
        requires
            self.wf(),
        ensures
            r.0 as nat == live_cells(self.cells@),
            r.1 == self.volume() - r.0,
    {
        let n: usize = self.cells.len();
        let mut lives: usize = 0;
        let mut i: usize = 0;
        while i < n
            invariant
                n == self.cells@.len(),
                i <= n,
                lives as nat == live_cells(self.cells@.take(i as int)),
                lives <= i,
            decreases n - i,
        {
            proof {
                assert(self.cells@.take(i as int + 1).drop_last() =~= self.cells@.take(i as int));
                assert(self.cells@.take(i as int + 1).last() == self.cells@[i as int]);
            }
            if self.cells[i].live() {
                lives = lives + 1;
            }
            i = i + 1;
        }
        proof {
            assert(self.cells@.take(n as int) =~= self.cells@);
        }
        let deads: usize = n - lives;
        (lives, deads)
    }
}

/// Live cells in a cell store.
pub open spec fn live_cells(s: Seq<Cell>) -> nat
    decreases s.len(),
{
    if s.len() == 0 {
        0
    } else {
        live_cells(s.drop_last()) + if s.last().live == Live::Alive {
            1nat
        } else {
            0nat
        }
    }
}

/// The coordinate `p` shifted by `d` and wrapped back into `[0, m)`.
fn wrap_add(p: usize, d: i32, m: usize) -> (r: usize)
    requires
        m >= 1,
        p < m,
        -1 <= d <= 1,
    ensures
        r as int == wrap1(p as int, d as int, m as int),
        r < m,
{
    proof {
        lemma_wrap1_val(p as int, d as int, m as int);
    }
    if d == 1 {
        if p + 1 == m {
            0
        } else {
            p + 1
        }
    } else if d == -1 {
        if p == 0 {
            m - 1
        } else {
            p - 1
        }
    } else {
        p
    }
}

/// The coordinate `p` shifted by `d` if that stays inside `[0, m)`, else
/// nothing: the clamped boundary's per-axis test.
fn shift_in_bounds(p: usize, d: i32, m: usize) -> (r: Option<usize>)
    requires
        m >= 1,
        p < m,
        -1 <= d <= 1,
    ensures
        match r {
            Some(q) => 0 <= p + d < m && q as int == p + d,
            None => !(0 <= p + d < m),
        },
{
    if d == 1 {
        if p + 1 < m {
            Some(p + 1)
        } else {
            None
        }
    } else if d == -1 {
        if p >= 1 {
            Some(p - 1)
        } else {
            None
        }
    } else {
        Some(p)
    }
}

} // verus!
