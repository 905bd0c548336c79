use vstd::arithmetic::div_mod::{
    lemma_fundamental_div_mod, lemma_mod_pos_bound, lemma_multiply_divide_lt,
};
use vstd::prelude::*;

use crate::chunk::{
    cleared, flagged, lemma_local_index_bounds, lemma_local_index_injective, local_index,
    SandboxChunk, MAX_TICKED_BEFORE_SLEEP,
};
use crate::particle::Particle;

verus! {

/// Width of a tile in the default grid, in cells.
pub const SANDBOX_CHUNK_WIDTH: usize = 8;

/// Height of a tile in the default grid, in cells.
pub const SANDBOX_CHUNK_HEIGHT: usize = 8;

/// Tiles per row of the default grid.
pub const SANDBOX_X_CHUNKS: usize = 30;

/// Tiles per column of the default grid.
pub const SANDBOX_Y_CHUNKS: usize = 17;

/// Tile `(i, j)` is tile `(ci, cj)` or one of its eight neighbors.
pub open spec fn near(i: int, j: int, ci: int, cj: int) -> bool {
    ci - 1 <= i <= ci + 1 && cj - 1 <= j <= cj + 1
}

/// `x - 1`, or a value past any grid's edge when `x` is zero.
pub open spec fn step_back_spec(x: usize) -> usize {
    if x == 0 {
        usize::MAX
    } else {
        (x - 1) as usize
    }
}

pub fn step_back(x: usize) -> (r: usize)
    ensures
        r == step_back_spec(x),
{
    if x == 0 {
        usize::MAX
    } else {
        x - 1
    }
}

/// Reading back a cell written inside the grid gives the value written, and
/// every other cell keeps what it held.
pub proof fn lemma_set_then_get(
    before: Sandbox,
    after: Sandbox,
    x: int,
    y: int,
    particle: Option<Particle>,
)
    requires
        before.wf(),
        before.in_bounds(x, y),
        after.written(&before, x, y, particle),
    ensures
        after.cell(x, y) == particle,
        forall|qx: int, qy: int|
            #![trigger after.cell(qx, qy)]
            before.in_bounds(qx, qy) && !(qx == x && qy == y) ==> after.cell(qx, qy) == before.cell(
                qx,
                qy,
            ),
{
}

/// A write re-arms strong activity to its maximum on the written cell's tile
/// and on every neighbor tile inside the grid, and leaves every other tile's
/// counters and every weak counter as they were.
pub proof fn lemma_write_rearms(
    before: Sandbox,
    after: Sandbox,
    x: int,
    y: int,
    particle: Option<Particle>,
)
    requires
        before.wf(),
        before.in_bounds(x, y),
        after.written(&before, x, y, particle),
    ensures
        forall|i: int, j: int|
            #![trigger after.strong(i, j)]
            before.in_chunk_grid(i, j) && near(i, j, x / before.cw(), y / before.ch())
                ==> after.strong(i, j) == MAX_TICKED_BEFORE_SLEEP,
        forall|i: int, j: int|
            #![trigger after.strong(i, j)]
            before.in_chunk_grid(i, j) && !near(i, j, x / before.cw(), y / before.ch())
                ==> after.strong(i, j) == before.strong(i, j),
        forall|i: int, j: int|
            #![trigger after.weak(i, j)]
            before.in_chunk_grid(i, j) ==> after.weak(i, j) == before.weak(i, j),
{
}

/// The simulation grid: a row-major collection of tiles.
#[derive(Debug)]
pub struct Sandbox {
    x_chunks: usize,
    y_chunks: usize,
    chunk_width: usize,
    chunk_height: usize,
    total_width: usize,
    total_height: usize,
    chunks: Vec<SandboxChunk>,
}

impl Sandbox {
    /// Tiles per row.
    pub closed spec fn xc(&self) -> int {
        self.x_chunks as int
    }

    /// Tiles per column.
    pub closed spec fn yc(&self) -> int {
        self.y_chunks as int
    }

    /// Width of a tile in cells.
    pub closed spec fn cw(&self) -> int {
        self.chunk_width as int
    }

    /// Height of a tile in cells.
    pub closed spec fn ch(&self) -> int {
        self.chunk_height as int
    }

    pub closed spec fn spec_width(&self) -> int {
        self.total_width as int
    }

    pub closed spec fn spec_height(&self) -> int {
        self.total_height as int
    }

    pub closed spec fn chunk_seq(&self) -> Seq<SandboxChunk> {
        self.chunks@
    }

    /// The tile in column `i` and row `j` of the grid of tiles.
    pub closed spec fn chunk_at(&self, i: int, j: int) -> SandboxChunk {
        self.chunks@[local_index(self.xc(), i, j)]
    }

    /// Offset in `chunks` of the tile holding cell `(x, y)`.
    closed spec fn chunk_index(&self, x: int, y: int) -> int {
        local_index(self.xc(), x as int / self.cw(), y as int / self.ch())
    }

    /// The contents of cell `(x, y)`.
    pub closed spec fn cell(&self, x: int, y: int) -> Option<Particle> {
        self.chunks@[self.chunk_index(x, y)].cell(x % self.cw(), y % self.ch())
    }

    pub closed spec fn wf(&self) -> bool {
        &&& self.chunk_width > 0
        &&& self.chunk_height > 0
        &&& self.total_width == self.x_chunks * self.chunk_width
        &&& self.total_height == self.y_chunks * self.chunk_height
        &&& self.total_width <= i32::MAX
        &&& self.total_height <= i32::MAX
        &&& self.chunks@.len() == self.x_chunks * self.y_chunks
        &&& self.chunks@.len() <= usize::MAX
        &&& forall|k: int|
            0 <= k < self.chunks@.len() ==> {
                &&& (#[trigger] self.chunks@[k]).wf()
                &&& self.chunks@[k].spec_width() == self.chunk_width
                &&& self.chunks@[k].spec_height() == self.chunk_height
                &&& self.chunks@[k].position() == (
                    (k % self.x_chunks as int) as usize,
                    (k / self.x_chunks as int) as usize,
                )
            }
    }

    pub open spec fn in_bounds(&self, x: int, y: int) -> bool {
        0 <= x < self.spec_width() && 0 <= y < self.spec_height()
    }

    pub open spec fn in_chunk_grid(&self, i: int, j: int) -> bool {
        0 <= i < self.xc() && 0 <= j < self.yc()
    }

    /// Strong activity of tile `(i, j)`.
    pub open spec fn strong(&self, i: int, j: int) -> u8 {
        self.chunk_at(i, j).strong()
    }

    /// Weak activity of tile `(i, j)`.
    pub open spec fn weak(&self, i: int, j: int) -> u8 {
        self.chunk_at(i, j).weak()
    }

    pub open spec fn same_geometry(&self, o: &Sandbox) -> bool {
        &&& self.xc() == o.xc()
        &&& self.yc() == o.yc()
        &&& self.cw() == o.cw()
        &&& self.ch() == o.ch()
        &&& self.spec_width() == o.spec_width()
        &&& self.spec_height() == o.spec_height()
    }

    /// Every cell but `(x, y)` holds what it holds in `o`.
    pub open spec fn same_cells_except(&self, o: &Sandbox, x: int, y: int) -> bool {
        forall|qx: int, qy: int|
            #![trigger self.cell(qx, qy)]
            o.in_bounds(qx, qy) && !(qx == x && qy == y) ==> self.cell(qx, qy) == o.cell(qx, qy)
    }

    pub open spec fn same_cells(&self, o: &Sandbox) -> bool {
        forall|qx: int, qy: int|
            #![trigger self.cell(qx, qy)]
            o.in_bounds(qx, qy) ==> self.cell(qx, qy) == o.cell(qx, qy)
    }

    pub open spec fn same_activity(&self, o: &Sandbox) -> bool {
        forall|i: int, j: int|
            #![trigger self.strong(i, j)]
            #![trigger self.weak(i, j)]
            o.in_chunk_grid(i, j) ==> self.strong(i, j) == o.strong(i, j) && self.weak(i, j) == o.weak(
                i,
                j,
            )
    }

    /// No counter is lower than in `o`.
    pub open spec fn activity_not_lowered(&self, o: &Sandbox) -> bool {
        forall|i: int, j: int|
            #![trigger self.strong(i, j)]
            o.in_chunk_grid(i, j) ==> self.strong(i, j) >= o.strong(i, j) && self.weak(i, j) >= o.weak(
                i,
                j,
            )
    }

    /// Compared with `o`, strong activity is re-armed on the tile of `(x, y)` and
    /// on its neighbor tiles, and nothing else changed in the counters.
    pub open spec fn rearmed_around(&self, o: &Sandbox, x: int, y: int) -> bool {
        forall|i: int, j: int|
            #![trigger self.strong(i, j)]
            #![trigger self.weak(i, j)]
            o.in_chunk_grid(i, j) ==> {
                &&& self.strong(i, j) == if near(i, j, x / o.cw(), y / o.ch()) {
                    MAX_TICKED_BEFORE_SLEEP
                } else {
                    o.strong(i, j)
                }
                &&& self.weak(i, j) == o.weak(i, j)
            }
    }

    /// Compared with `o`, strong activity is re-armed around both `(x1, y1)` and
    /// `(x2, y2)`, and nothing else changed in the counters.
    pub open spec fn rearmed_around_both(
        &self,
        o: &Sandbox,
        x1: int,
        y1: int,
        x2: int,
        y2: int,
    ) -> bool {
        forall|i: int, j: int|
            #![trigger self.strong(i, j)]
            #![trigger self.weak(i, j)]
            o.in_chunk_grid(i, j) ==> {
                &&& self.strong(i, j) == if near(i, j, x1 / o.cw(), y1 / o.ch()) || near(
                    i,
                    j,
                    x2 / o.cw(),
                    y2 / o.ch(),
                ) {
                    MAX_TICKED_BEFORE_SLEEP
                } else {
                    o.strong(i, j)
                }
                &&& self.weak(i, j) == o.weak(i, j)
            }
    }

    /// Compared with `o`, weak activity is re-armed on the tile of `(x, y)` and
    /// nothing else changed in the counters.
    pub open spec fn weak_rearmed_at(&self, o: &Sandbox, x: int, y: int) -> bool {
        &&& forall|i: int, j: int|
            #![trigger self.strong(i, j)]
            o.in_chunk_grid(i, j) ==> self.strong(i, j) == o.strong(i, j)
        &&& forall|i: int, j: int|
            #![trigger self.weak(i, j)]
            o.in_chunk_grid(i, j) ==> self.weak(i, j) == if i == x / o.cw() && j == y / o.ch() {
                MAX_TICKED_BEFORE_SLEEP
            } else {
                o.weak(i, j)
            }
    }

    /// Weak activity of the tile of cell `(x, y)`.
    pub open spec fn weak_at(&self, x: int, y: int) -> u8 {
        self.weak(x / self.cw(), y / self.ch())
    }

    /// No weak counter differs from `o`'s.
    pub open spec fn same_weak(&self, o: &Sandbox) -> bool {
        forall|i: int, j: int| #![trigger self.weak(i, j)] o.in_chunk_grid(i, j) ==> self.weak(i, j) == o.weak(i, j)
    }

    /// No weak counter that is armed in `o` is less than armed here.
    pub open spec fn keeps_weak_armed(&self, o: &Sandbox) -> bool {
        forall|i: int, j: int|
            #![trigger self.weak(i, j)]
            o.in_chunk_grid(i, j) && o.weak(i, j) == MAX_TICKED_BEFORE_SLEEP ==> self.weak(i, j)
                == MAX_TICKED_BEFORE_SLEEP
    }

    /// What a write of `particle` at `(x, y)` leaves, compared with `o`.
    pub open spec fn written(&self, o: &Sandbox, x: int, y: int, particle: Option<Particle>) -> bool {
        &&& self.wf()
        &&& self.same_geometry(o)
        &&& self.cell(x, y) == particle
        &&& self.same_cells_except(o, x, y)
        &&& self.rearmed_around(o, x, y)
    }

    /// A cell of the grid lies in a tile of the grid.
    pub proof fn lemma_tile_in_grid(&self, x: int, y: int)
        requires
            self.wf(),
            self.in_bounds(x, y),
        ensures
            self.in_chunk_grid(x / self.cw(), y / self.ch()),
    {
        self.lemma_cell_location(x, y);
    }

    /// The grid's size fits signed 32-bit coordinates, and its tiles are not empty.
    pub proof fn lemma_dims(&self)
        requires
            self.wf(),
        ensures
            0 <= self.spec_width() <= i32::MAX,
            0 <= self.spec_height() <= i32::MAX,
            self.cw() > 0,
            self.ch() > 0,
            self.spec_width() == self.xc() * self.cw(),
            self.spec_height() == self.yc() * self.ch(),
    {
    }

    /// Tile `k` sits at column `k % xc` and row `k / xc` and has the grid's tile size.
    pub proof fn lemma_chunk_shape(&self, k: int)
        requires
            self.wf(),
            0 <= k < self.chunk_seq().len(),
        ensures
            self.chunk_seq()[k].wf(),
            self.chunk_seq()[k].position() == ((k % self.xc()) as usize, (k / self.xc()) as usize),
            self.chunk_seq()[k].position().0 as int == k % self.xc(),
            self.chunk_seq()[k].position().1 as int == k / self.xc(),
            self.chunk_seq()[k].spec_width() == self.cw(),
            self.chunk_seq()[k].spec_height() == self.ch(),
            self.chunk_seq().len() == self.xc() * self.yc(),
            self.xc() > 0,
            0 <= k % self.xc() < self.xc(),
            0 <= k / self.xc() < self.yc(),
    {
        assert(self.chunks@[k].wf());
        if self.x_chunks == 0 {
            assert(self.x_chunks * self.y_chunks == 0) by (nonlinear_arith)
                requires
                    self.x_chunks == 0,
            ;
        }
        lemma_mod_pos_bound(k, self.xc());
        lemma_fundamental_div_mod(k, self.xc());
        assert(k / self.xc() < self.yc()) by (nonlinear_arith)
            requires
                k == self.xc() * (k / self.xc()) + k % self.xc(),
                0 <= k % self.xc(),
                k < self.xc() * self.yc(),
                self.xc() > 0,
        ;
        assert(0 <= k / self.xc()) by (nonlinear_arith)
            requires
                0 <= k,
                self.xc() > 0,
        ;
    }

    proof fn lemma_cell_location(&self, x: int, y: int)
        requires
            self.wf(),
            self.in_bounds(x, y),
        ensures
            0 <= x as int / self.cw() < self.xc(),
            0 <= y as int / self.ch() < self.yc(),
            0 <= self.chunk_index(x, y) < self.chunk_seq().len(),
            self.chunk_seq()[self.chunk_index(x, y)].in_chunk(x % self.cw(), y % self.ch()),
            self.chunk_seq()[self.chunk_index(x, y)] == self.chunk_at(x as int / self.cw(), y as int / self.ch()),
    {
        let cw = self.cw();
        let ch = self.ch();
        assert(self.xc() * cw == cw * self.xc()) by (nonlinear_arith);
        assert(self.yc() * ch == ch * self.yc()) by (nonlinear_arith);
        lemma_multiply_divide_lt(x, cw, self.xc());
        lemma_multiply_divide_lt(y, ch, self.yc());
        assert(0 <= x / cw) by (nonlinear_arith)
            requires
                0 <= x,
                0 < cw,
        ;
        assert(0 <= y / ch) by (nonlinear_arith)
            requires
                0 <= y,
                0 < ch,
        ;
        lemma_mod_pos_bound(x, cw);
        lemma_mod_pos_bound(y, ch);
        lemma_local_index_bounds(self.xc(), self.yc(), x / cw, y / ch);
        let k = self.chunk_index(x, y);
        assert(self.chunks@[k].wf());
    }

    proof fn lemma_cells_distinct(&self, x1: int, y1: int, x2: int, y2: int)
        requires
            self.wf(),
            self.in_bounds(x1, y1),
            self.in_bounds(x2, y2),
            !(x1 == x2 && y1 == y2),
        ensures
            self.chunk_index(x1, y1) != self.chunk_index(x2, y2) || local_index(
                self.cw(),
                x1 % self.cw(),
                y1 % self.ch(),
            ) != local_index(self.cw(), x2 % self.cw(), y2 % self.ch()),
    {
        let cw = self.cw();
        let ch = self.ch();
        self.lemma_cell_location(x1, y1);
        self.lemma_cell_location(x2, y2);
        if self.chunk_index(x1, y1) == self.chunk_index(x2, y2) && local_index(
            cw,
            x1 % cw,
            y1 % ch,
        ) == local_index(cw, x2 % cw, y2 % ch) {
            lemma_local_index_injective(self.xc(), x1 / cw, y1 / ch, x2 / cw, y2 / ch);
            lemma_local_index_injective(cw, x1 % cw, y1 % ch, x2 % cw, y2 % ch);
            lemma_fundamental_div_mod(x1, cw);
            lemma_fundamental_div_mod(x2, cw);
            lemma_fundamental_div_mod(y1, ch);
            lemma_fundamental_div_mod(y2, ch);
        }
    }

    proof fn lemma_chunks_distinct(&self, i1: int, j1: int, i2: int, j2: int)
        requires
            self.in_chunk_grid(i1, j1),
            self.in_chunk_grid(i2, j2),
            !(i1 == i2 && j1 == j2),
        ensures
            local_index(self.xc(), i1, j1) != local_index(self.xc(), i2, j2),
    {
        if local_index(self.xc(), i1, j1) == local_index(self.xc(), i2, j2) {
            lemma_local_index_injective(self.xc(), i1, j1, i2, j2);
        }
    }

    /// A grid of `x_chunks` by `y_chunks` tiles of `chunk_width` by `chunk_height`
    /// empty cells, every tile active.
    pub fn new(x_chunks: usize, y_chunks: usize, chunk_width: usize, chunk_height: usize) -> (r:
        Self)
        requires
            chunk_width > 0,
            chunk_height > 0,
            x_chunks * chunk_width <= i32::MAX,
            y_chunks * chunk_height <= i32::MAX,
            x_chunks * chunk_width * (y_chunks * chunk_height) <= usize::MAX,
        ensures
            r.wf(),
            r.xc() == x_chunks,
            r.yc() == y_chunks,
            r.cw() == chunk_width,
            r.ch() == chunk_height,
            r.spec_width() == x_chunks * chunk_width,
            r.spec_height() == y_chunks * chunk_height,
            r.chunk_seq().len() == x_chunks * y_chunks,
            forall|x: int, y: int| r.in_bounds(x, y) ==> (#[trigger] r.cell(x, y)).is_none(),
            forall|i: int, j: int|
                r.in_chunk_grid(i, j) ==> #[trigger] r.strong(i, j) == MAX_TICKED_BEFORE_SLEEP,
            forall|i: int, j: int|
                r.in_chunk_grid(i, j) ==> #[trigger] r.weak(i, j) == MAX_TICKED_BEFORE_SLEEP,
    {
        assert(x_chunks * y_chunks <= x_chunks * chunk_width * (y_chunks * chunk_height))
            by (nonlinear_arith)
            requires
                chunk_width > 0,
                chunk_height > 0,
        ;
        assert(chunk_width * chunk_height <= x_chunks * chunk_width * (y_chunks * chunk_height)
            || x_chunks == 0 || y_chunks == 0) by (nonlinear_arith)
            requires
                chunk_width > 0,
                chunk_height > 0,
        ;
        let count = x_chunks * y_chunks;
        let mut chunks: Vec<SandboxChunk> = Vec::with_capacity(count);
        let mut i: usize = 0;
        while i < count
            invariant
                i <= count,
                count == x_chunks * y_chunks,
                count > 0 ==> chunk_width * chunk_height <= usize::MAX,
                chunks@.len() == i,
                forall|k: int|
                    0 <= k < i ==> {
                        &&& (#[trigger] chunks@[k]).wf()
                        &&& chunks@[k].spec_width() == chunk_width
                        &&& chunks@[k].spec_height() == chunk_height
                        &&& chunks@[k].position() == (
                            (k % x_chunks as int) as usize,
                            (k / x_chunks as int) as usize,
                        )
                        &&& chunks@[k].strong() == MAX_TICKED_BEFORE_SLEEP
                        &&& chunks@[k].weak() == MAX_TICKED_BEFORE_SLEEP
                        &&& forall|c: int|
                            0 <= c < chunks@[k].cells().len() ==> (
                            #[trigger] chunks@[k].cells()[c]).is_none()
                    },
            decreases count - i,
        {
            assert(x_chunks > 0) by (nonlinear_arith)
                requires
                    i < count,
                    count == x_chunks * y_chunks,
            ;
            chunks.push(SandboxChunk::new(chunk_width, chunk_height, i, x_chunks));
            i = i + 1;
        }
        let grid = Self {
            x_chunks,
            y_chunks,
            chunk_width,
            chunk_height,
            total_width: x_chunks * chunk_width,
            total_height: y_chunks * chunk_height,
            chunks,
        };
        assert forall|x: int, y: int| grid.in_bounds(x, y) implies (#[trigger] grid.cell(x, y)).is_none() by {
            grid.lemma_cell_location(x, y);
            lemma_local_index_bounds(
                chunk_width as int,
                chunk_height as int,
                x % chunk_width as int,
                y % chunk_height as int,
            );
        }
        assert forall|i: int, j: int| grid.in_chunk_grid(i, j) implies #[trigger] grid.weak(i, j)
            == MAX_TICKED_BEFORE_SLEEP by {
            lemma_local_index_bounds(grid.xc(), grid.yc(), i, j);
            let k = local_index(grid.xc(), i, j);
            assert(grid.chunks@[k].weak() == MAX_TICKED_BEFORE_SLEEP);
        }
        assert forall|i: int, j: int| grid.in_chunk_grid(i, j) implies #[trigger] grid.strong(i, j)
            == MAX_TICKED_BEFORE_SLEEP && grid.weak(i, j) == MAX_TICKED_BEFORE_SLEEP by {
            lemma_local_index_bounds(grid.xc(), grid.yc(), i, j);
            let k = local_index(grid.xc(), i, j);
            assert(grid.chunks@[k].strong() == MAX_TICKED_BEFORE_SLEEP);
        }
        grid
    }

    /// `self` is `o` with the tile of `(x, y)` replaced by one whose cells differ
    /// from the old tile's at most at that cell.
    proof fn lemma_tile_replaced(&self, o: &Sandbox, x: int, y: int, p: Option<Particle>)
        requires
            o.wf(),
            o.in_bounds(x, y),
            self.x_chunks == o.x_chunks,
            self.y_chunks == o.y_chunks,
            self.chunk_width == o.chunk_width,
            self.chunk_height == o.chunk_height,
            self.total_width == o.total_width,
            self.total_height == o.total_height,
            self.chunks@.len() == o.chunks@.len(),
            forall|k: int|
                0 <= k < o.chunks@.len() && k != o.chunk_index(x, y) ==> #[trigger] self.chunks@[k]
                    == o.chunks@[k],
            self.chunks@[o.chunk_index(x, y)].wf(),
            self.chunks@[o.chunk_index(x, y)].same_shape(&o.chunks@[o.chunk_index(x, y)]),
            self.chunks@[o.chunk_index(x, y)].cells() == o.chunks@[o.chunk_index(x, y)].cells().update(
                local_index(o.cw(), x % o.cw(), y % o.ch()),
                p,
            ),
        ensures
            self.wf(),
            self.same_geometry(o),
            self.cell(x, y) == p,
            self.same_cells_except(o, x, y),
            forall|i: int, j: int|
                #![trigger self.chunk_at(i, j)]
                o.in_chunk_grid(i, j) && !(i == x / o.cw() && j == y / o.ch()) ==> self.chunk_at(i, j)
                    == o.chunk_at(i, j),
            self.chunk_at(x / o.cw(), y / o.ch()) == self.chunks@[o.chunk_index(x, y)],
    {
        o.lemma_cell_location(x, y);
        let k = o.chunk_index(x, y);
        lemma_local_index_bounds(o.cw(), o.ch(), x % o.cw(), y % o.ch());
        assert forall|k2: int| 0 <= k2 < self.chunks@.len() implies {
            &&& (#[trigger] self.chunks@[k2]).wf()
            &&& self.chunks@[k2].spec_width() == self.chunk_width
            &&& self.chunks@[k2].spec_height() == self.chunk_height
            &&& self.chunks@[k2].position() == (
                (k2 % self.x_chunks as int) as usize,
                (k2 / self.x_chunks as int) as usize,
            )
        } by {
            assert(o.chunks@[k2].wf());
        }
        assert forall|qx: int, qy: int| o.in_bounds(qx, qy) && !(qx == x && qy == y) implies #[trigger] self.cell(
            qx,
            qy,
        ) == o.cell(qx, qy) by {
            o.lemma_cells_distinct(x, y, qx, qy);
            o.lemma_cell_location(qx, qy);
            lemma_local_index_bounds(o.cw(), o.ch(), qx % o.cw(), qy % o.ch());
        }
        assert forall|i: int, j: int|
            #![trigger self.chunk_at(i, j)]
            o.in_chunk_grid(i, j) && !(i == x / o.cw() && j == y / o.ch()) implies self.chunk_at(i, j)
                == o.chunk_at(i, j) by {
            o.lemma_chunks_distinct(i, j, x / o.cw(), y / o.ch());
            lemma_local_index_bounds(o.xc(), o.yc(), i, j);
        }
    }

    fn to_index(&self, x: usize, y: usize) -> (r: usize)
        requires
            self.wf(),
            self.in_bounds(x as int, y as int),
        ensures
            r == self.chunk_index(x as int, y as int),
            r < self.chunk_seq().len(),
    {
        proof {
            self.lemma_cell_location(x as int, y as int);
            assert(0 <= (y / self.chunk_height) * self.x_chunks) by (nonlinear_arith)
                requires
                    0 <= y / self.chunk_height,
                    0 <= self.x_chunks,
            ;
        }
        ((y / self.chunk_height) * self.x_chunks) + x / self.chunk_width
    }

    /// Reads a cell that the caller knows to be inside the grid.
    pub fn get(&self, x: usize, y: usize) -> (r: Option<&Particle>)
        requires
            self.wf(),
            self.in_bounds(x as int, y as int),
        ensures
            r.is_some() == self.cell(x as int, y as int).is_some(),
            r.is_some() ==> self.cell(x as int, y as int) == Some(*r.unwrap()),
    {
        proof {
            self.lemma_cell_location(x as int, y as int);
        }
        let index = self.to_index(x, y);
        self.chunks[index].get(x % self.chunk_width, y % self.chunk_height)
    }

    /// A copy of what a cell inside the grid holds.
    pub fn get_copied(&self, x: usize, y: usize) -> (r: Option<Particle>)
        requires
            self.wf(),
            self.in_bounds(x as int, y as int),
        ensures
            r == self.cell(x as int, y as int),
    {
        match self.get(x, y) {
            Some(p) => Some(*p),
            None => None,
        }
    }

    /// Reads a cell; outside the grid there is nothing.
    pub fn checked_get(&self, x: usize, y: usize) -> (r: Option<&Particle>)
        requires
            self.wf(),
        ensures
            r.is_some() == (self.in_bounds(x as int, y as int) && self.cell(
                x as int,
                y as int,
            ).is_some()),
            r.is_some() ==> self.cell(x as int, y as int) == Some(*r.unwrap()),
    {
        if self.out_of_bounds_usize(x, y) {
            None
        } else {
            self.get(x, y)
        }
    }

    /// Reads a cell at signed coordinates; outside the grid there is nothing.
    pub fn checked_get_i32(&self, x: i32, y: i32) -> (r: Option<&Particle>)
        requires
            self.wf(),
        ensures
            r.is_some() == (self.in_bounds(x as int, y as int) && self.cell(
                x as int,
                y as int,
            ).is_some()),
            r.is_some() ==> self.cell(x as int, y as int) == Some(*r.unwrap()),
    {
        if self.out_of_bounds_i32(x, y) {
            None
        } else {
            self.get(x as usize, y as usize)
        }
    }

    /// Writes a cell without touching the activity counters.
    pub fn put(&mut self, x: usize, y: usize, particle: Option<Particle>)
        requires
            old(self).wf(),
            old(self).in_bounds(x as int, y as int),
        ensures
            final(self).wf(),
            final(self).same_geometry(old(self)),
            final(self).cell(x as int, y as int) == particle,
            final(self).same_cells_except(old(self), x as int, y as int),
            final(self).same_activity(old(self)),
    {
        proof {
            self.lemma_cell_location(x as int, y as int);
        }
        let index = self.to_index(x, y);
        let lx = x % self.chunk_width;
        let ly = y % self.chunk_height;
        self.chunks[index].put(lx, ly, particle);
        proof {
            self.lemma_tile_replaced(old(self), x as int, y as int, particle);
        }
    }

    /// Writes a cell, or does nothing outside the grid; a write re-arms strong
    /// activity on its tile and the neighbor tiles.
    pub fn set(&mut self, x: usize, y: usize, particle: Option<Particle>)
        requires
            old(self).wf(),
        ensures
            !old(self).in_bounds(x as int, y as int) ==> *final(self) == *old(self),
            old(self).in_bounds(x as int, y as int) ==> final(self).written(
                old(self),
                x as int,
                y as int,
                particle,
            ),
    {
        if self.out_of_bounds_usize(x, y) {
            return;
        }
        proof {
            self.lemma_cell_location(x as int, y as int);
        }
        let index = self.to_index(x, y);
        let lx = x % self.chunk_width;
        let ly = y % self.chunk_height;
        self.chunks[index].set(lx, ly, particle);
        proof {
            self.lemma_tile_replaced(old(self), x as int, y as int, particle);
        }
        let ghost mid = *self;
        self.strong_tick_neighbors(x, y);
        proof {
            assert forall|i: int, j: int| #![trigger self.strong(i, j)] old(self).in_chunk_grid(i, j) implies {
                &&& self.strong(i, j) == if near(
                    i,
                    j,
                    x as int / old(self).cw(),
                    y as int / old(self).ch(),
                ) {
                    MAX_TICKED_BEFORE_SLEEP
                } else {
                    old(self).strong(i, j)
                }
                &&& self.weak(i, j) == old(self).weak(i, j)
            } by {
                assert(mid.strong(i, j) == self.strong(i, j) || near(
                    i,
                    j,
                    x as int / old(self).cw(),
                    y as int / old(self).ch(),
                ));
            }
        }
    }

    /// Re-arms strong activity on the tile of `(x, y)` and its in-grid neighbors.
    fn strong_tick_neighbors(&mut self, x: usize, y: usize)
        requires
            old(self).wf(),
            old(self).in_bounds(x as int, y as int),
        ensures
            final(self).wf(),
            final(self).same_geometry(old(self)),
            final(self).same_cells(old(self)),
            final(self).rearmed_around(old(self), x as int, y as int),
    {
        proof {
            self.lemma_cell_location(x as int, y as int);
        }
        let cx = x / self.chunk_width;
        let cy = y / self.chunk_height;
        let lo_i = if cx == 0 {
            0
        } else {
            cx - 1
        };
        let hi_i = if cx + 1 < self.x_chunks {
            cx + 1
        } else {
            cx
        };
        let lo_j = if cy == 0 {
            0
        } else {
            cy - 1
        };
        let hi_j = if cy + 1 < self.y_chunks {
            cy + 1
        } else {
            cy
        };
        let mut j = lo_j;
        while j <= hi_j
            invariant
                lo_j <= j <= hi_j + 1,
                hi_j < self.y_chunks,
                hi_i < self.x_chunks,
                lo_i <= hi_i,
                lo_i == (if cx == 0 { 0 } else { cx - 1 }),
                hi_i == (if cx + 1 < self.x_chunks { cx + 1 } else { cx as int }),
                lo_j == (if cy == 0 { 0 } else { cy - 1 }),
                hi_j == (if cy + 1 < self.y_chunks { cy + 1 } else { cy as int }),
                self.x_chunks == old(self).x_chunks,
                self.y_chunks == old(self).y_chunks,
                self.chunk_width == old(self).chunk_width,
                self.chunk_height == old(self).chunk_height,
                self.total_width == old(self).total_width,
                self.total_height == old(self).total_height,
                self.chunks@.len() == old(self).chunks@.len(),
                self.wf(),
                forall|k: int|
                    0 <= k < self.chunks@.len() ==> (#[trigger] self.chunks@[k]).cells()
                        == old(self).chunks@[k].cells() && self.chunks@[k].weak()
                        == old(self).chunks@[k].weak(),
                forall|a: int, b: int|
                    #![trigger self.strong(a, b)]
                    old(self).in_chunk_grid(a, b) ==> self.strong(a, b) == if lo_j <= b < j && lo_i
                        <= a <= hi_i {
                        MAX_TICKED_BEFORE_SLEEP
                    } else {
                        old(self).strong(a, b)
                    },
            decreases hi_j + 1 - j,
        {
            let mut i = lo_i;
            while i <= hi_i
                invariant
                    lo_j <= j <= hi_j,
                    lo_i <= i <= hi_i + 1,
                    hi_j < self.y_chunks,
                    hi_i < self.x_chunks,
                    self.x_chunks == old(self).x_chunks,
                    self.y_chunks == old(self).y_chunks,
                    self.chunk_width == old(self).chunk_width,
                    self.chunk_height == old(self).chunk_height,
                    self.total_width == old(self).total_width,
                    self.total_height == old(self).total_height,
                    self.chunks@.len() == old(self).chunks@.len(),
                    self.wf(),
                    forall|k: int|
                        0 <= k < self.chunks@.len() ==> (#[trigger] self.chunks@[k]).cells()
                            == old(self).chunks@[k].cells() && self.chunks@[k].weak()
                            == old(self).chunks@[k].weak(),
                    forall|a: int, b: int|
                        #![trigger self.strong(a, b)]
                        old(self).in_chunk_grid(a, b) ==> self.strong(a, b) == if (lo_j <= b < j
                            && lo_i <= a <= hi_i) || (b == j && lo_i <= a < i) {
                            MAX_TICKED_BEFORE_SLEEP
                        } else {
                            old(self).strong(a, b)
                        },
                decreases hi_i + 1 - i,
            {
                proof {
                    lemma_local_index_bounds(self.xc(), self.yc(), i as int, j as int);
                    assert(0 <= j * self.x_chunks) by (nonlinear_arith)
                        requires
                            0 <= j,
                            0 <= self.x_chunks,
                    ;
                }
                let k = j * self.x_chunks + i;
                let ghost before = *self;
                self.chunks[k].strong_tick();
                proof {
                    assert(before.chunks@[k as int].wf());
                    assert forall|k2: int| 0 <= k2 < self.chunks@.len() implies {
                        &&& (#[trigger] self.chunks@[k2]).wf()
                        &&& self.chunks@[k2].spec_width() == self.chunk_width
                        &&& self.chunks@[k2].spec_height() == self.chunk_height
                        &&& self.chunks@[k2].position() == (
                            (k2 % self.x_chunks as int) as usize,
                            (k2 / self.x_chunks as int) as usize,
                        )
                    } by {
                        assert(before.chunks@[k2].wf());
                    }
                    assert forall|a: int, b: int|
                        #![trigger self.strong(a, b)]
                        old(self).in_chunk_grid(a, b) implies self.strong(a, b) == if (lo_j <= b
                            < j && lo_i <= a <= hi_i) || (b == j && lo_i <= a < i + 1) {
                            MAX_TICKED_BEFORE_SLEEP
                        } else {
                            old(self).strong(a, b)
                        } by {
                        if !(a == i && b == j) {
                            self.lemma_chunks_distinct(a, b, i as int, j as int);
                            lemma_local_index_bounds(self.xc(), self.yc(), a, b);
                            assert(before.strong(a, b) == self.strong(a, b));
                        }
                    }
                }
                i = i + 1;
            }
            j = j + 1;
        }
        proof {
            assert forall|qx: int, qy: int| old(self).in_bounds(qx, qy) implies #[trigger] self.cell(
                qx,
                qy,
            ) == old(self).cell(qx, qy) by {
                old(self).lemma_cell_location(qx, qy);
            }
            assert forall|a: int, b: int|
                #![trigger self.weak(a, b)]
                old(self).in_chunk_grid(a, b) implies self.weak(a, b) == old(self).weak(a, b) by {
                lemma_local_index_bounds(self.xc(), self.yc(), a, b);
            }
        }
    }

    pub fn width(&self) -> (r: usize)
        ensures
            r == self.spec_width(),
    {
        self.total_width
    }

    pub fn height(&self) -> (r: usize)
        ensures
            r == self.spec_height(),
    {
        self.total_height
    }

    pub fn out_of_bounds_i32(&self, x: i32, y: i32) -> (r: bool)
        requires
            self.wf(),
        ensures
            r == !self.in_bounds(x as int, y as int),
    {
        x < 0 || x >= self.total_width as i32 || y < 0 || y >= self.total_height as i32
    }

    pub fn out_of_bounds_usize(&self, x: usize, y: usize) -> (r: bool)
        ensures
            r == !self.in_bounds(x as int, y as int),
    {
        x >= self.total_width || y >= self.total_height
    }

    /// Exchanges two cells, or does nothing when either lies outside the grid;
    /// strong activity is re-armed around both.
    pub fn swap(&mut self, x1: usize, y1: usize, x2: usize, y2: usize)
        requires
            old(self).wf(),
        ensures
            final(self).wf(),
            final(self).same_geometry(old(self)),
            !(old(self).in_bounds(x1 as int, y1 as int) && old(self).in_bounds(x2 as int, y2 as int))
                ==> *final(self) == *old(self),
            old(self).in_bounds(x1 as int, y1 as int) && old(self).in_bounds(x2 as int, y2 as int)
                ==> {
                &&& final(self).cell(x1 as int, y1 as int) == old(self).cell(x2 as int, y2 as int)
                &&& final(self).cell(x2 as int, y2 as int) == old(self).cell(x1 as int, y1 as int)
                &&& forall|qx: int, qy: int|
                    #![trigger final(self).cell(qx, qy)]
                    old(self).in_bounds(qx, qy) && !(qx == x1 && qy == y1) && !(qx == x2 && qy
                        == y2) ==> final(self).cell(qx, qy) == old(self).cell(qx, qy)
                &&& final(self).rearmed_around_both(
                    old(self),
                    x1 as int,
                    y1 as int,
                    x2 as int,
                    y2 as int,
                )
            },
    {
        if self.out_of_bounds_usize(x1, y1) || self.out_of_bounds_usize(x2, y2) {
            return;
        }
        let particle1 = self.get_copied(x1, y1);
        let particle2 = self.get_copied(x2, y2);
        self.set(x1, y1, particle2);
        let ghost mid = *self;
        self.set(x2, y2, particle1);
        proof {
            assert forall|i: int, j: int|
                #![trigger self.strong(i, j)]
                old(self).in_chunk_grid(i, j) implies {
                &&& self.strong(i, j) == if near(i, j, x1 as int / old(self).cw(), y1 as int / old(self).ch())
                    || near(i, j, x2 as int / old(self).cw(), y2 as int / old(self).ch()) {
                    MAX_TICKED_BEFORE_SLEEP
                } else {
                    old(self).strong(i, j)
                }
                &&& self.weak(i, j) == old(self).weak(i, j)
            } by {
                assert(mid.strong(i, j) == mid.strong(i, j));
            }
        }
    }

    /// Sets the processed flag of the particle at `(x, y)`, if there is one.
    pub fn mark_updated(&mut self, x: usize, y: usize)
        requires
            old(self).wf(),
            old(self).in_bounds(x as int, y as int),
        ensures
            final(self).wf(),
            final(self).same_geometry(old(self)),
            final(self).cell(x as int, y as int) == flagged(old(self).cell(x as int, y as int)),
            final(self).same_cells_except(old(self), x as int, y as int),
            final(self).same_activity(old(self)),
    {
        proof {
            self.lemma_cell_location(x as int, y as int);
        }
        let index = self.to_index(x, y);
        let lx = x % self.chunk_width;
        let ly = y % self.chunk_height;
        self.chunks[index].mark_updated(lx, ly);
        proof {
            self.lemma_tile_replaced(
                old(self),
                x as int,
                y as int,
                flagged(old(self).cell(x as int, y as int)),
            );
        }
    }

    /// Clears the processed flag of every particle.
    pub fn reset_updated(&mut self)
        requires
            old(self).wf(),
        ensures
            final(self).wf(),
            final(self).same_geometry(old(self)),
            forall|x: int, y: int|
                #![trigger final(self).cell(x, y)]
                old(self).in_bounds(x, y) ==> final(self).cell(x, y) == cleared(old(self).cell(x, y)),
            final(self).same_activity(old(self)),
    {
        let n = self.chunks.len();
        let mut k: usize = 0;
        while k < n
            invariant
                k <= n,
                n == self.chunks@.len(),
                self.x_chunks == old(self).x_chunks,
                self.y_chunks == old(self).y_chunks,
                self.chunk_width == old(self).chunk_width,
                self.chunk_height == old(self).chunk_height,
                self.total_width == old(self).total_width,
                self.total_height == old(self).total_height,
                self.chunks@.len() == old(self).chunks@.len(),
                old(self).wf(),
                forall|m: int|
                    0 <= m < n ==> {
                        &&& (#[trigger] self.chunks@[m]).wf()
                        &&& self.chunks@[m].same_shape(&old(self).chunks@[m])
                        &&& self.chunks@[m].strong() == old(self).chunks@[m].strong()
                        &&& self.chunks@[m].weak() == old(self).chunks@[m].weak()
                        &&& self.chunks@[m].cells() == if m < k {
                            old(self).chunks@[m].cells().map_values(|c: Option<Particle>| cleared(c))
                        } else {
                            old(self).chunks@[m].cells()
                        }
                    },
            decreases n - k,
        {
            proof {
                assert(old(self).chunks@[k as int].wf());
            }
            self.chunks[k].reset_updated();
            k = k + 1;
        }
        proof {
            assert forall|m: int| 0 <= m < self.chunks@.len() implies {
                &&& (#[trigger] self.chunks@[m]).wf()
                &&& self.chunks@[m].spec_width() == self.chunk_width
                &&& self.chunks@[m].spec_height() == self.chunk_height
                &&& self.chunks@[m].position() == (
                    (m % self.x_chunks as int) as usize,
                    (m / self.x_chunks as int) as usize,
                )
            } by {
                assert(old(self).chunks@[m].wf());
            }
            assert forall|x: int, y: int|
                #![trigger self.cell(x, y)]
                old(self).in_bounds(x, y) implies self.cell(x, y) == cleared(old(self).cell(x, y)) by {
                old(self).lemma_cell_location(x, y);
                lemma_local_index_bounds(old(self).cw(), old(self).ch(), x % old(self).cw(), y % old(self).ch());
            }
            assert forall|i: int, j: int|
                #![trigger self.strong(i, j)]
                old(self).in_chunk_grid(i, j) implies self.strong(i, j) == old(self).strong(i, j)
                    && self.weak(i, j) == old(self).weak(i, j) by {
                lemma_local_index_bounds(self.xc(), self.yc(), i, j);
            }
        }
    }

    /// Start of a tick: every tile's counters run down by one.
    pub fn reset_ticked_chunks(&mut self)
        requires
            old(self).wf(),
        ensures
            final(self).wf(),
            final(self).same_geometry(old(self)),
            final(self).same_cells(old(self)),
            forall|i: int, j: int|
                #![trigger final(self).strong(i, j)]
                old(self).in_chunk_grid(i, j) ==> final(self).strong(i, j) == old(self).strong(
                    i,
                    j,
                ).saturating_sub(1) && final(self).weak(i, j) == old(self).weak(i, j).saturating_sub(1),
    {
        let n = self.chunks.len();
        let mut k: usize = 0;
        while k < n
            invariant
                k <= n,
                n == self.chunks@.len(),
                self.x_chunks == old(self).x_chunks,
                self.y_chunks == old(self).y_chunks,
                self.chunk_width == old(self).chunk_width,
                self.chunk_height == old(self).chunk_height,
                self.total_width == old(self).total_width,
                self.total_height == old(self).total_height,
                self.chunks@.len() == old(self).chunks@.len(),
                old(self).wf(),
                forall|m: int|
                    0 <= m < n ==> {
                        &&& (#[trigger] self.chunks@[m]).wf()
                        &&& self.chunks@[m].same_shape(&old(self).chunks@[m])
                        &&& self.chunks@[m].cells() == old(self).chunks@[m].cells()
                        &&& self.chunks@[m].strong() == if m < k {
                            old(self).chunks@[m].strong().saturating_sub(1)
                        } else {
                            old(self).chunks@[m].strong()
                        }
                        &&& self.chunks@[m].weak() == if m < k {
                            old(self).chunks@[m].weak().saturating_sub(1)
                        } else {
                            old(self).chunks@[m].weak()
                        }
                    },
            decreases n - k,
        {
            proof {
                assert(old(self).chunks@[k as int].wf());
            }
            self.chunks[k].reset_ticked();
            k = k + 1;
        }
        proof {
            assert forall|m: int| 0 <= m < self.chunks@.len() implies {
                &&& (#[trigger] self.chunks@[m]).wf()
                &&& self.chunks@[m].spec_width() == self.chunk_width
                &&& self.chunks@[m].spec_height() == self.chunk_height
                &&& self.chunks@[m].position() == (
                    (m % self.x_chunks as int) as usize,
                    (m / self.x_chunks as int) as usize,
                )
            } by {
                assert(old(self).chunks@[m].wf());
            }
            assert forall|x: int, y: int|
                #![trigger self.cell(x, y)]
                old(self).in_bounds(x, y) implies self.cell(x, y) == old(self).cell(x, y) by {
                old(self).lemma_cell_location(x, y);
            }
            assert forall|i: int, j: int|
                #![trigger self.strong(i, j)]
                old(self).in_chunk_grid(i, j) implies self.strong(i, j) == old(self).strong(
                    i,
                    j,
                ).saturating_sub(1) && self.weak(i, j) == old(self).weak(i, j).saturating_sub(1) by {
                lemma_local_index_bounds(self.xc(), self.yc(), i, j);
            }
        }
    }

    /// Re-arms weak activity on the tile of `(x, y)`.
    pub fn weak_tick_at(&mut self, x: usize, y: usize)
        requires
            old(self).wf(),
            old(self).in_bounds(x as int, y as int),
        ensures
            final(self).wf(),
            final(self).same_geometry(old(self)),
            final(self).same_cells(old(self)),
            final(self).weak_rearmed_at(old(self), x as int, y as int),
    {
        proof {
            self.lemma_cell_location(x as int, y as int);
        }
        let index = self.to_index(x, y);
        self.chunks[index].weak_tick();
        proof {
            let k = index as int;
            assert forall|m: int| 0 <= m < self.chunks@.len() implies {
                &&& (#[trigger] self.chunks@[m]).wf()
                &&& self.chunks@[m].spec_width() == self.chunk_width
                &&& self.chunks@[m].spec_height() == self.chunk_height
                &&& self.chunks@[m].position() == (
                    (m % self.x_chunks as int) as usize,
                    (m / self.x_chunks as int) as usize,
                )
            } by {
                assert(old(self).chunks@[m].wf());
            }
            assert forall|qx: int, qy: int|
                #![trigger self.cell(qx, qy)]
                old(self).in_bounds(qx, qy) implies self.cell(qx, qy) == old(self).cell(qx, qy) by {
                old(self).lemma_cell_location(qx, qy);
            }
            assert forall|i: int, j: int|
                #![trigger self.strong(i, j)]
                old(self).in_chunk_grid(i, j) implies self.strong(i, j) == old(self).strong(i, j) by {
                lemma_local_index_bounds(self.xc(), self.yc(), i, j);
                if !(i == x as int / old(self).cw() && j == y as int / old(self).ch()) {
                    old(self).lemma_chunks_distinct(
                        i,
                        j,
                        x as int / old(self).cw(),
                        y as int / old(self).ch(),
                    );
                }
            }
            assert forall|i: int, j: int|
                #![trigger self.weak(i, j)]
                old(self).in_chunk_grid(i, j) implies self.weak(i, j) == if i == x as int / old(self).cw() && j == y as int / old(self).ch() {
                    MAX_TICKED_BEFORE_SLEEP
                } else {
                    old(self).weak(i, j)
                } by {
                lemma_local_index_bounds(self.xc(), self.yc(), i, j);
                if !(i == x as int / old(self).cw() && j == y as int / old(self).ch()) {
                    old(self).lemma_chunks_distinct(
                        i,
                        j,
                        x as int / old(self).cw(),
                        y as int / old(self).ch(),
                    );
                }
            }
        }
    }

    /// The tile holding cell `(x, y)`.
    pub fn get_chunk(&self, x: usize, y: usize) -> (r: &SandboxChunk)
        requires
            self.wf(),
            self.in_bounds(x as int, y as int),
        ensures
            *r == self.chunk_at(x as int / self.cw(), y as int / self.ch()),
            r.strong() == self.strong(x as int / self.cw(), y as int / self.ch()),
            r.weak() == self.weak(x as int / self.cw(), y as int / self.ch()),
    {
        proof {
            self.lemma_cell_location(x as int, y as int);
        }
        let index = self.to_index(x, y);
        &self.chunks[index]
    }

    /// The particle at `(x, y)`, to change in place without touching the
    /// activity counters; nothing for an empty cell.
    pub fn get_mut(&mut self, x: usize, y: usize) -> (r: Option<&mut Particle>)
        requires
            old(self).wf(),
            old(self).in_bounds(x as int, y as int),
        ensures
            r is Some <==> old(self).cell(x as int, y as int) is Some,
            r is Some ==> old(self).cell(x as int, y as int) == Some(*r.unwrap()),
            final(self).wf(),
            final(self).same_geometry(old(self)),
            final(self).same_activity(old(self)),
            final(self).same_cells_except(old(self), x as int, y as int),
            r is Some ==> final(self).cell(x as int, y as int) == Some(*final(r.unwrap())),
            r is None ==> final(self).cell(x as int, y as int) is None,
    {
        proof {
            self.lemma_cell_location(x as int, y as int);
            let k = self.chunk_index(x as int, y as int);
            let li = local_index(self.cw(), x as int % self.cw(), y as int % self.ch());
            lemma_local_index_bounds(self.cw(), self.ch(), x as int % self.cw(), y as int % self.ch());
            assert forall|qx: int, qy: int|
                #![trigger self.chunk_index(qx, qy)]
                self.in_bounds(qx, qy) && !(qx == x && qy == y) implies {
                &&& self.chunk_index(qx, qy) != k || local_index(
                    self.cw(),
                    qx % self.cw(),
                    qy % self.ch(),
                ) != li
                &&& 0 <= self.chunk_index(qx, qy) < self.chunks@.len()
                &&& 0 <= local_index(self.cw(), qx % self.cw(), qy % self.ch()) < self.cw()
                    * self.ch()
            } by {
                self.lemma_cells_distinct(x as int, y as int, qx, qy);
                self.lemma_cell_location(qx, qy);
                lemma_local_index_bounds(self.cw(), self.ch(), qx % self.cw(), qy % self.ch());
            }
            assert forall|i: int, j: int|
                #![trigger self.strong(i, j)]
                self.in_chunk_grid(i, j) implies 0 <= local_index(self.xc(), i, j) < self.chunks@.len()
                && (local_index(self.xc(), i, j) == k <==> (i == x as int / self.cw() && j == y as int
                / self.ch())) by {
                lemma_local_index_bounds(self.xc(), self.yc(), i, j);
                if !(i == x as int / self.cw() && j == y as int / self.ch()) {
                    self.lemma_chunks_distinct(i, j, x as int / self.cw(), y as int / self.ch());
                }
            }
        }
        let index = self.to_index(x, y);
        let lx = x % self.chunk_width;
        let ly = y % self.chunk_height;
        self.chunks[index].get_mut(lx, ly)
    }

    /// The particle at `(x, y)` to change in place; nothing outside the grid or
    /// for an empty cell.
    pub fn checked_get_mut(&mut self, x: usize, y: usize) -> (r: Option<&mut Particle>)
        requires
            old(self).wf(),
        ensures
            r is Some <==> (old(self).in_bounds(x as int, y as int) && old(self).cell(
                x as int,
                y as int,
            ) is Some),
            r is Some ==> old(self).cell(x as int, y as int) == Some(*r.unwrap()),
            final(self).wf(),
            final(self).same_geometry(old(self)),
            final(self).same_activity(old(self)),
            final(self).same_cells_except(old(self), x as int, y as int),
            r is Some ==> final(self).cell(x as int, y as int) == Some(*final(r.unwrap())),
            r is None && old(self).in_bounds(x as int, y as int) ==> final(self).cell(
                x as int,
                y as int,
            ) is None,
    {
        if self.out_of_bounds_usize(x, y) {
            None
        } else {
            self.get_mut(x, y)
        }
    }

    /// The particle at signed coordinates `(x, y)` to change in place; nothing
    /// outside the grid or for an empty cell.
    pub fn checked_get_mut_i32(&mut self, x: i32, y: i32) -> (r: Option<&mut Particle>)
        requires
            old(self).wf(),
        ensures
            r is Some <==> (old(self).in_bounds(x as int, y as int) && old(self).cell(
                x as int,
                y as int,
            ) is Some),
            r is Some ==> old(self).cell(x as int, y as int) == Some(*r.unwrap()),
            final(self).wf(),
            final(self).same_geometry(old(self)),
            final(self).same_activity(old(self)),
            final(self).same_cells_except(old(self), x as int, y as int),
            r is Some ==> final(self).cell(x as int, y as int) == Some(*final(r.unwrap())),
            r is None && old(self).in_bounds(x as int, y as int) ==> final(self).cell(
                x as int,
                y as int,
            ) is None,
    {
        if self.out_of_bounds_i32(x, y) {
            None
        } else {
            self.get_mut(x as usize, y as usize)
        }
    }

    /// The tile holding cell `(x, y)`, to change in place. The grid keeps its
    /// shape, and tile `(x / cw, y / ch)` becomes whatever the caller leaves there.
    pub fn get_chunk_mut(&mut self, x: usize, y: usize) -> (r: &mut SandboxChunk)
        requires
            old(self).wf(),
            old(self).in_bounds(x as int, y as int),
        ensures
            *r == old(self).chunk_at(x as int / old(self).cw(), y as int / old(self).ch()),
            final(self).chunk_seq() == old(self).chunk_seq().update(
                local_index(old(self).xc(), x as int / old(self).cw(), y as int / old(self).ch()),
                *final(r),
            ),
            final(self).xc() == old(self).xc(),
            final(self).yc() == old(self).yc(),
            final(self).cw() == old(self).cw(),
            final(self).ch() == old(self).ch(),
            final(self).spec_width() == old(self).spec_width(),
            final(self).spec_height() == old(self).spec_height(),
    {
        proof {
            self.lemma_cell_location(x as int, y as int);
        }
        let index = self.to_index(x, y);
        &mut self.chunks[index]
    }

    /// Every tile, row by row.
    pub fn get_all_chunks(&self) -> (r: &[SandboxChunk])
        ensures
            r@ == self.chunk_seq(),
    {
        self.chunks.as_slice()
    }

    /// Whether all eight neighbors of `(x, y)` lie inside the grid and are occupied.
    pub fn eight_surrounded(&self, x: usize, y: usize) -> (r: bool)
        requires
            self.wf(),
        ensures
            r == self.surrounded(x as int, y as int),
    {
        if x == 0 || y == 0 || x >= self.total_width || y >= self.total_height {
            return false;
        }
        if x + 1 >= self.total_width || y + 1 >= self.total_height {
            return false;
        }
        self.get(x - 1, y).is_some() && self.get(x + 1, y).is_some() && self.get(x, y - 1).is_some()
            && self.get(x, y + 1).is_some() && self.get(x - 1, y - 1).is_some() && self.get(
            x + 1,
            y + 1,
        ).is_some() && self.get(x + 1, y - 1).is_some() && self.get(x - 1, y + 1).is_some()
    }

    /// Cell `(x, y)` and its eight neighbors lie inside the grid, and every
    /// neighbor is occupied.
    pub open spec fn surrounded(&self, x: int, y: int) -> bool {
        &&& self.in_bounds(x - 1, y - 1)
        &&& self.in_bounds(x + 1, y + 1)
        &&& self.cell(x - 1, y).is_some()
        &&& self.cell(x + 1, y).is_some()
        &&& self.cell(x, y - 1).is_some()
        &&& self.cell(x, y + 1).is_some()
        &&& self.cell(x - 1, y - 1).is_some()
        &&& self.cell(x + 1, y + 1).is_some()
        &&& self.cell(x + 1, y - 1).is_some()
        &&& self.cell(x - 1, y + 1).is_some()
    }
}

/// A grid of `x_chunks` by `y_chunks` tiles of the default tile size, all empty.
pub fn spawn_sandbox(x_chunks: usize, y_chunks: usize) -> (r: Sandbox)
    requires
        x_chunks * SANDBOX_CHUNK_WIDTH <= i32::MAX,
        y_chunks * SANDBOX_CHUNK_HEIGHT <= i32::MAX,
        x_chunks * SANDBOX_CHUNK_WIDTH * (y_chunks * SANDBOX_CHUNK_HEIGHT) <= usize::MAX,
    ensures
        r.wf(),
        r.xc() == x_chunks,
        r.yc() == y_chunks,
        r.cw() == SANDBOX_CHUNK_WIDTH,
        r.ch() == SANDBOX_CHUNK_HEIGHT,
        forall|qx: int, qy: int| r.in_bounds(qx, qy) ==> (#[trigger] r.cell(qx, qy)) is None,
{
    Sandbox::new(x_chunks, y_chunks, SANDBOX_CHUNK_WIDTH, SANDBOX_CHUNK_HEIGHT)
}

} // verus!
