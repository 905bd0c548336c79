use vstd::prelude::*;

use crate::particle::Particle;

verus! {

/// The value both activity counters are re-armed to.
pub const MAX_TICKED_BEFORE_SLEEP: u8 = 2;

/// `c` with its processed flag cleared.
pub open spec fn cleared(c: Option<Particle>) -> Option<Particle> {
    match c {
        Some(p) => Some(Particle { updated: false, ..p }),
        None => None,
    }
}

/// `c` with its processed flag set.
pub open spec fn flagged(c: Option<Particle>) -> Option<Particle> {
    match c {
        Some(p) => Some(Particle { updated: true, ..p }),
        None => None,
    }
}

/// Row-major offset of `(x, y)` in a tile `width` cells wide.
pub open spec fn local_index(width: int, x: int, y: int) -> int {
    y * width + x
}

/// A cell inside a `width` by `height` tile has an offset inside its storage.
pub proof fn lemma_local_index_bounds(width: int, height: int, x: int, y: int)
    requires
        0 <= x < width,
        0 <= y < height,
    ensures
        0 <= local_index(width, x, y) < width * height,
{
    assert(y * width + x < width * height) by (nonlinear_arith)
        requires
            0 <= x < width,
            0 <= y < height,
    ;
    assert(0 <= y * width) by (nonlinear_arith)
        requires
            0 <= x < width,
            0 <= y,
    ;
}

/// Two cells of one tile with the same offset are the same cell.
pub proof fn lemma_local_index_injective(width: int, x1: int, y1: int, x2: int, y2: int)
    requires
        0 <= x1 < width,
        0 <= x2 < width,
        0 <= y1,
        0 <= y2,
        local_index(width, x1, y1) == local_index(width, x2, y2),
    ensures
        x1 == x2,
        y1 == y2,
{
    if y1 < y2 {
        assert(y1 * width + width <= y2 * width) by (nonlinear_arith)
            requires
                y1 < y2,
                0 <= width,
        ;
    } else if y2 < y1 {
        assert(y2 * width + width <= y1 * width) by (nonlinear_arith)
            requires
                y2 < y1,
                0 <= width,
        ;
    }
}

/// A reset lowers a positive activity counter by exactly one and leaves a
/// sleeping one at zero, so it never underflows; a tile that is not re-armed
/// falls asleep after as many resets as the maximum.
pub proof fn lemma_counter_runs_down(before: SandboxChunk, after: SandboxChunk)
    requires
        before.wf(),
        after.strong() == before.strong().saturating_sub(1),
        after.weak() == before.weak().saturating_sub(1),
    ensures
        before.strong() > 0 ==> after.strong() == before.strong() - 1,
        before.strong() == 0 ==> after.strong() == 0,
        before.weak() > 0 ==> after.weak() == before.weak() - 1,
        before.weak() == 0 ==> after.weak() == 0,
        after.strong() <= before.strong(),
        after.weak() <= before.weak(),
        before.strong().saturating_sub(1).saturating_sub(1) == 0,
        before.weak().saturating_sub(1).saturating_sub(1) == 0,
{
}

/// A counter after `n` resets in a row, starting from `c`.
pub open spec fn after_resets(c: u8, n: nat) -> u8
    decreases n,
{
    if n == 0 {
        c
    } else {
        after_resets(c, (n - 1) as nat).saturating_sub(1)
    }
}

/// A tile that was last re-armed `n` resets ago is still active exactly when
/// `n` is below the maximum: it stays awake for two ticks after its last
/// write, then sleeps.
pub proof fn lemma_awake_for_two_resets(n: nat)
    ensures
        (after_resets(MAX_TICKED_BEFORE_SLEEP, n) > 0) == (n < 2),
        after_resets(MAX_TICKED_BEFORE_SLEEP, n) == if n < 2 { 2 - n } else { 0 },
    decreases n,
{
    if n > 0 {
        lemma_awake_for_two_resets((n - 1) as nat);
    }
}

/// A fixed-size tile of cells with its two activity counters.
#[derive(Debug)]
pub struct SandboxChunk {
    width: usize,
    height: usize,
    local_position: (usize, usize),
    particles: Vec<Option<Particle>>,
    strong_ticked: u8,
    weak_ticked: u8,
}

impl SandboxChunk {
    /// The cells, row by row.
    pub closed spec fn cells(&self) -> Seq<Option<Particle>> {
        self.particles@
    }

    /// The tile's column and row in the grid of tiles.
    pub closed spec fn position(&self) -> (usize, usize) {
        self.local_position
    }

    pub closed spec fn spec_width(&self) -> int {
        self.width as int
    }

    pub closed spec fn spec_height(&self) -> int {
        self.height as int
    }

    /// Strong activity: the tile's pixels and colliders are stale.
    pub closed spec fn strong(&self) -> u8 {
        self.strong_ticked
    }

    /// Weak activity: the tile still needs simulation passes.
    pub closed spec fn weak(&self) -> u8 {
        self.weak_ticked
    }

    pub open spec fn wf(&self) -> bool {
        &&& self.cells().len() == self.spec_width() * self.spec_height()
        &&& self.spec_width() * self.spec_height() <= usize::MAX
        &&& self.strong() <= MAX_TICKED_BEFORE_SLEEP
        &&& self.weak() <= MAX_TICKED_BEFORE_SLEEP
    }

    pub open spec fn in_chunk(&self, x: int, y: int) -> bool {
        0 <= x < self.spec_width() && 0 <= y < self.spec_height()
    }

    pub open spec fn cell(&self, x: int, y: int) -> Option<Particle> {
        self.cells()[local_index(self.spec_width(), x, y)]
    }

    /// Same size and place as `o`.
    pub open spec fn same_shape(&self, o: &SandboxChunk) -> bool {
        &&& self.spec_width() == o.spec_width()
        &&& self.spec_height() == o.spec_height()
        &&& self.position() == o.position()
    }

    /// A tile of `width` by `height` empty cells, the `index`-th of a grid
    /// `x_chunks` tiles wide, with both counters armed.
    pub fn new(width: usize, height: usize, index: usize, x_chunks: usize) -> (r: Self)
        requires
            width * height <= usize::MAX,
            x_chunks > 0,
        ensures
            r.wf(),
            r.spec_width() == width,
            r.spec_height() == height,
            r.position() == (index % x_chunks, index / x_chunks),
            r.strong() == MAX_TICKED_BEFORE_SLEEP,
            r.weak() == MAX_TICKED_BEFORE_SLEEP,
            forall|i: int| 0 <= i < r.cells().len() ==> r.cells()[i].is_none(),
    {
        let n: usize = width * height;
        let mut particles: Vec<Option<Particle>> = Vec::with_capacity(n);
        let mut i: usize = 0;
        while i < n
            invariant
                i <= n,
                particles@.len() == i,
                forall|k: int| 0 <= k < i ==> particles@[k].is_none(),
            decreases n - i,
        {
            particles.push(None);
            i = i + 1;
        }
        Self {
            width,
            height,
            particles,
            local_position: (index % x_chunks, index / x_chunks),
            strong_ticked: MAX_TICKED_BEFORE_SLEEP,
            weak_ticked: MAX_TICKED_BEFORE_SLEEP,
        }
    }

    pub fn get(&self, x: usize, y: usize) -> (r: Option<&Particle>)
        requires
            self.wf(),
            self.in_chunk(x as int, y as int),
        ensures
            r.is_some() == self.cell(x as int, y as int).is_some(),
            r.is_some() ==> self.cell(x as int, y as int) == Some(*r.unwrap()),
    {
        proof {
            lemma_local_index_bounds(self.spec_width(), self.spec_height(), x as int, y as int);
        }
        let index = self.to_index(x, y);
        self.particles[index].as_ref()
    }

    pub fn get_mut(&mut self, x: usize, y: usize) -> (r: Option<&mut Particle>)
        requires
            old(self).wf(),
            old(self).in_chunk(x as int, y as int),
        ensures
            r.is_some() == old(self).cell(x as int, y as int).is_some(),
            r.is_some() ==> old(self).cell(x as int, y as int) == Some(*r.unwrap()),
            r.is_some() ==> final(self).cells() == old(self).cells().update(
                local_index(old(self).spec_width(), x as int, y as int),
                Some(*final(r.unwrap())),
            ),
            r.is_none() ==> final(self).cells() =~= old(self).cells(),
            final(self).same_shape(old(self)),
            final(self).strong() == old(self).strong(),
            final(self).weak() == old(self).weak(),
    {
        proof {
            lemma_local_index_bounds(self.spec_width(), self.spec_height(), x as int, y as int);
        }
        let index = self.to_index(x, y);
        self.particles[index].as_mut()
    }

    /// Writes a cell and re-arms strong activity.
    pub fn set(&mut self, x: usize, y: usize, particle: Option<Particle>)
        requires
            old(self).wf(),
            old(self).in_chunk(x as int, y as int),
        ensures
            final(self).wf(),
            final(self).same_shape(old(self)),
            final(self).cells() == old(self).cells().update(
                local_index(old(self).spec_width(), x as int, y as int),
                particle,
            ),
            final(self).strong() == MAX_TICKED_BEFORE_SLEEP,
            final(self).weak() == old(self).weak(),
    {
        proof {
            lemma_local_index_bounds(self.spec_width(), self.spec_height(), x as int, y as int);
        }
        let index = self.to_index(x, y);
        self.particles.set(index, particle);
        self.strong_tick();
    }

    /// Writes a cell without touching the counters: a change that needs no rebuild.
    pub fn put(&mut self, x: usize, y: usize, particle: Option<Particle>)
        requires
            old(self).wf(),
            old(self).in_chunk(x as int, y as int),
        ensures
            final(self).wf(),
            final(self).same_shape(old(self)),
            final(self).cells() == old(self).cells().update(
                local_index(old(self).spec_width(), x as int, y as int),
                particle,
            ),
            final(self).strong() == old(self).strong(),
            final(self).weak() == old(self).weak(),
    {
        proof {
            lemma_local_index_bounds(self.spec_width(), self.spec_height(), x as int, y as int);
        }
        let index = self.to_index(x, y);
        self.particles.set(index, particle);
    }

    /// Lets both counters run down by one, stopping at zero.
    pub fn reset_ticked(&mut self)
        requires
            old(self).wf(),
        ensures
            final(self).wf(),
            final(self).same_shape(old(self)),
            final(self).cells() == old(self).cells(),
            final(self).strong() == old(self).strong().saturating_sub(1),
            final(self).weak() == old(self).weak().saturating_sub(1),
    {
        self.strong_ticked = self.strong_ticked.saturating_sub(1);
        self.weak_ticked = self.weak_ticked.saturating_sub(1);
    }

    pub fn strong_tick(&mut self)
        ensures
            old(self).wf() ==> final(self).wf(),
            final(self).same_shape(old(self)),
            final(self).cells() == old(self).cells(),
            final(self).strong() == MAX_TICKED_BEFORE_SLEEP,
            final(self).weak() == old(self).weak(),
    {
        self.strong_ticked = MAX_TICKED_BEFORE_SLEEP;
    }

    pub fn weak_tick(&mut self)
        ensures
            old(self).wf() ==> final(self).wf(),
            final(self).same_shape(old(self)),
            final(self).cells() == old(self).cells(),
            final(self).strong() == old(self).strong(),
            final(self).weak() == MAX_TICKED_BEFORE_SLEEP,
    {
        self.weak_ticked = MAX_TICKED_BEFORE_SLEEP;
    }

    pub fn is_strong_ticked(&self) -> (r: bool)
        ensures
            r == (self.strong() > 0),
    {
        self.strong_ticked > 0
    }

    pub fn is_weak_ticked(&self) -> (r: bool)
        ensures
            r == (self.weak() > 0),
    {
        self.weak_ticked > 0
    }

    /// Sets the processed flag of the particle at `(x, y)`, if there is one.
    pub fn mark_updated(&mut self, x: usize, y: usize)
        requires
            old(self).wf(),
            old(self).in_chunk(x as int, y as int),
        ensures
            final(self).wf(),
            final(self).same_shape(old(self)),
            final(self).cells() == old(self).cells().update(
                local_index(old(self).spec_width(), x as int, y as int),
                flagged(old(self).cell(x as int, y as int)),
            ),
            final(self).strong() == old(self).strong(),
            final(self).weak() == old(self).weak(),
    {
        proof {
            lemma_local_index_bounds(self.spec_width(), self.spec_height(), x as int, y as int);
        }
        let index = self.to_index(x, y);
        if let Some(particle) = self.particles[index] {
            self.particles.set(index, Some(Particle { updated: true, ..particle }));
        }
        assert(self.particles@ =~= old(self).particles@.update(
            index as int,
            flagged(old(self).cell(x as int, y as int)),
        ));
    }

    /// Clears the processed flag of every particle.
    pub fn reset_updated(&mut self)
        requires
            old(self).wf(),
        ensures
            final(self).wf(),
            final(self).same_shape(old(self)),
            final(self).cells() == old(self).cells().map_values(|c: Option<Particle>| cleared(c)),
            final(self).strong() == old(self).strong(),
            final(self).weak() == old(self).weak(),
    {
        let n = self.particles.len();
        let mut i: usize = 0;
        while i < n
            invariant
                i <= n,
                n == old(self).particles@.len(),
                self.particles@.len() == n,
                self.width == old(self).width,
                self.height == old(self).height,
                self.local_position == old(self).local_position,
                self.strong_ticked == old(self).strong_ticked,
                self.weak_ticked == old(self).weak_ticked,
                forall|k: int| 0 <= k < i ==> self.particles@[k] == cleared(old(self).particles@[k]),
                forall|k: int| i <= k < n ==> self.particles@[k] == old(self).particles@[k],
            decreases n - i,
        {
            if let Some(particle) = self.particles[i] {
                self.particles.set(i, Some(Particle { updated: false, ..particle }));
            }
            i = i + 1;
        }
        assert(self.particles@ =~= old(self).particles@.map_values(|c: Option<Particle>| cleared(c)));
    }

    /// The tile's column and row in the grid of tiles.
    pub fn local_position(&self) -> (r: (usize, usize))
        ensures
            r == self.position(),
    {
        self.local_position
    }

    pub fn width(&self) -> (r: usize)
        ensures
            r == self.spec_width(),
    {
        self.width
    }

    pub fn height(&self) -> (r: usize)
        ensures
            r == self.spec_height(),
    {
        self.height
    }

    fn to_index(&self, x: usize, y: usize) -> (r: usize)
        requires
            self.in_chunk(x as int, y as int),
            self.wf(),
        ensures
            r == local_index(self.spec_width(), x as int, y as int),
    {
        proof {
            lemma_local_index_bounds(self.spec_width(), self.spec_height(), x as int, y as int);
        }
        (y * self.width) + x
    }
}

} // verus!
