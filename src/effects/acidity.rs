use vstd::prelude::*;

use crate::effects::{orthogonal, with_health};
use crate::chunk::MAX_TICKED_BEFORE_SLEEP;
use crate::particle::{Particle, ParticleHealth};
use crate::sandbox::{step_back, step_back_spec, Sandbox};

verus! {

/// Acid does damage to `c` when it holds a corrodable particle.
pub open spec fn corrodable(c: Option<Particle>) -> bool {
    c is Some && c.unwrap().health.corrodable
}

/// What a cell holds after acid of strength `acidity` touched it: a corrodable
/// particle loses that much health and is gone once it has none left.
pub open spec fn corroded(c: Option<Particle>, acidity: int) -> Option<Particle> {
    if corrodable(c) {
        let q = c.unwrap();
        if q.health.amount - acidity <= 0 {
            None
        } else {
            Some(with_health(q, q.health.amount - acidity))
        }
    } else {
        c
    }
}

/// 1 when `(x, y)` lies in the grid and holds a corrodable particle, else 0.
pub open spec fn hit(sandbox: &Sandbox, x: int, y: int) -> int {
    if sandbox.in_bounds(x, y) && corrodable(sandbox.cell(x, y)) {
        1
    } else {
        0
    }
}

/// How many of the four orthogonal neighbors of `(x, y)` acid can eat.
pub open spec fn hits_around(sandbox: &Sandbox, x: int, y: int) -> int {
    hit(sandbox, x - 1, y) + hit(sandbox, x + 1, y) + hit(sandbox, x, y - 1) + hit(sandbox, x, y + 1)
}

fn corrode_neighbor(nx: usize, ny: usize, acidity: i32, sandbox: &mut Sandbox) -> (hit_one: bool)
    requires
        old(sandbox).wf(),
        acidity > 0,
    ensures
        final(sandbox).wf(),
        final(sandbox).same_geometry(old(sandbox)),
        hit_one == (hit(old(sandbox), nx as int, ny as int) == 1),
        final(sandbox).same_cells_except(old(sandbox), nx as int, ny as int),
        old(sandbox).in_bounds(nx as int, ny as int) ==> final(sandbox).cell(nx as int, ny as int)
            == corroded(old(sandbox).cell(nx as int, ny as int), acidity as int),
        final(sandbox).keeps_weak_armed(old(sandbox)),
        hit_one ==> final(sandbox).weak_at(nx as int, ny as int) == MAX_TICKED_BEFORE_SLEEP,
{
    proof {
        sandbox.lemma_dims();
    }
    if sandbox.out_of_bounds_usize(nx, ny) {
        return false;
    }
    let q = match sandbox.get_copied(nx, ny) {
        Some(q) => q,
        None => return false,
    };
    if !q.health.corrodable {
        return false;
    }
    if q.health.amount as i64 - acidity as i64 <= 0 {
        sandbox.set(nx, ny, None);
    } else {
        let mut r = q;
        r.health = ParticleHealth { amount: q.health.amount - acidity, ..q.health };
        sandbox.put(nx, ny, Some(r));
    }
    let ghost mid = *sandbox;
    sandbox.weak_tick_at(nx, ny);
    proof {
        old(sandbox).lemma_tile_in_grid(nx as int, ny as int);
        assert(sandbox.weak(nx as int / mid.cw(), ny as int / mid.ch()) == MAX_TICKED_BEFORE_SLEEP);
    }
    true
}

/// What the corrosion step of the particle at `(x, y)` of `before` leaves: the
/// tiles of the acid and of every neighbor it ate are weakly re-armed.
pub open spec fn acid_step(before: &Sandbox, after: &Sandbox, x: int, y: int, consumed: bool) -> bool {
    let p = before.cell(x, y).unwrap();
    &&& (p.acidity is None || p.acidity.unwrap().0 <= 0) ==> !consumed && *after == *before
    &&& p.acidity is Some && p.acidity.unwrap().0 > 0 ==> {
        let a = p.acidity.unwrap().0 as int;
        let left = p.health.amount - hits_around(before, x, y);
        &&& forall|qx: int, qy: int|
            #![trigger after.cell(qx, qy)]
            before.in_bounds(qx, qy) && orthogonal(qx, qy, x, y) ==> after.cell(qx, qy) == corroded(
                before.cell(qx, qy),
                a,
            )
        &&& forall|qx: int, qy: int|
            #![trigger after.cell(qx, qy)]
            before.in_bounds(qx, qy) && !orthogonal(qx, qy, x, y) && !(qx == x && qy == y)
                ==> after.cell(qx, qy) == before.cell(qx, qy)
        &&& after.weak_at(x, y) == MAX_TICKED_BEFORE_SLEEP
        &&& forall|qx: int, qy: int|
            #![trigger after.weak_at(qx, qy)]
            before.in_bounds(qx, qy) && orthogonal(qx, qy, x, y) && corrodable(before.cell(qx, qy))
                ==> after.weak_at(qx, qy) == MAX_TICKED_BEFORE_SLEEP
        &&& consumed == (left <= 0)
        &&& consumed ==> after.cell(x, y) is None
        &&& !consumed ==> after.cell(x, y) == Some(with_health(p, left))
    }
}

/// Acid eats its four orthogonal neighbors: each corrodable one loses health
/// equal to the acidity and is removed once it has none left; the acid loses one
/// health per neighbor it ate, and `true` is returned when that used it up.
pub fn tick_acidity(x: usize, y: usize, sandbox: &mut Sandbox) -> (consumed: bool)
    requires
        old(sandbox).wf(),
        old(sandbox).in_bounds(x as int, y as int),
        old(sandbox).cell(x as int, y as int) is Some,
    ensures
        final(sandbox).wf(),
        final(sandbox).same_geometry(old(sandbox)),
        acid_step(old(sandbox), final(sandbox), x as int, y as int, consumed),
{
    let p = sandbox.get_copied(x, y).unwrap();
    let acidity = match p.acidity {
        Some(acid) => acid.0,
        None => return false,
    };
    if acidity <= 0 {
        return false;
    }
    proof {
        sandbox.lemma_dims();
    }
    let ghost s0 = *sandbox;
    let h1 = corrode_neighbor(step_back(x), y, acidity, sandbox);
    let ghost s1 = *sandbox;
    let h2 = corrode_neighbor(x + 1, y, acidity, sandbox);
    let ghost s2 = *sandbox;
    let h3 = corrode_neighbor(x, step_back(y), acidity, sandbox);
    let ghost s3 = *sandbox;
    let h4 = corrode_neighbor(x, y + 1, acidity, sandbox);
    let acid_ticks: i32 = (if h1 { 1i32 } else { 0i32 }) + (if h2 { 1i32 } else { 0i32 }) + (if h3 {
        1i32
    } else {
        0i32
    }) + (if h4 { 1i32 } else { 0i32 });
    proof {
        let xi = x as int;
        let yi = y as int;
        assert(hit(&s0, step_back_spec(x) as int, yi) == hit(&s0, xi - 1, yi));
        assert(hit(&s1, xi + 1, yi) == hit(&s0, xi + 1, yi));
        assert(hit(&s2, xi, step_back_spec(y) as int) == hit(&s0, xi, yi - 1));
        assert(hit(&s3, xi, yi + 1) == hit(&s0, xi, yi + 1));
    }
    let ghost s4 = *sandbox;
    sandbox.weak_tick_at(x, y);
    let ghost s5 = *sandbox;
    proof {
        let xi = x as int;
        let yi = y as int;
        s0.lemma_tile_in_grid(xi, yi);
        assert forall|qx: int, qy: int|
            s0.in_bounds(qx, qy) && orthogonal(qx, qy, xi, yi) && corrodable(s0.cell(qx, qy))
                implies #[trigger] s5.weak_at(qx, qy) == MAX_TICKED_BEFORE_SLEEP by {
            s0.lemma_tile_in_grid(qx, qy);
            let i = qx / s0.cw();
            let j = qy / s0.ch();
            if qx == xi - 1 {
                assert(s1.weak(i, j) == MAX_TICKED_BEFORE_SLEEP);
            } else if qx == xi + 1 {
                assert(s2.weak(i, j) == MAX_TICKED_BEFORE_SLEEP);
            } else if qy == yi - 1 {
                assert(s3.weak(i, j) == MAX_TICKED_BEFORE_SLEEP);
            } else {
                assert(s4.weak(i, j) == MAX_TICKED_BEFORE_SLEEP);
            }
            assert(s4.weak(i, j) == MAX_TICKED_BEFORE_SLEEP);
        }
    }
    let left: i64 = p.health.amount as i64 - acid_ticks as i64;
    if left <= 0 {
        sandbox.set(x, y, None);
        proof {
            assert forall|qx: int, qy: int|
                s0.in_bounds(qx, qy) && orthogonal(qx, qy, x as int, y as int) && corrodable(
                    s0.cell(qx, qy),
                ) implies #[trigger] sandbox.weak_at(qx, qy) == MAX_TICKED_BEFORE_SLEEP by {
                s0.lemma_tile_in_grid(qx, qy);
                assert(s5.weak_at(qx, qy) == MAX_TICKED_BEFORE_SLEEP);
            }
            s0.lemma_tile_in_grid(x as int, y as int);
        }
        return true;
    }
    let mut q = p;
    q.health = ParticleHealth { amount: left as i32, ..p.health };
    sandbox.put(x, y, Some(q));
    proof {
        assert forall|qx: int, qy: int|
            s0.in_bounds(qx, qy) && orthogonal(qx, qy, x as int, y as int) && corrodable(
                s0.cell(qx, qy),
            ) implies #[trigger] sandbox.weak_at(qx, qy) == MAX_TICKED_BEFORE_SLEEP by {
            s0.lemma_tile_in_grid(qx, qy);
            assert(s5.weak_at(qx, qy) == MAX_TICKED_BEFORE_SLEEP);
        }
        s0.lemma_tile_in_grid(x as int, y as int);
    }
    false
}

/// Acid removes, in one step, an orthogonal corrodable neighbor with no more
/// health than its acidity; and it survives the step when its own health
/// exceeds the number of neighbors it ate.
pub proof fn lemma_acid_removes_weak_neighbor(
    before: &Sandbox,
    after: &Sandbox,
    x: int,
    y: int,
    nx: int,
    ny: int,
    consumed: bool,
)
    requires
        before.in_bounds(x, y),
        before.cell(x, y) is Some,
        before.cell(x, y).unwrap().acidity is Some,
        before.cell(x, y).unwrap().acidity.unwrap().0 > 0,
        before.in_bounds(nx, ny),
        orthogonal(nx, ny, x, y),
        corrodable(before.cell(nx, ny)),
        before.cell(nx, ny).unwrap().health.amount <= before.cell(x, y).unwrap().acidity.unwrap().0,
        acid_step(before, after, x, y, consumed),
    ensures
        after.cell(nx, ny) is None,
        before.cell(x, y).unwrap().health.amount > hits_around(before, x, y) ==> !consumed
            && after.cell(x, y) is Some,
{
}

} // verus!
