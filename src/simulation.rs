use vstd::arithmetic::div_mod::lemma_fundamental_div_mod_converse;
use vstd::prelude::*;

use crate::chunk::cleared;
use crate::effects::acidity::{acid_step, tick_acidity};
use crate::effects::growable::{grown_into, growth_step, spreadable, sproutable, tick_growable};
use crate::effects::movement::{movement_step, tick_movement};
use crate::effects::orthogonal;
use crate::effects::temperature::{thermal_step, tick_temperature};
use crate::effects::tick_life::{life_step, tick_life};
use crate::sandbox::Sandbox;

verus! {

/// A tile with any activity left gets its cells stepped.
pub open spec fn tile_active(sandbox: &Sandbox, x: int, y: int) -> bool {
    sandbox.strong(x / sandbox.cw(), y / sandbox.ch()) > 0 || sandbox.weak(
        x / sandbox.cw(),
        y / sandbox.ch(),
    ) > 0
}

/// The scan visits cell `(x, y)` of `before`, giving `after`.
pub open spec fn scan_step(before: &Sandbox, after: &Sandbox, x: int, y: int) -> bool {
    if tile_active(before, x, y) {
        stepped(before, after, x, y)
    } else {
        *after == *before
    }
}

/// `states` runs through the raster scan of a `width` by `height` grid: the
/// `k`-th state comes from the one before by visiting column `k / height`,
/// row `k % height`.
pub open spec fn raster(states: Seq<Sandbox>, width: int, height: int) -> bool {
    &&& states.len() == width * height + 1
    &&& forall|k: int|
        0 <= k < width * height ==> #[trigger] scan_step(
            &states[k],
            &states[k + 1],
            k / height as int,
            k % height as int,
        )
}

/// Runs one simulation step: the tiles' counters run down, every cell of an
/// active tile is stepped in a raster scan (column by column), and the
/// processed flags are cleared again.
pub fn update_particles(sandbox: &mut Sandbox)
    requires
        old(sandbox).wf(),
    ensures
        final(sandbox).wf(),
        final(sandbox).same_geometry(old(sandbox)),
        exists|states: Seq<Sandbox>|
            {
                &&& #[trigger] raster(states, old(sandbox).spec_width(), old(sandbox).spec_height())
                &&& states[0].wf()
                &&& states[0].same_geometry(old(sandbox))
                &&& states[0].same_cells(old(sandbox))
                &&& forall|i: int, j: int|
                    #![trigger states[0].strong(i, j)]
                    old(sandbox).in_chunk_grid(i, j) ==> states[0].strong(i, j) == old(
                        sandbox,
                    ).strong(i, j).saturating_sub(1) && states[0].weak(i, j) == old(
                        sandbox,
                    ).weak(i, j).saturating_sub(1)
                &&& final(sandbox).same_activity(&states[states.len() - 1])
                &&& forall|x: int, y: int|
                    #![trigger final(sandbox).cell(x, y)]
                    old(sandbox).in_bounds(x, y) ==> final(sandbox).cell(x, y) == cleared(
                        states[states.len() - 1].cell(x, y),
                    )
            },
        forall|x: int, y: int|
            #![trigger final(sandbox).cell(x, y)]
            final(sandbox).in_bounds(x, y) && final(sandbox).cell(x, y) is Some
                ==> !final(sandbox).cell(x, y).unwrap().updated,
{
    sandbox.reset_ticked_chunks();
    let width = sandbox.width();
    let height = sandbox.height();
    let ghost start = *sandbox;
    let ghost mut states: Seq<Sandbox> = seq![*sandbox];
    proof {
        sandbox.lemma_dims();
        assert(0 <= width * height) by (nonlinear_arith)
            requires
                width >= 0,
                height >= 0,
        ;
    }
    let mut x: usize = 0;
    while x < width
        invariant
            x <= width,
            sandbox.wf(),
            sandbox.same_geometry(&start),
            start.same_geometry(old(sandbox)),
            width == start.spec_width(),
            height == start.spec_height(),
            height >= 0,
            states.len() == x * height + 1,
            states[0] == start,
            states[states.len() - 1] == *sandbox,
            forall|k: int|
                0 <= k < x * height ==> #[trigger] scan_step(
                    &states[k],
                    &states[k + 1],
                    k / height as int,
                    k % height as int,
                ),
        decreases width - x,
    {
        let mut y: usize = 0;
        while y < height
            invariant
                x < width,
                y <= height,
                sandbox.wf(),
                sandbox.same_geometry(&start),
                width == start.spec_width(),
                height == start.spec_height(),
                states.len() == x * height + y + 1,
                states[0] == start,
                states[states.len() - 1] == *sandbox,
                forall|k: int|
                    0 <= k < x * height + y ==> #[trigger] scan_step(
                        &states[k],
                        &states[k + 1],
                        k / height as int,
                        k % height as int,
                    ),
            decreases height - y,
        {
            let ghost before = *sandbox;
            let current_chunk = sandbox.get_chunk(x, y);
            if current_chunk.is_weak_ticked() || current_chunk.is_strong_ticked() {
                step_particle(x, y, sandbox);
            }
            proof {
                let k = x * height + y;
                lemma_fundamental_div_mod_converse(k, height as int, x as int, y as int);
                assert(scan_step(&before, sandbox, x as int, y as int));
                states = states.push(*sandbox);
                assert(states[k] == before);
                assert(states[k + 1] == *sandbox);
            }
            y = y + 1;
        }
        proof {
            assert((x + 1) * height == x * height + height) by (nonlinear_arith);
        }
        x = x + 1;
    }
    let ghost last = *sandbox;
    sandbox.reset_updated();
    proof {
        assert(width * height + 1 == states.len());
        assert(raster(states, old(sandbox).spec_width(), old(sandbox).spec_height()));
        assert(states[states.len() - 1] == last);
    }
}

/// Stepping cell `(x, y)` of `before` gives `after`: an empty or already
/// processed cell is left alone, a particle without health is removed, and any
/// other particle runs through its effects.
pub open spec fn stepped(before: &Sandbox, after: &Sandbox, x: int, y: int) -> bool {
    &&& after.wf()
    &&& after.same_geometry(before)
    &&& before.cell(x, y) is None || before.cell(x, y).unwrap().updated ==> *after == *before
    &&& before.cell(x, y) is Some && !before.cell(x, y).unwrap().updated && before.cell(
        x,
        y,
    ).unwrap().health.amount <= 0 ==> after.written(before, x, y, None)
    &&& before.cell(x, y) is Some && !before.cell(x, y).unwrap().updated && before.cell(
        x,
        y,
    ).unwrap().health.amount > 0 ==> effects_applied(before, after, x, y)
}

/// After lifespan left `s2` (used up the particle when `consumed`), growth and
/// movement lead to `after`.
pub open spec fn after_life(s2: &Sandbox, after: &Sandbox, x: int, y: int) -> bool {
    exists|s3: Sandbox, consumed: bool|
        {
            &&& s3.wf()
            &&& s3.same_geometry(s2)
            &&& #[trigger] life_step(s2, &s3, x, y, consumed)
            &&& consumed ==> *after == s3
            &&& !consumed ==> exists|s4: Sandbox|
                {
                    &&& s4.wf()
                    &&& s4.same_geometry(&s3)
                    &&& #[trigger] growth_step(&s3, &s4, x, y)
                    &&& movement_step(&s4, after, x, y)
                }
        }
}

/// After the thermal step, the rest of the pipeline leads to `after`.
pub open spec fn after_thermal(s1: &Sandbox, after: &Sandbox, x: int, y: int) -> bool {
    exists|s2: Sandbox, consumed: bool|
        {
            &&& s2.wf()
            &&& s2.same_geometry(s1)
            &&& #[trigger] thermal_step(s1, &s2, x, y, consumed)
            &&& consumed ==> *after == s2
            &&& !consumed ==> after_life(&s2, after, x, y)
        }
}

/// The effects of the particle at `(x, y)` of `before` lead to `after`:
/// corrosion, then the thermal effects, then lifespan, each ending the step
/// when it used the particle up, then growth and movement.
pub open spec fn effects_applied(before: &Sandbox, after: &Sandbox, x: int, y: int) -> bool {
    exists|s1: Sandbox, consumed: bool|
        {
            &&& s1.wf()
            &&& s1.same_geometry(before)
            &&& #[trigger] acid_step(before, &s1, x, y, consumed)
            &&& consumed ==> *after == s1
            &&& !consumed ==> after_thermal(&s1, after, x, y)
        }
}

/// Steps the particle at `(x, y)`, if there is one that has not been processed
/// this tick: a particle without health is removed; otherwise corrosion,
/// thermal effects and lifespan run, each ending the step when it uses the
/// particle up, and then growth and movement.
pub fn step_particle(x: usize, y: usize, sandbox: &mut Sandbox)
    requires
        old(sandbox).wf(),
        old(sandbox).in_bounds(x as int, y as int),
    ensures
        stepped(old(sandbox), final(sandbox), x as int, y as int),
{
    match sandbox.get(x, y) {
        Some(particle) => {
            if particle.updated {
                return;
            }
            if particle.health.amount <= 0 {
                sandbox.set(x, y, None);
                return;
            }
        },
        None => return,
    }
    let ghost s0 = *sandbox;
    let c1 = tick_acidity(x, y, sandbox);
    let ghost s1 = *sandbox;
    if c1 {
        assert(acid_step(&s0, &s1, x as int, y as int, c1));
        return;
    }
    let c2 = tick_temperature(x, y, sandbox);
    let ghost s2 = *sandbox;
    if c2 {
        assert(thermal_step(&s1, &s2, x as int, y as int, c2));
        assert(after_thermal(&s1, &s2, x as int, y as int));
        assert(acid_step(&s0, &s1, x as int, y as int, c1));
        return;
    }
    let c3 = tick_life(x, y, sandbox);
    let ghost s3 = *sandbox;
    if c3 {
        assert(life_step(&s2, &s3, x as int, y as int, c3));
        assert(after_life(&s2, &s3, x as int, y as int));
        assert(thermal_step(&s1, &s2, x as int, y as int, c2));
        assert(after_thermal(&s1, &s3, x as int, y as int));
        assert(acid_step(&s0, &s1, x as int, y as int, c1));
        return;
    }
    tick_growable(x, y, sandbox);
    let ghost s4 = *sandbox;
    proof {
        if !s4.same_cells(&s3) {
            let g = s3.cell(x as int, y as int).unwrap().growable;
            let (nx, ny) = choose|nx: int, ny: int|
                orthogonal(nx, ny, x as int, y as int) && (spreadable(&s3, nx, ny) || sproutable(
                    &s3,
                    nx,
                    ny,
                )) && #[trigger] grown_into(&s3, &s4, g.unwrap().grow_as, nx, ny);
            assert(s4.cell(x as int, y as int) == s3.cell(x as int, y as int));
        }
    }
    tick_movement(x, y, sandbox);
    proof {
        assert(growth_step(&s3, &s4, x as int, y as int));
        assert(life_step(&s2, &s3, x as int, y as int, c3));
        assert(after_life(&s2, sandbox, x as int, y as int));
        assert(thermal_step(&s1, &s2, x as int, y as int, c2));
        assert(after_thermal(&s1, sandbox, x as int, y as int));
        assert(acid_step(&s0, &s1, x as int, y as int, c1));
    }
}

} // verus!
