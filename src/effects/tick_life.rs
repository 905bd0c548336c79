use vstd::prelude::*;

use crate::effects::{replaced_by, replacement, with_health};
use crate::particle::ParticleHealth;
use crate::sandbox::Sandbox;

verus! {

/// What the lifespan step of the particle at `(x, y)` of `before` leaves: a
/// survivor's tile is weakly re-armed.
pub open spec fn life_step(before: &Sandbox, after: &Sandbox, x: int, y: int, consumed: bool) -> bool {
    let p = before.cell(x, y).unwrap();
    &&& after.same_cells_except(before, x, y)
    &&& p.tick_life is None ==> !consumed && *after == *before
    &&& p.tick_life is Some && p.health.amount - 1 > 0 ==> !consumed && after.cell(x, y) == Some(
        with_health(p, p.health.amount - 1),
    ) && after.weak_rearmed_at(before, x, y)
    &&& p.tick_life is Some && p.health.amount - 1 <= 0 ==> consumed && replaced_by(
        after.cell(x, y),
        p.tick_life.unwrap().replace_on_death,
    )
}

/// Counts a short-lived particle's life down by one tick. At the end of its life
/// it turns into its replacement material (or empty space) and `true` is
/// returned; otherwise its tile's weak activity is re-armed.
pub fn tick_life(x: usize, y: usize, sandbox: &mut Sandbox) -> (consumed: bool)
    requires
        old(sandbox).wf(),
        old(sandbox).in_bounds(x as int, y as int),
        old(sandbox).cell(x as int, y as int) is Some,
    ensures
        final(sandbox).wf(),
        final(sandbox).same_geometry(old(sandbox)),
        life_step(old(sandbox), final(sandbox), x as int, y as int, consumed),
{
    let p = sandbox.get_copied(x, y).unwrap();
    let life = match p.tick_life {
        Some(life) => life,
        None => return false,
    };
    if p.health.amount <= 1 {
        let r = replacement(life.replace_on_death);
        sandbox.set(x, y, r);
        return true;
    }
    let mut q = p;
    q.health = ParticleHealth { amount: p.health.amount - 1, ..p.health };
    sandbox.put(x, y, Some(q));
    sandbox.weak_tick_at(x, y);
    false
}

} // verus!
