use vstd::prelude::*;

use crate::effects::orthogonal;
use crate::chunk::MAX_TICKED_BEFORE_SLEEP;
use crate::particle::{Chance, Particle};
use crate::particle_types::{get_particle, is_particle_of, ParticleTypes};
use crate::random::{chance, shuffle_positions};
use crate::sandbox::{step_back, step_back_spec, Sandbox};

verus! {

broadcast use vstd::seq_lib::group_to_multiset_ensures;

/// `c` holds a particle of material `t` made this tick (already flagged as processed).
pub open spec fn fresh_growth(t: ParticleTypes, c: Option<Particle>) -> bool {
    c is Some && c.unwrap().updated && is_particle_of(t, Particle { updated: false, ..c.unwrap() })
}

/// Growth may spread onto `(x, y)`: an occupied cell that allows growth and is
/// not buried on all eight sides.
pub open spec fn spreadable(sandbox: &Sandbox, x: int, y: int) -> bool {
    &&& sandbox.in_bounds(x, y)
    &&& sandbox.cell(x, y) is Some
    &&& sandbox.cell(x, y).unwrap().growable_on
    &&& !sandbox.surrounded(x, y)
}

/// Growth may sprout into `(x, y)`: an empty cell of the grid.
pub open spec fn sproutable(sandbox: &Sandbox, x: int, y: int) -> bool {
    sandbox.in_bounds(x, y) && sandbox.cell(x, y) is None
}

/// The four orthogonal neighbors of `(x, y)`, where a step below zero leaves the grid.
pub open spec fn neighbors_of(x: usize, y: usize) -> Seq<(usize, usize)> {
    seq![
        (step_back_spec(x), y),
        ((x + 1) as usize, y),
        (x, step_back_spec(y)),
        (x, (y + 1) as usize),
    ]
}

/// `before` became `after` by growth of material `t` into one cell `(nx, ny)`.
pub open spec fn grew_at(
    before: &Sandbox,
    after: &Sandbox,
    t: ParticleTypes,
    nx: int,
    ny: int,
) -> bool {
    &&& fresh_growth(t, after.cell(nx, ny))
    &&& after.same_cells_except(before, nx, ny)
    &&& after.rearmed_around(before, nx, ny)
}

/// Spreads material `t` onto the first cell of `order` that allows it; `true`
/// when one was found.
pub fn spread_in_order(order: &Vec<(usize, usize)>, t: ParticleTypes, sandbox: &mut Sandbox) -> (spread: bool)
    requires
        old(sandbox).wf(),
    ensures
        final(sandbox).wf(),
        final(sandbox).same_geometry(old(sandbox)),
        spread == exists|k: int|
            0 <= k < order@.len() && spreadable(
                old(sandbox),
                (#[trigger] order@[k]).0 as int,
                order@[k].1 as int,
            ),
        !spread ==> *final(sandbox) == *old(sandbox),
        spread ==> exists|k: int|
            0 <= k < order@.len() && spreadable(
                old(sandbox),
                (#[trigger] order@[k]).0 as int,
                order@[k].1 as int,
            ) && (forall|j: int|
                0 <= j < k ==> !spreadable(
                    old(sandbox),
                    (#[trigger] order@[j]).0 as int,
                    order@[j].1 as int,
                )) && grew_at(old(sandbox), final(sandbox), t, order@[k].0 as int, order@[k].1 as int),
{
    let mut k: usize = 0;
    while k < order.len()
        invariant
            k <= order@.len(),
            *sandbox == *old(sandbox),
            sandbox.wf(),
            forall|j: int|
                0 <= j < k ==> !spreadable(sandbox, (#[trigger] order@[j]).0 as int, order@[j].1 as int),
        decreases order@.len() - k,
    {
        let (nx, ny) = order[k];
        if let Some(q) = sandbox.checked_get(nx, ny) {
            if q.growable_on && !sandbox.eight_surrounded(nx, ny) {
                let mut grown = get_particle(t);
                grown.updated = true;
                sandbox.set(nx, ny, Some(grown));
                return true;
            }
        }
        k = k + 1;
    }
    false
}

/// Sprouts material `t` into the first cell of `order` that is empty; `true`
/// when one was found.
pub fn sprout_in_order(order: &Vec<(usize, usize)>, t: ParticleTypes, sandbox: &mut Sandbox) -> (grown: bool)
    requires
        old(sandbox).wf(),
    ensures
        final(sandbox).wf(),
        final(sandbox).same_geometry(old(sandbox)),
        grown == exists|k: int|
            0 <= k < order@.len() && sproutable(
                old(sandbox),
                (#[trigger] order@[k]).0 as int,
                order@[k].1 as int,
            ),
        !grown ==> *final(sandbox) == *old(sandbox),
        grown ==> exists|k: int|
            0 <= k < order@.len() && sproutable(
                old(sandbox),
                (#[trigger] order@[k]).0 as int,
                order@[k].1 as int,
            ) && (forall|j: int|
                0 <= j < k ==> !sproutable(
                    old(sandbox),
                    (#[trigger] order@[j]).0 as int,
                    order@[j].1 as int,
                )) && grew_at(old(sandbox), final(sandbox), t, order@[k].0 as int, order@[k].1 as int),
{
    let mut k: usize = 0;
    while k < order.len()
        invariant
            k <= order@.len(),
            *sandbox == *old(sandbox),
            sandbox.wf(),
            forall|j: int|
                0 <= j < k ==> !sproutable(sandbox, (#[trigger] order@[j]).0 as int, order@[j].1 as int),
        decreases order@.len() - k,
    {
        let (nx, ny) = order[k];
        if sandbox.checked_get(nx, ny).is_none() && !sandbox.out_of_bounds_usize(nx, ny) {
            let mut fresh = get_particle(t);
            fresh.updated = true;
            sandbox.set(nx, ny, Some(fresh));
            return true;
        }
        k = k + 1;
    }
    false
}

fn neighbor_list(x: usize, y: usize) -> (r: Vec<(usize, usize)>)
    requires
        x < usize::MAX,
        y < usize::MAX,
    ensures
        r@ == neighbors_of(x, y),
{
    let mut r = Vec::new();
    r.push((step_back(x), y));
    r.push((x + 1, y));
    r.push((x, step_back(y)));
    r.push((x, y + 1));
    assert(r@ =~= neighbors_of(x, y));
    r
}

/// A cell of a shuffled neighbor list is an orthogonal neighbor, if it is in the grid.
proof fn lemma_shuffled_neighbor(
    sandbox: &Sandbox,
    order: Seq<(usize, usize)>,
    x: usize,
    y: usize,
    k: int,
)
    requires
        sandbox.wf(),
        x < usize::MAX,
        y < usize::MAX,
        order.to_multiset() == neighbors_of(x, y).to_multiset(),
        0 <= k < order.len(),
        sandbox.in_bounds(order[k].0 as int, order[k].1 as int),
    ensures
        orthogonal(order[k].0 as int, order[k].1 as int, x as int, y as int),
{
    sandbox.lemma_dims();
    assert(order.contains(order[k]));
    assert(order.to_multiset().count(order[k]) > 0);
    assert(neighbors_of(x, y).to_multiset().count(order[k]) > 0);
    assert(neighbors_of(x, y).contains(order[k]));
    let i = choose|i: int| 0 <= i < 4 && neighbors_of(x, y)[i] == order[k];
    assert(0 <= i < 4);
}

/// A probability of one.
pub open spec fn certain(c: Chance) -> bool {
    c.numerator == c.denominator && c.denominator > 0
}

/// Some orthogonal neighbor of `(x, y)` allows growth to spread onto it.
pub open spec fn can_spread_near(sandbox: &Sandbox, x: int, y: int) -> bool {
    exists|nx: int, ny: int| orthogonal(nx, ny, x, y) && #[trigger] spreadable(sandbox, nx, ny)
}

/// Some orthogonal neighbor of `(x, y)` is an empty cell of the grid.
pub open spec fn can_sprout_near(sandbox: &Sandbox, x: int, y: int) -> bool {
    exists|nx: int, ny: int| orthogonal(nx, ny, x, y) && #[trigger] sproutable(sandbox, nx, ny)
}

/// An orthogonal neighbor in the grid appears in any shuffle of the neighbor list.
proof fn lemma_neighbor_in_order(
    sandbox: &Sandbox,
    order: Seq<(usize, usize)>,
    x: usize,
    y: usize,
    nx: int,
    ny: int,
)
    requires
        sandbox.wf(),
        x < usize::MAX,
        y < usize::MAX,
        order.to_multiset() == neighbors_of(x, y).to_multiset(),
        orthogonal(nx, ny, x as int, y as int),
        sandbox.in_bounds(nx, ny),
    ensures
        exists|k: int|
            0 <= k < order.len() && (#[trigger] order[k]).0 as int == nx && order[k].1 as int == ny,
{
    let ns = neighbors_of(x, y);
    let i: int = if nx == x - 1 {
        0
    } else if nx == x + 1 {
        1
    } else if ny == y - 1 {
        2
    } else {
        3
    };
    assert(ns[i].0 as int == nx && ns[i].1 as int == ny);
    assert(ns.contains(ns[i]));
    assert(ns.to_multiset().count(ns[i]) > 0);
    assert(order.contains(ns[i]));
    let k = choose|k: int| 0 <= k < order.len() && order[k] == ns[i];
    assert(order[k].0 as int == nx && order[k].1 as int == ny);
}

/// Growth from `(x, y)` of material `t` took over the orthogonal neighbor
/// `(nx, ny)` of `before`, re-arming strong activity around it.
pub open spec fn grown_into(
    before: &Sandbox,
    after: &Sandbox,
    t: ParticleTypes,
    nx: int,
    ny: int,
) -> bool {
    &&& fresh_growth(t, after.cell(nx, ny))
    &&& after.same_cells_except(before, nx, ny)
    &&& forall|i: int, j: int|
        #![trigger after.strong(i, j)]
        before.in_chunk_grid(i, j) ==> after.strong(i, j) == if crate::sandbox::near(
            i,
            j,
            nx / before.cw(),
            ny / before.ch(),
        ) {
            MAX_TICKED_BEFORE_SLEEP
        } else {
            before.strong(i, j)
        }
}

/// Lateral spread: with the particle's spread chance, material of its growth
/// kind takes over the first neighbor, in random order, that allows growth.
/// Without a growth trait or with an invalid chance nothing happens; with a
/// certain chance and a neighbor that allows it, growth does spread.
fn try_spread(x: usize, y: usize, sandbox: &mut Sandbox) -> (spread: bool)
    requires
        old(sandbox).wf(),
        old(sandbox).in_bounds(x as int, y as int),
        old(sandbox).cell(x as int, y as int) is Some,
    ensures
        final(sandbox).wf(),
        final(sandbox).same_geometry(old(sandbox)),
        !spread ==> *final(sandbox) == *old(sandbox),
        ({
            let g = old(sandbox).cell(x as int, y as int).unwrap().growable;
            &&& g is None ==> !spread
            &&& g is Some && !g.unwrap().spread_chance.wf() ==> !spread
            &&& g is Some && g.unwrap().spread_chance.numerator == 0 ==> !spread
            &&& g is Some && certain(g.unwrap().spread_chance) && can_spread_near(
                old(sandbox),
                x as int,
                y as int,
            ) ==> spread
            &&& spread ==> g is Some && exists|nx: int, ny: int|
                orthogonal(nx, ny, x as int, y as int) && spreadable(old(sandbox), nx, ny)
                    && #[trigger] grew_at(old(sandbox), final(sandbox), g.unwrap().grow_as, nx, ny)
        }),
{
    let p = sandbox.get_copied(x, y).unwrap();
    let g = match p.growable {
        Some(g) => g,
        None => return false,
    };
    if !(g.spread_chance.numerator <= g.spread_chance.denominator && g.spread_chance.denominator > 0) {
        return false;
    }
    if !chance(g.spread_chance.numerator, g.spread_chance.denominator) {
        return false;
    }
    proof {
        sandbox.lemma_dims();
    }
    let mut order = neighbor_list(x, y);
    shuffle_positions(&mut order);
    let spread = spread_in_order(&order, g.grow_as, sandbox);
    proof {
        if can_spread_near(old(sandbox), x as int, y as int) {
            let (nx, ny) = choose|nx: int, ny: int|
                orthogonal(nx, ny, x as int, y as int) && #[trigger] spreadable(old(sandbox), nx, ny);
            lemma_neighbor_in_order(old(sandbox), order@, x, y, nx, ny);
            let k = choose|k: int|
                0 <= k < order@.len() && (#[trigger] order@[k]).0 as int == nx && order@[k].1 as int
                    == ny;
            assert(spreadable(old(sandbox), order@[k].0 as int, order@[k].1 as int));
        }
        if spread {
            let k = choose|k: int|
                0 <= k < order@.len() && spreadable(
                    old(sandbox),
                    (#[trigger] order@[k]).0 as int,
                    order@[k].1 as int,
                ) && (forall|j: int|
                    0 <= j < k ==> !spreadable(
                        old(sandbox),
                        (#[trigger] order@[j]).0 as int,
                        order@[j].1 as int,
                    )) && grew_at(
                    old(sandbox),
                    sandbox,
                    g.grow_as,
                    order@[k].0 as int,
                    order@[k].1 as int,
                );
            lemma_shuffled_neighbor(old(sandbox), order@, x, y, k);
            assert(grew_at(old(sandbox), sandbox, g.grow_as, order@[k].0 as int, order@[k].1 as int));
        }
    }
    spread
}

/// Sprouting: a particle allowed to sprout, with its spread chance again, grows
/// into the first empty neighbor, in random order. Without a growth trait, the
/// permission to sprout or a valid chance nothing happens; with a certain chance
/// and an empty neighbor, growth does sprout.
fn try_upwards_growth(x: usize, y: usize, sandbox: &mut Sandbox) -> (grown: bool)
    requires
        old(sandbox).wf(),
        old(sandbox).in_bounds(x as int, y as int),
        old(sandbox).cell(x as int, y as int) is Some,
    ensures
        final(sandbox).wf(),
        final(sandbox).same_geometry(old(sandbox)),
        !grown ==> *final(sandbox) == *old(sandbox),
        ({
            let g = old(sandbox).cell(x as int, y as int).unwrap().growable;
            &&& g is None ==> !grown
            &&& g is Some && !g.unwrap().spread_chance.wf() ==> !grown
            &&& g is Some && g.unwrap().spread_chance.numerator == 0 ==> !grown
            &&& g is Some && !g.unwrap().can_sprout ==> !grown
            &&& g is Some && g.unwrap().can_sprout && certain(g.unwrap().spread_chance)
                && can_sprout_near(old(sandbox), x as int, y as int) ==> grown
            &&& grown ==> g is Some && exists|nx: int, ny: int|
                orthogonal(nx, ny, x as int, y as int) && sproutable(old(sandbox), nx, ny)
                    && #[trigger] grew_at(old(sandbox), final(sandbox), g.unwrap().grow_as, nx, ny)
        }),
{
    let p = sandbox.get_copied(x, y).unwrap();
    let g = match p.growable {
        Some(g) => g,
        None => return false,
    };
    if !(g.spread_chance.numerator <= g.spread_chance.denominator && g.spread_chance.denominator > 0) {
        return false;
    }
    if !chance(g.spread_chance.numerator, g.spread_chance.denominator) || !g.can_sprout {
        return false;
    }
    proof {
        sandbox.lemma_dims();
    }
    let mut order = neighbor_list(x, y);
    shuffle_positions(&mut order);
    let grown = sprout_in_order(&order, g.grow_as, sandbox);
    proof {
        if can_sprout_near(old(sandbox), x as int, y as int) {
            let (nx, ny) = choose|nx: int, ny: int|
                orthogonal(nx, ny, x as int, y as int) && #[trigger] sproutable(old(sandbox), nx, ny);
            lemma_neighbor_in_order(old(sandbox), order@, x, y, nx, ny);
            let k = choose|k: int|
                0 <= k < order@.len() && (#[trigger] order@[k]).0 as int == nx && order@[k].1 as int
                    == ny;
            assert(sproutable(old(sandbox), order@[k].0 as int, order@[k].1 as int));
        }
        if grown {
            let k = choose|k: int|
                0 <= k < order@.len() && sproutable(
                    old(sandbox),
                    (#[trigger] order@[k]).0 as int,
                    order@[k].1 as int,
                ) && (forall|j: int|
                    0 <= j < k ==> !sproutable(
                        old(sandbox),
                        (#[trigger] order@[j]).0 as int,
                        order@[j].1 as int,
                    )) && grew_at(
                    old(sandbox),
                    sandbox,
                    g.grow_as,
                    order@[k].0 as int,
                    order@[k].1 as int,
                );
            lemma_shuffled_neighbor(old(sandbox), order@, x, y, k);
            assert(grew_at(old(sandbox), sandbox, g.grow_as, order@[k].0 as int, order@[k].1 as int));
        }
    }
    grown
}

/// Spreading and sprouting read only the cells and the grid's shape.
proof fn lemma_growth_sites_same(a: &Sandbox, b: &Sandbox, x: int, y: int)
    requires
        a.same_geometry(b),
        a.same_cells(b),
    ensures
        forall|nx: int, ny: int| #[trigger] spreadable(a, nx, ny) == spreadable(b, nx, ny),
        forall|nx: int, ny: int| #[trigger] sproutable(a, nx, ny) == sproutable(b, nx, ny),
        can_spread_near(a, x, y) == can_spread_near(b, x, y),
        can_sprout_near(a, x, y) == can_sprout_near(b, x, y),
{
    assert forall|nx: int, ny: int| #[trigger] spreadable(a, nx, ny) == spreadable(b, nx, ny) by {
        if a.in_bounds(nx, ny) {
            assert(a.cell(nx, ny) == b.cell(nx, ny));
            if a.in_bounds(nx - 1, ny - 1) && a.in_bounds(nx + 1, ny + 1) {
                assert(a.cell(nx - 1, ny) == b.cell(nx - 1, ny));
                assert(a.cell(nx + 1, ny) == b.cell(nx + 1, ny));
                assert(a.cell(nx, ny - 1) == b.cell(nx, ny - 1));
                assert(a.cell(nx, ny + 1) == b.cell(nx, ny + 1));
                assert(a.cell(nx - 1, ny - 1) == b.cell(nx - 1, ny - 1));
                assert(a.cell(nx + 1, ny + 1) == b.cell(nx + 1, ny + 1));
                assert(a.cell(nx + 1, ny - 1) == b.cell(nx + 1, ny - 1));
                assert(a.cell(nx - 1, ny + 1) == b.cell(nx - 1, ny + 1));
            }
        }
    }
    assert forall|nx: int, ny: int| #[trigger] sproutable(a, nx, ny) == sproutable(b, nx, ny) by {
        if a.in_bounds(nx, ny) {
            assert(a.cell(nx, ny) == b.cell(nx, ny));
        }
    }
    if can_spread_near(a, x, y) {
        let (nx, ny) = choose|nx: int, ny: int| orthogonal(nx, ny, x, y) && #[trigger] spreadable(a, nx, ny);
        assert(spreadable(b, nx, ny));
    }
    if can_spread_near(b, x, y) {
        let (nx, ny) = choose|nx: int, ny: int| orthogonal(nx, ny, x, y) && #[trigger] spreadable(b, nx, ny);
        assert(spreadable(a, nx, ny));
    }
    if can_sprout_near(a, x, y) {
        let (nx, ny) = choose|nx: int, ny: int| orthogonal(nx, ny, x, y) && #[trigger] sproutable(a, nx, ny);
        assert(sproutable(b, nx, ny));
    }
    if can_sprout_near(b, x, y) {
        let (nx, ny) = choose|nx: int, ny: int| orthogonal(nx, ny, x, y) && #[trigger] sproutable(b, nx, ny);
        assert(sproutable(a, nx, ny));
    }
}

/// What the growth step of the particle at `(x, y)` of `before` leaves: its
/// tile is weakly re-armed; then either no cell changed, or one orthogonal
/// neighbor that allowed it now holds new growth. With a certain spread chance
/// growth is owed: onto a neighbor that allows spreading if there is one, else,
/// for a particle allowed to sprout, into an empty neighbor if there is one.
pub open spec fn growth_step(before: &Sandbox, after: &Sandbox, x: int, y: int) -> bool {
    let g = before.cell(x, y).unwrap().growable;
    &&& forall|i: int, j: int|
        #![trigger after.weak(i, j)]
        before.in_chunk_grid(i, j) ==> after.weak(i, j) == if i == x / before.cw() && j == y
            / before.ch() {
            MAX_TICKED_BEFORE_SLEEP
        } else {
            before.weak(i, j)
        }
    &&& (after.same_cells(before) && forall|i: int, j: int|
        #![trigger after.strong(i, j)]
        before.in_chunk_grid(i, j) ==> after.strong(i, j) == before.strong(i, j)) || (g is Some
        && exists|nx: int, ny: int|
        orthogonal(nx, ny, x, y) && (spreadable(before, nx, ny) || sproutable(before, nx, ny))
            && #[trigger] grown_into(before, after, g.unwrap().grow_as, nx, ny))
    &&& g is Some && certain(g.unwrap().spread_chance) && can_spread_near(before, x, y)
        ==> exists|nx: int, ny: int|
        orthogonal(nx, ny, x, y) && spreadable(before, nx, ny) && #[trigger] grown_into(
            before,
            after,
            g.unwrap().grow_as,
            nx,
            ny,
        )
    &&& g is Some && certain(g.unwrap().spread_chance) && g.unwrap().can_sprout
        && !can_spread_near(before, x, y) && can_sprout_near(before, x, y) ==> exists|
        nx: int,
        ny: int,
    |
        orthogonal(nx, ny, x, y) && sproutable(before, nx, ny) && #[trigger] grown_into(
            before,
            after,
            g.unwrap().grow_as,
            nx,
            ny,
        )
}

/// Growth for one tick: re-arm the tile's weak activity, then spread sideways,
/// or, failing that, sprout into an empty neighbor. At most one neighbor changes.
pub fn tick_growable(x: usize, y: usize, sandbox: &mut Sandbox)
    requires
        old(sandbox).wf(),
        old(sandbox).in_bounds(x as int, y as int),
        old(sandbox).cell(x as int, y as int) is Some,
    ensures
        final(sandbox).wf(),
        final(sandbox).same_geometry(old(sandbox)),
        growth_step(old(sandbox), final(sandbox), x as int, y as int),
{
    sandbox.weak_tick_at(x, y);
    let ghost s1 = *sandbox;
    proof {
        lemma_growth_sites_same(old(sandbox), &s1, x as int, y as int);
    }
    if try_spread(x, y, sandbox) {
        proof {
            let g = s1.cell(x as int, y as int).unwrap().growable;
            let (nx, ny) = choose|nx: int, ny: int|
                orthogonal(nx, ny, x as int, y as int) && spreadable(&s1, nx, ny)
                    && #[trigger] grew_at(&s1, sandbox, g.unwrap().grow_as, nx, ny);
            assert(grown_into(old(sandbox), sandbox, g.unwrap().grow_as, nx, ny));
        }
        return;
    }
    let ghost s2 = *sandbox;
    if try_upwards_growth(x, y, sandbox) {
        proof {
            let g = s2.cell(x as int, y as int).unwrap().growable;
            let (nx, ny) = choose|nx: int, ny: int|
                orthogonal(nx, ny, x as int, y as int) && sproutable(&s2, nx, ny)
                    && #[trigger] grew_at(&s2, sandbox, g.unwrap().grow_as, nx, ny);
            assert(sproutable(old(sandbox), nx, ny));
            assert(grown_into(old(sandbox), sandbox, g.unwrap().grow_as, nx, ny));
        }
    }
}

} // verus!
