use vstd::prelude::*;

use crate::chunk::MAX_TICKED_BEFORE_SLEEP;
use crate::effects::{orthogonal, replaced_by, replacement, with_health};
use crate::particle::{Burnable, Particle, ParticleHealth, Temperature, TemperatureChanger, Velocity};
use crate::particle_types::{get_particle, is_particle_of, ParticleTypes};
use crate::random::chance;
use crate::sandbox::{step_back, Sandbox};

verus! {

/// The heat permissions of a thermal state let a delta of `delta` through.
pub open spec fn accepts(t: Temperature, delta: int) -> bool {
    !(delta > 0 && !t.coolable) && !(delta < 0 && !t.heatable)
}

pub open spec fn clamp(v: int, lo: int, hi: int) -> int {
    if v < lo {
        lo
    } else if v > hi {
        hi
    } else {
        v
    }
}

/// `t` after a neighbor applied `delta`: clamped to `[1, 100]` when it is
/// critical on cooling, else to `[0, starting temperature]`.
pub open spec fn nudged(t: Temperature, delta: int) -> Temperature {
    let v = t.current_temperature + delta;
    Temperature {
        current_temperature: (if t.critical_on_cool {
            clamp(v, 1, 100)
        } else {
            clamp(v, 0, t.starting_temperature as int)
        }) as i32,
        ..t
    }
}

/// What a neighbor cell holds after an emitter of `delta` acted on it.
pub open spec fn heated(c: Option<Particle>, delta: int) -> Option<Particle> {
    match c {
        Some(q) => match q.temperature {
            Some(t) => if accepts(t, delta) {
                Some(Particle { temperature: Some(nudged(t, delta)), ..q })
            } else {
                c
            },
            None => c,
        },
        None => c,
    }
}

/// A thermal state that has reached its critical point.
pub open spec fn critical(t: Temperature) -> bool {
    (!t.critical_on_cool && t.current_temperature <= 0) || (t.critical_on_cool
        && t.current_temperature >= 100)
}

/// `p` catches fire: a combustible, not yet burning particle at or below zero degrees.
pub open spec fn ignited(p: Particle) -> Particle {
    match (p.burnable, p.temperature) {
        (Some(b), Some(t)) => if !b.burning && t.current_temperature <= 0 {
            Particle {
                burnable: Some(Burnable { burning: true, ..b }),
                temperature_changer: Some(TemperatureChanger(-1i32)),
                health: ParticleHealth { amount: b.burn_ticks, ..p.health },
                color: b.burn_color,
                ..p
            }
        } else {
            p
        },
        _ => p,
    }
}

/// `p` stops burning: a burning particle above zero degrees cools down and
/// returns to its starting temperature.
pub open spec fn extinguished(p: Particle) -> Particle {
    match (p.burnable, p.temperature) {
        (Some(b), Some(t)) => if b.burning && t.current_temperature > 0 {
            Particle {
                burnable: Some(Burnable { burning: false, ..b }),
                temperature_changer: None,
                health: ParticleHealth { amount: b.burn_ticks, ..p.health },
                color: b.cooled_color,
                temperature: Some(Temperature { current_temperature: t.starting_temperature, ..t }),
                ..p
            }
        } else {
            p
        },
        _ => p,
    }
}

pub open spec fn burning(p: Particle) -> bool {
    p.burnable is Some && p.burnable.unwrap().burning
}

/// A spark or a puff of smoke given off by fire.
pub open spec fn fire_debris(c: Option<Particle>) -> bool {
    c is Some && (is_particle_of(ParticleTypes::Spark, c.unwrap()) || is_particle_of(
        ParticleTypes::Smoke,
        c.unwrap(),
    ))
}

pub open spec fn in_box(qx: int, qy: int, cx: int, cy: int, r: int) -> bool {
    cx - r <= qx <= cx + r && cy - r <= qy <= cy + r
}

/// The largest `k <= limit` with `k / 10 <= a / sqrt(a^2 + b^2)`.
pub open spec fn impulse_from(a: int, b: int, limit: nat) -> int
    decreases limit,
{
    if limit == 0 {
        0
    } else if limit * limit * (a * a + b * b) <= 100 * a * a {
        limit as int
    } else {
        impulse_from(a, b, (limit - 1) as nat)
    }
}

/// The push given to debris at offset `(dx, dy)` from an explosion: the unit
/// direction away from the blast times ten, truncated toward zero.
pub open spec fn impulse(dx: int, dy: int) -> Velocity {
    let ax = if dx < 0 { -dx } else { dx };
    let ay = if dy < 0 { -dy } else { dy };
    Velocity {
        x: (if dx < 0 { -impulse_from(ax, ay, 10) } else { impulse_from(ax, ay, 10) }) as i32,
        y: (if dy < 0 { -impulse_from(ay, ax, 10) } else { impulse_from(ay, ax, 10) }) as i32,
    }
}

/// What an explosion of radius `r` at `(cx, cy)` makes of cell `(qx, qy)`: the
/// core turns to sparks, debris in the ring around it is pushed outward.
pub open spec fn blasted(
    before: Option<Particle>,
    after: Option<Particle>,
    qx: int,
    qy: int,
    cx: int,
    cy: int,
    r: int,
) -> bool {
    if in_box(qx, qy, cx, cy, r) {
        after is Some && is_particle_of(ParticleTypes::Spark, after.unwrap())
    } else if in_box(qx, qy, cx, cy, 2 * r) && before is Some {
        after == Some(Particle { velocity: impulse(qx - cx, qy - cy), ..before.unwrap() })
    } else {
        after == before
    }
}

/// Every cell of the grid is what an explosion at `(cx, cy)` makes of it.
pub open spec fn exploded(before: &Sandbox, after: &Sandbox, cx: int, cy: int, r: int) -> bool {
    forall|qx: int, qy: int|
        #![trigger after.cell(qx, qy)]
        before.in_bounds(qx, qy) ==> blasted(before.cell(qx, qy), after.cell(qx, qy), qx, qy, cx, cy, r)
}

/// What a neighbor of `p` holds once `p`'s thermal emitter, if any, acted on it.
pub open spec fn warmed(c: Option<Particle>, p: Particle) -> Option<Particle> {
    match p.temperature_changer {
        Some(changer) => heated(c, changer.0 as int),
        None => c,
    }
}

/// `p` after its own critical reaction, when that did not use it up.
pub open spec fn after_critical(p: Particle) -> Particle {
    if p.temperature is Some && critical(p.temperature.unwrap()) {
        with_health(p, p.health.amount - 1)
    } else {
        p
    }
}

/// The thermal step applied to the particle at `(x, y)` of `before` gives `after`.
pub open spec fn thermal_step(before: &Sandbox, after: &Sandbox, x: int, y: int, consumed: bool) -> bool {
    let p = before.cell(x, y).unwrap();
    let t = p.temperature.unwrap();
    if p.temperature is Some && critical(t) && t.explosion_radius > 0 {
        consumed && exploded(before, after, x, y, t.explosion_radius as int)
    } else if p.temperature is Some && critical(t) && p.health.amount - 1 <= 0 {
        &&& consumed
        &&& replaced_by(after.cell(x, y), t.change_on_critical)
        &&& forall|qx: int, qy: int|
            #![trigger after.cell(qx, qy)]
            before.in_bounds(qx, qy) && !(qx == x && qy == y) ==> after.cell(qx, qy) == if orthogonal(
                qx,
                qy,
                x,
                y,
            ) {
                warmed(before.cell(qx, qy), p)
            } else {
                before.cell(qx, qy)
            }
    } else {
        let q = extinguished(ignited(after_critical(p)));
        &&& !consumed
        &&& after.cell(x, y) == Some(q)
        &&& p.temperature is Some && critical(t) ==> after.weak_at(x, y) == MAX_TICKED_BEFORE_SLEEP
        &&& forall|qx: int, qy: int|
            #![trigger after.cell(qx, qy)]
            before.in_bounds(qx, qy) && !(qx == x && qy == y) ==> if orthogonal(qx, qy, x, y) {
                if burning(q) && before.cell(qx, qy) is None {
                    fire_debris(after.cell(qx, qy))
                } else {
                    after.cell(qx, qy) == warmed(before.cell(qx, qy), p)
                }
            } else {
                after.cell(qx, qy) == before.cell(qx, qy)
            }
    }
}

/// Runs the thermal effects of the particle at `(x, y)`: its emitter nudges
/// the neighbors' temperatures, then it reacts to its own critical temperature
/// (exploding, or losing health and finally turning into its replacement),
/// catches fire or goes out, and gives off sparks and smoke while burning.
/// `true` when the particle is gone.
pub fn tick_temperature(x: usize, y: usize, sandbox: &mut Sandbox) -> (consumed: bool)
    requires
        old(sandbox).wf(),
        old(sandbox).in_bounds(x as int, y as int),
        old(sandbox).cell(x as int, y as int) is Some,
    ensures
        final(sandbox).wf(),
        final(sandbox).same_geometry(old(sandbox)),
        thermal_step(old(sandbox), final(sandbox), x as int, y as int, consumed),
{
    let ghost s0 = *sandbox;
    temperature_change_neighbors(x, y, sandbox);
    let ghost s1 = *sandbox;
    if tick_self(x, y, sandbox) {
        return true;
    }
    let ghost s2 = *sandbox;
    try_ignite_burnable(x, y, sandbox);
    try_extinquish_burning(x, y, sandbox);
    let ghost s3 = *sandbox;
    spark_if_ignited(x, y, sandbox);
    proof {
        let p = s0.cell(x as int, y as int).unwrap();
        if p.temperature is Some && critical(p.temperature.unwrap()) {
            s0.lemma_tile_in_grid(x as int, y as int);
            let i = x as int / s0.cw();
            let j = y as int / s0.ch();
            assert(s2.weak(i, j) == MAX_TICKED_BEFORE_SLEEP);
            assert(s3.weak(i, j) == MAX_TICKED_BEFORE_SLEEP);
            assert(sandbox.weak(i, j) == MAX_TICKED_BEFORE_SLEEP);
        }
    }
    false
}

fn clamp_i64(v: i64, lo: i64, hi: i64) -> (r: i64)
    ensures
        r == clamp(v as int, lo as int, hi as int),
{
    if v < lo {
        lo
    } else if v > hi {
        hi
    } else {
        v
    }
}

fn heat_neighbor(nx: usize, ny: usize, delta: i32, sandbox: &mut Sandbox)
    requires
        old(sandbox).wf(),
    ensures
        final(sandbox).wf(),
        final(sandbox).same_geometry(old(sandbox)),
        final(sandbox).same_activity(old(sandbox)),
        final(sandbox).same_cells_except(old(sandbox), nx as int, ny as int),
        old(sandbox).in_bounds(nx as int, ny as int) ==> final(sandbox).cell(nx as int, ny as int)
            == heated(old(sandbox).cell(nx as int, ny as int), delta as int),
{
    if sandbox.out_of_bounds_usize(nx, ny) {
        return;
    }
    let q = match sandbox.get_copied(nx, ny) {
        Some(q) => q,
        None => return,
    };
    let t = match q.temperature {
        Some(t) => t,
        None => return,
    };
    if delta > 0 && !t.coolable {
        return;
    }
    if delta < 0 && !t.heatable {
        return;
    }
    let v: i64 = t.current_temperature as i64 + delta as i64;
    let c = if t.critical_on_cool {
        clamp_i64(v, 1, 100)
    } else {
        clamp_i64(v, 0, t.starting_temperature as i64)
    };
    let mut r = q;
    r.temperature = Some(Temperature { current_temperature: c as i32, ..t });
    sandbox.put(nx, ny, Some(r));
}

/// A thermal emitter nudges the temperature of its four orthogonal neighbors.
fn temperature_change_neighbors(x: usize, y: usize, sandbox: &mut Sandbox)
    requires
        old(sandbox).wf(),
        old(sandbox).in_bounds(x as int, y as int),
        old(sandbox).cell(x as int, y as int) is Some,
    ensures
        final(sandbox).wf(),
        final(sandbox).same_geometry(old(sandbox)),
        final(sandbox).same_activity(old(sandbox)),
        ({
            let p = old(sandbox).cell(x as int, y as int).unwrap();
            forall|qx: int, qy: int|
                #![trigger final(sandbox).cell(qx, qy)]
                old(sandbox).in_bounds(qx, qy) ==> final(sandbox).cell(qx, qy) == if orthogonal(
                    qx,
                    qy,
                    x as int,
                    y as int,
                ) && p.temperature_changer is Some {
                    heated(old(sandbox).cell(qx, qy), p.temperature_changer.unwrap().0 as int)
                } else {
                    old(sandbox).cell(qx, qy)
                }
        }),
{
    let p = sandbox.get_copied(x, y).unwrap();
    let delta = match p.temperature_changer {
        Some(changer) => changer.0,
        None => return,
    };
    proof {
        sandbox.lemma_dims();
    }
    heat_neighbor(step_back(x), y, delta, sandbox);
    heat_neighbor(x + 1, y, delta, sandbox);
    heat_neighbor(x, step_back(y), delta, sandbox);
    heat_neighbor(x, y + 1, delta, sandbox);
}

proof fn lemma_impulse_bounds(a: int, b: int, limit: nat)
    ensures
        0 <= impulse_from(a, b, limit) <= limit,
    decreases limit,
{
    if limit > 0 {
        lemma_impulse_bounds(a, b, (limit - 1) as nat);
    }
}

fn impulse_part(a: i64, b: i64) -> (r: i32)
    requires
        0 <= a <= 0x1_0000_0000,
        0 <= b <= 0x1_0000_0000,
    ensures
        r == impulse_from(a as int, b as int, 10),
        0 <= r <= 10,
{
    proof {
        lemma_impulse_bounds(a as int, b as int, 10);
    }
    assert(a * a <= 0x1_0000_0000_0000_0000) by (nonlinear_arith)
        requires
            0 <= a <= 0x1_0000_0000,
    ;
    assert(b * b <= 0x1_0000_0000_0000_0000) by (nonlinear_arith)
        requires
            0 <= b <= 0x1_0000_0000,
    ;
    assert(0 <= a * a && 0 <= b * b) by (nonlinear_arith);
    let aa: i128 = a as i128 * a as i128;
    let bb: i128 = b as i128 * b as i128;
    let sum: i128 = aa + bb;
    let bound: i128 = 100 * aa;
    let mut k: i128 = 10;
    loop
        invariant
            0 <= k <= 10,
            aa == a * a,
            bb == b * b,
            sum == aa + bb,
            bound == 100 * aa,
            0 <= aa <= 0x1_0000_0000_0000_0000,
            0 <= bb <= 0x1_0000_0000_0000_0000,
            impulse_from(a as int, b as int, k as nat) == impulse_from(a as int, b as int, 10),
        ensures
            0 <= k <= 10,
            impulse_from(a as int, b as int, 10) == k,
        decreases k,
    {
        if k == 0 {
            break;
        }
        assert(0 <= k * k <= 100) by (nonlinear_arith)
            requires
                0 <= k <= 10,
        ;
        let kk: i128 = k * k;
        assert(0 <= kk * sum <= 100 * sum) by (nonlinear_arith)
            requires
                0 <= kk <= 100,
                0 <= sum,
        ;
        let lhs: i128 = kk * sum;
        assert(lhs == k * k * (a * a + b * b)) by (nonlinear_arith)
            requires
                lhs == kk * sum,
                kk == k * k,
                sum == aa + bb,
                aa == a * a,
                bb == b * b,
        ;
        assert(bound == 100 * a * a) by (nonlinear_arith)
            requires
                bound == 100 * aa,
                aa == a * a,
        ;
        if lhs <= bound {
            break;
        }
        k = k - 1;
    }
    k as i32
}

/// Blows up the particle at `(cx, cy)`: every cell within `radius` of it turns
/// to sparks, and every particle in the ring out to twice the radius is pushed
/// outward.
fn explode(cx: usize, cy: usize, radius: i32, sandbox: &mut Sandbox)
    requires
        old(sandbox).wf(),
        old(sandbox).in_bounds(cx as int, cy as int),
        radius > 0,
    ensures
        final(sandbox).wf(),
        final(sandbox).same_geometry(old(sandbox)),
        exploded(old(sandbox), final(sandbox), cx as int, cy as int, radius as int),
{
    proof {
        sandbox.lemma_dims();
    }
    let w = sandbox.width() as i64;
    let h = sandbox.height() as i64;
    let r = radius as i64;
    let lo_x: i64 = if cx as i64 - 2 * r < 0 { 0 } else { cx as i64 - 2 * r };
    let hi_x: i64 = if cx as i64 + 2 * r > w - 1 { w - 1 } else { cx as i64 + 2 * r };
    let lo_y: i64 = if cy as i64 - 2 * r < 0 { 0 } else { cy as i64 - 2 * r };
    let hi_y: i64 = if cy as i64 + 2 * r > h - 1 { h - 1 } else { cy as i64 + 2 * r };
    let ghost start = *sandbox;
    let mut qx = lo_x;
    while qx <= hi_x
        invariant
            0 <= lo_x <= qx <= hi_x + 1,
            hi_x < w,
            0 <= lo_y,
            hi_y < h,
            w == start.spec_width(),
            h == start.spec_height(),
            lo_x == (if cx - 2 * r < 0 { 0 } else { cx - 2 * r }),
            hi_x == (if cx + 2 * r > w - 1 { w - 1 } else { cx + 2 * r }),
            lo_y == (if cy - 2 * r < 0 { 0 } else { cy - 2 * r }),
            hi_y == (if cy + 2 * r > h - 1 { h - 1 } else { cy + 2 * r }),
            start == *old(sandbox),
            r == radius,
            r > 0,
            cx < w,
            cy < h,
            w <= i32::MAX,
            h <= i32::MAX,
            sandbox.wf(),
            sandbox.same_geometry(&start),
            forall|px: int, py: int|
                #![trigger sandbox.cell(px, py)]
                start.in_bounds(px, py) ==> if lo_x <= px < qx && lo_y <= py <= hi_y {
                    blasted(start.cell(px, py), sandbox.cell(px, py), px, py, cx as int, cy as int, r as int)
                } else {
                    sandbox.cell(px, py) == start.cell(px, py)
                },
        decreases hi_x + 1 - qx,
    {
        let mut qy = lo_y;
        while qy <= hi_y
            invariant
                0 <= lo_x <= qx <= hi_x,
                0 <= lo_y <= qy <= hi_y + 1,
                hi_x < w,
                hi_y < h,
                w == start.spec_width(),
                h == start.spec_height(),
                start == *old(sandbox),
                r == radius,
                r > 0,
                cx < w,
                cy < h,
                w <= i32::MAX,
                h <= i32::MAX,
                lo_x == (if cx - 2 * r < 0 { 0 } else { cx - 2 * r }),
                hi_x == (if cx + 2 * r > w - 1 { w - 1 } else { cx + 2 * r }),
                lo_y == (if cy - 2 * r < 0 { 0 } else { cy - 2 * r }),
                hi_y == (if cy + 2 * r > h - 1 { h - 1 } else { cy + 2 * r }),
                sandbox.wf(),
                sandbox.same_geometry(&start),
                forall|px: int, py: int|
                    #![trigger sandbox.cell(px, py)]
                    start.in_bounds(px, py) ==> if (lo_x <= px < qx && lo_y <= py <= hi_y) || (px
                        == qx && lo_y <= py < qy) {
                        blasted(start.cell(px, py), sandbox.cell(px, py), px, py, cx as int, cy as int, r as int)
                    } else {
                        sandbox.cell(px, py) == start.cell(px, py)
                    },
            decreases hi_y + 1 - qy,
        {
            let dx: i64 = qx - cx as i64;
            let dy: i64 = qy - cy as i64;
            let inner = -r <= dx && dx <= r && -r <= dy && dy <= r;
            if inner {
                let spark = get_particle(ParticleTypes::Spark);
                sandbox.set(qx as usize, qy as usize, Some(spark));
            } else {
                match sandbox.get_copied(qx as usize, qy as usize) {
                    Some(p) => {
                        let ax: i64 = if dx < 0 { -dx } else { dx };
                        let ay: i64 = if dy < 0 { -dy } else { dy };
                        let kx = impulse_part(ax, ay);
                        let ky = impulse_part(ay, ax);
                        let vx = if dx < 0 { -kx } else { kx };
                        let vy = if dy < 0 { -ky } else { ky };
                        let moved = Particle { velocity: Velocity::new(vx, vy), ..p };
                        sandbox.put(qx as usize, qy as usize, Some(moved));
                    },
                    None => {},
                }
            }
            qy = qy + 1;
        }
        qx = qx + 1;
    }
}

/// `p`'s own reaction to reaching a critical temperature; `true` when the
/// particle is gone (it exploded, or used up its health and was replaced).
fn tick_self(x: usize, y: usize, sandbox: &mut Sandbox) -> (consumed: bool)
    requires
        old(sandbox).wf(),
        old(sandbox).in_bounds(x as int, y as int),
        old(sandbox).cell(x as int, y as int) is Some,
    ensures
        final(sandbox).wf(),
        final(sandbox).same_geometry(old(sandbox)),
        self_reacted(old(sandbox), final(sandbox), x as int, y as int, consumed),
{
    let p = sandbox.get_copied(x, y).unwrap();
    let t = match p.temperature {
        Some(t) => t,
        None => return false,
    };
    if !((!t.critical_on_cool && t.current_temperature <= 0) || (t.critical_on_cool
        && t.current_temperature >= 100)) {
        return false;
    }
    if t.explosion_radius > 0 {
        explode(x, y, t.explosion_radius, sandbox);
        return true;
    }
    if p.health.amount <= 1 {
        let r = replacement(t.change_on_critical);
        sandbox.set(x, y, r);
        return true;
    }
    let mut q = p;
    q.health = ParticleHealth { amount: p.health.amount - 1, ..p.health };
    sandbox.put(x, y, Some(q));
    sandbox.weak_tick_at(x, y);
    proof {
        old(sandbox).lemma_tile_in_grid(x as int, y as int);
    }
    false
}

/// What a particle's own critical reaction leaves, compared with `before`.
pub open spec fn self_reacted(
    before: &Sandbox,
    after: &Sandbox,
    x: int,
    y: int,
    consumed: bool,
) -> bool {
    let p = before.cell(x, y).unwrap();
    let t = p.temperature.unwrap();
    if p.temperature is None || !critical(t) {
        !consumed && after.same_cells(before)
    } else if t.explosion_radius > 0 {
        consumed && exploded(before, after, x, y, t.explosion_radius as int)
    } else if p.health.amount - 1 <= 0 {
        consumed && after.same_cells_except(before, x, y) && replaced_by(
            after.cell(x, y),
            t.change_on_critical,
        )
    } else {
        !consumed && after.same_cells_except(before, x, y) && after.cell(x, y) == Some(
            with_health(p, p.health.amount - 1),
        ) && after.weak_at(x, y) == MAX_TICKED_BEFORE_SLEEP
    }
}

fn ignite(p: Particle) -> (r: Particle)
    ensures
        r == ignited(p),
{
    match (p.burnable, p.temperature) {
        (Some(b), Some(t)) => {
            if !b.burning && t.current_temperature <= 0 {
                Particle {
                    burnable: Some(Burnable { burning: true, ..b }),
                    temperature_changer: Some(TemperatureChanger(-1)),
                    health: ParticleHealth { amount: b.burn_ticks, ..p.health },
                    color: b.burn_color,
                    ..p
                }
            } else {
                p
            }
        },
        _ => p,
    }
}

fn extinguish(p: Particle) -> (r: Particle)
    ensures
        r == extinguished(p),
{
    match (p.burnable, p.temperature) {
        (Some(b), Some(t)) => {
            if b.burning && t.current_temperature > 0 {
                Particle {
                    burnable: Some(Burnable { burning: false, ..b }),
                    temperature_changer: None,
                    health: ParticleHealth { amount: b.burn_ticks, ..p.health },
                    color: b.cooled_color,
                    temperature: Some(
                        Temperature { current_temperature: t.starting_temperature, ..t },
                    ),
                    ..p
                }
            } else {
                p
            }
        },
        _ => p,
    }
}

fn try_ignite_burnable(x: usize, y: usize, sandbox: &mut Sandbox)
    requires
        old(sandbox).wf(),
        old(sandbox).in_bounds(x as int, y as int),
        old(sandbox).cell(x as int, y as int) is Some,
    ensures
        final(sandbox).wf(),
        final(sandbox).same_geometry(old(sandbox)),
        final(sandbox).same_cells_except(old(sandbox), x as int, y as int),
        final(sandbox).cell(x as int, y as int) == Some(
            ignited(old(sandbox).cell(x as int, y as int).unwrap()),
        ),
        final(sandbox).same_activity(old(sandbox)),
{
    let p = sandbox.get_copied(x, y).unwrap();
    sandbox.put(x, y, Some(ignite(p)));
}

fn try_extinquish_burning(x: usize, y: usize, sandbox: &mut Sandbox)
    requires
        old(sandbox).wf(),
        old(sandbox).in_bounds(x as int, y as int),
        old(sandbox).cell(x as int, y as int) is Some,
    ensures
        final(sandbox).wf(),
        final(sandbox).same_geometry(old(sandbox)),
        final(sandbox).same_cells_except(old(sandbox), x as int, y as int),
        final(sandbox).cell(x as int, y as int) == Some(
            extinguished(old(sandbox).cell(x as int, y as int).unwrap()),
        ),
        final(sandbox).same_activity(old(sandbox)),
{
    let p = sandbox.get_copied(x, y).unwrap();
    sandbox.put(x, y, Some(extinguish(p)));
}

/// Fills the cell `(nx, ny)`, if it lies in the grid and is empty, with a spark
/// when `spark` holds and with smoke otherwise.
pub fn spark_or_smoke(nx: usize, ny: usize, spark: bool, sandbox: &mut Sandbox)
    requires
        old(sandbox).wf(),
    ensures
        final(sandbox).wf(),
        final(sandbox).same_geometry(old(sandbox)),
        final(sandbox).same_weak(old(sandbox)),
        !sproutable_cell(old(sandbox), nx as int, ny as int) ==> *final(sandbox) == *old(sandbox),
        sproutable_cell(old(sandbox), nx as int, ny as int) ==> {
            &&& final(sandbox).same_cells_except(old(sandbox), nx as int, ny as int)
            &&& final(sandbox).cell(nx as int, ny as int) is Some
            &&& is_particle_of(
                if spark {
                    ParticleTypes::Spark
                } else {
                    ParticleTypes::Smoke
                },
                final(sandbox).cell(nx as int, ny as int).unwrap(),
            )
        },
{
    if sandbox.checked_get(nx, ny).is_some() || sandbox.out_of_bounds_usize(nx, ny) {
        return;
    }
    let debris = if spark {
        get_particle(ParticleTypes::Spark)
    } else {
        get_particle(ParticleTypes::Smoke)
    };
    sandbox.set(nx, ny, Some(debris));
}

/// `(x, y)` is an empty cell of the grid.
pub open spec fn sproutable_cell(sandbox: &Sandbox, x: int, y: int) -> bool {
    sandbox.in_bounds(x, y) && sandbox.cell(x, y) is None
}

fn spark_at(nx: usize, ny: usize, sandbox: &mut Sandbox)
    requires
        old(sandbox).wf(),
    ensures
        final(sandbox).wf(),
        final(sandbox).same_geometry(old(sandbox)),
        final(sandbox).same_weak(old(sandbox)),
        final(sandbox).same_cells_except(old(sandbox), nx as int, ny as int),
        old(sandbox).in_bounds(nx as int, ny as int) ==> if old(sandbox).cell(
            nx as int,
            ny as int,
        ) is None {
            fire_debris(final(sandbox).cell(nx as int, ny as int))
        } else {
            final(sandbox).cell(nx as int, ny as int) == old(sandbox).cell(nx as int, ny as int)
        },
{
    let spark = chance(1, 3);
    spark_or_smoke(nx, ny, spark, sandbox);
}

/// A burning particle gives off a spark (one time in three) or smoke into each
/// empty orthogonal neighbor.
fn spark_if_ignited(x: usize, y: usize, sandbox: &mut Sandbox)
    requires
        old(sandbox).wf(),
        old(sandbox).in_bounds(x as int, y as int),
        old(sandbox).cell(x as int, y as int) is Some,
    ensures
        final(sandbox).wf(),
        final(sandbox).same_geometry(old(sandbox)),
        final(sandbox).same_weak(old(sandbox)),
        !burning(old(sandbox).cell(x as int, y as int).unwrap()) ==> *final(sandbox) == *old(sandbox),
        ({
            let p = old(sandbox).cell(x as int, y as int).unwrap();
            forall|qx: int, qy: int|
                #![trigger final(sandbox).cell(qx, qy)]
                old(sandbox).in_bounds(qx, qy) ==> if orthogonal(qx, qy, x as int, y as int) && burning(p)
                    && old(sandbox).cell(qx, qy) is None {
                    fire_debris(final(sandbox).cell(qx, qy))
                } else {
                    final(sandbox).cell(qx, qy) == old(sandbox).cell(qx, qy)
                }
        }),
{
    let p = sandbox.get_copied(x, y).unwrap();
    match p.burnable {
        Some(b) => {
            if !b.burning {
                return;
            }
        },
        None => return,
    }
    proof {
        sandbox.lemma_dims();
    }
    spark_at(x, y + 1, sandbox);
    spark_at(x + 1, y, sandbox);
    spark_at(step_back(x), y, sandbox);
    spark_at(x, step_back(y), sandbox);
}

/// A particle that is not critical on cooling, has cooled to zero degrees or
/// below, has no explosion radius and one health left is replaced by its
/// on-critical material in one thermal step.
pub proof fn lemma_cooled_particle_replaced(
    before: &Sandbox,
    after: &Sandbox,
    x: int,
    y: int,
    consumed: bool,
)
    requires
        before.in_bounds(x, y),
        before.cell(x, y) is Some,
        before.cell(x, y).unwrap().temperature is Some,
        !before.cell(x, y).unwrap().temperature.unwrap().critical_on_cool,
        before.cell(x, y).unwrap().temperature.unwrap().current_temperature <= 0,
        before.cell(x, y).unwrap().temperature.unwrap().explosion_radius <= 0,
        before.cell(x, y).unwrap().health.amount <= 1,
        thermal_step(before, after, x, y, consumed),
    ensures
        consumed,
        replaced_by(
            after.cell(x, y),
            before.cell(x, y).unwrap().temperature.unwrap().change_on_critical,
        ),
{
}

/// A non-combustible particle that is not critical on cooling, has cooled to
/// zero degrees or below, has no explosion radius and more than one health
/// left loses exactly one health in one thermal step and stays as cold, so it
/// reaches its replacement after as many steps as it has health.
pub proof fn lemma_cooled_particle_wears_down(
    before: &Sandbox,
    after: &Sandbox,
    x: int,
    y: int,
    consumed: bool,
)
    requires
        before.in_bounds(x, y),
        before.cell(x, y) is Some,
        before.cell(x, y).unwrap().burnable is None,
        before.cell(x, y).unwrap().temperature is Some,
        !before.cell(x, y).unwrap().temperature.unwrap().critical_on_cool,
        before.cell(x, y).unwrap().temperature.unwrap().current_temperature <= 0,
        before.cell(x, y).unwrap().temperature.unwrap().explosion_radius <= 0,
        before.cell(x, y).unwrap().health.amount > 1,
        thermal_step(before, after, x, y, consumed),
    ensures
        !consumed,
        after.cell(x, y) == Some(
            with_health(before.cell(x, y).unwrap(), before.cell(x, y).unwrap().health.amount - 1),
        ),
        after.weak_at(x, y) == MAX_TICKED_BEFORE_SLEEP,
{
}

/// Debris is pushed away from the blast: each component of its new velocity is
/// zero or has the sign of its offset from the centre.
pub proof fn lemma_debris_pushed_outward(dx: int, dy: int)
    ensures
        dx >= 0 ==> impulse(dx, dy).x >= 0,
        dx < 0 ==> impulse(dx, dy).x <= 0,
        dy >= 0 ==> impulse(dx, dy).y >= 0,
        dy < 0 ==> impulse(dx, dy).y <= 0,
{
    let ax = if dx < 0 { -dx } else { dx };
    let ay = if dy < 0 { -dy } else { dy };
    lemma_impulse_bounds(ax, ay, 10);
    lemma_impulse_bounds(ay, ax, 10);
}

/// A cooling emitter never takes a thermal state that is not critical on
/// cooling below zero degrees, nor above its starting temperature.
pub proof fn lemma_nudge_stays_in_range(t: Temperature, delta: int)
    requires
        !t.critical_on_cool,
        t.starting_temperature >= 0,
    ensures
        0 <= nudged(t, delta).current_temperature <= t.starting_temperature,
{
}

} // verus!
