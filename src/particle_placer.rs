use vstd::prelude::*;

use crate::particle::Particle;
use crate::particle_types::{get_particle, is_particle_of, ParticleTypes};
use crate::sandbox::Sandbox;

verus! {

/// The material a key selects: the digits `1` to `9` and `0`, then `-` and `=`.
pub open spec fn material_for_key(key: char) -> Option<ParticleTypes> {
    if key == '1' {
        Some(ParticleTypes::Sand)
    } else if key == '2' {
        Some(ParticleTypes::Water)
    } else if key == '3' {
        Some(ParticleTypes::Stone)
    } else if key == '4' {
        Some(ParticleTypes::Acid)
    } else if key == '5' {
        Some(ParticleTypes::Wood)
    } else if key == '6' {
        Some(ParticleTypes::Spark)
    } else if key == '7' {
        Some(ParticleTypes::Lava)
    } else if key == '8' {
        Some(ParticleTypes::Oil)
    } else if key == '9' {
        Some(ParticleTypes::Gunpowder)
    } else if key == '0' {
        Some(ParticleTypes::Tnt)
    } else if key == '-' {
        Some(ParticleTypes::Dirt)
    } else if key == '=' {
        Some(ParticleTypes::Grass)
    } else {
        None
    }
}

/// The material the pressed `key` selects, if any.
pub fn set_particle_type(key: char) -> (r: Option<ParticleTypes>)
    ensures
        r == material_for_key(key),
{
    match key {
        '1' => Some(ParticleTypes::Sand),
        '2' => Some(ParticleTypes::Water),
        '3' => Some(ParticleTypes::Stone),
        '4' => Some(ParticleTypes::Acid),
        '5' => Some(ParticleTypes::Wood),
        '6' => Some(ParticleTypes::Spark),
        '7' => Some(ParticleTypes::Lava),
        '8' => Some(ParticleTypes::Oil),
        '9' => Some(ParticleTypes::Gunpowder),
        '0' => Some(ParticleTypes::Tnt),
        '-' => Some(ParticleTypes::Dirt),
        '=' => Some(ParticleTypes::Grass),
        _ => None,
    }
}

/// How far the brush reaches below and left of its center, in cells.
pub const BRUSH_LOW: usize = 5;

/// How far the brush reaches above and right of its center, in cells.
pub const BRUSH_HIGH: usize = 4;

/// `(qx, qy)` lies under the brush centred on `(x, y)`.
pub open spec fn under_brush(qx: int, qy: int, x: int, y: int) -> bool {
    x - BRUSH_LOW <= qx <= x + BRUSH_HIGH && y - BRUSH_LOW <= qy <= y + BRUSH_HIGH
}

/// What a brush stroke makes of one cell: painting fills an empty cell with
/// material `t`; erasing empties an occupied one.
pub open spec fn brushed(before: Option<Particle>, after: Option<Particle>, t: ParticleTypes, paint: bool, erase: bool) -> bool {
    if paint && before is None {
        after is Some && is_particle_of(t, after.unwrap())
    } else if erase && before is Some {
        after is None
    } else {
        after == before
    }
}

/// Paints material `t` into, or erases, the cells under a square brush centred
/// on `(x, y)`; a center outside the grid does nothing.
pub fn place_particles(
    sandbox: &mut Sandbox,
    x: usize,
    y: usize,
    t: ParticleTypes,
    paint: bool,
    erase: bool,
)
    requires
        old(sandbox).wf(),
    ensures
        final(sandbox).wf(),
        final(sandbox).same_geometry(old(sandbox)),
        forall|qx: int, qy: int|
            #![trigger final(sandbox).cell(qx, qy)]
            old(sandbox).in_bounds(qx, qy) ==> if old(sandbox).in_bounds(x as int, y as int)
                && under_brush(qx, qy, x as int, y as int) {
                brushed(old(sandbox).cell(qx, qy), final(sandbox).cell(qx, qy), t, paint, erase)
            } else {
                final(sandbox).cell(qx, qy) == old(sandbox).cell(qx, qy)
            },
{
    if sandbox.out_of_bounds_usize(x, y) {
        return;
    }
    proof {
        sandbox.lemma_dims();
    }
    let lo_x = if x >= BRUSH_LOW { x - BRUSH_LOW } else { 0 };
    let lo_y = if y >= BRUSH_LOW { y - BRUSH_LOW } else { 0 };
    let hi_x = x + BRUSH_HIGH;
    let hi_y = y + BRUSH_HIGH;
    let ghost start = *sandbox;
    let mut qx = lo_x;
    while qx <= hi_x
        invariant
            lo_x <= qx <= hi_x + 1,
            lo_x == (if x >= BRUSH_LOW { x - BRUSH_LOW } else { 0 }),
            hi_x == x + BRUSH_HIGH,
            lo_y == (if y >= BRUSH_LOW { y - BRUSH_LOW } else { 0 }),
            hi_y == y + BRUSH_HIGH,
            x < i32::MAX,
            y < i32::MAX,
            start == *old(sandbox),
            start.in_bounds(x as int, y as int),
            sandbox.wf(),
            sandbox.same_geometry(&start),
            forall|px: int, py: int|
                #![trigger sandbox.cell(px, py)]
                start.in_bounds(px, py) ==> if lo_x <= px < qx && lo_y <= py <= hi_y {
                    brushed(start.cell(px, py), sandbox.cell(px, py), t, paint, erase)
                } else {
                    sandbox.cell(px, py) == start.cell(px, py)
                },
        decreases hi_x + 1 - qx,
    {
        let mut qy = lo_y;
        while qy <= hi_y
            invariant
                lo_x <= qx <= hi_x,
                lo_y <= qy <= hi_y + 1,
                lo_x == (if x >= BRUSH_LOW { x - BRUSH_LOW } else { 0 }),
                hi_x == x + BRUSH_HIGH,
                lo_y == (if y >= BRUSH_LOW { y - BRUSH_LOW } else { 0 }),
                hi_y == y + BRUSH_HIGH,
                x < i32::MAX,
                y < i32::MAX,
                start == *old(sandbox),
                start.in_bounds(x as int, y as int),
                sandbox.wf(),
                sandbox.same_geometry(&start),
                forall|px: int, py: int|
                    #![trigger sandbox.cell(px, py)]
                    start.in_bounds(px, py) ==> if (lo_x <= px < qx && lo_y <= py <= hi_y) || (px
                        == qx && lo_y <= py < qy) {
                        brushed(start.cell(px, py), sandbox.cell(px, py), t, paint, erase)
                    } else {
                        sandbox.cell(px, py) == start.cell(px, py)
                    },
            decreases hi_y + 1 - qy,
        {
            if !sandbox.out_of_bounds_usize(qx, qy) {
                let occupied = sandbox.get(qx, qy).is_some();
                if paint && !occupied {
                    let p = get_particle(t);
                    sandbox.set(qx, qy, Some(p));
                } else if erase && occupied {
                    sandbox.set(qx, qy, None);
                }
            }
            qy = qy + 1;
        }
        qx = qx + 1;
    }
}

} // verus!
