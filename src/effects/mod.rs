//! The per-tick effects a particle applies to itself and its neighbors.
use vstd::prelude::*;

use crate::particle::{Particle, ParticleHealth};
use crate::particle_types::{get_particle, is_particle_of, ParticleTypes};

pub mod acidity;
pub mod growable;
pub mod movement;
pub mod temperature;
pub mod tick_life;

verus! {

/// `(qx, qy)` is one of the four orthogonal neighbors of `(x, y)`.
pub open spec fn orthogonal(qx: int, qy: int, x: int, y: int) -> bool {
    (qx == x - 1 && qy == y) || (qx == x + 1 && qy == y) || (qx == x && qy == y - 1) || (qx == x
        && qy == y + 1)
}

/// `p` with its health amount replaced by `amount`.
pub open spec fn with_health(p: Particle, amount: int) -> Particle {
    Particle { health: ParticleHealth { amount: amount as i32, ..p.health }, ..p }
}

/// `c` is what replaces a particle that turns into `t`: a fresh particle of
/// that material, or empty space.
pub open spec fn replaced_by(c: Option<Particle>, t: Option<ParticleTypes>) -> bool {
    match t {
        Some(t) => c is Some && is_particle_of(t, c.unwrap()),
        None => c is None,
    }
}

/// A fresh particle of material `t`, or nothing.
pub fn replacement(t: Option<ParticleTypes>) -> (r: Option<Particle>)
    ensures
        replaced_by(r, t),
{
    match t {
        Some(t) => Some(get_particle(t)),
        None => None,
    }
}

} // verus!
