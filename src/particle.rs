use vstd::prelude::*;

use crate::particle_types::ParticleTypes;
use crate::random::chance;

verus! {

/// Health of a particle and whether acid can eat it.
#[derive(Clone, Copy, Debug, PartialEq, Eq, Structural)]
pub struct ParticleHealth {
    pub amount: i32,
    pub corrodable: bool,
}

impl ParticleHealth {
    pub fn new(amount: i32, corrodable: bool) -> (r: Self)
        ensures
            r == (ParticleHealth { amount, corrodable }),
    {
        Self { amount, corrodable }
    }
}

/// The health a particle gets when a material does not say otherwise.
pub open spec fn default_health() -> ParticleHealth {
    ParticleHealth { amount: 50, corrodable: true }
}

impl Default for ParticleHealth {
    fn default() -> (r: Self)
        ensures
            r == default_health(),
    {
        Self { amount: 50, corrodable: true }
    }
}

/// The particle's own velocity, in cells per tick.
#[derive(Clone, Copy, Debug, PartialEq, Eq, Structural)]
pub struct Velocity {
    pub x: i32,
    pub y: i32,
}

/// One step of drag: `x` moves one unit toward zero.
pub open spec fn damped(x: i32) -> i32 {
    if x < 0 {
        (x + 1) as i32
    } else if x > 0 {
        (x - 1) as i32
    } else {
        x
    }
}

impl Velocity {
    pub fn new(x: i32, y: i32) -> (r: Self)
        ensures
            r == (Velocity { x, y }),
    {
        Self { x, y }
    }

    /// Damps both components by one unit toward zero.
    pub fn zero_out(&mut self)
        ensures
            final(self).x == damped(old(self).x),
            final(self).y == damped(old(self).y),
    {
        if self.x < 0 {
            self.x = self.x + 1;
        } else if self.x > 0 {
            self.x = self.x - 1;
        }
        if self.y < 0 {
            self.y = self.y + 1;
        } else if self.y > 0 {
            self.y = self.y - 1;
        }
    }
}


/// How heavy a particle is; the largest value marks an immovable one.
#[derive(Clone, Copy, Debug, PartialEq, Eq, Structural)]
pub struct Density(pub u32);

/// How much health an acid takes from each corrodable neighbor per tick.
#[derive(Clone, Copy, Debug, PartialEq, Eq, Structural)]
pub struct Acidity(pub i32);

/// Thermal state of a particle.
#[derive(Clone, Copy, Debug, PartialEq, Eq, Structural)]
pub struct Temperature {
    pub current_temperature: i32,
    pub starting_temperature: i32,
    pub coolable: bool,
    pub heatable: bool,
    pub critical_on_cool: bool,
    pub change_on_critical: Option<ParticleTypes>,
    pub explosion_radius: i32,
}

/// A fresh thermal state that starts at its starting temperature.
pub open spec fn temperature_of(
    starting_temperature: i32,
    coolable: bool,
    heatable: bool,
    critical_on_cool: bool,
    change_on_critical: Option<ParticleTypes>,
    explosion_radius: i32,
) -> Temperature {
    Temperature {
        current_temperature: starting_temperature,
        starting_temperature,
        coolable,
        heatable,
        critical_on_cool,
        change_on_critical,
        explosion_radius,
    }
}

impl Temperature {
    pub fn new(
        starting_temperature: i32,
        coolable: bool,
        heatable: bool,
        critical_on_cool: bool,
        change_on_critical: Option<ParticleTypes>,
        explosion_radius: i32,
    ) -> (r: Self)
        ensures
            r == temperature_of(
                starting_temperature,
                coolable,
                heatable,
                critical_on_cool,
                change_on_critical,
                explosion_radius,
            ),
    {
        Self {
            current_temperature: starting_temperature,
            starting_temperature,
            coolable,
            heatable,
            critical_on_cool,
            change_on_critical,
            explosion_radius,
        }
    }
}

/// A signed temperature delta that a particle applies to its neighbors each tick.
#[derive(Clone, Copy, Debug, PartialEq, Eq, Structural)]
pub struct TemperatureChanger(pub i32);

/// What a combustible particle looks like and does while it burns.
#[derive(Clone, Copy, Debug)]
pub struct Burnable {
    pub burn_temperature: i32,
    pub burn_ticks: i32,
    pub burn_color: (u8, u8, u8, u8),
    pub cooled_color: (u8, u8, u8, u8),
    pub burning: bool,
}

/// A probability written as `numerator / denominator`.
#[derive(Clone, Copy, Debug, PartialEq, Eq, Structural)]
pub struct Chance {
    pub numerator: u32,
    pub denominator: u32,
}

impl Chance {
    /// A probability between zero and one.
    pub open spec fn wf(self) -> bool {
        self.numerator <= self.denominator && self.denominator > 0
    }
}

/// A particle that spreads onto suitable neighbors.
#[derive(Clone, Copy, Debug, PartialEq, Eq, Structural)]
pub struct Growable {
    pub energy: u32,
    pub spread_chance: Chance,
    pub grow_as: ParticleTypes,
    pub up_chance: Chance,
    pub can_sprout: bool,
}

/// A growth trait whose sprouting permission is `can_sprout`.
pub open spec fn growable_of(
    energy: u32,
    spread_chance: Chance,
    up_chance: Chance,
    grow_as: ParticleTypes,
    can_sprout: bool,
) -> Growable {
    Growable { energy, spread_chance, grow_as, up_chance, can_sprout }
}

impl Growable {
    /// Draws once, with probability `up_chance`, whether this particle may sprout.
    pub fn new(energy: u32, spread_chance: Chance, up_chance: Chance, grow_as: ParticleTypes) -> (r:
        Self)
        requires
            up_chance.wf(),
        ensures
            r == growable_of(energy, spread_chance, up_chance, grow_as, r.can_sprout),
            up_chance.numerator == 0 ==> !r.can_sprout,
            up_chance.numerator == up_chance.denominator ==> r.can_sprout,
    {
        Self {
            energy,
            spread_chance,
            grow_as,
            up_chance,
            can_sprout: chance(up_chance.numerator, up_chance.denominator),
        }
    }
}

/// A particle that lives a limited number of ticks.
#[derive(Clone, Copy, Debug, PartialEq, Eq, Structural)]
pub struct TickLife {
    pub replace_on_death: Option<ParticleTypes>,
}

/// How a particle moves.
#[derive(Clone, Copy, Debug, PartialEq, Eq, Structural)]
pub enum MovementType {
    Solid,
    Powder,
    Liquid,
    Gas,
}

/// The kind of collider a particle contributes to.
#[derive(Clone, Copy, Debug, PartialEq, Eq, Structural)]
pub enum CollisionType {
    Empty,
    Solid,
    Acid,
    Fire,
    Water,
}

impl CollisionType {
    /// Every collision category, in declaration order.
    pub fn iter() -> (r: Vec<CollisionType>)
        ensures
            r@ == seq![
                CollisionType::Empty,
                CollisionType::Solid,
                CollisionType::Acid,
                CollisionType::Fire,
                CollisionType::Water,
            ],
    {
        let mut r = Vec::new();
        r.push(CollisionType::Empty);
        r.push(CollisionType::Solid);
        r.push(CollisionType::Acid);
        r.push(CollisionType::Fire);
        r.push(CollisionType::Water);
        r
    }
}

/// The contents of one cell.
#[derive(Clone, Copy, Debug)]
pub struct Particle {
    pub health: ParticleHealth,
    pub velocity: Velocity,
    pub color: (u8, u8, u8, u8),
    pub movement_type: MovementType,
    pub density: Density,
    pub acidity: Option<Acidity>,
    pub temperature: Option<Temperature>,
    pub temperature_changer: Option<TemperatureChanger>,
    pub burnable: Option<Burnable>,
    pub tick_life: Option<TickLife>,
    pub growable: Option<Growable>,
    pub collision_type: CollisionType,
    pub affected_by_gravity: bool,
    pub updated: bool,
    pub growable_on: bool,
}

/// A plain powder particle with no optional traits.
pub open spec fn default_particle() -> Particle {
    Particle {
        health: default_health(),
        velocity: Velocity { x: 0, y: 0 },
        color: (0, 0, 0, 0),
        movement_type: MovementType::Powder,
        density: Density(0),
        acidity: None,
        temperature: None,
        temperature_changer: None,
        burnable: None,
        tick_life: None,
        growable: None,
        collision_type: CollisionType::Empty,
        affected_by_gravity: false,
        updated: false,
        growable_on: false,
    }
}

impl Default for Particle {
    fn default() -> (r: Self)
        ensures
            r == default_particle(),
    {
        Particle {
            health: ParticleHealth::default(),
            velocity: Velocity::new(0, 0),
            color: (0, 0, 0, 0),
            movement_type: MovementType::Powder,
            density: Density(0),
            acidity: None,
            temperature: None,
            temperature_changer: None,
            burnable: None,
            tick_life: None,
            growable: None,
            collision_type: CollisionType::Empty,
            affected_by_gravity: false,
            updated: false,
            growable_on: false,
        }
    }
}

} // verus!
