use vstd::prelude::*;

use crate::particle::{
    default_health, growable_of, temperature_of, Acidity, Burnable, Chance,
    CollisionType, Density, Growable, MovementType, Particle, ParticleHealth, Temperature,
    TemperatureChanger, TickLife, Velocity,
};
use crate::random::random_in_range;

verus! {

/// The materials that the simulation knows.
#[derive(Clone, Copy, Debug, PartialEq, Eq, Structural)]
pub enum ParticleTypes {
    Sand,
    Water,
    Stone,
    Steam,
    Acid,
    Wood,
    Glass,
    Spark,
    Ember,
    Smoke,
    Lava,
    Oil,
    Gunpowder,
    Tnt,
    Ash,
    Dirt,
    Grass,
    Alcohol,
    Igneous,
    Indestructible,
}

/// The colors a combustible material shows while burning and after it cools.
pub open spec fn burnable_of(burn_temperature: i32, burn_ticks: i32) -> Burnable {
    Burnable {
        burn_temperature,
        burn_ticks,
        burn_color: (204, 146, 94, 255),
        cooled_color: (125, 110, 110, 255),
        burning: false,
    }
}

fn burnable_new(burn_temperature: i32, burn_ticks: i32) -> (r: Burnable)
    ensures
        r == burnable_of(burn_temperature, burn_ticks),
{
    Burnable {
        burn_temperature,
        burn_ticks,
        burn_color: (204, 146, 94, 255),
        cooled_color: (125, 110, 110, 255),
        burning: false,
    }
}

fn growable_new(
    energy: u32,
    spread_chance: Chance,
    up_chance: Chance,
    grow_as: ParticleTypes,
    can_sprout: bool,
) -> (r: Growable)
    ensures
        r == growable_of(energy, spread_chance, up_chance, grow_as, can_sprout),
{
    Growable { energy, spread_chance, grow_as, up_chance, can_sprout }
}

/// The half-open range from which a short-lived material draws its health.
pub open spec fn health_roll_range(t: ParticleTypes) -> Option<(i32, i32)> {
    match t {
        ParticleTypes::Steam => Some((100i32, 120i32)),
        ParticleTypes::Spark => Some((5i32, 10i32)),
        ParticleTypes::Ember => Some((30i32, 45i32)),
        ParticleTypes::Smoke => Some((40i32, 55i32)),
        _ => None,
    }
}

/// The particle of material `t`, given the health `roll` of a short-lived
/// material and the sprouting permission `sprout` of a growing one.
pub open spec fn template(t: ParticleTypes, roll: i32, sprout: bool) -> Particle {
    match t {
        ParticleTypes::Sand => Particle {
                health: default_health(),
                velocity: Velocity { x: 0, y: 0 },
                color: (218, 203, 128, 255),
                movement_type: MovementType::Powder,
                density: Density(u32::MAX),
                acidity: None,
                temperature: Some(temperature_of(50, true, true, false, Some(ParticleTypes::Glass), 0)),
                temperature_changer: None,
                burnable: None,
                tick_life: None,
                growable: None,
                collision_type: CollisionType::Solid,
                affected_by_gravity: true,
                updated: false,
                growable_on: false,
            },
        ParticleTypes::Water => Particle {
                health: ParticleHealth { amount: 1, corrodable: false },
                velocity: Velocity { x: 0, y: 0 },
                color: (123, 153, 200, 255),
                movement_type: MovementType::Liquid,
                density: Density(3),
                acidity: None,
                temperature: Some(temperature_of(30, false, true, false, Some(ParticleTypes::Steam), 0)),
                temperature_changer: Some(TemperatureChanger(5)),
                burnable: None,
                tick_life: None,
                growable: None,
                collision_type: CollisionType::Water,
                affected_by_gravity: true,
                updated: false,
                growable_on: false,
            },
        ParticleTypes::Stone => Particle {
                health: default_health(),
                velocity: Velocity { x: 0, y: 0 },
                color: (125, 110, 110, 255),
                movement_type: MovementType::Solid,
                density: Density(u32::MAX),
                acidity: None,
                temperature: None,
                temperature_changer: None,
                burnable: None,
                tick_life: None,
                growable: None,
                collision_type: CollisionType::Solid,
                affected_by_gravity: true,
                updated: false,
                growable_on: true,
            },
        ParticleTypes::Steam => Particle {
                health: ParticleHealth { amount: roll, corrodable: false },
                velocity: Velocity { x: 0, y: 0 },
                color: (240, 233, 201, 255),
                movement_type: MovementType::Gas,
                density: Density(0),
                acidity: None,
                temperature: None,
                temperature_changer: None,
                burnable: None,
                tick_life: Some(TickLife { replace_on_death: Some(ParticleTypes::Water) }),
                growable: None,
                collision_type: CollisionType::Empty,
                affected_by_gravity: true,
                updated: false,
                growable_on: false,
            },
        ParticleTypes::Acid => Particle {
                health: ParticleHealth { amount: 50, corrodable: false },
                velocity: Velocity { x: 0, y: 0 },
                color: (118, 195, 121, 255),
                movement_type: MovementType::Liquid,
                density: Density(4),
                acidity: Some(Acidity(5)),
                temperature: None,
                temperature_changer: None,
                burnable: None,
                tick_life: None,
                growable: None,
                collision_type: CollisionType::Acid,
                affected_by_gravity: true,
                updated: false,
                growable_on: false,
            },
        ParticleTypes::Wood => Particle {
                health: default_health(),
                velocity: Velocity { x: 0, y: 0 },
                color: (101, 61, 72, 255),
                movement_type: MovementType::Solid,
                density: Density(u32::MAX),
                acidity: None,
                temperature: Some(temperature_of(30, true, true, false, Some(ParticleTypes::Ash), 0)),
                temperature_changer: None,
                burnable: Some(burnable_of(-1i32, 50i32)),
                tick_life: None,
                growable: None,
                collision_type: CollisionType::Solid,
                affected_by_gravity: true,
                updated: false,
                growable_on: false,
            },
        ParticleTypes::Glass => Particle {
                health: ParticleHealth { amount: 50, corrodable: false },
                velocity: Velocity { x: 0, y: 0 },
                color: (153, 212, 230, 255),
                movement_type: MovementType::Solid,
                density: Density(u32::MAX),
                acidity: None,
                temperature: None,
                temperature_changer: None,
                burnable: None,
                tick_life: None,
                growable: None,
                collision_type: CollisionType::Solid,
                affected_by_gravity: true,
                updated: false,
                growable_on: false,
            },
        ParticleTypes::Spark => Particle {
                health: ParticleHealth { amount: roll, corrodable: false },
                velocity: Velocity { x: 0, y: 0 },
                color: (204, 146, 94, 255),
                movement_type: MovementType::Gas,
                density: Density(1),
                acidity: None,
                temperature: None,
                temperature_changer: Some(TemperatureChanger(-5i32)),
                burnable: None,
                tick_life: Some(TickLife { replace_on_death: None }),
                growable: None,
                collision_type: CollisionType::Fire,
                affected_by_gravity: true,
                updated: false,
                growable_on: false,
            },
        ParticleTypes::Ember => Particle {
                health: ParticleHealth { amount: roll, corrodable: true },
                velocity: Velocity { x: 0, y: 0 },
                color: (190, 121, 121, 255),
                movement_type: MovementType::Powder,
                density: Density(u32::MAX),
                acidity: None,
                temperature: None,
                temperature_changer: Some(TemperatureChanger(-5i32)),
                burnable: None,
                tick_life: Some(TickLife { replace_on_death: None }),
                growable: None,
                collision_type: CollisionType::Fire,
                affected_by_gravity: true,
                updated: false,
                growable_on: false,
            },
        ParticleTypes::Smoke => Particle {
                health: ParticleHealth { amount: roll, corrodable: false },
                velocity: Velocity { x: 0, y: 0 },
                color: (36, 22, 41, 255),
                movement_type: MovementType::Gas,
                density: Density(0),
                acidity: None,
                temperature: None,
                temperature_changer: None,
                burnable: None,
                tick_life: Some(TickLife { replace_on_death: None }),
                growable: None,
                collision_type: CollisionType::Empty,
                affected_by_gravity: true,
                updated: false,
                growable_on: false,
            },
        ParticleTypes::Lava => Particle {
                health: ParticleHealth { amount: 1, corrodable: false },
                velocity: Velocity { x: 0, y: 0 },
                color: (178, 94, 70, 255),
                movement_type: MovementType::Liquid,
                density: Density(5),
                acidity: None,
                temperature: Some(temperature_of(50, true, false, true, Some(ParticleTypes::Igneous), 0)),
                temperature_changer: Some(TemperatureChanger(-5i32)),
                burnable: None,
                tick_life: None,
                growable: None,
                collision_type: CollisionType::Fire,
                affected_by_gravity: true,
                updated: false,
                growable_on: false,
            },
        ParticleTypes::Oil => Particle {
                health: ParticleHealth { amount: 50, corrodable: false },
                velocity: Velocity { x: 0, y: 0 },
                color: (53, 43, 64, 255),
                movement_type: MovementType::Liquid,
                density: Density(2),
                acidity: None,
                temperature: Some(temperature_of(5, false, true, false, Some(ParticleTypes::Spark), 0)),
                temperature_changer: None,
                burnable: Some(burnable_of(-2i32, 15i32)),
                tick_life: None,
                growable: None,
                collision_type: CollisionType::Empty,
                affected_by_gravity: true,
                updated: false,
                growable_on: false,
            },
        ParticleTypes::Gunpowder => Particle {
                health: default_health(),
                velocity: Velocity { x: 0, y: 0 },
                color: (216, 177, 161, 255),
                movement_type: MovementType::Powder,
                density: Density(u32::MAX),
                acidity: None,
                temperature: Some(temperature_of(1, true, true, false, None, 5)),
                temperature_changer: None,
                burnable: None,
                tick_life: None,
                growable: None,
                collision_type: CollisionType::Solid,
                affected_by_gravity: true,
                updated: false,
                growable_on: false,
            },
        ParticleTypes::Tnt => Particle {
                health: default_health(),
                velocity: Velocity { x: 0, y: 0 },
                color: (147, 63, 69, 255),
                movement_type: MovementType::Solid,
                density: Density(u32::MAX),
                acidity: None,
                temperature: Some(temperature_of(1, true, true, false, None, 15)),
                temperature_changer: None,
                burnable: None,
                tick_life: None,
                growable: None,
                collision_type: CollisionType::Solid,
                affected_by_gravity: true,
                updated: false,
                growable_on: false,
            },
        ParticleTypes::Ash => Particle {
                health: default_health(),
                velocity: Velocity { x: 0, y: 0 },
                color: (194, 181, 169, 255),
                movement_type: MovementType::Powder,
                density: Density(u32::MAX),
                acidity: None,
                temperature: None,
                temperature_changer: None,
                burnable: None,
                tick_life: None,
                growable: None,
                collision_type: CollisionType::Solid,
                affected_by_gravity: true,
                updated: false,
                growable_on: false,
            },
        ParticleTypes::Dirt => Particle {
                health: default_health(),
                velocity: Velocity { x: 0, y: 0 },
                color: (89, 39, 39, 255),
                movement_type: MovementType::Solid,
                density: Density(u32::MAX),
                acidity: None,
                temperature: None,
                temperature_changer: None,
                burnable: None,
                tick_life: None,
                growable: None,
                collision_type: CollisionType::Solid,
                affected_by_gravity: true,
                updated: false,
                growable_on: true,
            },
        ParticleTypes::Grass => Particle {
                health: default_health(),
                velocity: Velocity { x: 0, y: 0 },
                color: (80, 141, 118, 255),
                movement_type: MovementType::Solid,
                density: Density(u32::MAX),
                acidity: None,
                temperature: Some(temperature_of(1, true, true, false, None, 0)),
                temperature_changer: None,
                burnable: Some(burnable_of(-1i32, 8i32)),
                tick_life: None,
                growable: Some(growable_of(2, Chance { numerator: 1, denominator: 2 }, Chance { numerator: 1, denominator: 4 }, ParticleTypes::Grass, sprout)),
                collision_type: CollisionType::Empty,
                affected_by_gravity: true,
                updated: false,
                growable_on: false,
            },
        ParticleTypes::Alcohol => Particle {
                health: ParticleHealth { amount: 50, corrodable: false },
                velocity: Velocity { x: 0, y: 0 },
                color: (242, 215, 94, 255),
                movement_type: MovementType::Liquid,
                density: Density(2),
                acidity: None,
                temperature: Some(temperature_of(5, true, true, false, Some(ParticleTypes::Spark), 0)),
                temperature_changer: None,
                burnable: Some(burnable_of(-2i32, 15i32)),
                tick_life: None,
                growable: None,
                collision_type: CollisionType::Empty,
                affected_by_gravity: true,
                updated: false,
                growable_on: false,
            },
        ParticleTypes::Igneous => Particle {
                health: default_health(),
                velocity: Velocity { x: 0, y: 0 },
                color: (110, 34, 13, 255),
                movement_type: MovementType::Solid,
                density: Density(u32::MAX),
                acidity: None,
                temperature: None,
                temperature_changer: None,
                burnable: None,
                tick_life: None,
                growable: None,
                collision_type: CollisionType::Solid,
                affected_by_gravity: true,
                updated: false,
                growable_on: false,
            },
        ParticleTypes::Indestructible => Particle {
                health: ParticleHealth { amount: i32::MAX, corrodable: false },
                velocity: Velocity { x: 0, y: 0 },
                color: (210, 0, 205, 255),
                movement_type: MovementType::Solid,
                density: Density(u32::MAX),
                acidity: None,
                temperature: None,
                temperature_changer: None,
                burnable: None,
                tick_life: None,
                growable: None,
                collision_type: CollisionType::Solid,
                affected_by_gravity: false,
                updated: false,
                growable_on: false,
            },
    }
}

/// `roll` is a health that material `t` can draw (any value where it draws none).
pub open spec fn roll_allowed(t: ParticleTypes, roll: i32) -> bool {
    match health_roll_range(t) {
        Some((low, high)) => low <= roll < high,
        None => true,
    }
}

/// `p` is a freshly made particle of material `t`.
pub open spec fn is_particle_of(t: ParticleTypes, p: Particle) -> bool {
    exists|roll: i32, sprout: bool| roll_allowed(t, roll) && p == #[trigger] template(t, roll, sprout)
}

/// Builds the particle of material `t` from the drawn values.
pub fn particle_of(t: ParticleTypes, roll: i32, sprout: bool) -> (p: Particle)
    ensures
        p == template(t, roll, sprout),
{
    match t {
        ParticleTypes::Sand => Particle {
                health: ParticleHealth::default(),
                velocity: Velocity::new(0, 0),
                color: (218, 203, 128, 255),
                movement_type: MovementType::Powder,
                density: Density(u32::MAX),
                acidity: None,
                temperature: Some(Temperature::new(50, true, true, false, Some(ParticleTypes::Glass), 0)),
                temperature_changer: None,
                burnable: None,
                tick_life: None,
                growable: None,
                collision_type: CollisionType::Solid,
                affected_by_gravity: true,
                updated: false,
                growable_on: false,
            },
        ParticleTypes::Water => Particle {
                health: ParticleHealth::new(1, false),
                velocity: Velocity::new(0, 0),
                color: (123, 153, 200, 255),
                movement_type: MovementType::Liquid,
                density: Density(3),
                acidity: None,
                temperature: Some(Temperature::new(30, false, true, false, Some(ParticleTypes::Steam), 0)),
                temperature_changer: Some(TemperatureChanger(5)),
                burnable: None,
                tick_life: None,
                growable: None,
                collision_type: CollisionType::Water,
                affected_by_gravity: true,
                updated: false,
                growable_on: false,
            },
        ParticleTypes::Stone => Particle {
                health: ParticleHealth::default(),
                velocity: Velocity::new(0, 0),
                color: (125, 110, 110, 255),
                movement_type: MovementType::Solid,
                density: Density(u32::MAX),
                acidity: None,
                temperature: None,
                temperature_changer: None,
                burnable: None,
                tick_life: None,
                growable: None,
                collision_type: CollisionType::Solid,
                affected_by_gravity: true,
                updated: false,
                growable_on: true,
            },
        ParticleTypes::Steam => Particle {
                health: ParticleHealth::new(roll, false),
                velocity: Velocity::new(0, 0),
                color: (240, 233, 201, 255),
                movement_type: MovementType::Gas,
                density: Density(0),
                acidity: None,
                temperature: None,
                temperature_changer: None,
                burnable: None,
                tick_life: Some(TickLife { replace_on_death: Some(ParticleTypes::Water) }),
                growable: None,
                collision_type: CollisionType::Empty,
                affected_by_gravity: true,
                updated: false,
                growable_on: false,
            },
        ParticleTypes::Acid => Particle {
                health: ParticleHealth::new(50, false),
                velocity: Velocity::new(0, 0),
                color: (118, 195, 121, 255),
                movement_type: MovementType::Liquid,
                density: Density(4),
                acidity: Some(Acidity(5)),
                temperature: None,
                temperature_changer: None,
                burnable: None,
                tick_life: None,
                growable: None,
                collision_type: CollisionType::Acid,
                affected_by_gravity: true,
                updated: false,
                growable_on: false,
            },
        ParticleTypes::Wood => Particle {
                health: ParticleHealth::default(),
                velocity: Velocity::new(0, 0),
                color: (101, 61, 72, 255),
                movement_type: MovementType::Solid,
                density: Density(u32::MAX),
                acidity: None,
                temperature: Some(Temperature::new(30, true, true, false, Some(ParticleTypes::Ash), 0)),
                temperature_changer: None,
                burnable: Some(burnable_new(-1, 50)),
                tick_life: None,
                growable: None,
                collision_type: CollisionType::Solid,
                affected_by_gravity: true,
                updated: false,
                growable_on: false,
            },
        ParticleTypes::Glass => Particle {
                health: ParticleHealth::new(50, false),
                velocity: Velocity::new(0, 0),
                color: (153, 212, 230, 255),
                movement_type: MovementType::Solid,
                density: Density(u32::MAX),
                acidity: None,
                temperature: None,
                temperature_changer: None,
                burnable: None,
                tick_life: None,
                growable: None,
                collision_type: CollisionType::Solid,
                affected_by_gravity: true,
                updated: false,
                growable_on: false,
            },
        ParticleTypes::Spark => Particle {
                health: ParticleHealth::new(roll, false),
                velocity: Velocity::new(0, 0),
                color: (204, 146, 94, 255),
                movement_type: MovementType::Gas,
                density: Density(1),
                acidity: None,
                temperature: None,
                temperature_changer: Some(TemperatureChanger(-5)),
                burnable: None,
                tick_life: Some(TickLife { replace_on_death: None }),
                growable: None,
                collision_type: CollisionType::Fire,
                affected_by_gravity: true,
                updated: false,
                growable_on: false,
            },
        ParticleTypes::Ember => Particle {
                health: ParticleHealth::new(roll, true),
                velocity: Velocity::new(0, 0),
                color: (190, 121, 121, 255),
                movement_type: MovementType::Powder,
                density: Density(u32::MAX),
                acidity: None,
                temperature: None,
                temperature_changer: Some(TemperatureChanger(-5)),
                burnable: None,
                tick_life: Some(TickLife { replace_on_death: None }),
                growable: None,
                collision_type: CollisionType::Fire,
                affected_by_gravity: true,
                updated: false,
                growable_on: false,
            },
        ParticleTypes::Smoke => Particle {
                health: ParticleHealth::new(roll, false),
                velocity: Velocity::new(0, 0),
                color: (36, 22, 41, 255),
                movement_type: MovementType::Gas,
                density: Density(0),
                acidity: None,
                temperature: None,
                temperature_changer: None,
                burnable: None,
                tick_life: Some(TickLife { replace_on_death: None }),
                growable: None,
                collision_type: CollisionType::Empty,
                affected_by_gravity: true,
                updated: false,
                growable_on: false,
            },
        ParticleTypes::Lava => Particle {
                health: ParticleHealth::new(1, false),
                velocity: Velocity::new(0, 0),
                color: (178, 94, 70, 255),
                movement_type: MovementType::Liquid,
                density: Density(5),
                acidity: None,
                temperature: Some(Temperature::new(50, true, false, true, Some(ParticleTypes::Igneous), 0)),
                temperature_changer: Some(TemperatureChanger(-5)),
                burnable: None,
                tick_life: None,
                growable: None,
                collision_type: CollisionType::Fire,
                affected_by_gravity: true,
                updated: false,
                growable_on: false,
            },
        ParticleTypes::Oil => Particle {
                health: ParticleHealth::new(50, false),
                velocity: Velocity::new(0, 0),
                color: (53, 43, 64, 255),
                movement_type: MovementType::Liquid,
                density: Density(2),
                acidity: None,
                temperature: Some(Temperature::new(5, false, true, false, Some(ParticleTypes::Spark), 0)),
                temperature_changer: None,
                burnable: Some(burnable_new(-2, 15)),
                tick_life: None,
                growable: None,
                collision_type: CollisionType::Empty,
                affected_by_gravity: true,
                updated: false,
                growable_on: false,
            },
        ParticleTypes::Gunpowder => Particle {
                health: ParticleHealth::default(),
                velocity: Velocity::new(0, 0),
                color: (216, 177, 161, 255),
                movement_type: MovementType::Powder,
                density: Density(u32::MAX),
                acidity: None,
                temperature: Some(Temperature::new(1, true, true, false, None, 5)),
                temperature_changer: None,
                burnable: None,
                tick_life: None,
                growable: None,
                collision_type: CollisionType::Solid,
                affected_by_gravity: true,
                updated: false,
                growable_on: false,
            },
        ParticleTypes::Tnt => Particle {
                health: ParticleHealth::default(),
                velocity: Velocity::new(0, 0),
                color: (147, 63, 69, 255),
                movement_type: MovementType::Solid,
                density: Density(u32::MAX),
                acidity: None,
                temperature: Some(Temperature::new(1, true, true, false, None, 15)),
                temperature_changer: None,
                burnable: None,
                tick_life: None,
                growable: None,
                collision_type: CollisionType::Solid,
                affected_by_gravity: true,
                updated: false,
                growable_on: false,
            },
        ParticleTypes::Ash => Particle {
                health: ParticleHealth::default(),
                velocity: Velocity::new(0, 0),
                color: (194, 181, 169, 255),
                movement_type: MovementType::Powder,
                density: Density(u32::MAX),
                acidity: None,
                temperature: None,
                temperature_changer: None,
                burnable: None,
                tick_life: None,
                growable: None,
                collision_type: CollisionType::Solid,
                affected_by_gravity: true,
                updated: false,
                growable_on: false,
            },
        ParticleTypes::Dirt => Particle {
                health: ParticleHealth::default(),
                velocity: Velocity::new(0, 0),
                color: (89, 39, 39, 255),
                movement_type: MovementType::Solid,
                density: Density(u32::MAX),
                acidity: None,
                temperature: None,
                temperature_changer: None,
                burnable: None,
                tick_life: None,
                growable: None,
                collision_type: CollisionType::Solid,
                affected_by_gravity: true,
                updated: false,
                growable_on: true,
            },
        ParticleTypes::Grass => Particle {
                health: ParticleHealth::default(),
                velocity: Velocity::new(0, 0),
                color: (80, 141, 118, 255),
                movement_type: MovementType::Solid,
                density: Density(u32::MAX),
                acidity: None,
                temperature: Some(Temperature::new(1, true, true, false, None, 0)),
                temperature_changer: None,
                burnable: Some(burnable_new(-1, 8)),
                tick_life: None,
                growable: Some(growable_new(2, Chance { numerator: 1, denominator: 2 }, Chance { numerator: 1, denominator: 4 }, ParticleTypes::Grass, sprout)),
                collision_type: CollisionType::Empty,
                affected_by_gravity: true,
                updated: false,
                growable_on: false,
            },
        ParticleTypes::Alcohol => Particle {
                health: ParticleHealth::new(50, false),
                velocity: Velocity::new(0, 0),
                color: (242, 215, 94, 255),
                movement_type: MovementType::Liquid,
                density: Density(2),
                acidity: None,
                temperature: Some(Temperature::new(5, true, true, false, Some(ParticleTypes::Spark), 0)),
                temperature_changer: None,
                burnable: Some(burnable_new(-2, 15)),
                tick_life: None,
                growable: None,
                collision_type: CollisionType::Empty,
                affected_by_gravity: true,
                updated: false,
                growable_on: false,
            },
        ParticleTypes::Igneous => Particle {
                health: ParticleHealth::default(),
                velocity: Velocity::new(0, 0),
                color: (110, 34, 13, 255),
                movement_type: MovementType::Solid,
                density: Density(u32::MAX),
                acidity: None,
                temperature: None,
                temperature_changer: None,
                burnable: None,
                tick_life: None,
                growable: None,
                collision_type: CollisionType::Solid,
                affected_by_gravity: true,
                updated: false,
                growable_on: false,
            },
        ParticleTypes::Indestructible => Particle {
                health: ParticleHealth::new(i32::MAX, false),
                velocity: Velocity::new(0, 0),
                color: (210, 0, 205, 255),
                movement_type: MovementType::Solid,
                density: Density(u32::MAX),
                acidity: None,
                temperature: None,
                temperature_changer: None,
                burnable: None,
                tick_life: None,
                growable: None,
                collision_type: CollisionType::Solid,
                affected_by_gravity: false,
                updated: false,
                growable_on: false,
            },
    }
}

/// A fresh particle of material `t`; short-lived materials draw their health and
/// growing ones whether they may sprout.
pub fn get_particle(t: ParticleTypes) -> (p: Particle)
    ensures
        is_particle_of(t, p),
{
    let roll: i32 = match t {
        ParticleTypes::Steam => random_in_range(100, 120),
        ParticleTypes::Spark => random_in_range(5, 10),
        ParticleTypes::Ember => random_in_range(30, 45),
        ParticleTypes::Smoke => random_in_range(40, 55),
        _ => 0,
    };
    let mut p = particle_of(t, roll, false);
    match p.growable {
        Some(g) => {
            let grown = Growable::new(g.energy, g.spread_chance, g.up_chance, g.grow_as);
            p.growable = Some(grown);
            assert(p == template(t, roll, grown.can_sprout));
        },
        None => {
            assert(p == template(t, roll, false));
        },
    }
    p
}

} // verus!
