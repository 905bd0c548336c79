use falling_sand::effects::acidity::tick_acidity;
use falling_sand::effects::growable::{spread_in_order, sprout_in_order, tick_growable};
use falling_sand::effects::movement::{tick_movement, tick_movement_with};
use falling_sand::effects::temperature::{spark_or_smoke, tick_temperature};
use falling_sand::effects::tick_life::tick_life;
use falling_sand::particle::{
    Chance, Particle, ParticleHealth, Temperature, TemperatureChanger, Velocity,
};
use falling_sand::particle_types::{particle_of, ParticleTypes};
use falling_sand::sandbox::Sandbox;
use falling_sand::simulation::{step_particle, update_particles};

fn sand() -> Particle {
    particle_of(ParticleTypes::Sand, 0, false)
}

fn find(sandbox: &Sandbox, color: (u8, u8, u8, u8)) -> Vec<(usize, usize)> {
    let mut found = Vec::new();
    for x in 0..sandbox.width() {
        for y in 0..sandbox.height() {
            if let Some(p) = sandbox.get(x, y) {
                if p.color == color {
                    found.push((x, y));
                }
            }
        }
    }
    found
}

#[test]
fn acid_removes_weak_neighbor_and_survives() {
    let mut sandbox = Sandbox::new(1, 1, 5, 5);
    let acid = particle_of(ParticleTypes::Acid, 0, false);
    let mut victim = sand();
    victim.health = ParticleHealth::new(3, true);
    sandbox.set(2, 2, Some(acid));
    sandbox.set(3, 2, Some(victim));
    let consumed = tick_acidity(2, 2, &mut sandbox);
    assert!(!consumed);
    assert!(sandbox.get(3, 2).is_none());
    assert_eq!(sandbox.get(2, 2).unwrap().health.amount, 49);
}

#[test]
fn acid_wears_down_strong_neighbor_and_itself() {
    let mut sandbox = Sandbox::new(1, 1, 5, 5);
    let mut acid = particle_of(ParticleTypes::Acid, 0, false);
    acid.health = ParticleHealth::new(2, false);
    let mut left = sand();
    left.health = ParticleHealth::new(20, true);
    let mut below = sand();
    below.health = ParticleHealth::new(20, true);
    let mut hard = sand();
    hard.health = ParticleHealth::new(20, false);
    sandbox.set(2, 2, Some(acid));
    sandbox.set(1, 2, Some(left));
    sandbox.set(2, 1, Some(below));
    sandbox.set(3, 2, Some(hard));
    let consumed = tick_acidity(2, 2, &mut sandbox);
    assert!(consumed);
    assert!(sandbox.get(2, 2).is_none());
    assert_eq!(sandbox.get(1, 2).unwrap().health.amount, 15);
    assert_eq!(sandbox.get(2, 1).unwrap().health.amount, 15);
    assert_eq!(sandbox.get(3, 2).unwrap().health.amount, 20);
}

#[test]
fn acid_on_full_tick_removes_neighbor() {
    let mut sandbox = Sandbox::new(1, 1, 6, 6);
    let acid = particle_of(ParticleTypes::Acid, 0, false);
    let mut victim = sand();
    victim.health = ParticleHealth::new(3, true);
    victim.affected_by_gravity = false;
    sandbox.set(2, 0, Some(acid));
    sandbox.set(3, 0, Some(victim));
    update_particles(&mut sandbox);
    let acids = find(&sandbox, (118, 195, 121, 255));
    assert_eq!(acids.len(), 1);
    let left = sandbox.get(acids[0].0, acids[0].1).unwrap().health.amount;
    assert_eq!(left, 49);
    assert!(find(&sandbox, (218, 203, 128, 255)).is_empty());
}

fn cooler() -> Particle {
    let mut p = particle_of(ParticleTypes::Stone, 0, false);
    p.temperature_changer = Some(TemperatureChanger(-5));
    p
}

#[test]
fn cooled_particle_turns_into_its_critical_material() {
    let mut sandbox = Sandbox::new(1, 1, 4, 4);
    sandbox.set(1, 1, Some(cooler()));
    sandbox.set(2, 1, Some(sand()));
    let mut ticks = 0;
    loop {
        ticks += 1;
        assert!(ticks <= 70);
        tick_temperature(1, 1, &mut sandbox);
        let consumed = tick_temperature(2, 1, &mut sandbox);
        let cell = sandbox.get(2, 1).unwrap();
        if consumed {
            assert_eq!(cell.color, (153, 212, 230, 255));
            break;
        }
        assert!(cell.temperature.unwrap().current_temperature >= 0);
    }
    // it reaches 0 degrees on the 10th tick and loses one health that same
    // tick, so its 50 health is gone on the 59th
    assert_eq!(ticks, 59);
}

#[test]
fn emitter_clamps_neighbor_temperature() {
    let mut sandbox = Sandbox::new(1, 1, 4, 4);
    let mut heater = particle_of(ParticleTypes::Stone, 0, false);
    heater.temperature_changer = Some(TemperatureChanger(30));
    sandbox.set(1, 1, Some(heater));
    let mut lava = particle_of(ParticleTypes::Lava, 0, false);
    lava.temperature = Some(Temperature::new(90, true, true, true, None, 0));
    sandbox.set(1, 2, Some(lava));
    let mut cold = sand();
    cold.temperature = Some(Temperature::new(40, true, true, false, None, 0));
    sandbox.set(2, 1, Some(cold));
    tick_temperature(1, 1, &mut sandbox);
    assert_eq!(sandbox.get(1, 2).unwrap().temperature.unwrap().current_temperature, 100);
    assert_eq!(sandbox.get(2, 1).unwrap().temperature.unwrap().current_temperature, 40);
}

#[test]
fn critical_particle_explodes() {
    let mut sandbox = Sandbox::new(1, 1, 10, 10);
    let mut bomb = particle_of(ParticleTypes::Gunpowder, 0, false);
    bomb.temperature = Some(Temperature::new(0, true, true, false, None, 1));
    sandbox.set(5, 5, Some(bomb));
    sandbox.set(7, 5, Some(particle_of(ParticleTypes::Stone, 0, false)));
    sandbox.set(3, 7, Some(particle_of(ParticleTypes::Stone, 0, false)));
    sandbox.set(6, 3, Some(particle_of(ParticleTypes::Stone, 0, false)));
    let consumed = tick_temperature(5, 5, &mut sandbox);
    assert!(consumed);
    for x in 4..=6 {
        for y in 4..=6 {
            let spark = sandbox.get(x, y).unwrap();
            assert_eq!(spark.color, (204, 146, 94, 255));
        }
    }
    assert_eq!(sandbox.get(7, 5).unwrap().velocity, Velocity::new(10, 0));
    assert_eq!(sandbox.get(3, 7).unwrap().velocity, Velocity::new(-7, 7));
    assert_eq!(sandbox.get(6, 3).unwrap().velocity, Velocity::new(4, -8));
    assert!(sandbox.get(8, 8).is_none());
}

#[test]
fn wood_ignites_when_cold_enough() {
    let mut sandbox = Sandbox::new(1, 1, 4, 4);
    let mut wood = particle_of(ParticleTypes::Wood, 0, false);
    wood.temperature = Some(Temperature::new(30, true, true, false, None, 0));
    let mut t = wood.temperature.unwrap();
    t.current_temperature = 0;
    wood.temperature = Some(t);
    wood.health = ParticleHealth::new(5, true);
    sandbox.set(0, 0, Some(wood));
    let consumed = tick_temperature(0, 0, &mut sandbox);
    assert!(!consumed);
    let lit = sandbox.get(0, 0).unwrap();
    assert!(lit.burnable.unwrap().burning);
    assert_eq!(lit.health.amount, 50);
    assert_eq!(lit.color, (204, 146, 94, 255));
    assert_eq!(lit.temperature_changer.unwrap().0, -1);
    assert!(sandbox.get(1, 0).is_some());
    assert!(sandbox.get(0, 1).is_some());
}

#[test]
fn short_life_runs_out() {
    let mut sandbox = Sandbox::new(1, 1, 4, 4);
    let smoke = particle_of(ParticleTypes::Smoke, 2, false);
    sandbox.set(1, 1, Some(smoke));
    assert!(!tick_life(1, 1, &mut sandbox));
    assert_eq!(sandbox.get(1, 1).unwrap().health.amount, 1);
    assert!(tick_life(1, 1, &mut sandbox));
    assert!(sandbox.get(1, 1).is_none());
    let steam = particle_of(ParticleTypes::Steam, 1, false);
    sandbox.set(2, 2, Some(steam));
    assert!(tick_life(2, 2, &mut sandbox));
    assert_eq!(sandbox.get(2, 2).unwrap().color, (123, 153, 200, 255));
    let stone = particle_of(ParticleTypes::Stone, 0, false);
    sandbox.set(3, 3, Some(stone));
    assert!(!tick_life(3, 3, &mut sandbox));
    assert_eq!(sandbox.get(3, 3).unwrap().health.amount, 50);
}

#[test]
fn powder_at_rest_falls_one_cell() {
    let mut sandbox = Sandbox::new(1, 1, 8, 8);
    sandbox.set(3, 5, Some(sand()));
    tick_movement(3, 5, &mut sandbox);
    assert!(sandbox.get(3, 5).is_none());
    let moved = sandbox.get(3, 4).unwrap();
    assert!(moved.updated);
    assert_eq!(moved.velocity, Velocity::new(0, 0));
}

#[test]
fn powder_falls_one_cell_per_tick() {
    let mut sandbox = Sandbox::new(1, 1, 8, 8);
    sandbox.set(3, 6, Some(sand()));
    for k in 1..=6 {
        update_particles(&mut sandbox);
        assert_eq!(find(&sandbox, (218, 203, 128, 255)), vec![(3, 6 - k)]);
    }
    update_particles(&mut sandbox);
    assert_eq!(find(&sandbox, (218, 203, 128, 255)), vec![(3, 0)]);
}

#[test]
fn moving_particle_is_damped_on_both_axes() {
    let mut sandbox = Sandbox::new(1, 1, 8, 8);
    let mut gas = particle_of(ParticleTypes::Smoke, 40, false);
    gas.affected_by_gravity = false;
    gas.velocity = Velocity::new(2, 3);
    sandbox.set(1, 1, Some(gas));
    tick_movement_with(1, 1, &mut sandbox, true);
    let moved = sandbox.get(3, 4).unwrap();
    assert_eq!(moved.velocity, Velocity::new(1, 2));
}

#[test]
fn powder_falls_until_floor() {
    let mut sandbox = Sandbox::new(1, 1, 8, 8);
    sandbox.set(3, 6, Some(sand()));
    update_particles(&mut sandbox);
    assert_eq!(find(&sandbox, (218, 203, 128, 255)), vec![(3, 5)]);
    for _ in 0..10 {
        update_particles(&mut sandbox);
    }
    let rest = find(&sandbox, (218, 203, 128, 255));
    assert_eq!(rest.len(), 1);
    assert_eq!(rest[0].1, 0);
}

#[test]
fn liquid_swaps_with_lighter_particle_below() {
    let mut sandbox = Sandbox::new(1, 1, 3, 3);
    let water = particle_of(ParticleTypes::Water, 0, false);
    let oil = particle_of(ParticleTypes::Oil, 0, false);
    sandbox.set(1, 1, Some(water));
    sandbox.set(1, 0, Some(oil));
    for (x, y) in [(0, 0), (2, 0), (0, 1), (2, 1)] {
        sandbox.set(x, y, Some(particle_of(ParticleTypes::Stone, 0, false)));
    }
    tick_movement_with(1, 1, &mut sandbox, true);
    assert_eq!(sandbox.get(1, 0).unwrap().density.0, 3);
    assert_eq!(sandbox.get(1, 1).unwrap().density.0, 2);
    assert!(sandbox.get(1, 0).unwrap().updated);
    assert!(sandbox.get(1, 1).unwrap().updated);
}

#[test]
fn liquid_prefers_a_free_side_to_a_swap() {
    let mut sandbox = Sandbox::new(1, 1, 3, 3);
    let water = particle_of(ParticleTypes::Water, 0, false);
    let oil = particle_of(ParticleTypes::Oil, 0, false);
    sandbox.set(1, 1, Some(water));
    sandbox.set(1, 0, Some(oil));
    for (x, y) in [(0, 0), (2, 0), (0, 1)] {
        sandbox.set(x, y, Some(particle_of(ParticleTypes::Stone, 0, false)));
    }
    tick_movement_with(1, 1, &mut sandbox, true);
    assert_eq!(sandbox.get(1, 0).unwrap().density.0, 2);
    assert!(sandbox.get(1, 1).is_none());
    assert_eq!(sandbox.get(2, 1).unwrap().density.0, 3);
}

#[test]
fn debris_follows_the_draw() {
    let mut sandbox = Sandbox::new(1, 1, 4, 4);
    spark_or_smoke(1, 1, true, &mut sandbox);
    assert_eq!(sandbox.get(1, 1).unwrap().color, (204, 146, 94, 255));
    spark_or_smoke(2, 1, false, &mut sandbox);
    assert_eq!(sandbox.get(2, 1).unwrap().color, (36, 22, 41, 255));
    spark_or_smoke(1, 1, false, &mut sandbox);
    assert_eq!(sandbox.get(1, 1).unwrap().color, (204, 146, 94, 255));
    spark_or_smoke(9, 1, true, &mut sandbox);
}

#[test]
fn certain_growth_spreads_onto_soil() {
    let mut sandbox = Sandbox::new(1, 1, 5, 5);
    let mut grass = particle_of(ParticleTypes::Grass, 0, false);
    let mut g = grass.growable.unwrap();
    g.spread_chance = Chance { numerator: 1, denominator: 1 };
    grass.growable = Some(g);
    sandbox.set(2, 2, Some(grass));
    sandbox.set(3, 2, Some(particle_of(ParticleTypes::Dirt, 0, false)));
    sandbox.reset_ticked_chunks();
    sandbox.reset_ticked_chunks();
    tick_growable(2, 2, &mut sandbox);
    assert_eq!(sandbox.get(3, 2).unwrap().color, (80, 141, 118, 255));
    assert!(sandbox.get_chunk(2, 2).is_weak_ticked());
}

#[test]
fn certain_growth_sprouts_without_soil() {
    let mut sandbox = Sandbox::new(1, 1, 5, 5);
    let mut grass = particle_of(ParticleTypes::Grass, 0, true);
    let mut g = grass.growable.unwrap();
    g.spread_chance = Chance { numerator: 3, denominator: 3 };
    grass.growable = Some(g);
    sandbox.set(2, 2, Some(grass));
    tick_growable(2, 2, &mut sandbox);
    let mut grown = 0;
    for (x, y) in [(1, 2), (3, 2), (2, 1), (2, 3)] {
        if sandbox.get(x, y).is_some() {
            grown += 1;
        }
    }
    assert_eq!(grown, 1);
}

#[test]
fn corrosion_wakes_tiles() {
    let mut sandbox = Sandbox::new(2, 1, 2, 2);
    let acid = particle_of(ParticleTypes::Acid, 0, false);
    let mut victim = sand();
    victim.health = ParticleHealth::new(30, true);
    sandbox.set(1, 0, Some(acid));
    sandbox.set(2, 0, Some(victim));
    sandbox.reset_ticked_chunks();
    sandbox.reset_ticked_chunks();
    tick_acidity(1, 0, &mut sandbox);
    assert!(sandbox.get_chunk(1, 0).is_weak_ticked());
    assert!(sandbox.get_chunk(2, 0).is_weak_ticked());
    assert!(!sandbox.get_chunk(2, 0).is_strong_ticked());
}

#[test]
fn blocked_solid_stays_and_stops() {
    let mut sandbox = Sandbox::new(1, 1, 3, 3);
    let mut stone = particle_of(ParticleTypes::Stone, 0, false);
    stone.velocity = Velocity::new(2, 2);
    sandbox.set(1, 1, Some(stone));
    tick_movement_with(1, 1, &mut sandbox, false);
    assert_eq!(sandbox.get(1, 1).unwrap().velocity, Velocity::new(0, 0));
}

#[test]
fn growth_spreads_onto_soil_in_given_order() {
    let mut sandbox = Sandbox::new(1, 1, 5, 5);
    sandbox.set(2, 2, Some(particle_of(ParticleTypes::Dirt, 0, false)));
    sandbox.set(2, 3, Some(particle_of(ParticleTypes::Stone, 0, false)));
    let order = vec![(1, 1), (2, 3), (2, 2)];
    assert!(spread_in_order(&order, ParticleTypes::Grass, &mut sandbox));
    let grown = sandbox.get(2, 3).unwrap();
    assert_eq!(grown.color, (80, 141, 118, 255));
    assert!(grown.updated);
    assert_eq!(sandbox.get(2, 2).unwrap().color, (89, 39, 39, 255));
    let nothing = vec![(0, 0), (9, 9)];
    assert!(!spread_in_order(&nothing, ParticleTypes::Grass, &mut sandbox));
}

#[test]
fn sprouting_fills_first_empty_cell() {
    let mut sandbox = Sandbox::new(1, 1, 5, 5);
    sandbox.set(1, 1, Some(sand()));
    let order = vec![(1, 1), (7, 1), (1, 2), (1, 3)];
    assert!(sprout_in_order(&order, ParticleTypes::Grass, &mut sandbox));
    assert_eq!(sandbox.get(1, 2).unwrap().color, (80, 141, 118, 255));
    assert!(sandbox.get(1, 3).is_none());
}

#[test]
fn dead_particle_is_removed_by_step() {
    let mut sandbox = Sandbox::new(1, 1, 4, 4);
    let mut p = sand();
    p.health = ParticleHealth::new(0, true);
    sandbox.set(1, 1, Some(p));
    step_particle(1, 1, &mut sandbox);
    assert!(sandbox.get(1, 1).is_none());
    let mut q = sand();
    q.updated = true;
    sandbox.set(2, 2, Some(q));
    step_particle(2, 2, &mut sandbox);
    assert!(sandbox.get(2, 2).is_some());
}
