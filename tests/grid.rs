use falling_sand::chunk::SandboxChunk;
use falling_sand::particle::{
    Chance, CollisionType, Growable, MovementType, Particle, ParticleHealth, Velocity,
};
use falling_sand::particle_types::{get_particle, particle_of, ParticleTypes};
use falling_sand::sandbox::Sandbox;

fn sand() -> Particle {
    particle_of(ParticleTypes::Sand, 0, false)
}

#[test]
fn new_grid_is_empty_and_sized() {
    let sandbox = Sandbox::new(3, 2, 4, 5);
    assert_eq!(sandbox.width(), 12);
    assert_eq!(sandbox.height(), 10);
    for x in 0..12 {
        for y in 0..10 {
            assert!(sandbox.get(x, y).is_none());
        }
    }
    assert_eq!(sandbox.get_all_chunks().len(), 6);
}

#[test]
fn set_then_get_returns_written_value() {
    let mut sandbox = Sandbox::new(3, 3, 4, 4);
    let mut p = sand();
    p.health = ParticleHealth::new(7, false);
    sandbox.set(5, 9, Some(p));
    let got = sandbox.get(5, 9).unwrap();
    assert_eq!(got.health.amount, 7);
    assert!(sandbox.get(5, 8).is_none());
    assert!(sandbox.get(4, 9).is_none());
    sandbox.set(5, 9, None);
    assert!(sandbox.get(5, 9).is_none());
}

#[test]
fn checked_reads_outside_are_empty() {
    let mut sandbox = Sandbox::new(2, 2, 4, 4);
    sandbox.set(0, 0, Some(sand()));
    assert!(sandbox.checked_get(0, 0).is_some());
    assert!(sandbox.checked_get(8, 0).is_none());
    assert!(sandbox.checked_get(0, 8).is_none());
    assert!(sandbox.checked_get(usize::MAX, 0).is_none());
    assert!(sandbox.checked_get_i32(-1, 0).is_none());
    assert!(sandbox.checked_get_i32(0, -1).is_none());
    assert!(sandbox.checked_get_i32(0, 0).is_some());
    assert!(sandbox.out_of_bounds_i32(8, 0));
    assert!(sandbox.out_of_bounds_usize(0, 8));
    assert!(!sandbox.out_of_bounds_usize(7, 7));
}

#[test]
fn write_outside_is_ignored() {
    let mut sandbox = Sandbox::new(2, 1, 4, 4);
    sandbox.set(8, 0, Some(sand()));
    for x in 0..8 {
        for y in 0..4 {
            assert!(sandbox.get(x, y).is_none());
        }
    }
}

#[test]
fn swap_exchanges_cells() {
    let mut sandbox = Sandbox::new(2, 2, 4, 4);
    let mut a = sand();
    a.health = ParticleHealth::new(1, true);
    sandbox.set(1, 1, Some(a));
    sandbox.swap(1, 1, 6, 6);
    assert!(sandbox.get(1, 1).is_none());
    assert_eq!(sandbox.get(6, 6).unwrap().health.amount, 1);
}

#[test]
fn counters_run_down_and_rearm() {
    let mut chunk = SandboxChunk::new(2, 2, 0, 1);
    assert!(chunk.is_strong_ticked());
    assert!(chunk.is_weak_ticked());
    chunk.reset_ticked();
    assert!(chunk.is_strong_ticked());
    chunk.reset_ticked();
    assert!(!chunk.is_strong_ticked());
    assert!(!chunk.is_weak_ticked());
    chunk.reset_ticked();
    assert!(!chunk.is_strong_ticked());
    chunk.weak_tick();
    assert!(chunk.is_weak_ticked());
    assert!(!chunk.is_strong_ticked());
    chunk.strong_tick();
    assert!(chunk.is_strong_ticked());
    chunk.reset_ticked();
    chunk.reset_ticked();
    assert!(!chunk.is_strong_ticked());
    chunk.set(1, 1, Some(sand()));
    assert!(chunk.is_strong_ticked());
    assert!(chunk.get(1, 1).is_some());
}

#[test]
fn chunk_positions_follow_row_major_order() {
    let chunk = SandboxChunk::new(8, 8, 7, 3);
    assert_eq!(chunk.local_position(), (1, 2));
    assert_eq!(chunk.width(), 8);
    assert_eq!(chunk.height(), 8);
}

#[test]
fn write_wakes_neighbor_tiles_only() {
    let mut sandbox = Sandbox::new(4, 4, 4, 4);
    sandbox.reset_ticked_chunks();
    sandbox.reset_ticked_chunks();
    for x in 0..16 {
        for y in 0..16 {
            assert!(!sandbox.get_chunk(x, y).is_strong_ticked());
        }
    }
    sandbox.set(5, 5, Some(sand()));
    // tile (1, 1) and its neighbors (0..=2, 0..=2) are awake
    for x in 0..16 {
        for y in 0..16 {
            let awake = x / 4 <= 2 && y / 4 <= 2;
            assert_eq!(sandbox.get_chunk(x, y).is_strong_ticked(), awake);
            assert!(!sandbox.get_chunk(x, y).is_weak_ticked());
        }
    }
}

#[test]
fn write_in_corner_tile_stays_in_grid() {
    let mut sandbox = Sandbox::new(3, 3, 2, 2);
    sandbox.reset_ticked_chunks();
    sandbox.reset_ticked_chunks();
    sandbox.set(0, 0, Some(sand()));
    for x in 0..6 {
        for y in 0..6 {
            let awake = x / 2 <= 1 && y / 2 <= 1;
            assert_eq!(sandbox.get_chunk(x, y).is_strong_ticked(), awake);
        }
    }
}

#[test]
fn eight_surrounded_needs_all_neighbors_inside() {
    let mut sandbox = Sandbox::new(1, 1, 5, 5);
    for x in 0..3 {
        for y in 0..3 {
            sandbox.set(x, y, Some(sand()));
        }
    }
    assert!(sandbox.eight_surrounded(1, 1));
    assert!(!sandbox.eight_surrounded(0, 0));
    assert!(!sandbox.eight_surrounded(2, 2));
    sandbox.set(2, 1, None);
    assert!(!sandbox.eight_surrounded(1, 1));
}

#[test]
fn mark_and_reset_updated() {
    let mut sandbox = Sandbox::new(1, 1, 4, 4);
    sandbox.set(2, 2, Some(sand()));
    sandbox.mark_updated(2, 2);
    assert!(sandbox.get(2, 2).unwrap().updated);
    sandbox.mark_updated(1, 1);
    assert!(sandbox.get(1, 1).is_none());
    sandbox.reset_updated();
    assert!(!sandbox.get(2, 2).unwrap().updated);
}

#[test]
fn velocity_damping_moves_toward_zero() {
    let mut v = Velocity::new(3, -4);
    v.zero_out();
    assert_eq!(v, Velocity::new(2, -3));
    let mut v = Velocity::new(-1, 0);
    v.zero_out();
    assert_eq!(v, Velocity::new(0, 0));
    v.zero_out();
    assert_eq!(v, Velocity::new(0, 0));
}

#[test]
fn material_table_entries() {
    let water = get_particle(ParticleTypes::Water);
    assert!(water.movement_type == MovementType::Liquid);
    assert_eq!(water.density.0, 3);
    assert!(water.collision_type == CollisionType::Water);
    let spark = get_particle(ParticleTypes::Spark);
    assert!(spark.health.amount >= 5 && spark.health.amount < 10);
    let steam = get_particle(ParticleTypes::Steam);
    assert!(steam.health.amount >= 100 && steam.health.amount < 120);
    let stone = get_particle(ParticleTypes::Stone);
    assert!(stone.growable_on);
    assert_eq!(stone.health.amount, 50);
    let grass = get_particle(ParticleTypes::Grass);
    assert!(grass.growable.is_some());
    let all = CollisionType::iter();
    assert_eq!(all.len(), 5);
    assert!(all[0] == CollisionType::Empty);
}

#[test]
fn sprouting_permission_follows_its_chance() {
    let always = Chance { numerator: 1, denominator: 1 };
    let never = Chance { numerator: 0, denominator: 5 };
    let half = Chance { numerator: 1, denominator: 2 };
    assert!(Growable::new(2, half, always, ParticleTypes::Grass).can_sprout);
    assert!(!Growable::new(2, half, never, ParticleTypes::Grass).can_sprout);
}

#[test]
fn short_lived_materials_draw_their_health() {
    let mut seen = std::collections::BTreeSet::new();
    for _ in 0..200 {
        let spark = get_particle(ParticleTypes::Spark);
        assert!(spark.health.amount >= 5 && spark.health.amount < 10);
        seen.insert(spark.health.amount);
        let smoke = get_particle(ParticleTypes::Smoke);
        assert!(smoke.health.amount >= 40 && smoke.health.amount < 55);
    }
    assert!(seen.len() > 1);
}
