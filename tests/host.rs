use falling_sand::collider::{
    despawn_old_colliders, generate_sandbox_colliders, store_colliders, ColliderStorage,
};
use falling_sand::particle::CollisionType;
use falling_sand::particle_placer::{place_particles, set_particle_type};
use falling_sand::particle_types::{particle_of, ParticleTypes};
use falling_sand::render::render_particles;
use falling_sand::sandbox::{spawn_sandbox, Sandbox};

#[test]
fn mutable_access_changes_one_cell_quietly() {
    let mut sandbox = Sandbox::new(2, 2, 4, 4);
    sandbox.set(3, 3, Some(particle_of(ParticleTypes::Stone, 0, false)));
    sandbox.reset_ticked_chunks();
    sandbox.reset_ticked_chunks();
    if let Some(p) = sandbox.get_mut(3, 3) {
        p.health.amount = 9;
    }
    assert_eq!(sandbox.get(3, 3).unwrap().health.amount, 9);
    assert!(!sandbox.get_chunk(3, 3).is_strong_ticked());
    assert!(sandbox.get_mut(0, 0).is_none());
    assert!(sandbox.checked_get_mut(8, 0).is_none());
    assert!(sandbox.checked_get_mut_i32(-1, 3).is_none());
    assert!(sandbox.checked_get_mut_i32(3, 3).is_some());
    if let Some(p) = sandbox.checked_get_mut(3, 3) {
        p.health.amount = 4;
    }
    assert_eq!(sandbox.get(3, 3).unwrap().health.amount, 4);
    sandbox.get_chunk_mut(3, 3).weak_tick();
    assert!(sandbox.get_chunk(3, 3).is_weak_ticked());
}

#[test]
fn render_draws_active_tiles_only() {
    let mut sandbox = Sandbox::new(2, 1, 2, 2);
    sandbox.set(0, 0, Some(particle_of(ParticleTypes::Stone, 0, false)));
    let mut data = vec![7u8; 4 * 2 * 4];
    render_particles(&sandbox, &mut data);
    assert_eq!(&data[0..4], &[125, 110, 110, 255]);
    assert_eq!(&data[4..8], &[0, 0, 0, 0]);
    sandbox.reset_ticked_chunks();
    sandbox.reset_ticked_chunks();
    let mut again = vec![7u8; 4 * 2 * 4];
    render_particles(&sandbox, &mut again);
    assert!(again.iter().all(|b| *b == 7));
}

#[test]
fn brush_paints_and_erases() {
    let mut sandbox = spawn_sandbox(2, 2);
    assert_eq!(sandbox.width(), 16);
    assert_eq!(sandbox.height(), 16);
    sandbox.set(8, 8, Some(particle_of(ParticleTypes::Stone, 0, false)));
    place_particles(&mut sandbox, 8, 8, ParticleTypes::Sand, true, false);
    assert_eq!(sandbox.get(8, 8).unwrap().color, (125, 110, 110, 255));
    assert_eq!(sandbox.get(3, 3).unwrap().color, (218, 203, 128, 255));
    assert_eq!(sandbox.get(12, 12).unwrap().color, (218, 203, 128, 255));
    assert!(sandbox.get(13, 12).is_none());
    assert!(sandbox.get(2, 8).is_none());
    place_particles(&mut sandbox, 12, 12, ParticleTypes::Sand, false, true);
    assert!(sandbox.get(8, 8).is_none());
    assert!(sandbox.get(7, 7).is_none());
    assert!(sandbox.get(6, 6).is_some());
    place_particles(&mut sandbox, 40, 0, ParticleTypes::Sand, true, false);
    assert!(sandbox.get(15, 0).is_none());
}

#[test]
fn collider_handles_are_retired_before_reuse() {
    let mut storage = ColliderStorage::new(2);
    assert!(despawn_old_colliders(&mut storage, 0).is_empty());
    store_colliders(&mut storage, 0, vec![11, 12]);
    assert_eq!(storage.colliders[0], Some(vec![11, 12]));
    assert_eq!(despawn_old_colliders(&mut storage, 0), vec![11, 12]);
    assert!(storage.colliders[0].is_none());
    let defaults = ColliderStorage::default();
    assert_eq!(defaults.colliders.len(), 30 * 17);
}

#[test]
fn extraction_covers_active_tiles() {
    let mut sandbox = Sandbox::new(2, 1, 4, 4);
    let mut storage = ColliderStorage::new(2);
    store_colliders(&mut storage, 1, vec![5]);
    sandbox.set(1, 1, Some(particle_of(ParticleTypes::Stone, 0, false)));
    let out = generate_sandbox_colliders(&sandbox, &mut storage);
    assert_eq!(out.len(), 2);
    assert_eq!(out[0].index, 0);
    assert!(out[0].retired.is_empty());
    assert_eq!(out[1].index, 1);
    assert_eq!(out[1].retired, vec![5]);
    assert!(storage.colliders[1].is_none());
    assert!(out[0].polylines.iter().all(|(t, _)| *t == CollisionType::Solid));
    assert_eq!(out[0].polylines.len(), 1);
    sandbox.reset_ticked_chunks();
    sandbox.reset_ticked_chunks();
    assert!(generate_sandbox_colliders(&sandbox, &mut storage).is_empty());
}

#[test]
fn keys_select_materials() {
    assert!(matches!(set_particle_type('1'), Some(ParticleTypes::Sand)));
    assert!(matches!(set_particle_type('0'), Some(ParticleTypes::Tnt)));
    assert!(matches!(set_particle_type('-'), Some(ParticleTypes::Dirt)));
    assert!(matches!(set_particle_type('='), Some(ParticleTypes::Grass)));
    assert!(set_particle_type('x').is_none());
}
