use falling_sand::collider::gen_colliders::{chunk_colliders, march_edges, points_to_drawing_order};
use falling_sand::collider::utils::{get_at, perpendicular_distance, ramer_douglas_peucker};
use falling_sand::particle::CollisionType;
use falling_sand::particle_types::{particle_of, ParticleTypes};
use falling_sand::sandbox::Sandbox;
use falling_sand::vector::{
    rotate_45_clockwise, rotate_45_counterclockwise, rotate_90_clockwise,
    rotate_90_clockwise_normalized, rotate_90_counterclockwise,
    rotate_90_counterclockwise_normalized,
};

#[test]
fn rotations_of_axis_vectors() {
    assert_eq!(rotate_45_clockwise(0, 1), (1, 1));
    assert_eq!(rotate_45_clockwise(0, -3), (-3, -3));
    assert_eq!(rotate_45_clockwise(1, 0), (1, -1));
    assert_eq!(rotate_45_clockwise(2, 2), (2, 0));
    assert_eq!(rotate_45_counterclockwise(0, 1), (-1, 1));
    assert_eq!(rotate_45_counterclockwise(0, -2), (2, -2));
    assert_eq!(rotate_45_counterclockwise(-1, -1), (0, -1));
    assert_eq!(rotate_90_clockwise(0, 2), (2, 0));
    assert_eq!(rotate_90_counterclockwise(0, 2), (-2, 0));
    assert_eq!(rotate_90_clockwise_normalized(0, 5), (1, 0));
    assert_eq!(rotate_90_counterclockwise_normalized(0, -5), (1, 0));
    assert_eq!(rotate_45_clockwise(0, 0), (0, 0));
}

#[test]
fn straight_run_simplifies_to_endpoints() {
    let line = vec![(0, 0), (1, 0), (2, 0), (3, 0), (4, 0)];
    assert_eq!(ramer_douglas_peucker(&line, 1), vec![(0, 0), (4, 0)]);
    let diagonal = vec![(0, 0), (1, 1), (2, 2), (3, 3)];
    assert_eq!(ramer_douglas_peucker(&diagonal, 3), vec![(0, 0), (3, 3)]);
}

#[test]
fn corner_is_kept() {
    let corner = vec![(0, 0), (5, 0), (5, 5)];
    assert_eq!(ramer_douglas_peucker(&corner, 1), vec![(0, 0), (5, 0), (5, 5)]);
    assert_eq!(ramer_douglas_peucker(&corner, 4), vec![(0, 0), (5, 5)]);
    let single = vec![(2, 3)];
    assert_eq!(ramer_douglas_peucker(&single, 1), vec![(2, 3), (2, 3)]);
}

#[test]
fn perpendicular_distance_as_fraction() {
    assert_eq!(perpendicular_distance((0, 1), (0, 0), (2, 0)), (4, 4));
    assert_eq!(perpendicular_distance((3, 4), (0, 0), (0, 0)), (25, 1));
}

#[test]
fn chaining_follows_unit_steps() {
    let points = vec![(0, 0), (5, 5), (1, 0), (2, 0), (5, 6)];
    let groups = points_to_drawing_order(&points);
    assert_eq!(groups, vec![vec![(0, 0), (1, 0), (2, 0)], vec![(5, 5), (5, 6)]]);
    assert!(points_to_drawing_order(&vec![]).is_empty());
}

#[test]
fn single_cell_marches_to_its_square() {
    let mut sandbox = Sandbox::new(1, 1, 4, 4);
    sandbox.set(1, 1, Some(particle_of(ParticleTypes::Stone, 0, false)));
    assert_eq!(get_at(&sandbox, 1, 1, CollisionType::Solid), 1);
    assert_eq!(get_at(&sandbox, 1, 1, CollisionType::Acid), 0);
    assert_eq!(get_at(&sandbox, -1, 1, CollisionType::Solid), 0);
    let blocks = march_edges(&sandbox, (0, 0), (4, 4), CollisionType::Solid);
    assert_eq!(blocks, vec![vec![(2, 2), (1, 2), (1, 1), (2, 1)]]);
    assert!(march_edges(&sandbox, (0, 0), (4, 4), CollisionType::Water).is_empty());
}

#[test]
fn chunk_geometry_of_one_cell() {
    let mut sandbox = Sandbox::new(1, 1, 4, 4);
    sandbox.set(1, 1, Some(particle_of(ParticleTypes::Stone, 0, false)));
    let geometry = chunk_colliders(&sandbox, 0);
    assert_eq!(geometry.len(), 1);
    assert!(geometry[0].0 == CollisionType::Solid);
    assert_eq!(geometry[0].1, vec![(0, 0), (0, -8)]);
}

#[test]
fn extraction_repeats_on_unchanged_tile() {
    let mut sandbox = Sandbox::new(2, 1, 4, 4);
    for x in 1..5 {
        sandbox.set(x, 1, Some(particle_of(ParticleTypes::Stone, 0, false)));
    }
    sandbox.set(2, 2, Some(particle_of(ParticleTypes::Acid, 0, false)));
    let first = chunk_colliders(&sandbox, 0);
    let second = chunk_colliders(&sandbox, 0);
    assert_eq!(first.len(), second.len());
    for (a, b) in first.iter().zip(second.iter()) {
        assert!(a.0 == b.0);
        assert_eq!(a.1, b.1);
    }
    assert!(first.iter().any(|g| g.0 == CollisionType::Acid));
}
