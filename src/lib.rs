//! A chunked falling-sand cellular automaton: the simulation grid with its
//! sleep/wake tracking, the per-tick particle effects, and the extraction of
//! boundary polylines for a rigid-body consumer.
pub mod chunk;
pub mod collider;
pub mod effects;
pub mod particle;
pub mod particle_placer;
pub mod particle_types;
mod random;
pub mod render;
pub mod sandbox;
pub mod simulation;
pub mod vector;
