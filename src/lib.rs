//! A 2D rigid-body physics engine on fixed-point numbers.
//!
//! Convex polygons (and discs) move under gravity; each step detects overlapping
//! pairs by the separating axis theorem, builds one- or two-point contact
//! manifolds, resolves them with a sequential-impulse solver (Baumgarte
//! stabilization, Coulomb friction) and integrates by semi-implicit Euler.
//!
//! Every quantity is an `i64` counting millionths of a unit (`fixed::SCALE`), and
//! every operation rounds to the nearest unit and saturates at `fixed::LIMIT`, so
//! each function is total and its result is pinned down by a spec function over
//! `int`.
//!
//! - `fixed`: scalar arithmetic, trigonometry and square roots.
//! - `point`: vectors.
//! - `polygon`, `circle`, `shape`: geometry, projections, poses, moments of inertia.
//! - `body`: rigid bodies, forces and impulses, integration, constructors.
//! - `collision_detection`: contacts between two bodies.
//! - `collisions`: contact records and the impulse solver.
//! - `simulation`: the world and its step, and a few ready-made scenes.
//! - `config`: the tuning of a world.
use vstd::prelude::*;

pub mod fixed;
pub mod point;
pub mod polygon;
pub mod circle;
pub mod shape;
pub mod body;
pub mod collision_detection;
pub mod collisions;
pub mod simulation;
pub mod config;

verus! {

} // verus!
