//! A deterministic 2D contact and destruction engine: exact integer
//! collision predicates over points, circles and rotated rectangles;
//! fixed-step rigid motion; per-projectile contact tracking with
//! sub-stepped integration, widened-hitbox sustain and hit-once
//! semantics; and a sprite-shatter decomposer that segments a dying
//! sprite's opaque pixels into randomized fragment groups and packs
//! their bounding boxes into atlases that share no screen space.
//!
//! All world-space arithmetic is fixed-point over i64 (see fx), so every
//! run of the simulation is reproducible from its seed.

use vstd::prelude::*;

pub mod catalog;
pub mod enemy;
pub mod game;
pub mod fx;
pub mod object;
pub mod particle;
pub mod pixels;
pub mod projectile;
pub mod rng;
pub mod shape;
pub mod shatter;
pub mod texture;
pub mod turret;
pub mod space;

verus! {

/// Saturating damage application: health never drops below zero.
pub fn apply_damage(health: u32, damage: u32) -> (r: u32)
    ensures
        r == if damage >= health { 0u32 } else { (health - damage) as u32 },
{
    if damage >= health {
        0
    } else {
        health - damage
    }
}

} // verus!
