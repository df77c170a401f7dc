use vstd::prelude::*;

use crate::enemy::{EnemyKind, EnemyProperties, enemy_properties_wf};
use crate::projectile::{ProjectileKind, ProjectileProperties, projectile_kind_wf};
use crate::shape::Shape;
use crate::space::Vec2;

verus! {

// The immutable startup catalogs: loaded once into the simulation context
// and passed by reference, never global state. Texture handles follow the
// store layout the application sets up: glitter sprites at 0 and 1, enemy
// sprites from 2 on.

/// Handle of the first enemy sprite in the texture store.
pub const FIRST_ENEMY_TEXTURE: usize = 2;

/// The five standard enemy kinds.
pub fn standard_enemy_kinds() -> (r: Vec<EnemyKind>)
    ensures
        r@.len() == 5,
        forall|i: int| 0 <= i < r@.len() ==> enemy_properties_wf(#[trigger] r@[i].properties),
        forall|i: int|
            0 <= i < r@.len() ==> #[trigger] r@[i].properties.texture < FIRST_ENEMY_TEXTURE + 5,
{
    let mut r: Vec<EnemyKind> = Vec::new();
    r.push(
        EnemyKind {
            name: "Red Circle",
            properties: EnemyProperties {
                shape: Shape::Circle { radius: 500 },
                speed: 3000,
                angular_velocity: 0,
                maximum_health: 4,
                texture: 2,
            },
        },
    );
    r.push(
        EnemyKind {
            name: "Purple Circle",
            properties: EnemyProperties {
                shape: Shape::Circle { radius: 500 },
                speed: 9000,
                angular_velocity: 0,
                maximum_health: 4,
                texture: 3,
            },
        },
    );
    r.push(
        EnemyKind {
            name: "Electric Circle",
            properties: EnemyProperties {
                shape: Shape::Circle { radius: 600 },
                speed: 12000,
                angular_velocity: 0,
                maximum_health: 4,
                texture: 4,
            },
        },
    );
    r.push(
        EnemyKind {
            name: "Red Square",
            properties: EnemyProperties {
                shape: Shape::Rectangle { half_size: Vec2 { x: 600, y: 600 } },
                speed: 3000,
                angular_velocity: -1309,
                maximum_health: 8,
                texture: 5,
            },
        },
    );
    r.push(
        EnemyKind {
            name: "Purple Square",
            properties: EnemyProperties {
                shape: Shape::Rectangle { half_size: Vec2 { x: 800, y: 800 } },
                speed: 3000,
                angular_velocity: 1047,
                maximum_health: 12,
                texture: 6,
            },
        },
    );
    r
}

/// The three standard projectile kinds.
pub fn standard_projectile_kinds() -> (r: Vec<ProjectileKind>)
    ensures
        r@.len() == 3,
        forall|i: int| 0 <= i < r@.len() ==> projectile_kind_wf(#[trigger] r@[i]),
        r@[0].properties.piercing,
        !r@[1].properties.piercing,
        r@[2].properties.piercing,
{
    let mut r: Vec<ProjectileKind> = Vec::new();
    r.push(
        ProjectileKind {
            name: "Classic",
            properties: ProjectileProperties {
                size: Vec2 { x: 800, y: 200 },
                damage: 4,
                piercing: true,
                speed: 15000,
                subticks: 2,
                particle_distance: 1000,
                hit_particle_radius: 2,
                hit_particle_distance: 800,
            },
            shoot_cooldown: 1000,
        },
    );
    r.push(
        ProjectileKind {
            name: "Rapid",
            properties: ProjectileProperties {
                size: Vec2 { x: 200, y: 200 },
                damage: 2,
                piercing: false,
                speed: 30000,
                subticks: 4,
                particle_distance: 3000,
                hit_particle_radius: 1,
                hit_particle_distance: 800,
            },
            shoot_cooldown: 333,
        },
    );
    r.push(
        ProjectileKind {
            name: "Slow",
            properties: ProjectileProperties {
                size: Vec2 { x: 400, y: 400 },
                damage: 8,
                piercing: true,
                speed: 6000,
                subticks: 1,
                particle_distance: 800,
                hit_particle_radius: 3,
                hit_particle_distance: 533,
            },
            shoot_cooldown: 1667,
        },
    );
    r
}

} // verus!
