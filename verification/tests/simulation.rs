use shatterfield::enemy::{Enemy, EnemyKind, EnemyPool, EnemyProperties};
use shatterfield::particle::Particle;
use shatterfield::projectile::{Projectile, ProjectileKind};
use shatterfield::rng::Rng;
use shatterfield::shape::Shape;
use shatterfield::shatter;
use shatterfield::space::{Pose, Rot, Vec2};
use shatterfield::shape::bounding_circles_overlap;
use shatterfield::texture::{TextureData, TextureStore};

fn identity() -> Rot {
    Rot { c: 1000, s: 0 }
}

fn pose(tx: i64, ty: i64) -> Pose {
    Pose { tx, ty, rot: identity() }
}

fn solid_texture(width: usize, height: usize) -> TextureData {
    TextureData { width, height, rgba: vec![255; width * height * 4] }
}

/// A store laid out as the engine expects: glitter at 0 and 1, sprites
/// after that.
fn store_with_sprite(width: usize, height: usize) -> TextureStore {
    let mut store = TextureStore::new();
    store.add(solid_texture(2, 2));
    store.add(solid_texture(2, 2));
    store.add(solid_texture(width, height));
    store
}

fn enemy_kind(health: u32) -> EnemyKind {
    EnemyKind {
        name: "Drone",
        properties: EnemyProperties {
            shape: Shape::Circle { radius: 500 },
            speed: 0,
            angular_velocity: 0,
            maximum_health: health,
            texture: 2,
        },
    }
}

fn kinds() -> Vec<ProjectileKind> {
    shatterfield::catalog::standard_projectile_kinds()
}

#[test]
fn lethal_hit_deletes_projectile_and_enemy_in_same_tick() {
    let kinds = kinds();
    let rapid = &kinds[1];
    assert!(!rapid.properties.piercing);
    assert_eq!(rapid.properties.damage, 2);

    let mut store = store_with_sprite(3, 3);
    let mut rng = Rng::new(9);
    let mut enemies = EnemyPool::new();
    enemies.insert(Enemy::new(pose(100, 0), &enemy_kind(2)));
    let mut particles: Vec<Particle> = Vec::new();

    let mut p = Projectile::new(pose(0, 0), rapid, &mut rng);
    assert!(!p.should_delete());
    p.tick(&mut enemies, &mut particles, &mut store, &mut rng, 8);

    // Damage two met health two: the enemy is gone within the tick and a
    // non-piercing projectile with a hit is spent.
    assert!(p.should_delete());
    assert_eq!(p.enemies_hit.len(), 1);
    assert_eq!(enemies.len(), 0);
    // The shatter decomposer uploaded at least one atlas texture and
    // spawned fragments.
    assert!(store.len() > 3);
    assert!(!particles.is_empty());
}

#[test]
fn piercing_projectile_hits_each_enemy_once() {
    let kinds = kinds();
    let classic = &kinds[0];
    assert!(classic.properties.piercing);

    let mut store = store_with_sprite(3, 3);
    let mut rng = Rng::new(10);
    let mut enemies = EnemyPool::new();
    // Three sturdy enemies all overlapping the projectile's path at once.
    for i in 0..3 {
        enemies.insert(Enemy::new(pose(100 * i, 0), &enemy_kind(100)));
    }
    let mut particles: Vec<Particle> = Vec::new();

    let mut p = Projectile::new(pose(0, 0), classic, &mut rng);
    p.tick(&mut enemies, &mut particles, &mut store, &mut rng, 8);

    assert_eq!(p.enemies_hit.len(), 3);
    assert!(!p.should_delete());
    assert_eq!(enemies.len(), 3);

    // Further ticks never repeat an id in the hit list.
    for _ in 0..5 {
        p.tick(&mut enemies, &mut particles, &mut store, &mut rng, 8);
    }
    assert_eq!(p.enemies_hit.len(), 3);
    for i in 0..p.enemies_hit.len() {
        for j in 0..i {
            assert_ne!(p.enemies_hit[i], p.enemies_hit[j]);
        }
    }
}

#[test]
fn two_rapid_strikes_shatter_exactly_once() {
    let kinds = kinds();
    let rapid = &kinds[1];

    let mut store = store_with_sprite(3, 3);
    let mut rng = Rng::new(11);
    let mut enemies = EnemyPool::new();
    let key = enemies.insert(Enemy::new(pose(100, 0), &enemy_kind(4)));
    let mut particles: Vec<Particle> = Vec::new();

    // First non-piercing projectile: health 4 -> 2, no shatter.
    let mut first = Projectile::new(pose(0, 0), rapid, &mut rng);
    first.tick(&mut enemies, &mut particles, &mut store, &mut rng, 8);
    assert!(first.should_delete());
    assert_eq!(enemies.get(key).unwrap().health, 2);
    assert_eq!(store.len(), 3);

    // Second projectile: health 2 -> 0, the enemy shatters and leaves.
    let mut second = Projectile::new(pose(0, 0), rapid, &mut rng);
    second.tick(&mut enemies, &mut particles, &mut store, &mut rng, 8);
    assert!(second.should_delete());
    assert!(enemies.get(key).is_none());
    assert_eq!(enemies.len(), 0);
    assert!(store.len() > 3, "the decomposer must upload its atlases now");
}

#[test]
fn zero_length_tick_is_a_noop_once_settled() {
    let kinds = kinds();
    let classic = &kinds[0];

    let mut store = store_with_sprite(3, 3);
    let mut rng = Rng::new(12);
    let mut enemies = EnemyPool::new();
    // One enemy far away: nothing to strike.
    let key = enemies.insert(Enemy::new(pose(500000, 500000), &enemy_kind(4)));
    let mut particles: Vec<Particle> = Vec::new();

    let mut p = Projectile::new(pose(0, 0), classic, &mut rng);
    // One real tick settles the velocity and the trail accumulator.
    p.tick(&mut enemies, &mut particles, &mut store, &mut rng, 8);

    let snapshot = p.clone();
    let particles_before = particles.clone();
    let enemy_before = enemies.get(key).unwrap();
    let rng_state = rng.state;

    p.tick(&mut enemies, &mut particles, &mut store, &mut rng, 0);

    assert_eq!(p.object, snapshot.object);
    assert_eq!(p.direction, snapshot.direction);
    assert_eq!(p.enemies_colliding, snapshot.enemies_colliding);
    assert_eq!(p.enemies_intersecting, snapshot.enemies_intersecting);
    assert_eq!(p.enemies_hit, snapshot.enemies_hit);
    assert_eq!(p.time_since_collision, snapshot.time_since_collision);
    assert_eq!(p.time_since_exit, snapshot.time_since_exit);
    assert_eq!(p.distance_since_particle, snapshot.distance_since_particle);
    assert_eq!(particles, particles_before);
    assert_eq!(enemies.get(key).unwrap(), enemy_before);
    assert_eq!(rng.state, rng_state);
    assert_eq!(store.len(), 3);
}

fn checkered_texture(width: usize, height: usize) -> TextureData {
    let mut rgba = vec![0u8; width * height * 4];
    for y in 0..height {
        for x in 0..width {
            if (x + y) % 2 == 0 || y == 0 {
                rgba[4 * (y * width + x) + 3] = 255;
            }
        }
    }
    TextureData { width, height, rgba }
}

#[test]
fn decomposition_covers_the_mask_exactly() {
    let tex = checkered_texture(7, 5);
    let mut rng = Rng::new(1234980);
    let deco = shatter::decompose_groups(&tex, &mut rng);

    assert_eq!(deco.assign.len(), 35);
    let mut grouped = 0;
    for y in 0..5usize {
        for x in 0..7usize {
            let i = y * 7 + x;
            let opaque = tex.rgba[4 * i + 3] > 0;
            match deco.assign[i] {
                Some(g) => {
                    assert!(opaque, "a transparent pixel was grouped");
                    assert!(g < deco.boxes.len());
                    let b = deco.boxes[g];
                    assert!(b.min.x <= x && x <= b.max.x);
                    assert!(b.min.y <= y && y <= b.max.y);
                    assert!(b.max.x < 7 && b.max.y < 5);
                    grouped += 1;
                }
                None => assert!(!opaque, "an opaque pixel was dropped"),
            }
        }
    }
    let opaque_total = (0..35).filter(|i| tex.rgba[4 * i + 3] > 0).count();
    assert_eq!(grouped, opaque_total, "each opaque pixel in exactly one group");

    // Every group owns at least one pixel.
    for g in 0..deco.boxes.len() {
        assert!(deco.assign.iter().any(|a| *a == Some(g)), "an empty group was emitted");
    }
}

#[test]
fn atlases_never_share_screen_space() {
    let tex = checkered_texture(9, 6);
    let mut rng = Rng::new(77);
    let deco = shatter::decompose_groups(&tex, &mut rng);
    let (atlas_of, count) = shatter::pack_atlases(&deco.boxes);

    assert_eq!(atlas_of.len(), deco.boxes.len());
    assert!(count <= deco.boxes.len());
    for i in 0..deco.boxes.len() {
        assert!(atlas_of[i] < count);
        for j in 0..deco.boxes.len() {
            if atlas_of[i] != atlas_of[j] {
                assert!(
                    !deco.boxes[i].intersects(&deco.boxes[j]),
                    "boxes of different atlases intersect"
                );
            }
        }
    }
}

#[test]
fn game_tick_runs_the_frame_order() {
    let kinds = kinds();
    let mut store = store_with_sprite(3, 3);
    let mut game = shatterfield::game::Game::new(kinds[1], 1234980, &store);
    let bounds = Shape::Rectangle { half_size: Vec2 { x: 50000, y: 50000 } };

    game.spawn_enemy(pose(20000, 0), &enemy_kind(2), &store);

    // Arm the fire buffer and let the cooldown elapse.
    game.tick_input(8, true);
    game.tick(Vec2 { x: 10000, y: 0 }, bounds, &mut store, 400);
    assert_eq!(game.projectiles.len(), 1, "the buffered shot must fire");

    // Run the simulation until the projectile reaches the enemy.
    let mut exploded = false;
    for _ in 0..200 {
        game.tick(Vec2 { x: 10000, y: 0 }, bounds, &mut store, 8);
        if store.len() > 3 {
            exploded = true;
            break;
        }
    }
    assert!(exploded, "the projectile must shatter the enemy");
    assert_eq!(game.enemies.len(), 0);
    assert!(!game.particles.is_empty());
}

#[test]
fn hit_particles_fan_out_per_ring() {
    let kinds = kinds();
    let slow = &kinds[2];
    let mut rng = Rng::new(5);
    let p = Projectile::new(pose(0, 0), slow, &mut rng);
    let mut particles: Vec<Particle> = Vec::new();
    p.add_hit_particles(&mut particles, &mut rng);
    assert_eq!(particles.len(), 2 * slow.properties.hit_particle_radius);
}

#[test]
fn hit_particles_ease_to_mirrored_targets() {
    // Slow kind: front margin 200, so the burst starts 0.1 units behind
    // the tip, and each ring steps 0.533 units to either side.
    let kinds = kinds();
    let slow = &kinds[2];
    assert_eq!(slow.properties.hit_particle_radius, 3);
    assert_eq!(slow.properties.hit_particle_distance, 533);
    let mut rng = Rng::new(5);
    let p = Projectile::new(pose(0, 0), slow, &mut rng);
    let mut particles: Vec<Particle> = Vec::new();
    p.add_hit_particles(&mut particles, &mut rng);
    assert_eq!(particles.len(), 6);
    let expected = [533i64, -533, 1066, -1066, 1599, -1599];
    for (particle, lateral) in particles.iter().zip(expected) {
        assert_eq!(particle.transform.position.tx, 100);
        assert_eq!(particle.transform.position.ty, 0);
        let target = particle.target_position.expect("every burst particle eases");
        assert_eq!(target.position, Vec2 { x: 100, y: lateral });
        assert_eq!(target.decay, 20_000);
    }
}

#[test]
fn turret_fires_from_the_barrel_tip() {
    let kinds = kinds();
    let mut turret = shatterfield::turret::Turret::new(kinds[0]);
    let mut rng = Rng::new(7);
    let mut projectiles: Vec<Projectile> = Vec::new();
    turret.input.tick(8, true);
    turret.tick(Vec2 { x: 5000, y: 0 }, &mut projectiles, &mut rng, 2000);
    assert_eq!(projectiles.len(), 1);
    // Aiming straight along +x from the origin: the shot leaves one
    // barrel length plus the front margin ahead, facing the same way.
    let spawned = &projectiles[0];
    assert_eq!(spawned.direction, identity());
    assert_eq!(spawned.object.transform.position.tx, 1400);
    assert_eq!(spawned.object.transform.position.ty, 0);
    assert_eq!(spawned.object.transform.position.rot, identity());
}

#[test]
fn recharge_offset_follows_the_snapped_square() {
    let kinds = kinds();
    let mut turret = shatterfield::turret::Turret::new(kinds[0]);
    assert_eq!(turret.projectile_kind.shoot_cooldown, 1000);
    // Just fired: the barrel sits fully pulled back.
    turret.time_since_shoot = 0;
    assert_eq!(turret.shoot_recharge_offset(), 500);
    // Halfway: 500 * (0.5)^2 = 0.125, snapped up to 0.2.
    turret.time_since_shoot = 500;
    assert_eq!(turret.shoot_recharge_offset(), 200);
    // Nearly recharged: 500 * (0.1)^2 = 0.005, snapped up to 0.1.
    turret.time_since_shoot = 900;
    assert_eq!(turret.shoot_recharge_offset(), 100);
    // Any remaining cooldown at all still shows one step of pull-back.
    turret.time_since_shoot = 999;
    assert_eq!(turret.shoot_recharge_offset(), 100);
    // Recharged: flush, and only then.
    turret.time_since_shoot = 1000;
    assert_eq!(turret.shoot_recharge_offset(), 0);
}

#[test]
fn fragments_center_per_axis_on_the_sprite() {
    // A 4x2 sprite with a single opaque pixel at its top-left corner
    // decomposes into exactly one one-pixel box, so the fragment's spawn
    // point is deterministic: the pixel center minus half the sprite's
    // width and height, per axis.
    let mut rgba = vec![0u8; 4 * 2 * 4];
    rgba[3] = 255;
    let mut store = TextureStore::new();
    store.add(solid_texture(2, 2));
    store.add(solid_texture(2, 2));
    store.add(TextureData { width: 4, height: 2, rgba });
    let mut rng = Rng::new(11);
    let mut particles: Vec<Particle> = Vec::new();
    let mut enemy = Enemy::new(pose(0, 0), &enemy_kind(1));
    enemy.hit(1);
    enemy.explode(
        Vec2 { x: 10_000, y: 10_000 },
        Vec2 { x: 0, y: 0 },
        &mut store,
        &mut particles,
        &mut rng,
    );
    assert_eq!(particles.len(), 1);
    assert_eq!(store.len(), 4);
    // Pixel center (0.5, 0.5) minus (2, 1), a tenth of a unit per pixel.
    assert_eq!(particles[0].transform.position.tx, -150);
    assert_eq!(particles[0].transform.position.ty, -50);
}

#[test]
fn fire_buffer_arms_and_lapses() {
    let mut input = shatterfield::turret::PlayerInput::new();
    assert!(!input.shoot);
    input.tick(8, true);
    assert!(input.shoot);
    assert_eq!(input.time_since_press, 0);
    // Within the grace window the buffered shot stays armed.
    input.tick(100, false);
    assert!(input.shoot);
    // Past it, the press lapses.
    input.tick(100, false);
    assert!(!input.shoot);
}

#[test]
fn enemy_spawns_with_its_kind_motion() {
    let spinner = &shatterfield::catalog::standard_enemy_kinds()[3];
    assert_eq!(spinner.properties.angular_velocity, -1309);
    let e = Enemy::new(pose(700, -300), spinner);
    assert_eq!(e.object.transform.angular_velocity, -1309);
    assert_eq!(e.object.transform.linear_velocity, Vec2 { x: 0, y: 0 });
    assert_eq!(e.health, spinner.properties.maximum_health);
}

#[test]
fn catalog_matches_the_standard_roster() {
    let enemies = shatterfield::catalog::standard_enemy_kinds();
    assert_eq!(enemies.len(), 5);
    assert_eq!(enemies[0].properties.maximum_health, 4);
    assert_eq!(enemies[3].properties.maximum_health, 8);
    assert_eq!(enemies[4].properties.maximum_health, 12);
    let kinds = kinds();
    assert_eq!(kinds.len(), 3);
    assert_eq!(kinds[1].properties.damage, 2);
    assert!(!kinds[1].properties.piercing);
}

#[test]
fn enemy_tick_zero_is_noop_and_hit_saturates() {
    let mut rng = Rng::new(3);
    let mut e = Enemy::new(pose(0, 0), &enemy_kind(4));
    // Settle the velocity with one real step, then freeze time.
    e.tick(8, &mut rng);
    let before = e;
    e.tick(0, &mut rng);
    assert_eq!(e, before);

    // Saturating damage: health never underflows.
    e.hit(3);
    assert_eq!(e.health, 1);
    assert_eq!(e.time_since_hit, 0);
    e.hit(10);
    assert_eq!(e.health, 0);
    assert!(e.should_delete());
}

#[test]
fn widened_hitbox_sustains_contact_behind_the_tip() {
    let kinds = kinds();
    let classic = &kinds[0];
    let mut store = store_with_sprite(3, 3);
    let mut rng = Rng::new(21);
    let mut enemies = EnemyPool::new();
    let key = enemies.insert(Enemy::new(pose(600, 0), &enemy_kind(100)));
    let mut particles: Vec<Particle> = Vec::new();

    let mut p = Projectile::new(pose(0, 0), classic, &mut rng);
    // Strike: both sets pick the enemy up.
    p.tick(&mut enemies, &mut particles, &mut store, &mut rng, 8);
    assert_eq!(p.enemies_colliding, vec![key]);
    assert_eq!(p.enemies_intersecting, vec![key]);

    // Fly (slowed while embedded) until the exact hitbox has left the
    // enemy but the widened one still reaches back over it.
    for _ in 0..55 {
        p.tick(&mut enemies, &mut particles, &mut store, &mut rng, 8);
    }
    assert!(
        p.enemies_colliding.contains(&key) && !p.enemies_intersecting.contains(&key),
        "the widened hitbox must outlast the exact one"
    );
}

#[test]
fn bounding_circles_cull_conservatively() {
    let shapes = [
        Shape::Point,
        Shape::Circle { radius: 400 },
        Shape::Rectangle { half_size: Vec2 { x: 600, y: 300 } },
    ];
    let offsets = [(0, 0), (500, 0), (900, 300), (1200, -900), (2500, 0)];
    for a in shapes.iter() {
        for b in shapes.iter() {
            for &(x, y) in offsets.iter() {
                let p = pose(x, y);
                if a.is_colliding(b, p) {
                    assert!(
                        bounding_circles_overlap(a, b, p),
                        "a colliding pair must pass the broad phase"
                    );
                }
            }
        }
    }
}

#[test]
fn transparent_sprite_shatters_into_nothing() {
    // A sprite with no opaque pixels decomposes into zero groups.
    let tex = TextureData { width: 4, height: 4, rgba: vec![0; 64] };
    let mut rng = Rng::new(6);
    let deco = shatter::decompose_groups(&tex, &mut rng);
    assert_eq!(deco.boxes.len(), 0);
    assert!(deco.assign.iter().all(|a| a.is_none()));
    let (atlas_of, count) = shatter::pack_atlases(&deco.boxes);
    assert_eq!(atlas_of.len(), 0);
    assert_eq!(count, 0);

    // A lethal strike on such an enemy still removes it, with no
    // fragments and no atlas upload.
    let mut store = TextureStore::new();
    store.add(TextureData { width: 2, height: 2, rgba: vec![255; 16] });
    store.add(TextureData { width: 2, height: 2, rgba: vec![255; 16] });
    store.add(TextureData { width: 4, height: 4, rgba: vec![0; 64] });
    let mut enemies = EnemyPool::new();
    enemies.insert(Enemy::new(pose(100, 0), &enemy_kind(2)));
    let mut particles: Vec<Particle> = Vec::new();
    let kinds = kinds();
    let mut p = Projectile::new(pose(0, 0), &kinds[1], &mut rng);
    let store_before = store.len();
    p.tick(&mut enemies, &mut particles, &mut store, &mut rng, 8);
    assert!(p.should_delete());
    assert_eq!(enemies.len(), 0);
    assert_eq!(store.len(), store_before);
}

#[test]
fn turret_respects_its_cooldown() {
    let kinds = kinds();
    let mut turret = shatterfield::turret::Turret::new(kinds[0]);
    let mut rng = Rng::new(2);
    let mut projectiles: Vec<Projectile> = Vec::new();

    // A buffered press before the cooldown elapses fires nothing.
    turret.input.tick(8, true);
    turret.tick(Vec2 { x: 5000, y: 0 }, &mut projectiles, &mut rng, 8);
    assert!(projectiles.is_empty());

    // Once the cooldown elapses the buffered shot fires, exactly once.
    turret.tick(Vec2 { x: 5000, y: 0 }, &mut projectiles, &mut rng, 2000);
    assert_eq!(projectiles.len(), 1);
    assert_eq!(turret.time_since_shoot, 0);
    turret.tick(Vec2 { x: 5000, y: 0 }, &mut projectiles, &mut rng, 8);
    assert_eq!(projectiles.len(), 1);
}
