use vstd::prelude::*;

use crate::fx;
use crate::fx::{FX_LIM, SCALE};
use crate::object::{Object, Transform, object_wf};
use crate::particle::Particle;
use crate::pixels::PixelPos;
use crate::rng::Rng;
use crate::shape::{Shape, shape_wf};
use crate::shatter;
use crate::space::{Pose, Rot, Vec2, pose_wf, rot_apply, rot_wf, vec2_in_range};
use crate::texture::{TextureData, TextureStore, store_wf, texture_wf};

verus! {

use vstd::map::Map;

/// How long an enemy stays slowed after being struck, in fixed-point
/// seconds.
pub const SLOWDOWN_TIME: i64 = 333;

/// Immutable per-kind configuration of an enemy.
#[derive(Clone, Copy, Debug, PartialEq, Eq, Structural)]
pub struct EnemyProperties {
    pub shape: Shape,
    pub speed: i64,
    pub angular_velocity: i64,
    pub maximum_health: u32,
    /// Handle of the sprite in the texture store.
    pub texture: usize,
}

pub open spec fn enemy_properties_wf(p: EnemyProperties) -> bool {
    &&& shape_wf(p.shape)
    &&& 0 <= p.speed <= FX_LIM
    &&& fx::in_range(p.angular_velocity)
    &&& p.maximum_health > 0
}

/// A named enemy kind from the immutable startup catalog.
#[derive(Clone, Copy, Debug)]
pub struct EnemyKind {
    pub name: &'static str,
    pub properties: EnemyProperties,
}

/// A live enemy: a posed shape, its kind's properties, and its remaining
/// health. time_since_hit drives the post-hit slowdown, the brightness
/// fields drive the flicker effect.
#[derive(Clone, Copy, Debug, PartialEq, Eq, Structural)]
pub struct Enemy {
    pub object: Object,
    pub direction: Rot,
    pub properties: EnemyProperties,
    pub health: u32,
    pub time_since_hit: i64,
    pub brightness: i64,
    pub brightness_update_time: i64,
}

pub open spec fn enemy_wf(e: Enemy) -> bool {
    &&& object_wf(e.object)
    &&& rot_wf(e.direction)
    &&& enemy_properties_wf(e.properties)
    &&& e.object.shape == e.properties.shape
    &&& 0 <= e.time_since_hit <= FX_LIM
    &&& 0 <= e.brightness <= SCALE
    &&& 0 <= e.brightness_update_time <= 2 * SCALE
}

/// The post-hit slowdown factor: ramps from 0 back to full speed over
/// SLOWDOWN_TIME.
pub open spec fn speed_multiplier_spec(e: Enemy) -> int {
    fx::clamp_unit_spec(fx::div_fx_spec(e.time_since_hit as int, SLOWDOWN_TIME as int))
}

/// What one enemy tick of length dt does, deterministically: health and
/// kind are untouched, the slowdown timer ages, and the enemy moves one
/// integration step along its facing at its slowdown-scaled speed while
/// keeping its spin. (The flicker brightness is driven by random draws
/// and is not pinned here.)
pub open spec fn enemy_advanced(e0: Enemy, e1: Enemy, dt: int) -> bool {
    &&& e1.health == e0.health
    &&& e1.properties == e0.properties
    &&& e1.direction == e0.direction
    &&& e1.object.shape == e0.object.shape
    &&& e1.time_since_hit == fx::cap_time_spec(e0.time_since_hit + dt)
    &&& ({
        let speed = fx::mul_fx_spec(e0.properties.speed as int, speed_multiplier_spec(e0));
        let vel = crate::space::rot_apply_spec(e0.direction, Vec2 { x: speed as i64, y: 0 });
        &&& e1.object.transform.linear_velocity == vel
        &&& e1.object.transform.angular_velocity == e0.object.transform.angular_velocity
        &&& e1.object.transform.position == crate::object::ticked_pose(
            Transform {
                position: e0.object.transform.position,
                linear_velocity: vel,
                angular_velocity: e0.object.transform.angular_velocity,
            },
            dt,
        )
    })
}

/// The next brightness of the flicker effect. Fully recovered enemies do
/// not flicker; a slowed enemy flickers within bands above its slowdown
/// floor. Whatever the random draws, the result stays in [0, SCALE] and a
/// fully recovered enemy shows full brightness.
pub fn next_flickering_brightness(current: i64, minimum: i64, rng: &mut Rng) -> (r: i64)
    requires
        0 <= current <= SCALE,
        0 <= minimum <= SCALE,
    ensures
        0 <= r <= SCALE,
        minimum == SCALE ==> r == SCALE,
        r >= minimum,
{
    if minimum == SCALE {
        SCALE
    } else if minimum > 500 {
        let cap: i64 = if minimum + 750 > SCALE {
            SCALE
        } else {
            minimum + 750
        };
        rng.range_fx(minimum, cap)
    } else {
        let coin: u64 = rng.next_u64();
        if (current < 500) != (coin % 4 == 0) {
            let cap: i64 = if minimum + 750 > SCALE {
                SCALE
            } else {
                minimum + 750
            };
            rng.range_fx(500, cap)
        } else {
            if minimum < 500 {
                rng.range_fx(minimum, 500)
            } else {
                500
            }
        }
    }
}

impl Enemy {
    /// Spawn an enemy of the given kind at a position; it starts at full
    /// health, moving along its facing direction.
    pub fn new(position: Pose, kind: &EnemyKind) -> (r: Enemy)
        requires
            pose_wf(position),
            enemy_properties_wf(kind.properties),
        ensures
            enemy_wf(r),
            r.health == kind.properties.maximum_health,
            r.properties == kind.properties,
            r.object.transform.position == position,
            r.object.transform.linear_velocity == (Vec2 { x: 0, y: 0 }),
            r.object.transform.angular_velocity == kind.properties.angular_velocity,
            r.direction == position.rot,
            r.time_since_hit == FX_LIM,
    {
        Enemy {
            object: Object {
                shape: kind.properties.shape,
                transform: Transform {
                    position,
                    linear_velocity: Vec2 { x: 0, y: 0 },
                    angular_velocity: kind.properties.angular_velocity,
                },
            },
            direction: position.rot,
            properties: kind.properties,
            health: kind.properties.maximum_health,
            time_since_hit: FX_LIM,
            brightness: 0,
            brightness_update_time: 0,
        }
    }

    pub fn speed_multiplier(&self) -> (r: i64)
        requires
            enemy_wf(*self),
        ensures
            r == speed_multiplier_spec(*self),
            0 <= r <= SCALE,
    {
        fx::clamp_unit(fx::div_fx(self.time_since_hit, SLOWDOWN_TIME))
    }

    /// Apply damage: health saturates at zero, the slowdown timer resets,
    /// and the flicker is forced to refresh on the next tick.
    pub fn hit(&mut self, damage: u32)
        requires
            enemy_wf(*old(self)),
        ensures
            enemy_wf(*final(self)),
            final(self).health == if damage >= old(self).health {
                0u32
            } else {
                (old(self).health - damage) as u32
            },
            final(self).time_since_hit == 0,
            final(self).brightness_update_time == SCALE,
            final(self).object == old(self).object,
            final(self).direction == old(self).direction,
            final(self).properties == old(self).properties,
            final(self).brightness == old(self).brightness,
            final(self).health <= old(self).health,
    {
        self.health = crate::apply_damage(self.health, damage);
        self.time_since_hit = 0;
        self.brightness_update_time = SCALE;
    }

    /// An enemy is destroyed exactly when its health reaches zero.
    pub fn should_delete(&self) -> (r: bool)
        ensures
            r == (self.health == 0),
    {
        self.health == 0
    }

    /// Advance the enemy: move along its facing at its slowdown-scaled
    /// speed, spin, and update the flicker.
    pub fn tick(&mut self, dt: i64, rng: &mut Rng)
        requires
            enemy_wf(*old(self)),
            0 <= dt <= FX_LIM,
        ensures
            enemy_wf(*final(self)),
            enemy_advanced(*old(self), *final(self), dt as int),
            (dt == 0 && old(self).object.transform.linear_velocity
                == crate::space::rot_apply_spec(
                old(self).direction,
                Vec2 {
                    x: fx::mul_fx_spec(
                        old(self).properties.speed as int,
                        speed_multiplier_spec(*old(self)),
                    ) as i64,
                    y: 0,
                },
            ) && old(self).brightness_update_time <= SCALE) ==> *final(self) == *old(self),
    {
        let multiplier: i64 = self.speed_multiplier();
        let speed: i64 = fx::mul_fx(self.properties.speed, multiplier);
        self.object.transform.linear_velocity = rot_apply(self.direction, Vec2 { x: speed, y: 0 });
        self.object.transform.tick(dt);

        proof {
            if dt == 0 {
                fx::lemma_mul_fx_by_zero(30 * SCALE as int);
            }
        }
        self.brightness_update_time = fx::add_time(
            self.brightness_update_time,
            fx::mul_fx(dt, 30 * SCALE),
        );
        if self.brightness_update_time > SCALE {
            self.brightness_update_time = self.brightness_update_time % SCALE;
            self.brightness = next_flickering_brightness(self.brightness, multiplier, rng);
        }
        self.time_since_hit = fx::add_time(self.time_since_hit, dt);
    }
}

// ------------------------------------------------------------------
// The live enemy pool. The keyed slot map that owns the enemies comes
// from the slotmap crate; the wrappers below carry its documented
// behaviour as trusted contracts over the map view `enemy_pool_view`.
// ------------------------------------------------------------------

#[verifier::external_type_specification]
#[verifier::external_body]
pub struct ExDefaultKey(slotmap::DefaultKey);

/// The entries the pool currently holds, by key.
pub uninterp spec fn enemy_pool_view(p: EnemyPool) -> Map<slotmap::DefaultKey, Enemy>;

/// The pool of live enemies, keyed by stable slot keys.
#[verifier::external_body]
pub struct EnemyPool {
    inner: slotmap::HopSlotMap<slotmap::DefaultKey, Enemy>,
}

impl View for EnemyPool {
    type V = Map<slotmap::DefaultKey, Enemy>;

    open spec fn view(&self) -> Map<slotmap::DefaultKey, Enemy> {
        enemy_pool_view(*self)
    }
}

/// The empty pool contents.
pub open spec fn empty_enemy_map() -> Map<slotmap::DefaultKey, Enemy> {
    Map::empty()
}

impl EnemyPool {
    /// Relies on HopSlotMap::new: the new map is empty.
    #[verifier::external_body]
    pub fn new() -> (pool: EnemyPool)
        ensures
            pool@ == empty_enemy_map(),
    {
        EnemyPool { inner: slotmap::HopSlotMap::new() }
    }

    /// Relies on HopSlotMap::insert: the value is stored under a key not
    /// currently present. The map panics at 2^32 - 2 entries, so that
    /// load is excluded.
    #[verifier::external_body]
    pub fn insert(&mut self, e: Enemy) -> (k: slotmap::DefaultKey)
        requires
            enemy_pool_view(*old(self)).dom().finite(),
            enemy_pool_view(*old(self)).dom().len() < 4294967294,
        ensures
            !enemy_pool_view(*old(self)).dom().contains(k),
            enemy_pool_view(*final(self)) == enemy_pool_view(*old(self)).insert(k, e),
    {
        self.inner.insert(e)
    }

    /// Relies on HopSlotMap::get: returns the entry under the key, if any.
    #[verifier::external_body]
    pub fn get(&self, k: slotmap::DefaultKey) -> (r: Option<Enemy>)
        ensures
            r == if enemy_pool_view(*self).dom().contains(k) {
                Some(enemy_pool_view(*self)[k])
            } else {
                Option::<Enemy>::None
            },
    {
        self.inner.get(k).copied()
    }

    /// Relies on HopSlotMap::get_mut: overwrites the entry under the key
    /// if it is present and reports whether it was.
    #[verifier::external_body]
    pub fn set(&mut self, k: slotmap::DefaultKey, e: Enemy) -> (r: bool)
        ensures
            r == enemy_pool_view(*old(self)).dom().contains(k),
            r ==> enemy_pool_view(*final(self)) == enemy_pool_view(*old(self)).insert(k, e),
            !r ==> enemy_pool_view(*final(self)) == enemy_pool_view(*old(self)),
    {
        if let Some(slot) = self.inner.get_mut(k) {
            *slot = e;
            true
        } else {
            false
        }
    }

    /// Relies on HopSlotMap::remove: takes the entry under the key out of
    /// the map, if present.
    #[verifier::external_body]
    pub fn remove(&mut self, k: slotmap::DefaultKey) -> (r: Option<Enemy>)
        ensures
            enemy_pool_view(*final(self)) == enemy_pool_view(*old(self)).remove(k),
            r == if enemy_pool_view(*old(self)).dom().contains(k) {
                Some(enemy_pool_view(*old(self))[k])
            } else {
                Option::<Enemy>::None
            },
    {
        self.inner.remove(k)
    }

    /// Relies on HopSlotMap::len and on the map holding finitely many
    /// entries.
    #[verifier::external_body]
    pub fn len(&self) -> (r: usize)
        ensures
            r == enemy_pool_view(*self).dom().len(),
    {
        self.inner.len()
    }

    /// Relies on HopSlotMap::keys: yields each present key exactly once.
    #[verifier::external_body]
    pub fn keys(&self) -> (r: Vec<slotmap::DefaultKey>)
        ensures
            r@.no_duplicates(),
            forall|i: int|
                0 <= i < r@.len() ==> enemy_pool_view(*self).dom().contains(#[trigger] r@[i]),
            forall|k: slotmap::DefaultKey|
                enemy_pool_view(*self).dom().contains(k) ==> #[trigger] r@.contains(k),
    {
        self.inner.keys().collect()
    }
}

/// Relies on the derived PartialEq of slotmap::DefaultKey: two keys are
/// equal exactly when they are the same key.
#[verifier::external_body]
pub fn key_eq(a: slotmap::DefaultKey, b: slotmap::DefaultKey) -> (r: bool)
    ensures
        r == (a == b),
{
    a == b
}

/// Every enemy in the pool is well-formed and alive: a lethal strike
/// removes its enemy in the same tick, so the pool never holds a dead
/// enemy.
pub open spec fn pool_all_live(p: EnemyPool) -> bool {
    forall|k: slotmap::DefaultKey|
        #![trigger enemy_pool_view(p).dom().contains(k)]
        enemy_pool_view(p).dom().contains(k) ==> enemy_wf(enemy_pool_view(p)[k])
            && enemy_pool_view(p)[k].health > 0
}

/// A fresh image the size of the source, holding only the pixels whose
/// group landed in atlas a; all other pixels stay transparent, so the
/// image is opaque exactly at the source's opaque pixels of the atlas's
/// member groups.
fn build_atlas_image(
    src: &TextureData,
    assign: &Vec<Option<usize>>,
    atlas_of: &Vec<usize>,
    a: usize,
) -> (r: TextureData)
    requires
        texture_wf(*src),
        assign@.len() == src.width * src.height,
        forall|i: int|
            0 <= i < assign@.len() && #[trigger] assign@[i] is Some ==> assign@[i]->Some_0
                < atlas_of@.len(),
    ensures
        texture_wf(r),
        r.width == src.width,
        r.height == src.height,
        forall|i: int|
            0 <= i < src.width * src.height ==> (#[trigger] crate::texture::opaque_at(r, i) <==> (
            assign@[i] is Some && atlas_of@[assign@[i]->Some_0 as int] == a
                && crate::texture::opaque_at(*src, i))),
{
    let len: usize = assign.len();
    let mut rgba: Vec<u8> = Vec::new();
    let mut fill: usize = 0;
    proof {
        assert(src.rgba.len() == src.width * src.height * 4);
        assert(src.width * src.height < 0x100000000int) by (nonlinear_arith)
            requires
                0 < src.width < 65536,
                0 < src.height < 65536,
        ;
    }
    let cap: usize = 4 * len;
    while fill < cap
        invariant
            rgba@.len() == fill,
            fill <= cap,
            forall|j: int| 0 <= j < fill ==> #[trigger] rgba@[j] == 0,
        decreases cap - fill,
    {
        rgba.push(0);
        fill = fill + 1;
    }
    proof {
        assert(rgba@.len() == 4 * len);
    }
    let mut i: usize = 0;
    while i < len
        invariant
            texture_wf(*src),
            len == assign@.len(),
            len == src.width * src.height,
            rgba@.len() == 4 * len,
            i <= len,
            forall|j: int|
                0 <= j < assign@.len() && #[trigger] assign@[j] is Some ==> assign@[j]->Some_0
                    < atlas_of@.len(),
            forall|j: int|
                0 <= j < i ==> #[trigger] rgba@[4 * j + 3] == (if assign@[j] is Some
                    && atlas_of@[assign@[j]->Some_0 as int] == a {
                    src.rgba@[4 * j + 3]
                } else {
                    0
                }),
            forall|j: int| i <= j < len ==> #[trigger] rgba@[4 * j + 3] == 0,
        decreases len - i,
    {
        proof {
            assert(4 * (i as int) + 3 < src.width * src.height * 4);
        }
        if let Some(g) = assign[i] {
            if atlas_of[g] == a {
                rgba.set(4 * i, src.rgba[4 * i]);
                rgba.set(4 * i + 1, src.rgba[4 * i + 1]);
                rgba.set(4 * i + 2, src.rgba[4 * i + 2]);
                rgba.set(4 * i + 3, src.rgba[4 * i + 3]);
            }
        }
        i = i + 1;
    }
    TextureData { width: src.width, height: src.height, rgba }
}

/// The displacement of a group box's center from the sprite's center, in
/// world units: a pixel is a tenth of a unit.
pub open spec fn fragment_offset(
    bbox: crate::pixels::BoundingBox,
    tex_w: int,
    tex_h: int,
) -> Vec2 {
    Vec2 {
        x: fx::div_trunc_spec(
            fx::add_fx_spec(500 * (bbox.min.x + bbox.max.x + 1), -(500 * tex_w)),
            10,
        ) as i64,
        y: fx::div_trunc_spec(
            fx::add_fx_spec(500 * (bbox.min.y + bbox.max.y + 1), -(500 * tex_h)),
            10,
        ) as i64,
    }
}

/// Where a fragment spawns: the enemy's pose applied to its box center.
pub open spec fn fragment_pose(
    e: Enemy,
    bbox: crate::pixels::BoundingBox,
    tex_w: int,
    tex_h: int,
) -> Pose {
    let pose = e.object.transform.position;
    let roff = crate::space::rot_apply_spec(pose.rot, fragment_offset(bbox, tex_w, tex_h));
    Pose {
        tx: fx::add_fx_spec(pose.tx as int, roff.x as int) as i64,
        ty: fx::add_fx_spec(pose.ty as int, roff.y as int) as i64,
        rot: pose.rot,
    }
}

/// The squared distance from a fragment to the hit point, clamped away
/// from the singularity at the hit point and capped, in thousandths.
pub open spec fn fragment_distance2(
    e: Enemy,
    bbox: crate::pixels::BoundingBox,
    tex_w: int,
    tex_h: int,
    hit_position: Vec2,
) -> int {
    let p = fragment_pose(e, bbox, tex_w, tex_h);
    let dx = fx::add_fx_spec(p.tx as int, -hit_position.x as int);
    let dy = fx::add_fx_spec(p.ty as int, -hit_position.y as int);
    let q = (dx * dx + dy * dy) / 1000;
    if q < 500 {
        500
    } else if q > 5000 {
        5000
    } else {
        q
    }
}

/// A fragment's initial velocity for the jitter draw j: the enemy's spin
/// at the fragment, plus j thousandths of the sum of an outward shove
/// (inverse to the squared distance from the hit point) and a share of
/// the hit velocity (inverse to the distance).
pub open spec fn fragment_velocity(
    e: Enemy,
    bbox: crate::pixels::BoundingBox,
    tex_w: int,
    tex_h: int,
    hit_position: Vec2,
    hit_velocity: Vec2,
    jitter: int,
) -> Vec2 {
    let roff = crate::space::rot_apply_spec(
        e.object.transform.position.rot,
        fragment_offset(bbox, tex_w, tex_h),
    );
    let p = fragment_pose(e, bbox, tex_w, tex_h);
    let dx = fx::add_fx_spec(p.tx as int, -hit_position.x as int);
    let dy = fx::add_fx_spec(p.ty as int, -hit_position.y as int);
    let d2 = fragment_distance2(e, bbox, tex_w, tex_h, hit_position);
    let ax = fx::clamp_spec(fx::div_trunc_spec(dx * 2000, d2));
    let ay = fx::clamp_spec(fx::div_trunc_spec(dy * 2000, d2));
    let root = fx::isqrt_spec(d2 * 1000);
    let bx = fx::clamp_spec(fx::div_trunc_spec(hit_velocity.x * 500, root));
    let by = fx::clamp_spec(fx::div_trunc_spec(hit_velocity.y * 500, root));
    let omega = e.object.transform.angular_velocity as int;
    let spin_x = fx::add_fx_spec(0, -fx::mul_fx_spec(omega, roff.y as int));
    let spin_y = fx::mul_fx_spec(omega, roff.x as int);
    Vec2 {
        x: fx::add_fx_spec(spin_x, fx::mul_fx_spec(fx::add_fx_spec(ax, bx), jitter)) as i64,
        y: fx::add_fx_spec(spin_y, fx::mul_fx_spec(fx::add_fx_spec(ay, by), jitter)) as i64,
    }
}

/// One fragment particle for one group box: placed at the box center in
/// the enemy's frame, flung outward from the hit point with the enemy's
/// spin, drawing its box's sub-rectangle of its atlas texture.
fn fragment_particle(
    e: &Enemy,
    bbox: crate::pixels::BoundingBox,
    tex_w: usize,
    tex_h: usize,
    hit_position: Vec2,
    hit_velocity: Vec2,
    texture_handle: usize,
    rng: &mut Rng,
) -> (r: Particle)
    requires
        enemy_wf(*e),
        crate::pixels::bb_wf(bbox),
        tex_w < crate::pixels::PIX_LIM,
        tex_h < crate::pixels::PIX_LIM,
        vec2_in_range(hit_position),
        vec2_in_range(hit_velocity),
    ensures
        crate::particle::particle_wf(r),
        r.texture == texture_handle,
        r.start == Some(bbox.min),
        r.size.w == bbox.max.x - bbox.min.x + 1,
        r.size.h == bbox.max.y - bbox.min.y + 1,
        r.transform.angular_velocity == e.object.transform.angular_velocity,
        r.target_position is None,
        r.time_since_creation == 0,
        r.maximum_lifetime == SCALE,
        r.transform.position == fragment_pose(*e, bbox, tex_w as int, tex_h as int),
        exists|j: int|
            500 <= j < 1250 && #[trigger] fragment_velocity(
                *e,
                bbox,
                tex_w as int,
                tex_h as int,
                hit_position,
                hit_velocity,
                j,
            ) == r.transform.linear_velocity,
{
    let center: Vec2 = bbox.center();
    let half_w: i64 = 500 * (tex_w as i64);
    let half_h: i64 = 500 * (tex_h as i64);
    // One pixel is a tenth of a world unit.
    let off_x: i64 = fx::div_trunc(fx::sub_fx(center.x, half_w), 10);
    let off_y: i64 = fx::div_trunc(fx::sub_fx(center.y, half_h), 10);
    let pose: Pose = e.object.transform.position;
    let roff: Vec2 = rot_apply(pose.rot, Vec2 { x: off_x, y: off_y });
    let tx: i64 = fx::add_fx(pose.tx, roff.x);
    let ty: i64 = fx::add_fx(pose.ty, roff.y);
    let dx: i64 = fx::sub_fx(tx, hit_position.x);
    let dy: i64 = fx::sub_fx(ty, hit_position.y);
    // Squared distance to the hit point, clamped to [0.5, 5] to avoid a
    // singularity at the hit point.
    proof {
        assert(0 <= (dx as i128) * (dx as i128) <= 1000000000000000000int && 0 <= (dy as i128) * (
        dy as i128) <= 1000000000000000000int) by (nonlinear_arith)
            requires
                fx::in_range(dx),
                fx::in_range(dy),
        ;
    }
    let m2: u128 = ((dx as i128) * (dx as i128) + (dy as i128) * (dy as i128)) as u128;
    let q: u128 = m2 / 1000;
    let d2: i64 = if q < 500 {
        500
    } else if q > 5000 {
        5000
    } else {
        q as i64
    };
    // Outward shove, inversely proportional to the squared distance.
    let ax: i64 = fx::clamp_fx(fx::div_trunc(dx * 2000, d2));
    let ay: i64 = fx::clamp_fx(fx::div_trunc(dy * 2000, d2));
    // A share of the hit velocity, inversely proportional to the distance.
    let s_root_u: u64 = fx::isqrt_u64((d2 * 1000) as u64);
    proof {
        assert(d2 * 1000 >= 500000);
        if s_root_u == 0 {
            assert((s_root_u + 1) * (s_root_u + 1) == 1) by (nonlinear_arith)
                requires
                    s_root_u == 0u64,
            ;
            assert(false);
        }
    }
    let s_root: i64 = s_root_u as i64;
    proof {
        assert(s_root_u * s_root_u <= 5000000);
        assert(s_root_u <= 5000000) by (nonlinear_arith)
            requires
                s_root_u * s_root_u <= 5000000u64,
        ;
    }
    let bx: i64 = fx::clamp_fx(fx::div_trunc(hit_velocity.x * 500, s_root));
    let by: i64 = fx::clamp_fx(fx::div_trunc(hit_velocity.y * 500, s_root));
    let add_x: i64 = fx::add_fx(ax, bx);
    let add_y: i64 = fx::add_fx(ay, by);
    // The fragment keeps the enemy's spin around its own center.
    let omega: i64 = e.object.transform.angular_velocity;
    let spin_x: i64 = fx::sub_fx(0, fx::mul_fx(omega, roff.y));
    let spin_y: i64 = fx::mul_fx(omega, roff.x);
    let jitter: i64 = rng.range_fx(500, 1250);
    let vx: i64 = fx::add_fx(spin_x, fx::mul_fx(add_x, jitter));
    let vy: i64 = fx::add_fx(spin_y, fx::mul_fx(add_y, jitter));
    proof {
        let tw = tex_w as int;
        let th = tex_h as int;
        assert(fragment_offset(bbox, tw, th) == (Vec2 { x: off_x, y: off_y }));
        assert(fragment_pose(*e, bbox, tw, th) == (Pose { tx, ty, rot: pose.rot }));
        assert(m2 as int == dx as int * dx as int + dy as int * dy as int);
        assert(q as int == (dx as int * dx as int + dy as int * dy as int) / 1000) by {
            vstd::arithmetic::div_mod::lemma_div_pos_is_pos(
                dx as int * dx as int + dy as int * dy as int,
                1000,
            );
        };
        assert(fragment_distance2(*e, bbox, tw, th, hit_position) == d2 as int);
        assert(s_root as int == fx::isqrt_spec(d2 as int * 1000));
        assert(fragment_velocity(*e, bbox, tw, th, hit_position, hit_velocity, jitter as int)
            == (Vec2 { x: vx, y: vy }));
    }
    Particle {
        transform: Transform {
            position: Pose { tx, ty, rot: pose.rot },
            linear_velocity: Vec2 { x: vx, y: vy },
            angular_velocity: omega,
        },
        target_position: None,
        time_since_creation: 0,
        maximum_lifetime: SCALE,
        texture: texture_handle,
        start: Some(bbox.min),
        size: bbox.size(),
    }
}

/// One recorded outcome of a shatter: a complete decomposition of the
/// sprite's opacity mask into group boxes (every opaque pixel in exactly
/// one box's group, none gained, lost or duplicated), an atlas assignment
/// under which boxes of different atlases never intersect, exactly one
/// new sprite-sized texture per atlas appended to the store — opaque
/// exactly at the source's opaque pixels of the atlas's member groups —
/// and exactly one fragment particle per group box appended to the pool,
/// drawing its box's sub-rectangle of its atlas's texture and inheriting
/// the enemy's spin.
pub open spec fn shatter_outcome(
    e: Enemy,
    tex: TextureData,
    hit_position: Vec2,
    hit_velocity: Vec2,
    store0: Seq<TextureData>,
    store1: Seq<TextureData>,
    parts0: Seq<Particle>,
    parts1: Seq<Particle>,
    assign: Seq<Option<usize>>,
    boxes: Seq<crate::pixels::BoundingBox>,
    atlas_of: Seq<usize>,
    natlas: int,
) -> bool {
    &&& shatter::decomposition_ok(tex, assign, boxes)
    &&& atlas_of.len() == boxes.len()
    &&& 0 <= natlas <= boxes.len()
    &&& forall|g: int| 0 <= g < atlas_of.len() ==> #[trigger] atlas_of[g] < natlas
    &&& forall|g1: int, g2: int|
        0 <= g1 < boxes.len() && 0 <= g2 < boxes.len() && atlas_of[g1] != atlas_of[g2]
            ==> !crate::pixels::bb_intersects_spec(boxes[g1], boxes[g2])
    &&& store1.len() == store0.len() + natlas
    &&& forall|a: int|
        0 <= a < natlas ==> (#[trigger] store1[store0.len() + a]).width == tex.width
            && store1[store0.len() + a].height == tex.height
    &&& forall|a: int, i: int|
        0 <= a < natlas && 0 <= i < assign.len() ==> (#[trigger] crate::texture::opaque_at(
            store1[store0.len() + a],
            i,
        ) <==> (assign[i] is Some && atlas_of[assign[i]->Some_0 as int] == a
            && crate::texture::opaque_at(tex, i)))
    &&& parts1.len() == parts0.len() + boxes.len()
    &&& forall|g: int|
        0 <= g < boxes.len() ==> {
            let fp = #[trigger] parts1[parts0.len() + g];
            &&& fp.start == Some(boxes[g].min)
            &&& fp.size.w == boxes[g].max.x - boxes[g].min.x + 1
            &&& fp.size.h == boxes[g].max.y - boxes[g].min.y + 1
            &&& fp.texture == store0.len() + atlas_of[g]
            &&& fp.transform.angular_velocity == e.object.transform.angular_velocity
            &&& fp.target_position is None
            &&& fp.time_since_creation == 0
            &&& fp.maximum_lifetime == SCALE
            &&& fp.transform.position == fragment_pose(
                e,
                boxes[g],
                tex.width as int,
                tex.height as int,
            )
            &&& exists|j: int|
                500 <= j < 1250 && #[trigger] fragment_velocity(
                    e,
                    boxes[g],
                    tex.width as int,
                    tex.height as int,
                    hit_position,
                    hit_velocity,
                    j,
                ) == fp.transform.linear_velocity
        }
}

impl Enemy {
    /// Shatter the dying enemy's sprite: segment its opaque pixels into
    /// fragment groups, pack the group boxes into atlases that share no
    /// screen space, upload one texture per atlas into the store, and
    /// spawn exactly one fragment particle per group box, as
    /// shatter_outcome records. If the sprite has any opaque pixel at
    /// all, at least one fragment is spawned.
    pub fn explode(
        &self,
        hit_position: Vec2,
        hit_velocity: Vec2,
        store: &mut TextureStore,
        particles: &mut Vec<Particle>,
        rng: &mut Rng,
    )
        requires
            enemy_wf(*self),
            vec2_in_range(hit_position),
            vec2_in_range(hit_velocity),
            store_wf(*old(store)),
            self.properties.texture < old(store).entries@.len(),
            forall|i: int|
                0 <= i < old(particles)@.len() ==> crate::particle::particle_wf(
                    #[trigger] old(particles)@[i],
                ),
        ensures
            store_wf(*final(store)),
            final(store).entries@.len() >= old(store).entries@.len(),
            forall|i: int|
                0 <= i < old(store).entries@.len() ==> final(store).entries@[i] == old(
                    store,
                ).entries@[i],
            forall|i: int|
                0 <= i < final(particles)@.len() ==> crate::particle::particle_wf(
                    #[trigger] final(particles)@[i],
                ),
            forall|i: int|
                0 <= i < old(particles)@.len() ==> final(particles)@[i] == old(particles)@[i],
            final(particles)@.len() >= old(particles)@.len(),
            (exists|i: int|
                0 <= i < old(store).entries@[self.properties.texture as int].width * old(
                    store,
                ).entries@[self.properties.texture as int].height && crate::texture::opaque_at(
                    old(store).entries@[self.properties.texture as int],
                    i,
                )) ==> final(particles)@.len() > old(particles)@.len(),
            exists|
                assign: Seq<Option<usize>>,
                boxes: Seq<crate::pixels::BoundingBox>,
                atlas_of: Seq<usize>,
                natlas: int,
            |
                #[trigger] shatter_outcome(
                    *self,
                    old(store).entries@[self.properties.texture as int],
                    hit_position,
                    hit_velocity,
                    old(store).entries@,
                    final(store).entries@,
                    old(particles)@,
                    final(particles)@,
                    assign,
                    boxes,
                    atlas_of,
                    natlas,
                ),
    {
        let handle: usize = self.properties.texture;
        let deco: shatter::Decomposition = shatter::decompose_groups(store.get(handle), rng);
        let packing: (Vec<usize>, usize) = shatter::pack_atlases(&deco.boxes);
        let atlas_of: Vec<usize> = packing.0;
        let atlas_count: usize = packing.1;
        let tex_w: usize = store.get(handle).width;
        let tex_h: usize = store.get(handle).height;
        proof {
            let tex = old(store).entries@[handle as int];
            if exists|i: int|
                0 <= i < tex.width * tex.height && crate::texture::opaque_at(tex, i) {
                let i = choose|i: int|
                    0 <= i < tex.width * tex.height && crate::texture::opaque_at(tex, i);
                assert(deco.assign@[i] is Some);
                assert(deco.boxes@.len() > 0);
            }
        }
        let base: usize = store.len();
        let mut a: usize = 0;
        while a < atlas_count
            invariant
                texture_wf(old(store).entries@[handle as int]),
                store_wf(*store),
                handle < old(store).entries@.len(),
                store.entries@.len() >= old(store).entries@.len(),
                forall|i: int|
                    0 <= i < old(store).entries@.len() ==> store.entries@[i] == old(
                        store,
                    ).entries@[i],
                deco.assign@.len() == old(store).entries@[handle as int].width * old(
                    store,
                ).entries@[handle as int].height,
                atlas_of@.len() == deco.boxes@.len(),
                forall|i: int|
                    0 <= i < deco.assign@.len() && #[trigger] deco.assign@[i] is Some
                        ==> deco.assign@[i]->Some_0 < atlas_of@.len(),
                a <= atlas_count,
                base == old(store).entries@.len(),
                store.entries@.len() == base + a,
                forall|a2: int|
                    0 <= a2 < a ==> (#[trigger] store.entries@[base + a2]).width == old(
                        store,
                    ).entries@[handle as int].width && store.entries@[base + a2].height == old(
                        store,
                    ).entries@[handle as int].height,
                forall|a2: int, i: int|
                    0 <= a2 < a && 0 <= i < deco.assign@.len() ==> (
                    #[trigger] crate::texture::opaque_at(store.entries@[base + a2], i) <==> (
                    deco.assign@[i] is Some && atlas_of@[deco.assign@[i]->Some_0 as int] == a2
                        && crate::texture::opaque_at(old(store).entries@[handle as int], i))),
            decreases atlas_count - a,
        {
            proof {
                assert(store.entries@[handle as int] == old(store).entries@[handle as int]);
            }
            let img: TextureData = build_atlas_image(
                store.get(handle),
                &deco.assign,
                &atlas_of,
                a,
            );
            store.add(img);
            a = a + 1;
        }
        let total: usize = store.len();
        let tex_w2: usize = tex_w;
        let tex_h2: usize = tex_h;
        let box_count: usize = deco.boxes.len();
        let mut g: usize = 0;
        while g < box_count
            invariant
                enemy_wf(*self),
                vec2_in_range(hit_position),
                vec2_in_range(hit_velocity),
                g <= box_count,
                box_count == deco.boxes@.len(),
                atlas_of@.len() == deco.boxes@.len(),
                base + atlas_count <= total,
                forall|i: int| 0 <= i < atlas_of@.len() ==> #[trigger] atlas_of@[i] < atlas_count,
                tex_w2 < crate::pixels::PIX_LIM,
                tex_h2 < crate::pixels::PIX_LIM,
                forall|j: int|
                    0 <= j < deco.boxes@.len() ==> crate::pixels::bb_wf(#[trigger] deco.boxes@[j]),
                forall|i: int|
                    0 <= i < particles@.len() ==> crate::particle::particle_wf(
                        #[trigger] particles@[i],
                    ),
                forall|i: int|
                    0 <= i < old(particles)@.len() ==> particles@[i] == old(particles)@[i],
                particles@.len() == old(particles)@.len() + g,
                base == old(store).entries@.len(),
                tex_w2 == old(store).entries@[handle as int].width,
                tex_h2 == old(store).entries@[handle as int].height,
                forall|g2: int|
                    0 <= g2 < g ==> {
                        let fp = #[trigger] particles@[old(particles)@.len() + g2];
                        &&& fp.start == Some(deco.boxes@[g2].min)
                        &&& fp.size.w == deco.boxes@[g2].max.x - deco.boxes@[g2].min.x + 1
                        &&& fp.size.h == deco.boxes@[g2].max.y - deco.boxes@[g2].min.y + 1
                        &&& fp.texture == base + atlas_of@[g2]
                        &&& fp.transform.angular_velocity
                            == self.object.transform.angular_velocity
                        &&& fp.target_position is None
                        &&& fp.time_since_creation == 0
                        &&& fp.maximum_lifetime == SCALE
                        &&& fp.transform.position == fragment_pose(
                            *self,
                            deco.boxes@[g2],
                            tex_w2 as int,
                            tex_h2 as int,
                        )
                        &&& exists|j: int|
                            500 <= j < 1250 && #[trigger] fragment_velocity(
                                *self,
                                deco.boxes@[g2],
                                tex_w2 as int,
                                tex_h2 as int,
                                hit_position,
                                hit_velocity,
                                j,
                            ) == fp.transform.linear_velocity
                    },
            decreases box_count - g,
        {
            let frag: Particle = fragment_particle(
                self,
                deco.boxes[g],
                tex_w2,
                tex_h2,
                hit_position,
                hit_velocity,
                base + atlas_of[g],
                rng,
            );
            particles.push(frag);
            g = g + 1;
        }
        proof {
            assert(shatter_outcome(
                *self,
                old(store).entries@[handle as int],
                hit_position,
                hit_velocity,
                old(store).entries@,
                store.entries@,
                old(particles)@,
                particles@,
                deco.assign@,
                deco.boxes@,
                atlas_of@,
                atlas_count as int,
            ));
        }
    }
}

} // verus!
