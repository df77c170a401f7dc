use vstd::prelude::*;

use crate::enemy::{Enemy, EnemyPool, enemy_pool_view, key_eq, pool_all_live};
use crate::fx;
use crate::fx::{FX_LIM, SCALE};
use crate::object::{Object, Transform, object_wf, offset_to_spec};
use crate::particle::{EaseTarget, Particle, particle_wf};
use crate::rng::Rng;
use crate::shape::{Shape, colliding};
use crate::space::{Pose, Rot, Vec2, pose_wf, rot_apply, rot_quarter, rot_mul, rot_mul_spec, rot_wf};
use crate::texture::{TextureStore, store_wf};

verus! {

use vstd::map::Map;

/// Speed factor while embedded in a target.
pub const COLLISION_SPEED_MULTIPLIER: i64 = 250;

/// Immutable per-kind configuration of a projectile.
#[derive(Clone, Copy, Debug, PartialEq, Eq, Structural)]
pub struct ProjectileProperties {
    /// Full extent of the rectangular hitbox.
    pub size: Vec2,
    pub damage: u32,
    pub piercing: bool,
    pub speed: i64,
    /// Number of equal integration sub-steps per tick; bounds per-step
    /// travel so fast projectiles cannot tunnel through thin enemies.
    pub subticks: u32,
    /// Trail emission spacing, in world distance.
    pub particle_distance: i64,
    pub hit_particle_radius: usize,
    pub hit_particle_distance: i64,
}

pub open spec fn projectile_properties_wf(p: ProjectileProperties) -> bool {
    &&& 2 <= p.size.x <= FX_LIM
    &&& 2 <= p.size.y <= FX_LIM
    &&& 0 <= p.speed <= FX_LIM
    &&& 1 <= p.subticks
    &&& 0 < p.particle_distance <= FX_LIM
    &&& p.hit_particle_radius <= 1000000
    &&& 0 <= p.hit_particle_distance <= FX_LIM
}

/// A named projectile kind from the immutable startup catalog.
#[derive(Clone, Copy, Debug)]
pub struct ProjectileKind {
    pub name: &'static str,
    pub properties: ProjectileProperties,
    pub shoot_cooldown: i64,
}

pub open spec fn projectile_kind_wf(k: ProjectileKind) -> bool {
    projectile_properties_wf(k.properties) && 0 < k.shoot_cooldown <= FX_LIM
}

/// A projectile in flight, together with its contact bookkeeping: the
/// enemies it currently overlaps (exact and widened hitboxes) and every
/// enemy it has ever damaged. An enemy id never enters enemies_hit twice,
/// so each enemy is damaged at most once by a given projectile even while
/// it pierces.
#[derive(Clone, Debug)]
pub struct Projectile {
    pub object: Object,
    pub direction: Rot,
    pub properties: ProjectileProperties,
    pub enemies_colliding: Vec<slotmap::DefaultKey>,
    pub enemies_intersecting: Vec<slotmap::DefaultKey>,
    pub enemies_hit: Vec<slotmap::DefaultKey>,
    pub time_since_collision: i64,
    pub time_since_exit: i64,
    pub distance_since_particle: i64,
}

pub open spec fn projectile_wf(p: Projectile) -> bool {
    &&& object_wf(p.object)
    &&& rot_wf(p.direction)
    &&& projectile_properties_wf(p.properties)
    &&& p.object.shape == (Shape::Rectangle {
        half_size: Vec2 {
            x: fx::div_trunc_spec(p.properties.size.x as int, 2) as i64,
            y: fx::div_trunc_spec(p.properties.size.y as int, 2) as i64,
        },
    })
    &&& 0 <= p.time_since_collision <= FX_LIM
    &&& 0 <= p.time_since_exit <= FX_LIM
    &&& 0 <= p.distance_since_particle <= p.properties.particle_distance
    &&& p.enemies_hit@.no_duplicates()
}

/// Whether the projectile's exact hitbox overlaps the enemy's shape.
pub open spec fn exact_overlap(p: Projectile, e: Enemy) -> bool {
    let off = offset_to_spec(p.object.transform.position, e.object.transform.position);
    colliding(p.object.shape, e.object.shape, off.tx as int, off.ty as int, off.rot.c as int,
        off.rot.s as int, 1)
}

/// The hitbox widened backward by the projectile's front and back
/// margins, used for sustained-contact tracking without flicker.
pub open spec fn widened_shape(p: Projectile) -> Shape {
    let hx = fx::div_trunc_spec(p.properties.size.x as int, 2);
    let hy = fx::div_trunc_spec(p.properties.size.y as int, 2);
    let shift = fx::div_trunc_spec((hx + hx) as int, 2);
    Shape::Rectangle { half_size: Vec2 { x: (hx + shift) as i64, y: hy as i64 } }
}

/// Whether the enemy overlaps the widened hitbox.
pub open spec fn widened_overlap(p: Projectile, e: Enemy) -> bool {
    let off = offset_to_spec(p.object.transform.position, e.object.transform.position);
    let hx = fx::div_trunc_spec(p.properties.size.x as int, 2);
    let shift = fx::div_trunc_spec((hx + hx) as int, 2);
    colliding(widened_shape(p), e.object.shape, fx::add_fx_spec(off.tx as int, shift),
        off.ty as int, off.rot.c as int, off.rot.s as int, 1)
}

/// The sustained contact set subsumes the exact one: every enemy recorded
/// as intersecting the exact hitbox is also recorded as colliding with the
/// widened one.
pub open spec fn contacts_nested(p: Projectile) -> bool {
    forall|k: slotmap::DefaultKey|
        #![trigger p.enemies_intersecting@.contains(k)]
        p.enemies_intersecting@.contains(k) ==> p.enemies_colliding@.contains(k)
}

/// The larger of two absolute values splits exactly over a sum and a
/// difference.
proof fn lemma_max_abs_split(a: int, b: int)
    ensures
        crate::shape::max_spec(fx::abs_spec(a + b), fx::abs_spec(a - b)) == fx::abs_spec(a)
            + fx::abs_spec(b),
{
}

/// The widened hitbox is a superset of the exact one: overlap with the
/// exact hitbox implies overlap with the widened hitbox, whatever the
/// enemy's shape.
#[verifier::rlimit(100)]
proof fn lemma_exact_implies_widened(p: Projectile, e: Enemy)
    requires
        projectile_wf(p),
        crate::enemy::enemy_wf(e),
        exact_overlap(p, e),
    ensures
        widened_overlap(p, e),
{
    let off = offset_to_spec(p.object.transform.position, e.object.transform.position);
    let hx = fx::div_trunc_spec(p.properties.size.x as int, 2);
    let hy = fx::div_trunc_spec(p.properties.size.y as int, 2);
    let shift = fx::div_trunc_spec(hx + hx, 2);
    assert(1 <= hx <= 500000000) by {
        vstd::arithmetic::div_mod::lemma_div_is_ordered(2, p.properties.size.x as int, 2);
        vstd::arithmetic::div_mod::lemma_div_is_ordered(
            p.properties.size.x as int,
            1000000000,
            2,
        );
        assert(2int / 2 == 1);
        assert(1000000000int / 2 == 500000000);
    };
    assert(shift == hx) by {
        vstd::arithmetic::div_mod::lemma_div_multiples_vanish(hx, 2);
        assert(2 * hx == hx + hx);
    };
    let otx = off.tx as int;
    let oty = off.ty as int;
    let c = off.rot.c as int;
    let s = off.rot.s as int;
    let txw = fx::add_fx_spec(otx, shift);
    // The shifted offset moves forward by at most the margin and never
    // backward.
    assert(otx <= txw <= otx + hx);
    let w = hx + shift;
    match e.object.shape {
        Shape::Point => {
            assert(fx::abs_spec(txw) <= w);
        },
        Shape::Circle { radius } => {
            let r = radius as int;
            let ax = fx::abs_spec(otx);
            let ay = fx::abs_spec(oty);
            let axw = fx::abs_spec(txw);
            if ay <= hy {
                assert(axw <= w + r);
            } else {
                if axw <= w {
                    if !(ax <= hx) {
                        // corner branch of the exact test
                        let ux = ax - hx;
                        let uy = ay - hy;
                        assert(ux * ux >= 0) by (nonlinear_arith);
                        assert(uy * uy < r * r);
                        assert(uy < r) by (nonlinear_arith)
                            requires
                                uy * uy < r * r,
                                uy > 0,
                                r > 0,
                        ;
                    }
                    assert(ay <= hy + r);
                } else {
                    // the widened corner offset never exceeds the exact one
                    assert(ax > hx);
                    let ux = ax - hx;
                    let uy = ay - hy;
                    let uxw = axw - w;
                    assert(0 < uxw <= ux);
                    assert(uxw * uxw <= ux * ux) by (nonlinear_arith)
                        requires
                            0 < uxw <= ux,
                    ;
                    assert(uxw * uxw + uy * uy < r * r);
                }
            }
        },
        Shape::Rectangle { half_size } => {
            let hbx = half_size.x as int;
            let hby = half_size.y as int;
            // first direction: the widened extent absorbs the shift
            assert(fx::abs_spec(txw) <= fx::abs_spec(otx) + hx);
            assert(fx::abs_spec(txw) * SCALE <= fx::abs_spec(otx) * SCALE + hx * SCALE)
                by (nonlinear_arith)
                requires
                    fx::abs_spec(txw) <= fx::abs_spec(otx) + hx,
                    SCALE == 1000,
            ;
            // second direction: the rotated widened extents grow by exactly
            // the rotated margin
            let itx = crate::shape::inv_tx(otx, oty, c, s);
            let ity = crate::shape::inv_ty(otx, oty, c, s);
            let itxw = crate::shape::inv_tx(txw, oty, c, s);
            let ityw = crate::shape::inv_ty(txw, oty, c, s);
            let delta = txw - otx;
            assert(itxw == itx - c * delta && ityw == ity + s * delta) by (nonlinear_arith)
                requires
                    itx == -(c * otx + s * oty),
                    ity == s * otx - c * oty,
                    itxw == -(c * txw + s * oty),
                    ityw == s * txw - c * oty,
                    delta == txw - otx,
            ;
            assert(fx::abs_spec(c * delta) <= fx::abs_spec(hx * c) && fx::abs_spec(s * delta)
                <= fx::abs_spec(hx * s)) by (nonlinear_arith)
                requires
                    0 <= delta <= hx,
            ;
            lemma_max_abs_split(hx * c, hy * s);
            lemma_max_abs_split(w * c, hy * s);
            lemma_max_abs_split(hx * (-s), hy * c);
            lemma_max_abs_split(w * (-s), hy * c);
            assert(w * c == hx * c + hx * c && w * (-s) == hx * (-s) + hx * (-s))
                by (nonlinear_arith)
                requires
                    w == hx + hx,
            ;
            assert(fx::abs_spec(hx * (-s)) == fx::abs_spec(hx * s)) by (nonlinear_arith);
            assert(crate::shape::rect_extent_x(w, hy, c, -s) == crate::shape::rect_extent_x(
                hx,
                hy,
                c,
                -s,
            ) + fx::abs_spec(hx * c));
            assert(crate::shape::rect_extent_y(w, hy, c, -s) == crate::shape::rect_extent_y(
                hx,
                hy,
                c,
                -s,
            ) + fx::abs_spec(hx * s));
            assert(fx::abs_spec(itxw) <= fx::abs_spec(itx) + fx::abs_spec(hx * c));
            assert(fx::abs_spec(ityw) <= fx::abs_spec(ity) + fx::abs_spec(hx * s));
            assert(fx::abs_spec(itxw) * SCALE <= fx::abs_spec(itx) * SCALE + fx::abs_spec(
                hx * c,
            ) * SCALE && fx::abs_spec(ityw) * SCALE <= fx::abs_spec(ity) * SCALE + fx::abs_spec(
                hx * s,
            ) * SCALE) by (nonlinear_arith)
                requires
                    fx::abs_spec(itxw) <= fx::abs_spec(itx) + fx::abs_spec(hx * c),
                    fx::abs_spec(ityw) <= fx::abs_spec(ity) + fx::abs_spec(hx * s),
                    SCALE == 1000,
            ;
            assert(SCALE as int * (hbx * SCALE + crate::shape::rect_extent_x(hx, hy, c, -s))
                + fx::abs_spec(hx * c) * SCALE == SCALE as int * (hbx * SCALE
                + crate::shape::rect_extent_x(w, hy, c, -s))) by (nonlinear_arith)
                requires
                    crate::shape::rect_extent_x(w, hy, c, -s) == crate::shape::rect_extent_x(
                        hx,
                        hy,
                        c,
                        -s,
                    ) + fx::abs_spec(hx * c),
                    SCALE == 1000,
            ;
            assert(SCALE as int * (hby * SCALE + crate::shape::rect_extent_y(hx, hy, c, -s))
                + fx::abs_spec(hx * s) * SCALE == SCALE as int * (hby * SCALE
                + crate::shape::rect_extent_y(w, hy, c, -s))) by (nonlinear_arith)
                requires
                    crate::shape::rect_extent_y(w, hy, c, -s) == crate::shape::rect_extent_y(
                        hx,
                        hy,
                        c,
                        -s,
                    ) + fx::abs_spec(hx * s),
                    SCALE == 1000,
            ;
        },
    }
}

/// The velocity a projectile flies at, given its contact state: nominal
/// speed, scaled down while embedded in a target.
pub open spec fn expected_velocity(p: Projectile) -> Vec2 {
    let mult: int = if p.enemies_colliding@.len() == 0 {
        SCALE as int
    } else {
        COLLISION_SPEED_MULTIPLIER as int
    };
    crate::space::rot_apply_spec(
        p.direction,
        Vec2 { x: fx::mul_fx_spec(p.properties.speed as int, mult) as i64, y: 0 },
    )
}

/// A state in which a zero-length tick is a perfect no-op: every live
/// overlapping enemy has already been hit, both contact sets are exactly
/// sustained, the velocity matches the contact state, and no trail
/// particle is pending.
pub open spec fn tick_settled(p: Projectile, m: Map<slotmap::DefaultKey, Enemy>) -> bool {
    &&& forall|k: slotmap::DefaultKey|
        #![trigger m.dom().contains(k)]
        m.dom().contains(k) && !p.enemies_hit@.contains(k) ==> !exact_overlap(p, m[k])
    &&& forall|k: slotmap::DefaultKey|
        #![trigger p.enemies_colliding@.contains(k)]
        p.enemies_colliding@.contains(k) ==> m.dom().contains(k) && m[k].health > 0
            && widened_overlap(p, m[k])
    &&& forall|k: slotmap::DefaultKey|
        #![trigger p.enemies_intersecting@.contains(k)]
        p.enemies_intersecting@.contains(k) ==> m.dom().contains(k) && m[k].health > 0
            && exact_overlap(p, m[k])
    &&& p.object.transform.linear_velocity == expected_velocity(p)
    &&& p.distance_since_particle < p.properties.particle_distance
    &&& p.enemies_colliding@.len() > 0 ==> p.time_since_exit == 0
}

/// Every enemy in the pool refers to a texture the store holds.
pub open spec fn pool_textures_ok(m: Map<slotmap::DefaultKey, Enemy>, s: TextureStore) -> bool {
    forall|k: slotmap::DefaultKey|
        #![trigger m.dom().contains(k)]
        m.dom().contains(k) ==> m[k].properties.texture < s.entries@.len()
}

/// Linear scan for a key among the recorded enemy ids.
fn contains_key(v: &Vec<slotmap::DefaultKey>, k: slotmap::DefaultKey) -> (r: bool)
    ensures
        r == v@.contains(k),
{
    let mut i: usize = 0;
    while i < v.len()
        invariant
            i <= v@.len(),
            forall|j: int| 0 <= j < i ==> v@[j] != k,
        decreases v@.len() - i,
    {
        if key_eq(v[i], k) {
            return true;
        }
        i = i + 1;
    }
    proof {
        if v@.contains(k) {
            let j = choose|j: int| 0 <= j < v@.len() && v@[j] == k;
        }
    }
    false
}

/// The glitter pair of ring j (counting from zero): both particles sit at
/// the burst's start pose and ease, at a fixed decay, toward the two
/// points one ring step to either side of the flight axis.
pub open spec fn hit_pair_ok(
    p: Projectile,
    start: Pose,
    particles: Seq<Particle>,
    base: int,
    j: int,
) -> bool {
    let lat = fx::mul_fx_spec((j + 1) * SCALE as int, p.properties.hit_particle_distance as int);
    let side_a = crate::space::rot_apply_spec(
        p.object.transform.position.rot,
        Vec2 { x: 0, y: lat as i64 },
    );
    let side_b = crate::space::rot_apply_spec(
        p.object.transform.position.rot,
        Vec2 { x: 0, y: (-lat) as i64 },
    );
    let pa = particles[base + 2 * j];
    let pb = particles[base + 2 * j + 1];
    &&& pa.transform.position == start
    &&& pb.transform.position == start
    &&& pa.target_position is Some
    &&& pb.target_position is Some
    &&& pa.target_position->Some_0.position.x == fx::add_fx_spec(side_a.x as int, start.tx as int)
    &&& pa.target_position->Some_0.position.y == fx::add_fx_spec(side_a.y as int, start.ty as int)
    &&& pb.target_position->Some_0.position.x == fx::add_fx_spec(side_b.x as int, start.tx as int)
    &&& pb.target_position->Some_0.position.y == fx::add_fx_spec(side_b.y as int, start.ty as int)
    &&& pa.target_position->Some_0.decay == 20 * SCALE
    &&& pb.target_position->Some_0.decay == 20 * SCALE
    &&& pa.texture < 2
    &&& pb.texture < 2
}

/// The whole symmetric burst of a hit: the start pose sits on the flight
/// axis just behind the hitbox's leading edge, and each of the
/// hit_particle_radius rings emits one mirrored pair of eased particles.
pub open spec fn hit_fan_out(
    p: Projectile,
    start: Pose,
    particles: Seq<Particle>,
    base: int,
) -> bool {
    let step = crate::space::rot_apply_spec(
        p.object.transform.position.rot,
        Vec2 {
            x: fx::add_fx_spec(fx::div_trunc_spec(p.properties.size.x as int, 2), -100) as i64,
            y: 0,
        },
    );
    &&& pose_wf(start)
    &&& start.tx == fx::add_fx_spec(p.object.transform.position.tx as int, step.x as int)
    &&& start.ty == fx::add_fx_spec(p.object.transform.position.ty as int, step.y as int)
    &&& forall|j: int|
        0 <= j < p.properties.hit_particle_radius ==> #[trigger] hit_pair_ok(
            p,
            start,
            particles,
            base,
            j,
        )
}

impl ProjectileProperties {
    /// Distance from the center to the hitbox's leading edge.
    pub fn distance_to_front(&self) -> (r: i64)
        requires
            projectile_properties_wf(*self),
        ensures
            r == fx::div_trunc_spec(self.size.x as int, 2),
            0 <= r <= self.size.x,
    {
        fx::div_trunc(self.size.x, 2)
    }

    /// Distance from the center to the hitbox's trailing edge.
    pub fn distance_to_back(&self) -> (r: i64)
        requires
            projectile_properties_wf(*self),
        ensures
            r == fx::div_trunc_spec(self.size.x as int, 2),
            0 <= r <= self.size.x,
    {
        fx::div_trunc(self.size.x, 2)
    }
}

impl Projectile {
    /// Fire a projectile of the given kind from a position; its hitbox is
    /// the kind's rectangle and it flies along the pose's facing. The
    /// first trail particle is jittered backward a random fraction.
    pub fn new(position: Pose, kind: &ProjectileKind, rng: &mut Rng) -> (r: Projectile)
        requires
            pose_wf(position),
            projectile_kind_wf(*kind),
        ensures
            projectile_wf(r),
            r.properties == kind.properties,
            r.direction == position.rot,
            r.object.transform.position == position,
            r.enemies_hit@.len() == 0,
            r.enemies_colliding@.len() == 0,
            r.enemies_intersecting@.len() == 0,
            contacts_nested(r),
            !r.should_delete_spec(),
    {
        let half_x: i64 = fx::div_trunc(kind.properties.size.x, 2);
        let half_y: i64 = fx::div_trunc(kind.properties.size.y, 2);
        let jitter: usize = rng.range_usize(0, 3);
        let jitter_fx: i64 = 100 * (jitter as i64);
        let back: i64 = if jitter_fx > kind.properties.particle_distance {
            0
        } else {
            kind.properties.particle_distance - jitter_fx
        };
        Projectile {
            object: Object {
                shape: Shape::Rectangle { half_size: Vec2 { x: half_x, y: half_y } },
                transform: Transform {
                    position,
                    linear_velocity: Vec2 { x: 0, y: 0 },
                    angular_velocity: 0,
                },
            },
            direction: position.rot,
            properties: kind.properties,
            enemies_colliding: Vec::new(),
            enemies_intersecting: Vec::new(),
            enemies_hit: Vec::new(),
            time_since_collision: FX_LIM,
            time_since_exit: FX_LIM,
            distance_since_particle: back,
        }
    }

    /// A projectile is spent exactly when it does not pierce and has
    /// damaged at least one enemy.
    pub open spec fn should_delete_spec(self) -> bool {
        !self.properties.piercing && self.enemies_hit@.len() > 0
    }

    pub fn should_delete(&self) -> (r: bool)
        ensures
            r == self.should_delete_spec(),
    {
        !(self.properties.piercing || self.enemies_hit.len() == 0)
    }

    /// A pose along the flight axis at the given forward offset, with a
    /// random quarter-turn spin.
    pub fn position_of_particle(&self, offset: i64, rng: &mut Rng) -> (r: Pose)
        requires
            pose_wf(self.object.transform.position),
            fx::in_range(offset),
        ensures
            pose_wf(r),
            ({
                let step = crate::space::rot_apply_spec(
                    self.object.transform.position.rot,
                    Vec2 { x: offset, y: 0 },
                );
                r.tx == fx::add_fx_spec(self.object.transform.position.tx as int, step.x as int)
                    && r.ty == fx::add_fx_spec(
                    self.object.transform.position.ty as int,
                    step.y as int,
                )
            }),
            exists|t: int|
                r.rot == rot_mul_spec(
                    self.object.transform.position.rot,
                    crate::space::rot_quarter_spec(t),
                ),
    {
        let pose: Pose = self.object.transform.position;
        let step: Vec2 = rot_apply(pose.rot, Vec2 { x: offset, y: 0 });
        let tx: i64 = fx::add_fx(pose.tx, step.x);
        let ty: i64 = fx::add_fx(pose.ty, step.y);
        let turn: usize = rng.range_usize(0, 3);
        let rot: Rot = rot_mul(pose.rot, rot_quarter(turn));
        Pose { tx, ty, rot }
    }

    /// Burst of glitter particles fanning out sideways from the tip on a
    /// hit: two per ring step, eased toward their target positions.
    /// hit_fan_out pins the burst's start pose and every pair's mirrored
    /// easing targets.
    pub fn add_hit_particles(&self, particles: &mut Vec<Particle>, rng: &mut Rng)
        requires
            projectile_wf(*self),
            forall|i: int|
                0 <= i < old(particles)@.len() ==> particle_wf(#[trigger] old(particles)@[i]),
        ensures
            forall|i: int|
                0 <= i < final(particles)@.len() ==> particle_wf(#[trigger] final(particles)@[i]),
            forall|i: int|
                0 <= i < old(particles)@.len() ==> final(particles)@[i] == old(particles)@[i],
            final(particles)@.len() == old(particles)@.len() + 2 * self.properties.hit_particle_radius,
            exists|start: Pose| #[trigger] hit_fan_out(
                *self,
                start,
                final(particles)@,
                old(particles)@.len() as int,
            ),
    {
        let front: i64 = self.properties.distance_to_front();
        let start_offset: i64 = fx::sub_fx(front, 100);
        let start: Pose = self.position_of_particle(start_offset, rng);
        let mut ring: usize = 1;
        while ring <= self.properties.hit_particle_radius
            invariant
                projectile_wf(*self),
                pose_wf(start),
                start.tx == fx::add_fx_spec(
                    self.object.transform.position.tx as int,
                    crate::space::rot_apply_spec(
                        self.object.transform.position.rot,
                        Vec2 {
                            x: fx::add_fx_spec(
                                fx::div_trunc_spec(self.properties.size.x as int, 2),
                                -100,
                            ) as i64,
                            y: 0,
                        },
                    ).x as int,
                ),
                start.ty == fx::add_fx_spec(
                    self.object.transform.position.ty as int,
                    crate::space::rot_apply_spec(
                        self.object.transform.position.rot,
                        Vec2 {
                            x: fx::add_fx_spec(
                                fx::div_trunc_spec(self.properties.size.x as int, 2),
                                -100,
                            ) as i64,
                            y: 0,
                        },
                    ).y as int,
                ),
                1 <= ring <= self.properties.hit_particle_radius + 1,
                forall|i: int|
                    0 <= i < particles@.len() ==> particle_wf(#[trigger] particles@[i]),
                forall|i: int|
                    0 <= i < old(particles)@.len() ==> particles@[i] == old(particles)@[i],
                particles@.len() == old(particles)@.len() + 2 * (ring - 1),
                forall|j: int|
                    0 <= j < ring - 1 ==> #[trigger] hit_pair_ok(
                        *self,
                        start,
                        particles@,
                        old(particles)@.len() as int,
                        j,
                    ),
            decreases self.properties.hit_particle_radius + 1 - ring,
        {
            let lateral: i64 = fx::mul_fx(
                (ring as i64) * SCALE,
                self.properties.hit_particle_distance,
            );
            let side_a: Vec2 = rot_apply(
                self.object.transform.position.rot,
                Vec2 { x: 0, y: lateral },
            );
            let side_b: Vec2 = rot_apply(
                self.object.transform.position.rot,
                Vec2 { x: 0, y: -lateral },
            );
            let target_a: Vec2 = Vec2 {
                x: fx::add_fx(side_a.x, start.tx),
                y: fx::add_fx(side_a.y, start.ty),
            };
            let target_b: Vec2 = Vec2 {
                x: fx::add_fx(side_b.x, start.tx),
                y: fx::add_fx(side_b.y, start.ty),
            };
            let ghost before = particles@;
            let glitter_a: usize = rng.range_usize(0, 2);
            particles.push(
                Particle {
                    transform: Transform {
                        position: start,
                        linear_velocity: Vec2 { x: 0, y: 0 },
                        angular_velocity: 0,
                    },
                    target_position: Some(EaseTarget { position: target_a, decay: 20 * SCALE }),
                    time_since_creation: 0,
                    maximum_lifetime: 667,
                    texture: glitter_a,
                    start: None,
                    size: crate::pixels::PixelDims { w: 2, h: 2 },
                },
            );
            let glitter_b: usize = rng.range_usize(0, 2);
            particles.push(
                Particle {
                    transform: Transform {
                        position: start,
                        linear_velocity: Vec2 { x: 0, y: 0 },
                        angular_velocity: 0,
                    },
                    target_position: Some(EaseTarget { position: target_b, decay: 20 * SCALE }),
                    time_since_creation: 0,
                    maximum_lifetime: 667,
                    texture: glitter_b,
                    start: None,
                    size: crate::pixels::PixelDims { w: 2, h: 2 },
                },
            );
            proof {
                let base = old(particles)@.len() as int;
                assert forall|j: int| 0 <= j < ring implies #[trigger] hit_pair_ok(
                    *self,
                    start,
                    particles@,
                    base,
                    j,
                ) by {
                    if j == ring - 1 {
                        assert(particles@[base + 2 * j].transform.position == start);
                    } else {
                        assert(hit_pair_ok(*self, start, before, base, j));
                        assert(particles@[base + 2 * j] == before[base + 2 * j]);
                        assert(particles@[base + 2 * j + 1] == before[base + 2 * j + 1]);
                    }
                }
            }
            ring = ring + 1;
        }
        proof {
            let base = old(particles)@.len() as int;
            assert(hit_fan_out(*self, start, particles@, base));
        }
    }
}

/// Both contact sets only name live enemies they genuinely overlap.
pub open spec fn contacts_valid(p: Projectile, m: Map<slotmap::DefaultKey, Enemy>) -> bool {
    &&& forall|k: slotmap::DefaultKey|
        #![trigger p.enemies_colliding@.contains(k)]
        p.enemies_colliding@.contains(k) ==> m.dom().contains(k) && m[k].health > 0
            && widened_overlap(p, m[k])
    &&& forall|k: slotmap::DefaultKey|
        #![trigger p.enemies_intersecting@.contains(k)]
        p.enemies_intersecting@.contains(k) ==> m.dom().contains(k) && m[k].health > 0
            && exact_overlap(p, m[k])
}

/// The contact-tracking relation one or more sub-steps establish between
/// a projectile-and-pool state and a later one: hit ids only accumulate,
/// the pool only loses enemies, health only drops, an enemy struck while
/// at or below the projectile's damage is gone, an enemy struck above it
/// has lost exactly the damage, and enemies never struck are untouched.
pub open spec fn tick_rel(
    p0: Projectile,
    p1: Projectile,
    m0: Map<slotmap::DefaultKey, Enemy>,
    m1: Map<slotmap::DefaultKey, Enemy>,
) -> bool {
    &&& p1.properties == p0.properties
    &&& p1.direction == p0.direction
    &&& p0.enemies_hit@.len() <= p1.enemies_hit@.len()
    &&& forall|i: int|
        0 <= i < p0.enemies_hit@.len() ==> #[trigger] p1.enemies_hit@[i] == p0.enemies_hit@[i]
    &&& forall|k: slotmap::DefaultKey|
        #![trigger m1.dom().contains(k)]
        m1.dom().contains(k) ==> m0.dom().contains(k) && m1[k].health <= m0[k].health
            && m1[k].properties == m0[k].properties && m1[k].object == m0[k].object
    &&& forall|k: slotmap::DefaultKey|
        #![trigger p1.enemies_hit@.contains(k)]
        p1.enemies_hit@.contains(k) ==> p0.enemies_hit@.contains(k) || m0.dom().contains(k)
    &&& forall|k: slotmap::DefaultKey|
        #![trigger p1.enemies_hit@.contains(k), m0.dom().contains(k)]
        p1.enemies_hit@.contains(k) && !p0.enemies_hit@.contains(k) && m0.dom().contains(k)
            && m0[k].health <= p0.properties.damage ==> !m1.dom().contains(k)
    &&& forall|k: slotmap::DefaultKey|
        #![trigger p1.enemies_hit@.contains(k), m1.dom().contains(k)]
        p1.enemies_hit@.contains(k) && !p0.enemies_hit@.contains(k) && m1.dom().contains(k)
            ==> m0.dom().contains(k) && m1[k].health == m0[k].health - p0.properties.damage
    &&& forall|k: slotmap::DefaultKey|
        #![trigger m1.dom().contains(k)]
        m1.dom().contains(k) && !(p1.enemies_hit@.contains(k) && !p0.enemies_hit@.contains(k))
            ==> m1[k] == m0[k]
}

/// The relation holds reflexively.
proof fn lemma_tick_rel_refl(p: Projectile, m: Map<slotmap::DefaultKey, Enemy>)
    ensures
        tick_rel(p, p, m, m),
{
}

/// The relation composes across consecutive sub-steps.
#[verifier::rlimit(100)]
proof fn lemma_tick_rel_trans(
    p0: Projectile,
    p1: Projectile,
    p2: Projectile,
    m0: Map<slotmap::DefaultKey, Enemy>,
    m1: Map<slotmap::DefaultKey, Enemy>,
    m2: Map<slotmap::DefaultKey, Enemy>,
)
    requires
        tick_rel(p0, p1, m0, m1),
        tick_rel(p1, p2, m1, m2),
    ensures
        tick_rel(p0, p2, m0, m2),
{
    assert forall|i: int| 0 <= i < p0.enemies_hit@.len() implies #[trigger] p2.enemies_hit@[i]
        == p0.enemies_hit@[i] by {
        assert(p1.enemies_hit@[i] == p0.enemies_hit@[i]);
    }
    assert forall|k: slotmap::DefaultKey|
        p2.enemies_hit@.contains(k) implies #[trigger] p0.enemies_hit@.contains(k)
        || m0.dom().contains(k) by {
        if !p1.enemies_hit@.contains(k) {
            assert(m1.dom().contains(k));
        }
    }
    assert forall|k: slotmap::DefaultKey|
        p0.enemies_hit@.contains(k) implies #[trigger] p1.enemies_hit@.contains(k) by {
        let i = choose|i: int| 0 <= i < p0.enemies_hit@.len() && p0.enemies_hit@[i] == k;
        assert(p1.enemies_hit@[i] == k);
    }
    assert forall|k: slotmap::DefaultKey|
        #![trigger p2.enemies_hit@.contains(k), m0.dom().contains(k)]
        p2.enemies_hit@.contains(k) && !p0.enemies_hit@.contains(k) && m0.dom().contains(k)
            && m0[k].health <= p0.properties.damage implies !m2.dom().contains(k) by {
        if p1.enemies_hit@.contains(k) {
            // struck during the first stretch
            assert(!m1.dom().contains(k));
            if m2.dom().contains(k) {
                assert(m1.dom().contains(k));
            }
        } else {
            // struck during the second stretch
            if m2.dom().contains(k) {
                assert(m1.dom().contains(k));
                assert(m1[k] == m0[k]);
            }
            if m1.dom().contains(k) {
                assert(m1[k] == m0[k]);
                assert(!m2.dom().contains(k));
            } else {
                if m2.dom().contains(k) {
                    assert(false);
                }
            }
        }
    }
    assert forall|k: slotmap::DefaultKey|
        #![trigger p2.enemies_hit@.contains(k), m2.dom().contains(k)]
        p2.enemies_hit@.contains(k) && !p0.enemies_hit@.contains(k) && m2.dom().contains(k)
            implies m0.dom().contains(k) && m2[k].health == m0[k].health
        - p0.properties.damage by {
        assert(m1.dom().contains(k));
        if p1.enemies_hit@.contains(k) {
            assert(m1[k].health == m0[k].health - p0.properties.damage);
            assert(m2[k] == m1[k]);
        } else {
            assert(m1[k] == m0[k]);
            assert(m2[k].health == m1[k].health - p1.properties.damage);
        }
    }
    assert forall|k: slotmap::DefaultKey|
        m2.dom().contains(k) && !(p2.enemies_hit@.contains(k) && !p0.enemies_hit@.contains(k))
            implies #[trigger] m2[k] == m0[k] by {
        assert(m1.dom().contains(k));
        if p0.enemies_hit@.contains(k) {
            assert(p1.enemies_hit@.contains(k));
            assert(m1[k] == m0[k]);
            assert(m2[k] == m1[k]);
        } else {
            assert(!p2.enemies_hit@.contains(k));
            if p1.enemies_hit@.contains(k) {
                let i = choose|i: int|
                    0 <= i < p1.enemies_hit@.len() && p1.enemies_hit@[i] == k;
                assert(p2.enemies_hit@[i] == k);
                assert(p2.enemies_hit@.contains(k));
            }
            assert(m1[k] == m0[k]);
            assert(m2[k] == m1[k]);
        }
    }
}

/// Membership in a pushed sequence.
proof fn lemma_contains_push<K>(s: Seq<K>, v: K, x: K)
    ensures
        s.push(v).contains(x) <==> (s.contains(x) || x == v),
{
    if s.push(v).contains(x) {
        let i = choose|i: int| 0 <= i < s.push(v).len() && s.push(v)[i] == x;
        if i < s.len() {
            assert(s[i] == x);
        }
    }
    if s.contains(x) {
        let i = choose|i: int| 0 <= i < s.len() && s[i] == x;
        assert(s.push(v)[i] == x);
    }
    if x == v {
        assert(s.push(v)[s.len() as int] == x);
    }
}

impl Projectile {
    /// Whether the enemy overlaps the widened hitbox, executably.
    fn widened_test(&self, e: &Enemy) -> (r: bool)
        requires
            projectile_wf(*self),
            crate::enemy::enemy_wf(*e),
        ensures
            r == widened_overlap(*self, *e),
    {
        let hx: i64 = fx::div_trunc(self.properties.size.x, 2);
        let hy: i64 = fx::div_trunc(self.properties.size.y, 2);
        let shift: i64 = fx::div_trunc(hx + hx, 2);
        let wide: Shape = Shape::Rectangle { half_size: Vec2 { x: hx + shift, y: hy } };
        let off: Pose = self.object.offset_to(&e.object);
        let off2: Pose = Pose { tx: fx::add_fx(off.tx, shift), ty: off.ty, rot: off.rot };
        wide.is_colliding(&e.object.shape, off2)
    }

    /// One sweep over the pool: damage every live enemy that overlaps the
    /// exact hitbox and has never been hit by this projectile; record it
    /// in all three contact sets; a lethal strike shatters the enemy and
    /// removes it from the pool at once. The sweep is complete (no
    /// surviving unhit enemy still overlaps) and sound (every enemy it
    /// hit did overlap).
    fn strike_enemies(
        &mut self,
        enemies: &mut EnemyPool,
        particles: &mut Vec<Particle>,
        store: &mut TextureStore,
        rng: &mut Rng,
    )
        requires
            projectile_wf(*old(self)),
            pool_all_live(*old(enemies)),
            pool_textures_ok(enemy_pool_view(*old(enemies)), *old(store)),
            store_wf(*old(store)),
            forall|i: int|
                0 <= i < old(particles)@.len() ==> particle_wf(#[trigger] old(particles)@[i]),
        ensures
            projectile_wf(*final(self)),
            final(self).object == old(self).object,
            final(self).distance_since_particle == old(self).distance_since_particle,
            final(self).time_since_exit == old(self).time_since_exit,
            final(self).enemies_hit@.len() > old(self).enemies_hit@.len() ==> final(self).time_since_collision == 0,
            final(self).enemies_hit@.len() == old(self).enemies_hit@.len() ==> final(self).time_since_collision == old(self).time_since_collision,
            // completeness: no surviving enemy the projectile has not hit
            // still overlaps the exact hitbox
            forall|k: slotmap::DefaultKey|
                #![trigger enemy_pool_view(*final(enemies)).dom().contains(k)]
                enemy_pool_view(*final(enemies)).dom().contains(k) && !final(self).enemies_hit@.contains(k) ==> !exact_overlap(
                    *old(self),
                    enemy_pool_view(*final(enemies))[k],
                ),
            // soundness: every enemy hit by this sweep was alive and
            // overlapped the exact hitbox, and lands in both contact sets
            forall|k: slotmap::DefaultKey|
                #![trigger final(self).enemies_hit@.contains(k)]
                final(self).enemies_hit@.contains(k) && !old(self).enemies_hit@.contains(k)
                    ==> enemy_pool_view(*old(enemies)).dom().contains(k) && enemy_pool_view(
                    *old(enemies),
                )[k].health > 0 && exact_overlap(*old(self), enemy_pool_view(*old(enemies))[k])
                    && final(self).enemies_colliding@.contains(k) && final(self).enemies_intersecting@.contains(k),
            // the contact sets grow by exactly the newly hit keys
            forall|k: slotmap::DefaultKey|
                #![trigger old(self).enemies_colliding@.contains(k)]
                old(self).enemies_colliding@.contains(k) ==> final(self).enemies_colliding@.contains(k),
            forall|k: slotmap::DefaultKey|
                #![trigger final(self).enemies_colliding@.contains(k)]
                final(self).enemies_colliding@.contains(k) ==> old(self).enemies_colliding@.contains(k) || (final(self).enemies_hit@.contains(k) && !old(self).enemies_hit@.contains(k)),
            forall|k: slotmap::DefaultKey|
                #![trigger old(self).enemies_intersecting@.contains(k)]
                old(self).enemies_intersecting@.contains(k) ==> final(self).enemies_intersecting@.contains(k),
            forall|k: slotmap::DefaultKey|
                #![trigger final(self).enemies_intersecting@.contains(k)]
                final(self).enemies_intersecting@.contains(k) ==> old(self).enemies_intersecting@.contains(k) || (final(self).enemies_hit@.contains(k)
                    && !old(self).enemies_hit@.contains(k)),
            pool_all_live(*final(enemies)),
            pool_textures_ok(enemy_pool_view(*final(enemies)), *final(store)),
            store_wf(*final(store)),
            final(store).entries@.len() >= old(store).entries@.len(),
            forall|i: int|
                0 <= i < old(store).entries@.len() ==> final(store).entries@[i] == old(
                    store,
                ).entries@[i],
            forall|i: int|
                0 <= i < final(particles)@.len() ==> particle_wf(#[trigger] final(particles)@[i]),
            forall|i: int|
                0 <= i < old(particles)@.len() ==> final(particles)@[i] == old(particles)@[i],
            final(particles)@.len() >= old(particles)@.len(),
            tick_rel(
                *old(self),
                *final(self),
                enemy_pool_view(*old(enemies)),
                enemy_pool_view(*final(enemies)),
            ),
            tick_settled(*old(self), enemy_pool_view(*old(enemies))) ==> (*final(self) == *old(self) && *final(enemies) == *old(enemies) && final(particles)@ == old(particles)@
                && *final(store) == *old(store) && *final(rng) == *old(rng)),
    {
        let ghost p0 = *old(self);
        let ghost e0 = *old(enemies);
        let ghost m0 = enemy_pool_view(*old(enemies));
        let ghost pa0 = old(particles)@;
        let ghost s0 = *old(store);
        let ghost r0 = *old(rng);
        let keys: Vec<slotmap::DefaultKey> = enemies.keys();
        let damage: u32 = self.properties.damage;
        let mut i: usize = 0;
        while i < keys.len()
            invariant
                i <= keys@.len(),
                keys@.no_duplicates(),
                forall|j: int| 0 <= j < keys@.len() ==> m0.dom().contains(#[trigger] keys@[j]),
                forall|k: slotmap::DefaultKey|
                    m0.dom().contains(k) ==> #[trigger] keys@.contains(k),
                damage == p0.properties.damage,
                projectile_wf(*self),
                self.object == p0.object,
                self.distance_since_particle == p0.distance_since_particle,
                self.time_since_exit == p0.time_since_exit,
                self.enemies_hit@.len() > p0.enemies_hit@.len() ==> self.time_since_collision
                    == 0,
                self.enemies_hit@.len() == p0.enemies_hit@.len() ==> self.time_since_collision
                    == p0.time_since_collision,
                // every processed key is hit, gone, or clear of the hitbox
                forall|j: int|
                    0 <= j < i ==> self.enemies_hit@.contains(#[trigger] keys@[j])
                        || !enemy_pool_view(*enemies).dom().contains(keys@[j]) || !exact_overlap(
                        p0,
                        enemy_pool_view(*enemies)[keys@[j]],
                    ),
                // every newly hit key was alive, overlapped, and is in
                // both contact sets
                forall|k: slotmap::DefaultKey|
                    #![trigger self.enemies_hit@.contains(k)]
                    self.enemies_hit@.contains(k) && !p0.enemies_hit@.contains(k)
                        ==> m0.dom().contains(k) && m0[k].health > 0 && exact_overlap(p0, m0[k])
                        && self.enemies_colliding@.contains(k)
                        && self.enemies_intersecting@.contains(k),
                forall|k: slotmap::DefaultKey|
                    #![trigger p0.enemies_colliding@.contains(k)]
                    p0.enemies_colliding@.contains(k) ==> self.enemies_colliding@.contains(k),
                forall|k: slotmap::DefaultKey|
                    #![trigger self.enemies_colliding@.contains(k)]
                    self.enemies_colliding@.contains(k) ==> p0.enemies_colliding@.contains(k) || (
                    self.enemies_hit@.contains(k) && !p0.enemies_hit@.contains(k)),
                forall|k: slotmap::DefaultKey|
                    #![trigger p0.enemies_intersecting@.contains(k)]
                    p0.enemies_intersecting@.contains(k) ==> self.enemies_intersecting@.contains(
                        k,
                    ),
                forall|k: slotmap::DefaultKey|
                    #![trigger self.enemies_intersecting@.contains(k)]
                    self.enemies_intersecting@.contains(k) ==> p0.enemies_intersecting@.contains(
                        k,
                    ) || (self.enemies_hit@.contains(k) && !p0.enemies_hit@.contains(k)),
                pool_all_live(*enemies),
                pool_textures_ok(enemy_pool_view(*enemies), *store),
                store_wf(*store),
                store.entries@.len() >= s0.entries@.len(),
                forall|ii: int|
                    0 <= ii < s0.entries@.len() ==> store.entries@[ii] == s0.entries@[ii],
                forall|ii: int|
                    0 <= ii < particles@.len() ==> particle_wf(#[trigger] particles@[ii]),
                forall|ii: int| 0 <= ii < pa0.len() ==> particles@[ii] == pa0[ii],
                particles@.len() >= pa0.len(),
                tick_rel(p0, *self, m0, enemy_pool_view(*enemies)),
                tick_settled(p0, m0) ==> (*self == p0 && *enemies == e0 && particles@ == pa0
                    && *store == s0 && *rng == r0),
            decreases keys@.len() - i,
        {
            let k: slotmap::DefaultKey = keys[i];
            if !contains_key(&self.enemies_hit, k) {
                let found: Option<Enemy> = enemies.get(k);
                match found {
                    Some(enemy) => {
                        if self.object.is_colliding(&enemy.object) {
                            proof {
                                // A settled projectile overlaps no live
                                // enemy it has not already hit.
                                if tick_settled(p0, m0) {
                                    assert(!exact_overlap(p0, m0[k]));
                                    assert(false);
                                }
                                // The enemy has never been struck, so it
                                // still is exactly as at entry.
                                assert(enemy == m0[k]);
                            }
                            let ghost view_pre = enemy_pool_view(*enemies);
                            let ghost hit_before = self.enemies_hit@;
                            let ghost col_before = self.enemies_colliding@;
                            let ghost int_before = self.enemies_intersecting@;
                            let mut struck: Enemy = enemy;
                            struck.hit(damage);
                            self.enemies_colliding.push(k);
                            self.enemies_intersecting.push(k);
                            proof {
                                let hs = self.enemies_hit@;
                                assert forall|a: int, b: int|
                                    0 <= a < b < hs.push(k).len() implies hs.push(k)[a] != hs.push(
                                    k,
                                )[b] by {
                                    if b < hs.len() {
                                        assert(hs[a] != hs[b]);
                                    } else {
                                        if hs[a] == k {
                                            assert(hs.contains(k));
                                        }
                                    }
                                }
                            }
                            self.enemies_hit.push(k);
                            self.time_since_collision = 0;
                            if struck.should_delete() {
                                let front: i64 = self.properties.distance_to_front();
                                let pose: Pose = self.object.transform.position;
                                let step: Vec2 = rot_apply(pose.rot, Vec2 { x: front, y: 0 });
                                let tip: Vec2 = Vec2 {
                                    x: fx::add_fx(pose.tx, step.x),
                                    y: fx::add_fx(pose.ty, step.y),
                                };
                                // the shatter gets the projectile's current
                                // velocity, slowed while embedded
                                let velocity: Vec2 = self.object.transform.linear_velocity;
                                struck.explode(tip, velocity, store, particles, rng);
                                enemies.remove(k);
                            } else {
                                enemies.set(k, struck);
                            }
                            self.add_hit_particles(particles, rng);
                            proof {
                                let m1 = enemy_pool_view(*enemies);
                                let hs0 = p0.enemies_hit@;
                                let hsp = self.enemies_hit@;
                                let dead = enemy.health <= damage;
                                assert(hsp == hit_before.push(k));
                                assert(!hit_before.contains(k));
                                assert(enemy == m0[k]);
                                assert forall|x: slotmap::DefaultKey|
                                    hs0.contains(x) implies #[trigger] hit_before.contains(x) by {
                                    let j = choose|j: int| 0 <= j < hs0.len() && hs0[j] == x;
                                    assert(hit_before[j] == x);
                                }
                                assert(!hs0.contains(k));
                                assert(dead ==> m1 == view_pre.remove(k));
                                assert(!dead ==> m1 == view_pre.insert(k, struck));
                                // prefix of the accumulated hit list
                                assert forall|ii: int|
                                    0 <= ii < hs0.len() implies #[trigger] hsp[ii] == hs0[ii] by {
                                    assert(hit_before[ii] == hs0[ii]);
                                }
                                // every recorded id names an enemy the pool held
                                assert forall|x: slotmap::DefaultKey|
                                    #[trigger] hsp.contains(x) implies hs0.contains(x)
                                    || m0.dom().contains(x) by {
                                    lemma_contains_push(hit_before, k, x);
                                }
                                // the pool only shrinks, health only drops,
                                // and enemy poses are untouched
                                assert forall|x: slotmap::DefaultKey|
                                    #[trigger] m1.dom().contains(x) implies m0.dom().contains(x)
                                    && m1[x].health <= m0[x].health && m1[x].properties
                                    == m0[x].properties && m1[x].object == m0[x].object by {
                                    if x == k {
                                        assert(m1[x] == struck);
                                    } else {
                                        assert(m1[x] == view_pre[x]);
                                    }
                                }
                                // a lethal strike removed its enemy
                                assert forall|x: slotmap::DefaultKey|
                                    #![trigger hsp.contains(x), m0.dom().contains(x)]
                                    hsp.contains(x) && !hs0.contains(x) && m0.dom().contains(x)
                                        && m0[x].health <= p0.properties.damage implies !m1.dom().contains(
                                    x,
                                ) by {
                                    lemma_contains_push(hit_before, k, x);
                                    if x == k {
                                        assert(dead);
                                    } else {
                                        if hit_before.contains(x) {
                                            assert(!view_pre.dom().contains(x));
                                        }
                                    }
                                }
                                // a surviving struck enemy lost exactly the damage
                                assert forall|x: slotmap::DefaultKey|
                                    #![trigger hsp.contains(x), m1.dom().contains(x)]
                                    hsp.contains(x) && !hs0.contains(x) && m1.dom().contains(
                                        x,
                                    ) implies m0.dom().contains(x) && m1[x].health == m0[x].health
                                    - p0.properties.damage by {
                                    lemma_contains_push(hit_before, k, x);
                                    if x == k {
                                        assert(!dead);
                                        assert(m1[x] == struck);
                                    } else {
                                        assert(m1[x] == view_pre[x]);
                                    }
                                }
                                // never-struck enemies are untouched
                                assert forall|x: slotmap::DefaultKey|
                                    #[trigger] m1.dom().contains(x) && !(hsp.contains(x)
                                        && !hs0.contains(x)) implies m1[x] == m0[x] by {
                                    lemma_contains_push(hit_before, k, x);
                                    if x == k {
                                        assert(hsp.contains(k));
                                        assert(false);
                                    } else {
                                        assert(m1[x] == view_pre[x]);
                                        assert(!(hit_before.contains(x) && !hs0.contains(x))
                                            ==> view_pre[x] == m0[x]);
                                        if hit_before.contains(x) && !hs0.contains(x) {
                                            assert(hsp.contains(x));
                                        }
                                    }
                                }
                                assert(tick_rel(p0, *self, m0, m1));
                                // the fresh strike overlapped and is in
                                // both contact sets
                                assert(exact_overlap(p0, m0[k])) by {
                                    assert(p0.object == self.object);
                                };
                                assert(self.enemies_colliding@ == col_before.push(k));
                                assert(self.enemies_intersecting@ == int_before.push(k));
                                assert(self.enemies_colliding@.contains(k)
                                    && self.enemies_intersecting@.contains(k)
                                    && self.enemies_hit@.contains(k)) by {
                                    lemma_contains_push(col_before, k, k);
                                    lemma_contains_push(int_before, k, k);
                                    lemma_contains_push(hit_before, k, k);
                                };
                                assert forall|x: slotmap::DefaultKey|
                                    #![trigger self.enemies_colliding@.contains(x)]
                                    self.enemies_colliding@.contains(x) == (col_before.contains(x)
                                        || x == k) by {
                                    lemma_contains_push(col_before, k, x);
                                }
                                assert forall|x: slotmap::DefaultKey|
                                    #![trigger self.enemies_intersecting@.contains(x)]
                                    self.enemies_intersecting@.contains(x) == (int_before.contains(
                                        x,
                                    ) || x == k) by {
                                    lemma_contains_push(int_before, k, x);
                                }
                                assert forall|x: slotmap::DefaultKey|
                                    #![trigger self.enemies_hit@.contains(x)]
                                    self.enemies_hit@.contains(x) == (hit_before.contains(x) || x
                                        == k) by {
                                    lemma_contains_push(hit_before, k, x);
                                }
                                // the processed prefix keeps its trichotomy
                                assert forall|j: int|
                                    0 <= j <= i implies (self.enemies_hit@.contains(
                                    #[trigger] keys@[j],
                                ) || !m1.dom().contains(keys@[j]) || !exact_overlap(
                                    p0,
                                    m1[keys@[j]],
                                )) by {
                                    let x = keys@[j];
                                    if x == k {
                                        assert(self.enemies_hit@.contains(k));
                                    } else {
                                        assert(j < i);
                                        if hit_before.contains(x) {
                                            lemma_contains_push(hit_before, k, x);
                                        } else if view_pre.dom().contains(x) {
                                            assert(m1[x] == view_pre[x]);
                                        }
                                    }
                                }
                            }
                        } else {
                            proof {
                                assert(!exact_overlap(p0, enemy_pool_view(*enemies)[k])) by {
                                    assert(p0.object == self.object);
                                    assert(enemy == enemy_pool_view(*enemies)[k]);
                                };
                            }
                        }
                    },
                    None => {},
                }
            }
            i = i + 1;
        }
        proof {
            // every surviving key was processed, so completeness follows
            // from the loop's trichotomy
            assert forall|k: slotmap::DefaultKey|
                #![trigger enemy_pool_view(*enemies).dom().contains(k)]
                enemy_pool_view(*enemies).dom().contains(k) && !self.enemies_hit@.contains(
                    k,
                ) implies !exact_overlap(p0, enemy_pool_view(*enemies)[k]) by {
                assert(m0.dom().contains(k));
                assert(keys@.contains(k));
                let j = choose|j: int| 0 <= j < keys@.len() && keys@[j] == k;
            }
        }
    }

    /// Keep a recorded contact only while its enemy is still alive in the
    /// pool and still overlaps the widened hitbox.
    fn prune_colliding(&mut self, enemies: &EnemyPool)
        requires
            projectile_wf(*old(self)),
            pool_all_live(*enemies),
        ensures
            projectile_wf(*final(self)),
            (*final(self) == Projectile {
                enemies_colliding: final(self).enemies_colliding,
                ..*old(self)
            }),
            forall|k: slotmap::DefaultKey|
                #![trigger final(self).enemies_colliding@.contains(k)]
                final(self).enemies_colliding@.contains(k) ==> enemy_pool_view(
                    *enemies,
                ).dom().contains(k) && enemy_pool_view(*enemies)[k].health > 0 && widened_overlap(
                    *final(self),
                    enemy_pool_view(*enemies)[k],
                ),
            (forall|k: slotmap::DefaultKey|
                #![trigger old(self).enemies_colliding@.contains(k)]
                old(self).enemies_colliding@.contains(k) ==> enemy_pool_view(
                    *enemies,
                ).dom().contains(k) && enemy_pool_view(*enemies)[k].health > 0 && widened_overlap(
                    *old(self),
                    enemy_pool_view(*enemies)[k],
                )) ==> final(self).enemies_colliding@ == old(self).enemies_colliding@,
            // retention: a recorded contact whose enemy is still alive and
            // still overlaps is kept
            forall|k: slotmap::DefaultKey|
                #![trigger old(self).enemies_colliding@.contains(k)]
                old(self).enemies_colliding@.contains(k) && enemy_pool_view(
                    *enemies,
                ).dom().contains(k) && enemy_pool_view(*enemies)[k].health > 0 && widened_overlap(
                    *old(self),
                    enemy_pool_view(*enemies)[k],
                ) ==> final(self).enemies_colliding@.contains(k),
    {
        let ghost orig = self.enemies_colliding@;
        let mut kept: Vec<slotmap::DefaultKey> = Vec::new();
        let mut i: usize = 0;
        while i < self.enemies_colliding.len()
            invariant
                projectile_wf(*self),
                (*self == Projectile { enemies_colliding: self.enemies_colliding, ..*old(self) }),
                self.enemies_colliding@ == orig,
                pool_all_live(*enemies),
                i <= orig.len(),
                forall|j: int|
                    0 <= j < kept@.len() ==> enemy_pool_view(*enemies).dom().contains(
                        #[trigger] kept@[j],
                    ) && enemy_pool_view(*enemies)[kept@[j]].health > 0 && widened_overlap(
                        *self,
                        enemy_pool_view(*enemies)[kept@[j]],
                    ),
                forall|j: int|
                    0 <= j < i && enemy_pool_view(*enemies).dom().contains(#[trigger] orig[j])
                        && enemy_pool_view(*enemies)[orig[j]].health > 0 && widened_overlap(
                        *self,
                        enemy_pool_view(*enemies)[orig[j]],
                    ) ==> kept@.contains(orig[j]),
                (forall|k: slotmap::DefaultKey|
                    #![trigger orig.contains(k)]
                    orig.contains(k) ==> enemy_pool_view(*enemies).dom().contains(k)
                        && enemy_pool_view(*enemies)[k].health > 0 && widened_overlap(
                        *self,
                        enemy_pool_view(*enemies)[k],
                    )) ==> kept@ =~= orig.take(i as int),
            decreases orig.len() - i,
        {
            let k: slotmap::DefaultKey = self.enemies_colliding[i];
            proof {
                assert(orig.contains(k)) by {
                    assert(orig[i as int] == k);
                }
            }
            let ghost kept_before = kept@;
            let found: Option<Enemy> = enemies.get(k);
            match found {
                Some(enemy) => {
                    if enemy.health > 0 && self.widened_test(&enemy) {
                        kept.push(k);
                    }
                },
                None => {},
            }
            proof {
                assert forall|j: int|
                    0 <= j <= i && enemy_pool_view(*enemies).dom().contains(#[trigger] orig[j])
                        && enemy_pool_view(*enemies)[orig[j]].health > 0 && widened_overlap(
                        *self,
                        enemy_pool_view(*enemies)[orig[j]],
                    ) implies kept@.contains(orig[j]) by {
                    if j == i {
                        assert(kept@ == kept_before.push(k));
                        lemma_contains_push(kept_before, k, k);
                    } else {
                        assert(kept_before.contains(orig[j]));
                        if kept@ == kept_before.push(k) {
                            lemma_contains_push(kept_before, k, orig[j]);
                        }
                    }
                }
                if forall|k2: slotmap::DefaultKey|
                    #![trigger orig.contains(k2)]
                    orig.contains(k2) ==> enemy_pool_view(*enemies).dom().contains(k2)
                        && enemy_pool_view(*enemies)[k2].health > 0 && widened_overlap(
                        *self,
                        enemy_pool_view(*enemies)[k2],
                    ) {
                    assert(enemy_pool_view(*enemies).dom().contains(k) && enemy_pool_view(
                        *enemies,
                    )[k].health > 0 && widened_overlap(*self, enemy_pool_view(*enemies)[k]));
                    assert(kept@ == kept_before.push(k));
                    assert(kept_before =~= orig.take(i as int));
                    assert(kept@ =~= orig.take(i as int + 1));
                }
            }
            i = i + 1;
        }
        proof {
            if forall|k: slotmap::DefaultKey|
                #![trigger orig.contains(k)]
                orig.contains(k) ==> enemy_pool_view(*enemies).dom().contains(k)
                    && enemy_pool_view(*enemies)[k].health > 0 && widened_overlap(
                    *self,
                    enemy_pool_view(*enemies)[k],
                ) {
                assert(kept@ =~= orig.take(orig.len() as int));
                assert(orig.take(orig.len() as int) =~= orig);
                assert(kept@ == orig);
            }
            assert forall|k: slotmap::DefaultKey| #[trigger]
                kept@.contains(k) implies enemy_pool_view(*enemies).dom().contains(k)
                && enemy_pool_view(*enemies)[k].health > 0 && widened_overlap(
                *self,
                enemy_pool_view(*enemies)[k],
            ) by {
                let j = choose|j: int| 0 <= j < kept@.len() && kept@[j] == k;
            }
            assert forall|k: slotmap::DefaultKey|
                #![trigger orig.contains(k)]
                orig.contains(k) && enemy_pool_view(*enemies).dom().contains(k)
                    && enemy_pool_view(*enemies)[k].health > 0 && widened_overlap(
                    *self,
                    enemy_pool_view(*enemies)[k],
                ) implies kept@.contains(k) by {
                let j = choose|j: int| 0 <= j < orig.len() && orig[j] == k;
            }
        }
        self.enemies_colliding = kept;
    }

    /// Keep an intersection record only while its enemy is still alive
    /// and still overlaps the exact hitbox.
    fn prune_intersecting(&mut self, enemies: &EnemyPool)
        requires
            projectile_wf(*old(self)),
            pool_all_live(*enemies),
        ensures
            projectile_wf(*final(self)),
            (*final(self) == Projectile {
                enemies_intersecting: final(self).enemies_intersecting,
                ..*old(self)
            }),
            forall|k: slotmap::DefaultKey|
                #![trigger final(self).enemies_intersecting@.contains(k)]
                final(self).enemies_intersecting@.contains(k) ==> enemy_pool_view(
                    *enemies,
                ).dom().contains(k) && enemy_pool_view(*enemies)[k].health > 0 && exact_overlap(
                    *final(self),
                    enemy_pool_view(*enemies)[k],
                ),
            (forall|k: slotmap::DefaultKey|
                #![trigger old(self).enemies_intersecting@.contains(k)]
                old(self).enemies_intersecting@.contains(k) ==> enemy_pool_view(
                    *enemies,
                ).dom().contains(k) && enemy_pool_view(*enemies)[k].health > 0 && exact_overlap(
                    *old(self),
                    enemy_pool_view(*enemies)[k],
                )) ==> final(self).enemies_intersecting@ == old(self).enemies_intersecting@,
            // retention: a recorded intersection whose enemy is still
            // alive and still overlaps is kept
            forall|k: slotmap::DefaultKey|
                #![trigger old(self).enemies_intersecting@.contains(k)]
                old(self).enemies_intersecting@.contains(k) && enemy_pool_view(
                    *enemies,
                ).dom().contains(k) && enemy_pool_view(*enemies)[k].health > 0 && exact_overlap(
                    *old(self),
                    enemy_pool_view(*enemies)[k],
                ) ==> final(self).enemies_intersecting@.contains(k),
            // and nothing new enters the set
            forall|k: slotmap::DefaultKey|
                #![trigger final(self).enemies_intersecting@.contains(k)]
                final(self).enemies_intersecting@.contains(k) ==> old(self).enemies_intersecting@.contains(k),
    {
        let ghost orig = self.enemies_intersecting@;
        let mut kept: Vec<slotmap::DefaultKey> = Vec::new();
        let mut i: usize = 0;
        while i < self.enemies_intersecting.len()
            invariant
                projectile_wf(*self),
                (*self == Projectile {
                    enemies_intersecting: self.enemies_intersecting,
                    ..*old(self)
                }),
                self.enemies_intersecting@ == orig,
                pool_all_live(*enemies),
                i <= orig.len(),
                forall|j: int|
                    0 <= j < kept@.len() ==> enemy_pool_view(*enemies).dom().contains(
                        #[trigger] kept@[j],
                    ) && enemy_pool_view(*enemies)[kept@[j]].health > 0 && exact_overlap(
                        *self,
                        enemy_pool_view(*enemies)[kept@[j]],
                    ),
                forall|j: int| 0 <= j < kept@.len() ==> orig.contains(#[trigger] kept@[j]),
                forall|j: int|
                    0 <= j < i && enemy_pool_view(*enemies).dom().contains(#[trigger] orig[j])
                        && enemy_pool_view(*enemies)[orig[j]].health > 0 && exact_overlap(
                        *self,
                        enemy_pool_view(*enemies)[orig[j]],
                    ) ==> kept@.contains(orig[j]),
                (forall|k: slotmap::DefaultKey|
                    #![trigger orig.contains(k)]
                    orig.contains(k) ==> enemy_pool_view(*enemies).dom().contains(k)
                        && enemy_pool_view(*enemies)[k].health > 0 && exact_overlap(
                        *self,
                        enemy_pool_view(*enemies)[k],
                    )) ==> kept@ =~= orig.take(i as int),
            decreases orig.len() - i,
        {
            let k: slotmap::DefaultKey = self.enemies_intersecting[i];
            proof {
                assert(orig.contains(k)) by {
                    assert(orig[i as int] == k);
                }
            }
            let ghost kept_before = kept@;
            let found: Option<Enemy> = enemies.get(k);
            match found {
                Some(enemy) => {
                    if enemy.health > 0 && self.object.is_colliding(&enemy.object) {
                        kept.push(k);
                    }
                },
                None => {},
            }
            proof {
                assert forall|j: int|
                    0 <= j <= i && enemy_pool_view(*enemies).dom().contains(#[trigger] orig[j])
                        && enemy_pool_view(*enemies)[orig[j]].health > 0 && exact_overlap(
                        *self,
                        enemy_pool_view(*enemies)[orig[j]],
                    ) implies kept@.contains(orig[j]) by {
                    if j == i {
                        assert(kept@ == kept_before.push(k));
                        lemma_contains_push(kept_before, k, k);
                    } else {
                        assert(kept_before.contains(orig[j]));
                        if kept@ == kept_before.push(k) {
                            lemma_contains_push(kept_before, k, orig[j]);
                        }
                    }
                }
                if forall|k2: slotmap::DefaultKey|
                    #![trigger orig.contains(k2)]
                    orig.contains(k2) ==> enemy_pool_view(*enemies).dom().contains(k2)
                        && enemy_pool_view(*enemies)[k2].health > 0 && exact_overlap(
                        *self,
                        enemy_pool_view(*enemies)[k2],
                    ) {
                    assert(enemy_pool_view(*enemies).dom().contains(k) && enemy_pool_view(
                        *enemies,
                    )[k].health > 0 && exact_overlap(*self, enemy_pool_view(*enemies)[k]));
                    assert(kept@ == kept_before.push(k));
                    assert(kept_before =~= orig.take(i as int));
                    assert(kept@ =~= orig.take(i as int + 1));
                }
            }
            i = i + 1;
        }
        proof {
            if forall|k: slotmap::DefaultKey|
                #![trigger orig.contains(k)]
                orig.contains(k) ==> enemy_pool_view(*enemies).dom().contains(k)
                    && enemy_pool_view(*enemies)[k].health > 0 && exact_overlap(
                    *self,
                    enemy_pool_view(*enemies)[k],
                ) {
                assert(kept@ =~= orig.take(orig.len() as int));
                assert(orig.take(orig.len() as int) =~= orig);
                assert(kept@ == orig);
            }
            assert forall|k: slotmap::DefaultKey| #[trigger]
                kept@.contains(k) implies enemy_pool_view(*enemies).dom().contains(k)
                && enemy_pool_view(*enemies)[k].health > 0 && exact_overlap(
                *self,
                enemy_pool_view(*enemies)[k],
            ) && orig.contains(k) by {
                let j = choose|j: int| 0 <= j < kept@.len() && kept@[j] == k;
            }
            assert forall|k: slotmap::DefaultKey|
                #![trigger orig.contains(k)]
                orig.contains(k) && enemy_pool_view(*enemies).dom().contains(k)
                    && enemy_pool_view(*enemies)[k].health > 0 && exact_overlap(
                    *self,
                    enemy_pool_view(*enemies)[k],
                ) implies kept@.contains(k) by {
                let j = choose|j: int| 0 <= j < orig.len() && orig[j] == k;
            }
        }
        self.enemies_intersecting = kept;
    }
}

/// Everything one integration sub-step establishes between its entry
/// state (p0, m0) and its exit state (p1, m1): the projectile advances
/// one step of sub_dt at the contact-scaled velocity decided on entry;
/// every surviving enemy the projectile has not hit is clear of the exact
/// hitbox at the new position (completeness); every enemy newly hit was
/// alive and overlapped the exact hitbox there (soundness), lost exactly
/// the projectile's damage or left the pool, and is recorded in both
/// contact sets while it survives; the collision timer resets exactly on
/// a fresh strike; and both contact sets name only live overlapped
/// enemies, the exact set nested in the widened one.
pub open spec fn substep_rel(
    p0: Projectile,
    p1: Projectile,
    m0: Map<slotmap::DefaultKey, Enemy>,
    m1: Map<slotmap::DefaultKey, Enemy>,
    sub_dt: int,
) -> bool {
    &&& tick_rel(p0, p1, m0, m1)
    &&& p1.object.shape == p0.object.shape
    &&& p1.object.transform.angular_velocity == p0.object.transform.angular_velocity
    &&& p1.object.transform.linear_velocity == expected_velocity(p0)
    &&& p1.object.transform.position == crate::object::ticked_pose(
        Transform {
            position: p0.object.transform.position,
            linear_velocity: expected_velocity(p0),
            angular_velocity: p0.object.transform.angular_velocity,
        },
        sub_dt,
    )
    &&& forall|k: slotmap::DefaultKey|
        #![trigger m1.dom().contains(k)]
        m1.dom().contains(k) && !p1.enemies_hit@.contains(k) ==> !exact_overlap(p1, m1[k])
    &&& forall|k: slotmap::DefaultKey|
        #![trigger p1.enemies_hit@.contains(k)]
        p1.enemies_hit@.contains(k) && !p0.enemies_hit@.contains(k) ==> m0.dom().contains(k)
            && m0[k].health > 0 && exact_overlap(p1, m0[k])
    &&& forall|k: slotmap::DefaultKey|
        #![trigger p1.enemies_hit@.contains(k), m1.dom().contains(k)]
        p1.enemies_hit@.contains(k) && !p0.enemies_hit@.contains(k) && m1.dom().contains(k)
            ==> p1.enemies_colliding@.contains(k) && p1.enemies_intersecting@.contains(k)
    &&& p1.enemies_hit@.len() > p0.enemies_hit@.len() ==> p1.time_since_collision == 0
    &&& p1.enemies_hit@.len() == p0.enemies_hit@.len() ==> p1.time_since_collision
        == fx::cap_time_spec(p0.time_since_collision + sub_dt)
    &&& p1.time_since_exit == if p1.enemies_colliding@.len() == 0 {
        fx::cap_time_spec(p0.time_since_exit + sub_dt)
    } else {
        0int
    }
    &&& contacts_valid(p1, m1)
    &&& contacts_nested(p1)
}

impl Projectile {
    /// One integration sub-step: move at the contact-scaled speed, emit
    /// due trail particles, strike newly overlapped enemies, and prune
    /// both contact sets. A zero-length sub-step from a settled state
    /// changes nothing at all.
    fn substep(
        &mut self,
        enemies: &mut EnemyPool,
        particles: &mut Vec<Particle>,
        store: &mut TextureStore,
        rng: &mut Rng,
        sub_dt: i64,
    )
        requires
            projectile_wf(*old(self)),
            contacts_nested(*old(self)),
            pool_all_live(*old(enemies)),
            pool_textures_ok(enemy_pool_view(*old(enemies)), *old(store)),
            store_wf(*old(store)),
            forall|i: int|
                0 <= i < old(particles)@.len() ==> particle_wf(#[trigger] old(particles)@[i]),
            0 <= sub_dt <= fx::FX_LIM,
        ensures
            projectile_wf(*final(self)),
            pool_all_live(*final(enemies)),
            pool_textures_ok(enemy_pool_view(*final(enemies)), *final(store)),
            store_wf(*final(store)),
            final(store).entries@.len() >= old(store).entries@.len(),
            forall|i: int|
                0 <= i < old(store).entries@.len() ==> final(store).entries@[i] == old(
                    store,
                ).entries@[i],
            forall|i: int|
                0 <= i < final(particles)@.len() ==> particle_wf(#[trigger] final(particles)@[i]),
            forall|i: int|
                0 <= i < old(particles)@.len() ==> final(particles)@[i] == old(particles)@[i],
            final(particles)@.len() >= old(particles)@.len(),
            substep_rel(
                *old(self),
                *final(self),
                enemy_pool_view(*old(enemies)),
                enemy_pool_view(*final(enemies)),
                sub_dt as int,
            ),
            (sub_dt == 0 && tick_settled(*old(self), enemy_pool_view(*old(enemies)))) ==> (
            proj_obs_eq(*final(self), *old(self)) && *final(enemies) == *old(enemies)
                && final(particles)@ == old(particles)@ && *final(store) == *old(store)
                && *final(rng) == *old(rng)),
    {
        let ghost p0 = *old(self);
        let ghost m0 = enemy_pool_view(*old(enemies));
        let ghost settled0 = tick_settled(p0, m0) && sub_dt == 0;
        // Motion at the contact-scaled speed.
        let mult: i64 = if self.enemies_colliding.len() == 0 {
            SCALE
        } else {
            COLLISION_SPEED_MULTIPLIER
        };
        let speed: i64 = fx::mul_fx(self.properties.speed, mult);
        let vel: Vec2 = rot_apply(self.direction, Vec2 { x: speed, y: 0 });
        proof {
            assert(vel == expected_velocity(p0));
        }
        self.object.transform.linear_velocity = vel;
        self.object.transform.tick(sub_dt);
        let ghost obj_m = self.object;
        // Trail emission.
        let travel: i64 = fx::mul_fx(speed, sub_dt);
        proof {
            if sub_dt == 0 {
                fx::lemma_mul_fx_by_zero(speed as int);
            }
        }
        self.distance_since_particle = fx::add_fx(self.distance_since_particle, travel);
        let pd: i64 = self.properties.particle_distance;
        while self.distance_since_particle >= pd
            invariant
                pd == self.properties.particle_distance,
                projectile_properties_wf(self.properties),
                pose_wf(self.object.transform.position),
                0 <= self.distance_since_particle,
                fx::in_range(self.distance_since_particle),
                object_wf(self.object),
                rot_wf(self.direction),
                self.enemies_hit@.no_duplicates(),
                0 <= self.time_since_collision <= fx::FX_LIM,
                0 <= self.time_since_exit <= fx::FX_LIM,
                self.object == obj_m,
                self.object.shape == p0.object.shape,
                self.properties == p0.properties,
                self.direction == p0.direction,
                self.enemies_hit@ == p0.enemies_hit@,
                self.enemies_colliding@ == p0.enemies_colliding@,
                self.enemies_intersecting@ == p0.enemies_intersecting@,
                self.time_since_collision == p0.time_since_collision,
                self.time_since_exit == p0.time_since_exit,
                forall|i: int|
                    0 <= i < particles@.len() ==> particle_wf(#[trigger] particles@[i]),
                forall|i: int|
                    0 <= i < old(particles)@.len() ==> particles@[i] == old(particles)@[i],
                particles@.len() >= old(particles)@.len(),
                settled0 ==> (particles@ == old(particles)@ && *rng == *old(rng)
                    && self.distance_since_particle < pd && self.object == p0.object
                    && self.distance_since_particle == p0.distance_since_particle),
            decreases self.distance_since_particle,
        {
            proof {
                if settled0 {
                    assert(false);
                }
            }
            self.distance_since_particle = self.distance_since_particle - pd;
            let back: i64 = self.properties.distance_to_back();
            let off: i64 = fx::sub_fx(100, fx::add_fx(back, self.distance_since_particle));
            let pose: Pose = self.position_of_particle(off, rng);
            let glitter: usize = rng.range_usize(0, 2);
            particles.push(
                Particle {
                    transform: Transform {
                        position: pose,
                        linear_velocity: Vec2 { x: 0, y: 0 },
                        angular_velocity: 0,
                    },
                    target_position: None,
                    time_since_creation: 0,
                    maximum_lifetime: 667,
                    texture: glitter,
                    start: None,
                    size: crate::pixels::PixelDims { w: 2, h: 2 },
                },
            );
        }
        // Contact tracking.
        self.time_since_collision = fx::add_time(self.time_since_collision, sub_dt);
        proof {
            if settled0 {
                assert(proj_obs_eq(*self, p0));
                let m = enemy_pool_view(*enemies);
                assert(m == m0);
                assert forall|k: slotmap::DefaultKey|
                    #![trigger m.dom().contains(k)]
                    m.dom().contains(k) && !self.enemies_hit@.contains(k) implies !exact_overlap(
                    *self,
                    m[k],
                ) by {
                    assert(!exact_overlap(p0, m0[k]));
                }
                assert forall|k: slotmap::DefaultKey|
                    #![trigger self.enemies_colliding@.contains(k)]
                    self.enemies_colliding@.contains(k) implies m.dom().contains(k) && m[k].health
                    > 0 && widened_overlap(*self, m[k]) by {
                    assert(p0.enemies_colliding@.contains(k));
                    assert(widened_overlap(p0, m0[k]));
                }
                assert forall|k: slotmap::DefaultKey|
                    #![trigger self.enemies_intersecting@.contains(k)]
                    self.enemies_intersecting@.contains(k) implies m.dom().contains(k)
                    && m[k].health > 0 && exact_overlap(*self, m[k]) by {
                    assert(p0.enemies_intersecting@.contains(k));
                    assert(exact_overlap(p0, m0[k]));
                }
                assert(tick_settled(*self, m));
            }
        }
        let ghost p_pre = *self;
        self.strike_enemies(enemies, particles, store, rng);
        let ghost p_as = *self;
        proof {
            if settled0 {
                assert(proj_obs_eq(*self, p0));
                let m = enemy_pool_view(*enemies);
                assert(m == m0);
                assert forall|k: slotmap::DefaultKey|
                    #![trigger self.enemies_colliding@.contains(k)]
                    self.enemies_colliding@.contains(k) implies m.dom().contains(k) && m[k].health
                    > 0 && widened_overlap(*self, m[k]) by {
                    assert(p0.enemies_colliding@.contains(k));
                    assert(widened_overlap(p0, m0[k]));
                }
            }
        }
        self.prune_colliding(enemies);
        let ghost p_pc = *self;
        proof {
            if settled0 {
                assert(proj_obs_eq(*self, p0));
                let m = enemy_pool_view(*enemies);
                assert(m == m0);
                assert forall|k: slotmap::DefaultKey|
                    #![trigger self.enemies_intersecting@.contains(k)]
                    self.enemies_intersecting@.contains(k) implies m.dom().contains(k)
                    && m[k].health > 0 && exact_overlap(*self, m[k]) by {
                    assert(p0.enemies_intersecting@.contains(k));
                    assert(exact_overlap(p0, m0[k]));
                }
            }
        }
        self.prune_intersecting(enemies);
        if self.enemies_colliding.len() == 0 {
            self.time_since_exit = fx::add_time(self.time_since_exit, sub_dt);
        } else {
            self.time_since_exit = 0;
        }
        proof {
            if settled0 {
                assert(proj_obs_eq(*self, p0));
            }
            let p1 = *self;
            let m1 = enemy_pool_view(*enemies);
            assert(p1.object == obj_m);
            assert(tick_rel(p0, p1, m0, m1));
            // completeness carries from the sweep: the pool, the hit list
            // and the pose are untouched by the prunes
            assert forall|k: slotmap::DefaultKey|
                #![trigger m1.dom().contains(k)]
                m1.dom().contains(k) && !p1.enemies_hit@.contains(k) implies !exact_overlap(
                p1,
                m1[k],
            ) by {
                assert(!exact_overlap(p_pre, m1[k]));
                assert(p_pre.object == p1.object);
            }
            // soundness likewise
            assert forall|k: slotmap::DefaultKey|
                #![trigger p1.enemies_hit@.contains(k)]
                p1.enemies_hit@.contains(k) && !p0.enemies_hit@.contains(k) implies m0.dom().contains(
                k,
            ) && m0[k].health > 0 && exact_overlap(p1, m0[k]) by {
                assert(p_as.enemies_hit@.contains(k));
                assert(exact_overlap(p_pre, m0[k]));
                assert(p_pre.object == p1.object);
            }
            // a surviving fresh strike stays recorded through both prunes
            assert forall|k: slotmap::DefaultKey|
                #![trigger p1.enemies_hit@.contains(k), m1.dom().contains(k)]
                p1.enemies_hit@.contains(k) && !p0.enemies_hit@.contains(k) && m1.dom().contains(
                    k,
                ) implies p1.enemies_colliding@.contains(k) && p1.enemies_intersecting@.contains(
                k,
            ) by {
                assert(p_as.enemies_hit@.contains(k));
                assert(p_as.enemies_colliding@.contains(k));
                assert(p_as.enemies_intersecting@.contains(k));
                assert(exact_overlap(p_pre, m0[k]));
                assert(m1[k].object == m0[k].object);
                assert(exact_overlap(p_as, m1[k]));
                lemma_exact_implies_widened(p_as, m1[k]);
                assert(widened_overlap(p_as, m1[k]));
                assert(p_pc.enemies_colliding@.contains(k));
                assert(p_pc.enemies_intersecting@.contains(k));
                assert(exact_overlap(p_pc, m1[k]));
                assert(p1.enemies_intersecting@.contains(k));
                assert(p1.enemies_colliding@ == p_pc.enemies_colliding@);
            }
            // the exact contact set stays nested in the widened one
            assert forall|k: slotmap::DefaultKey|
                #![trigger p1.enemies_intersecting@.contains(k)]
                p1.enemies_intersecting@.contains(k) implies p1.enemies_colliding@.contains(
                k,
            ) by {
                assert(m1.dom().contains(k) && m1[k].health > 0 && exact_overlap(p_pc, m1[k]));
                assert(p_pc.enemies_intersecting@.contains(k));
                assert(p_as.enemies_intersecting@.contains(k));
                if p0.enemies_intersecting@.contains(k) {
                    assert(p0.enemies_colliding@.contains(k));
                    assert(p_as.enemies_colliding@.contains(k));
                } else {
                    assert(p_as.enemies_hit@.contains(k) && !p0.enemies_hit@.contains(k));
                    assert(p_as.enemies_colliding@.contains(k));
                }
                assert(exact_overlap(p_as, m1[k]));
                lemma_exact_implies_widened(p_as, m1[k]);
                assert(p_pc.enemies_colliding@.contains(k));
                assert(p1.enemies_colliding@ == p_pc.enemies_colliding@);
            }
            // both contact sets name only live overlapped enemies
            assert forall|k: slotmap::DefaultKey|
                #![trigger p1.enemies_colliding@.contains(k)]
                p1.enemies_colliding@.contains(k) implies m1.dom().contains(k) && m1[k].health > 0
                && widened_overlap(p1, m1[k]) by {
                assert(p_pc.enemies_colliding@.contains(k));
                assert(widened_overlap(p_pc, m1[k]));
                assert(p_pc.object == p1.object);
            }
            assert forall|k: slotmap::DefaultKey|
                #![trigger p1.enemies_intersecting@.contains(k)]
                p1.enemies_intersecting@.contains(k) implies m1.dom().contains(k) && m1[k].health
                > 0 && exact_overlap(p1, m1[k]) by {
                assert(exact_overlap(p_pc, m1[k]));
                assert(p_pc.object == p1.object);
            }
            assert(substep_rel(p0, p1, m0, m1, sub_dt as int));
        }
    }
}

/// Field-wise equality of projectiles, comparing the id lists by content.
pub open spec fn proj_obs_eq(a: Projectile, b: Projectile) -> bool {
    &&& a.object == b.object
    &&& a.direction == b.direction
    &&& a.properties == b.properties
    &&& a.enemies_colliding@ == b.enemies_colliding@
    &&& a.enemies_intersecting@ == b.enemies_intersecting@
    &&& a.enemies_hit@ == b.enemies_hit@
    &&& a.time_since_collision == b.time_since_collision
    &&& a.time_since_exit == b.time_since_exit
    &&& a.distance_since_particle == b.distance_since_particle
}

/// A settled state stays settled across an observably equal projectile.
proof fn lemma_settled_transfer(
    a: Projectile,
    b: Projectile,
    m: Map<slotmap::DefaultKey, Enemy>,
)
    requires
        proj_obs_eq(b, a),
        tick_settled(a, m),
    ensures
        tick_settled(b, m),
{
    assert forall|k: slotmap::DefaultKey|
        #![trigger m.dom().contains(k)]
        m.dom().contains(k) && !b.enemies_hit@.contains(k) implies !exact_overlap(b, m[k]) by {
        assert(!exact_overlap(a, m[k]));
    }
    assert forall|k: slotmap::DefaultKey|
        #![trigger b.enemies_colliding@.contains(k)]
        b.enemies_colliding@.contains(k) implies m.dom().contains(k) && m[k].health > 0
        && widened_overlap(b, m[k]) by {
        assert(a.enemies_colliding@.contains(k));
        assert(widened_overlap(a, m[k]));
    }
    assert forall|k: slotmap::DefaultKey|
        #![trigger b.enemies_intersecting@.contains(k)]
        b.enemies_intersecting@.contains(k) implies m.dom().contains(k) && m[k].health > 0
        && exact_overlap(b, m[k]) by {
        assert(a.enemies_intersecting@.contains(k));
        assert(exact_overlap(a, m[k]));
    }
}

/// The tick's sub-step chain: consecutive entries are either one
/// integration sub-step apart (substep_rel) or identical where the
/// projectile was already spent, so the remaining sub-steps of the frame
/// were skipped.
pub open spec fn tick_steps(
    chain: Seq<(Projectile, Map<slotmap::DefaultKey, Enemy>)>,
    sub_dt: int,
) -> bool {
    forall|i: int|
        0 <= i < chain.len() - 1 ==> if (#[trigger] chain[i]).0.should_delete_spec() {
            chain[i + 1] == chain[i]
        } else {
            substep_rel(chain[i].0, chain[i + 1].0, chain[i].1, chain[i + 1].1, sub_dt)
        }
}

impl Projectile {
    /// One full tick: unless already spent, run the tick's subticks equal
    /// sub-steps of dt divided by subticks in turn, stopping at once when
    /// the projectile becomes spent, so a blocking hit freezes it where
    /// the hit registered. The sub-step chain in the ensures pins each
    /// step's motion at the contact-scaled speed, that every overlapped
    /// live enemy not yet hit is struck that sub-step, and the contact
    /// bookkeeping. Ids accumulate in enemies_hit at most once each; a
    /// struck enemy at or below the damage is gone from the pool within
    /// the same tick, and one above it has lost exactly the damage. A
    /// zero-length tick from a settled state changes nothing.
    pub fn tick(
        &mut self,
        enemies: &mut EnemyPool,
        particles: &mut Vec<Particle>,
        store: &mut TextureStore,
        rng: &mut Rng,
        dt: i64,
    )
        requires
            projectile_wf(*old(self)),
            contacts_nested(*old(self)),
            pool_all_live(*old(enemies)),
            pool_textures_ok(enemy_pool_view(*old(enemies)), *old(store)),
            store_wf(*old(store)),
            forall|i: int|
                0 <= i < old(particles)@.len() ==> particle_wf(#[trigger] old(particles)@[i]),
            0 <= dt <= fx::FX_LIM,
        ensures
            projectile_wf(*final(self)),
            contacts_nested(*final(self)),
            pool_all_live(*final(enemies)),
            pool_textures_ok(enemy_pool_view(*final(enemies)), *final(store)),
            store_wf(*final(store)),
            final(store).entries@.len() >= old(store).entries@.len(),
            forall|i: int|
                0 <= i < old(store).entries@.len() ==> final(store).entries@[i] == old(
                    store,
                ).entries@[i],
            forall|i: int|
                0 <= i < final(particles)@.len() ==> particle_wf(#[trigger] final(particles)@[i]),
            forall|i: int|
                0 <= i < old(particles)@.len() ==> final(particles)@[i] == old(particles)@[i],
            final(particles)@.len() >= old(particles)@.len(),
            tick_rel(
                *old(self),
                *final(self),
                enemy_pool_view(*old(enemies)),
                enemy_pool_view(*final(enemies)),
            ),
            // the frame is exactly subticks sub-steps, skipped once spent
            exists|chain: Seq<(Projectile, Map<slotmap::DefaultKey, Enemy>)>|
                {
                    &&& chain.len() == old(self).properties.subticks + 1
                    &&& chain[0] == (*old(self), enemy_pool_view(*old(enemies)))
                    &&& chain[chain.len() - 1] == (*final(self), enemy_pool_view(*final(enemies)))
                    &&& #[trigger] tick_steps(
                        chain,
                        fx::div_trunc_spec(dt as int, old(self).properties.subticks as int),
                    )
                },
            old(self).should_delete_spec() ==> (proj_obs_eq(*final(self), *old(self))
                && *final(enemies) == *old(enemies) && final(particles)@ == old(particles)@
                && *final(store) == *old(store) && *final(rng) == *old(rng)),
            !old(self).should_delete_spec() ==> contacts_valid(
                *final(self),
                enemy_pool_view(*final(enemies)),
            ),
            (dt == 0 && tick_settled(*old(self), enemy_pool_view(*old(enemies)))) ==> (
            proj_obs_eq(*final(self), *old(self)) && *final(enemies) == *old(enemies)
                && final(particles)@ == old(particles)@ && *final(store) == *old(store)
                && *final(rng) == *old(rng)),
    {
        proof {
            lemma_tick_rel_refl(*old(self), enemy_pool_view(*old(enemies)));
        }
        let ghost m_in = enemy_pool_view(*old(enemies));
        let ghost sub_dt_spec = fx::div_trunc_spec(
            dt as int,
            old(self).properties.subticks as int,
        );
        if self.should_delete() {
            proof {
                // a spent projectile skips every sub-step of the frame
                let chain = Seq::new(
                    (old(self).properties.subticks + 1) as nat,
                    |i: int| (*old(self), m_in),
                );
                assert(chain[0] == (*old(self), m_in));
                assert(chain[chain.len() - 1] == (*old(self), m_in));
                assert forall|i: int| 0 <= i < chain.len() - 1 implies (if (
                #[trigger] chain[i]).0.should_delete_spec() {
                    chain[i + 1] == chain[i]
                } else {
                    substep_rel(chain[i].0, chain[i + 1].0, chain[i].1, chain[i + 1].1, sub_dt_spec)
                }) by {
                    assert(chain[i] == (*old(self), m_in));
                    assert(chain[i + 1] == (*old(self), m_in));
                }
                assert(tick_steps(chain, sub_dt_spec));
            }
            return;
        }
        let n: u32 = self.properties.subticks;
        let sub_dt: i64 = fx::div_trunc(dt, n as i64);
        proof {
            assert(sub_dt == sub_dt_spec);
            if dt == 0 {
                assert(fx::div_trunc_spec(0, n as int) == 0) by {
                    vstd::arithmetic::div_mod::lemma_div_of0(n as int);
                };
            }
        }
        let ghost mut chain: Seq<(Projectile, Map<slotmap::DefaultKey, Enemy>)> =
            Seq::empty().push((*old(self), m_in));
        let mut j: u32 = 0;
        while j < n
            invariant
                n == old(self).properties.subticks,
                1 <= n,
                j <= n,
                0 <= sub_dt <= fx::FX_LIM,
                sub_dt == sub_dt_spec,
                m_in == enemy_pool_view(*old(enemies)),
                dt == 0 ==> sub_dt == 0,
                projectile_wf(*self),
                contacts_nested(*self),
                pool_all_live(*enemies),
                pool_textures_ok(enemy_pool_view(*enemies), *store),
                store_wf(*store),
                store.entries@.len() >= old(store).entries@.len(),
                forall|i: int|
                    0 <= i < old(store).entries@.len() ==> store.entries@[i] == old(
                        store,
                    ).entries@[i],
                forall|i: int|
                    0 <= i < particles@.len() ==> particle_wf(#[trigger] particles@[i]),
                forall|i: int|
                    0 <= i < old(particles)@.len() ==> particles@[i] == old(particles)@[i],
                particles@.len() >= old(particles)@.len(),
                tick_rel(
                    *old(self),
                    *self,
                    enemy_pool_view(*old(enemies)),
                    enemy_pool_view(*enemies),
                ),
                chain.len() == j + 1,
                chain[0] == (*old(self), m_in),
                chain[chain.len() - 1] == (*self, enemy_pool_view(*enemies)),
                tick_steps(chain, sub_dt_spec),
                j > 0 ==> contacts_valid(*self, enemy_pool_view(*enemies)),
                j == 0 ==> (*self == *old(self) && *enemies == *old(enemies) && particles@ == old(
                    particles,
                )@ && *store == *old(store) && *rng == *old(rng)),
                !old(self).should_delete_spec(),
                (dt == 0 && tick_settled(*old(self), enemy_pool_view(*old(enemies)))) ==> (
                proj_obs_eq(*self, *old(self)) && *enemies == *old(enemies) && particles@ == old(
                    particles,
                )@ && *store == *old(store) && *rng == *old(rng)),
            decreases n - j,
        {
            let alive: bool = !self.should_delete();
            proof {
                if j == 0 {
                    assert(alive);
                }
            }
            let ghost chain_pre = chain;
            let ghost pmid = *self;
            let ghost mmid = enemy_pool_view(*enemies);
            if alive {
                proof {
                    if dt == 0 && tick_settled(*old(self), enemy_pool_view(*old(enemies))) {
                        if j == 0 {
                            assert(proj_obs_eq(*self, *old(self)));
                        }
                        lemma_settled_transfer(*old(self), *self, enemy_pool_view(*old(enemies)));
                        assert(tick_settled(*self, enemy_pool_view(*enemies)));
                    }
                }
                self.substep(enemies, particles, store, rng, sub_dt);
                proof {
                    lemma_tick_rel_trans(
                        *old(self),
                        pmid,
                        *self,
                        enemy_pool_view(*old(enemies)),
                        mmid,
                        enemy_pool_view(*enemies),
                    );
                }
            }
            proof {
                chain = chain.push((*self, enemy_pool_view(*enemies)));
                assert forall|i: int| 0 <= i < chain.len() - 1 implies (if (
                #[trigger] chain[i]).0.should_delete_spec() {
                    chain[i + 1] == chain[i]
                } else {
                    substep_rel(chain[i].0, chain[i + 1].0, chain[i].1, chain[i + 1].1, sub_dt_spec)
                }) by {
                    if i < chain.len() - 2 {
                        assert(chain[i] == chain_pre[i]);
                        assert(chain[i + 1] == chain_pre[i + 1]);
                    } else {
                        assert(chain[i] == (pmid, mmid));
                        assert(chain[i + 1] == (*self, enemy_pool_view(*enemies)));
                        if alive {
                            assert(substep_rel(
                                pmid,
                                *self,
                                mmid,
                                enemy_pool_view(*enemies),
                                sub_dt_spec,
                            ));
                        } else {
                            assert(pmid.should_delete_spec());
                            assert(*self == pmid && enemy_pool_view(*enemies) == mmid);
                        }
                    }
                }
                assert(tick_steps(chain, sub_dt_spec));
            }
            j = j + 1;
        }
        proof {
            assert(chain.len() == n + 1);
            assert(chain[chain.len() - 1] == (*self, enemy_pool_view(*enemies)));
            assert(tick_steps(chain, sub_dt_spec));
        }
    }
}

} // verus!
