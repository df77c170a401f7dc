use vstd::prelude::*;

use crate::fx;
use crate::fx::{FX_LIM, SCALE};
use crate::projectile::{Projectile, ProjectileKind, projectile_kind_wf, projectile_wf};
use crate::rng::Rng;
use crate::shape::{Shape, shape_wf};
use crate::space::{Pose, Rot, Vec2, clamp_rot_spec, pose_wf, rot_apply, rot_wf, vec2_in_range};

verus! {

/// How long a shot stays buffered before it lapses.
pub const BUFFER_TIME: i64 = 167;

pub const PLATFORM_WIDTH: i64 = 400;

pub const RECHARGE_ANIMATION_LENGTH: i64 = 500;

pub const BARREL_LENGTH: i64 = 1000;

pub const BARREL_SHOOT_OFFSET: i64 = 500;

/// Buffered fire input: a press stays pending for a short grace window.
#[derive(Clone, Copy, Debug, PartialEq, Eq, Structural)]
pub struct PlayerInput {
    pub shoot: bool,
    pub time_since_press: i64,
}

pub open spec fn player_input_wf(p: PlayerInput) -> bool {
    0 <= p.time_since_press <= FX_LIM
}

/// The buffer state after one input sample: a press arms the buffered
/// shot and restarts the grace window; otherwise the buffer ages by dt
/// and stays armed only while within the window.
pub open spec fn input_ticked(p: PlayerInput, dt: int, pressed: bool) -> PlayerInput {
    if pressed {
        PlayerInput { shoot: true, time_since_press: 0 }
    } else {
        let t = fx::cap_time_spec(p.time_since_press + dt);
        PlayerInput { shoot: p.shoot && t <= BUFFER_TIME, time_since_press: t as i64 }
    }
}

impl PlayerInput {
    pub fn new() -> (r: PlayerInput)
        ensures
            player_input_wf(r),
            !r.shoot,
    {
        PlayerInput { shoot: false, time_since_press: 0 }
    }

    /// Register the sampled input state: a press arms the buffered shot;
    /// otherwise the buffer ages and lapses after the grace window.
    pub fn tick(&mut self, dt: i64, pressed: bool)
        requires
            player_input_wf(*old(self)),
            0 <= dt <= FX_LIM,
        ensures
            player_input_wf(*final(self)),
            *final(self) == input_ticked(*old(self), dt as int, pressed),
    {
        if pressed {
            self.shoot = true;
            self.time_since_press = 0;
        } else {
            self.time_since_press = fx::add_time(self.time_since_press, dt);
            if self.time_since_press > BUFFER_TIME {
                self.shoot = false;
            }
        }
    }
}

/// What aiming returns: the target offset scaled onto the fixed-point
/// unit circle by its exact integer magnitude, or the unchanged facing
/// for a zero offset.
pub open spec fn aim_spec(current: Rot, offset: Vec2) -> Rot {
    if offset.x == 0 && offset.y == 0 {
        current
    } else {
        let n = fx::isqrt_spec(offset.x * offset.x + offset.y * offset.y);
        Rot {
            c: clamp_rot_spec(fx::clamp_spec(fx::div_trunc_spec(offset.x * SCALE, n))) as i64,
            s: clamp_rot_spec(fx::clamp_spec(fx::div_trunc_spec(offset.y * SCALE, n))) as i64,
        }
    }
}

/// The direction from the turret toward a target offset, as a fixed-point
/// rotation; a zero offset keeps the current facing.
pub fn aim_from_offset(current: Rot, offset: Vec2) -> (r: Rot)
    requires
        rot_wf(current),
        vec2_in_range(offset),
    ensures
        rot_wf(r),
        r == aim_spec(current, offset),
        offset.x == 0 && offset.y == 0 ==> r == current,
{
    if offset.x == 0 && offset.y == 0 {
        return current;
    }
    proof {
        assert(0 <= offset.x * offset.x <= 1000000000000000000int && 0 <= offset.y * offset.y
            <= 1000000000000000000int) by (nonlinear_arith)
            requires
                vec2_in_range(offset),
        ;
        assert((offset.x != 0 || offset.y != 0) ==> offset.x * offset.x + offset.y * offset.y
            >= 1) by (nonlinear_arith);
    }
    let m2: u128 = ((offset.x as i128) * (offset.x as i128) + (offset.y as i128) * (
    offset.y as i128)) as u128;
    if m2 > 0xffff_ffff_ffff_ffff {
        proof {
            // in-range offsets stay far below the 64-bit magnitude cap
            assert(false);
        }
        return current;
    }
    let norm: u64 = fx::isqrt_u64(m2 as u64);
    if norm == 0 {
        proof {
            // a nonzero offset has a nonzero magnitude
            assert((norm + 1) * (norm + 1) == 1) by (nonlinear_arith)
                requires
                    norm == 0u64,
            ;
            assert(false);
        }
        return current;
    }
    proof {
        assert(norm * norm <= 0xffff_ffff_ffff_ffffu64);
        assert(norm <= 0xffff_ffffu64) by (nonlinear_arith)
            requires
                norm * norm <= 0xffff_ffff_ffff_ffffu64,
        ;
    }
    let c: i64 = fx::clamp_fx(fx::div_trunc(offset.x * SCALE, norm as i64));
    let s: i64 = fx::clamp_fx(fx::div_trunc(offset.y * SCALE, norm as i64));
    let r = Rot { c: crate::space::clamp_rot(c), s: crate::space::clamp_rot(s) };
    proof {
        assert(norm as int == fx::isqrt_spec(offset.x * offset.x + offset.y * offset.y));
        assert(r == aim_spec(current, offset));
    }
    r
}

/// What easing returns: the facing's components blended toward the
/// target by the decayed fraction and rescaled onto the unit circle by
/// their exact integer magnitude; the unchanged facing where the blend
/// does not move, and the target where the blend cancels to zero.
pub open spec fn ease_spec(current: Rot, target: Rot, dt: int) -> Rot {
    let factor = fx::exp_decay_spec(0, SCALE as int, 20 * SCALE as int, dt);
    let c = fx::add_fx_spec(
        current.c as int,
        fx::mul_fx_spec(fx::add_fx_spec(target.c as int, -current.c as int), factor),
    );
    let s = fx::add_fx_spec(
        current.s as int,
        fx::mul_fx_spec(fx::add_fx_spec(target.s as int, -current.s as int), factor),
    );
    if c == current.c && s == current.s {
        current
    } else if c == 0 && s == 0 {
        target
    } else {
        let n = fx::isqrt_spec(c * c + s * s);
        Rot {
            c: clamp_rot_spec(fx::div_trunc_spec(c * SCALE, n)) as i64,
            s: clamp_rot_spec(fx::div_trunc_spec(s * SCALE, n)) as i64,
        }
    }
}

/// Ease the current facing toward a target rotation: blend the components
/// by the decayed fraction, then rescale back onto the unit circle. At
/// dt == 0 the facing does not move.
pub fn ease_rotation(current: Rot, target: Rot, dt: i64) -> (r: Rot)
    requires
        rot_wf(current),
        rot_wf(target),
        0 <= dt <= FX_LIM,
    ensures
        rot_wf(r),
        r == ease_spec(current, target, dt as int),
        dt == 0 ==> r == current,
{
    let factor: i64 = fx::exp_decay(0, SCALE, 20 * SCALE, dt);
    proof {
        if dt == 0 {
            fx::lemma_exp_decay_zero(0, SCALE as int, 20 * SCALE as int);
            assert(factor == 0);
        }
    }
    let dc: i64 = fx::sub_fx(target.c, current.c);
    let ds: i64 = fx::sub_fx(target.s, current.s);
    proof {
        if dt == 0 {
            fx::lemma_mul_fx_by_zero(dc as int);
            fx::lemma_mul_fx_by_zero(ds as int);
        }
    }
    proof {
        assert(fx::abs_spec(dc as int * factor as int) <= 2000 * 1000) by (nonlinear_arith)
            requires
                -2000 <= dc <= 2000,
                0 <= factor <= 1000,
        ;
        fx::lemma_div_trunc_bound(dc as int * factor as int, 1000, 2000);
        assert(fx::abs_spec(ds as int * factor as int) <= 2000 * 1000) by (nonlinear_arith)
            requires
                -2000 <= ds <= 2000,
                0 <= factor <= 1000,
        ;
        fx::lemma_div_trunc_bound(ds as int * factor as int, 1000, 2000);
    }
    let c: i64 = fx::add_fx(current.c, fx::mul_fx(dc, factor));
    let s: i64 = fx::add_fx(current.s, fx::mul_fx(ds, factor));
    proof {
        if dt == 0 {
            assert(c == current.c && s == current.s);
        }
        assert(-3000 <= c <= 3000 && -3000 <= s <= 3000);
        assert(0 <= c * c <= 9000000int && 0 <= s * s <= 9000000int && c * c + s * s
            <= 18000000int) by (nonlinear_arith)
            requires
                -3000 <= c <= 3000,
                -3000 <= s <= 3000,
        ;
    }
    if c == current.c && s == current.s {
        return current;
    }
    let m2: u64 = ((c * c) + (s * s)) as u64;
    let norm: u64 = fx::isqrt_u64(m2);
    if norm == 0 {
        proof {
            // a zero magnitude means the blend cancelled both components
            assert((norm + 1) * (norm + 1) == 1) by (nonlinear_arith)
                requires
                    norm == 0u64,
            ;
            assert(c == 0 && s == 0) by (nonlinear_arith)
                requires
                    c * c + s * s == 0,
            ;
        }
        return target;
    }
    proof {
        assert(norm * norm <= 18000000);
        assert(norm <= 18000000) by (nonlinear_arith)
            requires
                norm * norm <= 18000000u64,
        ;
    }
    let rc: i64 = fx::div_trunc(c * SCALE, norm as i64);
    let rs: i64 = fx::div_trunc(s * SCALE, norm as i64);
    let r = Rot { c: crate::space::clamp_rot(rc), s: crate::space::clamp_rot(rs) };
    proof {
        let factor_s = fx::exp_decay_spec(0, SCALE as int, 20 * SCALE as int, dt as int);
        assert(factor as int == factor_s);
        let cs = fx::add_fx_spec(
            current.c as int,
            fx::mul_fx_spec(fx::add_fx_spec(target.c as int, -current.c as int), factor_s),
        );
        let ss = fx::add_fx_spec(
            current.s as int,
            fx::mul_fx_spec(fx::add_fx_spec(target.s as int, -current.s as int), factor_s),
        );
        assert(cs == c as int && ss == s as int);
        assert(!(cs == current.c as int && ss == current.s as int));
        assert(!(cs == 0 && ss == 0)) by {
            assert(norm as int * norm as int >= 1) by (nonlinear_arith)
                requires
                    norm >= 1u64,
            ;
            if cs == 0 && ss == 0 {
                assert(c as int * c as int + s as int * s as int == 0) by (nonlinear_arith)
                    requires
                        c as int == 0,
                        s as int == 0,
                ;
            }
        };
        assert(norm as int == fx::isqrt_spec(cs * cs + ss * ss));
        assert(r.c == clamp_rot_spec(fx::div_trunc_spec(cs * (SCALE as int), norm as int)));
        assert(r.s == clamp_rot_spec(fx::div_trunc_spec(ss * (SCALE as int), norm as int)));
        assert(r == ease_spec(current, target, dt as int));
    }
    r
}

/// The player's turret: a fixed platform that aims at the pointer and
/// fires its configured projectile kind, subject to a cooldown.
pub struct Turret {
    pub shape: Shape,
    pub position: Pose,
    pub time_since_shoot: i64,
    pub time_since_recharged: i64,
    pub projectile_kind: ProjectileKind,
    pub input: PlayerInput,
}

/// The pose at the barrel's muzzle: the platform center pushed along the
/// facing by the barrel length plus the projectile's front margin, facing
/// the same way.
pub open spec fn barrel_tip(t: Turret) -> Pose {
    let front = fx::div_trunc_spec(t.projectile_kind.properties.size.x as int, 2);
    let reach = fx::add_fx_spec(BARREL_LENGTH as int, front);
    let step = crate::space::rot_apply_spec(t.position.rot, Vec2 { x: reach as i64, y: 0 });
    Pose {
        tx: fx::add_fx_spec(t.position.tx as int, step.x as int) as i64,
        ty: fx::add_fx_spec(t.position.ty as int, step.y as int) as i64,
        rot: t.position.rot,
    }
}

/// Whether a tick of length dt fires: the buffered shot is armed and the
/// aged cooldown has elapsed.
pub open spec fn turret_fires(t: Turret, dt: int) -> bool {
    t.input.shoot && fx::cap_time_spec(t.time_since_shoot + dt)
        >= t.projectile_kind.shoot_cooldown
}

/// The barrel pull-back while recharging: the shoot offset scaled by the
/// squared remaining cooldown fraction, snapped outward to a tenth of a
/// unit. The snap works on the unscaled product, so any remaining
/// cooldown at all shows at least one step of pull-back.
pub open spec fn recharge_offset_spec(t: Turret) -> int {
    let progress = fx::clamp_unit_spec(
        fx::div_fx_spec(t.time_since_shoot as int, t.projectile_kind.shoot_cooldown as int),
    );
    let remaining = SCALE - progress;
    let pull = remaining * remaining * (BARREL_SHOOT_OFFSET as int);
    let q = pull / 100000000;
    if q * 100000000 < pull {
        (q + 1) * 100
    } else {
        q * 100
    }
}

pub open spec fn turret_wf(t: Turret) -> bool {
    &&& shape_wf(t.shape)
    &&& pose_wf(t.position)
    &&& 0 <= t.time_since_shoot <= FX_LIM
    &&& 0 <= t.time_since_recharged <= FX_LIM
    &&& projectile_kind_wf(t.projectile_kind)
    &&& player_input_wf(t.input)
}

impl Turret {
    pub fn new(kind: ProjectileKind) -> (r: Turret)
        requires
            projectile_kind_wf(kind),
        ensures
            turret_wf(r),
            r.projectile_kind == kind,
    {
        Turret {
            shape: Shape::Circle { radius: 600 },
            position: Pose { tx: 0, ty: 0, rot: crate::space::rot_identity() },
            time_since_shoot: 0,
            time_since_recharged: 0,
            projectile_kind: kind,
            input: PlayerInput::new(),
        }
    }

    /// The turret can fire once its cooldown has elapsed.
    pub fn can_shoot(&self) -> (r: bool)
        ensures
            r == (self.time_since_shoot >= self.projectile_kind.shoot_cooldown),
    {
        self.time_since_shoot >= self.projectile_kind.shoot_cooldown
    }

    /// Cooldown progress in [0, SCALE].
    pub fn shoot_recharge_progress(&self) -> (r: i64)
        requires
            turret_wf(*self),
        ensures
            r == fx::clamp_unit_spec(
                fx::div_fx_spec(
                    self.time_since_shoot as int,
                    self.projectile_kind.shoot_cooldown as int,
                ),
            ),
            0 <= r <= SCALE,
    {
        fx::clamp_unit(fx::div_fx(self.time_since_shoot, self.projectile_kind.shoot_cooldown))
    }

    /// How far the barrel sits pulled back while recharging: the shoot
    /// offset scaled by the square of the remaining cooldown fraction,
    /// snapped outward to the next tenth of a unit. Zero exactly when the
    /// cooldown has fully elapsed.
    pub fn shoot_recharge_offset(&self) -> (r: i64)
        requires
            turret_wf(*self),
        ensures
            r == recharge_offset_spec(*self),
            r % 100 == 0,
            0 <= r <= BARREL_SHOOT_OFFSET,
            (r == 0) <==> (self.time_since_shoot >= self.projectile_kind.shoot_cooldown),
    {
        let progress: i64 = self.shoot_recharge_progress();
        let remaining: i64 = SCALE - progress;
        proof {
            assert(0 <= remaining * remaining <= 1000000int) by (nonlinear_arith)
                requires
                    0 <= remaining <= 1000,
            ;
        }
        let square: i64 = remaining * remaining;
        proof {
            assert(0 <= square * 500 <= 500000000int) by (nonlinear_arith)
                requires
                    0 <= square <= 1000000,
            ;
        }
        let pull: i64 = square * BARREL_SHOOT_OFFSET;
        let q: i64 = fx::div_trunc(pull, 100000000);
        proof {
            assert(0 <= q <= 5) by {
                vstd::arithmetic::div_mod::lemma_div_pos_is_pos(pull as int, 100000000);
                vstd::arithmetic::div_mod::lemma_div_is_ordered(pull as int, 500000000, 100000000);
                assert(500000000int / 100000000 == 5);
            };
            if self.time_since_shoot >= self.projectile_kind.shoot_cooldown {
                let cd = self.projectile_kind.shoot_cooldown as int;
                let ts = self.time_since_shoot as int;
                assert(cd * 1000 <= ts * 1000) by (nonlinear_arith)
                    requires
                        cd <= ts,
                ;
                vstd::arithmetic::div_mod::lemma_div_is_ordered(cd * 1000, ts * 1000, cd);
                vstd::arithmetic::div_mod::lemma_div_multiples_vanish(1000, cd);
                assert(cd * 1000 == 1000 * cd);
                assert(ts * 1000 / cd >= 1000);
                assert(progress == 1000);
                assert(remaining == 0);
                assert(0int * 0 == 0);
                assert(pull == 0);
                assert(0int / 100000000 == 0);
            } else {
                // any remaining cooldown leaves a positive pull-back
                let cd = self.projectile_kind.shoot_cooldown as int;
                let ts = self.time_since_shoot as int;
                assert(ts * 1000 < cd * 1000) by (nonlinear_arith)
                    requires
                        0 <= ts < cd,
                ;
                assert(ts * 1000 / cd < 1000) by {
                    vstd::arithmetic::div_mod::lemma_fundamental_div_mod(ts * 1000, cd);
                    if ts * 1000 / cd >= 1000 {
                        assert(cd * (ts * 1000 / cd) >= cd * 1000) by (nonlinear_arith)
                            requires
                                ts * 1000 / cd >= 1000,
                                cd > 0,
                        ;
                    }
                };
                assert(progress < 1000);
                assert(remaining >= 1);
                assert(pull >= 500) by (nonlinear_arith)
                    requires
                        remaining >= 1,
                        square == remaining * remaining,
                        pull == square * 500,
                ;
            }
        }
        let snapped: i64 = if q * 100000000 < pull {
            proof {
                assert(q < 5) by {
                    if q == 5 {
                        assert(pull > 500000000);
                    }
                };
                vstd::arithmetic::div_mod::lemma_mod_multiples_basic(q as int + 1, 100);
            }
            (q + 1) * 100
        } else {
            proof {
                vstd::arithmetic::div_mod::lemma_mod_multiples_basic(q as int, 100);
                assert(q as int * 100000000 <= pull) by {
                    vstd::arithmetic::div_mod::lemma_fundamental_div_mod(pull as int, 100000000);
                    vstd::arithmetic::div_mod::lemma_mod_division_less_than_divisor(
                        pull as int,
                        100000000,
                    );
                    assert(100000000 * (pull as int / 100000000) == (pull as int / 100000000)
                        * 100000000) by (nonlinear_arith);
                };
            }
            q * 100
        };
        snapped
    }

    /// The recharge flash shows briefly after the cooldown elapses.
    pub fn show_recharge_animation(&self) -> (r: bool)
        ensures
            r == (self.time_since_shoot >= self.projectile_kind.shoot_cooldown
                && self.time_since_recharged < RECHARGE_ANIMATION_LENGTH),
    {
        self.can_shoot() && self.time_since_recharged < RECHARGE_ANIMATION_LENGTH
    }

    /// Fire: reset the cooldown, consume the buffered input, and spawn
    /// one projectile of the configured kind at the barrel tip, flying
    /// along the turret's facing.
    pub fn shoot(&mut self, projectiles: &mut Vec<Projectile>, rng: &mut Rng)
        requires
            turret_wf(*old(self)),
            forall|i: int|
                0 <= i < old(projectiles)@.len() ==> projectile_wf(
                    #[trigger] old(projectiles)@[i],
                ),
        ensures
            turret_wf(*final(self)),
            final(self).time_since_shoot == 0,
            (*final(self) == Turret {
                time_since_shoot: 0,
                input: PlayerInput { shoot: false, ..old(self).input },
                ..*old(self)
            }),
            final(projectiles)@.len() == old(projectiles)@.len() + 1,
            forall|i: int|
                0 <= i < old(projectiles)@.len() ==> final(projectiles)@[i] == old(
                    projectiles,
                )@[i],
            forall|i: int|
                0 <= i < final(projectiles)@.len() ==> projectile_wf(
                    #[trigger] final(projectiles)@[i],
                ),
            ({
                let spawned = final(projectiles)@[old(projectiles)@.len() as int];
                &&& projectile_wf(spawned)
                &&& spawned.properties == old(self).projectile_kind.properties
                &&& spawned.direction == old(self).position.rot
                &&& spawned.object.transform.position == barrel_tip(*old(self))
                &&& spawned.enemies_hit@.len() == 0
                &&& spawned.enemies_colliding@.len() == 0
                &&& spawned.enemies_intersecting@.len() == 0
                &&& !spawned.should_delete_spec()
            }),
    {
        self.time_since_shoot = 0;
        self.input.shoot = false;
        let front: i64 = self.projectile_kind.properties.distance_to_front();
        let reach: i64 = fx::add_fx(BARREL_LENGTH, front);
        let step: Vec2 = rot_apply(self.position.rot, Vec2 { x: reach, y: 0 });
        let tip: Pose = Pose {
            tx: fx::add_fx(self.position.tx, step.x),
            ty: fx::add_fx(self.position.ty, step.y),
            rot: self.position.rot,
        };
        let p: Projectile = Projectile::new(tip, &self.projectile_kind, rng);
        projectiles.push(p);
    }

    /// Advance the turret: age the cooldown, aim toward the pointer
    /// (snapping on the fire frame, easing otherwise), fire a buffered
    /// shot once the cooldown allows, and track the recharge flash timer.
    pub fn tick(
        &mut self,
        mouse_position: Vec2,
        projectiles: &mut Vec<Projectile>,
        rng: &mut Rng,
        dt: i64,
    )
        requires
            turret_wf(*old(self)),
            vec2_in_range(mouse_position),
            0 <= dt <= FX_LIM,
            forall|i: int|
                0 <= i < old(projectiles)@.len() ==> projectile_wf(
                    #[trigger] old(projectiles)@[i],
                ),
        ensures
            turret_wf(*final(self)),
            final(self).projectile_kind == old(self).projectile_kind,
            final(self).shape == old(self).shape,
            final(self).position.tx == old(self).position.tx,
            final(self).position.ty == old(self).position.ty,
            forall|i: int|
                0 <= i < old(projectiles)@.len() ==> final(projectiles)@[i] == old(
                    projectiles,
                )@[i],
            forall|i: int|
                0 <= i < final(projectiles)@.len() ==> projectile_wf(
                    #[trigger] final(projectiles)@[i],
                ),
            final(projectiles)@.len() == old(projectiles)@.len() + if turret_fires(
                *old(self),
                dt as int,
            ) {
                1int
            } else {
                0int
            },
            final(self).time_since_shoot == if turret_fires(*old(self), dt as int) {
                0int
            } else {
                fx::cap_time_spec(old(self).time_since_shoot + dt)
            },
            final(self).input == if turret_fires(*old(self), dt as int) {
                PlayerInput { shoot: false, ..old(self).input }
            } else {
                old(self).input
            },
            final(self).time_since_recharged == if final(self).time_since_shoot
                >= final(self).projectile_kind.shoot_cooldown {
                fx::cap_time_spec(old(self).time_since_recharged + dt)
            } else {
                0int
            },
            turret_fires(*old(self), dt as int) ==> ({
                let spawned = final(projectiles)@[old(projectiles)@.len() as int];
                &&& spawned.properties == old(self).projectile_kind.properties
                &&& spawned.direction == final(self).position.rot
                &&& spawned.object.transform.position == barrel_tip(*final(self))
                &&& spawned.enemies_hit@.len() == 0
                &&& spawned.enemies_colliding@.len() == 0
                &&& spawned.enemies_intersecting@.len() == 0
                &&& !spawned.should_delete_spec()
            }),
            // the new facing: snapped to the aim on the fire frame, eased
            // toward it otherwise
            ({
                let offset = Vec2 {
                    x: fx::add_fx_spec(mouse_position.x as int, -old(self).position.tx as int)
                        as i64,
                    y: fx::add_fx_spec(mouse_position.y as int, -old(self).position.ty as int)
                        as i64,
                };
                let aimed = aim_spec(old(self).position.rot, offset);
                final(self).position.rot == if turret_fires(*old(self), dt as int) {
                    aimed
                } else {
                    ease_spec(old(self).position.rot, aimed, dt as int)
                }
            }),
    {
        let offset: Vec2 = Vec2 {
            x: fx::sub_fx(mouse_position.x, self.position.tx),
            y: fx::sub_fx(mouse_position.y, self.position.ty),
        };
        let target: Rot = aim_from_offset(self.position.rot, offset);
        self.time_since_shoot = fx::add_time(self.time_since_shoot, dt);
        if self.input.shoot && self.can_shoot() {
            self.position.rot = target;
            self.shoot(projectiles, rng);
        } else {
            self.position.rot = ease_rotation(self.position.rot, target, dt);
        }
        if self.can_shoot() {
            self.time_since_recharged = fx::add_time(self.time_since_recharged, dt);
        } else {
            self.time_since_recharged = 0;
        }
    }
}

} // verus!
