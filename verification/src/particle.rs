use vstd::prelude::*;

use crate::fx;
use crate::object::{Transform, transform_wf};
use crate::pixels::{PixelDims, PixelPos};
use crate::space::{Vec2, vec2_in_range};

verus! {

/// A short-lived visual fragment: a transform, an optional attraction
/// target, an age, a fixed lifetime and a sub-rectangle of a texture in the
/// simulation's texture store. Particles never affect collisions.
#[derive(Clone, Copy, Debug, PartialEq, Eq, Structural)]
pub struct Particle {
    pub transform: Transform,
    /// Target of the attraction easing, if any.
    pub target_position: Option<EaseTarget>,
    pub time_since_creation: i64,
    pub maximum_lifetime: i64,
    /// Handle into the texture store.
    pub texture: usize,
    /// Origin of the drawn sub-rectangle inside the texture, in pixels.
    pub start: Option<PixelPos>,
    /// Size of the drawn sub-rectangle, in pixels.
    pub size: PixelDims,
}

/// A position a particle is eased toward, with the decay rate of the
/// easing.
#[derive(Clone, Copy, Debug, PartialEq, Eq, Structural)]
pub struct EaseTarget {
    pub position: Vec2,
    pub decay: i64,
}

pub open spec fn particle_wf(p: Particle) -> bool {
    &&& transform_wf(p.transform)
    &&& 0 <= p.time_since_creation <= fx::FX_LIM
    &&& 0 < p.maximum_lifetime <= fx::FX_LIM
    &&& match p.target_position {
        Some(t) => vec2_in_range(t.position) && 0 <= t.decay <= fx::FX_LIM,
        None => true,
    }
}

/// The eased translation component: the position moves toward the target by
/// the decayed fraction of the remaining distance.
pub open spec fn eased_coord(pos: int, target: int, factor: int) -> int {
    fx::add_fx_spec(pos, fx::mul_fx_spec(fx::add_fx_spec(target, -pos), factor))
}

/// The transform after one particle step: integration, then easing toward
/// the target if the particle has one.
pub open spec fn particle_ticked_transform(p: Particle, dt: int) -> crate::space::Pose {
    let tp = crate::object::ticked_pose(p.transform, dt);
    match p.target_position {
        None => tp,
        Some(t) => {
            let factor = fx::exp_decay_spec(0, fx::SCALE as int, t.decay as int, dt);
            crate::space::Pose {
                tx: eased_coord(tp.tx as int, t.position.x as int, factor) as i64,
                ty: eased_coord(tp.ty as int, t.position.y as int, factor) as i64,
                rot: tp.rot,
            }
        },
    }
}

/// The particle after one step of dt: a particle tick is deterministic,
/// so the whole result is a function of the entry state.
pub open spec fn particle_ticked(p: Particle, dt: int) -> Particle {
    Particle {
        transform: Transform {
            position: particle_ticked_transform(p, dt),
            linear_velocity: p.transform.linear_velocity,
            angular_velocity: p.transform.angular_velocity,
        },
        time_since_creation: fx::cap_time_spec(p.time_since_creation + dt) as i64,
        ..p
    }
}

impl Particle {
    /// Advance the particle: age it, integrate its transform, then ease it
    /// toward its target position if it has one. A step of length zero
    /// changes nothing.
    pub fn tick(&mut self, dt: i64)
        requires
            particle_wf(*old(self)),
            0 <= dt <= fx::FX_LIM,
        ensures
            particle_wf(*final(self)),
            *final(self) == particle_ticked(*old(self), dt as int),
            final(self).time_since_creation == fx::cap_time_spec(
                old(self).time_since_creation + dt,
            ),
            final(self).transform.position == particle_ticked_transform(*old(self), dt as int),
            final(self).transform.linear_velocity == old(self).transform.linear_velocity,
            final(self).transform.angular_velocity == old(self).transform.angular_velocity,
            final(self).maximum_lifetime == old(self).maximum_lifetime,
            final(self).texture == old(self).texture,
            final(self).start == old(self).start,
            final(self).size == old(self).size,
            final(self).target_position == old(self).target_position,
            dt == 0 ==> *final(self) == *old(self),
    {
        self.time_since_creation = fx::add_time(self.time_since_creation, dt);
        self.transform.tick(dt);
        match self.target_position {
            Some(t) => {
                let factor: i64 = fx::exp_decay(0, fx::SCALE, t.decay, dt);
                proof {
                    if dt == 0 {
                        fx::lemma_exp_decay_zero(0, fx::SCALE as int, t.decay as int);
                        assert(factor == 0);
                    }
                }
                let dx: i64 = fx::sub_fx(t.position.x, self.transform.position.tx);
                let dy: i64 = fx::sub_fx(t.position.y, self.transform.position.ty);
                proof {
                    if dt == 0 {
                        fx::lemma_mul_fx_by_zero(dx as int);
                        fx::lemma_mul_fx_by_zero(dy as int);
                    }
                }
                self.transform.position.tx = fx::add_fx(
                    self.transform.position.tx,
                    fx::mul_fx(dx, factor),
                );
                self.transform.position.ty = fx::add_fx(
                    self.transform.position.ty,
                    fx::mul_fx(dy, factor),
                );
            },
            None => {},
        }
    }

    /// A particle is spent once its age reaches its lifetime.
    pub fn should_delete(&self) -> (r: bool)
        ensures
            r == (self.time_since_creation >= self.maximum_lifetime),
    {
        self.time_since_creation >= self.maximum_lifetime
    }
}


} // verus!
