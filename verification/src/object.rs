use vstd::prelude::*;

use crate::fx;
use crate::shape;
use crate::shape::Shape;
use crate::space::{
    Pose, Rot, Vec2, pose_wf, rot_apply, rot_apply_spec, rot_from_angle, rot_from_angle_spec,
    rot_inverse, rot_inverse_spec, rot_mul, rot_mul_spec, vec2_in_range,
    lemma_rot_mul_identity,
};

verus! {

/// Position, rotation and their rates of change. Owned exclusively by the
/// entity it animates and mutated only by that entity's own tick.
#[derive(Clone, Copy, Debug, PartialEq, Eq, Structural)]
pub struct Transform {
    pub position: Pose,
    pub linear_velocity: Vec2,
    pub angular_velocity: i64,
}

pub open spec fn transform_wf(t: Transform) -> bool {
    pose_wf(t.position) && vec2_in_range(t.linear_velocity) && fx::in_range(t.angular_velocity)
}

/// The pose after one integration step of length dt.
pub open spec fn ticked_pose(t: Transform, dt: int) -> Pose {
    Pose {
        tx: fx::add_fx_spec(t.position.tx as int, fx::mul_fx_spec(t.linear_velocity.x as int, dt))
            as i64,
        ty: fx::add_fx_spec(t.position.ty as int, fx::mul_fx_spec(t.linear_velocity.y as int, dt))
            as i64,
        rot: rot_mul_spec(
            t.position.rot,
            rot_from_angle_spec(fx::mul_fx_spec(t.angular_velocity as int, dt)),
        ),
    }
}

impl Transform {
    /// One fixed integration step: the translation advances by velocity
    /// times dt, and the rotation composes with the angular step about the
    /// body's own center. A step of length zero changes nothing.
    pub fn tick(&mut self, dt: i64)
        requires
            transform_wf(*old(self)),
            fx::in_range(dt),
        ensures
            final(self).position == ticked_pose(*old(self), dt as int),
            final(self).linear_velocity == old(self).linear_velocity,
            final(self).angular_velocity == old(self).angular_velocity,
            transform_wf(*final(self)),
            dt == 0 ==> *final(self) == *old(self),
    {
        let step_x: i64 = fx::mul_fx(self.linear_velocity.x, dt);
        let step_y: i64 = fx::mul_fx(self.linear_velocity.y, dt);
        let angle: i64 = fx::mul_fx(self.angular_velocity, dt);
        let turn: Rot = rot_from_angle(angle);
        proof {
            if dt == 0 {
                fx::lemma_mul_fx_by_zero(self.linear_velocity.x as int);
                fx::lemma_mul_fx_by_zero(self.linear_velocity.y as int);
                fx::lemma_mul_fx_by_zero(self.angular_velocity as int);
                lemma_rot_mul_identity(self.position.rot);
            }
        }
        self.position.tx = fx::add_fx(self.position.tx, step_x);
        self.position.ty = fx::add_fx(self.position.ty, step_y);
        self.position.rot = rot_mul(self.position.rot, turn);
    }
}

/// A collision shape paired with the transform that animates it.
#[derive(Clone, Copy, Debug, PartialEq, Eq, Structural)]
pub struct Object {
    pub shape: Shape,
    pub transform: Transform,
}

pub open spec fn object_wf(o: Object) -> bool {
    shape::shape_wf(o.shape) && transform_wf(o.transform)
}

/// The relative pose carrying a's frame into b's frame.
pub open spec fn offset_to_spec(a: Pose, b: Pose) -> Pose {
    let inv = rot_inverse_spec(a.rot);
    let t = rot_apply_spec(
        inv,
        Vec2 {
            x: fx::add_fx_spec(b.tx as int, -a.tx as int) as i64,
            y: fx::add_fx_spec(b.ty as int, -a.ty as int) as i64,
        },
    );
    Pose { tx: t.x, ty: t.y, rot: rot_mul_spec(inv, b.rot) }
}

impl Object {
    /// The rigid pose carrying this object's frame into the other's.
    pub fn offset_to(&self, other: &Object) -> (r: Pose)
        requires
            pose_wf(self.transform.position),
            pose_wf(other.transform.position),
        ensures
            r == offset_to_spec(self.transform.position, other.transform.position),
            pose_wf(r),
    {
        let inv: Rot = rot_inverse(self.transform.position.rot);
        let dx: i64 = fx::sub_fx(other.transform.position.tx, self.transform.position.tx);
        let dy: i64 = fx::sub_fx(other.transform.position.ty, self.transform.position.ty);
        let t: Vec2 = rot_apply(inv, Vec2 { x: dx, y: dy });
        Pose { tx: t.x, ty: t.y, rot: rot_mul(inv, other.transform.position.rot) }
    }

    /// The plain difference of the two translations, in world space.
    pub fn linear_offset_to(&self, other: &Object) -> (r: Vec2)
        requires
            pose_wf(self.transform.position),
            pose_wf(other.transform.position),
        ensures
            r.x == fx::add_fx_spec(
                other.transform.position.tx as int,
                -self.transform.position.tx as int,
            ),
            r.y == fx::add_fx_spec(
                other.transform.position.ty as int,
                -self.transform.position.ty as int,
            ),
            vec2_in_range(r),
    {
        Vec2 {
            x: fx::sub_fx(other.transform.position.tx, self.transform.position.tx),
            y: fx::sub_fx(other.transform.position.ty, self.transform.position.ty),
        }
    }

    /// Exact overlap test between two posed objects.
    pub fn is_colliding(&self, other: &Object) -> (r: bool)
        requires
            object_wf(*self),
            object_wf(*other),
        ensures
            ({
                let off = offset_to_spec(self.transform.position, other.transform.position);
                r == shape::colliding(
                    self.shape,
                    other.shape,
                    off.tx as int,
                    off.ty as int,
                    off.rot.c as int,
                    off.rot.s as int,
                    1,
                )
            }),
    {
        let off: Pose = self.offset_to(other);
        self.shape.is_colliding(&other.shape, off)
    }
}

} // verus!
