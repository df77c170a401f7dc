use vstd::prelude::*;

use crate::fx;
use crate::fx::SCALE;

verus! {

use vstd::arithmetic::div_mod::{
    lemma_fundamental_div_mod,
    lemma_fundamental_div_mod_converse_mod,
    lemma_mod_division_less_than_divisor,
    lemma_small_mod,
};

/// One full turn in fixed-point radians.
pub const TAU_FX: i64 = 6283;

/// A quarter turn in fixed-point radians.
pub const QUARTER_FX: i64 = 1571;

/// Half a turn in fixed-point radians.
pub const HALF_FX: i64 = 3142;

/// A world-space vector in fixed-point units.
#[derive(Clone, Copy, Debug, PartialEq, Eq, Structural)]
pub struct Vec2 {
    pub x: i64,
    pub y: i64,
}

/// A rotation as a fixed-point point on the unit circle: the real rotation
/// is (c + i s) / SCALE.
#[derive(Clone, Copy, Debug, PartialEq, Eq, Structural)]
pub struct Rot {
    pub c: i64,
    pub s: i64,
}

/// A rigid 2D pose: translation plus rotation.
#[derive(Clone, Copy, Debug, PartialEq, Eq, Structural)]
pub struct Pose {
    pub tx: i64,
    pub ty: i64,
    pub rot: Rot,
}

pub open spec fn vec2_in_range(v: Vec2) -> bool {
    fx::in_range(v.x) && fx::in_range(v.y)
}

/// Rotation components never leave [-SCALE, SCALE].
pub open spec fn rot_wf(r: Rot) -> bool {
    -SCALE <= r.c <= SCALE && -SCALE <= r.s <= SCALE
}

/// An exact point of the fixed-point unit circle.
pub open spec fn rot_unit(r: Rot) -> bool {
    r.c * r.c + r.s * r.s == SCALE * SCALE
}

pub open spec fn pose_wf(p: Pose) -> bool {
    fx::in_range(p.tx) && fx::in_range(p.ty) && rot_wf(p.rot)
}

pub open spec fn rot_identity_spec() -> Rot {
    Rot { c: SCALE, s: 0 }
}

pub fn rot_identity() -> (r: Rot)
    ensures
        r == rot_identity_spec(),
        rot_wf(r),
        rot_unit(r),
{
    Rot { c: SCALE, s: 0 }
}

/// Clamp a rotation component into [-SCALE, SCALE].
pub open spec fn clamp_rot_spec(x: int) -> int {
    if x < -SCALE {
        -SCALE as int
    } else if x > SCALE {
        SCALE as int
    } else {
        x
    }
}

pub fn clamp_rot(x: i64) -> (r: i64)
    ensures
        r == clamp_rot_spec(x as int),
        -SCALE <= r <= SCALE,
{
    if x < -SCALE {
        -SCALE
    } else if x > SCALE {
        SCALE
    } else {
        x
    }
}

/// Composition of two rotations: complex multiplication, rescaled.
pub open spec fn rot_mul_spec(a: Rot, b: Rot) -> Rot {
    Rot {
        c: clamp_rot_spec(fx::div_trunc_spec(a.c * b.c - a.s * b.s, SCALE as int)) as i64,
        s: clamp_rot_spec(fx::div_trunc_spec(a.c * b.s + a.s * b.c, SCALE as int)) as i64,
    }
}

pub fn rot_mul(a: Rot, b: Rot) -> (r: Rot)
    requires
        rot_wf(a),
        rot_wf(b),
    ensures
        r == rot_mul_spec(a, b),
        rot_wf(r),
{
    assert(fx::abs_spec(a.c * b.c) <= 1000000 && fx::abs_spec(a.s * b.s) <= 1000000 && fx::abs_spec(
        a.c * b.s,
    ) <= 1000000 && fx::abs_spec(a.s * b.c) <= 1000000) by (nonlinear_arith)
        requires
            rot_wf(a),
            rot_wf(b),
    ;
    let cc: i64 = a.c * b.c;
    let ss: i64 = a.s * b.s;
    let cs: i64 = a.c * b.s;
    let sc: i64 = a.s * b.c;
    Rot {
        c: clamp_rot(fx::div_trunc(cc - ss, SCALE)),
        s: clamp_rot(fx::div_trunc(cs + sc, SCALE)),
    }
}

pub open spec fn rot_inverse_spec(r: Rot) -> Rot {
    Rot { c: r.c, s: (-r.s) as i64 }
}

pub fn rot_inverse(r: Rot) -> (inv: Rot)
    requires
        rot_wf(r),
    ensures
        inv == rot_inverse_spec(r),
        rot_wf(inv),
{
    Rot { c: r.c, s: -r.s }
}

/// Composing with the identity changes nothing.
pub proof fn lemma_rot_mul_identity(a: Rot)
    requires
        rot_wf(a),
    ensures
        rot_mul_spec(a, rot_identity_spec()) == a,
{
    assert(a.c * SCALE - a.s * 0 == a.c * SCALE);
    assert(a.c * 0 + a.s * SCALE == a.s * SCALE);
    assert(fx::div_trunc_spec(a.c * SCALE, SCALE as int) == a.c) by (nonlinear_arith)
        requires
            -SCALE <= a.c <= SCALE,
            SCALE == 1000,
    ;
    assert(fx::div_trunc_spec(a.s * SCALE, SCALE as int) == a.s) by (nonlinear_arith)
        requires
            -SCALE <= a.s <= SCALE,
            SCALE == 1000,
    ;
}

/// Rotate a world-space vector.
pub open spec fn rot_apply_spec(r: Rot, v: Vec2) -> Vec2 {
    Vec2 {
        x: fx::clamp_spec(fx::div_trunc_spec(r.c * v.x - r.s * v.y, SCALE as int)) as i64,
        y: fx::clamp_spec(fx::div_trunc_spec(r.s * v.x + r.c * v.y, SCALE as int)) as i64,
    }
}

pub fn rot_apply(r: Rot, v: Vec2) -> (w: Vec2)
    requires
        rot_wf(r),
        vec2_in_range(v),
    ensures
        w == rot_apply_spec(r, v),
        vec2_in_range(w),
{
    assert(fx::abs_spec(r.c * v.x) <= 1000 * 1000000000 && fx::abs_spec(r.s * v.y) <= 1000
        * 1000000000 && fx::abs_spec(r.s * v.x) <= 1000 * 1000000000 && fx::abs_spec(r.c * v.y)
        <= 1000 * 1000000000) by (nonlinear_arith)
        requires
            rot_wf(r),
            vec2_in_range(v),
    ;
    let xs: i64 = r.c * v.x - r.s * v.y;
    let ys: i64 = r.s * v.x + r.c * v.y;
    Vec2 { x: fx::clamp_fx(fx::div_trunc(xs, SCALE)), y: fx::clamp_fx(fx::div_trunc(ys, SCALE)) }
}

/// A rotation by k quarter turns, exact on the fixed-point circle.
pub open spec fn rot_quarter_spec(k: int) -> Rot {
    if k % 4 == 0 {
        Rot { c: SCALE, s: 0 }
    } else if k % 4 == 1 {
        Rot { c: 0, s: SCALE }
    } else if k % 4 == 2 {
        Rot { c: (-SCALE) as i64, s: 0 }
    } else {
        Rot { c: 0, s: (-SCALE) as i64 }
    }
}

pub fn rot_quarter(k: usize) -> (r: Rot)
    ensures
        r == rot_quarter_spec(k as int),
        rot_wf(r),
        rot_unit(r),
{
    proof {
        assert(1000int * 1000 == 1000000);
        assert((-1000int) * (-1000int) == 1000000);
        assert(0int * 0 == 0);
    }
    let m: usize = k % 4;
    if m == 0 {
        Rot { c: SCALE, s: 0 }
    } else if m == 1 {
        Rot { c: 0, s: SCALE }
    } else if m == 2 {
        let neg: i64 = 0 - SCALE;
        Rot { c: neg, s: 0 }
    } else {
        let neg: i64 = 0 - SCALE;
        Rot { c: 0, s: neg }
    }
}

/// Truncated 7-term sine series on the first quarter turn.
pub open spec fn sin_core_spec(x: int) -> int {
    let x2 = x * x;
    let x3 = x2 * x;
    let x5 = x3 * x2;
    let x7 = x5 * x2;
    fx::clamp_unit_spec(x - x3 / 6000000 + x5 / 120000000000000 - x7 / 5040000000000000000000)
}

fn sin_core(x: i64) -> (r: i64)
    requires
        0 <= x <= QUARTER_FX,
    ensures
        r == sin_core_spec(x as int),
        0 <= r <= SCALE,
{
    assert(0 <= x * x <= 1571 * 1571) by (nonlinear_arith)
        requires
            0 <= x <= 1571,
    ;
    let x2: i64 = x * x;
    assert(0 <= x2 * x <= 2468041int * 1571) by (nonlinear_arith)
        requires
            0 <= x <= 1571,
            0 <= x2 <= 2468041,
    ;
    let x3: i64 = x2 * x;
    assert(0 <= x3 * x2 <= 3877292411int * 2468041) by (nonlinear_arith)
        requires
            0 <= x2 <= 2468041,
            0 <= x3 <= 3877292411,
    ;
    let x5: i64 = x3 * x2;
    assert(0 <= (x5 as i128) * (x2 as i128) <= 9569316639336851int * 2468041) by (nonlinear_arith)
        requires
            0 <= (x5 as i128) <= 9569316639336851i128,
            0 <= (x2 as i128) <= 2468041i128,
    ;
    let x7w: i128 = (x5 as i128) * (x2 as i128);
    let t3: i64 = x3 / 6000000;
    let t5: i64 = x5 / 120000000000000;
    let t7: i64 = (x7w / 5040000000000000000000) as i64;
    fx::clamp_unit(x - t3 + t5 - t7)
}

/// Reduce an angle to [0, TAU_FX): the Euclidean remainder.
pub open spec fn reduce_angle_spec(a: int) -> int {
    a % (TAU_FX as int)
}

fn reduce_angle(a: i64) -> (r: i64)
    requires
        fx::abs_spec(a as int) <= 1100000000,
    ensures
        r == reduce_angle_spec(a as int),
        0 <= r < TAU_FX,
{
    let q: i64 = fx::div_trunc(a, TAU_FX);
    assert(fx::abs_spec((q as int) * 6283) <= 1100000000int * 6283) by (nonlinear_arith)
        requires
            fx::abs_spec(q as int) <= 1100000000int,
    ;
    let rem: i64 = a - q * TAU_FX;
    proof {
        let ai = a as int;
        if a >= 0 {
            lemma_fundamental_div_mod(ai, 6283);
            lemma_mod_division_less_than_divisor(ai, 6283);
            assert(6283 * (ai / 6283) == (ai / 6283) * 6283) by (nonlinear_arith);
            assert(rem == ai % 6283);
        } else {
            let n = -ai;
            lemma_fundamental_div_mod(n, 6283);
            lemma_mod_division_less_than_divisor(n, 6283);
            assert(6283 * (n / 6283) == (n / 6283) * 6283) by (nonlinear_arith);
            assert(q as int == -(n / 6283));
            assert((-(n / 6283)) * 6283 == -((n / 6283) * 6283)) by (nonlinear_arith);
            assert(rem == -(n % 6283));
            if rem == 0 {
                lemma_fundamental_div_mod_converse_mod(ai, 6283, q as int, 0);
            } else {
                assert((q as int - 1) * 6283 == (q as int) * 6283 - 6283) by (nonlinear_arith);
                lemma_fundamental_div_mod_converse_mod(ai, 6283, q as int - 1, rem as int + 6283);
            }
        }
    }
    if rem < 0 {
        rem + TAU_FX
    } else {
        rem
    }
}

/// The sine of a reduced angle, by symmetry from the first quarter turn.
pub open spec fn sin_reduced_spec(a: int) -> int {
    if a <= QUARTER_FX {
        sin_core_spec(a)
    } else if a < HALF_FX {
        sin_core_spec(HALF_FX - a)
    } else if a - HALF_FX <= QUARTER_FX {
        -sin_core_spec(a - HALF_FX)
    } else {
        -sin_core_spec(2 * HALF_FX - a)
    }
}

pub open spec fn sin_fx_spec(a: int) -> int {
    sin_reduced_spec(reduce_angle_spec(a))
}

pub open spec fn cos_fx_spec(a: int) -> int {
    sin_reduced_spec(reduce_angle_spec(a + QUARTER_FX))
}

pub fn sin_fx(a: i64) -> (r: i64)
    requires
        fx::in_range(a),
    ensures
        r == sin_fx_spec(a as int),
        -SCALE <= r <= SCALE,
{
    let red: i64 = reduce_angle(a);
    if red <= QUARTER_FX {
        sin_core(red)
    } else if red < HALF_FX {
        sin_core(HALF_FX - red)
    } else if red - HALF_FX <= QUARTER_FX {
        -sin_core(red - HALF_FX)
    } else {
        -sin_core(2 * HALF_FX - red)
    }
}

pub fn cos_fx(a: i64) -> (r: i64)
    requires
        fx::in_range(a),
    ensures
        r == cos_fx_spec(a as int),
        -SCALE <= r <= SCALE,
{
    let shifted: i64 = a + QUARTER_FX;
    let red: i64 = reduce_angle(shifted);
    if red <= QUARTER_FX {
        sin_core(red)
    } else if red < HALF_FX {
        sin_core(HALF_FX - red)
    } else if red - HALF_FX <= QUARTER_FX {
        -sin_core(red - HALF_FX)
    } else {
        -sin_core(2 * HALF_FX - red)
    }
}

pub open spec fn rot_from_angle_spec(a: int) -> Rot {
    Rot { c: cos_fx_spec(a) as i64, s: sin_fx_spec(a) as i64 }
}

/// The rotation of a fixed-point angle. Exactly the identity at angle zero.
pub fn rot_from_angle(a: i64) -> (r: Rot)
    requires
        fx::in_range(a),
    ensures
        r == rot_from_angle_spec(a as int),
        rot_wf(r),
        a == 0 ==> r == rot_identity_spec(),
{
    let c: i64 = cos_fx(a);
    let s: i64 = sin_fx(a);
    proof {
        if a == 0 {
            lemma_small_mod(0nat, 6283nat);
            lemma_small_mod(1571nat, 6283nat);
            assert(sin_core_spec(0) == 0);
            assert(sin_core_spec(1571) == 1000) by {
                assert(1571int * 1571 == 2468041);
                assert(2468041int * 1571 == 3877292411);
                assert(3877292411int * 2468041 == 9569316639336851);
                assert(9569316639336851int * 2468041 == 23617465807865561078891);
                assert(3877292411int / 6000000 == 646);
                assert(9569316639336851int / 120000000000000 == 79);
                assert(23617465807865561078891int / 5040000000000000000000 == 4);
            };
        }
    }
    Rot { c, s }
}

} // verus!
